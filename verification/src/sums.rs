//! Sums of products of non-negative integers: precedence resolution and
//! evaluation give them the value that arithmetic gives them.
//!
//! The value in arithmetic is `standard_value`: the value of a literal is the
//! integer that it writes, of a group the value of the expression in it, of
//! `left + right` the sum of the two values, and of `left * right`, where
//! `+` stands only in parentheses, their product. The engine computes this
//! value modulo 2^32 (`lemma_sum_of_products`), and so this value itself where
//! 32 bits can hold it (`lemma_sum_of_products_that_fits`).
use crate::error::EvalErrorView;
use crate::eval::{eval_stack, lemma_eval_in_two, lemma_eval_on_top, spec_eval_postfix};
use crate::math::{
    int_op, spec_apply, standard, wrap_i32, AtomView, Lexeme, NumberView, Operator,
};
use crate::meaning::{lemma_expression_is_evaluated, value_of};
use crate::postfix::{flush, pop_while, shunt, spec_into_postfix, well_formed, Shunting};
use vstd::arithmetic::div_mod::{lemma_add_mod_noop, lemma_mul_mod_noop_general};
use vstd::prelude::*;

verus! {

/// Whether the tokens are an expression of non-negative integer literals,
/// `+`, `*` and groups of the same kind.
pub open spec fn is_sum_of_products(tokens: Seq<AtomView>) -> bool
    decreases tokens,
{
    &&& tokens.len() % 2 == 1
    &&& forall|i: int|
        0 <= i < tokens.len() ==> match #[trigger] tokens[i] {
            AtomView::Op(op) => i % 2 == 1 && (op == standard(Lexeme::Add) || op == standard(
                Lexeme::Mul,
            )),
            AtomView::Lit(NumberView::I32(v)) => i % 2 == 0 && v >= 0,
            AtomView::Parens(inner) => i % 2 == 0 && is_sum_of_products(inner),
            _ => false,
        }
}

/// Whether the last operator among the tokens is `*`.
pub open spec fn ends_in_product(tokens: Seq<AtomView>) -> bool {
    tokens.len() >= 3 && tokens[tokens.len() - 2] == AtomView::Op(standard(Lexeme::Mul))
}

/// The value of an operand in arithmetic: of a literal the integer it
/// writes, and of a group the value of its expression.
pub open spec fn operand_value(token: AtomView) -> int
    decreases token, 0nat,
{
    match token {
        AtomView::Lit(NumberView::I32(v)) => v as int,
        AtomView::Parens(inner) => standard_value(inner),
        _ => 0,
    }
}

/// The product of the operands that stand after the last `+`.
pub open spec fn last_term(tokens: Seq<AtomView>) -> int
    decreases tokens, 0nat,
{
    if tokens.len() == 0 {
        1
    } else if ends_in_product(tokens) {
        last_term(tokens.take(tokens.len() - 2)) * operand_value(tokens.last())
    } else {
        operand_value(tokens.last())
    }
}

/// The sum of the products that stand before the last `+`.
pub open spec fn earlier_terms(tokens: Seq<AtomView>) -> int
    decreases tokens, 0nat,
{
    if tokens.len() < 3 {
        0
    } else if ends_in_product(tokens) {
        earlier_terms(tokens.take(tokens.len() - 2))
    } else {
        earlier_terms(tokens.take(tokens.len() - 2)) + last_term(tokens.take(tokens.len() - 2))
    }
}

/// The value of a sum of products in arithmetic: products before sums, and
/// groups first.
pub open spec fn standard_value(tokens: Seq<AtomView>) -> int
    decreases tokens, 1nat,
{
    earlier_terms(tokens) + last_term(tokens)
}

/// Whether there is a `+` among the tokens, those inside groups apart.
pub open spec fn has_sum(tokens: Seq<AtomView>) -> bool
    decreases tokens.len(),
{
    tokens.len() >= 3 && (!ends_in_product(tokens) || has_sum(tokens.take(tokens.len() - 2)))
}

/// The tokens of `left + right`.
pub open spec fn joined_by_sum(left: Seq<AtomView>, right: Seq<AtomView>) -> Seq<AtomView> {
    left + seq![AtomView::Op(standard(Lexeme::Add))] + right
}

/// The tokens of `left * right`.
pub open spec fn joined_by_product(left: Seq<AtomView>, right: Seq<AtomView>) -> Seq<AtomView> {
    left + seq![AtomView::Op(standard(Lexeme::Mul))] + right
}

/// What stands after a `+` is read as if nothing stood before it, and what
/// stands before it counts with its whole value.
proof fn lemma_terms_after_a_sum(left: Seq<AtomView>, right: Seq<AtomView>)
    requires
        is_sum_of_products(left),
        is_sum_of_products(right),
    ensures
        earlier_terms(joined_by_sum(left, right)) == standard_value(left) + earlier_terms(right),
        last_term(joined_by_sum(left, right)) == last_term(right),
    decreases right.len(),
{
    let all = joined_by_sum(left, right);
    let n = right.len() as int;
    assert(all.last() == right.last());
    if n == 1 {
        assert(all.take(all.len() - 2) =~= left);
        assert(all[all.len() - 2] == AtomView::Op(standard(Lexeme::Add)));
    } else {
        let shorter = right.take(n - 2);
        lemma_earlier_is_sum_of_products(right);
        lemma_terms_after_a_sum(left, shorter);
        assert(all.take(all.len() - 2) =~= joined_by_sum(left, shorter));
        assert(all[all.len() - 2] == right[n - 2]);
    }
}

/// The value of `left + right` is the sum of the values of `left` and
/// `right`.
pub proof fn lemma_value_of_a_sum(left: Seq<AtomView>, right: Seq<AtomView>)
    requires
        is_sum_of_products(left),
        is_sum_of_products(right),
    ensures
        is_sum_of_products(joined_by_sum(left, right)),
        standard_value(joined_by_sum(left, right)) == standard_value(left) + standard_value(right),
{
    lemma_terms_after_a_sum(left, right);
    let all = joined_by_sum(left, right);
    assert forall|i: int| 0 <= i < all.len() implies match #[trigger] all[i] {
        AtomView::Op(op) => i % 2 == 1 && (op == standard(Lexeme::Add) || op == standard(
            Lexeme::Mul,
        )),
        AtomView::Lit(NumberView::I32(v)) => i % 2 == 0 && v >= 0,
        AtomView::Parens(inner) => i % 2 == 0 && is_sum_of_products(inner),
        _ => false,
    } by {
        if i < left.len() {
            assert(all[i] == left[i]);
        } else if i > left.len() {
            assert(all[i] == right[i - left.len() - 1]);
        }
    }
}

/// A product that stands after a `*` goes on with the product before it, and
/// leaves the sum before that alone.
proof fn lemma_terms_after_a_product(left: Seq<AtomView>, right: Seq<AtomView>)
    requires
        is_sum_of_products(left),
        is_sum_of_products(right),
        !has_sum(right),
    ensures
        earlier_terms(joined_by_product(left, right)) == earlier_terms(left),
        last_term(joined_by_product(left, right)) == last_term(left) * last_term(right),
    decreases right.len(),
{
    let all = joined_by_product(left, right);
    let n = right.len() as int;
    assert(all.last() == right.last());
    if n == 1 {
        assert(all.take(all.len() - 2) =~= left);
        assert(all[all.len() - 2] == AtomView::Op(standard(Lexeme::Mul)));
    } else {
        let shorter = right.take(n - 2);
        lemma_earlier_is_sum_of_products(right);
        lemma_terms_after_a_product(left, shorter);
        assert(all.take(all.len() - 2) =~= joined_by_product(left, shorter));
        assert(all[all.len() - 2] == right[n - 2]);
        assert(last_term(left) * (last_term(shorter) * operand_value(right.last())) == (last_term(
            left,
        ) * last_term(shorter)) * operand_value(right.last())) by (nonlinear_arith);
    }
}

/// The value of `left * right`, where neither holds a `+` outside
/// parentheses, is the product of the values of `left` and `right`.
pub proof fn lemma_value_of_a_product(left: Seq<AtomView>, right: Seq<AtomView>)
    requires
        is_sum_of_products(left),
        is_sum_of_products(right),
        !has_sum(left),
        !has_sum(right),
    ensures
        standard_value(joined_by_product(left, right)) == standard_value(left) * standard_value(
            right,
        ),
{
    lemma_terms_after_a_product(left, right);
    lemma_no_sum(left);
    lemma_no_sum(right);
}

/// The value of one literal is the integer that it writes, and the value of
/// one group is the value of the expression in it.
pub proof fn lemma_value_of_an_operand(operand: AtomView)
    ensures
        standard_value(seq![operand]) == operand_value(operand),
{
}

/// The integer `value` as a number on the operand stack.
pub open spec fn wrapped(value: int) -> NumberView {
    NumberView::I32(wrap_i32(value))
}

/// The `+` that waits, if one does.
spec fn sum_waiting(tokens: Seq<AtomView>) -> Seq<Operator> {
    if has_sum(tokens) {
        seq![standard(Lexeme::Add)]
    } else {
        Seq::empty()
    }
}

/// The sum of the earlier products on the stack, if a `+` waits.
spec fn sum_computed(tokens: Seq<AtomView>) -> Seq<NumberView> {
    if has_sum(tokens) {
        seq![wrapped(earlier_terms(tokens))]
    } else {
        Seq::empty()
    }
}

/// The operators that wait after a sum of products has been read: the last
/// `+`, if there is one, and the last `*`, if it stands after that.
spec fn waiting(tokens: Seq<AtomView>) -> Seq<Operator> {
    sum_waiting(tokens) + (if ends_in_product(tokens) {
        seq![standard(Lexeme::Mul)]
    } else {
        Seq::empty()
    })
}

/// The operand stack after what a sum of products has emitted: the sum of
/// the earlier products, if there is a `+`; the product of the operands
/// since then but the last, if a `*` waits; and the last operand.
spec fn computed(tokens: Seq<AtomView>) -> Seq<NumberView> {
    sum_computed(tokens) + (if ends_in_product(tokens) {
        seq![wrapped(last_term(tokens.take(tokens.len() - 2)))]
    } else {
        Seq::empty()
    }) + seq![wrapped(operand_value(tokens.last()))]
}

/// Wrapping around does not disturb sums.
proof fn lemma_wrap_add(a: int, b: int)
    ensures
        wrap_i32(wrap_i32(a) + wrap_i32(b)) == wrap_i32(a + b),
{
    let m = 0x1_0000_0000int;
    assert(wrap_i32(a) as int % m == a % m);
    assert(wrap_i32(b) as int % m == b % m);
    lemma_add_mod_noop(wrap_i32(a) as int, wrap_i32(b) as int, m);
    lemma_add_mod_noop(a, b, m);
}

/// Wrapping around does not disturb products.
proof fn lemma_wrap_mul(a: int, b: int)
    ensures
        wrap_i32(wrap_i32(a) * wrap_i32(b)) == wrap_i32(a * b),
{
    let m = 0x1_0000_0000int;
    assert(wrap_i32(a) as int % m == a % m);
    assert(wrap_i32(b) as int % m == b % m);
    lemma_mul_mod_noop_general(wrap_i32(a) as int, wrap_i32(b) as int, m);
    lemma_mul_mod_noop_general(a, b, m);
}

/// What an emitted `+` or `*` does to the two numbers on top of the stack.
proof fn lemma_emit(
    output: Seq<AtomView>,
    below: Seq<NumberView>,
    a: int,
    b: int,
    lexeme: Lexeme,
    env: Map<Seq<char>, NumberView>,
)
    requires
        lexeme == Lexeme::Add || lexeme == Lexeme::Mul,
        eval_stack(output, env) == Ok::<Seq<NumberView>, EvalErrorView>(
            below + seq![wrapped(a), wrapped(b)],
        ),
    ensures
        eval_stack(output.push(AtomView::Op(standard(lexeme))), env) == Ok::<
            Seq<NumberView>,
            EvalErrorView,
        >(below + seq![wrapped(int_op(lexeme, a, b))]),
{
    let stack = below + seq![wrapped(a), wrapped(b)];
    let longer = output.push(AtomView::Op(standard(lexeme)));
    assert(longer.drop_last() =~= output);
    assert(longer.last() == AtomView::Op(standard(lexeme)));
    assert(stack[stack.len() - 2] == wrapped(a));
    assert(stack[stack.len() - 1] == wrapped(b));
    lemma_wrap_add(a, b);
    lemma_wrap_mul(a, b);
    assert(spec_apply(lexeme, wrapped(a), wrapped(b)) == Ok::<NumberView, EvalErrorView>(
        wrapped(int_op(lexeme, a, b)),
    ));
    assert(stack.take(stack.len() - 2).push(wrapped(int_op(lexeme, a, b))) =~= below + seq![
        wrapped(int_op(lexeme, a, b)),
    ]);
}

/// Without a `+` there are no earlier products.
proof fn lemma_no_sum(tokens: Seq<AtomView>)
    requires
        !has_sum(tokens),
    ensures
        earlier_terms(tokens) == 0,
    decreases tokens.len(),
{
    if tokens.len() >= 3 {
        lemma_no_sum(tokens.take(tokens.len() - 2));
    }
}

/// What was emitted, with the `*` that waits, if one does.
spec fn product_closed(output: Seq<AtomView>, tokens: Seq<AtomView>) -> Seq<AtomView> {
    if ends_in_product(tokens) {
        output.push(AtomView::Op(standard(Lexeme::Mul)))
    } else {
        output
    }
}

/// Emitting the `*` that waits, if one does, leaves the last product on the
/// stack.
proof fn lemma_close_product(
    output: Seq<AtomView>,
    tokens: Seq<AtomView>,
    env: Map<Seq<char>, NumberView>,
)
    requires
        tokens.len() > 0,
        eval_stack(output, env) == Ok::<Seq<NumberView>, EvalErrorView>(computed(tokens)),
    ensures
        eval_stack(product_closed(output, tokens), env) == Ok::<Seq<NumberView>, EvalErrorView>(
            sum_computed(tokens) + seq![wrapped(last_term(tokens))],
        ),
{
    if ends_in_product(tokens) {
        let before = last_term(tokens.take(tokens.len() - 2));
        let last = operand_value(tokens.last());
        assert(computed(tokens) =~= sum_computed(tokens) + seq![wrapped(before), wrapped(last)]);
        lemma_emit(output, sum_computed(tokens), before, last, Lexeme::Mul, env);
    } else {
        assert(computed(tokens) =~= sum_computed(tokens) + seq![wrapped(last_term(tokens))]);
    }
}

/// What a `*` that is read does after a sum of products: it has the `*` that
/// waits emitted, if one does, and waits itself.
proof fn lemma_read_product(
    output: Seq<AtomView>,
    tokens: Seq<AtomView>,
    env: Map<Seq<char>, NumberView>,
)
    requires
        tokens.len() > 0,
        eval_stack(output, env) == Ok::<Seq<NumberView>, EvalErrorView>(computed(tokens)),
    ensures
        pop_while(output, waiting(tokens), standard(Lexeme::Mul).precedence) == (Shunting {
            output: product_closed(output, tokens),
            pending: sum_waiting(tokens),
        }),
        eval_stack(product_closed(output, tokens), env) == Ok::<Seq<NumberView>, EvalErrorView>(
            sum_computed(tokens) + seq![wrapped(last_term(tokens))],
        ),
{
    lemma_close_product(output, tokens, env);
    let pending = waiting(tokens);
    if ends_in_product(tokens) {
        assert(pending.last() == standard(Lexeme::Mul));
        assert(pending.drop_last() =~= sum_waiting(tokens));
        let closed = output.push(AtomView::Op(standard(Lexeme::Mul)));
        assert(pop_while(output, pending, 10) == pop_while(closed, sum_waiting(tokens), 10));
        assert(pop_while(closed, sum_waiting(tokens), 10) == Shunting {
            output: closed,
            pending: sum_waiting(tokens),
        });
    } else {
        assert(pending =~= sum_waiting(tokens));
    }
}

/// What a `+` that is read does after a sum of products: it has all that
/// waits emitted, which leaves the value so far alone on the stack, and
/// waits itself.
proof fn lemma_read_sum(
    output: Seq<AtomView>,
    tokens: Seq<AtomView>,
    env: Map<Seq<char>, NumberView>,
)
    requires
        tokens.len() > 0,
        eval_stack(output, env) == Ok::<Seq<NumberView>, EvalErrorView>(computed(tokens)),
    ensures
        pop_while(output, waiting(tokens), standard(Lexeme::Add).precedence).pending
            == Seq::<Operator>::empty(),
        pop_while(output, waiting(tokens), standard(Lexeme::Add).precedence).output == flush(
            output,
            waiting(tokens),
        ),
        eval_stack(flush(output, waiting(tokens)), env) == Ok::<Seq<NumberView>, EvalErrorView>(
            seq![wrapped(standard_value(tokens))],
        ),
{
    lemma_close_product(output, tokens, env);
    let pending = waiting(tokens);
    let closed = product_closed(output, tokens);
    if ends_in_product(tokens) {
        assert(pending.last() == standard(Lexeme::Mul));
        assert(pending.drop_last() =~= sum_waiting(tokens));
        assert(pop_while(output, pending, 5) == pop_while(closed, sum_waiting(tokens), 5));
        assert(flush(output, pending) == flush(closed, sum_waiting(tokens)));
    } else {
        assert(pending =~= sum_waiting(tokens));
    }
    if has_sum(tokens) {
        let all = closed.push(AtomView::Op(standard(Lexeme::Add)));
        assert(sum_waiting(tokens).last() == standard(Lexeme::Add));
        assert(sum_waiting(tokens).drop_last() =~= Seq::<Operator>::empty());
        assert(pop_while(closed, sum_waiting(tokens), 5) == pop_while(
            all,
            Seq::<Operator>::empty(),
            5,
        ));
        assert(flush(closed, sum_waiting(tokens)) == flush(all, Seq::<Operator>::empty()));
        assert(sum_computed(tokens) + seq![wrapped(last_term(tokens))] =~= Seq::<
            NumberView,
        >::empty() + seq![wrapped(earlier_terms(tokens)), wrapped(last_term(tokens))]);
        lemma_emit(
            closed,
            Seq::empty(),
            earlier_terms(tokens),
            last_term(tokens),
            Lexeme::Add,
            env,
        );
        assert(Seq::<NumberView>::empty() + seq![wrapped(standard_value(tokens))] =~= seq![
            wrapped(standard_value(tokens)),
        ]);
    } else {
        lemma_no_sum(tokens);
        assert(sum_computed(tokens) + seq![wrapped(last_term(tokens))] =~= seq![
            wrapped(standard_value(tokens)),
        ]);
    }
}

/// A sum of products comes out in postfix order and evaluates to the value
/// that arithmetic gives it, which wraps around where 32 bits cannot hold it.
pub proof fn lemma_sum_of_products(tokens: Seq<AtomView>, env: Map<Seq<char>, NumberView>)
    requires
        is_sum_of_products(tokens),
    ensures
        well_formed(tokens),
        value_of(tokens, env) == Ok::<NumberView, EvalErrorView>(wrapped(standard_value(tokens))),
        spec_eval_postfix(spec_into_postfix(tokens), env) == Ok::<NumberView, EvalErrorView>(
            wrapped(standard_value(tokens)),
        ),
    decreases tokens, 1nat,
{
    lemma_sum_of_products_is_well_formed(tokens);
    lemma_reading(tokens, env);
    lemma_read_sum(shunt(tokens).output, tokens, env);
    lemma_expression_is_evaluated(tokens, env);
}

/// What is on the stack before the last operand is pushed.
spec fn computed_before_last(tokens: Seq<AtomView>) -> Seq<NumberView> {
    if tokens.len() < 3 {
        Seq::empty()
    } else {
        sum_computed(tokens) + (if ends_in_product(tokens) {
            seq![wrapped(last_term(tokens.take(tokens.len() - 2)))]
        } else {
            Seq::empty()
        })
    }
}

/// A sum of products without its last two tokens is a sum of products.
proof fn lemma_earlier_is_sum_of_products(tokens: Seq<AtomView>)
    requires
        is_sum_of_products(tokens),
        tokens.len() >= 3,
    ensures
        is_sum_of_products(tokens.take(tokens.len() - 2)),
{
    let earlier = tokens.take(tokens.len() - 2);
    assert forall|i: int| 0 <= i < earlier.len() implies match #[trigger] earlier[i] {
        AtomView::Op(op) => i % 2 == 1 && (op == standard(Lexeme::Add) || op == standard(
            Lexeme::Mul,
        )),
        AtomView::Lit(NumberView::I32(v)) => i % 2 == 0 && v >= 0,
        AtomView::Parens(inner) => i % 2 == 0 && is_sum_of_products(inner),
        _ => false,
    } by {
        assert(earlier[i] == tokens[i]);
    }
}

/// Where the reading stands after the last operator, given where it stood
/// before it.
proof fn lemma_read_last_operator(tokens: Seq<AtomView>, env: Map<Seq<char>, NumberView>)
    requires
        is_sum_of_products(tokens),
        tokens.len() >= 3,
        shunt(tokens.take(tokens.len() - 2)).pending == waiting(tokens.take(tokens.len() - 2)),
        eval_stack(shunt(tokens.take(tokens.len() - 2)).output, env) == Ok::<
            Seq<NumberView>,
            EvalErrorView,
        >(computed(tokens.take(tokens.len() - 2))),
    ensures
        shunt(tokens.drop_last()).pending == waiting(tokens),
        eval_stack(shunt(tokens.drop_last()).output, env) == Ok::<Seq<NumberView>, EvalErrorView>(
            computed_before_last(tokens),
        ),
{
    let n = tokens.len() as int;
    let earlier = tokens.take(n - 2);
    let operator = tokens[n - 2];
    let before = shunt(tokens.drop_last());
    assert(tokens.drop_last().drop_last() =~= earlier);
    assert(tokens.drop_last().last() == operator);
    let read = shunt(earlier);
    if operator == AtomView::Op(standard(Lexeme::Mul)) {
        lemma_read_product(read.output, earlier, env);
        assert(before.pending =~= waiting(tokens));
    } else {
        assert(operator == AtomView::Op(standard(Lexeme::Add)));
        lemma_read_sum(read.output, earlier, env);
        assert(has_sum(tokens));
        assert(before.pending =~= waiting(tokens));
        assert(computed_before_last(tokens) =~= seq![wrapped(standard_value(earlier))]);
    }
}

/// What is emitted for an operand: the operand itself, or the postfix order
/// of the group that it is.
spec fn with_operand(output: Seq<AtomView>, operand: AtomView) -> Seq<AtomView> {
    match operand {
        AtomView::Parens(inner) => output + spec_into_postfix(inner),
        _ => output.push(operand),
    }
}

/// What is emitted for an operand leaves its value on top of the stack.
proof fn lemma_read_operand(
    output: Seq<AtomView>,
    stack: Seq<NumberView>,
    operand: AtomView,
    env: Map<Seq<char>, NumberView>,
)
    requires
        eval_stack(output, env) == Ok::<Seq<NumberView>, EvalErrorView>(stack),
        match operand {
            AtomView::Lit(NumberView::I32(v)) => v >= 0,
            AtomView::Parens(inner) => spec_eval_postfix(spec_into_postfix(inner), env) == Ok::<
                NumberView,
                EvalErrorView,
            >(wrapped(standard_value(inner))),
            _ => false,
        },
    ensures
        eval_stack(with_operand(output, operand), env) == Ok::<Seq<NumberView>, EvalErrorView>(
            stack.push(wrapped(operand_value(operand))),
        ),
{
    match operand {
        AtomView::Lit(NumberView::I32(v)) => {
            assert(output.push(operand).drop_last() =~= output);
            assert(wrapped(v as int) == NumberView::I32(v));
        },
        AtomView::Parens(inner) => {
            let group = spec_into_postfix(inner);
            let value = eval_stack(group, env)->Ok_0;
            assert(value =~= seq![wrapped(standard_value(inner))]);
            lemma_eval_in_two(Seq::empty(), output, group, env);
            lemma_eval_on_top(stack, group, env);
            assert(stack + value =~= stack.push(wrapped(operand_value(operand))));
        },
        _ => {},
    }
}

/// After a sum of products has been read, the operators that wait and the
/// value of what was emitted are as `waiting` and `computed` say.
proof fn lemma_reading(tokens: Seq<AtomView>, env: Map<Seq<char>, NumberView>)
    requires
        is_sum_of_products(tokens),
    ensures
        shunt(tokens).pending == waiting(tokens),
        eval_stack(shunt(tokens).output, env) == Ok::<Seq<NumberView>, EvalErrorView>(
            computed(tokens),
        ),
    decreases tokens, 0nat,
{
    let n = tokens.len() as int;
    let last = tokens.last();
    assert(tokens[n - 1] == last);
    let before = shunt(tokens.drop_last());
    let stack = computed_before_last(tokens);
    if n == 1 {
        assert(tokens.drop_last() =~= Seq::<AtomView>::empty());
        assert(waiting(tokens) =~= Seq::<Operator>::empty());
    } else {
        lemma_earlier_is_sum_of_products(tokens);
        lemma_reading(tokens.take(n - 2), env);
        lemma_read_last_operator(tokens, env);
    }
    assert(computed(tokens) =~= stack.push(wrapped(operand_value(last))));
    match last {
        AtomView::Parens(inner) => {
            lemma_sum_of_products(inner, env);
        },
        _ => {},
    }
    lemma_read_operand(before.output, stack, last, env);
    assert(shunt(tokens).output == with_operand(before.output, last));
}

/// A sum of products is well formed.
pub proof fn lemma_sum_of_products_is_well_formed(tokens: Seq<AtomView>)
    requires
        is_sum_of_products(tokens),
    ensures
        well_formed(tokens),
    decreases tokens,
{
    assert forall|i: int| 0 <= i < tokens.len() implies match #[trigger] tokens[i] {
        AtomView::Op(_) => i % 2 == 1,
        AtomView::Parens(inner) => i % 2 == 0 && well_formed(inner),
        _ => i % 2 == 0,
    } by {
        match tokens[i] {
            AtomView::Parens(inner) => {
                lemma_sum_of_products_is_well_formed(inner);
            },
            _ => {},
        }
    }
}

/// The value of a sum of products is not negative.
pub proof fn lemma_standard_value_is_not_negative(tokens: Seq<AtomView>)
    requires
        is_sum_of_products(tokens),
    ensures
        earlier_terms(tokens) >= 0,
        last_term(tokens) >= 0,
        standard_value(tokens) >= 0,
    decreases tokens,
{
    let n = tokens.len() as int;
    assert(tokens[n - 1] == tokens.last());
    match tokens.last() {
        AtomView::Parens(inner) => {
            lemma_standard_value_is_not_negative(inner);
        },
        _ => {},
    }
    if n >= 3 {
        lemma_earlier_is_sum_of_products(tokens);
        lemma_standard_value_is_not_negative(tokens.take(n - 2));
        assert(last_term(tokens.take(n - 2)) * operand_value(tokens.last()) >= 0) by (nonlinear_arith)
            requires
                last_term(tokens.take(n - 2)) >= 0,
                operand_value(tokens.last()) >= 0,
        ;
    }
}

/// A sum of products whose value 32 bits can hold evaluates to that value.
pub proof fn lemma_sum_of_products_that_fits(
    tokens: Seq<AtomView>,
    env: Map<Seq<char>, NumberView>,
)
    requires
        is_sum_of_products(tokens),
        standard_value(tokens) <= i32::MAX,
    ensures
        value_of(tokens, env) == Ok::<NumberView, EvalErrorView>(
            NumberView::I32(standard_value(tokens) as i32),
        ),
        spec_eval_postfix(spec_into_postfix(tokens), env) == Ok::<NumberView, EvalErrorView>(
            NumberView::I32(standard_value(tokens) as i32),
        ),
{
    lemma_sum_of_products(tokens, env);
    lemma_standard_value_is_not_negative(tokens);
}

} // verus!
