//! What precedence resolution does with parentheses that change nothing, and
//! with operators that bind equally.
use crate::eval::{lemma_eval_in_two, lemma_eval_one, spec_eval_postfix};
use crate::error::EvalErrorView;
use crate::math::{
    spec_apply, standard, AtomView, FloatView, Lexeme, NumberView, Operator,
};
use crate::meaning::{lemma_expression_is_evaluated, value_of};
use crate::postfix::{
    binds_above, binds_at_least, flush, lemma_flush_after, lemma_flush_in_two,
    lemma_pending_binds_at_least, lemma_pop_while_through, lemma_shunt_above, lemma_shunt_in_two,
    lemma_shunt_one, pop_while, shunt, shunt_from, spec_into_postfix, start, well_formed,
    Shunting,
};
use vstd::prelude::*;

verus! {

/// Parentheses change nothing where what stands before them binds less
/// tightly than every operator inside them, and what stands after them binds
/// no more tightly than any operator inside them: with or without them, the
/// tokens come out in the same postfix order, and so have the same value.
pub proof fn lemma_redundant_parentheses(
    before: Seq<AtomView>,
    inner: Seq<AtomView>,
    after: Seq<AtomView>,
    env: Map<Seq<char>, NumberView>,
)
    requires
        before.len() > 0 ==> (before.last() matches AtomView::Op(op) && binds_above(
            inner,
            op.precedence as int,
        )),
        after.len() > 0 ==> (after[0] matches AtomView::Op(op) && binds_at_least(
            inner,
            op.precedence as int,
        )),
    ensures
        spec_into_postfix(before + seq![AtomView::Parens(inner)] + after) == spec_into_postfix(
            before + inner + after,
        ),
        spec_eval_postfix(spec_into_postfix(before + seq![AtomView::Parens(inner)] + after), env)
            == spec_eval_postfix(spec_into_postfix(before + inner + after), env),
{
    let group = seq![AtomView::Parens(inner)];
    let state = shunt(before);
    let alone = shunt(inner);
    // After what stands before, the group gives what its tokens give alone.
    lemma_shunt_in_two(start(), before, group);
    lemma_shunt_one(state, AtomView::Parens(inner));
    let grouped = shunt_from(state, group);
    assert(grouped == Shunting {
        output: state.output + flush(alone.output, alone.pending),
        pending: state.pending,
    });
    // Without the parentheses, the tokens leave what waited before alone.
    lemma_shunt_in_two(start(), before, inner);
    if before.len() > 0 {
        assert(state.pending.last() == before.last()->Op_0);
    }
    lemma_shunt_above(state, inner);
    let flat = shunt_from(state, inner);
    assert(flat == Shunting {
        output: state.output + alone.output,
        pending: state.pending + alone.pending,
    });
    lemma_flush_after(state.output, alone.output, alone.pending);
    lemma_shunt_in_two(start(), before + group, after);
    lemma_shunt_in_two(start(), before + inner, after);
    if after.len() == 0 {
        // At the end all that waits is emitted, what the tokens left first.
        lemma_flush_in_two(state.output + alone.output, state.pending, alone.pending);
    } else {
        // The operator that follows has all that the tokens left emitted.
        let op = after[0]->Op_0;
        let first = seq![after[0]];
        let rest = after.skip(1);
        assert(after =~= first + rest);
        lemma_shunt_in_two(grouped, first, rest);
        lemma_shunt_in_two(flat, first, rest);
        lemma_shunt_one(grouped, after[0]);
        lemma_shunt_one(flat, after[0]);
        lemma_pending_binds_at_least(inner, op.precedence as int);
        lemma_pop_while_through(
            state.output + alone.output,
            state.pending,
            alone.pending,
            op.precedence,
        );
        assert(shunt_from(grouped, first) == shunt_from(flat, first));
    }
}

/// In a well-formed expression, parentheses that change nothing leave the
/// expression well formed and its value as it is.
pub proof fn lemma_redundant_parentheses_keep_the_value(
    before: Seq<AtomView>,
    inner: Seq<AtomView>,
    after: Seq<AtomView>,
    env: Map<Seq<char>, NumberView>,
)
    requires
        well_formed(before + seq![AtomView::Parens(inner)] + after),
        before.len() > 0 ==> (before.last() matches AtomView::Op(op) && binds_above(
            inner,
            op.precedence as int,
        )),
        after.len() > 0 ==> (after[0] matches AtomView::Op(op) && binds_at_least(
            inner,
            op.precedence as int,
        )),
    ensures
        well_formed(before + inner + after),
        value_of(before + seq![AtomView::Parens(inner)] + after, env) == value_of(
            before + inner + after,
            env,
        ),
{
    let grouped = before + seq![AtomView::Parens(inner)] + after;
    let flat = before + inner + after;
    let at = before.len() as int;
    let longer = inner.len() - 1;
    assert(grouped[at] == AtomView::Parens(inner));
    assert(well_formed(inner) && at % 2 == 0 && longer % 2 == 0) by {
        reveal_with_fuel(well_formed, 2);
    }
    assert forall|i: int| 0 <= i < flat.len() implies match #[trigger] flat[i] {
        AtomView::Op(_) => i % 2 == 1,
        AtomView::Parens(group) => i % 2 == 0 && well_formed(group),
        _ => i % 2 == 0,
    } by {
        if i < at {
            assert(flat[i] == grouped[i]);
        } else if i < at + inner.len() {
            assert(flat[i] == inner[i - at]);
            assert((i - at) % 2 == i % 2);
        } else {
            assert(flat[i] == grouped[i - longer]);
            assert((i - longer) % 2 == i % 2);
        }
    }
    lemma_redundant_parentheses(before, inner, after, env);
    lemma_expression_is_evaluated(grouped, env);
    lemma_expression_is_evaluated(flat, env);
}

/// The postfix order of `a first b second c` where the two operators bind
/// equally.
proof fn lemma_postfix_of_two_operators(
    a: AtomView,
    first: Operator,
    b: AtomView,
    second: Operator,
    c: AtomView,
)
    requires
        first.precedence == second.precedence,
        a is Lit,
        b is Lit,
        c is Lit,
    ensures
        spec_into_postfix(seq![a, AtomView::Op(first), b, AtomView::Op(second), c]) == seq![
            a,
            b,
            AtomView::Op(first),
            c,
            AtomView::Op(second),
        ],
{
    let infix = seq![a, AtomView::Op(first), b, AtomView::Op(second), c];
    let s0 = start();
    lemma_shunt_one(s0, a);
    let s1 = shunt_from(s0, seq![a]);
    lemma_shunt_one(s1, AtomView::Op(first));
    let s2 = shunt_from(s1, seq![AtomView::Op(first)]);
    assert(s2.output =~= seq![a] && s2.pending =~= seq![first]);
    lemma_shunt_one(s2, b);
    let s3 = shunt_from(s2, seq![b]);
    assert(s3.output =~= seq![a, b] && s3.pending =~= seq![first]);
    lemma_shunt_one(s3, AtomView::Op(second));
    let s4 = shunt_from(s3, seq![AtomView::Op(second)]);
    assert(s3.pending.drop_last() =~= Seq::<Operator>::empty());
    assert(pop_while(s3.output, s3.pending, second.precedence) == pop_while(
        s3.output.push(AtomView::Op(first)),
        Seq::<Operator>::empty(),
        second.precedence,
    ));
    assert(s4.output =~= seq![a, b, AtomView::Op(first)] && s4.pending =~= seq![second]);
    lemma_shunt_one(s4, c);
    let s5 = shunt_from(s4, seq![c]);
    assert(s5.output =~= seq![a, b, AtomView::Op(first), c] && s5.pending =~= seq![second]);
    lemma_shunt_in_two(s0, seq![a], seq![AtomView::Op(first)]);
    lemma_shunt_in_two(s0, seq![a] + seq![AtomView::Op(first)], seq![b]);
    lemma_shunt_in_two(
        s0,
        seq![a] + seq![AtomView::Op(first)] + seq![b],
        seq![AtomView::Op(second)],
    );
    lemma_shunt_in_two(
        s0,
        seq![a] + seq![AtomView::Op(first)] + seq![b] + seq![AtomView::Op(second)],
        seq![c],
    );
    assert(seq![a] + seq![AtomView::Op(first)] + seq![b] + seq![AtomView::Op(second)] + seq![c]
        =~= infix);
    assert(s5.pending.drop_last() =~= Seq::<Operator>::empty());
    assert(flush(s5.output, s5.pending) == flush(
        s5.output.push(AtomView::Op(second)),
        Seq::<Operator>::empty(),
    ));
    assert(flush(s5.output, s5.pending) =~= seq![
        a,
        b,
        AtomView::Op(first),
        c,
        AtomView::Op(second),
    ]);
}

/// The value of `a b first c second` in postfix order.
proof fn lemma_value_of_two_operators(
    a: NumberView,
    first: Operator,
    b: NumberView,
    second: Operator,
    c: NumberView,
    env: Map<Seq<char>, NumberView>,
)
    ensures
        spec_eval_postfix(
            seq![
                AtomView::Lit(a),
                AtomView::Lit(b),
                AtomView::Op(first),
                AtomView::Lit(c),
                AtomView::Op(second),
            ],
            env,
        ) == match spec_apply(first.lexeme, a, b) {
            Ok(left) => spec_apply(second.lexeme, left, c),
            Err(e) => Err(e),
        },
{
    let postfix = seq![
        AtomView::Lit(a),
        AtomView::Lit(b),
        AtomView::Op(first),
        AtomView::Lit(c),
        AtomView::Op(second),
    ];
    let empty = Seq::<NumberView>::empty();
    let t1 = seq![AtomView::Lit(a)];
    let t2 = seq![AtomView::Lit(b)];
    let t3 = seq![AtomView::Op(first)];
    let t4 = seq![AtomView::Lit(c)];
    let t5 = seq![AtomView::Op(second)];
    assert(t1 + t2 + t3 + t4 + t5 =~= postfix);
    lemma_eval_in_two(empty, t1 + t2 + t3 + t4, t5, env);
    lemma_eval_in_two(empty, t1 + t2 + t3, t4, env);
    lemma_eval_in_two(empty, t1 + t2, t3, env);
    lemma_eval_in_two(empty, t1, t2, env);
    lemma_eval_one(empty, AtomView::Lit(a), env);
    lemma_eval_one(seq![a], AtomView::Lit(b), env);
    assert(seq![a].push(b) =~= seq![a, b]);
    lemma_eval_one(seq![a, b], AtomView::Op(first), env);
    match spec_apply(first.lexeme, a, b) {
        Ok(left) => {
            assert(seq![a, b].take(0).push(left) =~= seq![left]);
            lemma_eval_one(seq![left], AtomView::Lit(c), env);
            assert(seq![left].push(c) =~= seq![left, c]);
            lemma_eval_one(seq![left, c], AtomView::Op(second), env);
            match spec_apply(second.lexeme, left, c) {
                Ok(value) => {
                    assert(seq![left, c].take(0).push(value) =~= seq![value]);
                },
                Err(_) => {},
            }
        },
        Err(_) => {},
    }
}

/// Operators that bind equally are applied from left to right: in
/// `a first b second c` the first operator is applied to `a` and `b`, and the
/// second to what that gives and `c`, just as in `(a first b) second c`.
pub proof fn lemma_left_associative(
    a: NumberView,
    first: Operator,
    b: NumberView,
    second: Operator,
    c: NumberView,
    env: Map<Seq<char>, NumberView>,
)
    requires
        first.precedence == second.precedence,
    ensures
        value_of(
            seq![
                AtomView::Lit(a),
                AtomView::Op(first),
                AtomView::Lit(b),
                AtomView::Op(second),
                AtomView::Lit(c),
            ],
            env,
        ) == match spec_apply(first.lexeme, a, b) {
            Ok(left) => spec_apply(second.lexeme, left, c),
            Err(e) => Err(e),
        },
        spec_eval_postfix(
            spec_into_postfix(
                seq![
                    AtomView::Lit(a),
                    AtomView::Op(first),
                    AtomView::Lit(b),
                    AtomView::Op(second),
                    AtomView::Lit(c),
                ],
            ),
            env,
        ) == match spec_apply(first.lexeme, a, b) {
            Ok(left) => spec_apply(second.lexeme, left, c),
            Err(e) => Err(e),
        },
        spec_into_postfix(
            seq![
                AtomView::Lit(a),
                AtomView::Op(first),
                AtomView::Lit(b),
                AtomView::Op(second),
                AtomView::Lit(c),
            ],
        ) == spec_into_postfix(
            seq![
                AtomView::Parens(seq![AtomView::Lit(a), AtomView::Op(first), AtomView::Lit(b)]),
                AtomView::Op(second),
                AtomView::Lit(c),
            ],
        ),
{
    let infix = seq![
        AtomView::Lit(a),
        AtomView::Op(first),
        AtomView::Lit(b),
        AtomView::Op(second),
        AtomView::Lit(c),
    ];
    let inner = seq![AtomView::Lit(a), AtomView::Op(first), AtomView::Lit(b)];
    let after = seq![AtomView::Op(second), AtomView::Lit(c)];
    lemma_postfix_of_two_operators(
        AtomView::Lit(a),
        first,
        AtomView::Lit(b),
        second,
        AtomView::Lit(c),
    );
    lemma_value_of_two_operators(a, first, b, second, c, env);
    lemma_expression_is_evaluated(infix, env);
    assert(binds_at_least(inner, second.precedence as int));
    lemma_redundant_parentheses(Seq::empty(), inner, after, env);
    assert(Seq::<AtomView>::empty() + inner + after =~= infix);
    assert(Seq::<AtomView>::empty() + seq![AtomView::Parens(inner)] + after =~= seq![
        AtomView::Parens(inner),
        AtomView::Op(second),
        AtomView::Lit(c),
    ]);
}

/// Operators that bind equally group to the left, whatever their operands
/// are: `x first y second z` comes out in the postfix order of
/// `(x first y) second z`, and so has its value.
pub proof fn lemma_equal_operators_group_to_the_left(
    x: AtomView,
    first: Operator,
    y: AtomView,
    second: Operator,
    z: AtomView,
    env: Map<Seq<char>, NumberView>,
)
    requires
        first.precedence == second.precedence,
        !(x is Op),
        !(y is Op),
    ensures
        spec_into_postfix(seq![x, AtomView::Op(first), y, AtomView::Op(second), z])
            == spec_into_postfix(
            seq![AtomView::Parens(seq![x, AtomView::Op(first), y]), AtomView::Op(second), z],
        ),
        spec_eval_postfix(
            spec_into_postfix(seq![x, AtomView::Op(first), y, AtomView::Op(second), z]),
            env,
        ) == spec_eval_postfix(
            spec_into_postfix(
                seq![AtomView::Parens(seq![x, AtomView::Op(first), y]), AtomView::Op(second), z],
            ),
            env,
        ),
{
    let inner = seq![x, AtomView::Op(first), y];
    let after = seq![AtomView::Op(second), z];
    assert(binds_at_least(inner, second.precedence as int));
    lemma_redundant_parentheses(Seq::empty(), inner, after, env);
    assert(Seq::<AtomView>::empty() + inner + after =~= seq![
        x,
        AtomView::Op(first),
        y,
        AtomView::Op(second),
        z,
    ]);
    assert(Seq::<AtomView>::empty() + seq![AtomView::Parens(inner)] + after =~= seq![
        AtomView::Parens(inner),
        AtomView::Op(second),
        z,
    ]);
}

/// One operator between two numbers is applied to them, the first on its
/// left.
pub proof fn lemma_one_operator(
    a: NumberView,
    operator: Operator,
    b: NumberView,
    env: Map<Seq<char>, NumberView>,
)
    ensures
        value_of(seq![AtomView::Lit(a), AtomView::Op(operator), AtomView::Lit(b)], env)
            == spec_apply(operator.lexeme, a, b),
        spec_into_postfix(seq![AtomView::Lit(a), AtomView::Op(operator), AtomView::Lit(b)])
            == seq![AtomView::Lit(a), AtomView::Lit(b), AtomView::Op(operator)],
        spec_eval_postfix(
            spec_into_postfix(seq![AtomView::Lit(a), AtomView::Op(operator), AtomView::Lit(b)]),
            env,
        ) == spec_apply(operator.lexeme, a, b),
{
    let ta = seq![AtomView::Lit(a)];
    let to = seq![AtomView::Op(operator)];
    let tb = seq![AtomView::Lit(b)];
    let infix = seq![AtomView::Lit(a), AtomView::Op(operator), AtomView::Lit(b)];
    let postfix = seq![AtomView::Lit(a), AtomView::Lit(b), AtomView::Op(operator)];
    assert(ta + to + tb =~= infix);
    lemma_shunt_in_two(start(), ta + to, tb);
    lemma_shunt_in_two(start(), ta, to);
    lemma_shunt_one(start(), AtomView::Lit(a));
    let s1 = shunt_from(start(), ta);
    lemma_shunt_one(s1, AtomView::Op(operator));
    let s2 = shunt_from(s1, to);
    assert(s2.output =~= ta && s2.pending =~= seq![operator]);
    lemma_shunt_one(s2, AtomView::Lit(b));
    let s3 = shunt_from(s2, tb);
    assert(s3.pending.drop_last() =~= Seq::<Operator>::empty());
    assert(flush(s3.output, s3.pending) == flush(
        s3.output.push(AtomView::Op(operator)),
        Seq::<Operator>::empty(),
    ));
    assert(spec_into_postfix(infix) =~= postfix);
    let empty = Seq::<NumberView>::empty();
    assert(ta + tb + to =~= postfix);
    lemma_eval_in_two(empty, ta + tb, to, env);
    lemma_eval_in_two(empty, ta, tb, env);
    lemma_eval_one(empty, AtomView::Lit(a), env);
    lemma_eval_one(seq![a], AtomView::Lit(b), env);
    assert(seq![a].push(b) =~= seq![a, b]);
    lemma_eval_one(seq![a, b], AtomView::Op(operator), env);
    match spec_apply(operator.lexeme, a, b) {
        Ok(value) => {
            assert(seq![a, b].take(0).push(value) =~= seq![value]);
        },
        Err(_) => {},
    }
    lemma_expression_is_evaluated(infix, env);
}

/// The quotient of two integers is floating point: `a / b` evaluates to the
/// floating-point quotient of `a` and `b`, each converted to floating point.
pub proof fn lemma_quotient_of_integers(a: i32, b: i32, env: Map<Seq<char>, NumberView>)
    ensures
        value_of(
            seq![
                AtomView::Lit(NumberView::I32(a)),
                AtomView::Op(standard(Lexeme::Div)),
                AtomView::Lit(NumberView::I32(b)),
            ],
            env,
        ) == Ok::<NumberView, EvalErrorView>(
            NumberView::F32(
                FloatView::Binary(
                    Lexeme::Div,
                    Box::new(FloatView::FromI32(a)),
                    Box::new(FloatView::FromI32(b)),
                ),
            ),
        ),
        spec_eval_postfix(
            spec_into_postfix(
                seq![
                    AtomView::Lit(NumberView::I32(a)),
                    AtomView::Op(standard(Lexeme::Div)),
                    AtomView::Lit(NumberView::I32(b)),
                ],
            ),
            env,
        ) == Ok::<NumberView, EvalErrorView>(
            NumberView::F32(
                FloatView::Binary(
                    Lexeme::Div,
                    Box::new(FloatView::FromI32(a)),
                    Box::new(FloatView::FromI32(b)),
                ),
            ),
        ),
{
    lemma_one_operator(NumberView::I32(a), standard(Lexeme::Div), NumberView::I32(b), env);
}

} // verus!
