//! What an expression means: its value is that of its operands under the
//! operator that binds least, and of those the rightmost, so that operators
//! which bind more tightly, and operators to the left which bind equally, are
//! applied first. Precedence resolution and the stack machine compute this
//! value.
use crate::error::EvalErrorView;
use crate::eval::{
    eval_stack, lemma_eval_in_two, lemma_eval_on_top, lemma_eval_one, spec_eval_postfix,
};
use crate::math::{spec_apply, AtomView, NumberView, Operator};
use crate::postfix::{
    binds_above, binds_at_least, flush, lemma_flush_after, lemma_flush_in_two,
    lemma_pending_binds_at_least, lemma_pop_while_through, lemma_shunt_above, lemma_shunt_in_two,
    lemma_shunt_one, shunt, shunt_from, spec_into_postfix, start, well_formed, Shunting,
};
use crate::shape::{lemma_eval_fails_on_top, lemma_well_formed_has_a_value};
use vstd::prelude::*;

verus! {

/// Where among the first `n` tokens the operator stands that binds least,
/// the rightmost if several do, or -1 if no operator stands there.
pub open spec fn weakest(tokens: Seq<AtomView>, n: int) -> int
    decreases n,
{
    if n <= 0 || n > tokens.len() {
        -1
    } else {
        let before = weakest(tokens, n - 1);
        match tokens[n - 1] {
            AtomView::Op(op) => if before < 0 || op.precedence <= tokens[before]->Op_0.precedence {
                n - 1
            } else {
                before
            },
            _ => before,
        }
    }
}

/// Where the operator stands that is applied last.
pub open spec fn applied_last(tokens: Seq<AtomView>) -> int {
    weakest(tokens, tokens.len() as int)
}

/// The postfix order that precedence gives the tokens: the order of what
/// stands left of the operator that is applied last, the order of what
/// stands right of it, and that operator. An operand alone stays as it is,
/// and a group has the order of the tokens in it.
pub open spec fn by_precedence(tokens: Seq<AtomView>) -> Seq<AtomView>
    decreases tokens,
{
    let k = applied_last(tokens);
    if tokens.len() == 1 {
        match tokens[0] {
            AtomView::Parens(inner) => by_precedence(inner),
            operand => seq![operand],
        }
    } else if 0 < k < tokens.len() - 1 {
        by_precedence(tokens.take(k)) + by_precedence(tokens.skip(k + 1)) + seq![tokens[k]]
    } else {
        Seq::empty()
    }
}

/// The value of an expression over `env`: of a literal the number that it
/// writes, of a variable the number that it is bound to, of a group the
/// value of the expression in it, and else the result of the operator that
/// is applied last on the value of what stands left of it and the value of
/// what stands right of it. A failure on the left comes before one on the
/// right.
pub open spec fn value_of(tokens: Seq<AtomView>, env: Map<Seq<char>, NumberView>) -> Result<
    NumberView,
    EvalErrorView,
>
    decreases tokens,
{
    let k = applied_last(tokens);
    if tokens.len() == 1 {
        match tokens[0] {
            AtomView::Lit(n) => Ok(n),
            AtomView::Var(name) => if env.contains_key(name) {
                Ok(env[name])
            } else {
                Err(EvalErrorView::UndefinedVariable(name))
            },
            AtomView::Parens(inner) => value_of(inner, env),
            AtomView::Op(_) => Err(EvalErrorView::InvalidExpression),
        }
    } else if 0 < k < tokens.len() - 1 {
        match value_of(tokens.take(k), env) {
            Ok(left) => match value_of(tokens.skip(k + 1), env) {
                Ok(right) => spec_apply(tokens[k]->Op_0.lexeme, left, right),
                Err(e) => Err(e),
            },
            Err(e) => Err(e),
        }
    } else {
        Err(EvalErrorView::InvalidExpression)
    }
}

/// Where operands and operators stand in turn, the operator that binds
/// least stands at an odd place, nothing left of it binds less tightly than
/// it, and everything right of it binds more tightly.
proof fn lemma_weakest(tokens: Seq<AtomView>, n: int)
    requires
        0 <= n <= tokens.len(),
        forall|i: int| 0 <= i < n ==> ((#[trigger] tokens[i]) is Op <==> i % 2 == 1),
    ensures
        n < 2 ==> weakest(tokens, n) == -1,
        n >= 2 ==> 0 < weakest(tokens, n) < n && tokens[weakest(tokens, n)] is Op,
        forall|j: int|
            0 <= j < weakest(tokens, n) && (#[trigger] tokens[j]) is Op
                ==> tokens[j]->Op_0.precedence >= tokens[weakest(tokens, n)]->Op_0.precedence,
        forall|j: int|
            weakest(tokens, n) < j < n && (#[trigger] tokens[j]) is Op
                ==> tokens[j]->Op_0.precedence > tokens[weakest(tokens, n)]->Op_0.precedence,
    decreases n,
{
    if n > 0 {
        lemma_weakest(tokens, n - 1);
    }
}

/// What stands left and right of the operator that is applied last in a
/// well-formed expression: two well-formed expressions, of which the left one
/// does not bind less tightly than the operator, and the right one binds more
/// tightly.
proof fn lemma_applied_last(tokens: Seq<AtomView>)
    requires
        well_formed(tokens),
        tokens.len() > 1,
    ensures
        0 < applied_last(tokens) < tokens.len() - 1,
        tokens[applied_last(tokens)] is Op,
        well_formed(tokens.take(applied_last(tokens))),
        well_formed(tokens.skip(applied_last(tokens) + 1)),
        binds_at_least(
            tokens.take(applied_last(tokens)),
            tokens[applied_last(tokens)]->Op_0.precedence as int,
        ),
        binds_above(
            tokens.skip(applied_last(tokens) + 1),
            tokens[applied_last(tokens)]->Op_0.precedence as int,
        ),
{
    let n = tokens.len() as int;
    let k = applied_last(tokens);
    assert(forall|i: int| 0 <= i < n ==> ((#[trigger] tokens[i]) is Op <==> i % 2 == 1));
    lemma_weakest(tokens, n);
    assert(k % 2 == 1);
    let left = tokens.take(k);
    let right = tokens.skip(k + 1);
    assert forall|i: int| 0 <= i < left.len() implies match #[trigger] left[i] {
        AtomView::Op(_) => i % 2 == 1,
        AtomView::Parens(inner) => i % 2 == 0 && well_formed(inner),
        _ => i % 2 == 0,
    } by {
        assert(left[i] == tokens[i]);
    }
    assert forall|i: int| 0 <= i < right.len() implies match #[trigger] right[i] {
        AtomView::Op(_) => i % 2 == 1,
        AtomView::Parens(inner) => i % 2 == 0 && well_formed(inner),
        _ => i % 2 == 0,
    } by {
        assert(right[i] == tokens[i + k + 1]);
    }
    assert forall|i: int| 0 <= i < left.len() implies (#[trigger] left[i] matches AtomView::Op(
        op,
    ) ==> op.precedence >= tokens[k]->Op_0.precedence) by {
        assert(left[i] == tokens[i]);
    }
    assert forall|i: int| 0 <= i < right.len() implies (#[trigger] right[i] matches AtomView::Op(
        op,
    ) ==> op.precedence > tokens[k]->Op_0.precedence) by {
        assert(right[i] == tokens[i + k + 1]);
    }
}

/// Precedence resolution gives a well-formed expression the postfix order
/// that precedence gives it.
pub proof fn lemma_postfix_is_by_precedence(tokens: Seq<AtomView>)
    requires
        well_formed(tokens),
    ensures
        spec_into_postfix(tokens) == by_precedence(tokens),
    decreases tokens,
{
    if tokens.len() == 1 {
        assert(tokens =~= seq![tokens[0]]);
        lemma_shunt_one(start(), tokens[0]);
        match tokens[0] {
            AtomView::Parens(inner) => {
                lemma_postfix_is_by_precedence(inner);
                assert(Seq::<AtomView>::empty() + spec_into_postfix(inner) =~= spec_into_postfix(
                    inner,
                ));
            },
            operand => {
                assert(Seq::<AtomView>::empty().push(operand) =~= seq![operand]);
            },
        }
    } else {
        lemma_applied_last(tokens);
        let k = applied_last(tokens);
        let op = tokens[k]->Op_0;
        let left = tokens.take(k);
        let right = tokens.skip(k + 1);
        lemma_postfix_is_by_precedence(left);
        lemma_postfix_is_by_precedence(right);
        let first = seq![tokens[k]];
        assert(tokens =~= left + first + right);
        lemma_shunt_in_two(start(), left + first, right);
        lemma_shunt_in_two(start(), left, first);
        // The operator has all that waits after the left part emitted.
        let l = shunt(left);
        lemma_shunt_one(l, tokens[k]);
        lemma_pending_binds_at_least(left, op.precedence as int);
        lemma_pop_while_through(l.output, Seq::empty(), l.pending, op.precedence);
        assert(Seq::<Operator>::empty() + l.pending =~= l.pending);
        let at_operator = shunt_from(l, first);
        assert(at_operator == Shunting {
            output: spec_into_postfix(left),
            pending: seq![op],
        });
        // The right part leaves it waiting, and it is emitted last.
        lemma_shunt_above(at_operator, right);
        let r = shunt(right);
        lemma_flush_in_two(at_operator.output + r.output, at_operator.pending, r.pending);
        lemma_flush_after(at_operator.output, r.output, r.pending);
        let both = spec_into_postfix(left) + spec_into_postfix(right);
        assert(seq![op].drop_last() =~= Seq::<Operator>::empty());
        assert(flush(both, seq![op]) == flush(
            both.push(AtomView::Op(op)),
            Seq::<Operator>::empty(),
        ));
        assert(both.push(AtomView::Op(op)) =~= both + first);
    }
}

/// The stack machine gives the postfix order of a well-formed expression the
/// value of the expression.
pub proof fn lemma_value_is_by_precedence(tokens: Seq<AtomView>, env: Map<Seq<char>, NumberView>)
    requires
        well_formed(tokens),
    ensures
        spec_eval_postfix(by_precedence(tokens), env) == value_of(tokens, env),
    decreases tokens,
{
    let empty = Seq::<NumberView>::empty();
    if tokens.len() == 1 {
        match tokens[0] {
            AtomView::Parens(inner) => {
                lemma_value_is_by_precedence(inner, env);
            },
            operand => {
                lemma_eval_one(empty, operand, env);
            },
        }
    } else {
        lemma_applied_last(tokens);
        let k = applied_last(tokens);
        let left = tokens.take(k);
        let right = tokens.skip(k + 1);
        let pl = by_precedence(left);
        let pr = by_precedence(right);
        lemma_value_is_by_precedence(left, env);
        lemma_value_is_by_precedence(right, env);
        // Each part leaves its value alone on the stack, or fails.
        lemma_postfix_is_by_precedence(left);
        lemma_postfix_is_by_precedence(right);
        lemma_well_formed_has_a_value(left, env);
        lemma_well_formed_has_a_value(right, env);
        lemma_eval_in_two(empty, pl + pr, seq![tokens[k]], env);
        lemma_eval_in_two(empty, pl, pr, env);
        if eval_stack(pl, env) is Ok {
            let l = eval_stack(pl, env)->Ok_0;
            assert(l =~= seq![l[0]]);
            if eval_stack(pr, env) is Ok {
                let r = eval_stack(pr, env)->Ok_0;
                assert(r =~= seq![r[0]]);
                lemma_eval_on_top(l, pr, env);
                let both = l + r;
                lemma_eval_one(both, tokens[k], env);
                match spec_apply(tokens[k]->Op_0.lexeme, l[0], r[0]) {
                    Ok(value) => {
                        assert(both.take(both.len() - 2).push(value) =~= seq![value]);
                    },
                    Err(_) => {},
                }
            } else {
                lemma_eval_fails_on_top(l, pr, env);
            }
        }
    }
}

/// Precedence resolution and the stack machine together give a well-formed
/// expression its value.
pub proof fn lemma_expression_is_evaluated(tokens: Seq<AtomView>, env: Map<Seq<char>, NumberView>)
    requires
        well_formed(tokens),
    ensures
        spec_eval_postfix(spec_into_postfix(tokens), env) == value_of(tokens, env),
{
    lemma_postfix_is_by_precedence(tokens);
    lemma_value_is_by_precedence(tokens, env);
}

} // verus!
