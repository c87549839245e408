//! A well-formed expression always has the shape that the evaluator wants:
//! its postfix order leaves one value on the stack, unless a variable is not
//! bound or an operator gets operands that do not go together.
use crate::error::FailureView;
use crate::eval::{eval_from, eval_stack, lemma_eval_in_two, lemma_eval_on_top, spec_eval_postfix};
use crate::grammar::{lemma_expr_consumes, spec_take_expr, MAX_NESTING};
use crate::line::spec_eval_expr;
use crate::math::{AtomView, NumberView, Operator};
use crate::meaning::lemma_expression_is_evaluated;
use crate::postfix::{flush, pop_while, shunt, spec_into_postfix, well_formed, well_formed_until};
use vstd::prelude::*;

verus! {

/// Whether what was emitted leaves as many values on the stack as there are
/// operators waiting, and `extra` more, unless walking it fails for another
/// reason than its shape.
pub open spec fn balanced(
    output: Seq<AtomView>,
    waiting: nat,
    extra: nat,
    env: Map<Seq<char>, NumberView>,
) -> bool {
    match eval_stack(output, env) {
        Ok(stack) => stack.len() == waiting + extra,
        Err(e) => !(e is InvalidExpression),
    }
}

/// A postfix sequence that fails on an empty stack for another reason than
/// its shape fails in the same way on any stack.
pub proof fn lemma_eval_fails_on_top(
    stack: Seq<NumberView>,
    tokens: Seq<AtomView>,
    env: Map<Seq<char>, NumberView>,
)
    requires
        eval_stack(tokens, env) matches Err(e) && !(e is InvalidExpression),
    ensures
        eval_from(stack, tokens, env) == eval_stack(tokens, env),
    decreases tokens.len(),
{
    let earlier = tokens.drop_last();
    if eval_stack(earlier, env) is Ok {
        lemma_eval_on_top(stack, earlier, env);
        let alone = eval_stack(earlier, env)->Ok_0;
        let onto = stack + alone;
        if tokens.last() is Op && alone.len() >= 2 {
            assert(onto[onto.len() - 2] == alone[alone.len() - 2]);
            assert(onto[onto.len() - 1] == alone[alone.len() - 1]);
        }
    } else {
        lemma_eval_fails_on_top(stack, earlier, env);
    }
}

/// An operator that is emitted where at least two values are on the stack
/// takes one of them away.
proof fn lemma_emit_keeps_balance(
    output: Seq<AtomView>,
    waiting: nat,
    op: Operator,
    env: Map<Seq<char>, NumberView>,
)
    requires
        waiting > 0,
        balanced(output, waiting, 1, env),
    ensures
        balanced(output.push(AtomView::Op(op)), (waiting - 1) as nat, 1, env),
{
    assert(output.push(AtomView::Op(op)).drop_last() =~= output);
}

/// The operators that an operator has emitted leave the balance as it was.
proof fn lemma_pop_while_keeps_balance(
    output: Seq<AtomView>,
    pending: Seq<Operator>,
    precedence: i32,
    env: Map<Seq<char>, NumberView>,
)
    requires
        balanced(output, pending.len(), 1, env),
    ensures
        balanced(
            pop_while(output, pending, precedence).output,
            pop_while(output, pending, precedence).pending.len(),
            1,
            env,
        ),
    decreases pending.len(),
{
    if pending.len() > 0 && pending.last().precedence >= precedence {
        lemma_emit_keeps_balance(output, pending.len(), pending.last(), env);
        lemma_pop_while_keeps_balance(
            output.push(AtomView::Op(pending.last())),
            pending.drop_last(),
            precedence,
            env,
        );
    }
}

/// When all waiting operators have been emitted, one value is left.
proof fn lemma_flush_keeps_balance(
    output: Seq<AtomView>,
    pending: Seq<Operator>,
    env: Map<Seq<char>, NumberView>,
)
    requires
        balanced(output, pending.len(), 1, env),
    ensures
        balanced(flush(output, pending), 0, 1, env),
    decreases pending.len(),
{
    if pending.len() > 0 {
        lemma_emit_keeps_balance(output, pending.len(), pending.last(), env);
        lemma_flush_keeps_balance(
            output.push(AtomView::Op(pending.last())),
            pending.drop_last(),
            env,
        );
    }
}

/// A literal or a variable that is emitted puts one value on the stack,
/// unless the variable is not bound.
proof fn lemma_operand_keeps_balance(
    output: Seq<AtomView>,
    waiting: nat,
    operand: AtomView,
    env: Map<Seq<char>, NumberView>,
)
    requires
        balanced(output, waiting, 0, env),
        operand is Lit || operand is Var,
    ensures
        balanced(output.push(operand), waiting, 1, env),
{
    assert(output.push(operand).drop_last() =~= output);
}

/// The postfix order of a group that is emitted puts one value on the stack,
/// if it leaves one value on an empty stack.
proof fn lemma_group_keeps_balance(
    output: Seq<AtomView>,
    waiting: nat,
    group: Seq<AtomView>,
    env: Map<Seq<char>, NumberView>,
)
    requires
        balanced(output, waiting, 0, env),
        balanced(group, 0, 1, env),
    ensures
        balanced(output + group, waiting, 1, env),
{
    lemma_eval_in_two(Seq::empty(), output, group, env);
    if eval_stack(output, env) is Ok {
        let stack = eval_stack(output, env)->Ok_0;
        if eval_stack(group, env) is Ok {
            lemma_eval_on_top(stack, group, env);
        } else {
            lemma_eval_fails_on_top(stack, group, env);
        }
    }
}

/// A sequence of operands and operators in turn without its last token is
/// one.
proof fn lemma_earlier_is_well_formed(tokens: Seq<AtomView>)
    requires
        tokens.len() > 0,
        well_formed_until(tokens, tokens.len() as int),
    ensures
        well_formed_until(tokens.drop_last(), tokens.len() - 1),
{
    let earlier = tokens.drop_last();
    assert forall|i: int| 0 <= i < earlier.len() implies match #[trigger] earlier[i] {
        AtomView::Op(_) => i % 2 == 1,
        AtomView::Parens(inner) => i % 2 == 0 && well_formed(inner),
        _ => i % 2 == 0,
    } by {
        assert(earlier[i] == tokens[i]);
    }
}

/// After operands and operators have been read in turn, the stack holds a
/// left operand for every operator that waits, and the operand read last if
/// an operand was.
proof fn lemma_reading_is_balanced(tokens: Seq<AtomView>, env: Map<Seq<char>, NumberView>)
    requires
        well_formed_until(tokens, tokens.len() as int),
    ensures
        balanced(
            shunt(tokens).output,
            shunt(tokens).pending.len(),
            (tokens.len() % 2) as nat,
            env,
        ),
    decreases tokens, 0nat,
{
    if tokens.len() > 0 {
        let earlier = tokens.drop_last();
        let last = tokens.last();
        assert(tokens[tokens.len() - 1] == last);
        lemma_earlier_is_well_formed(tokens);
        lemma_reading_is_balanced(earlier, env);
        let before = shunt(earlier);
        match last {
            AtomView::Op(op) => {
                lemma_pop_while_keeps_balance(before.output, before.pending, op.precedence, env);
            },
            AtomView::Parens(inner) => {
                lemma_well_formed_has_a_value(inner, env);
                lemma_group_keeps_balance(
                    before.output,
                    before.pending.len(),
                    spec_into_postfix(inner),
                    env,
                );
            },
            operand => {
                lemma_operand_keeps_balance(before.output, before.pending.len(), operand, env);
            },
        }
    }
}

/// A well-formed expression has a value, unless a variable in it is not
/// bound or an operator in it gets operands that do not go together: its
/// postfix order never has a shape that the evaluator cannot walk.
pub proof fn lemma_well_formed_has_a_value(
    tokens: Seq<AtomView>,
    env: Map<Seq<char>, NumberView>,
)
    requires
        well_formed(tokens),
    ensures
        spec_eval_postfix(spec_into_postfix(tokens), env) matches Err(e) ==> !(e
            is InvalidExpression),
        balanced(spec_into_postfix(tokens), 0, 1, env),
    decreases tokens, 1nat,
{
    lemma_reading_is_balanced(tokens, env);
    lemma_flush_keeps_balance(shunt(tokens).output, shunt(tokens).pending, env);
}

/// An expression that has been read has a value, unless a variable in it is
/// not bound or an operator in it gets operands that do not go together.
pub proof fn lemma_expression_has_a_value(s: Seq<char>, env: Map<Seq<char>, NumberView>)
    ensures
        spec_eval_expr(s, env) matches Err(FailureView::Evaluation(e)) ==> !(e
            is InvalidExpression),
{
    lemma_expr_consumes(s, MAX_NESTING as nat);
    if let Ok((_, tokens)) = spec_take_expr(s) {
        lemma_well_formed_has_a_value(tokens, env);
        lemma_expression_is_evaluated(tokens, env);
    }
}

} // verus!
