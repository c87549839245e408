//! Precedence resolution: from the tokens in infix order to postfix order.
use crate::error::{EvalError, EvalErrorView};
use crate::math::{expr_view, lemma_parens_view, Atom, AtomView, Expr, Operator};
use crate::meaning::{by_precedence, lemma_postfix_is_by_precedence};
use vstd::prelude::*;

verus! {

/// Whether the tokens have the shape of an infix expression: operands and
/// operators in turn, an operand first and last, and every group of that
/// shape itself.
pub open spec fn well_formed(tokens: Seq<AtomView>) -> bool
    decreases tokens,
{
    &&& tokens.len() % 2 == 1
    &&& forall|i: int|
        0 <= i < tokens.len() ==> match #[trigger] tokens[i] {
            AtomView::Op(_) => i % 2 == 1,
            AtomView::Parens(inner) => i % 2 == 0 && well_formed(inner),
            _ => i % 2 == 0,
        }
}

/// The state of precedence resolution: what has been emitted, and the
/// operators that wait, the one pushed last at the end.
pub struct Shunting {
    pub output: Seq<AtomView>,
    pub pending: Seq<Operator>,
}

/// Emits the waiting operators that bind at least as tightly as `precedence`,
/// the one pushed last first.
pub open spec fn pop_while(output: Seq<AtomView>, pending: Seq<Operator>, precedence: i32)
    -> Shunting
    decreases pending.len(),
{
    if pending.len() > 0 && pending.last().precedence >= precedence {
        pop_while(output.push(AtomView::Op(pending.last())), pending.drop_last(), precedence)
    } else {
        Shunting { output, pending }
    }
}

/// Emits all waiting operators, the one pushed last first.
pub open spec fn flush(output: Seq<AtomView>, pending: Seq<Operator>) -> Seq<AtomView>
    decreases pending.len(),
{
    if pending.len() == 0 {
        output
    } else {
        flush(output.push(AtomView::Op(pending.last())), pending.drop_last())
    }
}

/// The state in which nothing has been emitted and no operator waits.
pub open spec fn start() -> Shunting {
    Shunting { output: Seq::empty(), pending: Seq::empty() }
}

/// The state after the tokens have been read in infix order, starting from
/// `state`. A literal or a variable is emitted as it is. A group is resolved
/// by itself and what it gives is emitted. An operator first emits the
/// waiting operators that bind at least as tightly as it does, and then waits
/// itself.
pub open spec fn shunt_from(state: Shunting, tokens: Seq<AtomView>) -> Shunting
    decreases tokens,
{
    if tokens.len() == 0 {
        state
    } else {
        let before = shunt_from(state, tokens.drop_last());
        match tokens.last() {
            AtomView::Op(op) => {
                let popped = pop_while(before.output, before.pending, op.precedence);
                Shunting { output: popped.output, pending: popped.pending.push(op) }
            },
            AtomView::Parens(inner) => {
                let resolved = shunt_from(start(), inner);
                Shunting {
                    output: before.output + flush(resolved.output, resolved.pending),
                    pending: before.pending,
                }
            },
            operand => Shunting { output: before.output.push(operand), pending: before.pending },
        }
    }
}

/// The state after the tokens have been read in infix order, starting with
/// nothing emitted and no operator waiting.
pub open spec fn shunt(tokens: Seq<AtomView>) -> Shunting {
    shunt_from(start(), tokens)
}

/// The postfix order of an infix token sequence.
pub open spec fn spec_into_postfix(tokens: Seq<AtomView>) -> Seq<AtomView> {
    let end = shunt(tokens);
    flush(end.output, end.pending)
}

/// Whether the first `n` tokens can begin a well-formed expression.
pub open spec fn well_formed_until(tokens: Seq<AtomView>, n: int) -> bool {
    forall|i: int|
        0 <= i < n ==> match #[trigger] tokens[i] {
            AtomView::Op(_) => i % 2 == 1,
            AtomView::Parens(inner) => i % 2 == 0 && well_formed(inner),
            _ => i % 2 == 0,
        }
}

/// Reorders a well-formed infix token sequence into the postfix order that
/// precedence gives it. It reads the tokens once and keeps the operators
/// that wait on a stack, and it resolves each group before what surrounds it.
/// A sequence that is not well formed is an invalid expression.
pub fn into_postfix(tokens: Expr) -> (r: Result<Expr, EvalError>)
    ensures
        match r {
            Ok(postfix) => {
                &&& well_formed(expr_view(tokens@))
                &&& expr_view(postfix@) == by_precedence(expr_view(tokens@))
                &&& expr_view(postfix@) == spec_into_postfix(expr_view(tokens@))
            },
            Err(e) => !well_formed(expr_view(tokens@)) && e@ == EvalErrorView::InvalidExpression,
        },
    decreases tokens,
{
    let ghost infix = expr_view(tokens@);
    let mut op_stack: Vec<Operator> = Vec::new();
    let mut output: Vec<Atom> = Vec::new();
    let mut operand_next = true;
    assert(expr_view(output@) =~= Seq::<AtomView>::empty());
    for atom in iter: tokens.into_iter()
        invariant
            iter.seq() == tokens@,
            infix == expr_view(tokens@),
            operand_next == (iter.index() % 2 == 0),
            well_formed_until(infix, iter.index() as int),
            shunt(infix.take(iter.index() as int)) == (Shunting {
                output: expr_view(output@),
                pending: op_stack@,
            }),
    {
        let ghost i = iter.index() as int;
        let ghost before_output = expr_view(output@);
        assert(infix.take(i + 1).drop_last() =~= infix.take(i));
        assert(infix.take(i + 1).last() == atom@);
        match atom {
            Atom::Op(op) => {
                if operand_next {
                    return Err(EvalError::InvalidExpression);
                }
                while op_stack.len() > 0 && op_stack[op_stack.len() - 1].precedence
                    >= op.precedence
                    invariant
                        pop_while(before_output, shunt(infix.take(i)).pending, op.precedence)
                            == pop_while(expr_view(output@), op_stack@, op.precedence),
                    decreases op_stack.len(),
                {
                    let ghost out = expr_view(output@);
                    let top = op_stack.pop().unwrap();
                    output.push(Atom::Op(top));
                    assert(expr_view(output@) =~= out.push(AtomView::Op(top)));
                }
                op_stack.push(op);
            },
            Atom::Parens(inner) => {
                if !operand_next {
                    return Err(EvalError::InvalidExpression);
                }
                proof {
                    lemma_parens_view(inner);
                }
                let mut resolved = match into_postfix(inner) {
                    Ok(resolved) => resolved,
                    Err(e) => {
                        return Err(e);
                    },
                };
                let ghost tail = expr_view(resolved@);
                output.append(&mut resolved);
                assert(expr_view(output@) =~= before_output + tail);
            },
            operand => {
                if !operand_next {
                    return Err(EvalError::InvalidExpression);
                }
                output.push(operand);
                assert(expr_view(output@) =~= before_output.push(operand@));
            },
        }
        operand_next = !operand_next;
    }
    let ghost n = tokens@.len() as int;
    assert(infix.take(n) =~= infix);
    if operand_next {
        return Err(EvalError::InvalidExpression);
    }
    proof {
        lemma_postfix_is_by_precedence(infix);
    }
    while op_stack.len() > 0
        invariant
            spec_into_postfix(infix) == flush(expr_view(output@), op_stack@),
            spec_into_postfix(infix) == by_precedence(infix),
        decreases op_stack.len(),
    {
        let ghost out = expr_view(output@);
        let top = op_stack.pop().unwrap();
        output.push(Atom::Op(top));
        assert(expr_view(output@) =~= out.push(AtomView::Op(top)));
    }
    Ok(output)
}

/// Reading `first` and then `second` is reading the two one after the other.
pub proof fn lemma_shunt_in_two(state: Shunting, first: Seq<AtomView>, second: Seq<AtomView>)
    ensures
        shunt_from(state, first + second) == shunt_from(shunt_from(state, first), second),
    decreases second.len(),
{
    if second.len() > 0 {
        assert((first + second).drop_last() =~= first + second.drop_last());
        lemma_shunt_in_two(state, first, second.drop_last());
    }
}

/// Reading one token is one step of the reading.
pub proof fn lemma_shunt_one(state: Shunting, token: AtomView)
    ensures
        shunt_from(state, seq![token]) == match token {
            AtomView::Op(op) => {
                let popped = pop_while(state.output, state.pending, op.precedence);
                Shunting { output: popped.output, pending: popped.pending.push(op) }
            },
            AtomView::Parens(inner) => Shunting {
                output: state.output + spec_into_postfix(inner),
                pending: state.pending,
            },
            operand => Shunting { output: state.output.push(operand), pending: state.pending },
        },
{
    let one = seq![token];
    assert(shunt_from(state, one.drop_last()) == state);
}

/// Whether every operator among the tokens, those inside groups apart, binds
/// more tightly than `precedence`.
pub open spec fn binds_above(tokens: Seq<AtomView>, precedence: int) -> bool {
    forall|i: int|
        0 <= i < tokens.len() ==> (#[trigger] tokens[i] matches AtomView::Op(op)
            ==> op.precedence > precedence)
}

/// Whether every operator among the tokens, those inside groups apart, binds
/// at least as tightly as `precedence`.
pub open spec fn binds_at_least(tokens: Seq<AtomView>, precedence: int) -> bool {
    forall|i: int|
        0 <= i < tokens.len() ==> (#[trigger] tokens[i] matches AtomView::Op(op)
            ==> op.precedence >= precedence)
}

/// What was emitted before does not matter to what is emitted next.
pub proof fn lemma_flush_after(emitted: Seq<AtomView>, output: Seq<AtomView>, pending: Seq<Operator>)
    ensures
        flush(emitted + output, pending) == emitted + flush(output, pending),
    decreases pending.len(),
{
    if pending.len() > 0 {
        let top = AtomView::Op(pending.last());
        assert((emitted + output).push(top) =~= emitted + output.push(top));
        lemma_flush_after(emitted, output.push(top), pending.drop_last());
    }
}

/// Operators that wait above others are all emitted before them.
pub proof fn lemma_flush_in_two(output: Seq<AtomView>, below: Seq<Operator>, above: Seq<Operator>)
    ensures
        flush(output, below + above) == flush(flush(output, above), below),
    decreases above.len(),
{
    if above.len() == 0 {
        assert(below + above =~= below);
    } else {
        assert((below + above).drop_last() =~= below + above.drop_last());
        lemma_flush_in_two(output.push(AtomView::Op(above.last())), below, above.drop_last());
    }
}

/// An operator that binds more tightly than the one waiting on top of
/// `below` leaves `below` alone, whatever waits above it.
pub proof fn lemma_pop_while_above(
    emitted: Seq<AtomView>,
    output: Seq<AtomView>,
    below: Seq<Operator>,
    above: Seq<Operator>,
    precedence: i32,
)
    requires
        below.len() > 0 ==> below.last().precedence < precedence,
    ensures
        pop_while(emitted + output, below + above, precedence) == (Shunting {
            output: emitted + pop_while(output, above, precedence).output,
            pending: below + pop_while(output, above, precedence).pending,
        }),
    decreases above.len(),
{
    if above.len() == 0 {
        assert(below + above =~= below);
    } else {
        assert((below + above).last() == above.last());
        if above.last().precedence >= precedence {
            let top = AtomView::Op(above.last());
            assert((below + above).drop_last() =~= below + above.drop_last());
            assert((emitted + output).push(top) =~= emitted + output.push(top));
            lemma_pop_while_above(emitted, output.push(top), below, above.drop_last(), precedence);
        }
    }
}

/// An operator that binds no more tightly than any of those waiting in
/// `above` has them all emitted, and goes on with what waits below.
pub proof fn lemma_pop_while_through(
    output: Seq<AtomView>,
    below: Seq<Operator>,
    above: Seq<Operator>,
    precedence: i32,
)
    requires
        forall|i: int| 0 <= i < above.len() ==> (#[trigger] above[i]).precedence >= precedence,
    ensures
        pop_while(output, below + above, precedence) == pop_while(
            flush(output, above),
            below,
            precedence,
        ),
    decreases above.len(),
{
    if above.len() == 0 {
        assert(below + above =~= below);
    } else {
        assert((below + above).last() == above.last());
        assert((below + above).drop_last() =~= below + above.drop_last());
        lemma_pop_while_through(
            output.push(AtomView::Op(above.last())),
            below,
            above.drop_last(),
            precedence,
        );
    }
}

/// The operators that wait after `pop_while` are the lowest of those that
/// waited before.
pub proof fn lemma_pop_while_keeps_a_prefix(
    output: Seq<AtomView>,
    pending: Seq<Operator>,
    precedence: i32,
)
    ensures
        pop_while(output, pending, precedence).pending.is_prefix_of(pending),
    decreases pending.len(),
{
    if pending.len() > 0 && pending.last().precedence >= precedence {
        lemma_pop_while_keeps_a_prefix(
            output.push(AtomView::Op(pending.last())),
            pending.drop_last(),
            precedence,
        );
    }
}

/// The operators that wait after the tokens have been read are operators
/// among the tokens.
pub proof fn lemma_pending_binds_at_least(tokens: Seq<AtomView>, precedence: int)
    requires
        binds_at_least(tokens, precedence),
    ensures
        forall|i: int|
            0 <= i < shunt(tokens).pending.len() ==> (#[trigger] shunt(
                tokens,
            ).pending[i]).precedence >= precedence,
    decreases tokens.len(),
{
    if tokens.len() > 0 {
        let rest = tokens.drop_last();
        assert forall|i: int| 0 <= i < rest.len() implies (#[trigger] rest[i] matches AtomView::Op(
            op,
        ) ==> op.precedence >= precedence) by {
            assert(rest[i] == tokens[i]);
        }
        lemma_pending_binds_at_least(rest, precedence);
        let before = shunt(rest);
        match tokens.last() {
            AtomView::Op(op) => {
                assert(tokens[tokens.len() - 1] == tokens.last());
                lemma_pop_while_keeps_a_prefix(before.output, before.pending, op.precedence);
                let kept = pop_while(before.output, before.pending, op.precedence).pending;
                assert forall|i: int| 0 <= i < kept.len() implies (#[trigger] kept[i]).precedence
                    >= precedence by {
                    assert(kept[i] == before.pending.subrange(0, kept.len() as int)[i]);
                }
            },
            _ => {},
        }
    }
}

/// Tokens whose operators all bind more tightly than the one waiting on top
/// are read as if nothing had been read before them: what they emit comes
/// after what was emitted, and what they leave waiting waits above what
/// waited.
pub proof fn lemma_shunt_above(state: Shunting, tokens: Seq<AtomView>)
    requires
        state.pending.len() > 0 ==> binds_above(tokens, state.pending.last().precedence as int),
    ensures
        shunt_from(state, tokens) == (Shunting {
            output: state.output + shunt(tokens).output,
            pending: state.pending + shunt(tokens).pending,
        }),
    decreases tokens.len(),
{
    if tokens.len() == 0 {
        assert(state.output + shunt(tokens).output =~= state.output);
        assert(state.pending + shunt(tokens).pending =~= state.pending);
    } else {
        let rest = tokens.drop_last();
        if state.pending.len() > 0 {
            assert forall|i: int| 0 <= i < rest.len() implies (#[trigger] rest[i] matches AtomView::Op(
                op,
            ) ==> op.precedence > state.pending.last().precedence) by {
                assert(rest[i] == tokens[i]);
            }
        }
        lemma_shunt_above(state, rest);
        let alone = shunt(rest);
        match tokens.last() {
            AtomView::Op(op) => {
                assert(tokens[tokens.len() - 1] == tokens.last());
                lemma_pop_while_above(
                    state.output,
                    alone.output,
                    state.pending,
                    alone.pending,
                    op.precedence,
                );
                let popped = pop_while(alone.output, alone.pending, op.precedence);
                assert((state.pending + popped.pending).push(op) =~= state.pending
                    + popped.pending.push(op));
            },
            AtomView::Parens(inner) => {
                let resolved = shunt(inner);
                let group = flush(resolved.output, resolved.pending);
                assert((state.output + alone.output) + group =~= state.output + (alone.output
                    + group));
            },
            operand => {
                assert((state.output + alone.output).push(operand) =~= state.output
                    + alone.output.push(operand));
            },
        }
    }
}

} // verus!
