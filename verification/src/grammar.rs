//! The expression grammar: an expression is an atom followed by any number
//! of pairs of an operator and an atom; an atom is an identifier, a number,
//! or an expression in parentheses.
use crate::chars::{lemma_run_len_properties, whitespace};
use crate::common::{
    lemma_identifier_consumes, lemma_skip_whitespace_shortens, outcome, skip_whitespace,
    spec_take_identifier, take_char, take_identifier, take_whitespaces0,
};
use crate::error::{failure_because, Parsed, ParserError, ParserErrorView};
use crate::math::{
    expr_view, lemma_numbers_consume, lemma_operator_consumes, lemma_parens_view,
    spec_take_numbers, spec_take_operator, take_numbers, take_operator, Atom, AtomView, Expr,
};
use crate::postfix::well_formed;
use vstd::prelude::*;

verus! {

/// How deep parentheses may nest: an expression in parentheses that stands
/// inside this many pairs of parentheses is refused.
pub const MAX_NESTING: usize = 128;

/// The diagnostic of an atom that is not there, or whose parenthesis is not
/// closed.
pub open spec fn atom_expected() -> Seq<char> {
    "Expected either number or a parenthesized expression here"@
}

/// The diagnostic of parentheses nested more deeply than the limit.
pub open spec fn nested_too_deeply() -> Seq<char> {
    "Expression nested too deeply"@
}

/// Reads an atom, `depth` being the number of levels of parentheses that it
/// may still open.
///
/// Whitespace before the atom is dropped. Then comes an identifier, which
/// gives a variable; or a number, which gives a literal; or `(`, an
/// expression and `)`, with whitespace dropped after each of them, which give
/// a group. Whitespace after the atom is dropped. Where none of the three
/// stands, the failure carries the input from there; where the closing
/// parenthesis is missing, the input from where it should stand; a failure
/// of the expression in parentheses is the failure of the atom.
pub open spec fn spec_atom(s: Seq<char>, depth: nat) -> Parsed<AtomView>
    decreases s.len(), 0nat,
{
    let start = skip_whitespace(s);
    match spec_take_identifier(start) {
        Ok((rest, name)) => Ok((skip_whitespace(rest), AtomView::Var(name))),
        Err(_) => match spec_take_numbers(start) {
            Ok((rest, number)) => Ok((skip_whitespace(rest), number)),
            Err(_) => if start.len() > 0 && start[0] == '(' {
                if depth == 0 {
                    Err(failure_because(start, nested_too_deeply()))
                } else {
                    proof {
                        lemma_run_len_properties(s, whitespace());
                        lemma_run_len_properties(start.skip(1), whitespace());
                    }
                    match spec_expr(skip_whitespace(start.skip(1)), (depth - 1) as nat) {
                        Ok((rest, tokens)) => {
                            let close = skip_whitespace(rest);
                            if close.len() > 0 && close[0] == ')' {
                                Ok((skip_whitespace(close.skip(1)), AtomView::Parens(tokens)))
                            } else {
                                Err(failure_because(close, atom_expected()))
                            }
                        },
                        Err(e) => Err(e),
                    }
                }
            } else {
                Err(failure_because(start, atom_expected()))
            },
        },
    }
}

/// Reads an operator, whitespace, which is dropped, and an atom.
pub open spec fn spec_pair(s: Seq<char>, depth: nat) -> Parsed<(AtomView, AtomView)>
    decreases s.len(), 1nat,
{
    match spec_take_operator(s) {
        Ok((after, operator)) => {
            proof {
                lemma_run_len_properties(after, whitespace());
            }
            match spec_atom(skip_whitespace(after), depth) {
                Ok((rest, operand)) => Ok((rest, (operator, operand))),
                Err(e) => Err(e),
            }
        },
        Err(e) => Err(e),
    }
}

/// Reads pairs of an operator and an atom for as long as there are any, and
/// gives their tokens in the order read with the input at which no pair
/// stands. An operator that no atom follows is not read. (The comparison of
/// lengths only serves to show that the reading ends: by
/// `lemma_pair_consumes` a pair always consumes input.)
pub open spec fn spec_pairs(s: Seq<char>, depth: nat) -> (Seq<char>, Seq<AtomView>)
    decreases s.len(), 2nat,
{
    match spec_pair(s, depth) {
        Ok((rest, (operator, operand))) => if rest.len() < s.len() {
            let (end, more) = spec_pairs(rest, depth);
            (end, seq![operator, operand] + more)
        } else {
            (s, Seq::empty())
        },
        Err(_) => (s, Seq::empty()),
    }
}

/// Reads an expression: an atom, then pairs of an operator and an atom. (The
/// comparison of lengths only serves to show that the reading ends: by
/// `lemma_atom_consumes` an atom always consumes input.)
pub open spec fn spec_expr(s: Seq<char>, depth: nat) -> Parsed<Seq<AtomView>>
    decreases s.len(), 3nat,
{
    match spec_atom(s, depth) {
        Ok((rest, first)) => if rest.len() < s.len() {
            let (end, more) = spec_pairs(rest, depth);
            Ok((end, seq![first] + more))
        } else {
            Err(failure_because(s, atom_expected()))
        },
        Err(e) => Err(e),
    }
}

/// Reads an atom at the outermost level.
pub open spec fn spec_take_atom(s: Seq<char>) -> Parsed<AtomView> {
    spec_atom(s, MAX_NESTING as nat)
}

/// Reads an expression at the outermost level.
pub open spec fn spec_take_expr(s: Seq<char>) -> Parsed<Seq<AtomView>> {
    spec_expr(s, MAX_NESTING as nat)
}

/// Whether the tokens are pairs of an operator and an operand, every group
/// among them well formed.
pub open spec fn well_formed_pairs(tokens: Seq<AtomView>) -> bool {
    &&& tokens.len() % 2 == 0
    &&& forall|i: int|
        0 <= i < tokens.len() ==> match #[trigger] tokens[i] {
            AtomView::Op(_) => i % 2 == 0,
            AtomView::Parens(inner) => i % 2 == 1 && well_formed(inner),
            _ => i % 2 == 1,
        }
}

/// An atom consumes input, and is an operand: a variable, a literal, or a
/// group that is well formed.
pub proof fn lemma_atom_consumes(s: Seq<char>, depth: nat)
    ensures
        spec_atom(s, depth) matches Ok((rest, atom)) ==> {
            &&& rest.len() < s.len()
            &&& !(atom is Op)
            &&& atom matches AtomView::Parens(inner) ==> well_formed(inner)
        },
    decreases s.len(), 0nat,
{
    let start = skip_whitespace(s);
    lemma_skip_whitespace_shortens(s);
    lemma_identifier_consumes(start);
    lemma_numbers_consume(start);
    match spec_take_identifier(start) {
        Ok((rest, _)) => {
            lemma_skip_whitespace_shortens(rest);
        },
        Err(_) => match spec_take_numbers(start) {
            Ok((rest, _)) => {
                lemma_skip_whitespace_shortens(rest);
            },
            Err(_) => if start.len() > 0 && start[0] == '(' && depth > 0 {
                let inside = skip_whitespace(start.skip(1));
                lemma_skip_whitespace_shortens(start.skip(1));
                lemma_expr_consumes(inside, (depth - 1) as nat);
                match spec_expr(inside, (depth - 1) as nat) {
                    Ok((rest, _)) => {
                        let close = skip_whitespace(rest);
                        lemma_skip_whitespace_shortens(rest);
                        if close.len() > 0 {
                            lemma_skip_whitespace_shortens(close.skip(1));
                        }
                    },
                    Err(_) => {},
                }
            },
        },
    }
}

/// A pair consumes input, and is an operator that binds as its text says and
/// an operand.
pub proof fn lemma_pair_consumes(s: Seq<char>, depth: nat)
    ensures
        spec_pair(s, depth) matches Ok((rest, (operator, operand))) ==> {
            &&& rest.len() < s.len()
            &&& operator matches AtomView::Op(op) && op.wf()
            &&& !(operand is Op)
            &&& operand matches AtomView::Parens(inner) ==> well_formed(inner)
        },
    decreases s.len(), 1nat,
{
    lemma_operator_consumes(s);
    match spec_take_operator(s) {
        Ok((after, _)) => {
            lemma_skip_whitespace_shortens(after);
            lemma_atom_consumes(skip_whitespace(after), depth);
        },
        Err(_) => {},
    }
}

/// Pairs leave no more input than there was, and are operators and operands
/// in turn.
pub proof fn lemma_pairs_consume(s: Seq<char>, depth: nat)
    ensures
        spec_pairs(s, depth).0.len() <= s.len(),
        well_formed_pairs(spec_pairs(s, depth).1),
    decreases s.len(), 2nat,
{
    lemma_pair_consumes(s, depth);
    match spec_pair(s, depth) {
        Ok((rest, (operator, operand))) => {
            lemma_pairs_consume(rest, depth);
            let more = spec_pairs(rest, depth).1;
            let all = seq![operator, operand] + more;
            assert forall|i: int| 0 <= i < all.len() implies match #[trigger] all[i] {
                AtomView::Op(_) => i % 2 == 0,
                AtomView::Parens(inner) => i % 2 == 1 && well_formed(inner),
                _ => i % 2 == 1,
            } by {
                if i >= 2 {
                    assert(all[i] == more[i - 2]);
                }
            }
        },
        Err(_) => {},
    }
}

/// An expression consumes input, and its tokens are well formed.
pub proof fn lemma_expr_consumes(s: Seq<char>, depth: nat)
    ensures
        spec_expr(s, depth) matches Ok((rest, tokens)) ==> rest.len() < s.len() && well_formed(
            tokens,
        ),
    decreases s.len(), 3nat,
{
    lemma_atom_consumes(s, depth);
    match spec_atom(s, depth) {
        Ok((rest, first)) => {
            lemma_pairs_consume(rest, depth);
            let more = spec_pairs(rest, depth).1;
            let all = seq![first] + more;
            assert forall|i: int| 0 <= i < all.len() implies match #[trigger] all[i] {
                AtomView::Op(_) => i % 2 == 1,
                AtomView::Parens(inner) => i % 2 == 0 && well_formed(inner),
                _ => i % 2 == 0,
            } by {
                if i >= 1 {
                    assert(all[i] == more[i - 1]);
                }
            }
        },
        Err(_) => {},
    }
}

/// What an expression's result stands for.
pub open spec fn expr_outcome(r: Result<(String, Expr), ParserError>) -> Parsed<
    Seq<AtomView>,
> {
    match r {
        Ok((rest, tokens)) => Ok((rest@, expr_view(tokens@))),
        Err(e) => Err(e@),
    }
}

/// What a pair's result stands for.
pub open spec fn pair_outcome(r: Result<(String, (Atom, Atom)), ParserError>) -> Parsed<
    (AtomView, AtomView),
> {
    match r {
        Ok((rest, (operator, operand))) => Ok((rest@, (operator@, operand@))),
        Err(e) => Err(e@),
    }
}

fn atom_expected_reason() -> (reason: String)
    ensures
        reason@ == atom_expected(),
{
    String::from_str("Expected either number or a parenthesized expression here")
}

fn atom_within(s: String, depth: usize) -> (r: Result<(String, Atom), ParserError>)
    ensures
        outcome(r) == spec_atom(s@, depth as nat),
    decreases s@.len(), 0nat,
{
    let start = match take_whitespaces0(s) {
        Ok((start, _)) => start,
        Err(e) => {
            return Err(e);
        },
    };
    let error = match take_identifier(start) {
        Ok((remaining, name)) => {
            return match take_whitespaces0(remaining) {
                Ok((remaining, _)) => Ok((remaining, Atom::Var(name))),
                Err(e) => Err(e),
            };
        },
        Err(error) => error,
    };
    let error = match take_numbers(error.remaining()) {
        Ok((remaining, number)) => {
            return match take_whitespaces0(remaining) {
                Ok((remaining, _)) => Ok((remaining, number)),
                Err(e) => Err(e),
            };
        },
        Err(error) => error,
    };
    let remaining = match take_char(error.remaining(), '(') {
        Ok((remaining, _)) => remaining,
        Err(error) => {
            return Err(ParserError::newr(error.remaining(), atom_expected_reason()));
        },
    };
    if depth == 0 {
        return Err(
            ParserError::newr(error.remaining(), String::from_str("Expression nested too deeply")),
        );
    }
    proof {
        lemma_skip_whitespace_shortens(s@);
        lemma_skip_whitespace_shortens(remaining@);
    }
    let inside = match take_whitespaces0(remaining) {
        Ok((inside, _)) => inside,
        Err(e) => {
            return Err(e);
        },
    };
    let (remaining, expr) = match expr_within(inside, depth - 1) {
        Ok(found) => found,
        Err(e) => {
            return Err(e);
        },
    };
    let close = match take_whitespaces0(remaining) {
        Ok((close, _)) => close,
        Err(e) => {
            return Err(e);
        },
    };
    match take_char(close, ')') {
        Ok((remaining, _)) => {
            proof {
                lemma_parens_view(expr);
            }
            match take_whitespaces0(remaining) {
                Ok((remaining, _)) => Ok((remaining, Atom::Parens(expr))),
                Err(e) => Err(e),
            }
        },
        Err(error) => Err(ParserError::newr(error.remaining(), atom_expected_reason())),
    }
}

fn pair_within(s: String, depth: usize) -> (r: Result<(String, (Atom, Atom)), ParserError>)
    ensures
        pair_outcome(r) == spec_pair(s@, depth as nat),
    decreases s@.len(), 1nat,
{
    let (remaining, operator) = match take_operator(s) {
        Ok(found) => found,
        Err(e) => {
            return Err(e);
        },
    };
    proof {
        lemma_operator_consumes(s@);
        lemma_skip_whitespace_shortens(remaining@);
    }
    let remaining = match take_whitespaces0(remaining) {
        Ok((remaining, _)) => remaining,
        Err(e) => {
            return Err(e);
        },
    };
    match atom_within(remaining, depth) {
        Ok((remaining, operand)) => Ok((remaining, (operator, operand))),
        Err(e) => Err(e),
    }
}

fn expr_within(s: String, depth: usize) -> (r: Result<(String, Expr), ParserError>)
    ensures
        expr_outcome(r) == spec_expr(s@, depth as nat),
    decreases s@.len(), 3nat,
{
    let (start, first) = match atom_within(s, depth) {
        Ok(found) => found,
        Err(e) => {
            return Err(e);
        },
    };
    proof {
        lemma_atom_consumes(s@, depth as nat);
    }
    let mut remaining = start.clone();
    let mut expr: Vec<Atom> = Vec::new();
    expr.push(first);
    loop
        invariant
            spec_atom(s@, depth as nat) == Ok::<(Seq<char>, AtomView), ParserErrorView>(
                (start@, first@),
            ),
            start@.len() < s@.len(),
            remaining@.len() < s@.len(),
            spec_pairs(start@, depth as nat).0 == spec_pairs(remaining@, depth as nat).0,
            seq![first@] + spec_pairs(start@, depth as nat).1 == expr_view(expr@) + spec_pairs(
                remaining@,
                depth as nat,
            ).1,
        decreases remaining@.len(),
    {
        let ghost so_far = expr_view(expr@);
        proof {
            lemma_pair_consumes(remaining@, depth as nat);
        }
        match pair_within(remaining.clone(), depth) {
            Ok((rest, (operator, operand))) => {
                let ghost more = spec_pairs(rest@, depth as nat).1;
                expr.push(operator);
                expr.push(operand);
                remaining = rest;
            },
            Err(_) => {
                return Ok((remaining, expr));
            },
        }
    }
}

/// Reads an atom and appends it to `vec`, which a failure leaves as it was.
pub fn take_atom(s: String, vec: &mut Expr) -> (r: Result<(String, ()), ParserError>)
    ensures
        match r {
            Ok((rest, _)) => {
                &&& final(vec)@.len() == old(vec)@.len() + 1
                &&& final(vec)@.drop_last() == old(vec)@
                &&& spec_take_atom(s@) == Ok::<(Seq<char>, AtomView), ParserErrorView>(
                    (rest@, final(vec)@.last()@),
                )
            },
            Err(e) => {
                &&& final(vec)@ == old(vec)@
                &&& spec_take_atom(s@) == Err::<(Seq<char>, AtomView), ParserErrorView>(e@)
            },
        },
{
    match atom_within(s, MAX_NESTING) {
        Ok((remaining, atom)) => {
            vec.push(atom);
            Ok((remaining, ()))
        },
        Err(e) => Err(e),
    }
}

/// Reads an expression and gives its tokens in infix order, each expression
/// in parentheses as one group. The tokens are well formed.
pub fn take_expr(s: String) -> (r: Result<(String, Expr), ParserError>)
    ensures
        expr_outcome(r) == spec_take_expr(s@),
        r matches Ok((rest, tokens)) ==> well_formed(expr_view(tokens@)),
{
    proof {
        lemma_expr_consumes(s@, MAX_NESTING as nat);
    }
    expr_within(s, MAX_NESTING)
}

} // verus!
