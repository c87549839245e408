//! Lines: a declaration binds the value of an expression to a name, and any
//! other line is an expression to evaluate.
use crate::chars::{
    alphanumeric, char_alphabetic, char_alphanumeric, char_whitespace, lemma_run_len,
    lemma_run_len_properties, whitespace,
};
use crate::common::{
    skip_whitespace, spec_take_char, spec_take_identifier, spec_take_str,
    spec_take_whitespaces1, take_char, take_identifier, take_str, take_whitespaces0,
    take_whitespaces1,
};
use crate::env::Environment;
use crate::error::{failure, Failure, FailureView, ParserError, ParserErrorView};
use crate::eval::eval_postfix;
use crate::grammar::{spec_take_expr, take_expr};
use crate::math::{expr_view, AtomView, Float, FloatView, Number, NumberView};
use crate::meaning::{lemma_expression_is_evaluated, value_of};
use crate::postfix::into_postfix;
use vstd::prelude::*;

verus! {

/// What the result of evaluating a line stands for.
pub open spec fn value_outcome(r: Result<(String, Number), Failure>) -> Result<
    (Seq<char>, NumberView),
    FailureView,
> {
    match r {
        Ok((rest, value)) => Ok((rest@, value@)),
        Err(e) => Err(e@),
    }
}

/// The value of the expression at the start of `s` over `env`, with the
/// input that is left after it.
pub open spec fn spec_eval_expr(s: Seq<char>, env: Map<Seq<char>, NumberView>) -> Result<
    (Seq<char>, NumberView),
    FailureView,
> {
    match spec_take_expr(s) {
        Ok((rest, tokens)) => match value_of(tokens, env) {
            Ok(value) => Ok((rest, value)),
            Err(e) => Err(FailureView::Evaluation(e)),
        },
        Err(e) => Err(FailureView::Parse(e)),
    }
}

/// A declaration that was read: the name, the value bound to it, and the
/// input left after the declaration.
pub struct Declaration {
    pub rest: Seq<char>,
    pub name: Seq<char>,
    pub value: NumberView,
}

/// The head of a declaration: `let`, whitespace, an identifier, `=`, with
/// whitespace dropped around the last two. It gives the name and the input
/// after the head.
pub open spec fn spec_decl_head(s: Seq<char>) -> Option<(Seq<char>, Seq<char>)> {
    match spec_take_str(s, "let"@) {
        Ok((after_let, _)) => match spec_take_whitespaces1(after_let) {
            Ok((at_name, _)) => match spec_take_identifier(at_name) {
                Ok((after_name, name)) => match spec_take_char(skip_whitespace(after_name), '=') {
                    Ok((after_sign, _)) => Some((name, skip_whitespace(after_sign))),
                    Err(_) => None,
                },
                Err(_) => None,
            },
            Err(_) => None,
        },
        Err(_) => None,
    }
}

/// Reads a declaration: its head, an expression, which is evaluated over
/// `env`, and `;`. Whatever part fails, the failure carries the whole input.
pub open spec fn spec_take_decl(s: Seq<char>, env: Map<Seq<char>, NumberView>) -> Result<
    Declaration,
    ParserErrorView,
> {
    match spec_decl_head(s) {
        Some((name, body)) => match spec_eval_expr(body, env) {
            Ok((after, value)) => match spec_take_char(after, ';') {
                Ok((rest, _)) => Ok(Declaration { rest, name, value }),
                Err(_) => Err(failure(s)),
            },
            Err(_) => Err(failure(s)),
        },
        None => Err(failure(s)),
    }
}

/// The result of a line: of the declaration if it is one, and else of the
/// line as an expression.
pub open spec fn spec_eval_line(s: Seq<char>, env: Map<Seq<char>, NumberView>) -> Result<
    (Seq<char>, NumberView),
    FailureView,
> {
    match spec_take_decl(s, env) {
        Ok(declaration) => Ok((declaration.rest, declaration.value)),
        Err(_) => spec_eval_expr(s, env),
    }
}

/// The environment after a line: a declaration binds its name to its value,
/// and nothing else changes anything.
pub open spec fn spec_env_after(s: Seq<char>, env: Map<Seq<char>, NumberView>) -> Map<
    Seq<char>,
    NumberView,
> {
    match spec_take_decl(s, env) {
        Ok(declaration) => env.insert(declaration.name, declaration.value),
        Err(_) => env,
    }
}

/// Evaluates the expression at the start of `s` over the variables, which it
/// leaves as they are.
pub fn eval_expr(s: String, variables: &mut Environment) -> (r: Result<(String, Number), Failure>)
    ensures
        value_outcome(r) == spec_eval_expr(s@, old(variables)@),
        final(variables)@ == old(variables)@,
{
    let (rem, expr) = match take_expr(s) {
        Ok(found) => found,
        Err(e) => {
            return Err(Failure::Parse(e));
        },
    };
    proof {
        lemma_expression_is_evaluated(expr_view(expr@), variables@);
    }
    let postfix = match into_postfix(expr) {
        Ok(postfix) => postfix,
        Err(e) => {
            return Err(Failure::Evaluation(e));
        },
    };
    match eval_postfix(postfix, variables) {
        Ok(value) => Ok((rem, value)),
        Err(e) => Err(Failure::Evaluation(e)),
    }
}

/// Reads the head of a declaration, `let name =` with the whitespace after
/// it, and gives the name and the input after the head.
pub fn take_decl_head(s: String) -> (r: Option<(String, String)>)
    ensures
        match r {
            Some((name, body)) => spec_decl_head(s@) == Some((name@, body@)),
            None => spec_decl_head(s@) is None,
        },
{
    let remaining = match take_str(s, "let") {
        Ok((remaining, _)) => remaining,
        Err(_) => {
            return None;
        },
    };
    let remaining = match take_whitespaces1(remaining) {
        Ok((remaining, _)) => remaining,
        Err(_) => {
            return None;
        },
    };
    let (remaining, name) = match take_identifier(remaining) {
        Ok(found) => found,
        Err(_) => {
            return None;
        },
    };
    let remaining = match take_whitespaces0(remaining) {
        Ok((remaining, _)) => remaining,
        Err(_) => {
            return None;
        },
    };
    let remaining = match take_char(remaining, '=') {
        Ok((remaining, _)) => remaining,
        Err(_) => {
            return None;
        },
    };
    match take_whitespaces0(remaining) {
        Ok((body, _)) => Some((name, body)),
        Err(_) => None,
    }
}

/// Reads a declaration and evaluates its expression, and gives the name and
/// the value with the input that is left. It binds nothing.
fn read_decl(s: String, variables: &mut Environment) -> (r: Option<(String, String, Number)>)
    ensures
        final(variables)@ == old(variables)@,
        match r {
            Some((rest, name, value)) => spec_take_decl(s@, old(variables)@) == Ok::<
                Declaration,
                ParserErrorView,
            >(Declaration { rest: rest@, name: name@, value: value@ }),
            None => spec_take_decl(s@, old(variables)@) is Err,
        },
{
    let (name, body) = match take_decl_head(s) {
        Some(found) => found,
        None => {
            return None;
        },
    };
    let (remaining, value) = match eval_expr(body, variables) {
        Ok(found) => found,
        Err(_) => {
            return None;
        },
    };
    match take_char(remaining, ';') {
        Ok((remaining, _)) => Some((remaining, name, value)),
        Err(_) => None,
    }
}

/// Reads a declaration, evaluates its expression and binds the value to its
/// name. A failure carries the whole input and leaves the variables as they
/// are.
pub fn take_decl(s: String, variables: &mut Environment) -> (r: Result<
    (String, Number),
    ParserError,
>)
    ensures
        match r {
            Ok((rest, value)) => {
                &&& spec_take_decl(s@, old(variables)@) matches Ok(declaration)
                &&& rest@ == declaration.rest
                &&& value@ == declaration.value
                &&& final(variables)@ == old(variables)@.insert(
                    declaration.name,
                    declaration.value,
                )
            },
            Err(e) => {
                &&& spec_take_decl(s@, old(variables)@) is Err
                &&& e@ == failure(s@)
                &&& final(variables)@ == old(variables)@
            },
        },
{
    match read_decl(s.clone(), variables) {
        Some((remaining, name, value)) => {
            variables.insert(name, value.clone());
            Ok((remaining, value))
        },
        None => Err(ParserError::new(s)),
    }
}

/// Evaluates a line: as a declaration if it is one, and else as an
/// expression. Only a declaration that succeeds changes the variables.
pub fn eval_line(s: String, variables: &mut Environment) -> (r: Result<(String, Number), Failure>)
    ensures
        value_outcome(r) == spec_eval_line(s@, old(variables)@),
        final(variables)@ == spec_env_after(s@, old(variables)@),
{
    match take_decl(s, variables) {
        Ok(found) => Ok(found),
        Err(error) => eval_expr(error.remaining(), variables),
    }
}

/// Whether `compute` can give `bits` for a term that stands for `term`.
pub open spec fn computes<F: Fn(&Float) -> u32>(compute: F, term: FloatView, bits: u32) -> bool {
    exists|given: Float| given@ == term && #[trigger] compute.ensures((&given,), bits)
}

/// What `eval_line_computing` makes of a line that declares a floating-point
/// value: it gives and binds the bits that `compute` gave for its term.
pub open spec fn declared_bits<F: Fn(&Float) -> u32>(
    declaration: Declaration,
    compute: F,
    r: Result<(String, Number), Failure>,
    before: Map<Seq<char>, NumberView>,
    after: Map<Seq<char>, NumberView>,
) -> bool {
    &&& r matches Ok((rest, value))
    &&& rest@ == declaration.rest
    &&& declaration.value matches NumberView::F32(term)
    &&& value@ matches NumberView::F32(FloatView::Bits(bits))
    &&& computes(compute, term, bits)
    &&& after == before.insert(declaration.name, value@)
}

/// Evaluates a line as `eval_line` does, with one difference: where a
/// declaration gives a floating-point value, `compute` is asked for the bits
/// of its term, and the value that is bound and given is the one with these
/// bits. What the variables hold then does not grow from one declaration to
/// the next.
pub fn eval_line_computing<F: Fn(&Float) -> u32>(
    s: String,
    variables: &mut Environment,
    compute: F,
) -> (r: Result<(String, Number), Failure>)
    requires
        forall|term: &Float| #[trigger] compute.requires((term,)),
    ensures
        match spec_take_decl(s@, old(variables)@) {
            Ok(declaration) => if declaration.value is F32 {
                declared_bits(declaration, compute, r, old(variables)@, final(variables)@)
            } else {
                &&& value_outcome(r) == spec_eval_line(s@, old(variables)@)
                &&& final(variables)@ == spec_env_after(s@, old(variables)@)
            },
            Err(_) => {
                &&& value_outcome(r) == spec_eval_expr(s@, old(variables)@)
                &&& final(variables)@ == old(variables)@
            },
        },
{
    match read_decl(s.clone(), variables) {
        Some((remaining, name, Number::F32(term))) => {
            let bits = compute(&term);
            assert(computes(compute, term@, bits));
            variables.insert(name, Number::F32(Float::bits(bits)));
            Ok((remaining, Number::F32(Float::bits(bits))))
        },
        Some((remaining, name, value)) => {
            variables.insert(name, value.clone());
            Ok((remaining, value))
        },
        None => eval_expr(s, variables),
    }
}

/// An identifier that stands alone is read as the expression of one
/// variable, and nothing is left.
pub proof fn lemma_identifier_alone(name: Seq<char>)
    requires
        name.len() > 0,
        char_alphabetic(name[0]),
        !char_whitespace(name[0]),
        forall|i: int| 1 <= i < name.len() ==> char_alphanumeric(#[trigger] name[i]),
    ensures
        spec_take_expr(name) == Ok::<(Seq<char>, Seq<AtomView>), ParserErrorView>(
            (Seq::empty(), seq![AtomView::Var(name)]),
        ),
{
    let empty = Seq::<char>::empty();
    // No whitespace stands before the name, and none after it.
    lemma_run_len(name, whitespace(), 0);
    assert(skip_whitespace(name) =~= name);
    lemma_run_len(empty, whitespace(), 0);
    assert(skip_whitespace(empty) =~= empty);
    // The identifier is the whole name.
    let others = name.skip(1);
    assert forall|i: int| 0 <= i < others.len() implies alphanumeric()(#[trigger] others[i]) by {
        assert(others[i] == name[i + 1]);
    }
    lemma_run_len(others, alphanumeric(), others.len());
    assert(name.skip(name.len() as int) =~= empty);
}

/// After a declaration, the name that it declares, evaluated alone, has the
/// value of the expression that stands in the declaration.
pub proof fn lemma_declared_name_has_the_value(line: Seq<char>, env: Map<Seq<char>, NumberView>)
    requires
        spec_take_decl(line, env) is Ok,
    ensures
        ({
            let declaration = spec_take_decl(line, env)->Ok_0;
            let (name, body) = spec_decl_head(line)->Some_0;
            &&& name == declaration.name
            &&& spec_eval_expr(body, env) matches Ok((_, value)) && value == declaration.value
            &&& spec_eval_expr(declaration.name, spec_env_after(line, env)) == Ok::<
                (Seq<char>, NumberView),
                FailureView,
            >((Seq::empty(), declaration.value))
        }),
{
    let declaration = spec_take_decl(line, env)->Ok_0;
    let name = declaration.name;
    let after_let = spec_take_str(line, "let"@)->Ok_0.0;
    let at_name = spec_take_whitespaces1(after_let)->Ok_0.0;
    // The name begins where the whitespace after `let` ends.
    lemma_run_len_properties(after_let, whitespace());
    // It is an alphabetic character and the alphanumeric ones after it.
    let others = at_name.skip(1);
    lemma_run_len_properties(others, alphanumeric());
    assert forall|i: int| 1 <= i < name.len() implies char_alphanumeric(#[trigger] name[i]) by {
        assert(name[i] == others[i - 1]);
    }
    lemma_identifier_alone(name);
}

/// After a declaration, the name that it declares, given as a line of its
/// own, has the value of the expression that stands in the declaration, and
/// the line changes nothing. This is said of the names that do not begin
/// with `let`: a line that begins with `let` is first read as a declaration.
pub proof fn lemma_declared_name_as_a_line(line: Seq<char>, env: Map<Seq<char>, NumberView>)
    requires
        spec_take_decl(line, env) is Ok,
        !"let"@.is_prefix_of(spec_take_decl(line, env)->Ok_0.name),
    ensures
        ({
            let declaration = spec_take_decl(line, env)->Ok_0;
            let bound = spec_env_after(line, env);
            &&& spec_eval_line(declaration.name, bound) == Ok::<
                (Seq<char>, NumberView),
                FailureView,
            >((Seq::empty(), declaration.value))
            &&& spec_env_after(declaration.name, bound) == bound
        }),
{
    lemma_declared_name_has_the_value(line, env);
}

} // verus!
