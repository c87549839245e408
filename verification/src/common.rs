//! Parsing primitives. Each takes the input that is left and gives back
//! either what is left after it with the value it read, or a failure that
//! carries the input at which it failed.
use crate::chars::{
    alphabetic, alphanumeric, char_alphabetic, lemma_run_len, lemma_run_len_properties,
    run_len, whitespace,
};
use crate::error::{failure, failure_because, Parsed, ParserError, ParserErrorView};
use crate::math::{Atom, AtomView};
use vstd::prelude::*;

verus! {

/// What a primitive's result stands for.
pub open spec fn outcome<T: View>(r: Result<(String, T), ParserError>) -> Parsed<T::V> {
    match r {
        Ok((rest, value)) => Ok((rest@, value@)),
        Err(e) => Err(e@),
    }
}

/// Reads one character of `class`, or fails where it stands.
pub open spec fn spec_take_class(s: Seq<char>, class: spec_fn(char) -> bool) -> Parsed<char> {
    if s.len() > 0 && class(s[0]) {
        Ok((s.skip(1), s[0]))
    } else {
        Err(failure(s))
    }
}

/// The diagnostic of a primitive that wanted the character `c`.
pub open spec fn expected_char(c: char) -> Seq<char> {
    "Expected "@.push(c)
}

/// The diagnostic of a primitive that wanted any character but `c`.
pub open spec fn unexpected_char(c: char) -> Seq<char> {
    "Expected anything but "@.push(c)
}

/// The diagnostic of a primitive that wanted the text `text`.
pub open spec fn expected_text(text: Seq<char>) -> Seq<char> {
    "Expected "@ + text
}

/// Reads the character `c`.
pub open spec fn spec_take_char(s: Seq<char>, c: char) -> Parsed<char> {
    if s.len() > 0 && s[0] == c {
        Ok((s.skip(1), c))
    } else {
        Err(failure_because(s, expected_char(c)))
    }
}

/// Reads one character that is not `c`.
pub open spec fn spec_take_not_char(s: Seq<char>, c: char) -> Parsed<char> {
    if s.len() > 0 && s[0] != c {
        Ok((s.skip(1), s[0]))
    } else {
        Err(failure_because(s, unexpected_char(c)))
    }
}

/// Reads the character `c`; the diagnostic is given only at the end of input.
pub open spec fn spec_check_char(s: Seq<char>, c: char) -> Parsed<char> {
    if s.len() == 0 {
        Err(failure_because(s, expected_char(c)))
    } else if s[0] == c {
        Ok((s.skip(1), c))
    } else {
        Err(failure(s))
    }
}

/// Reads the text `text`.
pub open spec fn spec_take_str(s: Seq<char>, text: Seq<char>) -> Parsed<Seq<char>> {
    if text.is_prefix_of(s) {
        Ok((s.skip(text.len() as int), text))
    } else {
        Err(failure_because(s, expected_text(text)))
    }
}

/// The input after its leading whitespace.
pub open spec fn skip_whitespace(s: Seq<char>) -> Seq<char> {
    s.skip(run_len(s, whitespace()) as int)
}

/// Reads a run of whitespace, which may be empty.
pub open spec fn spec_take_whitespaces0(s: Seq<char>) -> Parsed<()> {
    Ok((skip_whitespace(s), ()))
}

/// Reads a run of whitespace of at least one character.
pub open spec fn spec_take_whitespaces1(s: Seq<char>) -> Parsed<()> {
    if run_len(s, whitespace()) > 0 {
        Ok((skip_whitespace(s), ()))
    } else {
        Err(failure(s))
    }
}

/// The first character of `s` and what follows it.
fn split_first(s: &String) -> (r: Option<(char, String)>)
    ensures
        match r {
            Some((c, rest)) => s@.len() > 0 && c == s@[0] && rest@ == s@.skip(1),
            None => s@.len() == 0,
        },
{
    let text = s.as_str();
    let n = text.unicode_len();
    if n == 0 {
        None
    } else {
        Some((text.get_char(0), String::from_str(text.substring_char(1, n))))
    }
}

/// The first character of the input, if there is one.
pub fn first_char(s: &String) -> (first: Option<char>)
    ensures
        match first {
            Some(c) => s@.len() > 0 && c == s@[0],
            None => s@.len() == 0,
        },
{
    let text = s.as_str();
    if text.unicode_len() == 0 {
        None
    } else {
        Some(text.get_char(0))
    }
}

/// Reads the first character of the input if there is one and `wanted` says
/// that it is the one to read, and fails where it stands if not.
pub fn take_first(s: String, wanted: bool) -> (r: Result<(String, char), ParserError>)
    ensures
        outcome(r) == (if s@.len() > 0 && wanted {
            Ok::<(Seq<char>, char), ParserErrorView>((s@.skip(1), s@[0]))
        } else {
            Err::<(Seq<char>, char), ParserErrorView>(failure(s@))
        }),
{
    if !wanted {
        return Err(ParserError::new(s));
    }
    match split_first(&s) {
        Some((c, rest)) => Ok((rest, c)),
        None => Err(ParserError::new(s)),
    }
}

/// The input without its first `n` characters.
pub(crate) fn skip_chars(s: &String, n: usize) -> (rest: String)
    requires
        n <= s@.len(),
    ensures
        rest@ == s@.skip(n as int),
{
    let text = s.as_str();
    let len = text.unicode_len();
    String::from_str(text.substring_char(n, len))
}

/// The diagnostic of a primitive that wanted the character `c`.
fn expected_char_reason(c: char) -> (reason: String)
    ensures
        reason@ == expected_char(c),
{
    let mut reason = String::from_str("Expected ");
    reason.push(c);
    reason
}

/// Reads one alphanumeric character.
pub fn take_alphanumeric(s: String) -> (r: Result<(String, char), ParserError>)
    ensures
        outcome(r) == spec_take_class(s@, alphanumeric()),
{
    let wanted = match first_char(&s) {
        Some(c) => c.is_alphanumeric(),
        None => false,
    };
    take_first(s, wanted)
}

/// Reads one alphabetic character.
pub fn take_alpha(s: String) -> (r: Result<(String, char), ParserError>)
    ensures
        outcome(r) == spec_take_class(s@, alphabetic()),
{
    let wanted = match first_char(&s) {
        Some(c) => c.is_alphabetic(),
        None => false,
    };
    take_first(s, wanted)
}

/// Reads one whitespace character.
pub fn take_ws(s: String) -> (r: Result<(String, char), ParserError>)
    ensures
        outcome(r) == spec_take_class(s@, whitespace()),
{
    let wanted = match first_char(&s) {
        Some(c) => c.is_whitespace(),
        None => false,
    };
    take_first(s, wanted)
}

/// Reads the character `c`.
pub fn take_char(s: String, c: char) -> (r: Result<(String, char), ParserError>)
    ensures
        outcome(r) == spec_take_char(s@, c),
{
    match split_first(&s) {
        Some((first, rest)) => if first == c {
            Ok((rest, first))
        } else {
            Err(ParserError::newr(s, expected_char_reason(c)))
        },
        None => Err(ParserError::newr(s, expected_char_reason(c))),
    }
}

/// Reads one character that is not `c`.
pub fn take_not_char(s: String, c: char) -> (r: Result<(String, char), ParserError>)
    ensures
        outcome(r) == spec_take_not_char(s@, c),
{
    match split_first(&s) {
        Some((first, rest)) => if first != c {
            return Ok((rest, first));
        },
        None => {},
    }
    let mut reason = String::from_str("Expected anything but ");
    reason.push(c);
    Err(ParserError::newr(s, reason))
}

/// Reads the character `c`. Where another character stands, the failure has
/// no diagnostic.
pub fn check_char(s: String, c: char) -> (r: Result<(String, char), ParserError>)
    ensures
        outcome(r) == spec_check_char(s@, c),
{
    match split_first(&s) {
        Some((first, rest)) => if first == c {
            Ok((rest, first))
        } else {
            Err(ParserError::new(s))
        },
        None => Err(ParserError::newr(s, expected_char_reason(c))),
    }
}

/// Reads the text `s_to_match`. The input is left as it was where it does not
/// begin with that text.
pub fn take_str<'a>(s: String, s_to_match: &'a str) -> (r: Result<(String, String), ParserError>)
    ensures
        outcome(r) == spec_take_str(s@, s_to_match@),
{
    let wanted = s_to_match.unicode_len();
    let given = s.as_str().unicode_len();
    let mut i: usize = 0;
    let mut matches = wanted <= given;
    while matches && i < wanted
        invariant
            wanted == s_to_match@.len(),
            given == s@.len(),
            i <= wanted,
            matches ==> wanted <= given,
            matches ==> forall|j: int| 0 <= j < i ==> s@[j] == s_to_match@[j],
            !matches ==> !s_to_match@.is_prefix_of(s@),
        decreases wanted - i, matches as int,
    {
        if s.as_str().get_char(i) == s_to_match.get_char(i) {
            i += 1;
        } else {
            matches = false;
        }
    }
    if matches {
        Ok((skip_chars(&s, wanted), String::from_str(s_to_match)))
    } else {
        Err(ParserError::newr(s, String::from_str("Expected ").concat(s_to_match)))
    }
}

/// The sub-parser can read the one-character input `c` and give `value`.
pub open spec fn accepts<V, X, T: Fn(String) -> Result<(X, V), ParserError>>(
    parser: T,
    c: char,
    value: V,
) -> bool {
    exists|input: String, x: X|
        input@ == seq![c] && #[trigger] parser.ensures(
            (input,),
            Ok::<(X, V), ParserError>((x, value)),
        )
}

/// The sub-parser can fail on the one-character input `c`.
pub open spec fn rejects<V, X, T: Fn(String) -> Result<(X, V), ParserError>>(
    parser: T,
    c: char,
) -> bool {
    exists|input: String, e: ParserError|
        input@ == seq![c] && #[trigger] parser.ensures((input,), Err::<(X, V), ParserError>(e))
}

/// What `take_while1` and `take_while0` did with the input: they handed its
/// characters one by one to the sub-parser, kept the value of each that it
/// read, and stopped before the first that it failed on, or at the end.
pub open spec fn took_while<V, X, T: Fn(String) -> Result<(X, V), ParserError>>(
    s: Seq<char>,
    parser: T,
    rest: Seq<char>,
    values: Seq<V>,
) -> bool {
    &&& values.len() <= s.len()
    &&& rest == s.skip(values.len() as int)
    &&& forall|i: int| 0 <= i < values.len() ==> accepts(parser, s[i], #[trigger] values[i])
    &&& values.len() < s.len() ==> rejects(parser, s[values.len() as int])
}

/// Applies the sub-parser to the characters of the input one by one for as
/// long as it succeeds, and fails if it succeeds on none.
pub fn take_while1<V, X, T: Fn(String) -> Result<(X, V), ParserError>>(
    s: String,
    predicate: T,
) -> (r: Result<(String, Vec<V>), ParserError>)
    requires
        forall|input: String| input@.len() == 1 ==> #[trigger] predicate.requires((input,)),
    ensures
        match r {
            Ok((rest, values)) => values@.len() > 0 && took_while(s@, predicate, rest@, values@),
            Err(e) => e@ == failure(s@) && took_while(s@, predicate, s@, Seq::<V>::empty()),
        },
{
    let n = s.as_str().unicode_len();
    let mut results: Vec<V> = Vec::new();
    let mut i: usize = 0;
    let mut stopped = false;
    while !stopped && i < n
        invariant
            n == s@.len(),
            i <= n,
            i == results@.len(),
            forall|input: String| input@.len() == 1 ==> #[trigger] predicate.requires((input,)),
            forall|j: int| 0 <= j < i ==> accepts(predicate, s@[j], #[trigger] results@[j]),
            stopped ==> i < n && rejects(predicate, s@[i as int]),
        decreases n - i, !stopped as int,
    {
        let one = String::from_str(s.as_str().substring_char(i, i + 1));
        assert(one@ =~= seq![s@[i as int]]);
        match predicate(one) {
            Ok((_, value)) => {
                results.push(value);
                i += 1;
            },
            Err(_) => {
                stopped = true;
            },
        }
    }
    if results.len() == 0 {
        assert(s@.skip(0) =~= s@);
        Err(ParserError::new(s))
    } else {
        Ok((skip_chars(&s, i), results))
    }
}

/// Applies the sub-parser to the characters of the input one by one for as
/// long as it succeeds. It never fails: it may read nothing.
pub fn take_while0<V, X, T: Fn(String) -> Result<(X, V), ParserError>>(
    s: String,
    predicate: T,
) -> (r: Result<(String, Vec<V>), ParserError>)
    requires
        forall|input: String| input@.len() == 1 ==> #[trigger] predicate.requires((input,)),
    ensures
        r matches Ok((rest, values)) && took_while(s@, predicate, rest@, values@),
{
    match take_while1(s.clone(), predicate) {
        Ok(found) => Ok(found),
        Err(_) => Ok((s, Vec::new())),
    }
}

/// What a sub-parser that reads one character of `class` makes of a run.
pub proof fn lemma_took_while_class<T: Fn(String) -> Result<(String, char), ParserError>>(
    s: Seq<char>,
    parser: T,
    class: spec_fn(char) -> bool,
    rest: Seq<char>,
    values: Seq<char>,
)
    requires
        took_while(s, parser, rest, values),
        forall|input: String, r: Result<(String, char), ParserError>| #[trigger]
            parser.ensures((input,), r) ==> outcome(r) == spec_take_class(input@, class),
    ensures
        values.len() == run_len(s, class),
        values == s.take(values.len() as int),
        rest == s.skip(run_len(s, class) as int),
{
    let n = values.len();
    assert forall|i: int| 0 <= i < n implies class(#[trigger] s[i]) && values[i] == s[i] by {
        let (input, x) = choose|input: String, x: String|
            input@ == seq![s[i]] && #[trigger] parser.ensures(
                (input,),
                Ok::<(String, char), ParserError>((x, values[i])),
            );
    }
    if n < s.len() {
        let (input, e) = choose|input: String, e: ParserError|
            input@ == seq![s[n as int]] && #[trigger] parser.ensures(
                (input,),
                Err::<(String, char), ParserError>(e),
            );
    }
    lemma_run_len(s, class, n);
}

/// Reads a run of whitespace of at least one character.
pub fn take_whitespaces1(s: String) -> (r: Result<(String, ()), ParserError>)
    ensures
        outcome(r) == spec_take_whitespaces1(s@),
{
    match take_while1(s, take_ws) {
        Ok((remaining, found)) => {
            proof {
                lemma_took_while_class(s@, take_ws, whitespace(), remaining@, found@);
            }
            Ok((remaining, ()))
        },
        Err(e) => {
            proof {
                lemma_took_while_class(s@, take_ws, whitespace(), s@, Seq::<char>::empty());
            }
            Err(e)
        },
    }
}

/// Reads a run of whitespace, which may be empty.
pub fn take_whitespaces0(s: String) -> (r: Result<(String, ()), ParserError>)
    ensures
        outcome(r) == spec_take_whitespaces0(s@),
{
    match take_while0(s, take_ws) {
        Ok((remaining, found)) => {
            proof {
                lemma_took_while_class(s@, take_ws, whitespace(), remaining@, found@);
            }
            Ok((remaining, ()))
        },
        Err(e) => Err(e),
    }
}

/// Reads an identifier: an alphabetic character, the alphanumeric characters
/// that follow it, and the whitespace after them, which is dropped.
pub open spec fn spec_take_identifier(s: Seq<char>) -> Parsed<Seq<char>> {
    if s.len() > 0 && char_alphabetic(s[0]) {
        let n = 1 + run_len(s.skip(1), alphanumeric());
        Ok((skip_whitespace(s.skip(n as int)), s.take(n as int)))
    } else {
        Err(failure(s))
    }
}

/// Reads an identifier as a variable token.
pub open spec fn spec_take_identifiers(s: Seq<char>) -> Parsed<AtomView> {
    match spec_take_identifier(s) {
        Ok((rest, name)) => Ok((rest, AtomView::Var(name))),
        Err(e) => Err(e),
    }
}

/// The text made of `first` and then `others`.
fn text_of(first: char, others: &Vec<char>) -> (text: String)
    ensures
        text@ == seq![first] + others@,
{
    let mut text = String::new();
    text.push(first);
    let mut i: usize = 0;
    while i < others.len()
        invariant
            i <= others.len(),
            text@ == seq![first] + others@.take(i as int),
        decreases others.len() - i,
    {
        text.push(others[i]);
        i += 1;
    }
    text
}

/// Reads an identifier and gives its name.
pub fn take_identifier(s: String) -> (r: Result<(String, String), ParserError>)
    ensures
        outcome(r) == spec_take_identifier(s@),
{
    let (remaining, first) = match take_alpha(s) {
        Ok(found) => found,
        Err(e) => {
            return Err(e);
        },
    };
    match take_while0(remaining, take_alphanumeric) {
        Ok((after, others)) => {
            proof {
                lemma_took_while_class(
                    s@.skip(1),
                    take_alphanumeric,
                    alphanumeric(),
                    after@,
                    others@,
                );
                let n = 1 + run_len(s@.skip(1), alphanumeric());
                assert(seq![first] + others@ =~= s@.take(n as int));
                assert(after@ =~= s@.skip(n as int));
            }
            let identifier = text_of(first, &others);
            match take_whitespaces0(after) {
                Ok((rest, _)) => Ok((rest, identifier)),
                Err(e) => Err(e),
            }
        },
        Err(e) => Err(e),
    }
}

/// Reads an identifier as a variable token.
pub fn take_identifiers(s: String) -> (r: Result<(String, Atom), ParserError>)
    ensures
        outcome(r) == spec_take_identifiers(s@),
{
    match take_identifier(s) {
        Ok((remaining, name)) => Ok((remaining, Atom::Var(name))),
        Err(e) => Err(e),
    }
}

/// Dropping leading whitespace leaves no more than there was.
pub proof fn lemma_skip_whitespace_shortens(s: Seq<char>)
    ensures
        skip_whitespace(s).len() <= s.len(),
{
    lemma_run_len_properties(s, whitespace());
}

/// An identifier consumes input.
pub proof fn lemma_identifier_consumes(s: Seq<char>)
    ensures
        spec_take_identifier(s) matches Ok((rest, name)) ==> rest.len() < s.len(),
{
    if spec_take_identifier(s) is Ok {
        lemma_run_len_properties(s.skip(1), alphanumeric());
        let n = 1 + run_len(s.skip(1), alphanumeric());
        lemma_skip_whitespace_shortens(s.skip(n as int));
    }
}

/// What `repeat0` did: the sub-parser read each of `inputs` but the last,
/// which gave the next of them and one of `values`, and failed on the last.
pub open spec fn repeated<V, T: FnMut(String) -> Result<(String, V), ParserError>>(
    parser: T,
    inputs: Seq<String>,
    values: Seq<V>,
) -> bool {
    &&& inputs.len() == values.len() + 1
    &&& forall|i: int|
        0 <= i < values.len() ==> parser.ensures(
            (#[trigger] inputs[i],),
            Ok::<(String, V), ParserError>((inputs[i + 1], values[i])),
        )
    &&& exists|e: ParserError| #[trigger]
        parser.ensures((inputs.last(),), Err::<(String, V), ParserError>(e))
}

/// What `repeat0` made of the input `s`: a chain of inputs from `s` to
/// `remaining` that the sub-parser read one after the other.
pub open spec fn reading<V, T: FnMut(String) -> Result<(String, V), ParserError>>(
    s: String,
    parser: T,
    remaining: String,
    values: Seq<V>,
) -> bool {
    exists|inputs: Seq<String>|
        inputs.len() > 0 && inputs[0] == s && inputs.last() == remaining && #[trigger] repeated(
            parser,
            inputs,
            values,
        )
}

/// Applies the sub-parser again and again, each time to what the last time
/// left, until it fails. It gives the values in the order read and the input
/// at which the sub-parser failed. The sub-parser has to consume input each
/// time it succeeds.
pub fn repeat0<V, T: FnMut(String) -> Result<(String, V), ParserError>>(
    s: String,
    predicate: T,
) -> (r: Result<(String, Vec<V>), ParserError>)
    requires
        forall|input: String| #[trigger] predicate.requires((input,)),
        forall|input: String, rest: String, value: V| #[trigger]
            predicate.ensures((input,), Ok::<(String, V), ParserError>((rest, value)))
                ==> rest@.len() < input@.len(),
    ensures
        r matches Ok((remaining, results)) && reading(s, predicate, remaining, results@),
{
    let mut parser = predicate;
    let mut remaining = s;
    let mut results: Vec<V> = Vec::new();
    let ghost mut inputs: Seq<String> = seq![s];
    let mut failed = false;
    while !failed
        invariant
            parser == predicate,
            forall|input: String| #[trigger] predicate.requires((input,)),
            forall|input: String, rest: String, value: V| #[trigger]
                predicate.ensures((input,), Ok::<(String, V), ParserError>((rest, value)))
                    ==> rest@.len() < input@.len(),
            inputs.len() == results@.len() + 1,
            inputs[0] == s,
            inputs.last() == remaining,
            forall|i: int|
                0 <= i < results@.len() ==> predicate.ensures(
                    (#[trigger] inputs[i],),
                    Ok::<(String, V), ParserError>((inputs[i + 1], results@[i])),
                ),
            failed ==> exists|e: ParserError| #[trigger]
                predicate.ensures((inputs.last(),), Err::<(String, V), ParserError>(e)),
        decreases remaining@.len(), !failed as int,
    {
        match parser(remaining.clone()) {
            Ok((rem, value)) => {
                proof {
                    inputs = inputs.push(rem);
                }
                remaining = rem;
                results.push(value);
            },
            Err(_) => {
                failed = true;
            },
        }
    }
    assert(repeated(predicate, inputs, results@));
    Ok((remaining, results))
}

/// As `repeat0`, with a state that the sub-parser may read and change each
/// time it is applied, the time it fails too.
///
/// There is a chain of inputs from `s` to what is left, and a chain of states
/// from the one that was handed in to the one that is handed back. The
/// sub-parser read each input but the last, which gave the next input and one
/// of the values and took the state one step along its chain, and failed on
/// the last, which took the state its last step. The sub-parser has to
/// consume input each time it succeeds. (`trigger(i)` is always true: it
/// marks the step `i` for the prover.)
pub fn repeat0_with_state<K, V, T: Fn(String, &mut K) -> Result<(String, V), ParserError>>(
    s: String,
    predicate: T,
    state: &mut K,
) -> (r: Result<(String, Vec<V>), String>)
    requires
        forall|input: String, k: &mut K| #[trigger] predicate.requires((input, k)),
        forall|input: String, k: &mut K, rest: String, value: V| #[trigger]
            predicate.ensures((input, k), Ok::<(String, V), ParserError>((rest, value)))
                ==> rest@.len() < input@.len(),
    ensures
        r is Ok,
        exists|inputs: Seq<String>, states: Seq<K>|
            {
                &&& #[trigger] inputs.len() == r->Ok_0.1@.len() + 1
                &&& #[trigger] states.len() == r->Ok_0.1@.len() + 2
                &&& inputs[0] == s
                &&& inputs.last() == r->Ok_0.0
                &&& states[0] == *old(state)
                &&& states.last() == *final(state)
                &&& forall|i: int|
                    0 <= i < r->Ok_0.1@.len() ==> #[trigger] vstd::pervasive::trigger(i)
                        && exists|k: &mut K|
                        *k == states[i] && *final(k) == states[i + 1] && #[trigger] predicate.ensures(
                            (inputs[i], k),
                            Ok::<(String, V), ParserError>((inputs[i + 1], r->Ok_0.1@[i])),
                        )
                &&& exists|k: &mut K, e: ParserError|
                    *k == states[states.len() - 2] && *final(k) == states.last()
                        && #[trigger] predicate.ensures(
                        (inputs.last(), k),
                        Err::<(String, V), ParserError>(e),
                    )
            },
{
    let mut remaining = s;
    let mut results: Vec<V> = Vec::new();
    let ghost mut inputs: Seq<String> = seq![s];
    let ghost mut states: Seq<K> = seq![*state];
    loop
        invariant
            forall|input: String, k: &mut K| #[trigger] predicate.requires((input, k)),
            forall|input: String, k: &mut K, rest: String, value: V| #[trigger]
                predicate.ensures((input, k), Ok::<(String, V), ParserError>((rest, value)))
                    ==> rest@.len() < input@.len(),
            inputs.len() == results@.len() + 1,
            states.len() == results@.len() + 1,
            inputs[0] == s,
            inputs.last() == remaining,
            states[0] == *old(state),
            states.last() == *state,
            forall|i: int|
                0 <= i < results@.len() ==> #[trigger] vstd::pervasive::trigger(i) && exists|
                    k: &mut K,
                |
                    *k == states[i] && *final(k) == states[i + 1] && #[trigger] predicate.ensures(
                        (inputs[i], k),
                        Ok::<(String, V), ParserError>((inputs[i + 1], results@[i])),
                    ),
        decreases remaining@.len(),
    {
        let ghost before = *state;
        let ghost n = results@.len() as int;
        let ghost old_inputs = inputs;
        let ghost old_states = states;
        let ghost old_results = results@;
        let input = remaining.clone();
        let outcome = predicate(input, state);
        assert(exists|k: &mut K|
            *k == before && *final(k) == *state && #[trigger] predicate.ensures(
                (input, k),
                outcome,
            ));
        proof {
            states = states.push(*state);
        }
        match outcome {
            Ok((rem, value)) => {
                proof {
                    inputs = inputs.push(rem);
                }
                remaining = rem;
                results.push(value);
                assert forall|i: int| 0 <= i < results@.len() implies #[trigger] vstd::pervasive::trigger(
                    i,
                ) && exists|k: &mut K|
                    *k == states[i] && *final(k) == states[i + 1] && #[trigger] predicate.ensures(
                        (inputs[i], k),
                        Ok::<(String, V), ParserError>((inputs[i + 1], results@[i])),
                    ) by {
                    if i < n {
                        assert(old_states[i] == states[i]);
                        assert(old_inputs[i] == inputs[i]);
                        assert(old_inputs[i + 1] == inputs[i + 1]);
                        assert(old_results[i] == results@[i]);
                    } else {
                        assert(states[i] == before);
                        assert(inputs[i + 1] == rem);
                    }
                }
            },
            Err(_) => {
                assert(states[states.len() - 2] == before);
                return Ok((remaining, results));
            },
        }
    }
}

} // verus!
