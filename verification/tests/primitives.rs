use calculator::common::{
    check_char, first_char, repeat0, repeat0_with_state, take_alpha, take_alphanumeric,
    take_char, take_first, take_identifier, take_identifiers, take_not_char, take_str,
    take_while0, take_while1, take_whitespaces0, take_whitespaces1, take_ws,
};
use calculator::error::ParserError;
use calculator::math::{take_digit, Atom};

fn text(s: &str) -> String {
    s.to_string()
}

#[test]
fn parser_error_keeps_what_it_is_given() {
    let plain = ParserError::new(text("rest"));
    assert_eq!(plain.remaining(), "rest");
    assert_eq!(plain.reason(), None);
    let with_reason = ParserError::newr(text("rest"), text("why"));
    assert_eq!(with_reason.remaining(), "rest");
    assert_eq!(with_reason.reason(), Some(text("why")));
    assert_ne!(plain, with_reason);
    assert_eq!(with_reason.clone(), with_reason);
}

#[test]
fn take_char_reads_the_character() {
    assert_eq!(take_char(text("abc"), 'a'), Ok((text("bc"), 'a')));
    assert_eq!(take_char(text("é"), 'é'), Ok((text(""), 'é')));
}

#[test]
fn take_char_fails_where_it_stands() {
    assert_eq!(
        take_char(text("abc"), 'b'),
        Err(ParserError::newr(text("abc"), text("Expected b")))
    );
    assert_eq!(take_char(text(""), ')'), Err(ParserError::newr(text(""), text("Expected )"))));
}

#[test]
fn take_not_char_reads_any_other_character() {
    assert_eq!(take_not_char(text("abc"), 'b'), Ok((text("bc"), 'a')));
    assert_eq!(
        take_not_char(text("abc"), 'a'),
        Err(ParserError::newr(text("abc"), text("Expected anything but a")))
    );
    assert_eq!(
        take_not_char(text(""), 'a'),
        Err(ParserError::newr(text(""), text("Expected anything but a")))
    );
    assert_eq!(
        take_not_char(text("éa"), 'é'),
        Err(ParserError::newr(text("éa"), text("Expected anything but é")))
    );
}

#[test]
fn check_char_gives_its_reason_only_at_the_end() {
    assert_eq!(check_char(text("abc"), 'a'), Ok((text("bc"), 'a')));
    assert_eq!(check_char(text("abc"), 'b'), Err(ParserError::new(text("abc"))));
    assert_eq!(check_char(text(""), 'b'), Err(ParserError::newr(text(""), text("Expected b"))));
}

#[test]
fn take_str_reads_the_text() {
    assert_eq!(take_str(text("let x"), "let"), Ok((text(" x"), text("let"))));
    assert_eq!(take_str(text("let"), "let"), Ok((text(""), text("let"))));
    assert_eq!(take_str(text("abc"), ""), Ok((text("abc"), text(""))));
}

#[test]
fn take_str_fails_on_a_mismatch_or_a_short_input() {
    assert_eq!(
        take_str(text("lex x"), "let"),
        Err(ParserError::newr(text("lex x"), text("Expected let")))
    );
    assert_eq!(
        take_str(text("le"), "let"),
        Err(ParserError::newr(text("le"), text("Expected let")))
    );
    assert_eq!(take_str(text(""), "+"), Err(ParserError::newr(text(""), text("Expected +"))));
}

#[test]
fn the_first_character() {
    assert_eq!(first_char(&text("éa")), Some('é'));
    assert_eq!(first_char(&text("")), None);
    assert_eq!(take_first(text("éa"), true), Ok((text("a"), 'é')));
    assert_eq!(take_first(text("éa"), false), Err(ParserError::new(text("éa"))));
    assert_eq!(take_first(text(""), true), Err(ParserError::new(text(""))));
}

#[test]
fn character_classes() {
    assert_eq!(take_alpha(text("a1")), Ok((text("1"), 'a')));
    assert_eq!(take_alpha(text("京")), Ok((text(""), '京')));
    assert_eq!(take_alpha(text("1a")), Err(ParserError::new(text("1a"))));
    assert_eq!(take_alpha(text("")), Err(ParserError::new(text(""))));
    assert_eq!(take_alphanumeric(text("1a")), Ok((text("a"), '1')));
    assert_eq!(take_alphanumeric(text("a")), Ok((text(""), 'a')));
    assert_eq!(take_alphanumeric(text("+a")), Err(ParserError::new(text("+a"))));
    assert_eq!(take_ws(text(" a")), Ok((text("a"), ' ')));
    assert_eq!(take_ws(text("\u{a0}a")), Ok((text("a"), '\u{a0}')));
    assert_eq!(take_ws(text("a ")), Err(ParserError::new(text("a "))));
    assert_eq!(take_digit(text("7x")), Ok((text("x"), '7')));
    assert_eq!(take_digit(text("x7")), Err(ParserError::new(text("x7"))));
    // Only the ten decimal digits count.
    assert_eq!(take_digit(text("٣")), Err(ParserError::new(text("٣"))));
}

#[test]
fn take_while1_collects_what_the_parser_reads() {
    assert_eq!(
        take_while1(text("123abc"), take_digit),
        Ok((text("abc"), vec!['1', '2', '3']))
    );
    assert_eq!(take_while1(text("123"), take_digit), Ok((text(""), vec!['1', '2', '3'])));
    let upper = |one: String| take_alpha(one).map(|(rest, c)| (rest, c.to_ascii_uppercase()));
    assert_eq!(take_while1(text("ab1"), upper), Ok((text("1"), vec!['A', 'B'])));
}

#[test]
fn take_while1_fails_without_a_match() {
    assert_eq!(take_while1(text("abc"), take_digit), Err(ParserError::new(text("abc"))));
    assert_eq!(take_while1(text(""), take_digit), Err(ParserError::new(text(""))));
}

#[test]
fn take_while0_never_fails() {
    assert_eq!(take_while0(text("abc"), take_digit), Ok((text("abc"), vec![])));
    assert_eq!(take_while0(text(""), take_digit), Ok((text(""), vec![])));
    assert_eq!(take_while0(text("12a"), take_digit), Ok((text("a"), vec!['1', '2'])));
}

#[test]
fn whitespace_runs() {
    assert_eq!(take_whitespaces0(text("  \t\n x ")), Ok((text("x "), ())));
    assert_eq!(take_whitespaces0(text("x ")), Ok((text("x "), ())));
    assert_eq!(take_whitespaces0(text("")), Ok((text(""), ())));
    assert_eq!(take_whitespaces1(text(" x")), Ok((text("x"), ())));
    assert_eq!(take_whitespaces1(text("x")), Err(ParserError::new(text("x"))));
    assert_eq!(take_whitespaces1(text("")), Err(ParserError::new(text(""))));
}

#[test]
fn identifiers() {
    assert_eq!(take_identifier(text("abc12 + 1")), Ok((text("+ 1"), text("abc12"))));
    assert_eq!(take_identifier(text("x")), Ok((text(""), text("x"))));
    assert_eq!(take_identifier(text("été2(")), Ok((text("("), text("été2"))));
    assert_eq!(take_identifier(text("1abc")), Err(ParserError::new(text("1abc"))));
    assert_eq!(take_identifier(text(" abc")), Err(ParserError::new(text(" abc"))));
    assert_eq!(take_identifier(text("")), Err(ParserError::new(text(""))));
    assert_eq!(
        take_identifiers(text("abc  ")),
        Ok((text(""), Atom::Var(text("abc"))))
    );
    assert_eq!(take_identifiers(text("+")), Err(ParserError::new(text("+"))));
}

#[test]
fn repeat0_stops_at_the_first_failure() {
    assert_eq!(repeat0(text("ab1c"), take_alpha), Ok((text("1c"), vec!['a', 'b'])));
    assert_eq!(repeat0(text("1c"), take_alpha), Ok((text("1c"), vec![])));
    assert_eq!(repeat0(text(""), take_alpha), Ok((text(""), vec![])));
    let mut seen = 0;
    let counting = |input: String| {
        seen += 1;
        take_str(input, "ab")
    };
    assert_eq!(
        repeat0(text("ababa"), counting),
        Ok((text("a"), vec![text("ab"), text("ab")]))
    );
    assert_eq!(seen, 3);
}

#[test]
fn repeat0_with_state_threads_the_state() {
    let digits_sum = |input: String, sum: &mut u32| {
        *sum += 1;
        take_digit(input).map(|(rest, c)| {
            *sum += 10 * c.to_digit(10).unwrap();
            (rest, c)
        })
    };
    let mut sum = 0;
    assert_eq!(
        repeat0_with_state(text("123x"), digits_sum, &mut sum),
        Ok((text("x"), vec!['1', '2', '3']))
    );
    // Four calls, the last of which failed, and the digits 1, 2 and 3.
    assert_eq!(sum, 4 + 60);
    let mut untouched = 7;
    let stateless = |input: String, _: &mut u32| take_digit(input);
    assert_eq!(repeat0_with_state(text(""), stateless, &mut untouched), Ok((text(""), vec![])));
    assert_eq!(untouched, 7);
}
