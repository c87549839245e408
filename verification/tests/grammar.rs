use calculator::env::Environment;
use calculator::error::{EvalError, ParserError};
use calculator::grammar::MAX_NESTING;
use calculator::math::{Atom, Float, Lexeme, Literal, Number, Operator, Type};
use calculator::{eval_postfix, into_postfix, take_atom, take_expr};

fn text(s: &str) -> String {
    s.to_string()
}

fn lit(v: i32) -> Atom {
    Atom::Lit(Literal::Num(Number::I32(v)))
}

fn var(name: &str) -> Atom {
    Atom::Var(text(name))
}

fn op(lexeme: Lexeme) -> Atom {
    Atom::Op(Operator::new(lexeme))
}

fn atom_expected(remaining: &str) -> ParserError {
    ParserError::newr(
        text(remaining),
        text("Expected either number or a parenthesized expression here"),
    )
}

#[test]
fn atoms() {
    let mut tokens = vec![];
    assert_eq!(take_atom(text("  12  + 3"), &mut tokens), Ok((text("+ 3"), ())));
    assert_eq!(take_atom(text("x1*2"), &mut tokens), Ok((text("*2"), ())));
    assert_eq!(take_atom(text("( 1 + y ) rest"), &mut tokens), Ok((text("rest"), ())));
    assert_eq!(take_atom(text("1.5"), &mut tokens), Ok((text(""), ())));
    assert_eq!(
        tokens,
        vec![
            lit(12),
            var("x1"),
            Atom::Parens(vec![lit(1), op(Lexeme::Add), var("y")]),
            Atom::Lit(Literal::Num(Number::F32(Float::decimal(text("1.5"))))),
        ]
    );
}

#[test]
fn a_failed_atom_appends_nothing() {
    let mut tokens = vec![lit(1)];
    assert_eq!(take_atom(text("  + 3"), &mut tokens), Err(atom_expected("+ 3")));
    assert_eq!(take_atom(text(""), &mut tokens), Err(atom_expected("")));
    assert_eq!(take_atom(text("(1 + 2"), &mut tokens), Err(atom_expected("")));
    assert_eq!(take_atom(text("(1 + 2 ] 3"), &mut tokens), Err(atom_expected("] 3")));
    assert_eq!(take_atom(text("( )"), &mut tokens), Err(atom_expected(")")));
    // The pair `+ (2 * )` is not read, so the parenthesis is missed before it.
    assert_eq!(take_atom(text("(1 + (2 * )"), &mut tokens), Err(atom_expected("+ (2 * )")));
    assert_eq!(take_atom(text("((2 * )"), &mut tokens), Err(atom_expected("* )")));
    assert_eq!(tokens, vec![lit(1)]);
}

#[test]
fn expressions() {
    assert_eq!(
        take_expr(text("1 + 2 * x")),
        Ok((text(""), vec![lit(1), op(Lexeme::Add), lit(2), op(Lexeme::Mul), var("x")]))
    );
    assert_eq!(
        take_expr(text(" (1+2)*3 ; rest")),
        Ok((
            text("; rest"),
            vec![
                Atom::Parens(vec![lit(1), op(Lexeme::Add), lit(2)]),
                op(Lexeme::Mul),
                lit(3)
            ]
        ))
    );
    assert_eq!(take_expr(text("7")), Ok((text(""), vec![lit(7)])));
    assert_eq!(take_expr(text("1 2")), Ok((text("2"), vec![lit(1)])));
}

#[test]
fn an_operator_without_an_operand_is_not_read() {
    assert_eq!(take_expr(text("1 + ")), Ok((text("+ "), vec![lit(1)])));
    assert_eq!(
        take_expr(text("1 + 2 * )")),
        Ok((text("* )"), vec![lit(1), op(Lexeme::Add), lit(2)]))
    );
}

#[test]
fn expressions_that_are_not() {
    assert_eq!(take_expr(text("")), Err(atom_expected("")));
    assert_eq!(take_expr(text("* 2")), Err(atom_expected("* 2")));
    assert_eq!(take_expr(text("(1 + 2")), Err(atom_expected("")));
}

#[test]
fn nesting_has_a_limit() {
    let deepest = "(".repeat(MAX_NESTING) + "1" + &")".repeat(MAX_NESTING);
    let mut variables = Environment::new();
    let (rest, tokens) = take_expr(deepest).unwrap();
    assert_eq!(rest, "");
    assert_eq!(
        eval_postfix(into_postfix(tokens).unwrap(), &mut variables),
        Ok(Number::I32(1))
    );
    let too_deep = "(".repeat(MAX_NESTING + 1) + "1" + &")".repeat(MAX_NESTING + 1);
    assert_eq!(
        take_expr(too_deep),
        Err(ParserError::newr(
            "(1".to_string() + &")".repeat(MAX_NESTING + 1),
            text("Expression nested too deeply")
        ))
    );
    let endless = "(".repeat(100_000);
    assert!(take_expr(endless).is_err());
}

#[test]
fn postfix_order() {
    // 1 + 2 * 3 - 4
    let infix = vec![
        lit(1),
        op(Lexeme::Add),
        lit(2),
        op(Lexeme::Mul),
        lit(3),
        op(Lexeme::Sub),
        lit(4),
    ];
    assert_eq!(
        into_postfix(infix),
        Ok(vec![
            lit(1),
            lit(2),
            lit(3),
            op(Lexeme::Mul),
            op(Lexeme::Add),
            lit(4),
            op(Lexeme::Sub),
        ])
    );
    assert_eq!(into_postfix(vec![var("x")]), Ok(vec![var("x")]));
}

#[test]
fn postfix_order_of_groups() {
    // (1 + 2) * (x - (3 / 4))
    let infix = vec![
        Atom::Parens(vec![lit(1), op(Lexeme::Add), lit(2)]),
        op(Lexeme::Mul),
        Atom::Parens(vec![
            var("x"),
            op(Lexeme::Sub),
            Atom::Parens(vec![lit(3), op(Lexeme::Div), lit(4)]),
        ]),
    ];
    assert_eq!(
        into_postfix(infix),
        Ok(vec![
            lit(1),
            lit(2),
            op(Lexeme::Add),
            var("x"),
            lit(3),
            lit(4),
            op(Lexeme::Div),
            op(Lexeme::Sub),
            op(Lexeme::Mul),
        ])
    );
}

#[test]
fn postfix_order_goes_by_the_precedence_given() {
    let weak = Atom::Op(Operator { lexeme: Lexeme::Mul, precedence: 1 });
    let strong = Atom::Op(Operator { lexeme: Lexeme::Add, precedence: 2 });
    assert_eq!(
        into_postfix(vec![lit(1), weak.clone(), lit(2), strong.clone(), lit(3)]),
        Ok(vec![lit(1), lit(2), lit(3), strong, weak])
    );
}

#[test]
fn tokens_that_are_no_expression() {
    let invalid = Err(EvalError::InvalidExpression);
    assert_eq!(into_postfix(vec![]), invalid);
    assert_eq!(into_postfix(vec![op(Lexeme::Add)]), invalid);
    assert_eq!(into_postfix(vec![lit(1), op(Lexeme::Add)]), invalid);
    assert_eq!(into_postfix(vec![lit(1), lit(2)]), invalid);
    assert_eq!(into_postfix(vec![op(Lexeme::Sub), lit(1)]), invalid);
    assert_eq!(into_postfix(vec![lit(1), op(Lexeme::Add), op(Lexeme::Add), lit(2)]), invalid);
    assert_eq!(into_postfix(vec![Atom::Parens(vec![])]), invalid);
    assert_eq!(
        into_postfix(vec![lit(1), op(Lexeme::Mul), Atom::Parens(vec![lit(2), op(Lexeme::Add)])]),
        invalid
    );
    assert_eq!(into_postfix(vec![lit(1), Atom::Parens(vec![lit(2)])]), invalid);
}

#[test]
fn postfix_evaluation() {
    let mut variables = Environment::new();
    variables.insert(text("x"), Number::U32(10));
    // x 3 - 2 *
    let postfix = vec![var("x"), lit(3), op(Lexeme::Sub), lit(2), op(Lexeme::Mul)];
    assert_eq!(eval_postfix(postfix, &mut variables), Ok(Number::U32(14)));
    assert_eq!(eval_postfix(vec![lit(5)], &mut variables), Ok(Number::I32(5)));
    assert_eq!(variables.len(), 1);
}

#[test]
fn the_lower_operand_is_the_left_one() {
    let mut variables = Environment::new();
    assert_eq!(
        eval_postfix(vec![lit(2), lit(7), op(Lexeme::Sub)], &mut variables),
        Ok(Number::I32(-5))
    );
}

#[test]
fn postfix_sequences_that_cannot_be_evaluated() {
    let mut variables = Environment::new();
    let invalid = Err(EvalError::InvalidExpression);
    assert_eq!(eval_postfix(vec![], &mut variables), invalid);
    assert_eq!(eval_postfix(vec![lit(1), lit(2)], &mut variables), invalid);
    assert_eq!(eval_postfix(vec![lit(1), op(Lexeme::Add)], &mut variables), invalid);
    assert_eq!(eval_postfix(vec![op(Lexeme::Add)], &mut variables), invalid);
    assert_eq!(eval_postfix(vec![Atom::Parens(vec![lit(1)])], &mut variables), invalid);
    assert_eq!(
        eval_postfix(vec![lit(1), var("nobody"), op(Lexeme::Add)], &mut variables),
        Err(EvalError::UndefinedVariable(text("nobody")))
    );
    assert_eq!(
        eval_postfix(
            vec![
                lit(1),
                Atom::Lit(Literal::Num(Number::F32(Float::decimal(text("1.0"))))),
                op(Lexeme::Add)
            ],
            &mut variables
        ),
        Err(EvalError::TypeMismatch { operator: Lexeme::Add, left: Type::I32, right: Type::F32 })
    );
    // The first failure is the one reported.
    assert_eq!(
        eval_postfix(vec![var("a"), op(Lexeme::Add), var("b")], &mut variables),
        Err(EvalError::UndefinedVariable(text("a")))
    );
}

#[test]
fn environment() {
    let mut variables = Environment::new();
    assert_eq!(variables.len(), 0);
    assert_eq!(variables.get("a"), None);
    variables.insert(text("a"), Number::I32(1));
    variables.insert(text("b"), Number::U32(2));
    variables.insert(text("a"), Number::I32(3));
    assert_eq!(variables.len(), 2);
    assert_eq!(variables.get("a"), Some(Number::I32(3)));
    assert_eq!(variables.get("b"), Some(Number::U32(2)));
    assert!(variables.contains("b"));
    assert!(!variables.contains("c"));
}
