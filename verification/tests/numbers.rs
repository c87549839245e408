use calculator::error::{EvalError, ParserError};
use calculator::math::{
    take_float, take_int, take_numbers, take_operator, type_check_op, Atom, Float, FloatStep,
    Lexeme, Literal, Number, Operator, Type,
};

fn text(s: &str) -> String {
    s.to_string()
}

fn lit(v: i32) -> Atom {
    Atom::Lit(Literal::Num(Number::I32(v)))
}

fn decimal(s: &str) -> Atom {
    Atom::Lit(Literal::Num(Number::F32(Float::decimal(text(s)))))
}

fn quotient(l: Float, r: Float) -> Number {
    Number::F32(Float::binary(Lexeme::Div, l, r))
}

#[test]
fn integer_literals() {
    assert_eq!(take_int(text("42")), Ok((text(""), lit(42))));
    assert_eq!(take_int(text("007 ")), Ok((text(" "), lit(7))));
    assert_eq!(take_int(text("0")), Ok((text(""), lit(0))));
    assert_eq!(take_int(text("12.5")), Ok((text(".5"), lit(12))));
    assert_eq!(take_int(text("2147483647")), Ok((text(""), lit(i32::MAX))));
}

#[test]
fn integer_literals_that_are_not() {
    let invalid = |s: &str| Err(ParserError::newr(text(s), text("Invalid int literal")));
    assert_eq!(take_int(text("")), invalid(""));
    assert_eq!(take_int(text("x1")), invalid("x1"));
    assert_eq!(take_int(text("-1")), invalid("-1"));
    assert_eq!(take_int(text("2147483648")), invalid("2147483648"));
    assert_eq!(take_int(text("99999999999999999999999")), invalid("99999999999999999999999"));
}

#[test]
fn floating_point_literals() {
    assert_eq!(take_float(text("12.5")), Ok((text(""), decimal("12.5"))));
    assert_eq!(take_float(text("0.25+1")), Ok((text("+1"), decimal("0.25"))));
    assert_eq!(take_float(text("1.2.3")), Ok((text(".3"), decimal("1.2"))));
    assert_eq!(
        take_float(text("99999999999.000000000001 ")),
        Ok((text(" "), decimal("99999999999.000000000001")))
    );
}

#[test]
fn floating_point_literals_that_are_not() {
    let invalid = |s: &str| Err(ParserError::newr(text(s), text("Invalid float literal")));
    assert_eq!(take_float(text("12")), invalid("12"));
    assert_eq!(take_float(text("12.")), invalid("12."));
    assert_eq!(take_float(text(".5")), invalid(".5"));
    assert_eq!(take_float(text("12.x")), invalid("12.x"));
    assert_eq!(take_float(text("")), invalid(""));
}

#[test]
fn numbers_are_floating_point_by_their_shape() {
    assert_eq!(take_numbers(text("12.5  + 1")), Ok((text("+ 1"), decimal("12.5"))));
    assert_eq!(take_numbers(text("12  + 1")), Ok((text("+ 1"), lit(12))));
    assert_eq!(take_numbers(text("12.")), Ok((text("."), lit(12))));
    assert_eq!(take_numbers(text("x")), Err(ParserError::new(text("x"))));
    assert_eq!(take_numbers(text("")), Err(ParserError::new(text(""))));
    assert_eq!(take_numbers(text("2147483648")), Err(ParserError::new(text("2147483648"))));
}

#[test]
fn operators_and_their_precedence() {
    let op = |lexeme, precedence| Atom::Op(Operator { lexeme, precedence });
    assert_eq!(take_operator(text("+ 1")), Ok((text(" 1"), op(Lexeme::Add, 5))));
    assert_eq!(take_operator(text("-1")), Ok((text("1"), op(Lexeme::Sub, 5))));
    assert_eq!(take_operator(text("*")), Ok((text(""), op(Lexeme::Mul, 10))));
    assert_eq!(take_operator(text("/2")), Ok((text("2"), op(Lexeme::Div, 10))));
    assert_eq!(Operator::new(Lexeme::Add), Operator { lexeme: Lexeme::Add, precedence: 5 });
    assert_eq!(Operator::new(Lexeme::Div), Operator { lexeme: Lexeme::Div, precedence: 10 });
    assert_eq!(Lexeme::Add.as_str(), "+");
    assert_eq!(Lexeme::Sub.as_str(), "-");
    assert_eq!(Lexeme::Mul.as_str(), "*");
    assert_eq!(Lexeme::Div.as_str(), "/");
}

#[test]
fn what_is_no_operator() {
    let expected = |s: &str| Err(ParserError::newr(text(s), text("Expected -")));
    assert_eq!(take_operator(text("1")), expected("1"));
    assert_eq!(take_operator(text(" +")), expected(" +"));
    assert_eq!(take_operator(text("")), expected(""));
}

#[test]
fn kinds() {
    assert_eq!(Number::I32(1).kind(), Type::I32);
    assert_eq!(Number::U32(1).kind(), Type::U32);
    assert_eq!(Number::F32(Float::from_i32(1)).kind(), Type::F32);
}

#[test]
fn the_left_operand_decides_the_kind() {
    let float = Number::F32(Float::decimal(text("1.0")));
    assert_eq!(type_check_op(&Number::I32(1), Lexeme::Add, &Number::I32(2)), Ok(Type::I32));
    assert_eq!(type_check_op(&Number::I32(1), Lexeme::Add, &Number::U32(2)), Ok(Type::I32));
    assert_eq!(type_check_op(&Number::U32(1), Lexeme::Mul, &Number::I32(2)), Ok(Type::U32));
    assert_eq!(type_check_op(&Number::U32(1), Lexeme::Div, &Number::U32(2)), Ok(Type::U32));
    assert_eq!(type_check_op(&float, Lexeme::Sub, &float), Ok(Type::F32));
    assert_eq!(
        type_check_op(&float, Lexeme::Sub, &Number::U32(2)),
        Err(EvalError::TypeMismatch { operator: Lexeme::Sub, left: Type::F32, right: Type::U32 })
    );
    assert_eq!(
        type_check_op(&Number::I32(2), Lexeme::Div, &float),
        Err(EvalError::TypeMismatch { operator: Lexeme::Div, left: Type::I32, right: Type::F32 })
    );
}

#[test]
fn signed_arithmetic() {
    assert_eq!(Number::I32(7).add(Number::I32(5)), Number::I32(12));
    assert_eq!(Number::I32(7).sub(Number::I32(9)), Number::I32(-2));
    assert_eq!(Number::I32(-7).mul(Number::I32(6)), Number::I32(-42));
    assert_eq!(Number::I32(i32::MAX).add(Number::I32(1)), Number::I32(i32::MIN));
    assert_eq!(Number::I32(i32::MIN).sub(Number::I32(1)), Number::I32(i32::MAX));
    assert_eq!(Number::I32(i32::MIN).mul(Number::I32(-1)), Number::I32(i32::MIN));
    assert_eq!(Number::I32(100000).mul(Number::I32(100000)), Number::I32(1410065408));
}

#[test]
fn unsigned_arithmetic() {
    assert_eq!(Number::U32(7).add(Number::U32(5)), Number::U32(12));
    assert_eq!(Number::U32(7).sub(Number::U32(9)), Number::U32(u32::MAX - 1));
    assert_eq!(Number::U32(u32::MAX).add(Number::U32(2)), Number::U32(1));
    assert_eq!(Number::U32(65536).mul(Number::U32(65537)), Number::U32(65536));
}

#[test]
fn the_right_operand_is_reinterpreted() {
    assert_eq!(Number::I32(1).add(Number::U32(u32::MAX)), Number::I32(0));
    assert_eq!(Number::I32(0).sub(Number::U32(2147483648)), Number::I32(i32::MIN));
    assert_eq!(Number::I32(3).mul(Number::U32(u32::MAX)), Number::I32(-3));
    assert_eq!(Number::U32(1).add(Number::I32(-1)), Number::U32(0));
    assert_eq!(Number::U32(5).sub(Number::I32(-1)), Number::U32(6));
    assert_eq!(Number::U32(2).mul(Number::I32(-1)), Number::U32(u32::MAX - 1));
    assert_eq!(Number::U32(2).mul(Number::I32(i32::MIN)), Number::U32(0));
}

#[test]
fn quotients_are_floating_point() {
    assert_eq!(
        Number::I32(7).div(Number::I32(2)),
        quotient(Float::from_i32(7), Float::from_i32(2))
    );
    assert_eq!(
        Number::I32(7).div(Number::U32(u32::MAX)),
        quotient(Float::from_i32(7), Float::from_i32(-1))
    );
    assert_eq!(
        Number::U32(7).div(Number::I32(-1)),
        quotient(Float::from_u32(7), Float::from_u32(u32::MAX))
    );
    assert_eq!(
        Number::U32(7).div(Number::U32(0)),
        quotient(Float::from_u32(7), Float::from_u32(0))
    );
    assert_eq!(
        Number::F32(Float::from_i32(1)).div(Number::F32(Float::decimal(text("0.5")))),
        quotient(Float::from_i32(1), Float::decimal(text("0.5")))
    );
}

#[test]
fn floating_point_operations_are_kept_as_steps() {
    let a = Float::decimal(text("1.5"));
    let b = Float::from_u32(2);
    let product = Number::F32(a.clone()).mul(Number::F32(b.clone()));
    assert_eq!(product, Number::F32(Float::binary(Lexeme::Mul, a.clone(), b.clone())));
    match product {
        Number::F32(value) => assert_eq!(
            value.steps(),
            &vec![
                FloatStep::Decimal(text("1.5")),
                FloatStep::FromU32(2),
                FloatStep::Apply(Lexeme::Mul)
            ]
        ),
        other => panic!("unexpected value {:?}", other),
    }
    // The steps of the left operand come first, whatever the operands are.
    let difference = Float::binary(
        Lexeme::Sub,
        Float::bits(9),
        Float::binary(Lexeme::Div, Float::from_i32(-1), a.clone()),
    );
    assert_eq!(
        difference.steps(),
        &vec![
            FloatStep::Bits(9),
            FloatStep::FromI32(-1),
            FloatStep::Decimal(text("1.5")),
            FloatStep::Apply(Lexeme::Div),
            FloatStep::Apply(Lexeme::Sub)
        ]
    );
    assert_eq!(
        Number::F32(a.clone()).combine(Lexeme::Add, Number::F32(b.clone())),
        Number::F32(Float::binary(Lexeme::Add, a, b))
    );
    assert_eq!(Number::I32(2).combine(Lexeme::Mul, Number::I32(4)), Number::I32(8));
    assert_eq!(Float::from_i32(3).steps(), &vec![FloatStep::FromI32(3)]);
    assert_eq!(Float::from_u32(3).steps(), &vec![FloatStep::FromU32(3)]);
    assert_eq!(Float::bits(3).steps(), &vec![FloatStep::Bits(3)]);
    assert_eq!(Float::decimal(text("0.5")).steps(), &vec![FloatStep::Decimal(text("0.5"))]);
}

#[test]
fn floating_point_values_of_any_size_are_copied_and_dropped() {
    let mut value = Float::from_i32(0);
    for i in 0..200_000 {
        value = Float::binary(Lexeme::Add, value, Float::from_i32(i));
    }
    let copy = value.clone();
    assert_eq!(copy.steps().len(), 400_001);
    assert_eq!(copy, value);
}

#[test]
fn clones_are_equal() {
    let nested = Atom::Parens(vec![
        lit(1),
        Atom::Op(Operator::new(Lexeme::Add)),
        Atom::Parens(vec![
            Atom::Var(text("x")),
            Atom::Op(Operator::new(Lexeme::Div)),
            decimal("2.5"),
        ]),
    ]);
    assert_eq!(nested.clone(), nested);
    let term = Float::binary(Lexeme::Mul, Float::from_i32(-3), Float::decimal(text("0.1")));
    assert_eq!(term.clone(), term);
    assert_eq!(Number::F32(term.clone()).clone(), Number::F32(term));
    assert_eq!(Float::bits(7).clone(), Float::bits(7));
    assert_eq!(Literal::Num(Number::U32(3)).clone(), Literal::Num(Number::U32(3)));
}
