use calculator::env::Environment;
use calculator::error::{EvalError, Failure, ParserError};
use calculator::math::{Float, FloatStep, Lexeme, Number, Type};
use calculator::{eval_expr, eval_line, eval_line_computing, take_decl, take_decl_head};

fn to_f32(value: &Float) -> f32 {
    let mut stack: Vec<f32> = vec![];
    for step in value.steps() {
        let next = match step {
            FloatStep::Bits(bits) => f32::from_bits(*bits),
            FloatStep::Decimal(text) => text.parse::<f32>().unwrap(),
            FloatStep::FromI32(v) => *v as f32,
            FloatStep::FromU32(v) => *v as f32,
            FloatStep::Apply(op) => {
                let r = stack.pop().unwrap();
                let l = stack.pop().unwrap();
                match op {
                    Lexeme::Add => l + r,
                    Lexeme::Sub => l - r,
                    Lexeme::Mul => l * r,
                    Lexeme::Div => l / r,
                }
            }
        };
        stack.push(next);
    }
    assert_eq!(stack.len(), 1);
    stack[0]
}

fn value_of(line: &str, variables: &mut Environment) -> Number {
    match eval_line(line.to_string(), variables) {
        Ok((_, value)) => value,
        Err(e) => panic!("{:?} failed: {:?}", line, e),
    }
}

#[test]
fn ops() {
    let mut var = Environment::new();
    assert_eq!(
        eval_expr("1 + 2 * 3".to_string(), &mut var),
        Ok(("".to_string(), Number::I32(1 + 2 * 3)))
    );
    assert_eq!(
        eval_expr("(1 + 2) * 3".to_string(), &mut var),
        Ok(("".to_string(), Number::I32((1 + 2) * 3)))
    );
    // A quotient is floating point, and `5 + (3 / 8)` then adds an integer
    // and a floating-point number.
    assert_eq!(
        eval_expr("(12 + (2 - 3)) * ( 5 +(3 / 8)) + 3".to_string(), &mut var),
        Err(Failure::Evaluation(EvalError::TypeMismatch {
            operator: Lexeme::Add,
            left: Type::I32,
            right: Type::F32,
        }))
    );
}

#[test]
fn var_decl() {
    let mut variables = Environment::new();
    assert_eq!(
        eval_line("let a = 15 * 2;".to_string(), &mut variables),
        Ok(("".to_string(), Number::I32(30)))
    );
    let mut to_compare = Environment::new();
    to_compare.insert("a".to_string(), Number::I32(30));
    assert_eq!(variables.len(), to_compare.len());
    assert_eq!(variables.get("a"), to_compare.get("a"));
    assert_eq!(
        eval_line("(a + 2) * 3".to_string(), &mut variables),
        Ok(("".to_string(), Number::I32((30 + 2) * 3)))
    );
}

#[test]
fn product_binds_before_sum() {
    let mut variables = Environment::new();
    assert_eq!(value_of("1 + 2 * 3", &mut variables), Number::I32(7));
    assert_eq!(value_of("2 * 3 + 1", &mut variables), Number::I32(7));
}

#[test]
fn parentheses_bind_first() {
    let mut variables = Environment::new();
    assert_eq!(value_of("(1 + 2) * 3", &mut variables), Number::I32(9));
}

#[test]
fn nested_parentheses_with_free_spacing() {
    let mut variables = Environment::new();
    assert_eq!(
        value_of("(12 + (2 * 3)) * ( 5 +(3* 8)) + 3", &mut variables),
        Number::I32(525)
    );
}

#[test]
fn declaration_then_use() {
    let mut variables = Environment::new();
    assert_eq!(
        eval_line("let a = 15 * 2;".to_string(), &mut variables),
        Ok(("".to_string(), Number::I32(30)))
    );
    assert_eq!(variables.get("a"), Some(Number::I32(30)));
    assert_eq!(
        eval_line("(a + 2) * 3".to_string(), &mut variables),
        Ok(("".to_string(), Number::I32(96)))
    );
}

#[test]
fn undefined_variable() {
    let mut variables = Environment::new();
    assert_eq!(
        eval_line("y".to_string(), &mut variables),
        Err(Failure::Evaluation(EvalError::UndefinedVariable("y".to_string())))
    );
    assert_eq!(variables.len(), 0);
}

#[test]
fn unmatched_parenthesis() {
    let mut variables = Environment::new();
    match eval_line("(1 + 2".to_string(), &mut variables) {
        Err(Failure::Parse(e)) => {
            assert_eq!(e.remaining(), "");
            assert_eq!(
                e.reason(),
                Some("Expected either number or a parenthesized expression here".to_string())
            );
        }
        other => panic!("unexpected result {:?}", other),
    }
    match eval_line("(1 + 2 ] + 3".to_string(), &mut variables) {
        Err(Failure::Parse(e)) => assert_eq!(e.remaining(), "] + 3"),
        other => panic!("unexpected result {:?}", other),
    }
}

#[test]
fn empty_line_is_a_parse_failure() {
    let mut variables = Environment::new();
    match eval_line("".to_string(), &mut variables) {
        Err(Failure::Parse(e)) => assert_eq!(e.remaining(), ""),
        other => panic!("unexpected result {:?}", other),
    }
    match eval_line("   + 1".to_string(), &mut variables) {
        Err(Failure::Parse(e)) => assert_eq!(e.remaining(), "+ 1"),
        other => panic!("unexpected result {:?}", other),
    }
}

#[test]
fn division_of_integers_is_floating_point() {
    let mut variables = Environment::new();
    match eval_line("7 / 2".to_string(), &mut variables) {
        Ok((rest, Number::F32(value))) => {
            assert_eq!(rest, "");
            assert_eq!(
                value,
                Float::binary(Lexeme::Div, Float::from_i32(7), Float::from_i32(2))
            );
            assert_eq!(to_f32(&value), 3.5);
        }
        other => panic!("unexpected result {:?}", other),
    }
}

#[test]
fn floating_point_literals_combine() {
    let mut variables = Environment::new();
    match value_of("1.5 + 2.25 * 2.0", &mut variables) {
        Number::F32(value) => assert_eq!(to_f32(&value), 6.0),
        other => panic!("unexpected value {:?}", other),
    }
    match value_of("7 / 2 - 0.5", &mut variables) {
        Number::F32(value) => assert_eq!(to_f32(&value), 3.0),
        other => panic!("unexpected value {:?}", other),
    }
}

#[test]
fn integer_and_floating_point_do_not_mix() {
    let mut variables = Environment::new();
    assert_eq!(
        eval_line("1.5 * 2".to_string(), &mut variables),
        Err(Failure::Evaluation(EvalError::TypeMismatch {
            operator: Lexeme::Mul,
            left: Type::F32,
            right: Type::I32,
        }))
    );
}

#[test]
fn equal_operators_apply_from_the_left() {
    let mut variables = Environment::new();
    assert_eq!(value_of("10 - 4 - 3", &mut variables), Number::I32((10 - 4) - 3));
    assert_eq!(value_of("(10 - 4) - 3", &mut variables), Number::I32(3));
    assert_eq!(value_of("10 - (4 - 3)", &mut variables), Number::I32(9));
    match value_of("16.0 / 4.0 / 2.0", &mut variables) {
        Number::F32(value) => assert_eq!(to_f32(&value), 2.0),
        other => panic!("unexpected value {:?}", other),
    }
    // The first quotient is floating point and the second divisor is not.
    assert_eq!(
        eval_line("16 / 4 / 2".to_string(), &mut variables),
        Err(Failure::Evaluation(EvalError::TypeMismatch {
            operator: Lexeme::Div,
            left: Type::F32,
            right: Type::I32,
        }))
    );
}

#[test]
fn redundant_parentheses_change_nothing() {
    let mut variables = Environment::new();
    let plain = value_of("1 + 2 * 3 * 4 - 5", &mut variables);
    assert_eq!(plain, Number::I32(20));
    assert_eq!(value_of("1 + (2 * 3) * 4 - 5", &mut variables), plain);
    assert_eq!(value_of("1 + (2 * 3 * 4) - 5", &mut variables), plain);
    assert_eq!(value_of("(1 + 2 * 3 * 4) - 5", &mut variables), plain);
    assert_eq!(value_of("((1) + ((2) * 3 * 4) - 5)", &mut variables), plain);
}

#[test]
fn sums_of_products_agree_with_arithmetic() {
    let mut variables = Environment::new();
    assert_eq!(
        value_of("3 + 4 * 5 * (6 + 7) + 8 * 9", &mut variables),
        Number::I32(3 + 4 * 5 * (6 + 7) + 8 * 9)
    );
    assert_eq!(
        value_of("((2)) * (3 + (4 * (5 + 6)))", &mut variables),
        Number::I32(2 * (3 + (4 * (5 + 6))))
    );
    assert_eq!(value_of("0 * 7 + 0", &mut variables), Number::I32(0));
}

#[test]
fn integers_wrap_around() {
    let mut variables = Environment::new();
    assert_eq!(
        value_of("2147483647 + 1", &mut variables),
        Number::I32(2147483647i32.wrapping_add(1))
    );
    assert_eq!(
        value_of("65536 * 65536 + 5", &mut variables),
        Number::I32(65536i32.wrapping_mul(65536).wrapping_add(5))
    );
    assert_eq!(value_of("0 - 2147483647 - 2", &mut variables), Number::I32(i32::MAX));
}

#[test]
fn declared_name_has_the_value_of_its_expression() {
    let mut variables = Environment::new();
    let direct = value_of("(4 + 5) * 6 - 7", &mut variables);
    let declared = value_of("let total1 = (4 + 5) * 6 - 7;", &mut variables);
    assert_eq!(declared, direct);
    assert_eq!(
        eval_expr("total1".to_string(), &mut variables),
        Ok(("".to_string(), direct))
    );
}

#[test]
fn declaration_overwrites() {
    let mut variables = Environment::new();
    value_of("let x = 1;", &mut variables);
    value_of("let x = x + 1;", &mut variables);
    assert_eq!(variables.get("x"), Some(Number::I32(2)));
    assert_eq!(variables.len(), 1);
    assert!(variables.contains("x"));
    assert!(!variables.contains("y"));
}

#[test]
fn declaration_keeps_the_kind_of_its_value() {
    let mut variables = Environment::new();
    value_of("let half = 1 / 2;", &mut variables);
    match value_of("half + 0.25", &mut variables) {
        Number::F32(value) => assert_eq!(to_f32(&value), 0.75),
        other => panic!("unexpected value {:?}", other),
    }
}

#[test]
fn failed_declaration_binds_nothing() {
    let mut variables = Environment::new();
    // The right-hand side cannot be evaluated, so the line is read as an
    // expression, which begins with the variable `let`.
    assert_eq!(
        eval_line("let y = z;".to_string(), &mut variables),
        Err(Failure::Evaluation(EvalError::UndefinedVariable("let".to_string())))
    );
    assert_eq!(variables.len(), 0);
    assert_eq!(
        take_decl("let y = z;".to_string(), &mut variables),
        Err(ParserError::new("let y = z;".to_string()))
    );
    assert_eq!(
        take_decl("let y = 1".to_string(), &mut variables),
        Err(ParserError::new("let y = 1".to_string()))
    );
    assert_eq!(
        take_decl("lety = 1;".to_string(), &mut variables),
        Err(ParserError::new("lety = 1;".to_string()))
    );
    assert_eq!(variables.len(), 0);
}

#[test]
fn declaration_with_free_spacing() {
    let mut variables = Environment::new();
    assert_eq!(
        take_decl("let   wide=3 *(1+1)  ;rest".to_string(), &mut variables),
        Ok(("rest".to_string(), Number::I32(6)))
    );
    assert_eq!(variables.get("wide"), Some(Number::I32(6)));
}

#[test]
fn what_follows_an_expression_is_left() {
    let mut variables = Environment::new();
    assert_eq!(
        eval_expr("1 + 2 ) 3".to_string(), &mut variables),
        Ok((") 3".to_string(), Number::I32(3)))
    );
    // An operator without an operand after it is not read.
    assert_eq!(
        eval_expr("1 + ".to_string(), &mut variables),
        Ok(("+ ".to_string(), Number::I32(1)))
    );
}

#[test]
fn head_of_a_declaration() {
    assert_eq!(
        take_decl_head("let  a1 =  2 * 3;".to_string()),
        Some(("a1".to_string(), "2 * 3;".to_string()))
    );
    assert_eq!(take_decl_head("let a=".to_string()), Some(("a".to_string(), "".to_string())));
    assert_eq!(take_decl_head("let a 1".to_string()), None);
    assert_eq!(take_decl_head("let 1 = 1;".to_string()), None);
    assert_eq!(take_decl_head("leta = 1;".to_string()), None);
    assert_eq!(take_decl_head(" let a = 1;".to_string()), None);
    assert_eq!(take_decl_head("".to_string()), None);
}

#[test]
fn floating_point_values_given_by_their_bits() {
    let mut variables = Environment::new();
    variables.insert("half".to_string(), Number::F32(Float::bits(0.5f32.to_bits())));
    match value_of("half * 3.0", &mut variables) {
        Number::F32(value) => {
            assert_eq!(
                value,
                Float::binary(
                    Lexeme::Mul,
                    Float::bits(0x3f00_0000),
                    Float::decimal("3.0".to_string())
                )
            );
            assert_eq!(to_f32(&value), 1.5);
        }
        other => panic!("unexpected value {:?}", other),
    }
}

#[test]
fn declared_floating_point_values_are_computed() {
    let compute = |term: &Float| to_f32(term).to_bits();
    let mut variables = Environment::new();
    assert_eq!(
        eval_line_computing("let x = 7 / 2;".to_string(), &mut variables, compute),
        Ok(("".to_string(), Number::F32(Float::bits(3.5f32.to_bits()))))
    );
    assert_eq!(variables.get("x"), Some(Number::F32(Float::bits(3.5f32.to_bits()))));
    // Integers are bound as they are, and expressions are not computed.
    assert_eq!(
        eval_line_computing("let n = 7 * 2;".to_string(), &mut variables, compute),
        Ok(("".to_string(), Number::I32(14)))
    );
    assert_eq!(variables.get("n"), Some(Number::I32(14)));
    assert_eq!(
        eval_line_computing("x * 2.0".to_string(), &mut variables, compute),
        Ok((
            "".to_string(),
            Number::F32(Float::binary(
                Lexeme::Mul,
                Float::bits(3.5f32.to_bits()),
                Float::decimal("2.0".to_string())
            ))
        ))
    );
    assert_eq!(
        eval_line_computing("let y = z;".to_string(), &mut variables, compute),
        Err(Failure::Evaluation(EvalError::UndefinedVariable("let".to_string())))
    );
    assert_eq!(variables.len(), 2);
}

#[test]
fn what_the_variables_hold_does_not_grow() {
    let compute = |term: &Float| to_f32(term).to_bits();
    let mut variables = Environment::new();
    eval_line_computing("let x = 0.5;".to_string(), &mut variables, compute).unwrap();
    for _ in 0..1000 {
        eval_line_computing("let x = x + 1.0;".to_string(), &mut variables, compute).unwrap();
    }
    assert_eq!(variables.get("x"), Some(Number::F32(Float::bits(1000.5f32.to_bits()))));
}

#[test]
fn long_lines_of_floating_point_operations() {
    let mut variables = Environment::new();
    let mut line = String::from("0.5");
    for _ in 0..2000 {
        line.push_str(" + 1.0");
    }
    match value_of(&line, &mut variables) {
        Number::F32(value) => assert_eq!(to_f32(&value), 2000.5),
        other => panic!("unexpected value {:?}", other),
    }
}
