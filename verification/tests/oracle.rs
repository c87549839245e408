use calculator::env::Environment;
use calculator::eval_line;
use calculator::math::{take_digit, Number};

/// A small generator of numbers that gives the same ones every time.
struct Numbers(u64);

impl Numbers {
    fn next(&mut self, below: u64) -> u64 {
        self.0 = self.0.wrapping_mul(6364136223846793005).wrapping_add(1442695040888963407);
        (self.0 >> 33) % below
    }
}

/// A sum of products as it is written, and its value in wrapping arithmetic.
fn sum(numbers: &mut Numbers, depth: u32) -> (String, i32) {
    let (mut text, mut value) = product(numbers, depth);
    for _ in 0..numbers.next(3) {
        let (term, term_value) = product(numbers, depth);
        text = format!("{}{}+{}{}", text, spaces(numbers), spaces(numbers), term);
        value = value.wrapping_add(term_value);
    }
    (text, value)
}

fn product(numbers: &mut Numbers, depth: u32) -> (String, i32) {
    let (mut text, mut value) = operand(numbers, depth);
    for _ in 0..numbers.next(3) {
        let (factor, factor_value) = operand(numbers, depth);
        text = format!("{}{}*{}{}", text, spaces(numbers), spaces(numbers), factor);
        value = value.wrapping_mul(factor_value);
    }
    (text, value)
}

fn operand(numbers: &mut Numbers, depth: u32) -> (String, i32) {
    if depth > 0 && numbers.next(3) == 0 {
        let (inner, value) = sum(numbers, depth - 1);
        (format!("({}{}{})", spaces(numbers), inner, spaces(numbers)), value)
    } else {
        let value = match numbers.next(4) {
            0 => numbers.next(10),
            1 => numbers.next(1000),
            2 => numbers.next(100_000),
            _ => numbers.next(i32::MAX as u64 + 1),
        } as i32;
        (format!("{}", value), value)
    }
}

fn spaces(numbers: &mut Numbers) -> &'static str {
    match numbers.next(4) {
        0 => " ",
        1 => "  ",
        _ => "",
    }
}

#[test]
fn sums_of_products_agree_with_wrapping_arithmetic() {
    let mut numbers = Numbers(2024);
    let mut variables = Environment::new();
    for _ in 0..2000 {
        let (text, value) = sum(&mut numbers, 3);
        assert_eq!(
            eval_line(text.clone(), &mut variables),
            Ok(("".to_string(), Number::I32(value))),
            "{}",
            text
        );
    }
}

#[test]
fn parentheses_around_a_whole_expression_change_nothing() {
    let mut numbers = Numbers(7);
    let mut variables = Environment::new();
    for _ in 0..500 {
        let (text, _) = sum(&mut numbers, 2);
        let plain = eval_line(text.clone(), &mut variables);
        let grouped = eval_line(format!("( {} )", text), &mut variables);
        assert_eq!(plain, grouped, "{}", text);
    }
}

#[test]
fn digits_are_the_ten_decimal_digits() {
    for code in 0..=0x10ffffu32 {
        if let Some(c) = char::from_u32(code) {
            assert_eq!(take_digit(c.to_string()).is_ok(), c.is_digit(10), "{:?}", c);
        }
    }
}
