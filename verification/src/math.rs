//! Numbers, tokens and operators: the kinds of number and how an operator
//! combines two of them, the tokens of an expression, and the reading of
//! number literals and operators.
use crate::chars::{
    char_is_digit, digit, digit_value, is_digit, lemma_run_len_properties, run_len,
};
use crate::common::{
    expected_text, first_char, lemma_skip_whitespace_shortens, lemma_took_while_class, outcome,
    skip_whitespace, spec_take_class, take_char, take_first, take_str, take_while1,
    take_whitespaces0,
};
use crate::error::{failure, failure_because, EvalError, EvalErrorView, Parsed, ParserError};
pub use crate::float::{Float, FloatStep, FloatView};
use vstd::prelude::*;

verus! {

/// The text of an operator.
#[derive(Debug, Clone, Copy, PartialEq, Eq, Structural)]
pub enum Lexeme {
    Add,
    Sub,
    Mul,
    Div,
}

/// An infix operator with its binding strength: of two operators that
/// compete for an operand, the one of higher precedence gets it, and the one
/// on the left if they are equal.
#[derive(Debug, Clone, Copy, PartialEq, Eq, Structural)]
pub struct Operator {
    pub lexeme: Lexeme,
    pub precedence: i32,
}

/// The kind of a number.
#[derive(Debug, Clone, Copy, PartialEq, Eq, Structural)]
pub enum Type {
    U32,
    I32,
    F32,
}

/// What a [`Number`] stands for.
pub enum NumberView {
    U32(u32),
    I32(i32),
    F32(FloatView),
}

/// A number: an unsigned or a signed 32-bit integer, or a 32-bit
/// floating-point value.
#[derive(Debug, PartialEq)]
pub enum Number {
    U32(u32),
    I32(i32),
    F32(Float),
}

impl View for Number {
    type V = NumberView;

    open spec fn view(&self) -> NumberView {
        match self {
            Number::U32(v) => NumberView::U32(*v),
            Number::I32(v) => NumberView::I32(*v),
            Number::F32(v) => NumberView::F32(v@),
        }
    }
}

impl Clone for Number {
    fn clone(&self) -> (r: Self)
        ensures
            r@ == self@,
    {
        match self {
            Number::U32(v) => Number::U32(*v),
            Number::I32(v) => Number::I32(*v),
            Number::F32(v) => Number::F32(v.clone()),
        }
    }
}

/// A literal of an expression.
#[derive(Debug, PartialEq)]
pub enum Literal {
    Num(Number),
}

impl View for Literal {
    type V = NumberView;

    open spec fn view(&self) -> NumberView {
        match self {
            Literal::Num(n) => n@,
        }
    }
}

impl Clone for Literal {
    fn clone(&self) -> (r: Self)
        ensures
            r@ == self@,
    {
        match self {
            Literal::Num(n) => Literal::Num(n.clone()),
        }
    }
}

/// What an [`Atom`] stands for.
pub enum AtomView {
    Lit(NumberView),
    Var(Seq<char>),
    Op(Operator),
    Parens(Seq<AtomView>),
}

/// One token of an expression: a literal, a variable, an operator, or a
/// group, which holds the tokens of an expression in parentheses.
#[derive(Debug, PartialEq)]
pub enum Atom {
    Lit(Literal),
    Var(String),
    Op(Operator),
    Parens(Expr),
}

/// An expression: its tokens in the order they are read.
pub type Expr = Vec<Atom>;

impl Clone for Atom {
    fn clone(&self) -> (r: Self)
        ensures
            r@ == self@,
        decreases *self,
    {
        match self {
            Atom::Lit(literal) => Atom::Lit(literal.clone()),
            Atom::Var(name) => Atom::Var(name.clone()),
            Atom::Op(op) => Atom::Op(*op),
            Atom::Parens(inner) => {
                let mut copy: Vec<Atom> = Vec::new();
                let mut i: usize = 0;
                while i < inner.len()
                    invariant
                        i <= inner.len(),
                        copy@.len() == i,
                        forall|j: int| 0 <= j < i ==> (#[trigger] copy@[j])@ == inner@[j]@,
                        self matches Atom::Parens(tokens) && tokens == inner,
                    decreases inner.len() - i,
                {
                    proof {
                        vstd::std_specs::vec::axiom_vec_index_decreases(*inner, i as int);
                    }
                    copy.push(inner[i].clone());
                    i += 1;
                }
                proof {
                    lemma_parens_view(copy);
                    lemma_parens_view(*inner);
                    assert(expr_view(copy@) =~= expr_view(inner@));
                }
                Atom::Parens(copy)
            },
        }
    }
}

/// The token that an atom stands for.
pub open spec fn atom_view(atom: Atom) -> AtomView
    decreases atom,
{
    match atom {
        Atom::Lit(Literal::Num(n)) => AtomView::Lit(n@),
        Atom::Var(name) => AtomView::Var(name@),
        Atom::Op(op) => AtomView::Op(op),
        Atom::Parens(inner) => AtomView::Parens(
            Seq::new(
                inner@.len(),
                |i: int|
                    if 0 <= i < inner@.len() {
                        atom_view(inner@[i])
                    } else {
                        AtomView::Parens(Seq::empty())
                    },
            ),
        ),
    }
}

impl View for Atom {
    type V = AtomView;

    open spec fn view(&self) -> AtomView {
        atom_view(*self)
    }
}

/// The tokens that a sequence of atoms stands for.
pub open spec fn expr_view(tokens: Seq<Atom>) -> Seq<AtomView> {
    Seq::new(tokens.len(), |i: int| tokens[i]@)
}

/// A group stands for the group of what its tokens stand for.
pub proof fn lemma_parens_view(inner: Vec<Atom>)
    ensures
        Atom::Parens(inner)@ == AtomView::Parens(expr_view(inner@)),
{
    assert(Atom::Parens(inner)@->Parens_0 =~= expr_view(inner@));
}

/// The signed 32-bit integer that is congruent to `x` modulo 2^32.
pub open spec fn wrap_i32(x: int) -> i32 {
    let m = x % 0x1_0000_0000;
    if m > i32::MAX {
        (m - 0x1_0000_0000) as i32
    } else {
        m as i32
    }
}

/// The unsigned 32-bit integer that is congruent to `x` modulo 2^32.
pub open spec fn wrap_u32(x: int) -> u32 {
    (x % 0x1_0000_0000) as u32
}

/// The kind of a number.
pub open spec fn type_of(n: NumberView) -> Type {
    match n {
        NumberView::U32(_) => Type::U32,
        NumberView::I32(_) => Type::I32,
        NumberView::F32(_) => Type::F32,
    }
}

/// The kind in which an operator combines two operands: floating point for
/// two floating-point operands, the left operand's kind for two integers, and
/// a mismatch where exactly one operand is floating point.
pub open spec fn spec_type_check(lhs: NumberView, op: Lexeme, rhs: NumberView) -> Result<
    Type,
    EvalErrorView,
> {
    if (lhs is F32) != (rhs is F32) {
        Err(EvalErrorView::TypeMismatch { operator: op, left: type_of(lhs), right: type_of(rhs) })
    } else {
        Ok(type_of(lhs))
    }
}

/// An integer operand read as a signed integer: an unsigned one keeps its bits.
pub open spec fn reinterpret_i32(n: NumberView) -> i32 {
    match n {
        NumberView::I32(v) => v,
        NumberView::U32(v) => wrap_i32(v as int),
        NumberView::F32(_) => 0,
    }
}

/// An integer operand read as an unsigned integer: a signed one keeps its bits.
pub open spec fn reinterpret_u32(n: NumberView) -> u32 {
    match n {
        NumberView::U32(v) => v,
        NumberView::I32(v) => wrap_u32(v as int),
        NumberView::F32(_) => 0,
    }
}

/// The exact integer result of an additive or multiplicative operator.
pub open spec fn int_op(op: Lexeme, a: int, b: int) -> int {
    match op {
        Lexeme::Add => a + b,
        Lexeme::Sub => a - b,
        Lexeme::Mul => a * b,
        Lexeme::Div => 0,
    }
}

/// The floating-point term of an operand.
pub open spec fn as_float(n: NumberView) -> FloatView {
    match n {
        NumberView::F32(f) => f,
        NumberView::I32(v) => FloatView::FromI32(v),
        NumberView::U32(v) => FloatView::FromU32(v),
    }
}

/// The result of an operator on two operands whose kinds go together.
///
/// Two floating-point operands give the floating-point term of the
/// operation. Two integers are combined in the left operand's kind, the
/// right one reinterpreted into it: `+`, `-` and `*` wrap around modulo 2^32,
/// and `/` gives the floating-point quotient of the two converted integers.
pub open spec fn spec_combine(op: Lexeme, lhs: NumberView, rhs: NumberView) -> NumberView {
    match lhs {
        NumberView::F32(a) => NumberView::F32(
            FloatView::Binary(op, Box::new(a), Box::new(as_float(rhs))),
        ),
        NumberView::I32(a) => {
            let b = reinterpret_i32(rhs);
            if op is Div {
                NumberView::F32(
                    FloatView::Binary(
                        op,
                        Box::new(FloatView::FromI32(a)),
                        Box::new(FloatView::FromI32(b)),
                    ),
                )
            } else {
                NumberView::I32(wrap_i32(int_op(op, a as int, b as int)))
            }
        },
        NumberView::U32(a) => {
            let b = reinterpret_u32(rhs);
            if op is Div {
                NumberView::F32(
                    FloatView::Binary(
                        op,
                        Box::new(FloatView::FromU32(a)),
                        Box::new(FloatView::FromU32(b)),
                    ),
                )
            } else {
                NumberView::U32(wrap_u32(int_op(op, a as int, b as int)))
            }
        },
    }
}

/// The result of applying an operator to a left and a right operand.
pub open spec fn spec_apply(op: Lexeme, lhs: NumberView, rhs: NumberView) -> Result<
    NumberView,
    EvalErrorView,
> {
    match spec_type_check(lhs, op, rhs) {
        Ok(_) => Ok(spec_combine(op, lhs, rhs)),
        Err(e) => Err(e),
    }
}

/// The signed integer with the bits of `v`.
fn u32_as_i32(v: u32) -> (r: i32)
    ensures
        r == wrap_i32(v as int),
{
    if v <= 0x7fff_ffff {
        v as i32
    } else {
        (v - 0x8000_0000) as i32 + i32::MIN
    }
}

/// The unsigned integer with the bits of `v`.
fn i32_as_u32(v: i32) -> (r: u32)
    ensures
        r == wrap_u32(v as int),
{
    if v >= 0 {
        v as u32
    } else {
        (v - i32::MIN) as u32 + 0x8000_0000
    }
}

/// Applies `op` to two signed integers.
fn combine_i32(op: Lexeme, a: i32, b: i32) -> (r: Number)
    ensures
        r@ == spec_combine(op, NumberView::I32(a), NumberView::I32(b)),
{
    match op {
        Lexeme::Add => Number::I32(a.wrapping_add(b)),
        Lexeme::Sub => Number::I32(a.wrapping_sub(b)),
        Lexeme::Mul => Number::I32(a.wrapping_mul(b)),
        Lexeme::Div => Number::F32(Float::binary(op, Float::from_i32(a), Float::from_i32(b))),
    }
}

/// Applies `op` to two unsigned integers.
fn combine_u32(op: Lexeme, a: u32, b: u32) -> (r: Number)
    ensures
        r@ == spec_combine(op, NumberView::U32(a), NumberView::U32(b)),
{
    match op {
        Lexeme::Add => Number::U32(a.wrapping_add(b)),
        Lexeme::Sub => Number::U32(a.wrapping_sub(b)),
        Lexeme::Mul => Number::U32(a.wrapping_mul(b)),
        Lexeme::Div => Number::F32(Float::binary(op, Float::from_u32(a), Float::from_u32(b))),
    }
}

impl Number {
    /// The kind of this number.
    pub fn kind(&self) -> (t: Type)
        ensures
            t == type_of(self@),
    {
        match self {
            Number::U32(_) => Type::U32,
            Number::I32(_) => Type::I32,
            Number::F32(_) => Type::F32,
        }
    }

    /// Applies `op` to `self` on the left and `other` on the right.
    pub fn combine(self, op: Lexeme, other: Number) -> (r: Number)
        requires
            spec_type_check(self@, op, other@) is Ok,
        ensures
            r@ == spec_combine(op, self@, other@),
    {
        match self {
            Number::F32(a) => match other {
                Number::F32(b) => Number::F32(Float::binary(op, a, b)),
                _ => vstd::pervasive::unreached(),
            },
            Number::I32(a) => match other {
                Number::I32(b) => combine_i32(op, a, b),
                Number::U32(b) => combine_i32(op, a, u32_as_i32(b)),
                _ => vstd::pervasive::unreached(),
            },
            Number::U32(a) => match other {
                Number::U32(b) => combine_u32(op, a, b),
                Number::I32(b) => combine_u32(op, a, i32_as_u32(b)),
                _ => vstd::pervasive::unreached(),
            },
        }
    }

    /// `self + other`.
    pub fn add(self, other: Number) -> (r: Number)
        requires
            spec_type_check(self@, Lexeme::Add, other@) is Ok,
        ensures
            r@ == spec_combine(Lexeme::Add, self@, other@),
    {
        self.combine(Lexeme::Add, other)
    }

    /// `self - other`.
    pub fn sub(self, other: Number) -> (r: Number)
        requires
            spec_type_check(self@, Lexeme::Sub, other@) is Ok,
        ensures
            r@ == spec_combine(Lexeme::Sub, self@, other@),
    {
        self.combine(Lexeme::Sub, other)
    }

    /// `self * other`.
    pub fn mul(self, other: Number) -> (r: Number)
        requires
            spec_type_check(self@, Lexeme::Mul, other@) is Ok,
        ensures
            r@ == spec_combine(Lexeme::Mul, self@, other@),
    {
        self.combine(Lexeme::Mul, other)
    }

    /// `self / other`, which is floating point whatever the operands are.
    pub fn div(self, other: Number) -> (r: Number)
        requires
            spec_type_check(self@, Lexeme::Div, other@) is Ok,
        ensures
            r@ == spec_combine(Lexeme::Div, self@, other@),
            r@ is F32,
    {
        self.combine(Lexeme::Div, other)
    }
}

/// What the result of a type check stands for.
pub open spec fn checked(r: Result<Type, EvalError>) -> Result<Type, EvalErrorView> {
    match r {
        Ok(kind) => Ok(kind),
        Err(e) => Err(e@),
    }
}

/// Decides the kind in which `operator` combines the two operands, or that
/// they do not go together.
pub fn type_check_op(operand1: &Number, operator: Lexeme, operand2: &Number) -> (r: Result<
    Type,
    EvalError,
>)
    ensures
        checked(r) == spec_type_check(operand1@, operator, operand2@),
{
    let left = operand1.kind();
    let right = operand2.kind();
    match left {
        Type::F32 => match right {
            Type::F32 => Ok(Type::F32),
            _ => Err(EvalError::TypeMismatch { operator, left, right }),
        },
        _ => match right {
            Type::F32 => Err(EvalError::TypeMismatch { operator, left, right }),
            _ => Ok(left),
        },
    }
}

/// The binding strength of an operator: 10 for `*` and `/`, 5 for `+` and `-`.
pub open spec fn precedence_of(lexeme: Lexeme) -> i32 {
    match lexeme {
        Lexeme::Mul | Lexeme::Div => 10,
        Lexeme::Add | Lexeme::Sub => 5,
    }
}

/// The operator that the text of `lexeme` is read as.
pub open spec fn standard(lexeme: Lexeme) -> Operator {
    Operator { lexeme, precedence: precedence_of(lexeme) }
}

/// The text of an operator.
pub open spec fn lexeme_text(lexeme: Lexeme) -> Seq<char> {
    match lexeme {
        Lexeme::Add => seq!['+'],
        Lexeme::Sub => seq!['-'],
        Lexeme::Mul => seq!['*'],
        Lexeme::Div => seq!['/'],
    }
}

impl Lexeme {
    /// The text of this operator.
    pub fn as_str(&self) -> (text: &'static str)
        ensures
            text@ == lexeme_text(*self),
    {
        proof {
            reveal_strlit("+");
            reveal_strlit("-");
            reveal_strlit("*");
            reveal_strlit("/");
        }
        let text = match self {
            Lexeme::Add => "+",
            Lexeme::Sub => "-",
            Lexeme::Mul => "*",
            Lexeme::Div => "/",
        };
        text
    }
}

impl Operator {
    /// Whether the operator binds as its text says.
    pub open spec fn wf(self) -> bool {
        self.precedence == precedence_of(self.lexeme)
    }

    /// The operator with the text of `lexeme` and the binding strength that
    /// goes with it.
    pub fn new(lexeme: Lexeme) -> (op: Operator)
        ensures
            op == standard(lexeme),
    {
        let precedence: i32 = match lexeme {
            Lexeme::Mul | Lexeme::Div => 10,
            Lexeme::Add | Lexeme::Sub => 5,
        };
        Operator { lexeme, precedence }
    }
}

/// The number that a run of decimal digits writes.
pub open spec fn decimal_value(digits: Seq<char>) -> nat
    decreases digits.len(),
{
    if digits.len() == 0 {
        0
    } else {
        decimal_value(digits.drop_last()) * 10 + digit_value(digits.last())
    }
}

/// The diagnostic of a floating-point literal that is not there.
pub open spec fn invalid_float() -> Seq<char> {
    "Invalid float literal"@
}

/// The diagnostic of an integer literal that is not there or too large.
pub open spec fn invalid_int() -> Seq<char> {
    "Invalid int literal"@
}

/// Reads a floating-point literal: digits, a point, digits. The token holds
/// the literal's text.
pub open spec fn spec_take_float(s: Seq<char>) -> Parsed<AtomView> {
    let whole = run_len(s, digit());
    let fraction = run_len(s.skip(whole + 1 as int), digit());
    if whole > 0 && whole < s.len() && s[whole as int] == '.' && fraction > 0 {
        let n = whole + 1 + fraction;
        Ok((s.skip(n as int), AtomView::Lit(NumberView::F32(FloatView::Decimal(s.take(n as int))))))
    } else {
        Err(failure_because(s, invalid_float()))
    }
}

/// Reads an integer literal: a run of digits whose value a signed 32-bit
/// integer can hold.
pub open spec fn spec_take_int(s: Seq<char>) -> Parsed<AtomView> {
    let n = run_len(s, digit());
    let value = decimal_value(s.take(n as int));
    if n > 0 && value <= i32::MAX {
        Ok((s.skip(n as int), AtomView::Lit(NumberView::I32(value as i32))))
    } else {
        Err(failure_because(s, invalid_int()))
    }
}

/// Reads a number, floating point if it has that shape and else integer, and
/// drops the whitespace after it.
pub open spec fn spec_take_numbers(s: Seq<char>) -> Parsed<AtomView> {
    match spec_take_float(s) {
        Ok((rest, number)) => Ok((skip_whitespace(rest), number)),
        Err(_) => match spec_take_int(s) {
            Ok((rest, number)) => Ok((skip_whitespace(rest), number)),
            Err(_) => Err(failure(s)),
        },
    }
}

/// The operator that a character writes, if it writes one.
pub open spec fn operator_of(c: char) -> Option<Lexeme> {
    if c == '+' {
        Some(Lexeme::Add)
    } else if c == '*' {
        Some(Lexeme::Mul)
    } else if c == '/' {
        Some(Lexeme::Div)
    } else if c == '-' {
        Some(Lexeme::Sub)
    } else {
        None
    }
}

/// Reads one of the operators `+`, `*`, `/` and `-`.
pub open spec fn spec_take_operator(s: Seq<char>) -> Parsed<AtomView> {
    if s.len() > 0 && operator_of(s[0]) is Some {
        Ok((s.skip(1), AtomView::Op(standard(operator_of(s[0])->Some_0))))
    } else {
        Err(failure_because(s, expected_text(lexeme_text(Lexeme::Sub))))
    }
}

/// An input begins with a one-character text when its first character is
/// that character.
proof fn lemma_prefix_of_one(s: Seq<char>, c: char)
    ensures
        seq![c].is_prefix_of(s) <==> s.len() > 0 && s[0] == c,
{
    if seq![c].is_prefix_of(s) {
        assert(s.subrange(0, 1)[0] == seq![c][0]);
    }
}

/// A longer run of digits writes no smaller a number.
proof fn lemma_decimal_value_grows(digits: Seq<char>, n: int)
    requires
        0 <= n <= digits.len(),
    ensures
        decimal_value(digits.take(n)) <= decimal_value(digits),
    decreases digits.len() - n,
{
    if n == digits.len() {
        assert(digits.take(n) =~= digits);
    } else {
        assert(digits.take(n + 1).drop_last() =~= digits.take(n));
        lemma_decimal_value_grows(digits, n + 1);
    }
}

/// Reads one decimal digit.
pub fn take_digit(s: String) -> (r: Result<(String, char), ParserError>)
    ensures
        outcome(r) == spec_take_class(s@, digit()),
{
    let wanted = match first_char(&s) {
        Some(c) => char_is_digit(c),
        None => false,
    };
    take_first(s, wanted)
}

/// The text of a floating-point literal with these digits before and after
/// the point.
fn literal_text(whole: &Vec<char>, fraction: &Vec<char>) -> (text: String)
    ensures
        text@ == whole@ + seq!['.'] + fraction@,
{
    let mut text = String::new();
    let mut i: usize = 0;
    while i < whole.len()
        invariant
            i <= whole.len(),
            text@ == whole@.take(i as int),
        decreases whole.len() - i,
    {
        text.push(whole[i]);
        i += 1;
    }
    text.push('.');
    let mut j: usize = 0;
    while j < fraction.len()
        invariant
            j <= fraction.len(),
            text@ == whole@ + seq!['.'] + fraction@.take(j as int),
        decreases fraction.len() - j,
    {
        text.push(fraction[j]);
        j += 1;
    }
    text
}

/// Reads a floating-point literal: digits, a point, digits.
pub fn take_float(s: String) -> (r: Result<(String, Atom), ParserError>)
    ensures
        outcome(r) == spec_take_float(s@),
{
    let (remaining, whole) = match take_while1(s.clone(), take_digit) {
        Ok(found) => found,
        Err(_) => {
            proof {
                lemma_took_while_class(s@, take_digit, digit(), s@, Seq::<char>::empty());
            }
            return Err(ParserError::newr(s, String::from_str("Invalid float literal")));
        },
    };
    proof {
        lemma_took_while_class(s@, take_digit, digit(), remaining@, whole@);
    }
    let remaining = match take_char(remaining, '.') {
        Ok((remaining, _)) => remaining,
        Err(_) => {
            return Err(ParserError::newr(s, String::from_str("Invalid float literal")));
        },
    };
    assert(remaining@ =~= s@.skip(whole@.len() + 1 as int));
    let (remaining, fraction) = match take_while1(remaining.clone(), take_digit) {
        Ok(found) => found,
        Err(_) => {
            proof {
                lemma_took_while_class(
                    remaining@,
                    take_digit,
                    digit(),
                    remaining@,
                    Seq::<char>::empty(),
                );
            }
            return Err(ParserError::newr(s, String::from_str("Invalid float literal")));
        },
    };
    let text = literal_text(&whole, &fraction);
    proof {
        lemma_took_while_class(
            s@.skip(whole@.len() + 1 as int),
            take_digit,
            digit(),
            remaining@,
            fraction@,
        );
        let n = whole@.len() + 1 + fraction@.len();
        assert(remaining@ =~= s@.skip(n as int));
        assert(text@ =~= s@.take(n as int));
    }
    Ok((remaining, Atom::Lit(Literal::Num(Number::F32(Float::decimal(text))))))
}

/// The number that the digits write, if a signed 32-bit integer can hold it.
fn int_of_digits(digits: &Vec<char>) -> (r: Option<i32>)
    requires
        forall|i: int| 0 <= i < digits@.len() ==> is_digit(#[trigger] digits@[i]),
    ensures
        match r {
            Some(v) => v == decimal_value(digits@),
            None => decimal_value(digits@) > i32::MAX,
        },
{
    let mut value: u64 = 0;
    let mut i: usize = 0;
    while i < digits.len()
        invariant
            i <= digits.len(),
            value == decimal_value(digits@.take(i as int)),
            value <= i32::MAX,
            forall|j: int| 0 <= j < digits@.len() ==> is_digit(#[trigger] digits@[j]),
        decreases digits.len() - i,
    {
        let d = digits[i] as u64 - '0' as u64;
        proof {
            assert(digits@.take(i + 1).drop_last() =~= digits@.take(i as int));
        }
        let next = value * 10 + d;
        if next > i32::MAX as u64 {
            proof {
                lemma_decimal_value_grows(digits@, i + 1);
            }
            return None;
        }
        value = next;
        i += 1;
    }
    assert(digits@.take(i as int) =~= digits@);
    Some(value as i32)
}

/// Reads an integer literal: a run of digits whose value a signed 32-bit
/// integer can hold.
pub fn take_int(s: String) -> (r: Result<(String, Atom), ParserError>)
    ensures
        outcome(r) == spec_take_int(s@),
{
    match take_while1(s.clone(), take_digit) {
        Ok((remaining, num)) => {
            proof {
                lemma_took_while_class(s@, take_digit, digit(), remaining@, num@);
                lemma_run_len_properties(s@, digit());
            }
            match int_of_digits(&num) {
                Some(value) => Ok((remaining, Atom::Lit(Literal::Num(Number::I32(value))))),
                None => Err(ParserError::newr(s, String::from_str("Invalid int literal"))),
            }
        },
        Err(_) => {
            proof {
                lemma_took_while_class(s@, take_digit, digit(), s@, Seq::<char>::empty());
            }
            Err(ParserError::newr(s, String::from_str("Invalid int literal")))
        },
    }
}

/// Reads a number, floating point if it has that shape and else integer, and
/// drops the whitespace after it.
pub fn take_numbers(s: String) -> (r: Result<(String, Atom), ParserError>)
    ensures
        outcome(r) == spec_take_numbers(s@),
{
    let found = match take_float(s.clone()) {
        Ok(found) => Ok(found),
        Err(error) => take_int(error.remaining()),
    };
    match found {
        Ok((remaining, number)) => match take_whitespaces0(remaining) {
            Ok((remaining, _)) => Ok((remaining, number)),
            Err(_) => Err(ParserError::new(s)),
        },
        Err(_) => Err(ParserError::new(s)),
    }
}

/// Reads one of the operators `+`, `*`, `/` and `-`, which it tries in this
/// order.
pub fn take_operator(s: String) -> (r: Result<(String, Atom), ParserError>)
    ensures
        outcome(r) == spec_take_operator(s@),
{
    proof {
        reveal_strlit("+");
        reveal_strlit("*");
        reveal_strlit("/");
        reveal_strlit("-");
        assert("+"@ =~= seq!['+']);
        assert("*"@ =~= seq!['*']);
        assert("/"@ =~= seq!['/']);
        assert("-"@ =~= seq!['-']);
        lemma_prefix_of_one(s@, '+');
        lemma_prefix_of_one(s@, '*');
        lemma_prefix_of_one(s@, '/');
        lemma_prefix_of_one(s@, '-');
    }
    let error = match take_str(s, "+") {
        Ok((remaining, _)) => {
            return Ok((remaining, Atom::Op(Operator::new(Lexeme::Add))));
        },
        Err(error) => error,
    };
    let error = match take_str(error.remaining(), "*") {
        Ok((remaining, _)) => {
            return Ok((remaining, Atom::Op(Operator::new(Lexeme::Mul))));
        },
        Err(error) => error,
    };
    let error = match take_str(error.remaining(), "/") {
        Ok((remaining, _)) => {
            return Ok((remaining, Atom::Op(Operator::new(Lexeme::Div))));
        },
        Err(error) => error,
    };
    match take_str(error.remaining(), "-") {
        Ok((remaining, _)) => Ok((remaining, Atom::Op(Operator::new(Lexeme::Sub)))),
        Err(error) => Err(error),
    }
}

/// A number consumes input.
pub proof fn lemma_numbers_consume(s: Seq<char>)
    ensures
        spec_take_numbers(s) matches Ok((rest, number)) ==> rest.len() < s.len() && number is Lit,
{
    lemma_run_len_properties(s, digit());
    let whole = run_len(s, digit());
    lemma_run_len_properties(s.skip(whole + 1 as int), digit());
    match spec_take_float(s) {
        Ok((rest, _)) => {
            lemma_skip_whitespace_shortens(rest);
        },
        Err(_) => match spec_take_int(s) {
            Ok((rest, _)) => {
                lemma_skip_whitespace_shortens(rest);
            },
            Err(_) => {},
        },
    }
}

/// An operator consumes one character and gives an operator token that
/// binds as its text says.
pub proof fn lemma_operator_consumes(s: Seq<char>)
    ensures
        spec_take_operator(s) matches Ok((rest, operator)) ==> {
            &&& rest.len() + 1 == s.len()
            &&& operator matches AtomView::Op(op)
            &&& op.wf()
        },
{
}

} // verus!
