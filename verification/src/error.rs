//! The two failure classes of the engine: a production that did not match,
//! and a postfix sequence that could not be evaluated.
use crate::math::{Lexeme, Type};
use vstd::prelude::*;

verus! {

/// What a [`ParserError`] stands for: the input left at the point of failure
/// and the diagnostic, if there is one.
pub struct ParserErrorView {
    pub remaining: Seq<char>,
    pub reason: Option<Seq<char>>,
}

/// A production did not match. The failure carries the input that was left
/// where it happened, so that a caller can try another production from there.
#[derive(Debug, PartialEq)]
pub struct ParserError {
    remaining: String,
    reason: Option<String>,
}

impl View for ParserError {
    type V = ParserErrorView;

    closed spec fn view(&self) -> ParserErrorView {
        ParserErrorView {
            remaining: self.remaining@,
            reason: match self.reason {
                Some(r) => Some(r@),
                None => None,
            },
        }
    }
}

/// What a production gives: the input that is left with the value read, or a
/// failure.
pub type Parsed<T> = Result<(Seq<char>, T), ParserErrorView>;

/// A failure at `remaining` without a diagnostic.
pub open spec fn failure(remaining: Seq<char>) -> ParserErrorView {
    ParserErrorView { remaining, reason: None }
}

/// A failure at `remaining` with the diagnostic `reason`.
pub open spec fn failure_because(remaining: Seq<char>, reason: Seq<char>) -> ParserErrorView {
    ParserErrorView { remaining, reason: Some(reason) }
}

impl Clone for ParserError {
    fn clone(&self) -> (e: Self)
        ensures
            e@ == self@,
    {
        Self { remaining: self.remaining.clone(), reason: self.reason() }
    }
}

impl ParserError {
    /// A failure at `remaining` without a diagnostic.
    pub fn new(remaining: String) -> (e: Self)
        ensures
            e@ == failure(remaining@),
    {
        Self { remaining, reason: None }
    }

    /// A failure at `remaining` with the diagnostic `reason`.
    pub fn newr(remaining: String, reason: String) -> (e: Self)
        ensures
            e@ == failure_because(remaining@, reason@),
    {
        Self { remaining, reason: Some(reason) }
    }

    /// The input that was left where the failure happened.
    pub fn remaining(&self) -> (r: String)
        ensures
            r@ == self@.remaining,
    {
        self.remaining.clone()
    }

    /// The diagnostic, if there is one.
    pub fn reason(&self) -> (r: Option<String>)
        ensures
            match r {
                Some(text) => self@.reason == Some(text@),
                None => self@.reason is None,
            },
    {
        match &self.reason {
            Some(text) => Some(text.clone()),
            None => None,
        }
    }
}

/// What an [`EvalError`] stands for.
pub enum EvalErrorView {
    UndefinedVariable(Seq<char>),
    TypeMismatch { operator: Lexeme, left: Type, right: Type },
    InvalidExpression,
}

/// A token sequence could not be evaluated.
#[derive(Debug, PartialEq)]
pub enum EvalError {
    /// A variable is read that the environment does not bind.
    UndefinedVariable(String),
    /// An operator stands between a floating-point operand and an integer one.
    TypeMismatch { operator: Lexeme, left: Type, right: Type },
    /// The sequence does not have the shape of an expression.
    InvalidExpression,
}

impl View for EvalError {
    type V = EvalErrorView;

    open spec fn view(&self) -> EvalErrorView {
        match self {
            EvalError::UndefinedVariable(name) => EvalErrorView::UndefinedVariable(name@),
            EvalError::TypeMismatch { operator, left, right } => EvalErrorView::TypeMismatch {
                operator: *operator,
                left: *left,
                right: *right,
            },
            EvalError::InvalidExpression => EvalErrorView::InvalidExpression,
        }
    }
}

impl Clone for EvalError {
    fn clone(&self) -> (e: Self)
        ensures
            e@ == self@,
    {
        match self {
            EvalError::UndefinedVariable(name) => EvalError::UndefinedVariable(name.clone()),
            EvalError::TypeMismatch { operator, left, right } => EvalError::TypeMismatch {
                operator: *operator,
                left: *left,
                right: *right,
            },
            EvalError::InvalidExpression => EvalError::InvalidExpression,
        }
    }
}

/// What a [`Failure`] stands for.
pub enum FailureView {
    Parse(ParserErrorView),
    Evaluation(EvalErrorView),
}

/// Why a line gave no value.
#[derive(Debug, PartialEq)]
pub enum Failure {
    Parse(ParserError),
    Evaluation(EvalError),
}

impl View for Failure {
    type V = FailureView;

    open spec fn view(&self) -> FailureView {
        match self {
            Failure::Parse(e) => FailureView::Parse(e@),
            Failure::Evaluation(e) => FailureView::Evaluation(e@),
        }
    }
}

impl Clone for Failure {
    fn clone(&self) -> (e: Self)
        ensures
            e@ == self@,
    {
        match self {
            Failure::Parse(e) => Failure::Parse(e.clone()),
            Failure::Evaluation(e) => Failure::Evaluation(e.clone()),
        }
    }
}

} // verus!
