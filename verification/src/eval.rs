//! The postfix evaluator: a stack machine over the tokens in postfix order.
use crate::env::Environment;
use crate::error::{EvalError, EvalErrorView};
use crate::math::{
    expr_view, spec_apply, type_check_op, Atom, AtomView, Expr, Literal, Number, NumberView,
};
use vstd::prelude::*;

verus! {

/// The values that a sequence of numbers stands for.
pub open spec fn numbers_view(numbers: Seq<Number>) -> Seq<NumberView> {
    Seq::new(numbers.len(), |i: int| numbers[i]@)
}

/// One step of the stack machine: a literal is pushed, a variable is looked
/// up and pushed, and an operator replaces the two topmost operands, the
/// lower of them on its left, by its result.
pub open spec fn eval_step(
    stack: Seq<NumberView>,
    token: AtomView,
    env: Map<Seq<char>, NumberView>,
) -> Result<Seq<NumberView>, EvalErrorView> {
    match token {
        AtomView::Lit(n) => Ok(stack.push(n)),
        AtomView::Var(name) => if env.contains_key(name) {
            Ok(stack.push(env[name]))
        } else {
            Err(EvalErrorView::UndefinedVariable(name))
        },
        AtomView::Op(op) => if stack.len() < 2 {
            Err(EvalErrorView::InvalidExpression)
        } else {
            match spec_apply(op.lexeme, stack[stack.len() - 2], stack[stack.len() - 1]) {
                Ok(v) => Ok(stack.take(stack.len() - 2).push(v)),
                Err(e) => Err(e),
            }
        },
        AtomView::Parens(_) => Err(EvalErrorView::InvalidExpression),
    }
}

/// The operand stack after the tokens have been walked from left to right,
/// starting from `stack`, or the first failure on the way.
pub open spec fn eval_from(
    stack: Seq<NumberView>,
    tokens: Seq<AtomView>,
    env: Map<Seq<char>, NumberView>,
) -> Result<Seq<NumberView>, EvalErrorView>
    decreases tokens.len(),
{
    if tokens.len() == 0 {
        Ok(stack)
    } else {
        match eval_from(stack, tokens.drop_last(), env) {
            Ok(stack) => eval_step(stack, tokens.last(), env),
            Err(e) => Err(e),
        }
    }
}

/// The operand stack after the tokens have been walked from left to right,
/// starting from an empty stack, or the first failure on the way.
pub open spec fn eval_stack(tokens: Seq<AtomView>, env: Map<Seq<char>, NumberView>) -> Result<
    Seq<NumberView>,
    EvalErrorView,
> {
    eval_from(Seq::empty(), tokens, env)
}

/// The value of a postfix sequence: what is alone on the stack at its end.
pub open spec fn spec_eval_postfix(
    tokens: Seq<AtomView>,
    env: Map<Seq<char>, NumberView>,
) -> Result<NumberView, EvalErrorView> {
    match eval_stack(tokens, env) {
        Ok(stack) => if stack.len() == 1 {
            Ok(stack[0])
        } else {
            Err(EvalErrorView::InvalidExpression)
        },
        Err(e) => Err(e),
    }
}

/// What the evaluator's result stands for.
pub open spec fn evaluated(r: Result<Number, EvalError>) -> Result<NumberView, EvalErrorView> {
    match r {
        Ok(value) => Ok(value@),
        Err(e) => Err(e@),
    }
}

/// A failure on a prefix of the tokens is the failure of the whole.
pub proof fn lemma_eval_stack_fails_from_prefix(
    tokens: Seq<AtomView>,
    env: Map<Seq<char>, NumberView>,
    n: int,
)
    requires
        0 <= n <= tokens.len(),
        eval_stack(tokens.take(n), env) is Err,
    ensures
        eval_stack(tokens, env) == eval_stack(tokens.take(n), env),
    decreases tokens.len() - n,
{
    if n == tokens.len() {
        assert(tokens.take(n) =~= tokens);
    } else {
        assert(tokens.take(n + 1).drop_last() =~= tokens.take(n));
        lemma_eval_stack_fails_from_prefix(tokens, env, n + 1);
    }
}

/// Evaluates a postfix token sequence over the variables, which it leaves
/// as they are.
pub fn eval_postfix(vec: Expr, variables: &mut Environment) -> (r: Result<Number, EvalError>)
    ensures
        evaluated(r) == spec_eval_postfix(expr_view(vec@), old(variables)@),
        final(variables)@ == old(variables)@,
{
    let ghost tokens = expr_view(vec@);
    let ghost env = variables@;
    let mut stack: Vec<Number> = Vec::new();
    assert(numbers_view(stack@) =~= Seq::<NumberView>::empty());
    for atom in iter: vec.into_iter()
        invariant
            iter.seq() == vec@,
            tokens == expr_view(vec@),
            env == variables@,
            variables@ == old(variables)@,
            eval_stack(tokens.take(iter.index() as int), env) == Ok::<
                Seq<NumberView>,
                EvalErrorView,
            >(numbers_view(stack@)),
    {
        let ghost i = iter.index() as int;
        let ghost before = numbers_view(stack@);
        assert(tokens.take(i + 1).drop_last() =~= tokens.take(i));
        match atom {
            Atom::Lit(Literal::Num(n)) => {
                stack.push(n);
                assert(numbers_view(stack@) =~= before.push(n@));
            },
            Atom::Var(name) => match variables.get(name.as_str()) {
                Some(value) => {
                    stack.push(value);
                    assert(numbers_view(stack@) =~= before.push(env[name@]));
                },
                None => {
                    proof {
                        lemma_eval_stack_fails_from_prefix(tokens, env, i + 1);
                    }
                    return Err(EvalError::UndefinedVariable(name));
                },
            },
            Atom::Op(op) => {
                if stack.len() < 2 {
                    proof {
                        lemma_eval_stack_fails_from_prefix(tokens, env, i + 1);
                    }
                    return Err(EvalError::InvalidExpression);
                }
                let operand2 = stack.pop().unwrap();
                let operand1 = stack.pop().unwrap();
                match type_check_op(&operand1, op.lexeme, &operand2) {
                    Ok(_) => {
                        let value = operand1.combine(op.lexeme, operand2);
                        stack.push(value);
                        assert(numbers_view(stack@) =~= before.take(before.len() - 2).push(
                            value@,
                        ));
                    },
                    Err(e) => {
                        proof {
                            lemma_eval_stack_fails_from_prefix(tokens, env, i + 1);
                        }
                        return Err(e);
                    },
                }
            },
            Atom::Parens(_) => {
                proof {
                    lemma_eval_stack_fails_from_prefix(tokens, env, i + 1);
                }
                return Err(EvalError::InvalidExpression);
            },
        }
    }
    assert(tokens.take(vec@.len() as int) =~= tokens);
    if stack.len() == 1 {
        let value = stack.pop().unwrap();
        Ok(value)
    } else {
        Err(EvalError::InvalidExpression)
    }
}

/// Walking `first` and then `second` is walking the two one after the other.
pub proof fn lemma_eval_in_two(
    stack: Seq<NumberView>,
    first: Seq<AtomView>,
    second: Seq<AtomView>,
    env: Map<Seq<char>, NumberView>,
)
    ensures
        eval_from(stack, first + second, env) == match eval_from(stack, first, env) {
            Ok(between) => eval_from(between, second, env),
            Err(e) => Err(e),
        },
    decreases second.len(),
{
    if second.len() > 0 {
        assert((first + second).drop_last() =~= first + second.drop_last());
        lemma_eval_in_two(stack, first, second.drop_last(), env);
    }
}

/// Walking one token is one step of the machine.
pub proof fn lemma_eval_one(
    stack: Seq<NumberView>,
    token: AtomView,
    env: Map<Seq<char>, NumberView>,
)
    ensures
        eval_from(stack, seq![token], env) == eval_step(stack, token, env),
{
    let one = seq![token];
    assert(eval_from(stack, one.drop_last(), env) == Ok::<Seq<NumberView>, EvalErrorView>(stack));
}

/// A postfix sequence that leaves numbers on an empty stack leaves the same
/// numbers on top of any stack.
pub proof fn lemma_eval_on_top(
    stack: Seq<NumberView>,
    tokens: Seq<AtomView>,
    env: Map<Seq<char>, NumberView>,
)
    requires
        eval_stack(tokens, env) is Ok,
    ensures
        eval_from(stack, tokens, env) == Ok::<Seq<NumberView>, EvalErrorView>(
            stack + eval_stack(tokens, env)->Ok_0,
        ),
    decreases tokens.len(),
{
    if tokens.len() > 0 {
        lemma_eval_on_top(stack, tokens.drop_last(), env);
        let alone = eval_stack(tokens.drop_last(), env)->Ok_0;
        let onto = stack + alone;
        if let AtomView::Op(op) = tokens.last() {
            let v = spec_apply(op.lexeme, alone[alone.len() - 2], alone[alone.len() - 1])->Ok_0;
            assert(onto.take(onto.len() - 2).push(v) =~= stack + alone.take(alone.len() - 2).push(
                v,
            ));
        }
    }
}

} // verus!
