//! Floating-point values. The library decides the kind of every result and
//! says of every floating-point one how it is computed, and does no
//! floating-point arithmetic itself.
use crate::math::Lexeme;
use vstd::prelude::*;

verus! {

/// What a [`Float`] stands for: the term that denotes the value.
pub enum FloatView {
    /// The value with these bits in the binary interchange format of 32 bits.
    Bits(u32),
    /// The value nearest to a decimal literal, given by its text.
    Decimal(Seq<char>),
    /// A signed integer converted to floating point.
    FromI32(i32),
    /// An unsigned integer converted to floating point.
    FromU32(u32),
    /// An arithmetic operation on two floating-point values.
    Binary(Lexeme, Box<FloatView>, Box<FloatView>),
}

/// What a [`FloatStep`] stands for.
pub enum FloatStepView {
    Bits(u32),
    Decimal(Seq<char>),
    FromI32(i32),
    FromU32(u32),
    Apply(Lexeme),
}

/// One step of the computation of a floating-point value on a stack: a step
/// puts a value on the stack, or applies an operator to the two topmost
/// values, the lower of them on its left, and puts the result in their place.
#[derive(Debug, PartialEq)]
pub enum FloatStep {
    /// The value with these bits in the binary interchange format of 32 bits.
    Bits(u32),
    /// The value nearest to a decimal literal, given by its text.
    Decimal(String),
    /// A signed integer converted to floating point.
    FromI32(i32),
    /// An unsigned integer converted to floating point.
    FromU32(u32),
    /// An arithmetic operation on the two topmost values.
    Apply(Lexeme),
}

impl View for FloatStep {
    type V = FloatStepView;

    open spec fn view(&self) -> FloatStepView {
        match self {
            FloatStep::Bits(bits) => FloatStepView::Bits(*bits),
            FloatStep::Decimal(text) => FloatStepView::Decimal(text@),
            FloatStep::FromI32(v) => FloatStepView::FromI32(*v),
            FloatStep::FromU32(v) => FloatStepView::FromU32(*v),
            FloatStep::Apply(op) => FloatStepView::Apply(*op),
        }
    }
}

impl Clone for FloatStep {
    fn clone(&self) -> (r: Self)
        ensures
            r@ == self@,
    {
        match self {
            FloatStep::Bits(bits) => FloatStep::Bits(*bits),
            FloatStep::Decimal(text) => FloatStep::Decimal(text.clone()),
            FloatStep::FromI32(v) => FloatStep::FromI32(*v),
            FloatStep::FromU32(v) => FloatStep::FromU32(*v),
            FloatStep::Apply(op) => FloatStep::Apply(*op),
        }
    }
}

/// What a sequence of steps stands for.
pub open spec fn steps_view(steps: Seq<FloatStep>) -> Seq<FloatStepView> {
    Seq::new(steps.len(), |i: int| steps[i]@)
}

/// The terms on the stack after one step, or nothing where the step is an
/// operator and finds fewer than two terms.
pub open spec fn terms_after_step(stack: Seq<FloatView>, step: FloatStepView) -> Option<
    Seq<FloatView>,
> {
    match step {
        FloatStepView::Bits(bits) => Some(stack.push(FloatView::Bits(bits))),
        FloatStepView::Decimal(text) => Some(stack.push(FloatView::Decimal(text))),
        FloatStepView::FromI32(v) => Some(stack.push(FloatView::FromI32(v))),
        FloatStepView::FromU32(v) => Some(stack.push(FloatView::FromU32(v))),
        FloatStepView::Apply(op) => if stack.len() < 2 {
            None
        } else {
            Some(
                stack.take(stack.len() - 2).push(
                    FloatView::Binary(
                        op,
                        Box::new(stack[stack.len() - 2]),
                        Box::new(stack[stack.len() - 1]),
                    ),
                ),
            )
        },
    }
}

/// The terms on the stack after the steps, starting from `stack`.
pub open spec fn terms_after(stack: Seq<FloatView>, steps: Seq<FloatStepView>) -> Option<
    Seq<FloatView>,
>
    decreases steps.len(),
{
    if steps.len() == 0 {
        Some(stack)
    } else {
        match terms_after(stack, steps.drop_last()) {
            Some(before) => terms_after_step(before, steps.last()),
            None => None,
        }
    }
}

/// The term that the steps compute: the one that they leave alone on a stack
/// that was empty, if they do.
pub open spec fn term_of(steps: Seq<FloatStepView>) -> Option<FloatView> {
    match terms_after(Seq::empty(), steps) {
        Some(stack) => if stack.len() == 1 {
            Some(stack[0])
        } else {
            None
        },
        None => None,
    }
}

/// Doing `first` and then `second` is doing the two one after the other.
pub proof fn lemma_terms_in_two(
    stack: Seq<FloatView>,
    first: Seq<FloatStepView>,
    second: Seq<FloatStepView>,
)
    ensures
        terms_after(stack, first + second) == match terms_after(stack, first) {
            Some(between) => terms_after(between, second),
            None => None,
        },
    decreases second.len(),
{
    if second.len() == 0 {
        assert(first + second =~= first);
    } else {
        assert((first + second).drop_last() =~= first + second.drop_last());
        lemma_terms_in_two(stack, first, second.drop_last());
    }
}

/// Steps that leave terms on an empty stack leave the same terms on top of
/// any stack.
pub proof fn lemma_terms_on_top(stack: Seq<FloatView>, steps: Seq<FloatStepView>)
    requires
        terms_after(Seq::empty(), steps) is Some,
    ensures
        terms_after(stack, steps) == Some(stack + terms_after(Seq::empty(), steps)->Some_0),
    decreases steps.len(),
{
    if steps.len() == 0 {
        assert(stack + Seq::<FloatView>::empty() =~= stack);
    } else {
        lemma_terms_on_top(stack, steps.drop_last());
        let alone = terms_after(Seq::empty(), steps.drop_last())->Some_0;
        let onto = stack + alone;
        match steps.last() {
            FloatStepView::Apply(op) => {
                let term = FloatView::Binary(
                    op,
                    Box::new(alone[alone.len() - 2]),
                    Box::new(alone[alone.len() - 1]),
                );
                assert(onto[onto.len() - 2] == alone[alone.len() - 2]);
                assert(onto[onto.len() - 1] == alone[alone.len() - 1]);
                assert(onto.take(onto.len() - 2).push(term) =~= stack + alone.take(
                    alone.len() - 2,
                ).push(term));
            },
            FloatStepView::Bits(bits) => {
                assert(onto.push(FloatView::Bits(bits)) =~= stack + alone.push(
                    FloatView::Bits(bits),
                ));
            },
            FloatStepView::Decimal(text) => {
                assert(onto.push(FloatView::Decimal(text)) =~= stack + alone.push(
                    FloatView::Decimal(text),
                ));
            },
            FloatStepView::FromI32(v) => {
                assert(onto.push(FloatView::FromI32(v)) =~= stack + alone.push(
                    FloatView::FromI32(v),
                ));
            },
            FloatStepView::FromU32(v) => {
                assert(onto.push(FloatView::FromU32(v)) =~= stack + alone.push(
                    FloatView::FromU32(v),
                ));
            },
        }
    }
}

/// The steps of two terms and then an operator compute the operation on the
/// two terms.
pub proof fn lemma_term_of_an_operation(
    op: Lexeme,
    left: Seq<FloatStepView>,
    right: Seq<FloatStepView>,
)
    requires
        term_of(left) is Some,
        term_of(right) is Some,
    ensures
        term_of(left + right + seq![FloatStepView::Apply(op)]) == Some(
            FloatView::Binary(
                op,
                Box::new(term_of(left)->Some_0),
                Box::new(term_of(right)->Some_0),
            ),
        ),
{
    let empty = Seq::<FloatView>::empty();
    let a = term_of(left)->Some_0;
    let b = term_of(right)->Some_0;
    let apply = seq![FloatStepView::Apply(op)];
    lemma_terms_in_two(empty, left + right, apply);
    lemma_terms_in_two(empty, left, right);
    assert(terms_after(empty, left)->Some_0 =~= seq![a]);
    lemma_terms_on_top(seq![a], right);
    assert(terms_after(empty, right)->Some_0 =~= seq![b]);
    let both = seq![a] + seq![b];
    assert(terms_after(empty, left + right) == Some(both));
    assert(apply.drop_last() =~= Seq::<FloatStepView>::empty());
    assert(terms_after(both, apply.drop_last()) == Some(both));
    assert(both.take(0).push(FloatView::Binary(op, Box::new(a), Box::new(b))) =~= seq![
        FloatView::Binary(op, Box::new(a), Box::new(b)),
    ]);
}

/// A 32-bit floating-point value, held as the steps that compute it, in the
/// order in which a stack machine takes them: the steps of the left operand,
/// those of the right operand, and the operator. They always compute one
/// term, which is what the value stands for. Whoever wants the value does
/// the steps in 32-bit floating-point arithmetic.
#[derive(Debug, PartialEq)]
pub struct Float {
    steps: Vec<FloatStep>,
}

impl View for Float {
    type V = FloatView;

    closed spec fn view(&self) -> FloatView {
        term_of(steps_view(self.steps@))->Some_0
    }
}

impl Float {
    /// Every value holds steps that compute one term.
    #[verifier::type_invariant]
    spec fn computes_a_term(self) -> bool {
        term_of(steps_view(self.steps@)) is Some
    }

    /// The value that one step puts on the stack.
    fn leaf(step: FloatStep) -> (f: Float)
        requires
            !(step is Apply),
        ensures
            term_of(seq![step@]) == Some(f@),
    {
        let mut steps: Vec<FloatStep> = Vec::new();
        steps.push(step);
        proof {
            let one = steps_view(steps@);
            assert(one =~= seq![step@]);
            assert(one.drop_last() =~= Seq::<FloatStepView>::empty());
            assert(terms_after(Seq::empty(), one.drop_last()) == Some(Seq::<FloatView>::empty()));
        }
        Float { steps }
    }

    /// The value with these bits in the binary interchange format of 32 bits.
    pub fn bits(bits: u32) -> (f: Float)
        ensures
            f@ == FloatView::Bits(bits),
    {
        Float::leaf(FloatStep::Bits(bits))
    }

    /// The value nearest to the decimal literal with this text. The text is
    /// taken as it is: it is for whoever does the steps to say what a text is
    /// worth that is no literal.
    pub fn decimal(text: String) -> (f: Float)
        ensures
            f@ == FloatView::Decimal(text@),
    {
        Float::leaf(FloatStep::Decimal(text))
    }

    /// The signed integer `v` converted to floating point.
    pub fn from_i32(v: i32) -> (f: Float)
        ensures
            f@ == FloatView::FromI32(v),
    {
        Float::leaf(FloatStep::FromI32(v))
    }

    /// The unsigned integer `v` converted to floating point.
    pub fn from_u32(v: u32) -> (f: Float)
        ensures
            f@ == FloatView::FromU32(v),
    {
        Float::leaf(FloatStep::FromU32(v))
    }

    /// `op` applied to `lhs` and `rhs`.
    pub fn binary(op: Lexeme, lhs: Float, rhs: Float) -> (f: Float)
        ensures
            f@ == FloatView::Binary(op, Box::new(lhs@), Box::new(rhs@)),
    {
        proof {
            use_type_invariant(&lhs);
            use_type_invariant(&rhs);
        }
        let ghost left = steps_view(lhs.steps@);
        let ghost right = steps_view(rhs.steps@);
        let mut steps = lhs.steps;
        let mut others = rhs.steps;
        steps.append(&mut others);
        steps.push(FloatStep::Apply(op));
        proof {
            assert(steps_view(steps@) =~= left + right + seq![FloatStepView::Apply(op)]);
            lemma_term_of_an_operation(op, left, right);
        }
        Float { steps }
    }

    /// The steps that compute the value.
    pub fn steps(&self) -> (steps: &Vec<FloatStep>)
        ensures
            term_of(steps_view(steps@)) == Some(self@),
    {
        proof {
            use_type_invariant(self);
        }
        &self.steps
    }
}

impl Clone for Float {
    fn clone(&self) -> (r: Self)
        ensures
            r@ == self@,
    {
        proof {
            use_type_invariant(self);
        }
        let mut steps: Vec<FloatStep> = Vec::new();
        let mut i: usize = 0;
        while i < self.steps.len()
            invariant
                i <= self.steps.len(),
                steps@.len() == i,
                forall|j: int| 0 <= j < i ==> (#[trigger] steps@[j])@ == self.steps@[j]@,
            decreases self.steps.len() - i,
        {
            steps.push(self.steps[i].clone());
            i += 1;
        }
        assert(steps_view(steps@) =~= steps_view(self.steps@));
        Float { steps }
    }
}

} // verus!
