use vstd::prelude::*;

use crate::calculate_error::{Error, ErrorType};
use crate::postfix::{
    all_number_literals,
    convert,
    lemma_convert_ok,
    spec_convert,
    value_in_range,
    Value,
};
use crate::reduce::{lemma_reduce_ok, recursive_calculate, spec_reduce, steps_in_order, Step};
use crate::validate::{
    are_brackets_agreed,
    is_expr_char,
    is_math_expr,
    spec_brackets_agreed,
    spec_is_math_expr,
};

verus! {

/// How to evaluate an expression: the texts of its numbers, in the order they are written,
/// the arithmetic steps in the order they are to be done, and the value that is the result.
pub struct Plan {
    pub numbers: Vec<Vec<char>>,
    pub steps: Vec<Step>,
    pub result: Value,
}

impl Plan {
    pub open spec fn view(&self) -> (Seq<Seq<char>>, Seq<Step>, Value) {
        (self.numbers@.map_values(|t: Vec<char>| t@), self.steps@, self.result)
    }

    pub open spec fn wf(&self) -> bool {
        plan_in_order(self@)
    }
}

/// Every number of the plan is well written, every step uses numbers of the plan and results
/// of earlier steps only, and the result is one of these values.
pub open spec fn plan_in_order(p: (Seq<Seq<char>>, Seq<Step>, Value)) -> bool {
    let (numbers, steps, result) = p;
    &&& all_number_literals(numbers)
    &&& steps_in_order(steps, numbers.len() as int)
    &&& value_in_range(result, numbers.len() as int, steps.len() as int)
}

/// What an evaluation of `s` comes to: its plan, or the kind of error that stops it. The text
/// is checked for its characters, then for its brackets, then converted to postfix form, which
/// is reduced.
pub open spec fn spec_plan(s: Seq<char>) -> Result<(Seq<Seq<char>>, Seq<Step>, Value), ErrorType> {
    if !spec_is_math_expr(s) {
        Err(ErrorType::NotMathExpr)
    } else if !spec_brackets_agreed(s) {
        Err(ErrorType::BracketsNotAgreed)
    } else {
        match spec_convert(s) {
            Err(e) => Err(e),
            Ok((tokens, numbers)) => match spec_reduce(tokens, Seq::empty()) {
                Err(e) => Err(e),
                Ok((steps, result)) => Ok((numbers, steps, result)),
            },
        }
    }
}

/// The plan or the kind of error that a result holds.
pub open spec fn outcome(r: Result<Plan, Error>) -> Result<(Seq<Seq<char>>, Seq<Step>, Value), ErrorType> {
    match r {
        Ok(p) => Ok(p@),
        Err(e) => Err(e.kind()),
    }
}

/// Works out how to evaluate the arithmetic expression in `message`, or why it cannot be.
pub fn plan_calculation(message: &String) -> (r: Result<Plan, Error>)
    ensures
        outcome(r) == spec_plan(message@),
        r is Ok ==> r->Ok_0.wf(),
        r is Err ==> r->Err_0.wf(),
{
    if !is_math_expr(message) {
        return Err(Error::new(ErrorType::NotMathExpr));
    }
    if !are_brackets_agreed(message) {
        return Err(Error::new(ErrorType::BracketsNotAgreed));
    }
    let postfix = match convert(message) {
        Ok(p) => p,
        Err(e) => {
            return Err(e);
        },
    };
    let mut steps: Vec<Step> = Vec::new();
    match recursive_calculate(&postfix.tokens, &mut steps) {
        Ok(result) => {
            let plan = Plan { numbers: postfix.numbers, steps, result };
            proof {
                lemma_plan_in_order(message@);
            }
            Ok(plan)
        },
        Err(e) => Err(e),
    }
}

/// Every plan is in order: its numbers are well written, and its steps and its result refer
/// only to its numbers and to results of earlier steps.
pub proof fn lemma_plan_in_order(s: Seq<char>)
    requires
        spec_plan(s) is Ok,
    ensures
        plan_in_order(spec_plan(s)->Ok_0),
{
    let (tokens, numbers) = spec_convert(s)->Ok_0;
    lemma_convert_ok(s);
    lemma_reduce_ok(tokens, Seq::empty(), numbers.len() as int);
}

/// A text with a character that no arithmetic expression holds is no mathematical
/// expression.
pub proof fn lemma_foreign_character(s: Seq<char>, i: int)
    requires
        0 <= i < s.len(),
        !is_expr_char(s[i]),
    ensures
        spec_plan(s) == Err::<(Seq<Seq<char>>, Seq<Step>, Value), _>(ErrorType::NotMathExpr),
{
}

/// A text of expression characters whose brackets are not agreed (more of one kind than of
/// the other, or a `)` before its `(`) fails on its brackets, before any arithmetic.
pub proof fn lemma_brackets_not_agreed(s: Seq<char>)
    requires
        spec_is_math_expr(s),
        !spec_brackets_agreed(s),
    ensures
        spec_plan(s) == Err::<(Seq<Seq<char>>, Seq<Step>, Value), _>(ErrorType::BracketsNotAgreed),
{
}

/// Evaluation keeps no state between calls: two evaluations of the same text come to the
/// same plan or the same error.
pub proof fn lemma_same_text_same_outcome(
    s: Seq<char>,
    r1: Result<Plan, Error>,
    r2: Result<Plan, Error>,
)
    requires
        outcome(r1) == spec_plan(s),
        outcome(r2) == spec_plan(s),
    ensures
        outcome(r1) == outcome(r2),
{
}

} // verus!
