use vstd::prelude::*;

use crate::calculate_error::{Error, ErrorType};
use crate::postfix::{operands_in_range, value_in_range, Oper, Token, Value};

verus! {

/// One arithmetic step of an evaluation: `left oper right`. Its result is
/// `Value::Computed(i)` for the step at index `i` of the plan.
#[derive(Clone, Copy, Debug, PartialEq, Eq, Structural)]
pub struct Step {
    pub oper: Oper,
    pub left: Value,
    pub right: Value,
}

/// The value an operand token carries.
pub open spec fn value_of(t: Token) -> Value {
    match t {
        Token::Operand(v) => v,
        Token::Operator(_) => Value::Number(0),
    }
}

/// The operator an operator token carries.
pub open spec fn oper_of(t: Token) -> Oper {
    match t {
        Token::Operator(o) => o,
        Token::Operand(_) => Oper::Add,
    }
}

/// The position of the first operator of `t` at or after `i`; `t.len()` where there is none.
pub open spec fn first_operator_from(t: Seq<Token>, i: int) -> int
    decreases t.len() - i,
{
    if i >= t.len() {
        t.len() as int
    } else if t[i] is Operator {
        i
    } else {
        first_operator_from(t, i + 1)
    }
}

/// The position of the first operator of `t`; `t.len()` where there is none.
pub open spec fn first_operator(t: Seq<Token>) -> int {
    first_operator_from(t, 0)
}

/// One sweep of the reduction: the first operator is applied to the two operands just before
/// it, and the three tokens give way to the result, the step numbered `next`. A sweep fails
/// where the first operator has fewer than two operands before it, and where there is no
/// operator but two or more operands are left.
pub open spec fn spec_sweep(t: Seq<Token>, next: usize) -> Result<(Seq<Token>, Option<Step>), ErrorType> {
    let k = first_operator(t);
    if k == t.len() {
        if t.len() >= 2 {
            Err(ErrorType::MissedOperation)
        } else {
            Ok((t, None))
        }
    } else if k < 2 {
        Err(ErrorType::MissedOperand)
    } else {
        Ok(
            (
                t.subrange(0, k - 2).push(Token::Operand(Value::Computed(next))) + t.subrange(
                    k + 1,
                    t.len() as int,
                ),
                Some(Step { oper: oper_of(t[k]), left: value_of(t[k - 2]), right: value_of(t[k - 1]) }),
            ),
        )
    }
}

/// The reduction of `t` by sweeps, after the steps `steps`: the steps of the whole evaluation
/// and the value of the expression.
pub open spec fn spec_reduce(t: Seq<Token>, steps: Seq<Step>) -> Result<(Seq<Step>, Value), ErrorType>
    decreases t.len(),
{
    match spec_sweep(t, steps.len() as usize) {
        Err(e) => Err(e),
        Ok((u, step)) => {
            let all = match step {
                Some(s) => steps.push(s),
                None => steps,
            };
            if u.len() > 1 {
                if u.len() < t.len() {
                    spec_reduce(u, all)
                } else {
                    Err(ErrorType::UnknownError)
                }
            } else if u.len() == 0 {
                Err(ErrorType::NotMathExpr)
            } else {
                match u[0] {
                    Token::Operand(v) => Ok((all, v)),
                    Token::Operator(_) => Err(ErrorType::UnknownError),
                }
            }
        }
    }
}

proof fn lemma_first_operator_skips(t: Seq<Token>, a: int, i: int)
    requires
        0 <= a <= i <= t.len(),
        forall|j: int| a <= j < i ==> #[trigger] t[j] is Operand,
    ensures
        first_operator_from(t, a) == first_operator_from(t, i),
    decreases i - a,
{
    if a < i {
        lemma_first_operator_skips(t, a + 1, i);
    }
}

/// A sweep that leaves more than one token has applied an operator, and so shortened the
/// sequence.
proof fn lemma_sweep_shortens(t: Seq<Token>, next: usize)
    requires
        spec_sweep(t, next) is Ok,
        spec_sweep(t, next)->Ok_0.0.len() > 1,
    ensures
        spec_sweep(t, next)->Ok_0.0.len() < t.len(),
{
    let k = first_operator(t);
    assert(0 <= k <= t.len()) by {
        lemma_first_operator_range(t, 0);
    }
}

proof fn lemma_first_operator_range(t: Seq<Token>, i: int)
    requires
        0 <= i,
    ensures
        i <= t.len() ==> i <= first_operator_from(t, i) <= t.len(),
        first_operator_from(t, i) < t.len() ==> t[first_operator_from(t, i)] is Operator,
    decreases t.len() - i,
{
    if i < t.len() {
        lemma_first_operator_range(t, i + 1);
    }
}


/// One sweep of the reduction over `rpn_expr`, whose result, if an operator is applied, is
/// the step numbered `next`.
fn sweep(rpn_expr: &Vec<Token>, next: usize) -> (r: Result<(Vec<Token>, Option<Step>), ErrorType>)
    ensures
        match r {
            Ok((u, step)) => spec_sweep(rpn_expr@, next) == Ok::<_, ErrorType>((u@, step)),
            Err(e) => spec_sweep(rpn_expr@, next) == Err::<(Seq<Token>, Option<Step>), _>(e),
        },
{
    let ghost t = rpn_expr@;
    let mut new_rpn_expr: Vec<Token> = Vec::new();
    let mut left: Option<Value> = None;
    let mut right: Option<Value> = None;
    let mut applied: Option<Step> = None;
    let ghost mut k: int = 0;
    let mut i: usize = 0;
    proof {
        lemma_first_operator_range(t, 0);
    }
    while i < rpn_expr.len()
        invariant
            t == rpn_expr@,
            i <= t.len(),
            applied is None ==> {
                &&& forall|j: int| 0 <= j < i ==> #[trigger] t[j] is Operand
                &&& i == 0 ==> left is None && right is None && new_rpn_expr@.len() == 0
                &&& i == 1 ==> left == Some(value_of(t[0])) && right is None && new_rpn_expr@.len()
                    == 0
                &&& i >= 2 ==> left == Some(value_of(t[i - 2])) && right == Some(
                    value_of(t[i - 1]),
                ) && new_rpn_expr@ == t.subrange(0, i - 2)
            },
            applied is Some ==> {
                &&& 2 <= k < i
                &&& first_operator(t) == k
                &&& applied == Some(
                    Step { oper: oper_of(t[k]), left: value_of(t[k - 2]), right: value_of(t[k - 1]) },
                )
                &&& new_rpn_expr@ == t.subrange(0, k - 2).push(Token::Operand(Value::Computed(next)))
                    + t.subrange(k + 1, i as int)
            },
        decreases t.len() - i,
    {
        let token = rpn_expr[i];
        if applied.is_some() {
            let ghost before = new_rpn_expr@;
            new_rpn_expr.push(token);
            assert(t.subrange(k + 1, i + 1) =~= t.subrange(k + 1, i as int).push(token));
            assert(new_rpn_expr@ =~= t.subrange(0, k - 2).push(Token::Operand(Value::Computed(next)))
                + t.subrange(k + 1, i + 1));
        } else {
            match token {
                Token::Operand(v) => {
                    match left {
                        None => {
                            left = Some(v);
                        },
                        Some(l) => {
                            if right.is_none() {
                                right = Some(v);
                            } else {
                                new_rpn_expr.push(Token::Operand(l));
                                left = right;
                                right = Some(v);
                                assert(new_rpn_expr@ =~= t.subrange(0, i - 1));
                            }
                        },
                    }
                },
                Token::Operator(o) => {
                    proof {
                        lemma_first_operator_skips(t, 0, i as int);
                    }
                    if left.is_none() || right.is_none() {
                        return Err(ErrorType::MissedOperand);
                    }
                    let step = Step { oper: o, left: left.unwrap(), right: right.unwrap() };
                    left = None;
                    right = None;
                    applied = Some(step);
                    new_rpn_expr.push(Token::Operand(Value::Computed(next)));
                    proof {
                        k = i as int;
                    }
                    assert(new_rpn_expr@ =~= t.subrange(0, k - 2).push(
                        Token::Operand(Value::Computed(next)),
                    ) + t.subrange(k + 1, i + 1));
                },
            }
        }
        i = i + 1;
    }
    if applied.is_none() {
        proof {
            lemma_first_operator_skips(t, 0, t.len() as int);
        }
        if right.is_some() {
            return Err(ErrorType::MissedOperation);
        }
        if let Some(l) = left {
            new_rpn_expr.push(Token::Operand(l));
            assert(new_rpn_expr@ =~= t);
        } else {
            assert(new_rpn_expr@ =~= t);
        }
    }
    Ok((new_rpn_expr, applied))
}

/// Reduces a postfix sequence by sweeps until one value is left, and appends the steps of the
/// evaluation to `steps`.
pub fn recursive_calculate(rpn_expr: &Vec<Token>, steps: &mut Vec<Step>) -> (r: Result<Value, Error>)
    ensures
        match r {
            Ok(v) => spec_reduce(rpn_expr@, old(steps)@) == Ok::<_, ErrorType>((final(steps)@, v)),
            Err(e) => spec_reduce(rpn_expr@, old(steps)@) == Err::<(Seq<Step>, Value), _>(e.kind())
                && e.wf(),
        },
    decreases rpn_expr@.len(),
{
    let next = steps.len();
    match sweep(rpn_expr, next) {
        Err(e) => Err(Error::new(e)),
        Ok((new_rpn_expr, applied)) => {
            if let Some(step) = applied {
                steps.push(step);
            }
            if new_rpn_expr.len() > 1 {
                proof {
                    lemma_sweep_shortens(rpn_expr@, next);
                }
                recursive_calculate(&new_rpn_expr, steps)
            } else if new_rpn_expr.len() == 0 {
                Err(Error::new(ErrorType::NotMathExpr))
            } else {
                match new_rpn_expr[0] {
                    Token::Operand(v) => Ok(v),
                    Token::Operator(_) => Err(Error::new(ErrorType::UnknownError)),
                }
            }
        },
    }
}


/// Every step uses numbers among the first `n_numbers` and results of earlier steps only.
pub open spec fn steps_in_order(steps: Seq<Step>, n_numbers: int) -> bool {
    forall|i: int|
        0 <= i < steps.len() ==> value_in_range(#[trigger] steps[i].left, n_numbers, i)
            && value_in_range(steps[i].right, n_numbers, i)
}

proof fn lemma_sweep_keeps(t: Seq<Token>, steps: Seq<Step>, n: int)
    requires
        operands_in_range(t, n, steps.len() as int),
        steps_in_order(steps, n),
        spec_sweep(t, steps.len() as usize) is Ok,
    ensures
        ({
            let (u, step) = spec_sweep(t, steps.len() as usize)->Ok_0;
            let all = match step {
                Some(s) => steps.push(s),
                None => steps,
            };
            operands_in_range(u, n, all.len() as int) && steps_in_order(all, n)
        }),
{
    let k = first_operator(t);
    lemma_first_operator_range(t, 0);
    if k < t.len() {
        let (u, step) = spec_sweep(t, steps.len() as usize)->Ok_0;
        let all = steps.push(step.unwrap());
        assert(t[k - 2] is Operand && t[k - 1] is Operand) by {
            lemma_first_operator_before(t, 0, k - 2);
            lemma_first_operator_before(t, 0, k - 1);
        }
        assert forall|i: int| 0 <= i < all.len() implies value_in_range(
            #[trigger] all[i].left,
            n,
            i,
        ) && value_in_range(all[i].right, n, i) by {
            if i < steps.len() {
                assert(all[i] == steps[i]);
            }
        }
        assert forall|i: int| 0 <= i < u.len() && #[trigger] u[i] is Operand implies value_in_range(
            u[i]->Operand_0,
            n,
            all.len() as int,
        ) by {
            if i < k - 2 {
                assert(u[i] == t[i]);
            } else if i > k - 2 {
                assert(u[i] == t[i + 2]);
            }
        }
    }
}

proof fn lemma_first_operator_before(t: Seq<Token>, a: int, j: int)
    requires
        0 <= a <= j < first_operator_from(t, a),
        first_operator_from(t, a) <= t.len(),
    ensures
        t[j] is Operand,
    decreases j - a,
{
    if a < j {
        lemma_first_operator_before(t, a + 1, j);
    }
}

/// A reduction refers only to the numbers the postfix sequence refers to, and each step only
/// to results of earlier steps.
pub proof fn lemma_reduce_ok(t: Seq<Token>, steps: Seq<Step>, n: int)
    requires
        operands_in_range(t, n, steps.len() as int),
        steps_in_order(steps, n),
        spec_reduce(t, steps) is Ok,
    ensures
        steps_in_order(spec_reduce(t, steps)->Ok_0.0, n),
        value_in_range(
            spec_reduce(t, steps)->Ok_0.1,
            n,
            spec_reduce(t, steps)->Ok_0.0.len() as int,
        ),
    decreases t.len(),
{
    lemma_sweep_keeps(t, steps, n);
    let (u, step) = spec_sweep(t, steps.len() as usize)->Ok_0;
    let all = match step {
        Some(s) => steps.push(s),
        None => steps,
    };
    if u.len() > 1 {
        lemma_reduce_ok(u, all, n);
    } else {
        assert(u[0] is Operand);
    }
}

} // verus!
