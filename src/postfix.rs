use vstd::prelude::*;

use crate::calculate_error::{Error, ErrorType};
use crate::validate::is_white_space;

verus! {

/// A binary arithmetic operator.
#[derive(Clone, Copy, Debug, PartialEq, Eq, Structural)]
pub enum Oper {
    Add,
    Sub,
    Mult,
    Div,
    Rem,
    Exp,
}

impl Oper {
    /// Operators of higher priority bind more tightly.
    pub open spec fn priority(self) -> u8 {
        match self {
            Oper::Add | Oper::Sub => 1,
            Oper::Mult | Oper::Div | Oper::Rem => 2,
            Oper::Exp => 3,
        }
    }

    pub fn get_priority(&self) -> (r: u8)
        ensures
            r == self.priority(),
    {
        match self {
            Oper::Add => 1,
            Oper::Sub => 1,
            Oper::Mult => 2,
            Oper::Div => 2,
            Oper::Rem => 2,
            Oper::Exp => 3,
        }
    }
}

/// The operator that a character stands for, if any.
pub open spec fn spec_operator_of(c: char) -> Option<Oper> {
    if c == '+' {
        Some(Oper::Add)
    } else if c == '-' {
        Some(Oper::Sub)
    } else if c == '*' {
        Some(Oper::Mult)
    } else if c == '/' {
        Some(Oper::Div)
    } else if c == '%' {
        Some(Oper::Rem)
    } else if c == '^' {
        Some(Oper::Exp)
    } else {
        None
    }
}

fn operator_of(c: char) -> (r: Option<Oper>)
    ensures
        r == spec_operator_of(c),
{
    if c == '+' {
        Some(Oper::Add)
    } else if c == '-' {
        Some(Oper::Sub)
    } else if c == '*' {
        Some(Oper::Mult)
    } else if c == '/' {
        Some(Oper::Div)
    } else if c == '%' {
        Some(Oper::Rem)
    } else if c == '^' {
        Some(Oper::Exp)
    } else {
        None
    }
}

/// A value of the expression: the number written at some position (counted from zero,
/// in the order the numbers appear), or the result of some step of the reduction.
#[derive(Clone, Copy, Debug, PartialEq, Eq, Structural)]
pub enum Value {
    Number(usize),
    Computed(usize),
}

/// An item of a postfix sequence.
#[derive(Clone, Copy, Debug, PartialEq, Eq, Structural)]
pub enum Token {
    Operand(Value),
    Operator(Oper),
}

/// An entry of the converter's operator stack: an operator waiting for its right operand,
/// or the mark of an open bracket.
#[derive(Clone, Copy, Debug, PartialEq, Eq, Structural)]
pub enum Pending {
    Operator(Oper),
    Bracket,
}

/// The most characters a number may be written with.
pub const MAX_OPERAND_LEN: usize = 15;

pub open spec fn is_ascii_digit(c: char) -> bool {
    '0' <= c && c <= '9'
}

/// A decimal number as `f64::from_str` reads it among texts of digits and points: digits and
/// at most one point, with at least one digit.
pub open spec fn is_number_literal(t: Seq<char>) -> bool {
    &&& forall|i: int| 0 <= i < t.len() ==> is_ascii_digit(#[trigger] t[i]) || t[i] == '.'
    &&& forall|i: int, j: int|
        0 <= i < t.len() && 0 <= j < t.len() && #[trigger] t[i] == '.' && #[trigger] t[j] == '.'
            ==> i == j
    &&& exists|i: int| 0 <= i < t.len() && is_ascii_digit(#[trigger] t[i])
}

/// What the converter holds after a prefix of the text.
pub struct Conversion {
    /// The postfix sequence emitted so far.
    pub out: Seq<Token>,
    /// The operator stack, its top last.
    pub stack: Seq<Pending>,
    /// The characters of the number being read.
    pub operand: Seq<char>,
    /// The texts of the numbers emitted so far.
    pub numbers: Seq<Seq<char>>,
}

/// Ends the number being read, if there is one: it is emitted, or it is no number.
pub open spec fn flush(st: Conversion) -> Result<Conversion, ErrorType> {
    if st.operand.len() == 0 {
        Ok(st)
    } else if st.operand.len() <= MAX_OPERAND_LEN && is_number_literal(st.operand) {
        Ok(
            Conversion {
                out: st.out.push(Token::Operand(Value::Number(st.numbers.len() as usize))),
                stack: st.stack,
                operand: Seq::empty(),
                numbers: st.numbers.push(st.operand),
            },
        )
    } else {
        Err(ErrorType::OperandNotNumber)
    }
}

/// Moves operators of priority `p` or more from the top of the stack to the output, up to
/// the first bracket mark or operator of lower priority.
pub open spec fn pop_not_lower(out: Seq<Token>, stack: Seq<Pending>, p: u8) -> (Seq<Token>, Seq<Pending>)
    decreases stack.len(),
{
    if stack.len() > 0 {
        match stack.last() {
            Pending::Operator(o) => if o.priority() >= p {
                pop_not_lower(out.push(Token::Operator(o)), stack.drop_last(), p)
            } else {
                (out, stack)
            },
            Pending::Bracket => (out, stack),
        }
    } else {
        (out, stack)
    }
}

/// Moves operators from the top of the stack to the output up to the first bracket mark,
/// which is dropped.
pub open spec fn pop_to_bracket(out: Seq<Token>, stack: Seq<Pending>) -> (Seq<Token>, Seq<Pending>)
    decreases stack.len(),
{
    if stack.len() > 0 {
        match stack.last() {
            Pending::Operator(o) => pop_to_bracket(out.push(Token::Operator(o)), stack.drop_last()),
            Pending::Bracket => (out, stack.drop_last()),
        }
    } else {
        (out, stack)
    }
}

/// The operators left on the stack, from the top down; bracket marks are skipped.
pub open spec fn remaining_operators(stack: Seq<Pending>) -> Seq<Token>
    decreases stack.len(),
{
    if stack.len() == 0 {
        Seq::empty()
    } else {
        match stack.last() {
            Pending::Operator(o) => seq![Token::Operator(o)] + remaining_operators(
                stack.drop_last(),
            ),
            Pending::Bracket => remaining_operators(stack.drop_last()),
        }
    }
}

/// One character of the text read by the converter. White space is skipped, and `,` is read as
/// the decimal point.
pub open spec fn convert_step(st: Conversion, c: char) -> Result<Conversion, ErrorType> {
    if is_white_space(c) {
        Ok(st)
    } else if spec_operator_of(c).is_some() {
        match flush(st) {
            Err(e) => Err(e),
            Ok(f) => {
                let o = spec_operator_of(c).unwrap();
                let (out, stack) = pop_not_lower(f.out, f.stack, o.priority());
                Ok(Conversion { out, stack: stack.push(Pending::Operator(o)), ..f })
            },
        }
    } else if c == '(' {
        match flush(st) {
            Err(e) => Err(e),
            Ok(f) => Ok(Conversion { stack: f.stack.push(Pending::Bracket), ..f }),
        }
    } else if c == ')' {
        match flush(st) {
            Err(e) => Err(e),
            Ok(f) => {
                let (out, stack) = pop_to_bracket(f.out, f.stack);
                Ok(Conversion { out, stack, ..f })
            },
        }
    } else {
        Ok(
            Conversion {
                operand: st.operand.push(
                    if c == ',' {
                        '.'
                    } else {
                        c
                    },
                ),
                ..st
            },
        )
    }
}

/// The converter's state after the first `n` characters of `s`.
pub open spec fn convert_prefix(s: Seq<char>, n: int) -> Result<Conversion, ErrorType>
    decreases n,
{
    if n <= 0 {
        Ok(Conversion { out: Seq::empty(), stack: Seq::empty(), operand: Seq::empty(), numbers: Seq::empty() })
    } else {
        match convert_prefix(s, n - 1) {
            Err(e) => Err(e),
            Ok(st) => convert_step(st, s[n - 1]),
        }
    }
}

/// The postfix form of `s`, with the texts of its numbers.
pub open spec fn spec_convert(s: Seq<char>) -> Result<(Seq<Token>, Seq<Seq<char>>), ErrorType> {
    match convert_prefix(s, s.len() as int) {
        Err(e) => Err(e),
        Ok(st) => match flush(st) {
            Err(e) => Err(e),
            Ok(f) => Ok((f.out + remaining_operators(f.stack), f.numbers)),
        },
    }
}

/// An expression in postfix form, with the texts of the numbers that its tokens refer to.
pub struct Postfix {
    pub tokens: Vec<Token>,
    pub numbers: Vec<Vec<char>>,
}

impl Postfix {
    pub open spec fn numbers_view(&self) -> Seq<Seq<char>> {
        self.numbers@.map_values(|t: Vec<char>| t@)
    }
}


/// Checks for a character with the Unicode `White_Space` property.
fn is_white_space_char(c: char) -> (r: bool)
    ensures
        r == is_white_space(c),
{
    ('\u{9}' <= c && c <= '\u{d}') || c == ' ' || c == '\u{85}' || c == '\u{a0}' || c
        == '\u{1680}' || ('\u{2000}' <= c && c <= '\u{200a}') || c == '\u{2028}' || c
        == '\u{2029}' || c == '\u{202f}' || c == '\u{205f}' || c == '\u{3000}'
}

/// Checks that the characters make a decimal number: digits and at most one point, with at
/// least one digit.
fn is_number_text(t: &Vec<char>) -> (r: bool)
    ensures
        r == is_number_literal(t@),
{
    let mut digits: usize = 0;
    let mut point: Option<usize> = None;
    let mut i: usize = 0;
    while i < t.len()
        invariant
            i <= t.len(),
            digits <= i,
            forall|k: int| 0 <= k < i ==> is_ascii_digit(#[trigger] t@[k]) || t@[k] == '.',
            digits > 0 <==> exists|k: int| 0 <= k < i && is_ascii_digit(#[trigger] t@[k]),
            match point {
                None => forall|k: int| 0 <= k < i ==> #[trigger] t@[k] != '.',
                Some(p) => p < i && t@[p as int] == '.' && forall|k: int|
                    0 <= k < i && #[trigger] t@[k] == '.' ==> k == p,
            },
        decreases t.len() - i,
    {
        let c = t[i];
        if '0' <= c && c <= '9' {
            digits = digits + 1;
        } else if c == '.' {
            if point.is_some() {
                assert(!is_number_literal(t@)) by {
                    let p = point.unwrap() as int;
                    assert(t@[p] == '.' && t@[i as int] == '.');
                }
                return false;
            }
            point = Some(i);
        } else {
            assert(!is_number_literal(t@)) by {
                assert(!(is_ascii_digit(t@[i as int]) || t@[i as int] == '.'));
            }
            return false;
        }
        i = i + 1;
    }
    if digits == 0 {
        assert(!is_number_literal(t@));
        false
    } else {
        true
    }
}

/// Emits the number being read, if its text is a number of at most `MAX_OPERAND_LEN`
/// characters; else changes nothing.
fn try_push_operand(operand: &mut Vec<char>, stack: &mut Vec<Token>, numbers: &mut Vec<Vec<char>>) -> (r: bool)
    ensures
        r == (old(operand)@.len() <= MAX_OPERAND_LEN && is_number_literal(old(operand)@)),
        r ==> final(operand)@ == Seq::<char>::empty() && final(stack)@ == old(stack)@.push(
            Token::Operand(Value::Number(old(numbers)@.len() as usize)),
        ) && final(numbers)@ == old(numbers)@.push(*old(operand)),
        !r ==> *final(operand) == *old(operand) && *final(stack) == *old(stack) && *final(numbers)
            == *old(numbers),
{
    if operand.len() <= MAX_OPERAND_LEN && is_number_text(operand) {
        let index = numbers.len();
        let mut text: Vec<char> = Vec::new();
        std::mem::swap(operand, &mut text);
        numbers.push(text);
        stack.push(Token::Operand(Value::Number(index)));
        true
    } else {
        false
    }
}

/// Moves operators of priority `p` or more from the top of `temp` to `result`, up to the first
/// bracket mark or operator of lower priority.
fn pop_not_lower_priority(result: &mut Vec<Token>, temp: &mut Vec<Pending>, p: u8)
    ensures
        (final(result)@, final(temp)@) == pop_not_lower(old(result)@, old(temp)@, p),
{
    while temp.len() > 0
        invariant
            pop_not_lower(result@, temp@, p) == pop_not_lower(old(result)@, old(temp)@, p),
        decreases temp.len(),
    {
        let top = temp[temp.len() - 1];
        match top {
            Pending::Operator(o) => {
                if o.get_priority() >= p {
                    result.push(Token::Operator(o));
                    temp.pop();
                } else {
                    return;
                }
            },
            Pending::Bracket => {
                return;
            },
        }
    }
}

/// Moves operators from the top of `temp` to `result` up to the first bracket mark, which is
/// dropped.
fn pop_through_bracket(result: &mut Vec<Token>, temp: &mut Vec<Pending>)
    ensures
        (final(result)@, final(temp)@) == pop_to_bracket(old(result)@, old(temp)@),
{
    while temp.len() > 0
        invariant
            pop_to_bracket(result@, temp@) == pop_to_bracket(old(result)@, old(temp)@),
        decreases temp.len(),
    {
        let top = temp.pop().unwrap();
        match top {
            Pending::Operator(o) => {
                result.push(Token::Operator(o));
            },
            Pending::Bracket => {
                return;
            },
        }
    }
}


/// Once the converter has failed on a prefix, it fails with the same error on every longer one.
proof fn lemma_failure_persists(s: Seq<char>, n: int, m: int)
    requires
        0 <= n <= m,
        convert_prefix(s, n) is Err,
    ensures
        convert_prefix(s, m) == convert_prefix(s, n),
    decreases m - n,
{
    if m > n {
        lemma_failure_persists(s, n, m - 1);
    }
}

/// Pushes the operators left on `temp` onto `result`, from the top down, skipping bracket
/// marks.
fn push_remaining(result: &mut Vec<Token>, temp: &mut Vec<Pending>)
    ensures
        final(result)@ == old(result)@ + remaining_operators(old(temp)@),
{
    while temp.len() > 0
        invariant
            result@ + remaining_operators(temp@) == old(result)@ + remaining_operators(
                old(temp)@,
            ),
        decreases temp.len(),
    {
        let ghost before = result@;
        let top = temp.pop().unwrap();
        match top {
            Pending::Operator(o) => {
                result.push(Token::Operator(o));
                assert(before + (seq![Token::Operator(o)] + remaining_operators(temp@))
                    =~= result@ + remaining_operators(temp@));
            },
            Pending::Bracket => {},
        }
    }
    assert(result@ =~= result@ + remaining_operators(temp@));
}

/// Converts an expression to postfix form, with the shunting-yard method: operators wait on a
/// stack until an operator of no higher priority, a closing bracket or the end of the text
/// comes. White space is skipped, `,` is read as the decimal point, and the text is not checked
/// for operator placement: that is left to the reduction.
pub fn convert(math_expr: &String) -> (r: Result<Postfix, Error>)
    ensures
        match r {
            Ok(p) => spec_convert(math_expr@) == Ok::<_, ErrorType>((p.tokens@, p.numbers_view())),
            Err(e) => spec_convert(math_expr@) == Err::<(Seq<Token>, Seq<Seq<char>>), _>(e.kind())
                && e.wf(),
        },
{
    let text = math_expr.as_str();
    let len = text.unicode_len();
    let mut result: Vec<Token> = Vec::new();
    let mut temp: Vec<Pending> = Vec::new();
    let mut operand: Vec<char> = Vec::new();
    let mut numbers: Vec<Vec<char>> = Vec::new();
    let mut i: usize = 0;
    assert(numbers@.map_values(|t: Vec<char>| t@) =~= Seq::<Seq<char>>::empty());
    while i < len
        invariant
            len == math_expr@.len(),
            text@ == math_expr@,
            i <= len,
            convert_prefix(math_expr@, i as int) == Ok::<_, ErrorType>(
                Conversion {
                    out: result@,
                    stack: temp@,
                    operand: operand@,
                    numbers: numbers@.map_values(|t: Vec<char>| t@),
                },
            ),
        decreases len - i,
    {
        let c = text.get_char(i);
        let ghost st = Conversion {
            out: result@,
            stack: temp@,
            operand: operand@,
            numbers: numbers@.map_values(|t: Vec<char>| t@),
        };
        if is_white_space_char(c) {
        } else if c == '(' || c == ')' || operator_of(c).is_some() {
            if operand.len() > 0 {
                let ghost numbers_before = numbers@;
                if !try_push_operand(&mut operand, &mut result, &mut numbers) {
                    assert(convert_prefix(math_expr@, i + 1) == Err::<Conversion, _>(
                        ErrorType::OperandNotNumber,
                    ));
                    proof {
                        lemma_failure_persists(math_expr@, i + 1, len as int);
                    }
                    return Err(Error::new(ErrorType::OperandNotNumber));
                }
                assert(numbers@.map_values(|t: Vec<char>| t@) =~= numbers_before.map_values(
                    |t: Vec<char>| t@,
                ).push(st.operand));
            }
            assert(flush(st) == Ok::<_, ErrorType>(
                Conversion {
                    out: result@,
                    stack: temp@,
                    operand: operand@,
                    numbers: numbers@.map_values(|t: Vec<char>| t@),
                },
            ));
            if c == '(' {
                temp.push(Pending::Bracket);
            } else if c == ')' {
                pop_through_bracket(&mut result, &mut temp);
            } else {
                let o = operator_of(c).unwrap();
                pop_not_lower_priority(&mut result, &mut temp, o.get_priority());
                temp.push(Pending::Operator(o));
            }
        } else if c == ',' {
            operand.push('.');
        } else {
            operand.push(c);
        }
        i = i + 1;
    }
    let ghost st = Conversion {
        out: result@,
        stack: temp@,
        operand: operand@,
        numbers: numbers@.map_values(|t: Vec<char>| t@),
    };
    if operand.len() > 0 {
        let ghost numbers_before = numbers@;
        if !try_push_operand(&mut operand, &mut result, &mut numbers) {
            return Err(Error::new(ErrorType::OperandNotNumber));
        }
        assert(numbers@.map_values(|t: Vec<char>| t@) =~= numbers_before.map_values(
            |t: Vec<char>| t@,
        ).push(st.operand));
    }
    push_remaining(&mut result, &mut temp);
    Ok(Postfix { tokens: result, numbers })
}


/// The value exists once `n_numbers` numbers have been read and `n_steps` steps done.
pub open spec fn value_in_range(v: Value, n_numbers: int, n_steps: int) -> bool {
    match v {
        Value::Number(i) => i < n_numbers,
        Value::Computed(i) => i < n_steps,
    }
}

/// Every operand of `t` exists once `n_numbers` numbers have been read and `n_steps` steps
/// done.
pub open spec fn operands_in_range(t: Seq<Token>, n_numbers: int, n_steps: int) -> bool {
    forall|i: int|
        0 <= i < t.len() && #[trigger] t[i] is Operand ==> value_in_range(
            t[i]->Operand_0,
            n_numbers,
            n_steps,
        )
}

/// Every text is a number of at most `MAX_OPERAND_LEN` characters.
pub open spec fn all_number_literals(numbers: Seq<Seq<char>>) -> bool {
    forall|j: int|
        0 <= j < numbers.len() ==> #[trigger] numbers[j].len() <= MAX_OPERAND_LEN
            && is_number_literal(numbers[j])
}

/// What the converter's state keeps: its operands are numbers already read, and those are
/// well written.
pub open spec fn conversion_ok(st: Conversion) -> bool {
    operands_in_range(st.out, st.numbers.len() as int, 0) && all_number_literals(st.numbers)
}

proof fn lemma_pop_not_lower_keeps(out: Seq<Token>, stack: Seq<Pending>, p: u8, n: int)
    requires
        operands_in_range(out, n, 0),
    ensures
        operands_in_range(pop_not_lower(out, stack, p).0, n, 0),
    decreases stack.len(),
{
    if stack.len() > 0 {
        if let Pending::Operator(o) = stack.last() {
            if o.priority() >= p {
                let o2 = out.push(Token::Operator(o));
                assert forall|i: int| 0 <= i < o2.len() && #[trigger] o2[i] is Operand implies value_in_range(
                    o2[i]->Operand_0,
                    n,
                    0,
                ) by {
                    assert(o2[i] == out[i]);
                }
                lemma_pop_not_lower_keeps(o2, stack.drop_last(), p, n);
            }
        }
    }
}

proof fn lemma_pop_to_bracket_keeps(out: Seq<Token>, stack: Seq<Pending>, n: int)
    requires
        operands_in_range(out, n, 0),
    ensures
        operands_in_range(pop_to_bracket(out, stack).0, n, 0),
    decreases stack.len(),
{
    if stack.len() > 0 {
        if let Pending::Operator(o) = stack.last() {
            let o2 = out.push(Token::Operator(o));
            assert forall|i: int| 0 <= i < o2.len() && #[trigger] o2[i] is Operand implies value_in_range(
                o2[i]->Operand_0,
                n,
                0,
            ) by {
                assert(o2[i] == out[i]);
            }
            lemma_pop_to_bracket_keeps(o2, stack.drop_last(), n);
        }
    }
}

proof fn lemma_remaining_operators(stack: Seq<Pending>)
    ensures
        forall|i: int|
            0 <= i < remaining_operators(stack).len() ==> #[trigger] remaining_operators(
                stack,
            )[i] is Operator,
    decreases stack.len(),
{
    if stack.len() > 0 {
        lemma_remaining_operators(stack.drop_last());
    }
}

proof fn lemma_flush_keeps(st: Conversion)
    requires
        conversion_ok(st),
        flush(st) is Ok,
    ensures
        conversion_ok(flush(st)->Ok_0),
{
    if st.operand.len() > 0 {
        let f = flush(st)->Ok_0;
        assert forall|i: int| 0 <= i < f.out.len() && #[trigger] f.out[i] is Operand implies value_in_range(
            f.out[i]->Operand_0,
            f.numbers.len() as int,
            0,
        ) by {
            if i < st.out.len() {
                assert(f.out[i] == st.out[i]);
            }
        }
        assert forall|j: int| 0 <= j < f.numbers.len() implies #[trigger] f.numbers[j].len()
            <= MAX_OPERAND_LEN && is_number_literal(f.numbers[j]) by {
            if j < st.numbers.len() {
                assert(f.numbers[j] == st.numbers[j]);
            }
        }
    }
}

proof fn lemma_step_keeps(st: Conversion, c: char)
    requires
        conversion_ok(st),
        convert_step(st, c) is Ok,
    ensures
        conversion_ok(convert_step(st, c)->Ok_0),
{
    if c != ' ' && (spec_operator_of(c).is_some() || c == '(' || c == ')') {
        lemma_flush_keeps(st);
        let f = flush(st)->Ok_0;
        if spec_operator_of(c).is_some() {
            let o = spec_operator_of(c).unwrap();
            lemma_pop_not_lower_keeps(f.out, f.stack, o.priority(), f.numbers.len() as int);
        } else if c == ')' {
            lemma_pop_to_bracket_keeps(f.out, f.stack, f.numbers.len() as int);
        }
    }
}

proof fn lemma_prefix_ok(s: Seq<char>, n: int)
    requires
        convert_prefix(s, n) is Ok,
    ensures
        conversion_ok(convert_prefix(s, n)->Ok_0),
    decreases n,
{
    if n > 0 {
        lemma_prefix_ok(s, n - 1);
        lemma_step_keeps(convert_prefix(s, n - 1)->Ok_0, s[n - 1]);
    }
}

/// A postfix form refers only to numbers it has read, and those are well written.
pub proof fn lemma_convert_ok(s: Seq<char>)
    requires
        spec_convert(s) is Ok,
    ensures
        operands_in_range(spec_convert(s)->Ok_0.0, spec_convert(s)->Ok_0.1.len() as int, 0),
        all_number_literals(spec_convert(s)->Ok_0.1),
{
    lemma_prefix_ok(s, s.len() as int);
    let st = convert_prefix(s, s.len() as int)->Ok_0;
    lemma_flush_keeps(st);
    let f = flush(st)->Ok_0;
    let t = f.out + remaining_operators(f.stack);
    lemma_remaining_operators(f.stack);
    assert forall|i: int| 0 <= i < t.len() && #[trigger] t[i] is Operand implies value_in_range(
        t[i]->Operand_0,
        f.numbers.len() as int,
        0,
    ) by {
        if i < f.out.len() {
            assert(t[i] == f.out[i]);
        } else {
            assert(t[i] == remaining_operators(f.stack)[i - f.out.len()]);
        }
    }
}

} // verus!
