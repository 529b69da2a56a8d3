use vstd::prelude::*;

verus! {

/// The characters with the Unicode `White_Space` property.
pub open spec fn is_white_space(c: char) -> bool {
    ('\u{9}' <= c && c <= '\u{d}') || c == ' ' || c == '\u{85}' || c == '\u{a0}' || c
        == '\u{1680}' || ('\u{2000}' <= c && c <= '\u{200a}') || c == '\u{2028}' || c
        == '\u{2029}' || c == '\u{202f}' || c == '\u{205f}' || c == '\u{3000}'
}

/// An operator symbol or a bracket.
pub open spec fn is_symbol(c: char) -> bool {
    c == '+' || c == '-' || c == '*' || c == '/' || c == '%' || c == '^' || c == '(' || c == ')'
}

/// A character that may stand in an arithmetic expression: an ASCII digit, white space,
/// an operator symbol, a bracket or a decimal separator.
pub open spec fn is_expr_char(c: char) -> bool {
    ('0' <= c && c <= '9') || is_white_space(c) || is_symbol(c) || c == '.' || c == ','
}

/// The text is not empty and is made of expression characters only.
pub open spec fn spec_is_math_expr(s: Seq<char>) -> bool {
    s.len() > 0 && forall|i: int| 0 <= i < s.len() ==> #[trigger] is_expr_char(s[i])
}

/// The pattern that recognises texts made of expression characters only.
pub const EXPR_PATTERN: &'static str = r"^[0-9\s\+\-\*/%\(\)\^\.,]+$";

/// Relies on regex::Regex::new, which compiles `EXPR_PATTERN` (a valid pattern), and on
/// Regex::is_match: `^[class]+$` matches exactly the non-empty texts whose every character
/// is in the class, where `\s` stands for the Unicode `White_Space` property.
#[verifier::external_body]
fn regex_full_match(pattern: &str, text: &str) -> (r: bool)
    requires
        pattern@ == EXPR_PATTERN@,
    ensures
        r == spec_is_math_expr(text@),
{
    regex::Regex::new(pattern).unwrap().is_match(text)
}

/// Checks that the text is made of the characters of an arithmetic expression only.
pub fn is_math_expr(message: &String) -> (r: bool)
    ensures
        r == spec_is_math_expr(message@),
{
    regex_full_match(EXPR_PATTERN, message.as_str())
}

/// How far brackets are open after the first `n` characters: the count of `(` less the
/// count of `)`.
pub open spec fn depth(s: Seq<char>, n: int) -> int
    decreases n,
{
    if n <= 0 {
        0
    } else if s[n - 1] == '(' {
        depth(s, n - 1) + 1
    } else if s[n - 1] == ')' {
        depth(s, n - 1) - 1
    } else {
        depth(s, n - 1)
    }
}

/// No `)` comes before its `(`, and every `(` is closed.
pub open spec fn spec_brackets_agreed(s: Seq<char>) -> bool {
    (forall|n: int| 0 <= n <= s.len() ==> #[trigger] depth(s, n) >= 0) && depth(s, s.len() as int)
        == 0
}

/// Checks that the text has as many `(` as `)` and that no `)` comes before its `(`.
pub fn are_brackets_agreed(message: &String) -> (r: bool)
    ensures
        r == spec_brackets_agreed(message@),
{
    let text = message.as_str();
    let len = text.unicode_len();
    let mut open: usize = 0;
    let mut i: usize = 0;
    while i < len
        invariant
            len == message@.len(),
            text@ == message@,
            i <= len,
            open == depth(message@, i as int),
            open <= i,
            forall|n: int| 0 <= n <= i ==> #[trigger] depth(message@, n) >= 0,
        decreases len - i,
    {
        let ch = text.get_char(i);
        if ch == '(' {
            open = open + 1;
        } else if ch == ')' {
            if open == 0 {
                assert(depth(message@, i + 1) < 0);
                return false;
            }
            open = open - 1;
        }
        i = i + 1;
    }
    open == 0
}

} // verus!
