//! Calculator: advisory arithmetic evaluation of the raw query.  A query
//! without any decimal digit is rejected up front so ordinary text is never
//! treated as a variable expression; parse errors and non-finite values are
//! silently "no match", never errors.

use vstd::prelude::*;

use crate::text::{chars_of, spec_trim, string_from_chars, trim_chars};

verus! {

/// Whether the sequence holds at least one decimal digit.
pub open spec fn spec_has_digit(s: Seq<char>) -> bool {
    exists|i: int| 0 <= i < s.len() && '0' <= #[trigger] s[i] <= '9'
}

/// What evaluating an arithmetic expression returns: the decimal rendering
/// of its value, a function of the expression characters alone, or nothing
/// when the expression does not parse or its value is not finite.
pub uninterp spec fn math_eval_of(e: Seq<char>) -> Option<Seq<char>>;

/// Relies on meval::eval_str: operators `+ - * / % ^`, parentheses, decimal
/// literals and the constants e/pi, evaluated deterministically from the
/// expression text.  A parse error or a non-finite value yields `None`;
/// the value is rendered with the standard decimal formatting.
#[verifier::external_body]
fn eval_expr(expr: &str) -> (r: Option<String>)
    ensures
        r is Some <==> math_eval_of(expr@) is Some,
        r is Some ==> r->0@ == math_eval_of(expr@)->0,
{
    match meval::eval_str(expr) {
        Ok(val) => {
            if val.is_infinite() || val.is_nan() {
                None
            } else {
                Some(format!("{}", val))
            }
        },
        Err(_) => None,
    }
}

/// Evaluates the query as an arithmetic expression.  The trimmed query must
/// be non-empty and contain a digit; otherwise, and on any evaluation
/// failure, there is no result.  On success the result is the rendered
/// value of the trimmed expression.
pub fn evaluate(expression: &str) -> (r: Option<String>)
    ensures
        ({
            let t = spec_trim(expression@);
            if t.len() == 0 || !spec_has_digit(t) {
                r is None
            } else {
                (r is Some <==> math_eval_of(t) is Some) && (r is Some ==> r->0@ == math_eval_of(
                    t,
                )->0)
            }
        }),
{
    let ec = chars_of(expression);
    let trimmed = trim_chars(ec.as_slice());
    if trimmed.len() == 0 {
        return None;
    }
    let mut has_digit = false;
    let mut i: usize = 0;
    while i < trimmed.len()
        invariant
            0 <= i <= trimmed@.len(),
            has_digit == (exists|k: int| 0 <= k < i && '0' <= #[trigger] trimmed@[k] <= '9'),
        decreases trimmed@.len() - i,
    {
        let c = trimmed[i];
        if c >= '0' && c <= '9' {
            has_digit = true;
        }
        i = i + 1;
    }
    if !has_digit {
        return None;
    }
    let ts = string_from_chars(trimmed.as_slice());
    eval_expr(ts.as_str())
}

} // verus!
