//! Decimal text of unsigned integers and the messages built from it.

use vstd::prelude::*;
use vstd::string::StringExecFns;

verus! {

/// The decimal digit of `d`, for `d` below ten.
pub open spec fn digit_char(d: u64) -> char {
    if d == 0 {
        '0'
    } else if d == 1 {
        '1'
    } else if d == 2 {
        '2'
    } else if d == 3 {
        '3'
    } else if d == 4 {
        '4'
    } else if d == 5 {
        '5'
    } else if d == 6 {
        '6'
    } else if d == 7 {
        '7'
    } else if d == 8 {
        '8'
    } else {
        '9'
    }
}

/// The decimal text of `n`, most significant digit first, without leading zeros.
pub open spec fn decimal_text(n: u64) -> Seq<char>
    decreases n,
{
    if n < 10 {
        seq![digit_char(n)]
    } else {
        decimal_text(n / 10) + seq![digit_char(n % 10)]
    }
}

/// The text of one decimal digit.
fn digit_text(d: u64) -> (r: &'static str)
    requires
        d < 10,
    ensures
        r@ == seq![digit_char(d)],
{
    proof {
        reveal_strlit("0");
        reveal_strlit("1");
        reveal_strlit("2");
        reveal_strlit("3");
        reveal_strlit("4");
        reveal_strlit("5");
        reveal_strlit("6");
        reveal_strlit("7");
        reveal_strlit("8");
        reveal_strlit("9");
    }
    if d == 0 {
        "0"
    } else if d == 1 {
        "1"
    } else if d == 2 {
        "2"
    } else if d == 3 {
        "3"
    } else if d == 4 {
        "4"
    } else if d == 5 {
        "5"
    } else if d == 6 {
        "6"
    } else if d == 7 {
        "7"
    } else if d == 8 {
        "8"
    } else {
        "9"
    }
}

/// The decimal text of `n`.
pub fn decimal(n: u64) -> (r: String)
    ensures
        r@ == decimal_text(n),
    decreases n,
{
    if n < 10 {
        String::from_str(digit_text(n))
    } else {
        let mut text = decimal(n / 10);
        text.append(digit_text(n % 10));
        text
    }
}

/// The message of an observation above its declared maximum.
pub fn exceeded_message(phase: &str, observed: u64, dimension: &str, maximum: u64) -> (r: String)
    ensures
        r@ == phase@ + " requires "@ + decimal_text(observed) + " "@ + dimension@ + ", exceeding the declared maximum "@
            + decimal_text(maximum),
{
    let mut text = String::from_str(phase);
    text.append(" requires ");
    text.append(decimal(observed).as_str());
    text.append(" ");
    text.append(dimension);
    text.append(", exceeding the declared maximum ");
    text.append(decimal(maximum).as_str());
    text
}

/// The message of a declared maximum above its engine ceiling.
pub fn ceiling_message(declared: u64, dimension: &str, ceiling: u64) -> (r: String)
    ensures
        r@ == "declared maximum "@ + decimal_text(declared) + " "@ + dimension@ + " exceeds the change engine ceiling "@
            + decimal_text(ceiling),
{
    let mut text = String::from_str("declared maximum ");
    text.append(decimal(declared).as_str());
    text.append(" ");
    text.append(dimension);
    text.append(" exceeds the change engine ceiling ");
    text.append(decimal(ceiling).as_str());
    text
}

/// The message of a remaining budget that is already negative.
pub fn overdrawn_message(phase: &str, observed: u64, dimension: &str, maximum: u64) -> (r: String)
    ensures
        r@ == phase@ + " already observed "@ + decimal_text(observed) + " "@ + dimension@
            + ", exceeding the declared maximum "@ + decimal_text(maximum),
{
    let mut text = String::from_str(phase);
    text.append(" already observed ");
    text.append(decimal(observed).as_str());
    text.append(" ");
    text.append(dimension);
    text.append(", exceeding the declared maximum ");
    text.append(decimal(maximum).as_str());
    text
}

/// The message of a source without pre-consumption admission.
pub fn unsupported_message(kind: &str) -> (r: String)
    ensures
        r@ == kind@ + " source does not implement pre-consumption read admission"@,
{
    let mut text = String::from_str(kind);
    text.append(" source does not implement pre-consumption read admission");
    text
}

} // verus!
