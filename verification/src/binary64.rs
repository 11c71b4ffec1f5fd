//! Canonical binary64 representation. Equality here observes bits, never program equality.

use crate::diagnostic::same_text;
use vstd::prelude::*;
use vstd::string::*;

verus! {

/// The single NaN pattern a canonical binary64 may hold.
pub const CANONICAL_NAN_BITS: u64 = 0x7ff8_0000_0000_0000;

/// The pattern of positive infinity.
pub const POSITIVE_INFINITY_BITS: u64 = 0x7ff0_0000_0000_0000;

/// The pattern of negative infinity.
pub const NEGATIVE_INFINITY_BITS: u64 = 0xfff0_0000_0000_0000;

/// Whether a bit pattern is a NaN: all exponent bits set and a nonzero fraction.
pub open spec fn is_nan_bits(bits: u64) -> bool {
    bits & 0x7ff0_0000_0000_0000 == 0x7ff0_0000_0000_0000 && bits & 0x000f_ffff_ffff_ffff != 0
}

/// Whether a bit pattern is finite: not all exponent bits set.
pub open spec fn is_finite_bits(bits: u64) -> bool {
    bits & 0x7ff0_0000_0000_0000 != 0x7ff0_0000_0000_0000
}

/// Whether a bit pattern is canonical: any NaN it holds is the canonical one.
pub open spec fn canonical_bits(bits: u64) -> bool {
    !is_nan_bits(bits) || bits == CANONICAL_NAN_BITS
}

/// A canonical binary64 value, held as its bit pattern.
#[derive(Clone, Copy, Debug, PartialEq, Eq, Hash, Structural)]
pub struct Binary64(u64);

impl Binary64 {
    /// The bit pattern held.
    pub closed spec fn spec_bits(self) -> u64 {
        self.0
    }

    /// The value with bit pattern `bits`, refusing noncanonical NaNs rather than repairing them.
    pub fn from_bits(bits: u64) -> (r: Option<Self>)
        ensures
            r is Some <==> canonical_bits(bits),
            r matches Some(value) ==> value.spec_bits() == bits,
    {
        let nan = bits & 0x7ff0_0000_0000_0000 == 0x7ff0_0000_0000_0000 && bits & 0x000f_ffff_ffff_ffff != 0;
        if nan && bits != CANONICAL_NAN_BITS {
            None
        } else {
            Some(Binary64(bits))
        }
    }

    /// The bit pattern held.
    pub fn bits(self) -> (r: u64)
        ensures
            r == self.spec_bits(),
    {
        self.0
    }

    /// Reads the text form of a binary64: exactly `nan`, `inf` or `-inf`, or a decimal in the
    /// JSON grammar whose nearest binary64 is finite. `decimal_bits` is the bit pattern of the
    /// nearest binary64 to the text read as a decimal number, where it has one.
    pub fn parse(text: &str, decimal_bits: Option<u64>) -> (r: Option<Self>)
        ensures
            text@ == "nan"@ ==> (r matches Some(value) && value.spec_bits() == CANONICAL_NAN_BITS),
            text@ == "inf"@ ==> (r matches Some(value) && value.spec_bits() == POSITIVE_INFINITY_BITS),
            text@ == "-inf"@ ==> (r matches Some(value) && value.spec_bits() == NEGATIVE_INFINITY_BITS),
            text@ != "nan"@ && text@ != "inf"@ && text@ != "-inf"@ ==> (r is Some <==> (decimal_grammar(text.spec_bytes())
                && (decimal_bits matches Some(bits) && is_finite_bits(bits)))),
            text@ != "nan"@ && text@ != "inf"@ && text@ != "-inf"@ ==> (r matches Some(value)
                ==> decimal_bits == Some(value.spec_bits())),
            r matches Some(value) ==> canonical_bits(value.spec_bits()),
    {
        proof {
            reveal_strlit("nan");
            reveal_strlit("inf");
            reveal_strlit("-inf");
            assert("nan"@[0] != "inf"@[0]);
            assert("nan"@.len() != "-inf"@.len());
            assert("inf"@.len() != "-inf"@.len());
            assert(canonical_bits(CANONICAL_NAN_BITS)) by (bit_vector);
            assert(canonical_bits(POSITIVE_INFINITY_BITS)) by (bit_vector);
            assert(canonical_bits(NEGATIVE_INFINITY_BITS)) by (bit_vector);
        }
        if same_text(text, "nan") {
            return Some(Binary64(CANONICAL_NAN_BITS));
        }
        if same_text(text, "inf") {
            return Some(Binary64(POSITIVE_INFINITY_BITS));
        }
        if same_text(text, "-inf") {
            return Some(Binary64(NEGATIVE_INFINITY_BITS));
        }
        if !is_decimal(text) {
            return None;
        }
        match decimal_bits {
            Some(bits) => {
                if bits & 0x7ff0_0000_0000_0000 != 0x7ff0_0000_0000_0000 {
                    proof {
                        assert(is_finite_bits(bits) ==> canonical_bits(bits)) by (bit_vector);
                    }
                    Some(Binary64(bits))
                } else {
                    None
                }
            },
            None => None,
        }
    }
}

impl Default for Binary64 {
    fn default() -> (r: Self)
        ensures
            r.spec_bits() == 0,
    {
        Binary64(0)
    }
}

/// Whether a byte is an ASCII digit.
pub open spec fn is_digit(byte: u8) -> bool {
    48 <= byte <= 57
}

/// The number of consecutive ASCII digits starting at `start`.
pub open spec fn digit_run(bytes: Seq<u8>, start: int) -> int
    decreases bytes.len() - start,
{
    if 0 <= start < bytes.len() && is_digit(bytes[start]) {
        1 + digit_run(bytes, start + 1)
    } else {
        0
    }
}

/// Where the integer part starts: after an optional minus sign.
pub open spec fn after_sign(bytes: Seq<u8>) -> int {
    if bytes.len() > 0 && bytes[0] == 45 {
        1
    } else {
        0
    }
}

/// Where an integer part starting at `start` ends: a single zero, or a nonzero digit and more
/// digits.
pub open spec fn after_integer(bytes: Seq<u8>, start: int) -> Option<int> {
    if 0 <= start < bytes.len() && bytes[start] == 48 {
        Some(start + 1)
    } else if 0 <= start < bytes.len() && 49 <= bytes[start] <= 57 {
        Some(start + 1 + digit_run(bytes, start + 1))
    } else {
        None
    }
}

/// Where an optional fraction starting at `start` ends: a point and at least one digit.
pub open spec fn after_fraction(bytes: Seq<u8>, start: int) -> Option<int> {
    if 0 <= start < bytes.len() && bytes[start] == 46 {
        if digit_run(bytes, start + 1) == 0 {
            None
        } else {
            Some(start + 1 + digit_run(bytes, start + 1))
        }
    } else {
        Some(start)
    }
}

/// Where an optional exponent starting at `start` ends: `e` or `E`, an optional sign and at
/// least one digit.
pub open spec fn after_exponent(bytes: Seq<u8>, start: int) -> Option<int> {
    if 0 <= start < bytes.len() && (bytes[start] == 101 || bytes[start] == 69) {
        let digits = if start + 1 < bytes.len() && (bytes[start + 1] == 43 || bytes[start + 1] == 45) {
            start + 2
        } else {
            start + 1
        };
        if digit_run(bytes, digits) == 0 {
            None
        } else {
            Some(digits + digit_run(bytes, digits))
        }
    } else {
        Some(start)
    }
}

/// The JSON decimal grammar: `-? (0 | [1-9][0-9]*) (. [0-9]+)? ([eE] [+-]? [0-9]+)?`, whole text.
pub open spec fn decimal_grammar(bytes: Seq<u8>) -> bool {
    match after_integer(bytes, after_sign(bytes)) {
        Some(integer) => match after_fraction(bytes, integer) {
            Some(fraction) => match after_exponent(bytes, fraction) {
                Some(exponent) => exponent == bytes.len(),
                None => false,
            },
            None => false,
        },
        None => false,
    }
}

fn ascii_digit(byte: u8) -> (r: bool)
    ensures
        r == is_digit(byte),
{
    48 <= byte && byte <= 57
}

/// The offset just past the digits starting at `start`.
fn skip_digits(bytes: &[u8], start: usize) -> (r: usize)
    requires
        start <= bytes@.len(),
    ensures
        r == start + digit_run(bytes@, start as int),
        r <= bytes@.len(),
{
    let mut offset = start;
    while offset < bytes.len() && ascii_digit(bytes[offset])
        invariant
            start <= offset <= bytes@.len(),
            start + digit_run(bytes@, start as int) == offset + digit_run(bytes@, offset as int),
        decreases bytes@.len() - offset,
    {
        offset = offset + 1;
    }
    offset
}

/// Whether `text` is a decimal in the JSON grammar, also used for typed floating literals.
pub fn is_decimal(text: &str) -> (r: bool)
    ensures
        r == decimal_grammar(text.spec_bytes()),
{
    let bytes = text.as_bytes();
    let ghost b = bytes@;
    let len = bytes.len();
    let mut offset: usize = if len > 0 && bytes[0] == 45 { 1 } else { 0 };
    assert(offset == after_sign(b));
    if offset < len && bytes[offset] == 48 {
        offset = offset + 1;
    } else if offset < len && 49 <= bytes[offset] && bytes[offset] <= 57 {
        offset = skip_digits(bytes, offset + 1);
    } else {
        return false;
    }
    assert(after_integer(b, after_sign(b)) == Some(offset as int));
    if offset < len && bytes[offset] == 46 {
        let first = offset + 1;
        offset = skip_digits(bytes, first);
        if offset == first {
            return false;
        }
    }
    assert(after_fraction(b, after_integer(b, after_sign(b))->0) == Some(offset as int));
    if offset < len && (bytes[offset] == 101 || bytes[offset] == 69) {
        let mut first = offset + 1;
        if first < len && (bytes[first] == 43 || bytes[first] == 45) {
            first = first + 1;
        }
        offset = skip_digits(bytes, first);
        if offset == first {
            return false;
        }
    }
    offset == len
}

} // verus!
