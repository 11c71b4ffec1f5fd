//! Integrity of the durable workspace head, and the names of its temporary files.

use crate::digest::{blake3_derive_key, blake3_derived_key};
use crate::diagnostic::{static_message, Diagnostic, DiagnosticClass};
use vstd::prelude::*;
use vstd::string::*;

verus! {

/// The key-derivation context of workspace-head checksums.
pub const HEAD_CHECKSUM_DOMAIN: &'static str = "lkjscript.workspace-head.checksum.v10";

/// The most bytes an encoded workspace head may take.
pub const MAXIMUM_HEAD_BYTES: usize = 16384;

/// The checksum that closes an encoded workspace head: the key BLAKE3 derives from the head's
/// body under the head-checksum context.
pub fn head_checksum(body: &[u8]) -> (r: [u8; 32])
    ensures
        r@ == blake3_derived_key(HEAD_CHECKSUM_DOMAIN@, body@),
{
    blake3_derive_key(HEAD_CHECKSUM_DOMAIN, body)
}

/// The eight bytes every workspace head starts with: `LKJHDA10`.
pub open spec fn head_magic() -> Seq<u8> {
    seq![76u8, 75u8, 74u8, 72u8, 68u8, 65u8, 49u8, 48u8]
}

/// The eight-byte magic of a workspace head.
pub fn head_magic_bytes() -> (r: [u8; 8])
    ensures
        r@ == head_magic(),
{
    let magic: [u8; 8] = [76u8, 75u8, 74u8, 72u8, 68u8, 65u8, 49u8, 48u8];
    assert(magic@ =~= head_magic());
    magic
}

/// The refusal of a corrupt workspace head.
fn head_corrupt(message: &str) -> (r: Diagnostic)
    ensures
        r.class == DiagnosticClass::Corrupt,
        r.code@ == "workspace_head_corrupt"@,
{
    Diagnostic::new(DiagnosticClass::Corrupt, "workspace_head_corrupt", static_message(message))
}

/// The bytes of a workspace head whose body is `body`: the body, then its checksum.
pub open spec fn framed_head(body: Seq<u8>) -> Seq<u8> {
    body + blake3_derived_key(HEAD_CHECKSUM_DOMAIN@, body)
}

/// Closes an encoded head body with its checksum; a head over the byte policy is refused.
pub fn frame_head(body: &[u8]) -> (r: Result<Vec<u8>, Diagnostic>)
    ensures
        r is Ok <==> body@.len() + 32 <= MAXIMUM_HEAD_BYTES,
        r matches Ok(bytes) ==> bytes@ == framed_head(body@),
        r matches Err(d) ==> d.class == DiagnosticClass::Resource && d.code@ == "workspace_head_policy"@,
{
    if body.len() > MAXIMUM_HEAD_BYTES - 32 {
        return Err(Diagnostic::new(
            DiagnosticClass::Resource,
            "workspace_head_policy",
            static_message("workspace HEAD exceeds encoder byte policy"),
        ));
    }
    let checksum = head_checksum(body);
    let mut bytes: Vec<u8> = Vec::new();
    let mut i: usize = 0;
    while i < body.len()
        invariant
            i <= body@.len(),
            bytes@ == body@.take(i as int),
        decreases body@.len() - i,
    {
        bytes.push(body[i]);
        i = i + 1;
        assert(bytes@ =~= body@.take(i as int));
    }
    let mut k: usize = 0;
    while k < 32
        invariant
            k <= 32,
            bytes@ == body@ + checksum@.take(k as int),
        decreases 32 - k,
    {
        bytes.push(checksum[k]);
        k = k + 1;
        assert(bytes@ =~= body@ + checksum@.take(k as int));
    }
    assert(body@.take(body@.len() as int) =~= body@);
    assert(checksum@.take(32) =~= checksum@);
    Ok(bytes)
}

/// Whether `bytes` is a sound workspace head frame: long enough for its checksum, the checksum
/// is that of the body before it, and the body starts with the head magic.
pub open spec fn head_frame_sound(bytes: Seq<u8>) -> bool {
    let body = bytes.take(bytes.len() - 32);
    &&& bytes.len() >= 32
    &&& bytes.skip(bytes.len() - 32) == blake3_derived_key(HEAD_CHECKSUM_DOMAIN@, body)
    &&& body.len() >= 8
    &&& body.take(8) == head_magic()
}

/// Checks the frame of an encoded workspace head and returns the fields after its magic.
pub fn check_head_frame(bytes: &[u8]) -> (r: Result<Vec<u8>, Diagnostic>)
    ensures
        r is Ok <==> head_frame_sound(bytes@),
        r matches Ok(fields) ==> fields@ == bytes@.subrange(8, bytes@.len() - 32),
        r matches Err(d) ==> d.class == DiagnosticClass::Corrupt && d.code@ == "workspace_head_corrupt"@,
{
    if bytes.len() < 32 {
        return Err(head_corrupt("workspace HEAD is truncated before its checksum"));
    }
    let total: usize = bytes.len();
    let body_length = total - 32;
    let mut body: Vec<u8> = Vec::new();
    let mut i: usize = 0;
    while i < body_length
        invariant
            body_length == bytes@.len() - 32,
            i <= body_length,
            body@ == bytes@.take(i as int),
        decreases body_length - i,
    {
        body.push(bytes[i]);
        i = i + 1;
        assert(body@ =~= bytes@.take(i as int));
    }
    assert(body@ =~= bytes@.take(bytes@.len() - 32));
    let checksum = head_checksum(body.as_slice());
    let mut k: usize = 0;
    while k < 32
        invariant
            body_length == bytes@.len() - 32,
            bytes@.len() >= 32,
            total == bytes@.len(),
            k <= 32,
            checksum@ == blake3_derived_key(HEAD_CHECKSUM_DOMAIN@, bytes@.take(bytes@.len() - 32)),
            forall|j: int| 0 <= j < k ==> checksum@[j] == bytes@[body_length + j],
        decreases 32 - k,
    {
        if checksum[k] != bytes[body_length + k] {
            proof {
                assert(bytes@.skip(bytes@.len() - 32)[k as int] == bytes@[body_length + k]);
            }
            return Err(head_corrupt("workspace HEAD checksum is invalid"));
        }
        k = k + 1;
    }
    assert(bytes@.skip(bytes@.len() - 32) =~= checksum@);
    let magic = head_magic_bytes();
    if body_length < 8 {
        return Err(head_corrupt("workspace HEAD magic is invalid"));
    }
    let mut m: usize = 0;
    while m < 8
        invariant
            body_length == bytes@.len() - 32,
            bytes@.len() >= 32,
            8 <= body_length,
            m <= 8,
            magic@ == head_magic(),
            bytes@.skip(bytes@.len() - 32) == blake3_derived_key(HEAD_CHECKSUM_DOMAIN@, bytes@.take(bytes@.len() - 32)),
            forall|j: int| 0 <= j < m ==> magic@[j] == bytes@[j],
        decreases 8 - m,
    {
        if magic[m] != bytes[m] {
            proof {
                assert(bytes@.take(bytes@.len() - 32).take(8)[m as int] == bytes@[m as int]);
            }
            return Err(head_corrupt("workspace HEAD magic is invalid"));
        }
        m = m + 1;
    }
    assert(bytes@.take(bytes@.len() - 32).take(8) =~= head_magic());
    let mut fields: Vec<u8> = Vec::new();
    let mut f: usize = 8;
    while f < body_length
        invariant
            body_length == bytes@.len() - 32,
            8 <= f <= body_length,
            fields@ == bytes@.subrange(8, f as int),
        decreases body_length - f,
    {
        fields.push(bytes[f]);
        f = f + 1;
        assert(fields@ =~= bytes@.subrange(8, f as int));
    }
    Ok(fields)
}

/// A framed head whose body starts with the magic checks out, and gives back the body's fields.
pub proof fn lemma_head_frame_round_trip(body: Seq<u8>)
    requires
        body.len() >= 8,
        body.take(8) == head_magic(),
        blake3_derived_key(HEAD_CHECKSUM_DOMAIN@, body).len() == 32,
    ensures
        head_frame_sound(framed_head(body)),
        framed_head(body).subrange(8, framed_head(body).len() - 32) == body.skip(8),
{
    let bytes = framed_head(body);
    assert(bytes.take(bytes.len() - 32) =~= body);
    assert(bytes.skip(bytes.len() - 32) =~= blake3_derived_key(HEAD_CHECKSUM_DOMAIN@, body));
    assert(bytes.subrange(8, bytes.len() - 32) =~= body.skip(8));
}

/// Whether a byte is an ASCII decimal digit.
pub open spec fn is_digit_byte(byte: u8) -> bool {
    48 <= byte <= 57
}

/// The value of a string of ASCII decimal digits, most significant first.
pub open spec fn decimal_value(digits: Seq<u8>) -> int
    decreases digits.len(),
{
    if digits.len() == 0 {
        0
    } else {
        decimal_value(digits.drop_last()) * 10 + (digits.last() - 48)
    }
}

/// The digits of an unsigned integer's text, after an optional leading `+`.
pub open spec fn unsigned_digits(text: Seq<u8>) -> Seq<u8> {
    if text.len() > 0 && text[0] == 43 {
        text.drop_first()
    } else {
        text
    }
}

/// Whether `text` reads as an unsigned integer no greater than `maximum`, as the standard
/// integer parser reads it: an optional `+`, then one or more ASCII digits.
pub open spec fn unsigned_text(text: Seq<u8>, maximum: int) -> bool {
    let digits = unsigned_digits(text);
    &&& digits.len() > 0
    &&& forall|i: int| 0 <= i < digits.len() ==> is_digit_byte(#[trigger] digits[i])
    &&& decimal_value(digits) <= maximum
}

/// The prefix every temporary file name starts with: `.tmp-`.
pub open spec fn temporary_prefix() -> Seq<u8> {
    seq![46u8, 116u8, 109u8, 112u8, 45u8]
}

/// Whether `name` names a temporary file: `.tmp-`, a process number that fits in 32 bits, `-`,
/// and a serial number that fits in 64 bits.
pub open spec fn temporary_file_name(name: Seq<u8>) -> bool {
    let rest = name.skip(5);
    &&& name.len() >= 5
    &&& name.take(5) == temporary_prefix()
    &&& exists|p: int|
        0 <= p < rest.len() && #[trigger] rest[p] == 45
            && unsigned_text(rest.take(p), u32::MAX as int)
            && unsigned_text(rest.skip(p + 1), u64::MAX as int)
}

/// A string of digits is worth at least each of its prefixes.
proof fn lemma_decimal_prefix(digits: Seq<u8>, k: int)
    requires
        0 <= k <= digits.len(),
        forall|i: int| 0 <= i < digits.len() ==> is_digit_byte(#[trigger] digits[i]),
    ensures
        decimal_value(digits.take(k)) <= decimal_value(digits),
        0 <= decimal_value(digits),
    decreases digits.len(),
{
    if digits.len() > 0 {
        let shorter = digits.drop_last();
        if k < digits.len() {
            lemma_decimal_prefix(shorter, k);
            assert(shorter.take(k) =~= digits.take(k));
        } else {
            assert(digits.take(k) =~= digits);
            lemma_decimal_prefix(shorter, 0);
        }
        lemma_decimal_prefix(shorter, 0);
    }
}

/// Whether `bytes[start..end]` reads as an unsigned integer no greater than `maximum`.
fn reads_unsigned(bytes: &[u8], start: usize, end: usize, maximum: u64) -> (r: bool)
    requires
        start <= end <= bytes@.len(),
    ensures
        r == unsigned_text(bytes@.subrange(start as int, end as int), maximum as int),
{
    let ghost text = bytes@.subrange(start as int, end as int);
    let mut first = start;
    if start < end && bytes[start] == 43 {
        first = start + 1;
    }
    let ghost digits = bytes@.subrange(first as int, end as int);
    assert(digits =~= unsigned_digits(text));
    if first == end {
        return false;
    }
    let mut value: u64 = 0;
    let mut i = first;
    while i < end
        invariant
            first <= i <= end <= bytes@.len(),
            digits == bytes@.subrange(first as int, end as int),
            digits == unsigned_digits(bytes@.subrange(start as int, end as int)),
            forall|j: int| 0 <= j < i - first ==> is_digit_byte(#[trigger] digits[j]),
            value == decimal_value(digits.take(i - first)),
            value <= maximum,
        decreases end - i,
    {
        let byte = bytes[i];
        proof {
            assert(digits.take(i - first + 1).drop_last() =~= digits.take(i - first));
            assert(digits[i - first] == byte);
        }
        if byte < 48 || byte > 57 {
            assert(!is_digit_byte(digits[i - first]));
            return false;
        }
        let digit = (byte - 48) as u64;
        if digit > maximum || value > (maximum - digit) / 10 {
            proof {
                assert forall|j: int| 0 <= j < i - first + 1 implies is_digit_byte(#[trigger] digits[j]) by {}
                assert(decimal_value(digits.take(i - first + 1)) == value * 10 + digit);
                assert(value * 10 + digit > maximum) by (nonlinear_arith)
                    requires
                        digit > maximum || value > (maximum - digit) / 10,
                ;
                if forall|j: int| 0 <= j < digits.len() ==> is_digit_byte(#[trigger] digits[j]) {
                    lemma_decimal_prefix(digits, i - first + 1);
                }
            }
            return false;
        }
        proof {
            assert(value * 10 + digit <= maximum) by (nonlinear_arith)
                requires
                    value <= (maximum - digit) / 10,
                    digit <= maximum,
            ;
        }
        value = value * 10 + digit;
        i = i + 1;
    }
    assert(digits.take(end - first) =~= digits);
    true
}

/// Whether `name` names a temporary file: `.tmp-`, a process number that fits in 32 bits, `-`,
/// and a serial number that fits in 64 bits.
pub fn is_temporary_file_name(name: &str) -> (r: bool)
    ensures
        r == temporary_file_name(name.spec_bytes()),
{
    let bytes = name.as_bytes();
    let ghost b = bytes@;
    let len = bytes.len();
    if len < 5 || bytes[0] != 46 || bytes[1] != 116 || bytes[2] != 109 || bytes[3] != 112 || bytes[4] != 45 {
        proof {
            if len >= 5 {
                assert(b.take(5)[0] == b[0] && b.take(5)[1] == b[1] && b.take(5)[2] == b[2]);
                assert(b.take(5)[3] == b[3] && b.take(5)[4] == b[4]);
            }
        }
        return false;
    }
    assert(b.take(5) =~= temporary_prefix());
    let ghost rest = b.skip(5);
    let mut dash: usize = 5;
    while dash < len && bytes[dash] != 45
        invariant
            5 <= dash <= len == b.len(),
            bytes@ == b,
            forall|j: int| 5 <= j < dash ==> b[j] != 45,
        decreases len - dash,
    {
        dash = dash + 1;
    }
    if dash == len {
        proof {
            assert forall|p: int| 0 <= p < rest.len() implies #[trigger] rest[p] != 45 by {
                assert(rest[p] == b[p + 5]);
            }
        }
        return false;
    }
    let process = reads_unsigned(bytes, 5, dash, 0xffff_ffff);
    let serial = reads_unsigned(bytes, dash + 1, len, 0xffff_ffff_ffff_ffff);
    let ghost q: int = dash - 5;
    proof {
        assert(b.subrange(5, dash as int) =~= rest.take(q));
        assert(b.subrange(dash + 1, len as int) =~= rest.skip(q + 1));
        assert(rest[q] == 45);
        if !(process && serial) {
            assert forall|p: int|
                0 <= p < rest.len() && #[trigger] rest[p] == 45 && unsigned_text(rest.take(p), u32::MAX as int)
                implies !unsigned_text(rest.skip(p + 1), u64::MAX as int) by {
                if p < q {
                    assert(rest[p] == b[p + 5]);
                } else if p > q {
                    let digits = unsigned_digits(rest.take(p));
                    if rest.take(p)[0] == 43 {
                        assert(digits[q - 1] == rest[q]);
                    } else {
                        assert(digits[q] == rest[q]);
                    }
                }
            }
        }
    }
    process && serial
}

} // verus!
