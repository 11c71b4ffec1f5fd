//! Continuation tokens of bounded built-in owner discovery: the resume position of one owner
//! page, sealed and bound to one package, one package revision and one normalized selector.

use crate::diagnostic::{static_message, Diagnostic, DiagnosticClass};
use crate::digest::{blake3_derive_key, blake3_derived_key, ObjectDigest};
use crate::kernel::{digest_bytes, owner_key_bytes, owner_key_id, owner_key_tag, push_owner_key, push_u64, OwnerKey, PackageId};
use vstd::bytes::{lemma_auto_spec_u64_to_from_le_bytes, spec_u64_from_le_bytes, spec_u64_to_le_bytes, u64_from_le_bytes};
use vstd::prelude::*;
use vstd::string::{StringExecFns, StringSliceAdditionalSpecFns};
use vstd::utf8::{encode_utf8, is_ascii_chars, is_ascii_chars_encode_utf8};

verus! {

/// The most bytes a continuation token may take.
pub const CONTINUATION_MAXIMUM_BYTES: usize = 320;

/// The bytes of a decoded continuation: the sealed payload and its seal.
pub const CONTINUATION_RAW_BYTES: usize = 139;

/// The bytes of a continuation payload.
pub const CONTINUATION_PAYLOAD_BYTES: usize = 107;

/// The text every continuation token starts with, as bytes: `bcont_`.
pub open spec fn continuation_prefix() -> Seq<u8> {
    seq![98u8, 99u8, 111u8, 110u8, 116u8, 95u8]
}

/// The contract magic of a continuation payload, as bytes: `LKJBCT01`.
pub open spec fn continuation_magic() -> Seq<u8> {
    seq![76u8, 75u8, 74u8, 66u8, 67u8, 84u8, 48u8, 49u8]
}

/// The big-endian bytes of the continuation contract version.
pub open spec fn continuation_version() -> Seq<u8> {
    seq![0u8, 1u8]
}

/// The big-endian bytes of the payload length, which the seal covers first.
pub open spec fn payload_length_bytes() -> Seq<u8> {
    seq![0u8, 0u8, 0u8, 0u8, 0u8, 0u8, 0u8, 107u8]
}

/// Eight zero bytes, which widen an eight-byte identity to its sixteen-byte field.
pub open spec fn zero_word() -> Seq<u8> {
    seq![0u8, 0u8, 0u8, 0u8, 0u8, 0u8, 0u8, 0u8]
}

/// The sixteen-byte field of a package identity: its little-endian bytes, widened with zeros.
pub open spec fn package_field(package: PackageId) -> Seq<u8> {
    spec_u64_to_le_bytes(package.0) + zero_word()
}

/// The seventeen-byte field of an owner key: its form, then its identity widened to sixteen
/// bytes with zeros.
pub open spec fn resume_field(key: OwnerKey) -> Seq<u8> {
    owner_key_bytes(key) + zero_word()
}

/// The payload of the continuation that resumes after `resume` in the page sequence of
/// `selector` over `package` at `revision`.
pub open spec fn continuation_payload(package: PackageId, revision: ObjectDigest, selector: Seq<u8>, resume: OwnerKey) -> Seq<u8> {
    continuation_magic() + continuation_version() + package_field(package) + digest_bytes(revision) + selector
        + resume_field(resume)
}

/// The seal of a payload: the key BLAKE3 derives from its length and its bytes under the
/// continuation domain.
pub open spec fn continuation_seal(payload: Seq<u8>) -> Seq<u8> {
    blake3_derived_key("lkjscript.builtin-owner-continuation.v1"@, payload_length_bytes() + payload)
}

/// The URL-safe unpadded base64 text of `bytes`, as `base64` encodes it.
pub uninterp spec fn base64_url_text(bytes: Seq<u8>) -> Seq<char>;

/// The bytes the URL-safe unpadded base64 text `text` decodes to, as `base64` decodes it; `None`
/// where it refuses the text.
pub uninterp spec fn base64_url_decoded(text: Seq<u8>) -> Option<Seq<u8>>;

/// Whether `c` is a symbol of the URL-safe base64 alphabet.
pub open spec fn url_safe_symbol(c: char) -> bool {
    ('A' <= c <= 'Z') || ('a' <= c <= 'z') || ('0' <= c <= '9') || c == '-' || c == '_'
}

/// `URL_SAFE_NO_PAD.encode` of the `base64` crate: the URL-safe base64 text of `bytes`, without
/// padding, a function of `bytes` alone. The crate writes four symbols of the URL-safe alphabet
/// per three bytes and two or three for a last one or two (`encoded_len` without padding), and
/// its own decoder, in the same configuration, gives the bytes back from that text. The crate
/// panics where the text's length overflows, which the bound on `bytes` rules out.
#[verifier::external_body]
fn base64_url_encode(bytes: &[u8]) -> (r: String)
    requires
        bytes@.len() < 0x4000_0000,
    ensures
        r@ == base64_url_text(bytes@),
        r@.len() == (4 * bytes@.len() + 2) / 3,
        forall|i: int| 0 <= i < r@.len() ==> url_safe_symbol(#[trigger] r@[i]),
        base64_url_decoded(encode_utf8(r@)) == Some(bytes@),
{
    base64::Engine::encode(&base64::engine::general_purpose::URL_SAFE_NO_PAD, bytes)
}

/// `URL_SAFE_NO_PAD.decode` of the `base64` crate: the bytes the URL-safe unpadded base64 text
/// `text` stands for, or `None` where the crate refuses the text; a function of `text` alone.
/// The crate decodes into a buffer of three bytes per started group of four symbols and keeps
/// what it wrote, so the bytes are at most that many.
#[verifier::external_body]
fn base64_url_decode(text: &[u8]) -> (r: Option<Vec<u8>>)
    ensures
        match r {
            Some(bytes) => base64_url_decoded(text@) == Some(bytes@),
            None => base64_url_decoded(text@) is None,
        },
        r matches Some(bytes) ==> bytes@.len() <= (text@.len() + 3) / 4 * 3,
{
    match base64::Engine::decode(&base64::engine::general_purpose::URL_SAFE_NO_PAD, text) {
        Ok(bytes) => Some(bytes),
        Err(_) => None,
    }
}

/// The owner key of form `tag` and identity `id`, where `tag` names a form.
pub open spec fn resume_key(tag: u8, id: u64) -> Option<OwnerKey> {
    if tag == 0 {
        Some(OwnerKey::Module(id))
    } else if tag == 1 {
        Some(OwnerKey::Declaration(id))
    } else if tag == 2 {
        Some(OwnerKey::Target(id))
    } else if tag == 3 {
        Some(OwnerKey::Member(id))
    } else {
        None
    }
}

/// What a decoded continuation `raw` resumes after, checked against `package`, `revision` and
/// the selector digest `selector`; or the code of its refusal.
pub open spec fn continuation_resume(raw: Seq<u8>, package: PackageId, revision: ObjectDigest, selector: Seq<u8>) -> Result<OwnerKey, Seq<char>> {
    if raw.len() != 139 {
        Err("builtin_continuation_length"@)
    } else if raw.subrange(107, 139) != continuation_seal(raw.subrange(0, 107)) {
        Err("builtin_continuation_integrity"@)
    } else if raw.subrange(0, 8) != continuation_magic() || raw.subrange(8, 10) != continuation_version() {
        Err("builtin_continuation_contract"@)
    } else if raw.subrange(10, 26) == zero_word() + zero_word() || raw.subrange(10, 26) != package_field(package) {
        Err("builtin_continuation_foreign"@)
    } else if raw.subrange(26, 58) != digest_bytes(revision) {
        Err("builtin_continuation_stale"@)
    } else if raw.subrange(58, 90) != selector {
        Err("builtin_continuation_selector"@)
    } else if raw.subrange(99, 107) != zero_word() {
        Err("builtin_continuation_resume"@)
    } else {
        match resume_key(raw[90], spec_u64_from_le_bytes(raw.subrange(91, 99))) {
            Some(key) => Ok(key),
            None => Err("builtin_continuation_resume"@),
        }
    }
}

/// What the continuation token with bytes `token` resumes after, or the code of its refusal.
pub open spec fn token_resume(token: Seq<u8>, package: PackageId, revision: ObjectDigest, selector: Seq<u8>) -> Result<OwnerKey, Seq<char>> {
    if token.len() > 320 {
        Err("builtin_continuation_bytes"@)
    } else if token.len() < 6 || token.subrange(0, 6) != continuation_prefix() {
        Err("builtin_continuation_prefix"@)
    } else {
        let encoded = token.subrange(6, token.len() as int);
        match base64_url_decoded(encoded) {
            None => Err("builtin_continuation_encoding"@),
            Some(raw) => if encode_utf8(base64_url_text(raw)) != encoded {
                Err("builtin_continuation_canonical"@)
            } else {
                continuation_resume(raw, package, revision, selector)
            },
        }
    }
}

/// An outcome with each refusal taken by its code.
pub open spec fn outcome<T>(r: Result<T, Diagnostic>) -> Result<T, Seq<char>> {
    match r {
        Ok(value) => Ok(value),
        Err(d) => Err(d.code@),
    }
}

/// Whether `bytes` holds `expected` from `start` on.
fn holds_at(bytes: &Vec<u8>, start: usize, expected: &Vec<u8>) -> (r: bool)
    requires
        start + expected@.len() <= bytes@.len(),
    ensures
        r == (bytes@.subrange(start as int, start + expected@.len()) == expected@),
{
    let n = bytes.len();
    let mut i: usize = 0;
    while i < expected.len()
        invariant
            i <= expected@.len(),
            n == bytes@.len(),
            start + expected@.len() <= bytes@.len(),
            bytes@.subrange(start as int, start + i) == expected@.subrange(0, i as int),
        decreases expected@.len() - i,
    {
        assert(start + i < bytes@.len());
        if bytes[start + i] != expected[i] {
            assert(bytes@.subrange(start as int, start + expected@.len())[i as int] != expected@[i as int]);
            return false;
        }
        i = i + 1;
        assert(bytes@.subrange(start as int, start + i) =~= expected@.subrange(0, i as int));
    }
    assert(expected@.subrange(0, expected@.len() as int) =~= expected@);
    true
}

/// The bytes of `from` from `start` up to `end`.
fn bytes_between(from: &[u8], start: usize, end: usize) -> (r: Vec<u8>)
    requires
        start <= end <= from@.len(),
    ensures
        r@ == from@.subrange(start as int, end as int),
{
    let mut out: Vec<u8> = Vec::new();
    let mut i: usize = start;
    while i < end
        invariant
            start <= i <= end,
            end <= from@.len(),
            out@ == from@.subrange(start as int, i as int),
        decreases end - i,
    {
        out.push(from[i]);
        i = i + 1;
        assert(out@ =~= from@.subrange(start as int, i as int));
    }
    out
}

/// The little-endian bytes of `value`.
fn word_bytes(value: u64) -> (r: Vec<u8>)
    ensures
        r@ == spec_u64_to_le_bytes(value),
{
    let mut bytes: Vec<u8> = Vec::new();
    push_u64(&mut bytes, value);
    assert(bytes@ =~= spec_u64_to_le_bytes(value));
    bytes
}

/// The canonical bytes of a digest.
fn digest_word_bytes(digest: ObjectDigest) -> (r: Vec<u8>)
    ensures
        r@ == digest_bytes(digest),
{
    let mut bytes: Vec<u8> = Vec::new();
    push_u64(&mut bytes, digest.w0);
    push_u64(&mut bytes, digest.w1);
    push_u64(&mut bytes, digest.w2);
    push_u64(&mut bytes, digest.w3);
    assert(bytes@ =~= digest_bytes(digest));
    bytes
}

/// The refusal of a continuation with code `code`.
fn continuation_refusal(class: DiagnosticClass, code: &str, message: &str) -> (r: Diagnostic)
    ensures
        r.class == class,
        r.code@ == code@,
{
    Diagnostic::new(class, code, static_message(message))
}

/// Checks a decoded continuation `raw` against the package, revision and selector digest of
/// the query it is handed to, and gives the owner key it resumes after.
pub fn check_continuation(raw: &Vec<u8>, package: PackageId, revision: ObjectDigest, selector: &[u8; 32]) -> (r: Result<OwnerKey, Diagnostic>)
    ensures
        outcome(r) == continuation_resume(raw@, package, revision, selector@),
        r matches Err(d) ==> d.class == DiagnosticClass::Source,
{
    if raw.len() != CONTINUATION_RAW_BYTES {
        return Err(continuation_refusal(
            DiagnosticClass::Source,
            "builtin_continuation_length",
            "built-in continuation has a foreign decoded length",
        ));
    }
    let payload = bytes_between(raw.as_slice(), 0, CONTINUATION_PAYLOAD_BYTES);
    let mut material: Vec<u8> = vec![0u8, 0u8, 0u8, 0u8, 0u8, 0u8, 0u8, 107u8];
    let mut sealed = bytes_between(raw.as_slice(), 0, CONTINUATION_PAYLOAD_BYTES);
    material.append(&mut sealed);
    let seal = blake3_derive_key("lkjscript.builtin-owner-continuation.v1", material.as_slice());
    let mut expected_seal: Vec<u8> = Vec::new();
    let mut k: usize = 0;
    while k < 32
        invariant
            k <= 32,
            expected_seal@ == seal@.subrange(0, k as int),
        decreases 32 - k,
    {
        expected_seal.push(seal[k]);
        k = k + 1;
        assert(expected_seal@ =~= seal@.subrange(0, k as int));
    }
    assert(seal@.subrange(0, 32) =~= seal@);
    proof {
        assert(material@ =~= payload_length_bytes() + raw@.subrange(0, 107));
        assert(payload@ == raw@.subrange(0, 107));
    }
    if !holds_at(raw, CONTINUATION_PAYLOAD_BYTES, &expected_seal) {
        return Err(continuation_refusal(
            DiagnosticClass::Source,
            "builtin_continuation_integrity",
            "built-in continuation integrity check failed",
        ));
    }
    let magic: Vec<u8> = vec![76u8, 75u8, 74u8, 66u8, 67u8, 84u8, 48u8, 49u8];
    let version: Vec<u8> = vec![0u8, 1u8];
    assert(magic@ =~= continuation_magic());
    assert(version@ =~= continuation_version());
    if !holds_at(raw, 0, &magic) || !holds_at(raw, 8, &version) {
        return Err(continuation_refusal(
            DiagnosticClass::Source,
            "builtin_continuation_contract",
            "built-in continuation uses a predecessor or foreign contract",
        ));
    }
    let mut package_bytes = word_bytes(package.0);
    let zeros: Vec<u8> = vec![0u8, 0u8, 0u8, 0u8, 0u8, 0u8, 0u8, 0u8];
    let reserved: Vec<u8> = vec![0u8, 0u8, 0u8, 0u8, 0u8, 0u8, 0u8, 0u8, 0u8, 0u8, 0u8, 0u8, 0u8, 0u8, 0u8, 0u8];
    let mut widening = vec![0u8, 0u8, 0u8, 0u8, 0u8, 0u8, 0u8, 0u8];
    package_bytes.append(&mut widening);
    proof {
        lemma_auto_spec_u64_to_from_le_bytes();
        assert(zeros@ =~= zero_word());
        assert(reserved@ =~= zero_word() + zero_word());
        assert(package_bytes@ =~= package_field(package));
    }
    if holds_at(raw, 10, &reserved) {
        return Err(continuation_refusal(
            DiagnosticClass::Source,
            "builtin_continuation_foreign",
            "built-in continuation contains the reserved package identity",
        ));
    }
    if !holds_at(raw, 10, &package_bytes) {
        return Err(continuation_refusal(
            DiagnosticClass::Source,
            "builtin_continuation_foreign",
            "built-in continuation belongs to a foreign package",
        ));
    }
    let revision_bytes = digest_word_bytes(revision);
    if !holds_at(raw, 26, &revision_bytes) {
        return Err(continuation_refusal(
            DiagnosticClass::Source,
            "builtin_continuation_stale",
            "built-in continuation belongs to a different package revision",
        ));
    }
    let selector_bytes = bytes_between(selector.as_slice(), 0, 32);
    assert(selector@.subrange(0, 32) =~= selector@);
    if !holds_at(raw, 58, &selector_bytes) {
        return Err(continuation_refusal(
            DiagnosticClass::Source,
            "builtin_continuation_selector",
            "built-in continuation selector does not match the normalized query",
        ));
    }
    if !holds_at(raw, 99, &zeros) {
        return Err(continuation_refusal(
            DiagnosticClass::Source,
            "builtin_continuation_resume",
            "built-in continuation resume key is outside the owner identity range",
        ));
    }
    let id_bytes = bytes_between(raw.as_slice(), 91, 99);
    let id = u64_from_le_bytes(id_bytes.as_slice());
    let tag = raw[90];
    if tag == 0 {
        Ok(OwnerKey::Module(id))
    } else if tag == 1 {
        Ok(OwnerKey::Declaration(id))
    } else if tag == 2 {
        Ok(OwnerKey::Target(id))
    } else if tag == 3 {
        Ok(OwnerKey::Member(id))
    } else {
        Err(continuation_refusal(
            DiagnosticClass::Source,
            "builtin_continuation_resume",
            "built-in continuation resume key is invalid",
        ))
    }
}

/// Decodes the continuation token `token` handed to a query over `package` at `revision` with
/// the selector digest `selector`, and gives the owner key the next page resumes after.
pub fn decode_continuation(package: PackageId, revision: ObjectDigest, selector: &[u8; 32], token: &str) -> (r: Result<OwnerKey, Diagnostic>)
    ensures
        outcome(r) == token_resume(token.spec_bytes(), package, revision, selector@),
        r matches Err(d) ==> d.class == (if token.spec_bytes().len() > 320 {
            DiagnosticClass::Resource
        } else {
            DiagnosticClass::Source
        }),
{
    let bytes = token.as_bytes();
    if bytes.len() > CONTINUATION_MAXIMUM_BYTES {
        return Err(continuation_refusal(
            DiagnosticClass::Resource,
            "builtin_continuation_bytes",
            "built-in continuation exceeds its encoded byte bound",
        ));
    }
    let prefix: Vec<u8> = vec![98u8, 99u8, 111u8, 110u8, 116u8, 95u8];
    assert(prefix@ =~= continuation_prefix());
    let whole = bytes_between(bytes, 0, bytes.len());
    assert(bytes@.subrange(0, bytes@.len() as int) =~= bytes@);
    if bytes.len() < 6 || !holds_at(&whole, 0, &prefix) {
        return Err(continuation_refusal(
            DiagnosticClass::Source,
            "builtin_continuation_prefix",
            "built-in continuation has a foreign prefix",
        ));
    }
    let encoded = bytes_between(bytes, 6, bytes.len());
    let raw = match base64_url_decode(encoded.as_slice()) {
        Some(raw) => raw,
        None => {
            return Err(continuation_refusal(
                DiagnosticClass::Source,
                "builtin_continuation_encoding",
                "built-in continuation is not canonical base64url",
            ));
        },
    };
    let text = base64_url_encode(raw.as_slice());
    let text_bytes = text.as_str().as_bytes();
    let reencoded = bytes_between(text_bytes, 0, text_bytes.len());
    assert(text_bytes@.subrange(0, text_bytes@.len() as int) =~= text_bytes@);
    if reencoded.len() != encoded.len() || !holds_at(&reencoded, 0, &encoded) {
        proof {
            if reencoded@.len() == encoded@.len() {
                assert(reencoded@.subrange(0, encoded@.len() as int) =~= reencoded@);
            }
        }
        return Err(continuation_refusal(
            DiagnosticClass::Source,
            "builtin_continuation_canonical",
            "built-in continuation is not canonically encoded",
        ));
    }
    assert(reencoded@.subrange(0, encoded@.len() as int) =~= reencoded@);
    check_continuation(&raw, package, revision, selector)
}

/// The continuation token that resumes after `resume` in the page sequence of the selector
/// digest `selector` over `package` at `revision`. The token always fits its bound, and it
/// decodes, against the same package, revision and selector, to `resume`, unless the package
/// identity is the reserved all-zero one.
pub fn encode_continuation(package: PackageId, revision: ObjectDigest, selector: &[u8; 32], resume: OwnerKey) -> (r: Result<String, Diagnostic>)
    ensures
        r is Ok,
        r matches Ok(token) ==> encode_utf8(token@).len() <= 320
            && token@ == "bcont_"@ + base64_url_text(
                continuation_payload(package, revision, selector@, resume)
                    + continuation_seal(continuation_payload(package, revision, selector@, resume)),
            ),
        r matches Ok(token) ==> (package_field(package) != zero_word() + zero_word()
            ==> token_resume(encode_utf8(token@), package, revision, selector@) == Ok::<OwnerKey, Seq<char>>(resume)),
{
    let mut raw: Vec<u8> = vec![76u8, 75u8, 74u8, 66u8, 67u8, 84u8, 48u8, 49u8, 0u8, 1u8];
    push_u64(&mut raw, package.0);
    let mut widening: Vec<u8> = vec![0u8, 0u8, 0u8, 0u8, 0u8, 0u8, 0u8, 0u8];
    raw.append(&mut widening);
    let mut revision_bytes = digest_word_bytes(revision);
    raw.append(&mut revision_bytes);
    let mut selector_bytes = bytes_between(selector.as_slice(), 0, 32);
    assert(selector@.subrange(0, 32) =~= selector@);
    raw.append(&mut selector_bytes);
    push_owner_key(&mut raw, resume);
    let mut padding: Vec<u8> = vec![0u8, 0u8, 0u8, 0u8, 0u8, 0u8, 0u8, 0u8];
    raw.append(&mut padding);
    let ghost payload = continuation_payload(package, revision, selector@, resume);
    assert(raw@ =~= payload);
    proof {
        lemma_auto_spec_u64_to_from_le_bytes();
        assert(payload.len() == 107);
    }
    let mut material: Vec<u8> = vec![0u8, 0u8, 0u8, 0u8, 0u8, 0u8, 0u8, 107u8];
    let mut copy = bytes_between(raw.as_slice(), 0, raw.len());
    assert(raw@.subrange(0, raw@.len() as int) =~= raw@);
    material.append(&mut copy);
    assert(material@ =~= payload_length_bytes() + payload);
    let seal = blake3_derive_key("lkjscript.builtin-owner-continuation.v1", material.as_slice());
    let mut k: usize = 0;
    while k < 32
        invariant
            k <= 32,
            raw@ == payload + seal@.subrange(0, k as int),
        decreases 32 - k,
    {
        raw.push(seal[k]);
        k = k + 1;
        assert(raw@ =~= payload + seal@.subrange(0, k as int));
    }
    assert(seal@.subrange(0, 32) =~= seal@);
    let text = base64_url_encode(raw.as_slice());
    let mut token = String::from_str("bcont_");
    token.append(text.as_str());
    let length = token.as_str().as_bytes().len();
    proof {
        reveal_strlit("bcont_");
        assert(text@.len() == 186);
        assert(is_ascii_chars(text@)) by {
            assert forall|i: int| 0 <= i < text@.len() implies '\0' <= #[trigger] text@[i] <= '\u{7f}' by {
                assert(url_safe_symbol(text@[i]));
            }
        }
        assert(is_ascii_chars(token@)) by {
            assert forall|i: int| 0 <= i < token@.len() implies '\0' <= #[trigger] token@[i] <= '\u{7f}' by {
                if i >= 6 {
                    assert(token@[i] == text@[i - 6]);
                }
            }
        }
        is_ascii_chars_encode_utf8(token@);
        is_ascii_chars_encode_utf8(text@);
        let bytes = encode_utf8(token@);
        assert(bytes.len() == 192);
        assert(length == bytes.len());
        if package_field(package) != zero_word() + zero_word() {
            assert(bytes.subrange(0, 6) =~= continuation_prefix()) by {
                assert forall|i: int| 0 <= i < 6 implies bytes.subrange(0, 6)[i] == continuation_prefix()[i] by {
                    assert(bytes[i] == token@[i] as u8);
                }
            }
            let encoded = bytes.subrange(6, bytes.len() as int);
            assert(encoded =~= encode_utf8(text@)) by {
                assert forall|i: int| 0 <= i < encoded.len() implies encoded[i] == encode_utf8(text@)[i] by {
                    assert(bytes[i + 6] == token@[i + 6] as u8);
                    assert(token@[i + 6] == text@[i]);
                    assert(encode_utf8(text@)[i] == text@[i] as u8);
                }
            }
            let all = raw@;
            assert(all.subrange(107, 139) =~= seal@);
            assert(all.subrange(0, 107) =~= payload);
            assert(all.subrange(0, 8) =~= continuation_magic());
            assert(all.subrange(8, 10) =~= continuation_version());
            assert(all.subrange(10, 26) =~= package_field(package));
            assert(all.subrange(26, 58) =~= digest_bytes(revision));
            assert(all.subrange(58, 90) =~= selector@);
            assert(all.subrange(90, 107) =~= resume_field(resume));
            assert(all.subrange(99, 107) =~= zero_word());
            assert(all[90] == owner_key_tag(resume));
            assert(all.subrange(91, 99) =~= spec_u64_to_le_bytes(owner_key_id(resume)));
            assert(resume_key(all[90], spec_u64_from_le_bytes(all.subrange(91, 99))) == Some(resume));
            assert(continuation_resume(all, package, revision, selector@) == Ok::<OwnerKey, Seq<char>>(resume));
        }
    }
    if length > CONTINUATION_MAXIMUM_BYTES {
        return Err(continuation_refusal(
            DiagnosticClass::Infrastructure,
            "builtin_continuation_bound",
            "built-in continuation encoder exceeded its public bound",
        ));
    }
    Ok(token)
}

} // verus!
