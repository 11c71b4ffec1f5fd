use base64::Engine;
use lkjscript_platform::digest::ObjectDigest;
use lkjscript_platform::discovery::{decode_continuation, encode_continuation, CONTINUATION_MAXIMUM_BYTES};
use lkjscript_platform::kernel::{OwnerKey, PackageId};

const PACKAGE: PackageId = PackageId(0x1000_0000_0000_0001);

fn revision(word: u64) -> ObjectDigest {
    ObjectDigest { w0: word, w1: 2, w2: 3, w3: 4 }
}

fn selector(byte: u8) -> [u8; 32] {
    [byte; 32]
}

fn sealed(payload: &[u8]) -> String {
    let mut material = (payload.len() as u64).to_be_bytes().to_vec();
    material.extend_from_slice(payload);
    let mut raw = payload.to_vec();
    raw.extend_from_slice(&blake3::derive_key("lkjscript.builtin-owner-continuation.v1", &material));
    format!("bcont_{}", base64::engine::general_purpose::URL_SAFE_NO_PAD.encode(raw))
}

fn payload(package: u64, revision_word: u64, selector_byte: u8, tag: u8, id: u64) -> Vec<u8> {
    let mut raw = b"LKJBCT01".to_vec();
    raw.extend_from_slice(&1u16.to_be_bytes());
    raw.extend_from_slice(&package.to_le_bytes());
    raw.extend_from_slice(&[0u8; 8]);
    for word in [revision_word, 2, 3, 4] {
        raw.extend_from_slice(&word.to_le_bytes());
    }
    raw.extend_from_slice(&[selector_byte; 32]);
    raw.push(tag);
    raw.extend_from_slice(&id.to_le_bytes());
    raw.extend_from_slice(&[0u8; 8]);
    raw
}

#[test]
fn continuation_round_trips_to_its_resume_owner() {
    let token = encode_continuation(PACKAGE, revision(1), &selector(7), OwnerKey::Member(42)).expect("token");
    assert!(token.starts_with("bcont_"));
    assert!(token.len() <= CONTINUATION_MAXIMUM_BYTES);
    assert_eq!(token, sealed(&payload(PACKAGE.0, 1, 7, 3, 42)));
    let resume = decode_continuation(PACKAGE, revision(1), &selector(7), &token).expect("resume");
    assert_eq!(resume, OwnerKey::Member(42));
}

#[test]
fn continuations_reject_foreign_stale_and_oversized_authority() {
    let owner = OwnerKey::Declaration(1);
    let stale = encode_continuation(PACKAGE, revision(0x0101_0101_0101_0101), &selector(7), owner).expect("stale token");
    assert_eq!(
        decode_continuation(PACKAGE, revision(1), &selector(7), &stale).expect_err("stale continuation").code,
        "builtin_continuation_stale"
    );
    let foreign = encode_continuation(PackageId(0x2000_0000_0000_0001), revision(1), &selector(7), owner).expect("foreign token");
    assert_eq!(
        decode_continuation(PACKAGE, revision(1), &selector(7), &foreign).expect_err("foreign continuation").code,
        "builtin_continuation_foreign"
    );
    let oversized = "x".repeat(CONTINUATION_MAXIMUM_BYTES + 1);
    assert_eq!(
        decode_continuation(PACKAGE, revision(1), &selector(7), &oversized).expect_err("oversized continuation").code,
        "builtin_continuation_bytes"
    );
}

#[test]
fn owner_pages_are_deterministic_revision_bound_and_selector_bound() {
    let token = encode_continuation(PACKAGE, revision(1), &selector(7), OwnerKey::Target(9)).expect("continuation");
    assert_eq!(token, encode_continuation(PACKAGE, revision(1), &selector(7), OwnerKey::Target(9)).expect("repeated token"));
    assert_ne!(token, encode_continuation(PACKAGE, revision(2), &selector(7), OwnerKey::Target(9)).expect("other revision"));
    assert_eq!(
        decode_continuation(PACKAGE, revision(1), &selector(8), &token).expect_err("selector mismatch").code,
        "builtin_continuation_selector"
    );
    let mut malformed = token.as_bytes().to_vec();
    let last = malformed.len() - 1;
    malformed[last] = if malformed[last] == b'A' { b'B' } else { b'A' };
    let malformed = String::from_utf8(malformed).expect("ASCII token");
    let code = decode_continuation(PACKAGE, revision(1), &selector(7), &malformed).expect_err("corrupt token").code;
    assert!(code == "builtin_continuation_integrity" || code == "builtin_continuation_encoding");
}

#[test]
fn malformed_tokens_are_refused_by_the_first_failed_check() {
    let refused = |token: &str| decode_continuation(PACKAGE, revision(1), &selector(7), token).unwrap_err().code;
    assert_eq!(refused("cont_AAAA"), "builtin_continuation_prefix");
    assert_eq!(refused("bcont_A"), "builtin_continuation_encoding");
    assert_eq!(refused("bcont_AA"), "builtin_continuation_length");
    assert_eq!(refused(&sealed(&payload(PACKAGE.0, 1, 7, 9, 5))), "builtin_continuation_resume");
    let mut foreign_contract = payload(PACKAGE.0, 1, 7, 1, 5);
    foreign_contract[9] = 2;
    assert_eq!(refused(&sealed(&foreign_contract)), "builtin_continuation_contract");
    let decoded = decode_continuation(PACKAGE, revision(1), &selector(7), &sealed(&payload(PACKAGE.0, 1, 7, 0, 5)));
    assert_eq!(decoded.expect("module resume"), OwnerKey::Module(5));
}

#[test]
fn reserved_package_and_wide_resume_identity_are_refused() {
    let refused = |token: &str| decode_continuation(PACKAGE, revision(1), &selector(7), token).unwrap_err().code;
    assert_eq!(refused(&sealed(&payload(0, 1, 7, 1, 5))), "builtin_continuation_foreign");
    let mut wide = payload(PACKAGE.0, 1, 7, 1, 5);
    let last = wide.len() - 1;
    wide[last] = 1;
    assert_eq!(refused(&sealed(&wide)), "builtin_continuation_resume");
    let token = encode_continuation(PACKAGE, revision(1), &selector(7), OwnerKey::Member(u64::MAX)).expect("token");
    assert_eq!(token.len(), 192);
}
