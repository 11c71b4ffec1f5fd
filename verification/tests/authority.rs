use lkjscript_platform::authority::{
    authored_digest, check_backup, hex, object_digest, validate_digest, BackupEntry, SOURCE_PROJECT_CONTRACT_VERSION,
};
use lkjscript_platform::digest::ObjectDigest;
use lkjscript_platform::persistence::head_checksum;

#[test]
fn hex_is_lowercase_two_digits_per_byte() {
    assert_eq!(hex(&[0x00, 0xab, 0xff, 0x10]), "00abff10");
    assert_eq!(hex(&[]), "");
}

#[test]
fn digest_text_is_exactly_64_lowercase_hex_digits() {
    let valid = "0123456789abcdef".repeat(4);
    assert!(validate_digest(&valid, "test digest").is_ok());
    let error = validate_digest(&valid[..63], "test digest").unwrap_err();
    assert_eq!(error.code, "source_digest_encoding");
    assert!(validate_digest(&valid.to_uppercase(), "test digest").is_err());
    assert!(validate_digest(&format!("{}g", &valid[..63]), "test digest").is_err());
}

#[test]
fn source_object_digest_derives_a_key_from_kind_and_bytes() {
    let mut material = Vec::new();
    material.extend_from_slice(&6_u64.to_be_bytes());
    material.extend_from_slice(b"module");
    material.extend_from_slice(&3_u64.to_be_bytes());
    material.extend_from_slice(b"abc");
    let expected = blake3::derive_key("lkjscript.source-object.v1", &material);
    let digest = object_digest("module", b"abc");
    assert_eq!(digest, hex(&expected));
    assert_eq!(digest.len(), 64);
    assert!(validate_digest(&digest, "object digest").is_ok());
    assert_ne!(digest, object_digest("module", b"abd"));
    assert_ne!(digest, object_digest("modulf", b"abc"));
}

#[test]
fn head_checksum_is_the_derived_key_of_the_body() {
    let body = b"LKJHDA10 head body";
    let checksum = head_checksum(body);
    assert_eq!(checksum, blake3::derive_key("lkjscript.workspace-head.checksum.v10", body));
    assert_ne!(checksum, *blake3::hash(body).as_bytes());
    assert_ne!(checksum, head_checksum(b"another body"));
}

#[test]
fn object_digests_are_blake3_words() {
    let bytes = b"canonical bytes";
    let hash = blake3::hash(bytes);
    let digest = ObjectDigest::of(bytes);
    let words: Vec<u64> = hash.as_bytes().chunks(8).map(|chunk| u64::from_le_bytes(chunk.try_into().unwrap())).collect();
    assert_eq!(digest, ObjectDigest { w0: words[0], w1: words[1], w2: words[2], w3: words[3] });
}

#[test]
fn authored_digest_hashes_every_path_and_file_in_order() {
    let files = vec![
        ("lkjscript.toml".to_owned(), b"[package]".to_vec()),
        ("src/main.lkj".to_owned(), b"main".to_vec()),
    ];
    let mut hasher = blake3::Hasher::new_derive_key("lkjscript.authored-revision.v1");
    for (path, bytes) in &files {
        hasher.update(&(path.len() as u64).to_be_bytes());
        hasher.update(path.as_bytes());
        hasher.update(&(bytes.len() as u64).to_be_bytes());
        hasher.update(bytes);
    }
    let digest = authored_digest(&files);
    assert_eq!(digest, hex(hasher.finalize().as_bytes()));
    assert!(validate_digest(&digest, "authored digest").is_ok());
    let empty = authored_digest(&vec![]);
    assert_eq!(empty, hex(&blake3::derive_key("lkjscript.authored-revision.v1", b"")));
    assert_ne!(digest, empty);
    let moved = vec![
        ("lkjscript.toml".to_owned(), b"[package]m".to_vec()),
        ("src/main.lkj".to_owned(), b"ain".to_vec()),
    ];
    assert_ne!(digest, authored_digest(&moved));
}

#[test]
fn backup_entries_are_checked_in_order() {
    let record = "a".repeat(64);
    let head = b"{}\n".to_vec();
    let source = b"source text".to_vec();
    let source_digest = object_digest("backup-entry", &source);
    let entries = vec![
        BackupEntry { path: "authority/HEAD.json".to_owned(), digest: object_digest("backup-entry", &head), bytes: head.len() },
        BackupEntry { path: format!("authority/objects/source/{}", "b".repeat(64)), digest: source_digest.clone(), bytes: source.len() },
    ];
    let contents = vec![head.clone(), source.clone()];
    assert_eq!(check_backup(SOURCE_PROJECT_CONTRACT_VERSION, &record, &entries, &contents, 7).unwrap(), 7 + 3 + 11);

    assert_eq!(check_backup(0, &record, &entries, &contents, 7).unwrap_err().code, "source_backup_contract");
    assert_eq!(check_backup(SOURCE_PROJECT_CONTRACT_VERSION, "xyz", &entries, &contents, 7).unwrap_err().code, "source_digest_encoding");
    let mut foreign = entries.clone();
    foreign[1].path = "authority/objects/other/x".to_owned();
    assert_eq!(check_backup(SOURCE_PROJECT_CONTRACT_VERSION, &record, &foreign, &contents, 7).unwrap_err().code, "source_backup_entry_path");
    let repeated = vec![entries[0].clone(), entries[0].clone()];
    let twice = vec![head.clone(), head.clone()];
    assert_eq!(check_backup(SOURCE_PROJECT_CONTRACT_VERSION, &record, &repeated, &twice, 7).unwrap_err().code, "source_backup_entry_duplicate");
    let tampered = vec![head.clone(), b"source text!".to_vec()];
    assert_eq!(check_backup(SOURCE_PROJECT_CONTRACT_VERSION, &record, &entries, &tampered, 7).unwrap_err().code, "source_backup_entry_digest");
    assert_eq!(check_backup(SOURCE_PROJECT_CONTRACT_VERSION, &record, &entries, &contents, u64::MAX).unwrap_err().code, "source_backup_bytes");
}
