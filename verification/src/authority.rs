//! Content-addressed names of source-authority objects and their text form.

use crate::diagnostic::{same_text, static_message, Diagnostic, DiagnosticClass};
use crate::artifact::lex_less;
use crate::digest::{blake3_derive_key, blake3_derived_key};
use vstd::prelude::*;
use vstd::string::*;
use vstd::utf8::encode_utf8;

verus! {

/// The lowercase hexadecimal digits, in value order.
pub const HEX_DIGITS: &'static str = "0123456789abcdef";

/// The key-derivation context of source-object digests.
pub const SOURCE_OBJECT_CONTEXT: &'static str = "lkjscript.source-object.v1";

/// The key-derivation context of authored-revision digests.
pub const AUTHORED_REVISION_CONTEXT: &'static str = "lkjscript.authored-revision.v1";

/// The lowercase hexadecimal text of `bytes`, two digits per byte, high nibble first.
pub open spec fn hex_text(bytes: Seq<u8>) -> Seq<char>
    decreases bytes.len(),
{
    if bytes.len() == 0 {
        Seq::empty()
    } else {
        hex_text(bytes.drop_last()) + seq![HEX_DIGITS@[(bytes.last() / 16) as int], HEX_DIGITS@[(bytes.last() % 16) as int]]
    }
}

/// Whether a character is a lowercase hexadecimal digit.
pub open spec fn is_lower_hex(c: char) -> bool {
    ('0' <= c && c <= '9') || ('a' <= c && c <= 'f')
}

/// Whether a text is a digest: exactly 64 lowercase hexadecimal digits.
pub open spec fn is_digest_text(text: Seq<char>) -> bool {
    text.len() == 64 && forall|i: int| 0 <= i < text.len() ==> is_lower_hex(#[trigger] text[i])
}

/// The eight big-endian bytes of a counter.
pub open spec fn be_bytes(value: u64) -> Seq<u8> {
    seq![
        (value >> 56u64) as u8,
        (value >> 48u64) as u8,
        (value >> 40u64) as u8,
        (value >> 32u64) as u8,
        (value >> 24u64) as u8,
        (value >> 16u64) as u8,
        (value >> 8u64) as u8,
        value as u8
    ]
}

/// Two byte strings, each after its big-endian length: the material of a source object (its kind
/// and bytes) and of one authored file (its path and bytes).
pub open spec fn length_prefixed(first: Seq<u8>, second: Seq<u8>) -> Seq<u8> {
    be_bytes(first.len() as u64) + first + be_bytes(second.len() as u64) + second
}

/// The material hashed for an authored revision: each file's path and bytes, in the order given.
pub open spec fn authored_material(files: Seq<(Seq<u8>, Seq<u8>)>) -> Seq<u8>
    decreases files.len(),
{
    if files.len() == 0 {
        Seq::empty()
    } else {
        authored_material(files.drop_last()) + length_prefixed(files.last().0, files.last().1)
    }
}

/// The bytes of each authored file's path, with its contents.
pub open spec fn file_bytes(files: Seq<(String, Vec<u8>)>) -> Seq<(Seq<u8>, Seq<u8>)> {
    files.map_values(|file: (String, Vec<u8>)| (encode_utf8(file.0@), file.1@))
}

/// Appends the big-endian bytes of `value`.
fn push_be(material: &mut Vec<u8>, value: u64)
    ensures
        final(material)@ == old(material)@ + be_bytes(value),
{
    material.push((value >> 56u64) as u8);
    material.push((value >> 48u64) as u8);
    material.push((value >> 40u64) as u8);
    material.push((value >> 32u64) as u8);
    material.push((value >> 24u64) as u8);
    material.push((value >> 16u64) as u8);
    material.push((value >> 8u64) as u8);
    material.push(value as u8);
    assert(final(material)@ =~= old(material)@ + be_bytes(value));
}

/// Appends the bytes of a slice.
fn push_all(material: &mut Vec<u8>, bytes: &[u8])
    ensures
        final(material)@ == old(material)@ + bytes@,
{
    let mut i: usize = 0;
    while i < bytes.len()
        invariant
            i <= bytes@.len(),
            material@ == old(material)@ + bytes@.take(i as int),
        decreases bytes@.len() - i,
    {
        material.push(bytes[i]);
        i = i + 1;
        assert(material@ =~= old(material)@ + bytes@.take(i as int));
    }
    assert(bytes@.take(bytes@.len() as int) =~= bytes@);
}

/// The lowercase hexadecimal text of `bytes`.
pub fn hex(bytes: &[u8]) -> (r: String)
    ensures
        r@ == hex_text(bytes@),
{
    let mut text = String::new();
    let mut i: usize = 0;
    proof {
        reveal_strlit("0123456789abcdef");
        assert(bytes@.take(0) =~= Seq::<u8>::empty());
    }
    while i < bytes.len()
        invariant
            i <= bytes@.len(),
            text@ == hex_text(bytes@.take(i as int)),
            HEX_DIGITS@.len() == 16,
        decreases bytes@.len() - i,
    {
        let byte = bytes[i];
        let high = (byte / 16) as usize;
        let low = (byte % 16) as usize;
        text.append(HEX_DIGITS.substring_char(high, high + 1));
        text.append(HEX_DIGITS.substring_char(low, low + 1));
        proof {
            let prefix = bytes@.take(i + 1);
            assert(prefix.drop_last() =~= bytes@.take(i as int));
            assert(prefix.last() == byte);
            assert(HEX_DIGITS@.subrange(high as int, high + 1) =~= seq![HEX_DIGITS@[high as int]]);
            assert(HEX_DIGITS@.subrange(low as int, low + 1) =~= seq![HEX_DIGITS@[low as int]]);
            assert(text@ =~= hex_text(prefix));
        }
        i = i + 1;
    }
    assert(bytes@.take(bytes@.len() as int) =~= bytes@);
    text
}

/// Refuses a text that is not 64 lowercase hexadecimal digits.
pub fn validate_digest(value: &str, label: &str) -> (r: Result<(), Diagnostic>)
    ensures
        r is Ok <==> is_digest_text(value@),
        r matches Err(d) ==> d.class == DiagnosticClass::Corrupt && d.code@ == "source_digest_encoding"@,
{
    let length = value.unicode_len();
    let mut valid = length == 64;
    if valid {
        let mut i: usize = 0;
        while i < length
            invariant
                length == value@.len(),
                i <= length,
                valid == (forall|j: int| 0 <= j < i ==> is_lower_hex(#[trigger] value@[j])),
            decreases length - i,
        {
            let c = value.get_char(i);
            if !(('0' <= c && c <= '9') || ('a' <= c && c <= 'f')) {
                valid = false;
            }
            i = i + 1;
        }
    }
    if !valid {
        return Err(Diagnostic::new(
            DiagnosticClass::Corrupt,
            "source_digest_encoding",
            static_message("a digest is not 64 lowercase hexadecimal characters"),
        ));
    }
    Ok(())
}

/// The name of a source object: the hexadecimal key BLAKE3 derives from its kind and bytes.
pub fn object_digest(kind: &str, bytes: &[u8]) -> (r: String)
    ensures
        r@ == hex_text(blake3_derived_key(SOURCE_OBJECT_CONTEXT@, length_prefixed(kind.spec_bytes(), bytes@))),
{
    let kind_bytes = kind.as_bytes();
    let mut material: Vec<u8> = Vec::new();
    push_be(&mut material, kind_bytes.len() as u64);
    push_all(&mut material, kind_bytes);
    push_be(&mut material, bytes.len() as u64);
    push_all(&mut material, bytes);
    let key = blake3_derive_key(SOURCE_OBJECT_CONTEXT, material.as_slice());
    hex(key.as_slice())
}

/// The digest of an authored revision: the hexadecimal key BLAKE3 derives from every file's path
/// and bytes. `files` is given in strictly increasing byte order of the paths, so that no path
/// occurs twice, as the keys of an ordered map come.
pub fn authored_digest(files: &Vec<(String, Vec<u8>)>) -> (r: String)
    requires
        forall|i: int, j: int| #![trigger files@[i], files@[j]]
            0 <= i < j < files@.len() ==> lex_less(encode_utf8(files@[i].0@), encode_utf8(files@[j].0@)),
    ensures
        r@ == hex_text(blake3_derived_key(AUTHORED_REVISION_CONTEXT@, authored_material(file_bytes(files@)))),
{
    let mut material: Vec<u8> = Vec::new();
    let mut i: usize = 0;
    while i < files.len()
        invariant
            i <= files@.len(),
            material@ == authored_material(file_bytes(files@).take(i as int)),
        decreases files@.len() - i,
    {
        let path = files[i].0.as_str().as_bytes();
        let bytes = files[i].1.as_slice();
        push_be(&mut material, path.len() as u64);
        push_all(&mut material, path);
        push_be(&mut material, bytes.len() as u64);
        push_all(&mut material, bytes);
        proof {
            let all = file_bytes(files@);
            assert(all.take(i + 1).drop_last() =~= all.take(i as int));
            assert(all.take(i + 1).last() == all[i as int]);
            assert(material@ =~= authored_material(all.take(i + 1)));
        }
        i = i + 1;
    }
    assert(file_bytes(files@).take(files@.len() as int) =~= file_bytes(files@));
    let key = blake3_derive_key(AUTHORED_REVISION_CONTEXT, material.as_slice());
    hex(key.as_slice())
}

/// Every byte's two digits are lowercase hexadecimal.
proof fn lemma_hex_text_digits(bytes: Seq<u8>)
    ensures
        hex_text(bytes).len() == 2 * bytes.len(),
        forall|i: int| 0 <= i < hex_text(bytes).len() ==> is_lower_hex(#[trigger] hex_text(bytes)[i]),
    decreases bytes.len(),
{
    reveal_strlit("0123456789abcdef");
    if bytes.len() > 0 {
        lemma_hex_text_digits(bytes.drop_last());
        let head = hex_text(bytes.drop_last());
        let tail = seq![HEX_DIGITS@[(bytes.last() / 16) as int], HEX_DIGITS@[(bytes.last() % 16) as int]];
        assert forall|i: int| 0 <= i < hex_text(bytes).len() implies is_lower_hex(#[trigger] hex_text(bytes)[i]) by {
            if i >= head.len() {
                assert(hex_text(bytes)[i] == tail[i - head.len()]);
                assert(forall|d: int| 0 <= d < 16 ==> is_lower_hex(#[trigger] HEX_DIGITS@[d]));
            } else {
                assert(hex_text(bytes)[i] == head[i]);
            }
        }
    }
}

/// The hexadecimal text of any 32-byte key is a valid digest text.
pub proof fn lemma_hex_of_key_is_digest(key: Seq<u8>)
    requires
        key.len() == 32,
    ensures
        is_digest_text(hex_text(key)),
{
    lemma_hex_text_digits(key);
}

/// The source-project contract a backup is written under.
pub const SOURCE_PROJECT_CONTRACT_VERSION: u16 = 1;

/// One entry of a backup manifest: a path in the authority layout, its byte count and the digest
/// of its bytes.
#[derive(Clone, Debug)]
pub struct BackupEntry {
    pub path: String,
    pub digest: String,
    pub bytes: usize,
}

/// Whether `path` is `prefix` followed by a digest text.
pub open spec fn prefixed_digest_text(path: Seq<char>, prefix: Seq<char>) -> bool {
    &&& path.len() >= prefix.len()
    &&& path.take(prefix.len() as int) == prefix
    &&& is_digest_text(path.skip(prefix.len() as int))
}

/// Whether `path` names a file of the current authority layout: its head, or a record or an
/// object under its digest.
pub open spec fn backup_layout_path(path: Seq<char>) -> bool {
    ||| path == "authority/HEAD.json"@
    ||| prefixed_digest_text(path, "authority/records/"@)
    ||| prefixed_digest_text(path, "authority/objects/source/"@)
    ||| prefixed_digest_text(path, "authority/objects/manifest/"@)
    ||| prefixed_digest_text(path, "authority/objects/dependency/"@)
}

/// `prefix` followed by a digest text is `prefix`-prefixed digest text.
proof fn lemma_prefixed_digest(prefix: Seq<char>, digest: Seq<char>)
    requires
        is_digest_text(digest),
    ensures
        prefixed_digest_text(prefix + digest, prefix),
{
    assert((prefix + digest).take(prefix.len() as int) =~= prefix);
    assert((prefix + digest).skip(prefix.len() as int) =~= digest);
}

/// Every file a backup of the current authority layout writes is a layout path: the head, and
/// each record and each source, manifest and dependency object under its 64-digit lowercase
/// hexadecimal digest.
pub proof fn authority_files_are_layout_paths(digest: Seq<char>)
    requires
        digest.len() == 64,
        forall|i: int| 0 <= i < 64 ==> ('0' <= #[trigger] digest[i] && digest[i] <= '9') || ('a' <= digest[i] && digest[i] <= 'f'),
    ensures
        backup_layout_path("authority/HEAD.json"@),
        backup_layout_path("authority/records/"@ + digest),
        backup_layout_path("authority/objects/source/"@ + digest),
        backup_layout_path("authority/objects/manifest/"@ + digest),
        backup_layout_path("authority/objects/dependency/"@ + digest),
{
    assert(is_digest_text(digest));
    lemma_prefixed_digest("authority/records/"@, digest);
    lemma_prefixed_digest("authority/objects/source/"@, digest);
    lemma_prefixed_digest("authority/objects/manifest/"@, digest);
    lemma_prefixed_digest("authority/objects/dependency/"@, digest);
}

/// Whether `path` is `prefix` followed by exactly 64 lowercase hexadecimal digits.
pub open spec fn digest_under(path: Seq<char>, prefix: Seq<char>) -> bool {
    &&& path.len() == prefix.len() + 64
    &&& path.take(prefix.len() as int) == prefix
    &&& forall|i: int| prefix.len() <= i < path.len()
        ==> ('0' <= #[trigger] path[i] && path[i] <= '9') || ('a' <= path[i] && path[i] <= 'f')
}

/// A backup holds nothing outside the authority layout: its head, and records and source,
/// manifest and dependency objects each named by a 64-digit lowercase hexadecimal digest.
pub proof fn layout_paths_are_authority_files(path: Seq<char>)
    ensures
        backup_layout_path(path) ==> {
            ||| path == "authority/HEAD.json"@
            ||| digest_under(path, "authority/records/"@)
            ||| digest_under(path, "authority/objects/source/"@)
            ||| digest_under(path, "authority/objects/manifest/"@)
            ||| digest_under(path, "authority/objects/dependency/"@)
        },
{
    let prefixes = seq!["authority/records/"@, "authority/objects/source/"@, "authority/objects/manifest/"@, "authority/objects/dependency/"@];
    if backup_layout_path(path) && path != "authority/HEAD.json"@ {
        assert forall|k: int| 0 <= k < 4 && prefixed_digest_text(path, #[trigger] prefixes[k]) implies digest_under(path, prefixes[k]) by {
            let prefix = prefixes[k];
            let tail = path.skip(prefix.len() as int);
            assert forall|i: int| prefix.len() <= i < path.len()
                implies ('0' <= #[trigger] path[i] && path[i] <= '9') || ('a' <= path[i] && path[i] <= 'f') by {
                assert(path[i] == tail[i - prefix.len()]);
                assert(is_lower_hex(tail[i - prefix.len()]));
            }
        }
        assert(prefixes[0] == "authority/records/"@);
        assert(prefixes[1] == "authority/objects/source/"@);
        assert(prefixes[2] == "authority/objects/manifest/"@);
        assert(prefixes[3] == "authority/objects/dependency/"@);
    }
}

/// The digest a backup names an entry's bytes by.
pub open spec fn backup_entry_digest(bytes: Seq<u8>) -> Seq<char> {
    hex_text(blake3_derived_key(SOURCE_OBJECT_CONTEXT@, length_prefixed("backup-entry".spec_bytes(), bytes)))
}

/// A backup refusal: the class and the code of a diagnostic.
pub type BackupRefusal = (DiagnosticClass, Seq<char>);

/// What checking the first `n` entries gives, from `start` counted bytes: the bytes counted, or
/// the first refusal.
pub open spec fn backup_entries_check(
    entries: Seq<BackupEntry>,
    contents: Seq<Seq<u8>>,
    n: nat,
    start: u64,
) -> Result<u64, BackupRefusal>
    decreases n,
{
    if n == 0 {
        Ok(start)
    } else {
        match backup_entries_check(entries, contents, (n - 1) as nat, start) {
            Err(refusal) => Err(refusal),
            Ok(total) => {
                let i = n - 1;
                let entry = entries[i];
                if !backup_layout_path(entry.path@) {
                    Err((DiagnosticClass::Corrupt, "source_backup_entry_path"@))
                } else if !is_digest_text(entry.digest@) {
                    Err((DiagnosticClass::Corrupt, "source_digest_encoding"@))
                } else if exists|j: int| 0 <= j < i && (#[trigger] entries[j]).path@ == entry.path@ {
                    Err((DiagnosticClass::Corrupt, "source_backup_entry_duplicate"@))
                } else if contents[i].len() != entry.bytes || backup_entry_digest(contents[i]) != entry.digest@ {
                    Err((DiagnosticClass::Corrupt, "source_backup_entry_digest"@))
                } else if total + contents[i].len() > u64::MAX {
                    Err((DiagnosticClass::Resource, "source_backup_bytes"@))
                } else {
                    Ok((total + contents[i].len()) as u64)
                }
            },
        }
    }
}

/// A refusal among the first entries is the refusal of every longer run of them.
proof fn lemma_backup_refusal_persists(
    entries: Seq<BackupEntry>,
    contents: Seq<Seq<u8>>,
    k: nat,
    n: nat,
    start: u64,
)
    requires
        k <= n,
        backup_entries_check(entries, contents, k, start) is Err,
    ensures
        backup_entries_check(entries, contents, n, start) == backup_entries_check(entries, contents, k, start),
    decreases n,
{
    if n > k {
        lemma_backup_refusal_persists(entries, contents, k, (n - 1) as nat, start);
    }
}

/// What checking a backup manifest gives over the bytes read for its entries.
pub open spec fn backup_check(
    contract_version: u16,
    current_record_digest: Seq<char>,
    entries: Seq<BackupEntry>,
    contents: Seq<Seq<u8>>,
    manifest_bytes: u64,
) -> Result<u64, BackupRefusal> {
    if contract_version != SOURCE_PROJECT_CONTRACT_VERSION {
        Err((DiagnosticClass::Source, "source_backup_contract"@))
    } else if !is_digest_text(current_record_digest) {
        Err((DiagnosticClass::Corrupt, "source_digest_encoding"@))
    } else {
        backup_entries_check(entries, contents, entries.len(), manifest_bytes)
    }
}

/// Whether `path` is `prefix` followed by a digest text.
fn is_prefixed_digest(path: &str, prefix: &str) -> (r: bool)
    ensures
        r == prefixed_digest_text(path@, prefix@),
{
    let n = path.unicode_len();
    let m = prefix.unicode_len();
    if n < m {
        return false;
    }
    let mut i: usize = 0;
    while i < m
        invariant
            n == path@.len(),
            m == prefix@.len(),
            m <= n,
            i <= m,
            forall|j: int| 0 <= j < i ==> path@[j] == prefix@[j],
        decreases m - i,
    {
        if path.get_char(i) != prefix.get_char(i) {
            proof {
                assert(path@.take(m as int)[i as int] == path@[i as int]);
            }
            return false;
        }
        i = i + 1;
    }
    assert(path@.take(m as int) =~= prefix@);
    let rest = path.substring_char(m, n);
    assert(rest@ =~= path@.skip(m as int));
    validate_digest(rest, "backup entry path digest").is_ok()
}

/// Whether `path` names a file of the current authority layout.
pub fn is_backup_layout_path(path: &str) -> (r: bool)
    ensures
        r == backup_layout_path(path@),
{
    same_text(path, "authority/HEAD.json")
        || is_prefixed_digest(path, "authority/records/")
        || is_prefixed_digest(path, "authority/objects/source/")
        || is_prefixed_digest(path, "authority/objects/manifest/")
        || is_prefixed_digest(path, "authority/objects/dependency/")
}

/// A backup refusal with a fixed message.
fn backup_error(class: DiagnosticClass, code: &str, message: &str) -> (r: Diagnostic)
    ensures
        r.class == class,
        r.code@ == code@,
{
    Diagnostic::new(class, code, static_message(message))
}

/// Checks a backup manifest against the bytes read for its entries: its contract, the encoding
/// of its current record digest, and each entry's path, digest encoding, uniqueness, size and
/// digest; returns the bytes counted from `manifest_bytes` on.
pub fn check_backup(
    contract_version: u16,
    current_record_digest: &str,
    entries: &Vec<BackupEntry>,
    contents: &Vec<Vec<u8>>,
    manifest_bytes: u64,
) -> (r: Result<u64, Diagnostic>)
    requires
        contents@.len() == entries@.len(),
    ensures
        match backup_check(
            contract_version,
            current_record_digest@,
            entries@,
            contents@.map_values(|bytes: Vec<u8>| bytes@),
            manifest_bytes,
        ) {
            Ok(total) => r == Ok::<u64, Diagnostic>(total),
            Err(refusal) => r matches Err(d) && d.class == refusal.0 && d.code@ == refusal.1,
        },
{
    let ghost views = contents@.map_values(|bytes: Vec<u8>| bytes@);
    if contract_version != SOURCE_PROJECT_CONTRACT_VERSION {
        return Err(backup_error(DiagnosticClass::Source, "source_backup_contract", "backup has a predecessor or foreign contract"));
    }
    validate_digest(current_record_digest, "backup current record digest")?;
    let mut total: u64 = manifest_bytes;
    let mut i: usize = 0;
    while i < entries.len()
        invariant
            i <= entries@.len(),
            contents@.len() == entries@.len(),
            views == contents@.map_values(|bytes: Vec<u8>| bytes@),
            backup_entries_check(entries@, views, i as nat, manifest_bytes) == Ok::<u64, BackupRefusal>(total),
            contract_version == SOURCE_PROJECT_CONTRACT_VERSION,
            is_digest_text(current_record_digest@),
        decreases entries@.len() - i,
    {
        let entry = &entries[i];
        if !is_backup_layout_path(entry.path.as_str()) {
            proof { lemma_backup_refusal_persists(entries@, views, (i + 1) as nat, entries@.len(), manifest_bytes); }
            return Err(backup_error(DiagnosticClass::Corrupt, "source_backup_entry_path", "backup entry path is not part of the current authority layout"));
        }
        match validate_digest(entry.digest.as_str(), "backup entry digest") {
            Ok(()) => {},
            Err(error) => {
                proof { lemma_backup_refusal_persists(entries@, views, (i + 1) as nat, entries@.len(), manifest_bytes); }
                return Err(error);
            },
        }
        let mut j: usize = 0;
        while j < i
            invariant
                i < entries@.len(),
                j <= i,
                forall|k: int| 0 <= k < j ==> entries@[k].path@ != entries@[i as int].path@,
                backup_entries_check(entries@, views, i as nat, manifest_bytes) == Ok::<u64, BackupRefusal>(total),
                backup_layout_path(entries@[i as int].path@),
                is_digest_text(entries@[i as int].digest@),
                contents@.len() == entries@.len(),
                contract_version == SOURCE_PROJECT_CONTRACT_VERSION,
                is_digest_text(current_record_digest@),
                views == contents@.map_values(|bytes: Vec<u8>| bytes@),
            decreases i - j,
        {
            if same_text(entries[j].path.as_str(), entries[i].path.as_str()) {
                proof {
                    assert(entries@[j as int].path@ == entries@[i as int].path@);
                    lemma_backup_refusal_persists(entries@, views, (i + 1) as nat, entries@.len(), manifest_bytes);
                }
                return Err(backup_error(DiagnosticClass::Corrupt, "source_backup_entry_duplicate", "backup repeats an entry"));
            }
            j = j + 1;
        }
        let bytes = &contents[i];
        assert(views[i as int] == bytes@);
        if bytes.len() != entry.bytes || !same_text(object_digest("backup-entry", bytes.as_slice()).as_str(), entry.digest.as_str()) {
            proof { lemma_backup_refusal_persists(entries@, views, (i + 1) as nat, entries@.len(), manifest_bytes); }
            return Err(backup_error(DiagnosticClass::Corrupt, "source_backup_entry_digest", "backup entry is corrupt"));
        }
        total = match total.checked_add(bytes.len() as u64) {
            Some(sum) => sum,
            None => {
                proof { lemma_backup_refusal_persists(entries@, views, (i + 1) as nat, entries@.len(), manifest_bytes); }
                return Err(backup_error(DiagnosticClass::Resource, "source_backup_bytes", "backup byte accounting overflowed"));
            },
        };
        i = i + 1;
    }
    Ok(total)
}

} // verus!
