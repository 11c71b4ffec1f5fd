//! Integrity of a frozen artifact bundle: its shape, the digests of its package objects, and
//! the dependency closure of its root.

use crate::diagnostic::{static_message, Diagnostic, DiagnosticClass};
use crate::digest::{blake3_digest, ObjectDigest};
use vstd::bytes::{spec_u64_to_le_bytes, u64_to_le_bytes};
use vstd::prelude::*;

verus! {

/// The artifact contract this loader reads.
pub const ARTIFACT_CONTRACT_VERSION: u16 = 4;

/// The most package objects one artifact may hold.
pub const MAXIMUM_ARTIFACT_PACKAGES: usize = 1024;

/// The most payload bytes one package object may hold.
pub const MAXIMUM_PACKAGE_ARTIFACT_BYTES: usize = 134217728;

/// One package object of a bundle: its digest and its bytes.
#[derive(Clone, Debug)]
pub struct ArtifactObject {
    pub digest: ObjectDigest,
    pub bytes: Vec<u8>,
}

/// A decoded artifact bundle.
#[derive(Clone, Debug)]
pub struct ArtifactBundle {
    pub contract_version: u16,
    pub root: ObjectDigest,
    pub objects: Vec<ArtifactObject>,
}

/// A refusal: the class and the code of a diagnostic.
pub type ArtifactRefusal = (DiagnosticClass, Seq<char>);

/// Whether `d` is the refusal `refusal`.
pub open spec fn refuses(d: Diagnostic, refusal: ArtifactRefusal) -> bool {
    d.class == refusal.0 && d.code@ == refusal.1
}

/// The canonical bytes of a digest.
pub open spec fn digest_bytes(digest: ObjectDigest) -> Seq<u8> {
    spec_u64_to_le_bytes(digest.w0) + spec_u64_to_le_bytes(digest.w1) + spec_u64_to_le_bytes(digest.w2)
        + spec_u64_to_le_bytes(digest.w3)
}

/// Whether `a` comes strictly before `b` in lexicographic byte order.
pub open spec fn lex_less(a: Seq<u8>, b: Seq<u8>) -> bool
    decreases a.len(),
{
    if a.len() == 0 {
        b.len() > 0
    } else if b.len() == 0 {
        false
    } else if a[0] != b[0] {
        a[0] < b[0]
    } else {
        lex_less(a.drop_first(), b.drop_first())
    }
}

/// Whether object `a` comes strictly before object `b`: by digest bytes, then by payload bytes.
pub open spec fn object_less(a: ArtifactObject, b: ArtifactObject) -> bool {
    ||| lex_less(digest_bytes(a.digest), digest_bytes(b.digest))
    ||| digest_bytes(a.digest) == digest_bytes(b.digest) && lex_less(a.bytes@, b.bytes@)
}

/// Whether an object's bytes are within their bound and hash to its digest.
pub open spec fn object_sound(object: ArtifactObject) -> bool {
    &&& object.bytes@.len() <= MAXIMUM_PACKAGE_ARTIFACT_BYTES + 50
    &&& ObjectDigest::from_bytes(blake3_digest(object.bytes@)) == object.digest
}

/// The first refusal the shape of a bundle earns, if any.
pub open spec fn bundle_shape_refusal(
    contract_version: u16,
    root: ObjectDigest,
    objects: Seq<ArtifactObject>,
) -> Option<ArtifactRefusal> {
    if contract_version != ARTIFACT_CONTRACT_VERSION {
        Some((DiagnosticClass::Source, "artifact_contract"@))
    } else if objects.len() == 0 || objects.len() > MAXIMUM_ARTIFACT_PACKAGES {
        Some((DiagnosticClass::Resource, "artifact_package_count"@))
    } else if exists|i: int| 0 <= i < objects.len() - 1 && !object_less(#[trigger] objects[i], objects[i + 1]) {
        Some((DiagnosticClass::Corrupt, "artifact_object_order"@))
    } else if forall|i: int| 0 <= i < objects.len() ==> (#[trigger] objects[i]).digest != root {
        Some((DiagnosticClass::Corrupt, "artifact_root_missing"@))
    } else if exists|i: int| 0 <= i < objects.len() && !object_sound(#[trigger] objects[i]) {
        Some((DiagnosticClass::Corrupt, "artifact_object_digest"@))
    } else {
        None
    }
}

/// Whether `a` comes strictly before `b` in lexicographic byte order.
pub fn bytes_less(a: &[u8], b: &[u8]) -> (r: bool)
    ensures
        r == lex_less(a@, b@),
{
    let mut i: usize = 0;
    assert(a@.skip(0) =~= a@);
    assert(b@.skip(0) =~= b@);
    while i < a.len() && i < b.len()
        invariant
            i <= a@.len(),
            i <= b@.len(),
            lex_less(a@, b@) == lex_less(a@.skip(i as int), b@.skip(i as int)),
        decreases a@.len() - i,
    {
        assert(a@.skip(i as int)[0] == a@[i as int]);
        assert(b@.skip(i as int)[0] == b@[i as int]);
        if a[i] != b[i] {
            return a[i] < b[i];
        }
        assert(a@.skip(i as int).drop_first() =~= a@.skip(i + 1));
        assert(b@.skip(i as int).drop_first() =~= b@.skip(i + 1));
        i = i + 1;
    }
    assert(a@.skip(i as int).len() == a@.len() - i);
    i == a.len() && i < b.len()
}

/// The canonical bytes of a digest.
pub fn digest_byte_vec(digest: ObjectDigest) -> (r: Vec<u8>)
    ensures
        r@ == digest_bytes(digest),
{
    let mut bytes = u64_to_le_bytes(digest.w0);
    let mut next = u64_to_le_bytes(digest.w1);
    bytes.append(&mut next);
    let mut next = u64_to_le_bytes(digest.w2);
    bytes.append(&mut next);
    let mut next = u64_to_le_bytes(digest.w3);
    bytes.append(&mut next);
    bytes
}

/// Whether object `a` comes strictly before object `b`.
fn objects_ordered(a: &ArtifactObject, b: &ArtifactObject) -> (r: bool)
    ensures
        r == object_less(*a, *b),
{
    let first = digest_byte_vec(a.digest);
    let second = digest_byte_vec(b.digest);
    if bytes_less(first.as_slice(), second.as_slice()) {
        return true;
    }
    if bytes_less(second.as_slice(), first.as_slice()) {
        proof {
            lemma_lex_less_asymmetric(second@, first@);
        }
        return false;
    }
    proof {
        lemma_lex_less_total(first@, second@);
    }
    bytes_less(a.bytes.as_slice(), b.bytes.as_slice())
}

/// No two sequences each come before the other.
proof fn lemma_lex_less_asymmetric(a: Seq<u8>, b: Seq<u8>)
    requires
        lex_less(a, b),
    ensures
        !lex_less(b, a),
        a != b,
    decreases a.len(),
{
    if a.len() > 0 && b.len() > 0 && a[0] == b[0] {
        lemma_lex_less_asymmetric(a.drop_first(), b.drop_first());
    }
}

/// Of two sequences neither of which comes before the other, both are the same.
proof fn lemma_lex_less_total(a: Seq<u8>, b: Seq<u8>)
    requires
        !lex_less(a, b),
        !lex_less(b, a),
    ensures
        a == b,
    decreases a.len(),
{
    if a.len() > 0 && b.len() > 0 {
        lemma_lex_less_total(a.drop_first(), b.drop_first());
        assert(a =~= seq![a[0]] + a.drop_first());
        assert(b =~= seq![b[0]] + b.drop_first());
    } else {
        assert(a =~= b);
    }
}

/// An artifact refusal with a fixed message.
fn artifact_error(class: DiagnosticClass, code: &str, message: &str) -> (r: Diagnostic)
    ensures
        r.class == class,
        r.code@ == code@,
{
    Diagnostic::new(class, code, static_message(message))
}

/// Checks the shape of a decoded bundle: its contract, its object count, the strict canonical
/// order of its objects, the presence of its root, and the bound and digest of every object.
pub fn validate_bundle_shape(bundle: &ArtifactBundle) -> (r: Result<(), Diagnostic>)
    ensures
        match bundle_shape_refusal(bundle.contract_version, bundle.root, bundle.objects@) {
            Some(refusal) => r matches Err(d) && refuses(d, refusal),
            None => r is Ok,
        },
{
    let objects = &bundle.objects;
    if bundle.contract_version != ARTIFACT_CONTRACT_VERSION {
        return Err(artifact_error(DiagnosticClass::Source, "artifact_contract", "artifact contract is not the supported frozen contract"));
    }
    if objects.len() == 0 || objects.len() > MAXIMUM_ARTIFACT_PACKAGES {
        return Err(artifact_error(DiagnosticClass::Resource, "artifact_package_count", "artifact must contain 1 through 1024 package objects"));
    }
    let last = objects.len() - 1;
    let mut i: usize = 0;
    while i < last
        invariant
            objects@ == bundle.objects@,
            0 < objects@.len(),
            last == objects@.len() - 1,
            i <= last,
            objects@.len() <= MAXIMUM_ARTIFACT_PACKAGES,
            bundle.contract_version == ARTIFACT_CONTRACT_VERSION,
            forall|k: int| 0 <= k < i ==> object_less(#[trigger] objects@[k], objects@[k + 1]),
        decreases last - i,
    {
        if !objects_ordered(&objects[i], &objects[i + 1]) {
            assert(!object_less(bundle.objects@[i as int], bundle.objects@[i + 1]));
            assert(exists|k: int| 0 <= k < bundle.objects@.len() - 1 && !object_less(#[trigger] bundle.objects@[k], bundle.objects@[k + 1]));
            return Err(artifact_error(DiagnosticClass::Corrupt, "artifact_object_order", "artifact package objects are not unique and canonically ordered"));
        }
        i = i + 1;
    }
    let mut found = false;
    let mut j: usize = 0;
    while j < objects.len()
        invariant
            objects@ == bundle.objects@,
            j <= objects@.len(),
            found <==> exists|k: int| 0 <= k < j && (#[trigger] objects@[k]).digest == bundle.root,
            0 < objects@.len() <= MAXIMUM_ARTIFACT_PACKAGES,
            bundle.contract_version == ARTIFACT_CONTRACT_VERSION,
            forall|k: int| 0 <= k < objects@.len() - 1 ==> object_less(#[trigger] objects@[k], objects@[k + 1]),
        decreases objects@.len() - j,
    {
        if objects[j].digest == bundle.root {
            found = true;
        }
        j = j + 1;
    }
    if !found {
        return Err(artifact_error(DiagnosticClass::Corrupt, "artifact_root_missing", "artifact root package object is absent"));
    }
    let mut m: usize = 0;
    while m < objects.len()
        invariant
            objects@ == bundle.objects@,
            m <= objects@.len(),
            forall|k: int| 0 <= k < m ==> object_sound(#[trigger] objects@[k]),
            forall|k: int| 0 <= k < objects@.len() - 1 ==> object_less(#[trigger] objects@[k], objects@[k + 1]),
            exists|k: int| 0 <= k < objects@.len() && (#[trigger] objects@[k]).digest == bundle.root,
            0 < objects@.len() <= MAXIMUM_ARTIFACT_PACKAGES,
            bundle.contract_version == ARTIFACT_CONTRACT_VERSION,
        decreases objects@.len() - m,
    {
        let object = &objects[m];
        if object.bytes.len() > MAXIMUM_PACKAGE_ARTIFACT_BYTES + 50 || ObjectDigest::of(object.bytes.as_slice()) != object.digest {
            assert(!object_sound(objects@[m as int]));
            return Err(artifact_error(DiagnosticClass::Corrupt, "artifact_object_digest", "artifact package object exceeds its bound or has a foreign digest"));
        }
        m = m + 1;
    }
    Ok(())
}

/// One decoded package object of a bundle: its digest, its bytes, and the digests of the package
/// objects it depends on.
#[derive(Clone, Debug)]
pub struct BundleEntry {
    pub digest: ObjectDigest,
    pub bytes: Vec<u8>,
    pub dependencies: Vec<ObjectDigest>,
}

/// Whether some entry under digest `from` depends on `to`.
pub open spec fn depends(entries: Seq<BundleEntry>, from: ObjectDigest, to: ObjectDigest) -> bool {
    exists|i: int| 0 <= i < entries.len() && (#[trigger] entries[i]).digest == from && entries[i].dependencies@.contains(to)
}

/// Whether `path` runs from its first digest to its last along dependencies.
pub open spec fn dependency_path(entries: Seq<BundleEntry>, path: Seq<ObjectDigest>) -> bool {
    &&& path.len() > 0
    &&& forall|k: int| 0 <= k < path.len() - 1 ==> depends(entries, #[trigger] path[k], path[k + 1])
}

/// Whether `target` is in the dependency closure of `root`.
pub open spec fn reachable(entries: Seq<BundleEntry>, root: ObjectDigest, target: ObjectDigest) -> bool {
    exists|path: Seq<ObjectDigest>| #[trigger] dependency_path(entries, path) && path[0] == root && path.last() == target
}

/// Whether some entry has digest `digest`.
pub open spec fn holds_digest(entries: Seq<BundleEntry>, digest: ObjectDigest) -> bool {
    exists|i: int| 0 <= i < entries.len() && (#[trigger] entries[i]).digest == digest
}

/// Whether the entries are exactly the dependency closure of `root`, within the package bound:
/// every entry is reachable from the root, and every digest reachable from it has an entry.
pub open spec fn bundle_closed(entries: Seq<BundleEntry>, root: ObjectDigest) -> bool {
    &&& forall|i: int| 0 <= i < entries.len() ==> reachable(entries, root, #[trigger] entries[i].digest)
    &&& forall|d: ObjectDigest| #[trigger] reachable(entries, root, d) ==> holds_digest(entries, d)
    &&& entries.len() <= MAXIMUM_ARTIFACT_PACKAGES
}

/// Whether every entry's bytes hash to its digest and no digest occurs twice.
pub open spec fn entries_sound(entries: Seq<BundleEntry>) -> bool {
    &&& forall|i: int| 0 <= i < entries.len()
        ==> ObjectDigest::from_bytes(blake3_digest((#[trigger] entries[i]).bytes@)) == entries[i].digest
    &&& forall|i: int, j: int| 0 <= i < j < entries.len() ==> (#[trigger] entries[i]).digest != (#[trigger] entries[j]).digest
}

/// The index of the entry under `digest`, if any.
fn entry_index(entries: &Vec<BundleEntry>, digest: ObjectDigest) -> (r: Option<usize>)
    ensures
        r matches Some(i) ==> i < entries@.len() && entries@[i as int].digest == digest,
        r is None ==> !holds_digest(entries@, digest),
{
    let mut i: usize = 0;
    while i < entries.len()
        invariant
            i <= entries@.len(),
            forall|k: int| 0 <= k < i ==> (#[trigger] entries@[k]).digest != digest,
        decreases entries@.len() - i,
    {
        if entries[i].digest == digest {
            return Some(i);
        }
        i = i + 1;
    }
    None
}

/// Whether `digest` is among `digests`.
fn holds(digests: &Vec<ObjectDigest>, digest: ObjectDigest) -> (r: bool)
    ensures
        r == digests@.contains(digest),
{
    let mut i: usize = 0;
    while i < digests.len()
        invariant
            i <= digests@.len(),
            forall|k: int| 0 <= k < i ==> digests@[k] != digest,
        decreases digests@.len() - i,
    {
        if digests[i] == digest {
            return true;
        }
        i = i + 1;
    }
    false
}

/// A reachable digest stepped along one more dependency is reachable.
proof fn lemma_reachable_step(entries: Seq<BundleEntry>, root: ObjectDigest, from: ObjectDigest, to: ObjectDigest)
    requires
        reachable(entries, root, from),
        depends(entries, from, to),
    ensures
        reachable(entries, root, to),
{
    let path = choose|path: Seq<ObjectDigest>| #[trigger] dependency_path(entries, path) && path[0] == root && path.last() == from;
    let longer = path.push(to);
    assert forall|k: int| 0 <= k < longer.len() - 1 implies depends(entries, #[trigger] longer[k], longer[k + 1]) by {
        assert(longer[k] == path[k]);
        if k < path.len() - 1 {
            assert(longer[k + 1] == path[k + 1]);
        }
    }
    assert(dependency_path(entries, longer));
}

/// The root is reachable from itself.
proof fn lemma_reachable_root(entries: Seq<BundleEntry>, root: ObjectDigest)
    ensures
        reachable(entries, root, root),
{
    assert(dependency_path(entries, seq![root]));
}

/// A set of digests that holds the root and every dependency of its members holds every digest
/// reachable from the root.
proof fn lemma_closed_holds_reachable(entries: Seq<BundleEntry>, root: ObjectDigest, set: Seq<ObjectDigest>, path: Seq<ObjectDigest>)
    requires
        set.contains(root),
        forall|i: int, d: ObjectDigest| #![trigger entries[i].dependencies@.contains(d)]
            0 <= i < entries.len() && set.contains(entries[i].digest)
            && entries[i].dependencies@.contains(d) ==> set.contains(d),
        dependency_path(entries, path),
        path[0] == root,
    ensures
        set.contains(path.last()),
    decreases path.len(),
{
    if path.len() > 1 {
        let shorter = path.drop_last();
        assert forall|k: int| 0 <= k < shorter.len() - 1 implies depends(entries, #[trigger] shorter[k], shorter[k + 1]) by {
            assert(shorter[k] == path[k]);
            assert(shorter[k + 1] == path[k + 1]);
        }
        lemma_closed_holds_reachable(entries, root, set, shorter);
        assert(depends(entries, path[path.len() - 2], path.last()));
        let i = choose|i: int| 0 <= i < entries.len() && (#[trigger] entries[i]).digest == path[path.len() - 2]
            && entries[i].dependencies@.contains(path.last());
        assert(shorter.last() == path[path.len() - 2]);
    }
}

/// Distinct members of a sequence of distinct values are no more than its length.
proof fn lemma_distinct_within_len(inner: Seq<ObjectDigest>, outer: Seq<ObjectDigest>)
    requires
        inner.no_duplicates(),
        outer.no_duplicates(),
        forall|x: ObjectDigest| inner.contains(x) ==> #[trigger] outer.contains(x),
    ensures
        inner.len() <= outer.len(),
        inner.len() == outer.len() ==> forall|x: ObjectDigest| outer.contains(x) ==> #[trigger] inner.contains(x),
{
    inner.unique_seq_to_set();
    outer.unique_seq_to_set();
    assert(inner.to_set().subset_of(outer.to_set()));
    vstd::set_lib::lemma_len_subset(inner.to_set(), outer.to_set());
    if inner.len() == outer.len() {
        assert forall|x: ObjectDigest| outer.contains(x) implies #[trigger] inner.contains(x) by {
            if !inner.contains(x) {
                assert(inner.to_set().subset_of(outer.to_set().remove(x)));
                vstd::set_lib::lemma_len_subset(inner.to_set(), outer.to_set().remove(x));
            }
        }
    }
}

/// Appends `more` to `pending`.
fn push_all(pending: &mut Vec<ObjectDigest>, more: &Vec<ObjectDigest>)
    ensures
        final(pending)@ == old(pending)@ + more@,
{
    let mut k: usize = 0;
    while k < more.len()
        invariant
            k <= more@.len(),
            pending@ == old(pending)@ + more@.take(k as int),
        decreases more@.len() - k,
    {
        pending.push(more[k]);
        k = k + 1;
        assert(pending@ =~= old(pending)@ + more@.take(k as int));
    }
    assert(more@.take(more@.len() as int) =~= more@);
}

/// Checks that each entry's bytes hash to its digest and that no digest occurs twice.
fn check_entry_digests(entries: &Vec<BundleEntry>) -> (r: Result<(), Diagnostic>)
    ensures
        r is Ok <==> entries_sound(entries@),
        r matches Err(d) ==> d.class == DiagnosticClass::Corrupt,
{
    let mut i: usize = 0;
    while i < entries.len()
        invariant
            i <= entries@.len(),
            forall|k: int| 0 <= k < i
                ==> ObjectDigest::from_bytes(blake3_digest((#[trigger] entries@[k]).bytes@)) == entries@[k].digest,
            forall|k: int, m: int| 0 <= k < m < i ==> (#[trigger] entries@[k]).digest != (#[trigger] entries@[m]).digest,
        decreases entries@.len() - i,
    {
        let entry = &entries[i];
        if ObjectDigest::of(entry.bytes.as_slice()) != entry.digest {
            return Err(artifact_error(DiagnosticClass::Corrupt, "artifact_object_digest", "artifact package object digest does not match its bytes"));
        }
        let mut j: usize = 0;
        while j < i
            invariant
                i < entries@.len(),
                j <= i,
                forall|m: int| 0 <= m < j ==> entries@[m].digest != entries@[i as int].digest,
            decreases i - j,
        {
            if entries[j].digest == entries[i].digest {
                return Err(artifact_error(DiagnosticClass::Corrupt, "artifact_object_duplicate", "artifact repeats a package object digest"));
            }
            j = j + 1;
        }
        i = i + 1;
    }
    Ok(())
}

/// The digests of the entries, in order.
pub open spec fn entry_digests(entries: Seq<BundleEntry>) -> Seq<ObjectDigest> {
    entries.map_values(|entry: BundleEntry| entry.digest)
}

/// Whether `visited` holds the root and every dependency of each of its members, all of them
/// entries reachable from the root, each once.
pub open spec fn closure_found(entries: Seq<BundleEntry>, root: ObjectDigest, visited: Seq<ObjectDigest>) -> bool {
    &&& visited.no_duplicates()
    &&& visited.contains(root)
    &&& forall|x: ObjectDigest| #[trigger] visited.contains(x) ==> holds_digest(entries, x) && reachable(entries, root, x)
    &&& forall|k: int, d: ObjectDigest| #![trigger entries[k].dependencies@.contains(d)]
        0 <= k < entries.len() && visited.contains(entries[k].digest)
        && entries[k].dependencies@.contains(d) ==> visited.contains(d)
}

/// Every digest of an entry is among the entry digests.
proof fn lemma_entry_digests(entries: Seq<BundleEntry>, x: ObjectDigest)
    ensures
        holds_digest(entries, x) <==> entry_digests(entries).contains(x),
{
    if holds_digest(entries, x) {
        let i = choose|i: int| 0 <= i < entries.len() && (#[trigger] entries[i]).digest == x;
        assert(entry_digests(entries)[i] == x);
    }
    if entry_digests(entries).contains(x) {
        let i = choose|i: int| 0 <= i < entry_digests(entries).len() && entry_digests(entries)[i] == x;
        assert(entries[i].digest == x);
    }
}

/// Walks the dependency closure of `root` over sound entries.
#[verifier::rlimit(50)]
fn dependency_closure(root: ObjectDigest, entries: &Vec<BundleEntry>) -> (r: Result<Vec<ObjectDigest>, Diagnostic>)
    requires
        entries_sound(entries@),
    ensures
        r matches Ok(visited) ==> closure_found(entries@, root, visited@) && visited@.len() <= MAXIMUM_ARTIFACT_PACKAGES,
        r matches Err(d) ==> !bundle_closed(entries@, root)
            && (d.class == DiagnosticClass::Corrupt || d.class == DiagnosticClass::Resource),
{
    let ghost all = entry_digests(entries@);
    proof {
        assert forall|a: int, b: int| 0 <= a < all.len() && 0 <= b < all.len() && a != b implies all[a] != all[b] by {
            if a < b {
                assert(entries@[a].digest != entries@[b].digest);
            } else {
                assert(entries@[b].digest != entries@[a].digest);
            }
        }
        lemma_reachable_root(entries@, root);
    }
    let mut visited: Vec<ObjectDigest> = Vec::new();
    let mut pending: Vec<ObjectDigest> = vec![root];
    while pending.len() > 0
        invariant
            entries_sound(entries@),
            all == entry_digests(entries@),
            all.no_duplicates(),
            visited@.no_duplicates(),
            visited@.len() <= MAXIMUM_ARTIFACT_PACKAGES,
            forall|x: ObjectDigest| #[trigger] visited@.contains(x) ==> holds_digest(entries@, x) && reachable(entries@, root, x),
            forall|x: ObjectDigest| #[trigger] pending@.contains(x) ==> reachable(entries@, root, x),
            visited@.contains(root) || pending@.contains(root),
            forall|k: int, d: ObjectDigest| #![trigger entries@[k].dependencies@.contains(d)]
                0 <= k < entries@.len() && visited@.contains(entries@[k].digest)
                && entries@[k].dependencies@.contains(d) ==> visited@.contains(d) || pending@.contains(d),
        decreases all.len() - visited@.len(), pending@.len(),
    {
        proof {
            assert forall|x: ObjectDigest| visited@.contains(x) implies #[trigger] all.contains(x) by {
                lemma_entry_digests(entries@, x);
            }
            lemma_distinct_within_len(visited@, all);
        }
        let ghost before = pending@;
        let digest = pending.pop().unwrap();
        proof {
            assert(before =~= pending@.push(digest));
            assert(before.contains(digest)) by {
                assert(before[before.len() - 1] == digest);
            }
            assert forall|x: ObjectDigest| #[trigger] pending@.contains(x) implies before.contains(x) by {
                let k = choose|k: int| 0 <= k < pending@.len() && pending@[k] == x;
                assert(before[k] == x);
            }
            assert forall|x: ObjectDigest| before.contains(x) implies #[trigger] pending@.contains(x) || x == digest by {
                let k = choose|k: int| 0 <= k < before.len() && before[k] == x;
                if k < pending@.len() {
                    assert(pending@[k] == x);
                }
            }
        }
        if holds(&visited, digest) {
            continue;
        }
        let index = match entry_index(entries, digest) {
            Some(index) => index,
            None => {
                proof {
                    assert(reachable(entries@, root, digest));
                }
                return Err(artifact_error(DiagnosticClass::Corrupt, "artifact_dependency_missing", "artifact closure omits a package object"));
            },
        };
        let ghost visited_before = visited@;
        visited.push(digest);
        let ghost middle = pending@;
        push_all(&mut pending, &entries[index].dependencies);
        proof {
            assert forall|x: ObjectDigest| #[trigger] visited@.contains(x) implies visited_before.contains(x) || x == digest by {
                let k = choose|k: int| 0 <= k < visited@.len() && visited@[k] == x;
                if k < visited_before.len() {
                    assert(visited_before[k] == x);
                }
            }
            assert(visited@[visited_before.len() as int] == digest);
            assert forall|x: ObjectDigest| visited_before.contains(x) implies #[trigger] visited@.contains(x) by {
                let k = choose|k: int| 0 <= k < visited_before.len() && visited_before[k] == x;
                assert(visited@[k] == x);
            }
            assert forall|x: ObjectDigest| middle.contains(x) implies #[trigger] pending@.contains(x) by {
                let k = choose|k: int| 0 <= k < middle.len() && middle[k] == x;
                assert(pending@[k] == x);
            }
            let deps = entries@[index as int].dependencies@;
            assert forall|x: ObjectDigest| deps.contains(x) implies #[trigger] pending@.contains(x) by {
                let k = choose|k: int| 0 <= k < deps.len() && deps[k] == x;
                assert(pending@[middle.len() + k] == x);
            }
            assert forall|x: ObjectDigest| #[trigger] pending@.contains(x) implies reachable(entries@, root, x) by {
                let k = choose|k: int| 0 <= k < pending@.len() && pending@[k] == x;
                if k < middle.len() {
                    assert(middle[k] == x);
                    assert(middle.contains(x));
                    assert(before.contains(x));
                } else {
                    assert(deps[k - middle.len()] == x);
                    assert(deps.contains(x));
                    assert(depends(entries@, digest, x));
                    lemma_reachable_step(entries@, root, digest, x);
                }
            }
            assert forall|k: int, d: ObjectDigest| #![trigger entries@[k].dependencies@.contains(d)]
                0 <= k < entries@.len() && visited@.contains(entries@[k].digest)
                && entries@[k].dependencies@.contains(d) implies visited@.contains(d) || pending@.contains(d) by {
                if entries@[k].digest == digest {
                    assert(k == index) by {
                        if k != index as int {
                            if k < index { assert(entries@[k].digest != entries@[index as int].digest); }
                            else { assert(entries@[index as int].digest != entries@[k].digest); }
                        }
                    }
                    assert(deps.contains(d));
                } else {
                    assert(visited_before.contains(entries@[k].digest));
                    if !visited_before.contains(d) && !middle.contains(d) {
                        assert(before.contains(d));
                        assert(d == digest);
                    }
                }
            }
            assert(visited_before.no_duplicates());
            assert(visited@.no_duplicates());
            lemma_entry_digests(entries@, digest);
            assert forall|x: ObjectDigest| visited@.contains(x) implies #[trigger] all.contains(x) by {
                lemma_entry_digests(entries@, x);
            }
            lemma_distinct_within_len(visited@, all);
        }
        if visited.len() > MAXIMUM_ARTIFACT_PACKAGES {
            proof {
                assert forall|x: ObjectDigest| visited@.contains(x) implies #[trigger] all.contains(x) by {
                    lemma_entry_digests(entries@, x);
                }
                lemma_distinct_within_len(visited@, all);
            }
            return Err(artifact_error(DiagnosticClass::Resource, "artifact_package_count", "artifact dependency traversal exceeded its package bound"));
        }
    }
    Ok(visited)
}


/// Whether `order` lists the entries so that each one comes after every object it depends on:
/// every element is an entry's digest, every entry's digest is listed, and every dependency of
/// a listed digest is listed before it.
pub open spec fn dependency_order(entries: Seq<BundleEntry>, order: Seq<ObjectDigest>) -> bool {
    &&& forall|j: int| 0 <= j < order.len() ==> holds_digest(entries, #[trigger] order[j])
    &&& forall|i: int| 0 <= i < entries.len() ==> order.contains(#[trigger] entries[i].digest)
    &&& forall|j: int, d: ObjectDigest| 0 <= j < order.len() && #[trigger] depends(entries, order[j], d)
        ==> exists|k: int| 0 <= k < j && #[trigger] order[k] == d
}

/// Whether the dependencies among the entries form no cycle: some order lists each entry after
/// everything it depends on.
pub open spec fn dependencies_acyclic(entries: Seq<BundleEntry>) -> bool {
    exists|order: Seq<ObjectDigest>| #[trigger] dependency_order(entries, order)
}

/// Whether every dependency of `entries[k]` is in `done`.
pub open spec fn entry_ready(entries: Seq<BundleEntry>, k: int, done: Seq<ObjectDigest>) -> bool {
    forall|d: ObjectDigest| #[trigger] entries[k].dependencies@.contains(d) ==> done.contains(d)
}

/// Whether every dependency of the entry is in `done`.
fn ready(entry: &BundleEntry, done: &Vec<ObjectDigest>) -> (r: bool)
    ensures
        r == forall|d: ObjectDigest| #[trigger] entry.dependencies@.contains(d) ==> done@.contains(d),
{
    let mut i: usize = 0;
    while i < entry.dependencies.len()
        invariant
            i <= entry.dependencies@.len(),
            forall|k: int| 0 <= k < i ==> done@.contains(#[trigger] entry.dependencies@[k]),
        decreases entry.dependencies@.len() - i,
    {
        if !holds(done, entry.dependencies[i]) {
            assert(entry.dependencies@.contains(entry.dependencies@[i as int]));
            return false;
        }
        i = i + 1;
    }
    proof {
        assert forall|d: ObjectDigest| #[trigger] entry.dependencies@.contains(d) implies done@.contains(d) by {
            let k = choose|k: int| 0 <= k < entry.dependencies@.len() && entry.dependencies@[k] == d;
            assert(done@.contains(entry.dependencies@[k]));
        }
    }
    true
}

/// The first position of `order` at or before `i` whose digest `done` lacks.
proof fn lemma_first_missing(order: Seq<ObjectDigest>, done: Seq<ObjectDigest>, i: int) -> (m: int)
    requires
        0 <= i < order.len(),
        !done.contains(order[i]),
    ensures
        0 <= m <= i,
        !done.contains(order[m]),
        forall|k: int| 0 <= k < m ==> done.contains(#[trigger] order[k]),
    decreases i,
{
    if exists|k: int| 0 <= k < i && !done.contains(#[trigger] order[k]) {
        let k = choose|k: int| 0 <= k < i && !done.contains(#[trigger] order[k]);
        lemma_first_missing(order, done, k)
    } else {
        i
    }
}

/// Where an entry is unlisted and no unlisted entry has all its dependencies listed, no order
/// lists the entries after their dependencies: the dependencies form a cycle.
proof fn lemma_stuck_means_cycle(entries: Seq<BundleEntry>, done: Seq<ObjectDigest>, p: int)
    requires
        0 <= p < entries.len(),
        !done.contains(entries[p].digest),
        forall|m: int| 0 <= m < entries.len() && !done.contains(#[trigger] entries[m].digest) ==> !entry_ready(entries, m, done),
    ensures
        !dependencies_acyclic(entries),
{
    if dependencies_acyclic(entries) {
        let order = choose|order: Seq<ObjectDigest>| #[trigger] dependency_order(entries, order);
        assert(order.contains(entries[p].digest));
        let i = choose|i: int| 0 <= i < order.len() && order[i] == entries[p].digest;
        let m = lemma_first_missing(order, done, i);
        assert(holds_digest(entries, order[m]));
        let q = choose|q: int| 0 <= q < entries.len() && (#[trigger] entries[q]).digest == order[m];
        assert forall|d: ObjectDigest| #[trigger] entries[q].dependencies@.contains(d) implies done.contains(d) by {
            assert(depends(entries, order[m], d));
            let k = choose|k: int| 0 <= k < m && #[trigger] order[k] == d;
            assert(done.contains(order[k]));
        }
        assert(entry_ready(entries, q, done));
    }
}

/// Lists the entries so that each comes after everything it depends on, taking in each round
/// the entries whose dependencies are all listed; refuses dependencies that form a cycle.
fn order_dependencies(entries: &Vec<BundleEntry>) -> (r: Result<Vec<ObjectDigest>, Diagnostic>)
    requires
        forall|k: int, d: ObjectDigest| 0 <= k < entries@.len() && #[trigger] entries@[k].dependencies@.contains(d)
            ==> holds_digest(entries@, d),
        forall|i: int, j: int| 0 <= i < j < entries@.len() ==> (#[trigger] entries@[i]).digest != (#[trigger] entries@[j]).digest,
    ensures
        r matches Ok(order) ==> dependency_order(entries@, order@),
        r is Ok <==> dependencies_acyclic(entries@),
        r matches Err(d) ==> d.class == DiagnosticClass::Corrupt && d.code@ == "artifact_dependency_cycle"@,
{
    let ghost all = entry_digests(entries@);
    proof {
        assert forall|a: int, b: int| 0 <= a < all.len() && 0 <= b < all.len() && a != b implies all[a] != all[b] by {
            if a < b {
                assert(entries@[a].digest != entries@[b].digest);
            } else {
                assert(entries@[b].digest != entries@[a].digest);
            }
        }
    }
    let mut placed: Vec<bool> = Vec::new();
    let mut n: usize = 0;
    while n < entries.len()
        invariant
            n <= entries@.len(),
            placed@.len() == n,
            forall|k: int| 0 <= k < n ==> !(#[trigger] placed@[k]),
        decreases entries@.len() - n,
    {
        placed.push(false);
        n = n + 1;
    }
    let mut done: Vec<ObjectDigest> = Vec::new();
    while done.len() < entries.len()
        invariant
            placed@.len() == entries@.len(),
            all == entry_digests(entries@),
            all.no_duplicates(),
            done@.no_duplicates(),
            done@.len() <= entries@.len(),
            forall|i: int, j: int| 0 <= i < j < entries@.len() ==> (#[trigger] entries@[i]).digest != (#[trigger] entries@[j]).digest,
            forall|k: int, d: ObjectDigest| 0 <= k < entries@.len() && #[trigger] entries@[k].dependencies@.contains(d)
                ==> holds_digest(entries@, d),
            forall|k: int| 0 <= k < entries@.len() ==> (#[trigger] placed@[k] <==> done@.contains(entries@[k].digest)),
            forall|j: int| 0 <= j < done@.len() ==> holds_digest(entries@, #[trigger] done@[j]),
            forall|j: int, d: ObjectDigest| 0 <= j < done@.len() && #[trigger] depends(entries@, done@[j], d)
                ==> exists|k: int| 0 <= k < j && #[trigger] done@[k] == d,
        decreases entries@.len() - done@.len(),
    {
        let ghost round_start = done@;
        assert(round_start.len() < entries@.len());
        let mut progressed = false;
        let mut k: usize = 0;
        while k < entries.len()
            invariant
                k <= entries@.len(),
                placed@.len() == entries@.len(),
                all == entry_digests(entries@),
                all.no_duplicates(),
                done@.no_duplicates(),
                forall|i: int, j: int| 0 <= i < j < entries@.len() ==> (#[trigger] entries@[i]).digest != (#[trigger] entries@[j]).digest,
                forall|m: int| 0 <= m < entries@.len() ==> (#[trigger] placed@[m] <==> done@.contains(entries@[m].digest)),
                forall|j: int| 0 <= j < done@.len() ==> holds_digest(entries@, #[trigger] done@[j]),
                forall|j: int, d: ObjectDigest| 0 <= j < done@.len() && #[trigger] depends(entries@, done@[j], d)
                    ==> exists|m: int| 0 <= m < j && #[trigger] done@[m] == d,
                done@.len() >= round_start.len(),
                progressed ==> done@.len() > round_start.len(),
                !progressed ==> done@ == round_start,
                !progressed ==> forall|m: int| 0 <= m < k && !(#[trigger] placed@[m]) ==> !entry_ready(entries@, m, done@),
            decreases entries@.len() - k,
        {
            if !placed[k] && ready(&entries[k], &done) {
                let ghost before = done@;
                let digest = entries[k].digest;
                done.push(digest);
                placed.set(k, true);
                proof {
                    assert forall|m: int| 0 <= m < entries@.len() implies (#[trigger] placed@[m] <==> done@.contains(entries@[m].digest)) by {
                        if m != k {
                            if done@.contains(entries@[m].digest) && !before.contains(entries@[m].digest) {
                                if m < k {
                                    assert(entries@[m].digest != entries@[k as int].digest);
                                } else {
                                    assert(entries@[k as int].digest != entries@[m].digest);
                                }
                                let x = choose|x: int| 0 <= x < done@.len() && done@[x] == entries@[m].digest;
                                if x < before.len() {
                                    assert(before[x] == entries@[m].digest);
                                }
                            }
                            if before.contains(entries@[m].digest) {
                                let x = choose|x: int| 0 <= x < before.len() && before[x] == entries@[m].digest;
                                assert(done@[x] == entries@[m].digest);
                            }
                        } else {
                            assert(done@[before.len() as int] == digest);
                        }
                    }
                    assert forall|j: int| 0 <= j < done@.len() implies holds_digest(entries@, #[trigger] done@[j]) by {
                        if j < before.len() {
                            assert(done@[j] == before[j]);
                        } else {
                            assert(entries@[k as int].digest == done@[j]);
                        }
                    }
                    assert forall|j: int, d: ObjectDigest| 0 <= j < done@.len() && #[trigger] depends(entries@, done@[j], d)
                        implies exists|m: int| 0 <= m < j && #[trigger] done@[m] == d by {
                        if j < before.len() {
                            assert(done@[j] == before[j]);
                            let m = choose|m: int| 0 <= m < j && #[trigger] before[m] == d;
                            assert(done@[m] == d);
                        } else {
                            let e = choose|e: int| 0 <= e < entries@.len() && (#[trigger] entries@[e]).digest == done@[j]
                                && entries@[e].dependencies@.contains(d);
                            if e != k {
                                if e < k {
                                    assert(entries@[e].digest != entries@[k as int].digest);
                                } else {
                                    assert(entries@[k as int].digest != entries@[e].digest);
                                }
                            }
                            assert(before.contains(d));
                            let m = choose|m: int| 0 <= m < before.len() && before[m] == d;
                            assert(done@[m] == d);
                        }
                    }
                    assert(!before.contains(digest));
                    assert forall|a: int, b: int| 0 <= a < done@.len() && 0 <= b < done@.len() && a != b implies done@[a] != done@[b] by {
                        if a < before.len() && b < before.len() {
                            assert(done@[a] == before[a] && done@[b] == before[b]);
                        } else if a < before.len() {
                            assert(before.contains(done@[a]));
                        } else if b < before.len() {
                            assert(before.contains(done@[b]));
                        }
                    }
                }
                progressed = true;
            }
            k = k + 1;
        }
        if !progressed {
            proof {
                assert forall|x: ObjectDigest| done@.contains(x) implies #[trigger] all.contains(x) by {
                    let j = choose|j: int| 0 <= j < done@.len() && done@[j] == x;
                    assert(holds_digest(entries@, done@[j]));
                    lemma_entry_digests(entries@, x);
                }
                lemma_distinct_within_len(done@, all);
                assert(done@.len() < entries@.len());
                if forall|i: int| 0 <= i < entries@.len() ==> done@.contains(#[trigger] entries@[i].digest) {
                    assert forall|x: ObjectDigest| all.contains(x) implies #[trigger] done@.contains(x) by {
                        let i = choose|i: int| 0 <= i < all.len() && all[i] == x;
                        assert(entries@[i].digest == x);
                    }
                    lemma_distinct_within_len(all, done@);
                }
                let p = choose|p: int| 0 <= p < entries@.len() && !done@.contains(#[trigger] entries@[p].digest);
                assert forall|m: int| 0 <= m < entries@.len() && !done@.contains(#[trigger] entries@[m].digest)
                    implies !entry_ready(entries@, m, done@) by {
                    assert(!placed@[m]);
                }
                lemma_stuck_means_cycle(entries@, done@, p);
            }
            return Err(artifact_error(DiagnosticClass::Corrupt, "artifact_dependency_cycle", "artifact package dependency graph contains a cycle"));
        }
        proof {
            assert forall|x: ObjectDigest| done@.contains(x) implies #[trigger] all.contains(x) by {
                let j = choose|j: int| 0 <= j < done@.len() && done@[j] == x;
                assert(holds_digest(entries@, done@[j]));
                lemma_entry_digests(entries@, x);
            }
            lemma_distinct_within_len(done@, all);
        }
    }
    proof {
        assert forall|x: ObjectDigest| done@.contains(x) implies #[trigger] all.contains(x) by {
            let j = choose|j: int| 0 <= j < done@.len() && done@[j] == x;
            assert(holds_digest(entries@, done@[j]));
            lemma_entry_digests(entries@, x);
        }
        lemma_distinct_within_len(done@, all);
        assert forall|i: int| 0 <= i < entries@.len() implies done@.contains(#[trigger] entries@[i].digest) by {
            assert(all[i] == entries@[i].digest);
            assert(all.contains(entries@[i].digest));
        }
        assert(dependency_order(entries@, done@));
    }
    Ok(done)
}

/// Checks the decoded package objects of a bundle: each one's bytes hash to its digest, no digest
/// occurs twice, the objects are exactly the dependency closure of the root within the package
/// bound, and their dependencies form no cycle.
pub fn check_bundle_objects(root: ObjectDigest, entries: &Vec<BundleEntry>) -> (r: Result<(), Diagnostic>)
    ensures
        r is Ok <==> entries_sound(entries@) && bundle_closed(entries@, root) && dependencies_acyclic(entries@),
        r matches Err(d) ==> d.class == DiagnosticClass::Corrupt || d.class == DiagnosticClass::Resource,
{
    check_entry_digests(entries)?;
    let visited = dependency_closure(root, entries)?;
    let ghost all = entry_digests(entries@);
    proof {
        assert forall|a: int, b: int| 0 <= a < all.len() && 0 <= b < all.len() && a != b implies all[a] != all[b] by {
            if a < b {
                assert(entries@[a].digest != entries@[b].digest);
            } else {
                assert(entries@[b].digest != entries@[a].digest);
            }
        }
        assert forall|x: ObjectDigest| visited@.contains(x) implies #[trigger] all.contains(x) by {
            lemma_entry_digests(entries@, x);
        }
        lemma_distinct_within_len(visited@, all);
        assert forall|d: ObjectDigest| #[trigger] reachable(entries@, root, d) implies visited@.contains(d) by {
            let path = choose|path: Seq<ObjectDigest>| #[trigger] dependency_path(entries@, path) && path[0] == root && path.last() == d;
            lemma_closed_holds_reachable(entries@, root, visited@, path);
        }
    }
    if visited.len() != entries.len() {
        proof {
            if bundle_closed(entries@, root) {
                assert forall|x: ObjectDigest| all.contains(x) implies #[trigger] visited@.contains(x) by {
                    let i = choose|i: int| 0 <= i < all.len() && all[i] == x;
                    assert(entries@[i].digest == x);
                    assert(reachable(entries@, root, entries@[i].digest));
                }
                assert forall|x: ObjectDigest| all.contains(x) implies #[trigger] visited@.contains(x) by {}
                lemma_distinct_within_len(all, visited@);
            }
        }
        return Err(artifact_error(DiagnosticClass::Corrupt, "artifact_object_foreign", "artifact contains a package object outside the root dependency closure"));
    }
    proof {
        assert(visited@.len() == all.len());
        assert forall|i: int| 0 <= i < entries@.len() implies reachable(entries@, root, #[trigger] entries@[i].digest) by {
            assert(all[i] == entries@[i].digest);
            assert(all.contains(entries@[i].digest));
            assert(visited@.contains(entries@[i].digest));
        }
        assert forall|d: ObjectDigest| #[trigger] reachable(entries@, root, d) implies holds_digest(entries@, d) by {
            assert(visited@.contains(d));
        }
        assert forall|k: int, d: ObjectDigest| 0 <= k < entries@.len() && #[trigger] entries@[k].dependencies@.contains(d)
            implies holds_digest(entries@, d) by {
            assert(reachable(entries@, root, entries@[k].digest));
            assert(depends(entries@, entries@[k].digest, d));
            lemma_reachable_step(entries@, root, entries@[k].digest, d);
            assert(visited@.contains(d));
        }
    }
    order_dependencies(entries)?;
    Ok(())
}

} // verus!
