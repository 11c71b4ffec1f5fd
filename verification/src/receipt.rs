//! The decisions behind the authority's receipts: whether a request still stands on the accepted
//! revision it names, how a working tree compares with that revision, and what one doctor pass
//! over the accepted record chain checked.

use crate::diagnostic::{same_text, Diagnostic, DiagnosticClass};
use crate::text::{decimal, decimal_text};
use vstd::prelude::*;

verus! {

/// What accepting or validating a working tree did.
#[derive(Clone, Copy, Debug, PartialEq, Eq, Structural)]
pub enum PublicationKind {
    Published,
    Validated,
    NoChange,
}

/// The message of a refusal for a request made against a revision that is no longer current.
pub open spec fn stale_message(
    expected_revision: u64,
    expected_record: Seq<char>,
    actual_revision: u64,
    actual_record: Seq<char>,
) -> Seq<char> {
    "expected revision "@ + decimal_text(expected_revision) + " record "@ + expected_record
        + "; current revision is "@ + decimal_text(actual_revision) + " record "@ + actual_record
}

/// The refusal of a request made against a revision that is no longer current.
pub fn stale_error(expected_revision: u64, expected_record: &str, actual_revision: u64, actual_record: &str) -> (r: Diagnostic)
    ensures
        r.class == DiagnosticClass::Source,
        r.code@ == "source_stale_base"@,
        r.message@ == stale_message(expected_revision, expected_record@, actual_revision, actual_record@),
{
    let mut text = String::from_str("expected revision ");
    text.append(decimal(expected_revision).as_str());
    text.append(" record ");
    text.append(expected_record);
    text.append("; current revision is ");
    text.append(decimal(actual_revision).as_str());
    text.append(" record ");
    text.append(actual_record);
    Diagnostic::new(DiagnosticClass::Source, "source_stale_base", text)
}

/// Checks that the current accepted revision is the one a request expects: refused as stale
/// unless both its revision and its record digest match.
pub fn verify_expected(
    current_revision: u64,
    current_record: &str,
    expected_revision: u64,
    expected_record: &str,
) -> (r: Result<(), Diagnostic>)
    ensures
        r is Ok <==> current_revision == expected_revision && current_record@ == expected_record@,
        r matches Err(d) ==> d.class == DiagnosticClass::Source && d.code@ == "source_stale_base"@
            && d.message@ == stale_message(expected_revision, expected_record@, current_revision, current_record@),
{
    if current_revision != expected_revision || !same_text(current_record, expected_record) {
        return Err(stale_error(expected_revision, expected_record, current_revision, current_record));
    }
    Ok(())
}

/// How a working tree compares with the accepted revision it would replace.
#[derive(Clone, Copy, Debug, PartialEq, Eq, Structural)]
pub struct WorkingComparison {
    pub authored_changed: bool,
    pub semantic_changed: bool,
    /// What validating the working tree amounts to: a validated change, or none.
    pub kind: PublicationKind,
}

/// Compares the authored and semantic digests of a working tree with those accepted.
pub fn compare_working(
    accepted_authored: &str,
    working_authored: &str,
    accepted_semantic: &str,
    working_semantic: &str,
) -> (r: WorkingComparison)
    ensures
        r.authored_changed == (accepted_authored@ != working_authored@),
        r.semantic_changed == (accepted_semantic@ != working_semantic@),
        r.kind == if r.authored_changed { PublicationKind::Validated } else { PublicationKind::NoChange },
{
    let authored_changed = !same_text(accepted_authored, working_authored);
    let semantic_changed = !same_text(accepted_semantic, working_semantic);
    WorkingComparison {
        authored_changed,
        semantic_changed,
        kind: if authored_changed { PublicationKind::Validated } else { PublicationKind::NoChange },
    }
}

/// One stored object a manifest names: its digest text and its declared length.
#[derive(Clone, Debug)]
pub struct ObjectRef {
    pub digest: String,
    pub bytes: u64,
}

/// The objects one accepted revision's manifest names: its source files, the package descriptor
/// first, and its dependency artifacts.
#[derive(Clone, Debug)]
pub struct ManifestObjects {
    pub sources: Vec<ObjectRef>,
    pub dependencies: Vec<ObjectRef>,
}

/// What one doctor pass checked, and which objects it read: the first naming of each distinct
/// object, in walking order.
#[derive(Clone, Debug)]
pub struct DoctorTally {
    pub records_checked: u64,
    pub manifests_checked: u64,
    pub source_objects_checked: u64,
    pub dependency_objects_checked: u64,
    pub source_bytes_checked: u64,
    pub dependency_bytes_checked: u64,
    pub source_reads: Vec<ObjectRef>,
    pub dependency_reads: Vec<ObjectRef>,
}

/// An object as plain values.
pub open spec fn object_view(object: ObjectRef) -> (Seq<char>, u64) {
    (object.digest@, object.bytes)
}

/// Whether `objects` names the digest `digest`.
pub open spec fn names_digest(objects: Seq<(Seq<char>, u64)>, digest: Seq<char>) -> bool {
    exists|i: int| 0 <= i < objects.len() && #[trigger] objects[i].0 == digest
}

/// The first naming of each distinct digest in `objects`, in order.
pub open spec fn first_namings(objects: Seq<(Seq<char>, u64)>) -> Seq<(Seq<char>, u64)>
    decreases objects.len(),
{
    if objects.len() == 0 {
        Seq::empty()
    } else {
        let earlier = first_namings(objects.drop_last());
        if names_digest(earlier, objects.last().0) {
            earlier
        } else {
            earlier.push(objects.last())
        }
    }
}

/// The declared lengths of `objects`, added up and held at the largest `u64`.
pub open spec fn saturating_total(objects: Seq<(Seq<char>, u64)>) -> u64
    decreases objects.len(),
{
    if objects.len() == 0 {
        0
    } else {
        let earlier = saturating_total(objects.drop_last());
        if earlier + objects.last().1 > u64::MAX {
            u64::MAX
        } else {
            (earlier + objects.last().1) as u64
        }
    }
}

/// The manifests a doctor pass walks: only the head's, unless the pass is deep.
pub open spec fn walked(manifests: Seq<(Seq<(Seq<char>, u64)>, Seq<(Seq<char>, u64)>)>, deep: bool) -> Seq<
    (Seq<(Seq<char>, u64)>, Seq<(Seq<char>, u64)>),
> {
    if deep || manifests.len() <= 1 { manifests } else { manifests.take(1) }
}

/// All source objects, or all dependency objects, of `manifests`, in walking order.
pub open spec fn all_objects(manifests: Seq<(Seq<(Seq<char>, u64)>, Seq<(Seq<char>, u64)>)>, dependencies: bool) -> Seq<
    (Seq<char>, u64),
>
    decreases manifests.len(),
{
    if manifests.len() == 0 {
        Seq::empty()
    } else {
        all_objects(manifests.drop_last(), dependencies) + if dependencies {
            manifests.last().1
        } else {
            manifests.last().0
        }
    }
}

/// A manifest as plain values.
pub open spec fn manifest_view(manifest: ManifestObjects) -> (Seq<(Seq<char>, u64)>, Seq<(Seq<char>, u64)>) {
    (manifest.sources@.map_values(|o: ObjectRef| object_view(o)), manifest.dependencies@.map_values(|o: ObjectRef| object_view(o)))
}

/// The doctor tally over the manifests of the accepted chain, walked from the head.
pub open spec fn doctor_counts(
    manifests: Seq<(Seq<(Seq<char>, u64)>, Seq<(Seq<char>, u64)>)>,
    deep: bool,
) -> (u64, Seq<(Seq<char>, u64)>, Seq<(Seq<char>, u64)>, u64, u64) {
    let visited = walked(manifests, deep);
    let sources = first_namings(all_objects(visited, false));
    let dependencies = first_namings(all_objects(visited, true));
    (visited.len() as u64, sources, dependencies, saturating_total(sources), saturating_total(dependencies))
}

/// The first namings name each digest once.
proof fn lemma_first_namings_distinct(objects: Seq<(Seq<char>, u64)>)
    ensures
        forall|k1: int, k2: int| 0 <= k1 < k2 < first_namings(objects).len()
            ==> #[trigger] first_namings(objects)[k1].0 != #[trigger] first_namings(objects)[k2].0,
    decreases objects.len(),
{
    if objects.len() > 0 {
        let earlier = first_namings(objects.drop_last());
        lemma_first_namings_distinct(objects.drop_last());
        if !names_digest(earlier, objects.last().0) {
            let whole = earlier.push(objects.last());
            assert forall|k1: int, k2: int| 0 <= k1 < k2 < whole.len() implies #[trigger] whole[k1].0 != #[trigger] whole[k2].0 by {
                if k2 == earlier.len() && whole[k1].0 == whole[k2].0 {
                    assert(earlier[k1].0 == objects.last().0);
                }
            }
        }
    }
}

/// Every digest that an object names is among the first namings.
proof fn lemma_first_namings_cover(objects: Seq<(Seq<char>, u64)>)
    ensures
        forall|i: int| 0 <= i < objects.len() ==> names_digest(first_namings(objects), (#[trigger] objects[i]).0),
    decreases objects.len(),
{
    if objects.len() > 0 {
        let shorter = objects.drop_last();
        let earlier = first_namings(shorter);
        lemma_first_namings_cover(shorter);
        let whole = first_namings(objects);
        assert forall|i: int| 0 <= i < objects.len() implies names_digest(whole, (#[trigger] objects[i]).0) by {
            if i < objects.len() - 1 {
                assert(shorter[i] == objects[i]);
                assert(names_digest(earlier, shorter[i].0));
                if !names_digest(earlier, objects.last().0) {
                    let k = choose|k: int| 0 <= k < earlier.len() && #[trigger] earlier[k].0 == shorter[i].0;
                    assert(whole[k] == earlier[k]);
                }
            } else if !names_digest(earlier, objects.last().0) {
                assert(whole[earlier.len() as int] == objects[i]);
            }
        }
    }
}

/// Each first naming is the object that first names its digest.
proof fn lemma_first_namings_first(objects: Seq<(Seq<char>, u64)>)
    ensures
        forall|k: int| 0 <= k < first_namings(objects).len() ==> exists|i: int| 0 <= i < objects.len()
            && #[trigger] objects[i] == #[trigger] first_namings(objects)[k]
            && forall|j: int| 0 <= j < i ==> objects[j].0 != objects[i].0,
    decreases objects.len(),
{
    if objects.len() > 0 {
        let shorter = objects.drop_last();
        let earlier = first_namings(shorter);
        lemma_first_namings_first(shorter);
        lemma_first_namings_cover(shorter);
        let whole = first_namings(objects);
        let last = objects.len() - 1;
        assert forall|k: int| 0 <= k < whole.len() implies exists|i: int| 0 <= i < objects.len()
            && #[trigger] objects[i] == #[trigger] whole[k]
            && forall|j: int| 0 <= j < i ==> objects[j].0 != objects[i].0 by {
            if k < earlier.len() {
                assert(whole[k] == earlier[k]);
                let i = choose|i: int| 0 <= i < shorter.len() && #[trigger] shorter[i] == #[trigger] earlier[k]
                    && forall|j: int| 0 <= j < i ==> shorter[j].0 != shorter[i].0;
                assert(objects[i] == shorter[i]);
                assert forall|j: int| 0 <= j < i implies objects[j].0 != objects[i].0 by {
                    assert(objects[j] == shorter[j]);
                }
            } else {
                assert(whole[k] == objects[last]);
                assert forall|j: int| 0 <= j < last implies objects[j].0 != objects[last].0 by {
                    assert(shorter[j] == objects[j]);
                    assert(names_digest(earlier, shorter[j].0));
                }
            }
        }
    }
}

/// The first namings hold each named digest once, each as the object that first names it, and
/// every digest an object names is among them.
pub proof fn first_namings_are_the_distinct_first_objects(objects: Seq<(Seq<char>, u64)>)
    ensures
        forall|k1: int, k2: int| 0 <= k1 < k2 < first_namings(objects).len()
            ==> #[trigger] first_namings(objects)[k1].0 != #[trigger] first_namings(objects)[k2].0,
        forall|i: int| 0 <= i < objects.len() ==> names_digest(first_namings(objects), (#[trigger] objects[i]).0),
        forall|k: int| 0 <= k < first_namings(objects).len() ==> exists|i: int| 0 <= i < objects.len()
            && #[trigger] objects[i] == #[trigger] first_namings(objects)[k]
            && forall|j: int| 0 <= j < i ==> objects[j].0 != objects[i].0,
{
    lemma_first_namings_distinct(objects);
    lemma_first_namings_cover(objects);
    lemma_first_namings_first(objects);
}

/// A doctor pass checks every record of the chain when deep, and only the head's otherwise; the
/// objects it reads are the first namings of the objects of the records it checks.
pub proof fn doctor_walks_the_chain_only_when_deep(
    manifests: Seq<(Seq<(Seq<char>, u64)>, Seq<(Seq<char>, u64)>)>,
    deep: bool,
)
    ensures
        doctor_counts(manifests, deep).0 == (if deep || manifests.len() <= 1 { manifests.len() } else { 1nat }) as u64,
        !deep && manifests.len() >= 1 ==> doctor_counts(manifests, deep).1 == first_namings(manifests[0].0),
        !deep && manifests.len() >= 1 ==> doctor_counts(manifests, deep).2 == first_namings(manifests[0].1),
{
    if !deep && manifests.len() >= 1 {
        let head = manifests.take(1);
        assert(head.drop_last() =~= Seq::<(Seq<(Seq<char>, u64)>, Seq<(Seq<char>, u64)>)>::empty());
        assert(head.last() == manifests[0]);
        let none = Seq::<(Seq<(Seq<char>, u64)>, Seq<(Seq<char>, u64)>)>::empty();
        assert(all_objects(none, false) =~= Seq::<(Seq<char>, u64)>::empty());
        assert(all_objects(none, true) =~= Seq::<(Seq<char>, u64)>::empty());
        assert(all_objects(head.drop_last(), false) == all_objects(none, false));
        assert(all_objects(head.drop_last(), true) == all_objects(none, true));
        assert(all_objects(head, false) =~= manifests[0].0);
        assert(all_objects(head, true) =~= manifests[0].1);
        assert(walked(manifests, deep) =~= head);
    }
}

/// Whether `objects` names `digest`.
fn find_digest(objects: &Vec<ObjectRef>, digest: &str) -> (r: bool)
    ensures
        r == names_digest(objects@.map_values(|o: ObjectRef| object_view(o)), digest@),
{
    let ghost view = objects@.map_values(|o: ObjectRef| object_view(o));
    let mut i: usize = 0;
    while i < objects.len()
        invariant
            i <= objects@.len(),
            view == objects@.map_values(|o: ObjectRef| object_view(o)),
            forall|j: int| 0 <= j < i ==> view[j].0 != digest@,
        decreases objects@.len() - i,
    {
        if same_text(objects[i].digest.as_str(), digest) {
            assert(view[i as int].0 == digest@);
            return true;
        }
        i = i + 1;
    }
    false
}

/// Adds the objects of `objects` not named before to `firsts`, totalling their lengths.
fn add_first_namings(firsts: &mut Vec<ObjectRef>, total: &mut u64, objects: &Vec<ObjectRef>, Ghost(walked): Ghost<Seq<(Seq<char>, u64)>>)
    requires
        old(firsts)@.map_values(|o: ObjectRef| object_view(o)) == first_namings(walked),
        *old(total) == saturating_total(first_namings(walked)),
    ensures
        final(firsts)@.map_values(|o: ObjectRef| object_view(o))
            == first_namings(walked + objects@.map_values(|o: ObjectRef| object_view(o))),
        *final(total) == saturating_total(first_namings(walked + objects@.map_values(|o: ObjectRef| object_view(o)))),
{
    let ghost view = objects@.map_values(|o: ObjectRef| object_view(o));
    let mut i: usize = 0;
    while i < objects.len()
        invariant
            i <= objects@.len(),
            view == objects@.map_values(|o: ObjectRef| object_view(o)),
            firsts@.map_values(|o: ObjectRef| object_view(o)) == first_namings(walked + view.take(i as int)),
            *total == saturating_total(first_namings(walked + view.take(i as int))),
        decreases objects@.len() - i,
    {
        let ghost before = walked + view.take(i as int);
        proof {
            assert((walked + view.take(i + 1)).drop_last() =~= before);
            assert((walked + view.take(i + 1)).last() == view[i as int]);
        }
        let object = ObjectRef { digest: String::from_str(objects[i].digest.as_str()), bytes: objects[i].bytes };
        proof {
            assert(object_view(object) == view[i as int]);
        }
        let named = find_digest(firsts, object.digest.as_str());
        if !named {
            let ghost earlier = firsts@;
            proof {
                let fv = earlier.map_values(|o: ObjectRef| object_view(o));
                assert(fv.push(view[i as int]).drop_last() =~= fv);
                assert(fv.push(view[i as int]).last() == view[i as int]);
            }
            let bytes = object.bytes;
            *total = total.saturating_add(bytes);
            firsts.push(object);
            proof {
                assert(object_view(object) == view[i as int]);
                assert(firsts@.map_values(|o: ObjectRef| object_view(o))
                    =~= earlier.map_values(|o: ObjectRef| object_view(o)).push(view[i as int]));
            }
        }
        i = i + 1;
    }
    proof {
        assert(view.take(objects@.len() as int) =~= view);
    }
}

/// Tallies one doctor pass over the manifests of the accepted chain, walked from the head: the
/// head's only unless `deep`. Each distinct object is read once, at its first naming.
pub fn doctor_tally(manifests: &Vec<ManifestObjects>, deep: bool) -> (r: DoctorTally)
    ensures
        ({
            let (visited, sources, dependencies, source_bytes, dependency_bytes) =
                doctor_counts(manifests@.map_values(|m: ManifestObjects| manifest_view(m)), deep);
            &&& r.records_checked == visited
            &&& r.manifests_checked == visited
            &&& r.source_reads@.map_values(|o: ObjectRef| object_view(o)) == sources
            &&& r.dependency_reads@.map_values(|o: ObjectRef| object_view(o)) == dependencies
            &&& r.source_objects_checked == sources.len()
            &&& r.dependency_objects_checked == dependencies.len()
            &&& r.source_bytes_checked == source_bytes
            &&& r.dependency_bytes_checked == dependency_bytes
        }),
{
    let ghost view = manifests@.map_values(|m: ManifestObjects| manifest_view(m));
    let count: usize = if deep || manifests.len() == 0 { manifests.len() } else { 1 };
    let mut source_reads: Vec<ObjectRef> = Vec::new();
    let mut dependency_reads: Vec<ObjectRef> = Vec::new();
    let mut source_bytes: u64 = 0;
    let mut dependency_bytes: u64 = 0;
    let mut i: usize = 0;
    proof {
        assert(walked(view, deep) =~= view.take(count as int));
    }
    while i < count
        invariant
            i <= count <= manifests@.len(),
            view == manifests@.map_values(|m: ManifestObjects| manifest_view(m)),
            walked(view, deep) == view.take(count as int),
            source_reads@.map_values(|o: ObjectRef| object_view(o)) == first_namings(all_objects(view.take(i as int), false)),
            dependency_reads@.map_values(|o: ObjectRef| object_view(o)) == first_namings(all_objects(view.take(i as int), true)),
            source_bytes == saturating_total(first_namings(all_objects(view.take(i as int), false))),
            dependency_bytes == saturating_total(first_namings(all_objects(view.take(i as int), true))),
        decreases count - i,
    {
        proof {
            assert(view.take(i + 1).drop_last() =~= view.take(i as int));
            assert(view.take(i + 1).last() == manifest_view(manifests@[i as int]));
        }
        add_first_namings(&mut source_reads, &mut source_bytes, &manifests[i].sources, Ghost(all_objects(view.take(i as int), false)));
        add_first_namings(&mut dependency_reads, &mut dependency_bytes, &manifests[i].dependencies, Ghost(all_objects(view.take(i as int), true)));
        i = i + 1;
    }
    let records = count as u64;
    let sources = source_reads.len() as u64;
    let dependencies = dependency_reads.len() as u64;
    DoctorTally {
        records_checked: records,
        manifests_checked: records,
        source_objects_checked: sources,
        dependency_objects_checked: dependencies,
        source_bytes_checked: source_bytes,
        dependency_bytes_checked: dependency_bytes,
        source_reads,
        dependency_reads,
    }
}

} // verus!
