//! Read-through candidate authority over one exact base and one canonical delta.

use crate::base_read::{entry, sat_add, CanonicalAuthority, CanonicalBaseRead, CanonicalReadWork};
use crate::delta::{
    candidate_dependency, candidate_owner, candidate_retirement, candidate_type, dependency_edit_of,
    distinct_keys, lemma_bound_in_none, lemma_bound_in_push, owner_edit_of, retirement_edit_of,
    type_addition_of, CanonicalDelta, CanonicalDeltaView, DependencyEdit, ExactEdit, NormalizationBase,
    OwnerEdit, RetirementEdit,
};
use crate::kernel::{copy_entries, dependency_in, owner_in, retirement_in, type_in, KernelSnapshot, SemanticRoot};
use crate::witness::{bound_in, lemma_bound_in_found};
use crate::diagnostic::Diagnostic;
use crate::kernel::{
    DependencyRecord, OwnerKey, OwnerRecord, PackageId, PackageInterfaceRecord, RepositoryId,
    RetirementRecord, RevisionId, TypeObject, TypeObjectDigest,
};
use crate::order::{increasing, sorted_keys, KeyOrder};
use crate::kernel::find_owner;
use vstd::prelude::*;

verus! {

/// The package-interface owner the candidate authority exposes for `owner` of `package`: read
/// at the revision of the candidate dependency on `package`.
pub open spec fn candidate_interface(
    authority: CanonicalAuthority,
    delta: CanonicalDeltaView,
    package: PackageId,
    owner: OwnerKey,
) -> Option<PackageInterfaceRecord> {
    match candidate_dependency(authority, delta, package) {
        Some(dependency) => entry(authority.interfaces, (dependency.package_revision, owner)),
        None => None,
    }
}

/// The first binding of a key in a keyed sequence is the one a lookup finds.
proof fn lemma_bound_in_first<K, V>(entries: Seq<(K, V)>, i: int)
    requires
        0 <= i < entries.len(),
        forall|j: int| 0 <= j < i ==> #[trigger] entries[j].0 != entries[i].0,
    ensures
        bound_in(entries, entries[i].0) == Some(entries[i].1),
    decreases i,
{
    if i > 0 {
        let rest = entries.drop_first();
        assert forall|j: int| 0 <= j < i - 1 implies #[trigger] rest[j].0 != rest[i - 1].0 by {
            assert(rest[j] == entries[j + 1]);
            assert(rest[i - 1] == entries[i]);
        }
        lemma_bound_in_first(rest, i - 1);
        assert(rest[i - 1] == entries[i]);
        assert(entries[0].0 != entries[i].0);
    }
}

/// The candidate authority reads a package's interface at the revision its candidate dependency
/// names: where the delta's first edit of the dependency on `package` keeps a record, at that
/// record's package revision; where that edit deletes the dependency, nothing; where the delta
/// leaves the dependency alone, at the base dependency's revision, if the base has one.
pub proof fn interface_read_at_candidate_revision(
    authority: CanonicalAuthority,
    delta: CanonicalDeltaView,
    package: PackageId,
    owner: OwnerKey,
)
    ensures
        forall|i: int| 0 <= i < delta.dependencies.len() && delta.dependencies[i].0 == package
            && (forall|j: int| 0 <= j < i ==> #[trigger] delta.dependencies[j].0 != package)
            ==> match (#[trigger] delta.dependencies[i]).1.after {
                Some(after) => candidate_interface(authority, delta, package, owner)
                    == if authority.interfaces.dom().contains((after.1.package_revision, owner)) {
                        Some(authority.interfaces[(after.1.package_revision, owner)])
                    } else {
                        None
                    },
                None => candidate_interface(authority, delta, package, owner) is None,
            },
        (forall|j: int| 0 <= j < delta.dependencies.len() ==> #[trigger] delta.dependencies[j].0 != package)
            ==> candidate_interface(authority, delta, package, owner)
                == if authority.dependencies.dom().contains(package)
                    && authority.interfaces.dom().contains((authority.dependencies[package].package_revision, owner)) {
                    Some(authority.interfaces[(authority.dependencies[package].package_revision, owner)])
                } else {
                    None
                },
{
    assert forall|i: int| 0 <= i < delta.dependencies.len() && delta.dependencies[i].0 == package
        && (forall|j: int| 0 <= j < i ==> #[trigger] delta.dependencies[j].0 != package)
        implies match (#[trigger] delta.dependencies[i]).1.after {
            Some(after) => candidate_interface(authority, delta, package, owner)
                == if authority.interfaces.dom().contains((after.1.package_revision, owner)) {
                    Some(authority.interfaces[(after.1.package_revision, owner)])
                } else {
                    None
                },
            None => candidate_interface(authority, delta, package, owner) is None,
        } by {
        lemma_bound_in_first(delta.dependencies, i);
    }
    if forall|j: int| 0 <= j < delta.dependencies.len() ==> #[trigger] delta.dependencies[j].0 != package {
        lemma_bound_in_none(delta.dependencies, package);
    }
}

/// The candidate authority answers an owner, a dependency or a retirement with what the delta's
/// first edit of its key leaves (the record it keeps, or nothing where it deletes), and where the
/// delta does not edit the key, with the base's value; it answers a type object with the delta's
/// first addition under its digest, else with the base's.
pub proof fn candidate_reads_follow_first_edit(
    authority: CanonicalAuthority,
    delta: CanonicalDeltaView,
    owner: OwnerKey,
    package: PackageId,
    digest: TypeObjectDigest,
)
    ensures
        forall|i: int| 0 <= i < delta.owners.len() && delta.owners[i].0 == owner
            && (forall|j: int| 0 <= j < i ==> #[trigger] delta.owners[j].0 != owner)
            ==> candidate_owner(authority, delta, owner) == match (#[trigger] delta.owners[i]).1.after {
                Some(after) => Some(after.1),
                None => None::<OwnerRecord>,
            },
        (forall|j: int| 0 <= j < delta.owners.len() ==> #[trigger] delta.owners[j].0 != owner)
            ==> candidate_owner(authority, delta, owner)
                == if authority.owners.dom().contains(owner) { Some(authority.owners[owner]) } else { None },
        forall|i: int| 0 <= i < delta.dependencies.len() && delta.dependencies[i].0 == package
            && (forall|j: int| 0 <= j < i ==> #[trigger] delta.dependencies[j].0 != package)
            ==> candidate_dependency(authority, delta, package) == match (#[trigger] delta.dependencies[i]).1.after {
                Some(after) => Some(after.1),
                None => None::<DependencyRecord>,
            },
        (forall|j: int| 0 <= j < delta.dependencies.len() ==> #[trigger] delta.dependencies[j].0 != package)
            ==> candidate_dependency(authority, delta, package)
                == if authority.dependencies.dom().contains(package) { Some(authority.dependencies[package]) } else { None },
        forall|i: int| 0 <= i < delta.retirements.len() && delta.retirements[i].0 == owner
            && (forall|j: int| 0 <= j < i ==> #[trigger] delta.retirements[j].0 != owner)
            ==> candidate_retirement(authority, delta, owner) == match (#[trigger] delta.retirements[i]).1.after {
                Some(after) => Some(after.1),
                None => None::<RetirementRecord>,
            },
        (forall|j: int| 0 <= j < delta.retirements.len() ==> #[trigger] delta.retirements[j].0 != owner)
            ==> candidate_retirement(authority, delta, owner)
                == if authority.retirements.dom().contains(owner) { Some(authority.retirements[owner]) } else { None },
        forall|i: int| 0 <= i < delta.type_additions.len() && delta.type_additions[i].0 == digest
            && (forall|j: int| 0 <= j < i ==> #[trigger] delta.type_additions[j].0 != digest)
            ==> candidate_type(authority, delta, digest) == Some((#[trigger] delta.type_additions[i]).1),
        (forall|j: int| 0 <= j < delta.type_additions.len() ==> #[trigger] delta.type_additions[j].0 != digest)
            ==> candidate_type(authority, delta, digest)
                == if authority.types.dom().contains(digest) { Some(authority.types[digest]) } else { None },
{
    assert forall|i: int| 0 <= i < delta.owners.len() && delta.owners[i].0 == owner
        && (forall|j: int| 0 <= j < i ==> #[trigger] delta.owners[j].0 != owner)
        implies candidate_owner(authority, delta, owner) == match (#[trigger] delta.owners[i]).1.after {
            Some(after) => Some(after.1),
            None => None::<OwnerRecord>,
        } by {
        lemma_bound_in_first(delta.owners, i);
    }
    assert forall|i: int| 0 <= i < delta.dependencies.len() && delta.dependencies[i].0 == package
        && (forall|j: int| 0 <= j < i ==> #[trigger] delta.dependencies[j].0 != package)
        implies candidate_dependency(authority, delta, package) == match (#[trigger] delta.dependencies[i]).1.after {
            Some(after) => Some(after.1),
            None => None::<DependencyRecord>,
        } by {
        lemma_bound_in_first(delta.dependencies, i);
    }
    assert forall|i: int| 0 <= i < delta.retirements.len() && delta.retirements[i].0 == owner
        && (forall|j: int| 0 <= j < i ==> #[trigger] delta.retirements[j].0 != owner)
        implies candidate_retirement(authority, delta, owner) == match (#[trigger] delta.retirements[i]).1.after {
            Some(after) => Some(after.1),
            None => None::<RetirementRecord>,
        } by {
        lemma_bound_in_first(delta.retirements, i);
    }
    assert forall|i: int| 0 <= i < delta.type_additions.len() && delta.type_additions[i].0 == digest
        && (forall|j: int| 0 <= j < i ==> #[trigger] delta.type_additions[j].0 != digest)
        implies candidate_type(authority, delta, digest) == Some((#[trigger] delta.type_additions[i]).1) by {
        lemma_bound_in_first(delta.type_additions, i);
    }
    if forall|j: int| 0 <= j < delta.owners.len() ==> #[trigger] delta.owners[j].0 != owner {
        lemma_bound_in_none(delta.owners, owner);
    }
    if forall|j: int| 0 <= j < delta.dependencies.len() ==> #[trigger] delta.dependencies[j].0 != package {
        lemma_bound_in_none(delta.dependencies, package);
    }
    if forall|j: int| 0 <= j < delta.retirements.len() ==> #[trigger] delta.retirements[j].0 != owner {
        lemma_bound_in_none(delta.retirements, owner);
    }
    if forall|j: int| 0 <= j < delta.type_additions.len() ==> #[trigger] delta.type_additions[j].0 != digest {
        lemma_bound_in_none(delta.type_additions, digest);
    }
}

/// A map entry count after one exact edit: an insert adds one, a delete removes one.
pub open spec fn count_step<D, V>(count: u64, edit: ExactEdit<D, V>) -> u64 {
    match (edit.before, edit.after) {
        (None, Some(_)) => sat_add(count, 1),
        (Some(_), None) => if count == 0 { 0 } else { (count - 1) as u64 },
        _ => count,
    }
}

/// A map entry count after a sequence of exact edits, applied in order.
pub open spec fn adjusted<K, D, V>(base: u64, edits: Seq<(K, ExactEdit<D, V>)>) -> u64
    decreases edits.len(),
{
    if edits.len() == 0 {
        base
    } else {
        count_step(adjusted(base, edits.drop_last()), edits.last().1)
    }
}

/// Adjusts a base entry count by a sequence of exact edits, saturating at both ends.
pub fn adjusted_count<K, D, V>(base: u64, edits: &Vec<(K, ExactEdit<D, V>)>) -> (r: u64)
    ensures
        r == adjusted(base, edits@),
{
    let mut count = base;
    let mut i: usize = 0;
    while i < edits.len()
        invariant
            i <= edits@.len(),
            count == adjusted(base, edits@.take(i as int)),
        decreases edits@.len() - i,
    {
        proof {
            assert(edits@.take(i + 1).drop_last() =~= edits@.take(i as int));
        }
        let edit = &edits[i].1;
        if edit.before.is_none() && edit.after.is_some() {
            count = count.saturating_add(1);
        } else if edit.before.is_some() && edit.after.is_none() {
            count = count.saturating_sub(1);
        }
        i = i + 1;
    }
    proof {
        assert(edits@.take(edits@.len() as int) =~= edits@);
    }
    count
}

/// One candidate semantic view. Unchanged records are loaded by exact key and cached for the
/// lifetime of the view; canonical delta records always take precedence.
pub struct KernelOverlay<B> {
    base: B,
    delta: CanonicalDelta,
    cache: NormalizationBase,
}

impl<B: CanonicalBaseRead> KernelOverlay<B> {
    /// The exact base this view reads through.
    pub closed spec fn source(&self) -> B {
        self.base
    }

    /// The accepted authority under the view.
    pub open spec fn base_authority(&self) -> CanonicalAuthority {
        self.source().authority()
    }

    /// The delta the view applies.
    pub closed spec fn delta_view(&self) -> CanonicalDeltaView {
        self.delta@
    }

    /// Whether the base answer for the owner under `owner` is kept.
    pub closed spec fn caches_owner(&self, owner: OwnerKey) -> bool {
        self.cache.caches_owner(owner)
    }

    /// The work of the base reads made so far.
    pub closed spec fn spent(&self) -> CanonicalReadWork {
        self.cache.work
    }

    /// Every cached base answer is what the base holds.
    pub closed spec fn wf(&self) -> bool {
        self.cache.agrees_with(self.base.authority())
    }

    /// `later` is this view after more reads: still well formed over the same base and delta.
    pub open spec fn evolves_to(&self, later: &Self) -> bool {
        &&& later.wf()
        &&& later.base_authority() == self.base_authority()
        &&& later.delta_view() == self.delta_view()
        &&& later.source().reads_are_total() == self.source().reads_are_total()
    }

    /// A view of `base` with `delta` applied.
    pub fn new(base: B, delta: CanonicalDelta) -> (r: Self)
        ensures
            r.wf(),
            r.source() == base,
            r.delta_view() == delta@,
            r.spent() == CanonicalReadWork::zero(),
    {
        KernelOverlay { base, delta, cache: NormalizationBase::new() }
    }

    /// The delta the view applies.
    pub fn delta(&self) -> (r: &CanonicalDelta)
        ensures
            r@ == self.delta_view(),
    {
        &self.delta
    }

    pub fn repository_id(&self) -> (r: RepositoryId)
        ensures
            r == self.base_authority().root.repository_id,
    {
        self.base.repository_id()
    }

    pub fn package_id(&self) -> (r: PackageId)
        ensures
            r == self.base_authority().root.package_id,
    {
        self.base.package_id()
    }

    pub fn exact_revision(&self) -> (r: Option<RevisionId>)
        ensures
            r == self.base_authority().revision,
    {
        self.base.exact_revision()
    }

    /// The candidate owner under `owner`.
    pub fn owner(&mut self, owner: OwnerKey) -> (r: Result<Option<OwnerRecord>, Diagnostic>)
        requires
            old(self).wf(),
        ensures
            final(self).wf(),
            final(self).base_authority() == old(self).base_authority(),
            final(self).delta_view() == old(self).delta_view(),
            final(self).source().reads_are_total() == old(self).source().reads_are_total(),
            r matches Ok(value) ==> value == candidate_owner(old(self).base_authority(), old(self).delta_view(), owner),
            old(self).source().reads_are_total() ==> r is Ok,
            bound_in(old(self).delta_view().owners, owner) is Some ==> r is Ok && *final(self) == *old(self),
            old(self).caches_owner(owner) ==> r is Ok && *final(self) == *old(self),
            r is Ok && bound_in(old(self).delta_view().owners, owner) is None ==> final(self).caches_owner(owner),
            r is Ok && bound_in(old(self).delta_view().owners, owner) is None && !old(self).caches_owner(owner)
                ==> final(self).spent() == old(self).spent().sum(old(self).source().owner_read_work(owner)),
            r matches Err(d) ==> bound_in(old(self).delta_view().owners, owner) is None && old(self).source().read_refusal(d),
            r is Err ==> final(self).spent() == old(self).spent()
                && forall|key: OwnerKey| #[trigger] final(self).caches_owner(key) == old(self).caches_owner(key),
    {
        match owner_edit_of(&self.delta.owners, owner) {
            Some(edit) => match edit.after {
                Some(after) => Ok(Some(after.1)),
                None => Ok(None),
            },
            None => self.base_owner(owner),
        }
    }

    /// The base owner under `owner`, ignoring the delta.
    pub fn base_owner(&mut self, owner: OwnerKey) -> (r: Result<Option<OwnerRecord>, Diagnostic>)
        requires
            old(self).wf(),
        ensures
            final(self).wf(),
            final(self).base_authority() == old(self).base_authority(),
            final(self).delta_view() == old(self).delta_view(),
            final(self).source().reads_are_total() == old(self).source().reads_are_total(),
            r matches Ok(value) ==> value == entry(old(self).base_authority().owners, owner),
            old(self).source().reads_are_total() ==> r is Ok,
            old(self).caches_owner(owner) ==> r is Ok && *final(self) == *old(self),
            r is Ok ==> final(self).caches_owner(owner),
            r is Ok && !old(self).caches_owner(owner) ==> final(self).spent() == old(self).spent().sum(old(self).source().owner_read_work(owner)),
            r matches Err(d) ==> old(self).source().read_refusal(d),
            r is Err ==> final(self).spent() == old(self).spent()
                && forall|key: OwnerKey| #[trigger] final(self).caches_owner(key) == old(self).caches_owner(key),
    {
        self.cache.owner(&mut self.base, owner)
    }

    /// The candidate type object under `digest`.
    pub fn type_object(&mut self, digest: TypeObjectDigest) -> (r: Result<Option<TypeObject>, Diagnostic>)
        requires
            old(self).wf(),
        ensures
            final(self).wf(),
            final(self).base_authority() == old(self).base_authority(),
            final(self).delta_view() == old(self).delta_view(),
            final(self).source().reads_are_total() == old(self).source().reads_are_total(),
            r matches Ok(value) ==> value == candidate_type(old(self).base_authority(), old(self).delta_view(), digest),
            old(self).source().reads_are_total() ==> r is Ok,
    {
        match type_addition_of(&self.delta.type_additions, digest) {
            Some(object) => Ok(Some(object)),
            None => self.base_type_object(digest),
        }
    }

    /// The base type object under `digest`, ignoring the delta.
    pub fn base_type_object(&mut self, digest: TypeObjectDigest) -> (r: Result<Option<TypeObject>, Diagnostic>)
        requires
            old(self).wf(),
        ensures
            final(self).wf(),
            final(self).base_authority() == old(self).base_authority(),
            final(self).delta_view() == old(self).delta_view(),
            final(self).source().reads_are_total() == old(self).source().reads_are_total(),
            r matches Ok(value) ==> value == entry(old(self).base_authority().types, digest),
            old(self).source().reads_are_total() ==> r is Ok,
    {
        self.cache.type_object(&mut self.base, digest)
    }

    /// The interface owner `owner` of the candidate dependency on `package`.
    pub fn package_interface_owner(&mut self, package: PackageId, owner: OwnerKey) -> (r: Result<Option<PackageInterfaceRecord>, Diagnostic>)
        requires
            old(self).wf(),
        ensures
            final(self).wf(),
            final(self).base_authority() == old(self).base_authority(),
            final(self).delta_view() == old(self).delta_view(),
            final(self).source().reads_are_total() == old(self).source().reads_are_total(),
            r matches Ok(value) ==> value == candidate_interface(old(self).base_authority(), old(self).delta_view(), package, owner),
            old(self).source().reads_are_total() ==> r is Ok,
    {
        let dependency = match self.dependency(package)? {
            Some(dependency) => dependency,
            None => return Ok(None),
        };
        self.cache.interface(&mut self.base, &dependency, owner)
    }

    /// The candidate dependency on `package`.
    pub fn dependency(&mut self, package: PackageId) -> (r: Result<Option<DependencyRecord>, Diagnostic>)
        requires
            old(self).wf(),
        ensures
            final(self).wf(),
            final(self).base_authority() == old(self).base_authority(),
            final(self).delta_view() == old(self).delta_view(),
            final(self).source().reads_are_total() == old(self).source().reads_are_total(),
            r matches Ok(value) ==> value == candidate_dependency(old(self).base_authority(), old(self).delta_view(), package),
            old(self).source().reads_are_total() ==> r is Ok,
    {
        match dependency_edit_of(&self.delta.dependencies, package) {
            Some(edit) => match edit.after {
                Some(after) => Ok(Some(after.1)),
                None => Ok(None),
            },
            None => self.cache.dependency(&mut self.base, package),
        }
    }

    /// The candidate retirement of `owner`.
    pub fn retirement(&mut self, owner: OwnerKey) -> (r: Result<Option<RetirementRecord>, Diagnostic>)
        requires
            old(self).wf(),
        ensures
            final(self).wf(),
            final(self).base_authority() == old(self).base_authority(),
            final(self).delta_view() == old(self).delta_view(),
            final(self).source().reads_are_total() == old(self).source().reads_are_total(),
            r matches Ok(value) ==> value == candidate_retirement(old(self).base_authority(), old(self).delta_view(), owner),
            old(self).source().reads_are_total() ==> r is Ok,
    {
        match retirement_edit_of(&self.delta.retirements, owner) {
            Some(edit) => match edit.after {
                Some(after) => Ok(Some(after.1)),
                None => Ok(None),
            },
            None => self.cache.retirement(&mut self.base, owner),
        }
    }

    /// The candidate number of live owners.
    pub fn owner_count(&self) -> (r: u64)
        ensures
            r == adjusted(self.base_authority().root.owners, self.delta_view().owners),
    {
        adjusted_count(self.base.owner_count(), &self.delta.owners)
    }

    /// The candidate number of dependencies.
    pub fn dependency_count(&self) -> (r: u64)
        ensures
            r == adjusted(self.base_authority().root.dependencies, self.delta_view().dependencies),
    {
        adjusted_count(self.base.dependency_count(), &self.delta.dependencies)
    }

    /// The candidate number of retirements.
    pub fn retirement_count(&self) -> (r: u64)
        ensures
            r == adjusted(self.base_authority().root.retirements, self.delta_view().retirements),
    {
        adjusted_count(self.base.retirement_count(), &self.delta.retirements)
    }

    /// The work of the base reads made so far.
    pub fn work(&self) -> (r: CanonicalReadWork)
        ensures
            r == self.spent(),
    {
        self.cache.work
    }

    /// The base this view reads through.
    pub fn base(&self) -> (r: &B)
        ensures
            *r == self.source(),
    {
        &self.base
    }
}


/// Appending a record leaves earlier records in front of it.
proof fn lemma_owner_in_push(records: Seq<OwnerRecord>, record: OwnerRecord, probe: OwnerKey)
    ensures
        owner_in(records.push(record), probe) == (match owner_in(records, probe) {
            Some(found) => Some(found),
            None => if record.owner == probe { Some(record) } else { None },
        }),
    decreases records.len(),
{
    let extended = records.push(record);
    if records.len() == 0 {
        assert(extended.drop_first() =~= Seq::<OwnerRecord>::empty());
        assert(owner_in(extended.drop_first(), probe) is None);
    } else {
        assert(extended[0] == records[0]);
        assert(extended.drop_first() =~= records.drop_first().push(record));
        lemma_owner_in_push(records.drop_first(), record, probe);
    }
}

/// Appending a record leaves earlier records in front of it.
proof fn lemma_dependency_in_push(records: Seq<DependencyRecord>, record: DependencyRecord, probe: PackageId)
    ensures
        dependency_in(records.push(record), probe) == (match dependency_in(records, probe) {
            Some(found) => Some(found),
            None => if record.package == probe { Some(record) } else { None },
        }),
    decreases records.len(),
{
    let extended = records.push(record);
    if records.len() == 0 {
        assert(extended.drop_first() =~= Seq::<DependencyRecord>::empty());
        assert(dependency_in(extended.drop_first(), probe) is None);
    } else {
        assert(extended[0] == records[0]);
        assert(extended.drop_first() =~= records.drop_first().push(record));
        lemma_dependency_in_push(records.drop_first(), record, probe);
    }
}

/// Appending a record leaves earlier records in front of it.
proof fn lemma_retirement_in_push(records: Seq<RetirementRecord>, record: RetirementRecord, probe: OwnerKey)
    ensures
        retirement_in(records.push(record), probe) == (match retirement_in(records, probe) {
            Some(found) => Some(found),
            None => if record.owner == probe { Some(record) } else { None },
        }),
    decreases records.len(),
{
    let extended = records.push(record);
    if records.len() == 0 {
        assert(extended.drop_first() =~= Seq::<RetirementRecord>::empty());
        assert(retirement_in(extended.drop_first(), probe) is None);
    } else {
        assert(extended[0] == records[0]);
        assert(extended.drop_first() =~= records.drop_first().push(record));
        lemma_retirement_in_push(records.drop_first(), record, probe);
    }
}


/// With distinct keys, the binding of an entry's key is that entry's value.
proof fn lemma_bound_in_distinct<K, V>(entries: Seq<(K, V)>, j: int)
    requires
        distinct_keys(entries),
        0 <= j < entries.len(),
    ensures
        bound_in(entries, entries[j].0) == Some(entries[j].1),
    decreases j,
{
    if j > 0 {
        assert(entries[0].0 != entries[j].0);
        let rest = entries.drop_first();
        assert(distinct_keys(rest)) by {
            assert forall|a: int, b: int| 0 <= a < b < rest.len() implies #[trigger] rest[a].0 != #[trigger] rest[b].0 by {
                assert(rest[a] == entries[a + 1] && rest[b] == entries[b + 1]);
            }
        }
        assert(rest[j - 1] == entries[j]);
        lemma_bound_in_distinct(rest, j - 1);
    }
}

/// The record an owner edit leaves, if any.
pub open spec fn owner_after(edit: OwnerEdit) -> Option<OwnerRecord> {
    match edit.after {
        Some(after) => Some(after.1),
        None => None,
    }
}

/// The record a dependency edit leaves, if any.
pub open spec fn dependency_after(edit: DependencyEdit) -> Option<DependencyRecord> {
    match edit.after {
        Some(after) => Some(after.1),
        None => None,
    }
}

/// The record a retirement edit leaves, if any.
pub open spec fn retirement_after(edit: RetirementEdit) -> Option<RetirementRecord> {
    match edit.after {
        Some(after) => Some(after.1),
        None => None,
    }
}

/// What the base records so far, with the delta applied, hold under `owner`.
pub open spec fn kept_owner(base: Seq<OwnerRecord>, edits: Seq<(OwnerKey, OwnerEdit)>, owner: OwnerKey) -> Option<OwnerRecord> {
    if owner_in(base, owner) is Some {
        match bound_in(edits, owner) {
            Some(edit) => owner_after(edit),
            None => owner_in(base, owner),
        }
    } else {
        None
    }
}

/// What the candidate holds under `owner` once the first `applied` edits have been visited.
pub open spec fn visited_owner(base: Seq<OwnerRecord>, edits: Seq<(OwnerKey, OwnerEdit)>, applied: int, owner: OwnerKey) -> Option<OwnerRecord> {
    if owner_in(base, owner) is Some {
        kept_owner(base, edits, owner)
    } else {
        match bound_in(edits.take(applied), owner) {
            Some(edit) => owner_after(edit),
            None => None,
        }
    }
}

/// What the base dependencies so far, with the delta applied, hold for `package`.
pub open spec fn kept_dependency(base: Seq<DependencyRecord>, edits: Seq<(PackageId, DependencyEdit)>, package: PackageId) -> Option<DependencyRecord> {
    if dependency_in(base, package) is Some {
        match bound_in(edits, package) {
            Some(edit) => dependency_after(edit),
            None => dependency_in(base, package),
        }
    } else {
        None
    }
}

pub open spec fn visited_dependency(base: Seq<DependencyRecord>, edits: Seq<(PackageId, DependencyEdit)>, applied: int, package: PackageId) -> Option<DependencyRecord> {
    if dependency_in(base, package) is Some {
        kept_dependency(base, edits, package)
    } else {
        match bound_in(edits.take(applied), package) {
            Some(edit) => dependency_after(edit),
            None => None,
        }
    }
}

/// What the base retirements so far, with the delta applied, hold for `owner`.
pub open spec fn kept_retirement(base: Seq<RetirementRecord>, edits: Seq<(OwnerKey, RetirementEdit)>, owner: OwnerKey) -> Option<RetirementRecord> {
    if retirement_in(base, owner) is Some {
        match bound_in(edits, owner) {
            Some(edit) => retirement_after(edit),
            None => retirement_in(base, owner),
        }
    } else {
        None
    }
}

pub open spec fn visited_retirement(base: Seq<RetirementRecord>, edits: Seq<(OwnerKey, RetirementEdit)>, applied: int, owner: OwnerKey) -> Option<RetirementRecord> {
    if retirement_in(base, owner) is Some {
        kept_retirement(base, edits, owner)
    } else {
        match bound_in(edits.take(applied), owner) {
            Some(edit) => retirement_after(edit),
            None => None,
        }
    }
}

/// The candidate dependencies: base dependencies as the delta leaves them, then inserted ones.
fn apply_dependency_edits(base: &Vec<DependencyRecord>, edits: &Vec<(PackageId, DependencyEdit)>) -> (r: Vec<DependencyRecord>)
    requires
        distinct_keys(edits@),
        forall|i: int| 0 <= i < edits@.len()
            ==> ((#[trigger] edits@[i]).1.after matches Some(after) ==> after.1.package == edits@[i].0),
    ensures
        forall|package: PackageId| #[trigger] dependency_in(r@, package)
            == visited_dependency(base@, edits@, edits@.len() as int, package),
{
    let mut out: Vec<DependencyRecord> = Vec::new();
    let mut i: usize = 0;
    while i < base.len()
        invariant
            i <= base@.len(),
            distinct_keys(edits@),
            forall|i: int| 0 <= i < edits@.len()
                ==> ((#[trigger] edits@[i]).1.after matches Some(after) ==> after.1.package == edits@[i].0),
            forall|package: PackageId| #[trigger] dependency_in(out@, package)
                == kept_dependency(base@.take(i as int), edits@, package),
        decreases base@.len() - i,
    {
        let record = base[i];
        let ghost before = out@;
        let ghost prefix = base@.take(i as int);
        proof {
            assert(base@.take(i + 1) =~= prefix.push(record));
            lemma_bound_in_found(edits@, record.package);
        }
        match dependency_edit_of(edits, record.package) {
            Some(edit) => {
                if let Some(after) = edit.after {
                    out.push(after.1);
                }
            },
            None => {
                out.push(record);
            },
        }
        proof {
            assert forall|package: PackageId| #[trigger] dependency_in(out@, package)
                == kept_dependency(base@.take(i + 1), edits@, package) by {
                lemma_dependency_in_push(prefix, record, package);
                lemma_dependency_in_push(before, record, package);
                if let Some(edit) = bound_in(edits@, record.package) {
                    if let Some(after) = edit.after {
                        lemma_dependency_in_push(before, after.1, package);
                    }
                }
            }
        }
        i = i + 1;
    }
    assert(base@.take(base@.len() as int) =~= base@);
    let mut j: usize = 0;
    assert(edits@.take(0) =~= Seq::<(PackageId, DependencyEdit)>::empty());
    while j < edits.len()
        invariant
            j <= edits@.len(),
            distinct_keys(edits@),
            forall|i: int| 0 <= i < edits@.len()
                ==> ((#[trigger] edits@[i]).1.after matches Some(after) ==> after.1.package == edits@[i].0),
            forall|package: PackageId| #[trigger] dependency_in(out@, package)
                == visited_dependency(base@, edits@, j as int, package),
        decreases edits@.len() - j,
    {
        let package = edits[j].0;
        let edit = edits[j].1;
        let ghost before = out@;
        proof {
            assert(edits@.take(j + 1) =~= edits@.take(j as int).push((package, edit)));
            assert forall|k: int| 0 <= k < edits@.take(j as int).len() implies #[trigger] edits@.take(j as int)[k].0 != package by {
                assert(edits@.take(j as int)[k] == edits@[k]);
            }
            lemma_bound_in_none(edits@.take(j as int), package);
        }
        if crate::kernel::find_dependency(base, package).is_none() {
            if let Some(after) = edit.after {
                out.push(after.1);
            }
        }
        proof {
            assert forall|probe: PackageId| #[trigger] dependency_in(out@, probe)
                == visited_dependency(base@, edits@, j + 1, probe) by {
                lemma_bound_in_push(edits@.take(j as int), package, edit, probe);
                if let Some(after) = edit.after {
                    lemma_dependency_in_push(before, after.1, probe);
                }
            }
        }
        j = j + 1;
    }
    assert(edits@.take(edits@.len() as int) =~= edits@);
    out
}

/// The candidate retirements: base retirements as the delta leaves them, then inserted ones.
fn apply_retirement_edits(base: &Vec<RetirementRecord>, edits: &Vec<(OwnerKey, RetirementEdit)>) -> (r: Vec<RetirementRecord>)
    requires
        distinct_keys(edits@),
        forall|i: int| 0 <= i < edits@.len()
            ==> ((#[trigger] edits@[i]).1.after matches Some(after) ==> after.1.owner == edits@[i].0),
    ensures
        forall|key: OwnerKey| #[trigger] retirement_in(r@, key)
            == visited_retirement(base@, edits@, edits@.len() as int, key),
{
    let mut out: Vec<RetirementRecord> = Vec::new();
    let mut i: usize = 0;
    while i < base.len()
        invariant
            i <= base@.len(),
            distinct_keys(edits@),
            forall|i: int| 0 <= i < edits@.len()
                ==> ((#[trigger] edits@[i]).1.after matches Some(after) ==> after.1.owner == edits@[i].0),
            forall|key: OwnerKey| #[trigger] retirement_in(out@, key)
                == kept_retirement(base@.take(i as int), edits@, key),
        decreases base@.len() - i,
    {
        let record = base[i];
        let ghost before = out@;
        let ghost prefix = base@.take(i as int);
        proof {
            assert(base@.take(i + 1) =~= prefix.push(record));
            lemma_bound_in_found(edits@, record.owner);
        }
        match retirement_edit_of(edits, record.owner) {
            Some(edit) => {
                if let Some(after) = edit.after {
                    out.push(after.1);
                }
            },
            None => {
                out.push(record);
            },
        }
        proof {
            assert forall|key: OwnerKey| #[trigger] retirement_in(out@, key)
                == kept_retirement(base@.take(i + 1), edits@, key) by {
                lemma_retirement_in_push(prefix, record, key);
                lemma_retirement_in_push(before, record, key);
                if let Some(edit) = bound_in(edits@, record.owner) {
                    if let Some(after) = edit.after {
                        lemma_retirement_in_push(before, after.1, key);
                    }
                }
            }
        }
        i = i + 1;
    }
    assert(base@.take(base@.len() as int) =~= base@);
    let mut j: usize = 0;
    assert(edits@.take(0) =~= Seq::<(OwnerKey, RetirementEdit)>::empty());
    while j < edits.len()
        invariant
            j <= edits@.len(),
            distinct_keys(edits@),
            forall|i: int| 0 <= i < edits@.len()
                ==> ((#[trigger] edits@[i]).1.after matches Some(after) ==> after.1.owner == edits@[i].0),
            forall|key: OwnerKey| #[trigger] retirement_in(out@, key)
                == visited_retirement(base@, edits@, j as int, key),
        decreases edits@.len() - j,
    {
        let key = edits[j].0;
        let edit = edits[j].1;
        let ghost before = out@;
        proof {
            assert(edits@.take(j + 1) =~= edits@.take(j as int).push((key, edit)));
            assert forall|k: int| 0 <= k < edits@.take(j as int).len() implies #[trigger] edits@.take(j as int)[k].0 != key by {
                assert(edits@.take(j as int)[k] == edits@[k]);
            }
            lemma_bound_in_none(edits@.take(j as int), key);
        }
        if crate::kernel::find_retirement(base, key).is_none() {
            if let Some(after) = edit.after {
                out.push(after.1);
            }
        }
        proof {
            assert forall|probe: OwnerKey| #[trigger] retirement_in(out@, probe)
                == visited_retirement(base@, edits@, j + 1, probe) by {
                lemma_bound_in_push(edits@.take(j as int), key, edit, probe);
                if let Some(after) = edit.after {
                    lemma_retirement_in_push(before, after.1, probe);
                }
            }
        }
        j = j + 1;
    }
    assert(edits@.take(edits@.len() as int) =~= edits@);
    out
}

/// The candidate owners: base owners as the delta leaves them, then inserted ones.
fn apply_owner_edits(base: &Vec<OwnerRecord>, edits: &Vec<(OwnerKey, OwnerEdit)>) -> (r: Vec<OwnerRecord>)
    requires
        distinct_keys(edits@),
        forall|i: int| 0 <= i < edits@.len()
            ==> ((#[trigger] edits@[i]).1.after matches Some(after) ==> after.1.owner == edits@[i].0),
    ensures
        forall|key: OwnerKey| #[trigger] owner_in(r@, key)
            == visited_owner(base@, edits@, edits@.len() as int, key),
{
    let mut out: Vec<OwnerRecord> = Vec::new();
    let mut i: usize = 0;
    while i < base.len()
        invariant
            i <= base@.len(),
            distinct_keys(edits@),
            forall|i: int| 0 <= i < edits@.len()
                ==> ((#[trigger] edits@[i]).1.after matches Some(after) ==> after.1.owner == edits@[i].0),
            forall|key: OwnerKey| #[trigger] owner_in(out@, key)
                == kept_owner(base@.take(i as int), edits@, key),
        decreases base@.len() - i,
    {
        let record = base[i];
        let ghost before = out@;
        let ghost prefix = base@.take(i as int);
        proof {
            assert(base@.take(i + 1) =~= prefix.push(record));
            lemma_bound_in_found(edits@, record.owner);
        }
        match owner_edit_of(edits, record.owner) {
            Some(edit) => {
                if let Some(after) = edit.after {
                    out.push(after.1);
                }
            },
            None => {
                out.push(record);
            },
        }
        proof {
            assert forall|key: OwnerKey| #[trigger] owner_in(out@, key)
                == kept_owner(base@.take(i + 1), edits@, key) by {
                lemma_owner_in_push(prefix, record, key);
                lemma_owner_in_push(before, record, key);
                if let Some(edit) = bound_in(edits@, record.owner) {
                    if let Some(after) = edit.after {
                        lemma_owner_in_push(before, after.1, key);
                    }
                }
            }
        }
        i = i + 1;
    }
    assert(base@.take(base@.len() as int) =~= base@);
    let mut j: usize = 0;
    assert(edits@.take(0) =~= Seq::<(OwnerKey, OwnerEdit)>::empty());
    while j < edits.len()
        invariant
            j <= edits@.len(),
            distinct_keys(edits@),
            forall|i: int| 0 <= i < edits@.len()
                ==> ((#[trigger] edits@[i]).1.after matches Some(after) ==> after.1.owner == edits@[i].0),
            forall|key: OwnerKey| #[trigger] owner_in(out@, key)
                == visited_owner(base@, edits@, j as int, key),
        decreases edits@.len() - j,
    {
        let key = edits[j].0;
        let edit = edits[j].1;
        let ghost before = out@;
        proof {
            assert(edits@.take(j + 1) =~= edits@.take(j as int).push((key, edit)));
            assert forall|k: int| 0 <= k < edits@.take(j as int).len() implies #[trigger] edits@.take(j as int)[k].0 != key by {
                assert(edits@.take(j as int)[k] == edits@[k]);
            }
            lemma_bound_in_none(edits@.take(j as int), key);
        }
        if crate::kernel::find_owner(base, key).is_none() {
            if let Some(after) = edit.after {
                out.push(after.1);
            }
        }
        proof {
            assert forall|probe: OwnerKey| #[trigger] owner_in(out@, probe)
                == visited_owner(base@, edits@, j + 1, probe) by {
                lemma_bound_in_push(edits@.take(j as int), key, edit, probe);
                if let Some(after) = edit.after {
                    lemma_owner_in_push(before, after.1, probe);
                }
            }
        }
        j = j + 1;
    }
    assert(edits@.take(edits@.len() as int) =~= edits@);
    out
}


/// The first binding of a concatenation is found in its first part when that part has one.
proof fn lemma_bound_in_concat<K, V>(first: Seq<(K, V)>, second: Seq<(K, V)>, probe: K)
    ensures
        bound_in(first + second, probe) == (match bound_in(first, probe) {
            Some(found) => Some(found),
            None => bound_in(second, probe),
        }),
    decreases first.len(),
{
    if first.len() == 0 {
        assert(first + second =~= second);
    } else {
        assert((first + second)[0] == first[0]);
        assert((first + second).drop_first() =~= first.drop_first() + second);
        lemma_bound_in_concat(first.drop_first(), second, probe);
    }
}

/// Type lookup is first-binding lookup.
proof fn lemma_type_in_is_bound_in(types: Seq<(TypeObjectDigest, TypeObject)>, digest: TypeObjectDigest)
    ensures
        type_in(types, digest) == bound_in(types, digest),
    decreases types.len(),
{
    if types.len() > 0 {
        lemma_type_in_is_bound_in(types.drop_first(), digest);
    }
}


/// The keys of visited owners, in visiting order.
pub open spec fn visited_keys(visited: Seq<(OwnerKey, OwnerRecord)>) -> Seq<OwnerKey> {
    visited.map_values(|entry: (OwnerKey, OwnerRecord)| entry.0)
}

/// Where some record has key `key` at `m`, the first record with that key is found.
proof fn lemma_owner_in_found(records: Seq<OwnerRecord>, key: OwnerKey, m: int)
    ensures
        0 <= m < records.len() && records[m].owner == key ==> owner_in(records, key) is Some,
        owner_in(records, key) matches Some(found) ==> found.owner == key,
    decreases records.len(),
{
    if records.len() > 0 && records[0].owner != key {
        lemma_owner_in_found(records.drop_first(), key, m - 1);
        if 0 <= m < records.len() && records[m].owner == key {
            assert(records.drop_first()[m - 1] == records[m]);
        }
    }
}

/// A record found under `key` is the record of some position with that key.
proof fn lemma_owner_in_some(records: Seq<OwnerRecord>, key: OwnerKey)
    ensures
        owner_in(records, key) is Some ==> exists|m: int| 0 <= m < records.len() && records[m].owner == key,
    decreases records.len(),
{
    if records.len() > 0 && records[0].owner != key {
        lemma_owner_in_some(records.drop_first(), key);
        if owner_in(records, key) is Some {
            let m = choose|m: int| 0 <= m < records.drop_first().len() && records.drop_first()[m].owner == key;
            assert(records[m + 1].owner == key);
        }
    }
}

/// The binding at the first position with key `key` is the one found.
proof fn lemma_bound_in_at<K, V>(entries: Seq<(K, V)>, key: K, m: int)
    requires
        0 <= m < entries.len(),
        entries[m].0 == key,
        forall|k: int| 0 <= k < m ==> (#[trigger] entries[k]).0 != key,
    ensures
        bound_in(entries, key) == Some(entries[m].1),
    decreases m,
{
    if m > 0 {
        let rest = entries.drop_first();
        assert forall|k: int| 0 <= k < m - 1 implies (#[trigger] rest[k]).0 != key by {
            assert(rest[k] == entries[k + 1]);
        }
        lemma_bound_in_at(rest, key, m - 1);
    }
}

/// Where no entry has key `key`, none is found.
proof fn lemma_bound_in_absent<K, V>(entries: Seq<(K, V)>, key: K)
    requires
        forall|k: int| 0 <= k < entries.len() ==> (#[trigger] entries[k]).0 != key,
    ensures
        bound_in(entries, key) is None,
    decreases entries.len(),
{
    if entries.len() > 0 {
        let rest = entries.drop_first();
        assert forall|k: int| 0 <= k < rest.len() implies (#[trigger] rest[k]).0 != key by {
            assert(rest[k] == entries[k + 1]);
        }
        lemma_bound_in_absent(rest, key);
    }
}

impl KernelOverlay<KernelSnapshot> {
    /// Visits every candidate owner once, in increasing key order; each base owner is visited as
    /// the delta leaves it and a deleted owner not at all. Visiting appends the owner's key and
    /// record to `visitor`.
    pub fn for_each_owner(&self, visitor: &mut Vec<(OwnerKey, OwnerRecord)>)
        requires
            self.delta_view().wf(),
        ensures
            final(visitor)@.len() >= old(visitor)@.len(),
            final(visitor)@.take(old(visitor)@.len() as int) == old(visitor)@,
            forall|owner: OwnerKey| #[trigger] bound_in(final(visitor)@.skip(old(visitor)@.len() as int), owner)
                == candidate_owner(self.base_authority(), self.delta_view(), owner),
            forall|i: int| old(visitor)@.len() <= i < final(visitor)@.len()
                ==> (#[trigger] final(visitor)@[i]).1.owner == final(visitor)@[i].0,
            increasing(visited_keys(final(visitor)@.skip(old(visitor)@.len() as int))),
    {
        let records = apply_owner_edits(&self.base.owners, &self.delta.owners);
        proof {
            assert(self.delta.owners@.take(self.delta.owners@.len() as int) =~= self.delta.owners@);
        }
        let mut owners: Vec<OwnerKey> = Vec::new();
        let mut i: usize = 0;
        while i < records.len()
            invariant
                i <= records@.len(),
                owners@.len() == i,
                forall|m: int| 0 <= m < i ==> #[trigger] owners@[m] == records@[m].owner,
            decreases records@.len() - i,
        {
            owners.push(records[i].owner);
            i = i + 1;
        }
        let keys = sorted_keys(&owners);
        let ghost start = visitor@;
        let mut j: usize = 0;
        while j < keys.len()
            invariant
                j <= keys@.len(),
                increasing(keys@),
                forall|x: OwnerKey| #[trigger] keys@.contains(x) <==> owners@.contains(x),
                owners@.len() == records@.len(),
                forall|m: int| 0 <= m < records@.len() ==> #[trigger] owners@[m] == records@[m].owner,
                visitor@.len() == start.len() + j,
                visitor@.take(start.len() as int) == start,
                forall|m: int| 0 <= m < j ==> (#[trigger] visitor@[start.len() + m]).0 == keys@[m]
                    && owner_in(records@, keys@[m]) == Some(visitor@[start.len() + m].1)
                    && visitor@[start.len() + m].1.owner == keys@[m],
            decreases keys@.len() - j,
        {
            let key = keys[j];
            proof {
                assert(keys@.contains(key));
                let m = choose|m: int| 0 <= m < owners@.len() && owners@[m] == key;
                assert(records@[m].owner == key);
                lemma_owner_in_found(records@, key, m);
            }
            let record = find_owner(&records, key).unwrap();
            proof {
                lemma_owner_in_found(records@, key, 0);
            }
            let ghost before = visitor@;
            visitor.push((key, record));
            proof {
                assert(visitor@.take(start.len() as int) =~= before.take(start.len() as int));
            }
            j = j + 1;
        }
        proof {
            let visited = visitor@.skip(start.len() as int);
            assert(visited.len() == keys@.len());
            assert forall|m: int| 0 <= m < visited.len() implies (#[trigger] visited[m]).0 == keys@[m] by {
                assert(visited[m] == visitor@[start.len() + m]);
            }
            assert(visited_keys(visited) =~= keys@);
            assert forall|owner: OwnerKey| #[trigger] bound_in(visited, owner) == owner_in(records@, owner) by {
                if keys@.contains(owner) {
                    let m = choose|m: int| 0 <= m < keys@.len() && keys@[m] == owner;
                    assert forall|k: int| 0 <= k < m implies (#[trigger] visited[k]).0 != owner by {
                        assert(keys@[k].key_less(keys@[m]));
                        OwnerKey::lemma_key_less_irreflexive(owner);
                    }
                    assert(visited[m] == visitor@[start.len() + m]);
                    lemma_bound_in_at(visited, owner, m);
                } else {
                    assert forall|k: int| 0 <= k < visited.len() implies (#[trigger] visited[k]).0 != owner by {
                        assert(keys@.contains(keys@[k]));
                    }
                    lemma_bound_in_absent(visited, owner);
                    if owner_in(records@, owner) is Some {
                        lemma_owner_in_some(records@, owner);
                        let m = choose|m: int| 0 <= m < records@.len() && records@[m].owner == owner;
                        assert(owners@[m] == owner);
                        assert(owners@.contains(owner));
                    }
                }
            }
            assert forall|k: int| start.len() <= k < visitor@.len() implies (#[trigger] visitor@[k]).1.owner == visitor@[k].0 by {
                assert(visitor@[start.len() + (k - start.len())] == visitor@[k]);
            }
        }
    }

    /// The candidate authority as one in-memory snapshot, for comparison with an independent
    /// oracle: it answers every key as this view does, and its entry counts are corrected.
    pub fn materialize_logical_oracle(&self) -> (r: KernelSnapshot)
        requires
            self.delta_view().wf(),
        ensures
            forall|owner: OwnerKey| #[trigger] entry(r.authority().owners, owner)
                == candidate_owner(self.base_authority(), self.delta_view(), owner),
            forall|digest: TypeObjectDigest| #[trigger] entry(r.authority().types, digest)
                == candidate_type(self.base_authority(), self.delta_view(), digest),
            forall|package: PackageId| #[trigger] entry(r.authority().dependencies, package)
                == candidate_dependency(self.base_authority(), self.delta_view(), package),
            forall|owner: OwnerKey| #[trigger] entry(r.authority().retirements, owner)
                == candidate_retirement(self.base_authority(), self.delta_view(), owner),
            r.authority().interfaces == self.base_authority().interfaces,
            r.types@ == self.delta_view().type_additions + self.source().types@,
            r.dependency_types@ == self.source().dependency_types@,
            r.dependency_interfaces@ == self.source().dependency_interfaces@,
            r.root == (SemanticRoot {
                owners: r.owners@.len() as u64,
                dependencies: r.dependencies@.len() as u64,
                retirements: r.retirements@.len() as u64,
                ..self.source().root
            }),
    {
        let owners = apply_owner_edits(&self.base.owners, &self.delta.owners);
        let dependencies = apply_dependency_edits(&self.base.dependencies, &self.delta.dependencies);
        let retirements = apply_retirement_edits(&self.base.retirements, &self.delta.retirements);
        let mut types = copy_entries(&self.delta.type_additions);
        let mut base_types = copy_entries(&self.base.types);
        types.append(&mut base_types);
        let root = SemanticRoot {
            owners: owners.len() as u64,
            dependencies: dependencies.len() as u64,
            retirements: retirements.len() as u64,
            ..self.base.root
        };
        let snapshot = KernelSnapshot {
            root,
            owners,
            types,
            dependency_types: copy_entries(&self.base.dependency_types),
            dependency_interfaces: copy_entries(&self.base.dependency_interfaces),
            dependencies,
            retirements,
        };
        proof {
            let base = self.base;
            let delta = self.delta@;
            assert(self.delta.owners@.take(self.delta.owners@.len() as int) =~= self.delta.owners@);
            assert(self.delta.dependencies@.take(self.delta.dependencies@.len() as int) =~= self.delta.dependencies@);
            assert(self.delta.retirements@.take(self.delta.retirements@.len() as int) =~= self.delta.retirements@);
            assert forall|digest: TypeObjectDigest| #[trigger] entry(snapshot.authority().types, digest)
                == candidate_type(self.base_authority(), self.delta_view(), digest) by {
                lemma_type_in_is_bound_in(snapshot.types@, digest);
                lemma_type_in_is_bound_in(base.types@, digest);
                lemma_bound_in_concat(delta.type_additions, base.types@, digest);
            }
            assert(snapshot.authority().interfaces =~= self.base_authority().interfaces);
        }
        snapshot
    }
}

} // verus!
