//! Exact normalized primitive edits over the canonical maps.

use crate::base_read::{entry, CanonicalAuthority, CanonicalBaseRead, CanonicalReadWork};
use crate::diagnostic::{static_message, Diagnostic, DiagnosticClass};
use crate::kernel::{
    dependency_bytes, digest_of, encode_dependency, encode_owner, encode_retirement, encode_type_object,
    owner_bytes, retirement_bytes, type_object_bytes, DependencyObjectDigest, DependencyRecord, KernelSnapshot,
    OwnerKey, OwnerObjectDigest, OwnerRecord, PackageId, PackageInterfaceRecord, PackageRevisionDigest, RetirementObjectDigest,
    RetirementRecord, RevisionId, TypeObject, TypeObjectDigest,
};
use crate::witness::{bound_in, lemma_bound_in_found};
use crate::order::{in_entry_order, keys_increasing, lemma_in_entry_order, lemma_orderable, same_entries, sorted_entries, KeyOrder};
use vstd::prelude::*;

verus! {

/// One exact change of a keyed canonical value: the digest it had and the value it gets.
#[derive(Clone, Copy, Debug, PartialEq, Eq)]
pub struct ExactEdit<D, V> {
    pub before: Option<D>,
    pub after: Option<(D, V)>,
}

pub type OwnerEdit = ExactEdit<OwnerObjectDigest, OwnerRecord>;

pub type DependencyEdit = ExactEdit<DependencyObjectDigest, DependencyRecord>;

pub type RetirementEdit = ExactEdit<RetirementObjectDigest, RetirementRecord>;

/// One primitive edit of a change request, with the digests it expects at the base.
#[derive(Clone, Copy, Debug)]
pub enum PrimitiveEdit {
    InsertOwner { record: OwnerRecord },
    ReplaceOwner { expected: OwnerObjectDigest, record: OwnerRecord },
    DeleteOwner { owner: OwnerKey, expected: OwnerObjectDigest },
    AddTypeObject { digest: TypeObjectDigest, object: TypeObject },
    InsertDependency { record: DependencyRecord },
    ReplaceDependency { expected: DependencyObjectDigest, record: DependencyRecord },
    DeleteDependency { package: PackageId, expected: DependencyObjectDigest },
    InsertRetirement { record: RetirementRecord },
    ReplaceRetirement { expected: RetirementObjectDigest, record: RetirementRecord },
    DeleteRetirement { owner: OwnerKey, expected: RetirementObjectDigest },
}

/// The canonical key a primitive edit addresses.
#[derive(Clone, Copy, Debug, PartialEq, Eq, Structural)]
pub enum EditSlot {
    Owner(OwnerKey),
    TypeObject(TypeObjectDigest),
    Dependency(PackageId),
    Retirement(OwnerKey),
}

impl PrimitiveEdit {
    pub open spec fn spec_slot(self) -> EditSlot {
        match self {
            PrimitiveEdit::InsertOwner { record } => EditSlot::Owner(record.owner),
            PrimitiveEdit::ReplaceOwner { record, .. } => EditSlot::Owner(record.owner),
            PrimitiveEdit::DeleteOwner { owner, .. } => EditSlot::Owner(owner),
            PrimitiveEdit::AddTypeObject { digest, .. } => EditSlot::TypeObject(digest),
            PrimitiveEdit::InsertDependency { record } => EditSlot::Dependency(record.package),
            PrimitiveEdit::ReplaceDependency { record, .. } => EditSlot::Dependency(record.package),
            PrimitiveEdit::DeleteDependency { package, .. } => EditSlot::Dependency(package),
            PrimitiveEdit::InsertRetirement { record } => EditSlot::Retirement(record.owner),
            PrimitiveEdit::ReplaceRetirement { record, .. } => EditSlot::Retirement(record.owner),
            PrimitiveEdit::DeleteRetirement { owner, .. } => EditSlot::Retirement(owner),
        }
    }

    /// The canonical key this edit addresses.
    pub fn slot(&self) -> (r: EditSlot)
        ensures
            r == self.spec_slot(),
    {
        match *self {
            PrimitiveEdit::InsertOwner { record } => EditSlot::Owner(record.owner),
            PrimitiveEdit::ReplaceOwner { record, .. } => EditSlot::Owner(record.owner),
            PrimitiveEdit::DeleteOwner { owner, .. } => EditSlot::Owner(owner),
            PrimitiveEdit::AddTypeObject { digest, .. } => EditSlot::TypeObject(digest),
            PrimitiveEdit::InsertDependency { record } => EditSlot::Dependency(record.package),
            PrimitiveEdit::ReplaceDependency { record, .. } => EditSlot::Dependency(record.package),
            PrimitiveEdit::DeleteDependency { package, .. } => EditSlot::Dependency(package),
            PrimitiveEdit::InsertRetirement { record } => EditSlot::Retirement(record.owner),
            PrimitiveEdit::ReplaceRetirement { record, .. } => EditSlot::Retirement(record.owner),
            PrimitiveEdit::DeleteRetirement { owner, .. } => EditSlot::Retirement(owner),
        }
    }
}

/// An exact canonical delta: at most one edit per key. A normalized delta holds each map's
/// entries in increasing key order.
#[derive(Clone, Debug)]
pub struct CanonicalDelta {
    pub owners: Vec<(OwnerKey, OwnerEdit)>,
    pub type_additions: Vec<(TypeObjectDigest, TypeObject)>,
    pub dependencies: Vec<(PackageId, DependencyEdit)>,
    pub retirements: Vec<(OwnerKey, RetirementEdit)>,
}

/// The contents of a canonical delta.
pub struct CanonicalDeltaView {
    pub owners: Seq<(OwnerKey, OwnerEdit)>,
    pub type_additions: Seq<(TypeObjectDigest, TypeObject)>,
    pub dependencies: Seq<(PackageId, DependencyEdit)>,
    pub retirements: Seq<(OwnerKey, RetirementEdit)>,
}

/// Whether no two entries of a keyed sequence share a key.
pub open spec fn distinct_keys<K, V>(entries: Seq<(K, V)>) -> bool {
    forall|i: int, j: int| 0 <= i < j < entries.len() ==> #[trigger] entries[i].0 != #[trigger] entries[j].0
}

impl CanonicalDeltaView {
    /// At most one edit per key, and every new value is filed under its own key.
    pub open spec fn wf(self) -> bool {
        &&& distinct_keys(self.owners)
        &&& distinct_keys(self.type_additions)
        &&& distinct_keys(self.dependencies)
        &&& distinct_keys(self.retirements)
        &&& forall|i: int| 0 <= i < self.owners.len()
            ==> ((#[trigger] self.owners[i]).1.after matches Some(after) ==> after.1.owner == self.owners[i].0)
        &&& forall|i: int| 0 <= i < self.dependencies.len()
            ==> ((#[trigger] self.dependencies[i]).1.after matches Some(after) ==> after.1.package == self.dependencies[i].0)
        &&& forall|i: int| 0 <= i < self.retirements.len()
            ==> ((#[trigger] self.retirements[i]).1.after matches Some(after) ==> after.1.owner == self.retirements[i].0)
    }

    /// Each map's entries come in increasing key order.
    pub open spec fn ordered(self) -> bool {
        &&& keys_increasing(self.owners)
        &&& keys_increasing(self.type_additions)
        &&& keys_increasing(self.dependencies)
        &&& keys_increasing(self.retirements)
    }

    pub open spec fn empty() -> CanonicalDeltaView {
        CanonicalDeltaView {
            owners: Seq::empty(),
            type_additions: Seq::empty(),
            dependencies: Seq::empty(),
            retirements: Seq::empty(),
        }
    }
}

impl View for CanonicalDelta {
    type V = CanonicalDeltaView;

    open spec fn view(&self) -> CanonicalDeltaView {
        CanonicalDeltaView {
            owners: self.owners@,
            type_additions: self.type_additions@,
            dependencies: self.dependencies@,
            retirements: self.retirements@,
        }
    }
}

impl Default for CanonicalDelta {
    fn default() -> (r: Self)
        ensures
            r@ == CanonicalDeltaView::empty(),
    {
        CanonicalDelta {
            owners: Vec::new(),
            type_additions: Vec::new(),
            dependencies: Vec::new(),
            retirements: Vec::new(),
        }
    }
}

/// A normalized request: the exact delta, the revision it was read at and the read work.
#[derive(Clone, Debug)]
pub struct CanonicalNormalization {
    pub canonical: CanonicalDelta,
    pub base_revision: Option<RevisionId>,
    pub work: CanonicalReadWork,
}

/// Digest of an owner record's canonical bytes.
pub open spec fn owner_digest(record: OwnerRecord) -> OwnerObjectDigest {
    digest_of(owner_bytes(record))
}

/// Digest of a type object's canonical bytes.
pub open spec fn type_digest(object: TypeObject) -> TypeObjectDigest {
    digest_of(type_object_bytes(object))
}

/// Digest of a dependency record's canonical bytes.
pub open spec fn dependency_digest(record: DependencyRecord) -> DependencyObjectDigest {
    digest_of(dependency_bytes(record))
}

/// Digest of a retirement record's canonical bytes.
pub open spec fn retirement_digest(record: RetirementRecord) -> RetirementObjectDigest {
    digest_of(retirement_bytes(record))
}

/// A refusal of a request: the diagnostic class and code it is answered with.
pub type Refusal = (DiagnosticClass, Seq<char>);

pub open spec fn semantic(code: Seq<char>) -> Refusal {
    (DiagnosticClass::Semantic, code)
}

/// The keys addressed by a sequence of edits, in order.
pub open spec fn slots(edits: Seq<PrimitiveEdit>) -> Seq<EditSlot> {
    edits.map_values(|edit: PrimitiveEdit| edit.spec_slot())
}

/// The delta after one more edit, given the edits before it, or its refusal.
pub open spec fn apply_edit(
    authority: CanonicalAuthority,
    delta: CanonicalDeltaView,
    prior: Seq<PrimitiveEdit>,
    edit: PrimitiveEdit,
) -> Result<CanonicalDeltaView, Refusal> {
    if slots(prior).contains(edit.spec_slot()) {
        Err(semantic("change_duplicate_primitive"@))
    } else {
        match edit {
            PrimitiveEdit::InsertOwner { record } => if authority.owners.dom().contains(record.owner) {
                Err(semantic("change_owner_present"@))
            } else {
                let change = ExactEdit { before: None, after: Some((owner_digest(record), record)) };
                Ok(CanonicalDeltaView { owners: delta.owners.push((record.owner, change)), ..delta })
            },
            PrimitiveEdit::ReplaceOwner { expected, record } => match entry(authority.owners, record.owner) {
                None => Err(semantic("change_owner_missing"@)),
                Some(present) => if owner_digest(present) != expected {
                    Err(semantic("change_exact_precondition"@))
                } else if owner_digest(record) == expected {
                    Ok(delta)
                } else {
                    let change = ExactEdit { before: Some(expected), after: Some((owner_digest(record), record)) };
                    Ok(CanonicalDeltaView { owners: delta.owners.push((record.owner, change)), ..delta })
                },
            },
            PrimitiveEdit::DeleteOwner { owner, expected } => match entry(authority.owners, owner) {
                None => Err(semantic("change_owner_missing"@)),
                Some(present) => if owner_digest(present) != expected {
                    Err(semantic("change_exact_precondition"@))
                } else {
                    let change = ExactEdit { before: Some(expected), after: None };
                    Ok(CanonicalDeltaView { owners: delta.owners.push((owner, change)), ..delta })
                },
            },
            PrimitiveEdit::AddTypeObject { digest, object } => if type_digest(object) != digest {
                Err(semantic("change_exact_precondition"@))
            } else {
                match entry(authority.types, digest) {
                    Some(existing) => if existing == object {
                        Ok(delta)
                    } else {
                        Err((DiagnosticClass::Corrupt, "change_type_collision"@))
                    },
                    None => Ok(CanonicalDeltaView {
                        type_additions: delta.type_additions.push((digest, object)),
                        ..delta
                    }),
                }
            },
            PrimitiveEdit::InsertDependency { record } => if authority.dependencies.dom().contains(record.package) {
                Err(semantic("change_dependency_present"@))
            } else {
                let change = ExactEdit { before: None, after: Some((dependency_digest(record), record)) };
                Ok(CanonicalDeltaView { dependencies: delta.dependencies.push((record.package, change)), ..delta })
            },
            PrimitiveEdit::ReplaceDependency { expected, record } => match entry(authority.dependencies, record.package) {
                None => Err(semantic("change_dependency_missing"@)),
                Some(present) => if dependency_digest(present) != expected {
                    Err(semantic("change_exact_precondition"@))
                } else if dependency_digest(record) == expected {
                    Ok(delta)
                } else {
                    let change = ExactEdit { before: Some(expected), after: Some((dependency_digest(record), record)) };
                    Ok(CanonicalDeltaView { dependencies: delta.dependencies.push((record.package, change)), ..delta })
                },
            },
            PrimitiveEdit::DeleteDependency { package, expected } => match entry(authority.dependencies, package) {
                None => Err(semantic("change_dependency_missing"@)),
                Some(present) => if dependency_digest(present) != expected {
                    Err(semantic("change_exact_precondition"@))
                } else {
                    let change = ExactEdit { before: Some(expected), after: None };
                    Ok(CanonicalDeltaView { dependencies: delta.dependencies.push((package, change)), ..delta })
                },
            },
            PrimitiveEdit::InsertRetirement { record } => if authority.retirements.dom().contains(record.owner) {
                Err(semantic("change_retirement_present"@))
            } else {
                let change = ExactEdit { before: None, after: Some((retirement_digest(record), record)) };
                Ok(CanonicalDeltaView { retirements: delta.retirements.push((record.owner, change)), ..delta })
            },
            PrimitiveEdit::ReplaceRetirement { expected, record } => match entry(authority.retirements, record.owner) {
                None => Err(semantic("change_retirement_missing"@)),
                Some(present) => if retirement_digest(present) != expected {
                    Err(semantic("change_exact_precondition"@))
                } else if retirement_digest(record) == expected {
                    Ok(delta)
                } else {
                    let change = ExactEdit { before: Some(expected), after: Some((retirement_digest(record), record)) };
                    Ok(CanonicalDeltaView { retirements: delta.retirements.push((record.owner, change)), ..delta })
                },
            },
            PrimitiveEdit::DeleteRetirement { owner, expected } => match entry(authority.retirements, owner) {
                None => Err(semantic("change_retirement_missing"@)),
                Some(present) => if retirement_digest(present) != expected {
                    Err(semantic("change_exact_precondition"@))
                } else {
                    let change = ExactEdit { before: Some(expected), after: None };
                    Ok(CanonicalDeltaView { retirements: delta.retirements.push((owner, change)), ..delta })
                },
            },
        }
    }
}

/// The delta of a sequence of edits applied in order, or the first refusal.
pub open spec fn normalized_edits(authority: CanonicalAuthority, edits: Seq<PrimitiveEdit>) -> Result<CanonicalDeltaView, Refusal>
    decreases edits.len(),
{
    if edits.len() == 0 {
        Ok(CanonicalDeltaView::empty())
    } else {
        match normalized_edits(authority, edits.drop_last()) {
            Ok(delta) => apply_edit(authority, delta, edits.drop_last(), edits.last()),
            Err(refusal) => Err(refusal),
        }
    }
}

/// Whether `owner` is live in the candidate authority.
pub open spec fn live_after(authority: CanonicalAuthority, delta: CanonicalDeltaView, owner: OwnerKey) -> bool {
    match bound_in(delta.owners, owner) {
        Some(edit) => edit.after is Some,
        None => authority.owners.dom().contains(owner),
    }
}

/// Whether `owner` is retired in the candidate authority.
pub open spec fn retired_after(authority: CanonicalAuthority, delta: CanonicalDeltaView, owner: OwnerKey) -> bool {
    match bound_in(delta.retirements, owner) {
        Some(edit) => edit.after is Some,
        None => authority.retirements.dom().contains(owner),
    }
}

pub open spec fn live_and_retired(authority: CanonicalAuthority, delta: CanonicalDeltaView, owner: OwnerKey) -> bool {
    live_after(authority, delta, owner) && retired_after(authority, delta, owner)
}

/// Whether some owner the delta touches would be both live and retired.
pub open spec fn has_live_retired_overlap(authority: CanonicalAuthority, delta: CanonicalDeltaView) -> bool {
    ||| exists|i: int| 0 <= i < delta.owners.len() && live_and_retired(authority, delta, #[trigger] delta.owners[i].0)
    ||| exists|i: int| 0 <= i < delta.retirements.len() && live_and_retired(authority, delta, #[trigger] delta.retirements[i].0)
}

/// `delta` with each of its maps in increasing key order.
pub open spec fn in_canonical_order(delta: CanonicalDeltaView) -> CanonicalDeltaView {
    CanonicalDeltaView {
        owners: in_entry_order(delta.owners),
        type_additions: in_entry_order(delta.type_additions),
        dependencies: in_entry_order(delta.dependencies),
        retirements: in_entry_order(delta.retirements),
    }
}

/// The exact delta a request normalizes to over `authority`, or its refusal.
pub open spec fn normalized(authority: CanonicalAuthority, edits: Seq<PrimitiveEdit>) -> Result<CanonicalDeltaView, Refusal> {
    match normalized_edits(authority, edits) {
        Ok(delta) => if has_live_retired_overlap(authority, delta) {
            Err(semantic("change_live_retired_overlap"@))
        } else {
            Ok(in_canonical_order(delta))
        },
        Err(refusal) => Err(refusal),
    }
}

/// Whether a diagnostic is the given refusal.
pub open spec fn answers(d: Diagnostic, refusal: Refusal) -> bool {
    d.class == refusal.0 && d.code@ == refusal.1
}

/// Base values read so far, each as the base answered it, and the work of those reads.
pub(crate) struct NormalizationBase {
    pub(crate) owners: Vec<(OwnerKey, Option<OwnerRecord>)>,
    pub(crate) types: Vec<(TypeObjectDigest, Option<TypeObject>)>,
    pub(crate) interfaces: Vec<(PackageRevisionDigest, OwnerKey, Option<PackageInterfaceRecord>)>,
    pub(crate) dependencies: Vec<(PackageId, Option<DependencyRecord>)>,
    pub(crate) retirements: Vec<(OwnerKey, Option<RetirementRecord>)>,
    pub(crate) work: CanonicalReadWork,
}

impl NormalizationBase {
    /// Every cached answer is what `authority` holds.
    pub(crate) open spec fn agrees_with(&self, authority: CanonicalAuthority) -> bool {
        &&& forall|i: int| 0 <= i < self.owners@.len()
            ==> #[trigger] self.owners@[i].1 == entry(authority.owners, self.owners@[i].0)
        &&& forall|i: int| 0 <= i < self.types@.len()
            ==> #[trigger] self.types@[i].1 == entry(authority.types, self.types@[i].0)
        &&& forall|i: int| 0 <= i < self.interfaces@.len()
            ==> #[trigger] self.interfaces@[i].2 == entry(authority.interfaces, (self.interfaces@[i].0, self.interfaces@[i].1))
        &&& forall|i: int| 0 <= i < self.dependencies@.len()
            ==> #[trigger] self.dependencies@[i].1 == entry(authority.dependencies, self.dependencies@[i].0)
        &&& forall|i: int| 0 <= i < self.retirements@.len()
            ==> #[trigger] self.retirements@[i].1 == entry(authority.retirements, self.retirements@[i].0)
    }

    /// Whether an answer for the owner under `owner` is kept.
    pub(crate) open spec fn caches_owner(&self, owner: OwnerKey) -> bool {
        exists|i: int| 0 <= i < self.owners@.len() && #[trigger] self.owners@[i].0 == owner
    }

    pub(crate) fn new() -> (r: Self)
        ensures
            forall|authority: CanonicalAuthority| r.agrees_with(authority),
            r.work == CanonicalReadWork::zero(),
            r.owners@.len() == 0,
            r.types@.len() == 0,
            r.interfaces@.len() == 0,
            r.dependencies@.len() == 0,
            r.retirements@.len() == 0,
    {
        NormalizationBase {
            owners: Vec::new(),
            types: Vec::new(),
            interfaces: Vec::new(),
            dependencies: Vec::new(),
            retirements: Vec::new(),
            work: CanonicalReadWork::default(),
        }
    }

    pub(crate) fn owner<R: CanonicalBaseRead>(&mut self, base: &mut R, owner: OwnerKey) -> (r: Result<Option<OwnerRecord>, Diagnostic>)
        requires
            old(self).agrees_with(old(base).authority()),
        ensures
            final(base).authority() == old(base).authority(),
            final(base).reads_are_total() == old(base).reads_are_total(),
            final(self).agrees_with(old(base).authority()),
            r matches Ok(value) ==> value == entry(old(base).authority().owners, owner),
            old(base).reads_are_total() ==> r is Ok,
            old(self).caches_owner(owner) ==> r is Ok && *final(self) == *old(self) && *final(base) == *old(base),
            r is Ok ==> final(self).caches_owner(owner),
            r is Ok && !old(self).caches_owner(owner) ==> final(self).work == old(self).work.sum(old(base).owner_read_work(owner)),
            r is Err ==> *final(self) == *old(self),
            r matches Err(d) ==> old(base).read_refusal(d),
            forall|e: Diagnostic| #[trigger] final(base).read_refusal(e) == old(base).read_refusal(e),
    {
        let mut i: usize = 0;
        while i < self.owners.len()
            invariant
                i <= self.owners@.len(),
                *self == *old(self),
                *base == *old(base),
                old(self).agrees_with(old(base).authority()),
                forall|j: int| 0 <= j < i ==> self.owners@[j].0 != owner,
            decreases self.owners@.len() - i,
        {
            if self.owners[i].0 == owner {
                return Ok(self.owners[i].1);
            }
            i = i + 1;
        }
        let read = base.read_owner(owner)?;
        self.work.add(read.work);
        self.owners.push((owner, read.value));
        assert(self.owners@[self.owners@.len() - 1].0 == owner);
        assert(self.work == old(self).work.sum(read.work));
        Ok(read.value)
    }

    pub(crate) fn type_object<R: CanonicalBaseRead>(&mut self, base: &mut R, digest: TypeObjectDigest) -> (r: Result<Option<TypeObject>, Diagnostic>)
        requires
            old(self).agrees_with(old(base).authority()),
        ensures
            final(base).authority() == old(base).authority(),
            final(base).reads_are_total() == old(base).reads_are_total(),
            final(self).agrees_with(old(base).authority()),
            r matches Ok(value) ==> value == entry(old(base).authority().types, digest),
            old(base).reads_are_total() ==> r is Ok,
            r matches Err(d) ==> old(base).read_refusal(d),
            forall|e: Diagnostic| #[trigger] final(base).read_refusal(e) == old(base).read_refusal(e),
    {
        let mut i: usize = 0;
        while i < self.types.len()
            invariant
                i <= self.types@.len(),
                *self == *old(self),
                *base == *old(base),
                old(self).agrees_with(old(base).authority()),
            decreases self.types@.len() - i,
        {
            if self.types[i].0 == digest {
                return Ok(self.types[i].1);
            }
            i = i + 1;
        }
        let read = base.read_type_object(digest)?;
        self.work.add(read.work);
        self.types.push((digest, read.value));
        Ok(read.value)
    }

    pub(crate) fn dependency<R: CanonicalBaseRead>(&mut self, base: &mut R, package: PackageId) -> (r: Result<Option<DependencyRecord>, Diagnostic>)
        requires
            old(self).agrees_with(old(base).authority()),
        ensures
            final(base).authority() == old(base).authority(),
            final(base).reads_are_total() == old(base).reads_are_total(),
            final(self).agrees_with(old(base).authority()),
            r matches Ok(value) ==> value == entry(old(base).authority().dependencies, package),
            old(base).reads_are_total() ==> r is Ok,
            r matches Err(d) ==> old(base).read_refusal(d),
            forall|e: Diagnostic| #[trigger] final(base).read_refusal(e) == old(base).read_refusal(e),
    {
        let mut i: usize = 0;
        while i < self.dependencies.len()
            invariant
                i <= self.dependencies@.len(),
                *self == *old(self),
                *base == *old(base),
                old(self).agrees_with(old(base).authority()),
            decreases self.dependencies@.len() - i,
        {
            if self.dependencies[i].0 == package {
                return Ok(self.dependencies[i].1);
            }
            i = i + 1;
        }
        let read = base.read_dependency(package)?;
        self.work.add(read.work);
        self.dependencies.push((package, read.value));
        Ok(read.value)
    }

    pub(crate) fn retirement<R: CanonicalBaseRead>(&mut self, base: &mut R, owner: OwnerKey) -> (r: Result<Option<RetirementRecord>, Diagnostic>)
        requires
            old(self).agrees_with(old(base).authority()),
        ensures
            final(base).authority() == old(base).authority(),
            final(base).reads_are_total() == old(base).reads_are_total(),
            final(self).agrees_with(old(base).authority()),
            r matches Ok(value) ==> value == entry(old(base).authority().retirements, owner),
            old(base).reads_are_total() ==> r is Ok,
            r matches Err(d) ==> old(base).read_refusal(d),
            forall|e: Diagnostic| #[trigger] final(base).read_refusal(e) == old(base).read_refusal(e),
    {
        let mut i: usize = 0;
        while i < self.retirements.len()
            invariant
                i <= self.retirements@.len(),
                *self == *old(self),
                *base == *old(base),
                old(self).agrees_with(old(base).authority()),
            decreases self.retirements@.len() - i,
        {
            if self.retirements[i].0 == owner {
                return Ok(self.retirements[i].1);
            }
            i = i + 1;
        }
        let read = base.read_retirement(owner)?;
        self.work.add(read.work);
        self.retirements.push((owner, read.value));
        Ok(read.value)
    }

    pub(crate) fn interface<R: CanonicalBaseRead>(&mut self, base: &mut R, dependency: &DependencyRecord, owner: OwnerKey) -> (r: Result<Option<PackageInterfaceRecord>, Diagnostic>)
        requires
            old(self).agrees_with(old(base).authority()),
        ensures
            final(base).authority() == old(base).authority(),
            final(base).reads_are_total() == old(base).reads_are_total(),
            final(self).agrees_with(old(base).authority()),
            r matches Ok(value) ==> value == entry(old(base).authority().interfaces, (dependency.package_revision, owner)),
            old(base).reads_are_total() ==> r is Ok,
            r matches Err(d) ==> old(base).read_refusal(d),
            forall|e: Diagnostic| #[trigger] final(base).read_refusal(e) == old(base).read_refusal(e),
    {
        let mut i: usize = 0;
        while i < self.interfaces.len()
            invariant
                i <= self.interfaces@.len(),
                *self == *old(self),
                *base == *old(base),
                old(self).agrees_with(old(base).authority()),
            decreases self.interfaces@.len() - i,
        {
            if self.interfaces[i].0 == dependency.package_revision && self.interfaces[i].1 == owner {
                return Ok(self.interfaces[i].2);
            }
            i = i + 1;
        }
        let read = base.read_package_interface_owner(dependency, owner)?;
        self.work.add(read.work);
        self.interfaces.push((dependency.package_revision, owner, read.value));
        Ok(read.value)
    }
}


/// The owner edit the delta binds to `owner`, if any.
pub fn owner_edit_of(entries: &Vec<(OwnerKey, OwnerEdit)>, owner: OwnerKey) -> (r: Option<OwnerEdit>)
    ensures
        r == bound_in(entries@, owner),
{
    let mut i: usize = 0;
    assert(entries@.subrange(0, entries@.len() as int) =~= entries@);
    while i < entries.len()
        invariant
            0 <= i <= entries@.len(),
            bound_in(entries@, owner) == bound_in(entries@.subrange(i as int, entries@.len() as int), owner),
        decreases entries@.len() - i,
    {
        assert(entries@.subrange(i as int, entries@.len() as int).drop_first() =~= entries@.subrange(i + 1, entries@.len() as int));
        if entries[i].0 == owner {
            return Some(entries[i].1);
        }
        i = i + 1;
    }
    None
}

/// The added type object the delta binds to `digest`, if any.
pub fn type_addition_of(entries: &Vec<(TypeObjectDigest, TypeObject)>, digest: TypeObjectDigest) -> (r: Option<TypeObject>)
    ensures
        r == bound_in(entries@, digest),
{
    let mut i: usize = 0;
    assert(entries@.subrange(0, entries@.len() as int) =~= entries@);
    while i < entries.len()
        invariant
            0 <= i <= entries@.len(),
            bound_in(entries@, digest) == bound_in(entries@.subrange(i as int, entries@.len() as int), digest),
        decreases entries@.len() - i,
    {
        assert(entries@.subrange(i as int, entries@.len() as int).drop_first() =~= entries@.subrange(i + 1, entries@.len() as int));
        if entries[i].0 == digest {
            return Some(entries[i].1);
        }
        i = i + 1;
    }
    None
}

/// The dependency edit the delta binds to `package`, if any.
pub fn dependency_edit_of(entries: &Vec<(PackageId, DependencyEdit)>, package: PackageId) -> (r: Option<DependencyEdit>)
    ensures
        r == bound_in(entries@, package),
{
    let mut i: usize = 0;
    assert(entries@.subrange(0, entries@.len() as int) =~= entries@);
    while i < entries.len()
        invariant
            0 <= i <= entries@.len(),
            bound_in(entries@, package) == bound_in(entries@.subrange(i as int, entries@.len() as int), package),
        decreases entries@.len() - i,
    {
        assert(entries@.subrange(i as int, entries@.len() as int).drop_first() =~= entries@.subrange(i + 1, entries@.len() as int));
        if entries[i].0 == package {
            return Some(entries[i].1);
        }
        i = i + 1;
    }
    None
}

/// The retirement edit the delta binds to `owner`, if any.
pub fn retirement_edit_of(entries: &Vec<(OwnerKey, RetirementEdit)>, owner: OwnerKey) -> (r: Option<RetirementEdit>)
    ensures
        r == bound_in(entries@, owner),
{
    let mut i: usize = 0;
    assert(entries@.subrange(0, entries@.len() as int) =~= entries@);
    while i < entries.len()
        invariant
            0 <= i <= entries@.len(),
            bound_in(entries@, owner) == bound_in(entries@.subrange(i as int, entries@.len() as int), owner),
        decreases entries@.len() - i,
    {
        assert(entries@.subrange(i as int, entries@.len() as int).drop_first() =~= entries@.subrange(i + 1, entries@.len() as int));
        if entries[i].0 == owner {
            return Some(entries[i].1);
        }
        i = i + 1;
    }
    None
}

/// Whether `slot` is among the addressed keys.
fn contains_slot(seen: &Vec<EditSlot>, slot: EditSlot) -> (r: bool)
    ensures
        r == seen@.contains(slot),
{
    let mut i: usize = 0;
    while i < seen.len()
        invariant
            i <= seen@.len(),
            forall|j: int| 0 <= j < i ==> seen@[j] != slot,
        decreases seen@.len() - i,
    {
        if seen[i] == slot {
            return true;
        }
        i = i + 1;
    }
    false
}

/// A refusal of the request as written.
fn change_error(code: &str, message: &str) -> (r: Diagnostic)
    ensures
        r.class == DiagnosticClass::Semantic,
        r.code@ == code@,
{
    Diagnostic::new(DiagnosticClass::Semantic, code, static_message(message))
}

/// Applies one primitive edit to `delta`, reading the base through `cache`.
fn apply_primitive<R: CanonicalBaseRead>(
    base: &mut R,
    cache: &mut NormalizationBase,
    delta: &mut CanonicalDelta,
    seen: &mut Vec<EditSlot>,
    edit: PrimitiveEdit,
    Ghost(prior): Ghost<Seq<PrimitiveEdit>>,
) -> (r: Result<(), Diagnostic>)
    requires
        old(cache).agrees_with(old(base).authority()),
        old(seen)@ == slots(prior),
    ensures
        final(base).authority() == old(base).authority(),
        final(base).reads_are_total() == old(base).reads_are_total(),
        final(cache).agrees_with(old(base).authority()),
        r is Ok ==> final(seen)@ == slots(prior.push(edit))
            && apply_edit(old(base).authority(), old(delta)@, prior, edit)
                == Ok::<CanonicalDeltaView, Refusal>(final(delta)@),
        r matches Err(d) ==> !old(base).reads_are_total()
            || (apply_edit(old(base).authority(), old(delta)@, prior, edit) matches Err(f) && answers(d, f)),
        r matches Err(d) ==> old(base).read_refusal(d)
            || (apply_edit(old(base).authority(), old(delta)@, prior, edit) matches Err(f) && answers(d, f)),
            forall|e: Diagnostic| #[trigger] final(base).read_refusal(e) == old(base).read_refusal(e),
        old(base).reads_are_total() && apply_edit(old(base).authority(), old(delta)@, prior, edit) is Ok ==> r is Ok,
        slots(prior).contains(edit.spec_slot()) ==> (r matches Err(d)
            && d.class == DiagnosticClass::Semantic && d.code@ == "change_duplicate_primitive"@),
{
    let ghost authority = base.authority();
    let slot = edit.slot();
    if contains_slot(seen, slot) {
        return Err(change_error(
            "change_duplicate_primitive",
            "normalized request contains more than one primitive edit for one key",
        ));
    }
    seen.push(slot);
    assert(slots(prior.push(edit)) =~= slots(prior).push(edit.spec_slot()));
    match edit {
        PrimitiveEdit::InsertOwner { record } => {
            let owner = record.owner;
            if cache.owner(base, owner)?.is_some() {
                return Err(change_error("change_owner_present", "owner already exists at the exact base"));
            }
            let digest = encode_owner(&record).0;
            delta.owners.push((owner, ExactEdit { before: None, after: Some((digest, record)) }));
        },
        PrimitiveEdit::ReplaceOwner { expected, record } => {
            let owner = record.owner;
            let before = match cache.owner(base, owner)? {
                Some(present) => encode_owner(&present).0,
                None => return Err(change_error("change_owner_missing", "owner is absent at the exact base")),
            };
            if before != expected {
                return Err(change_error("change_exact_precondition", "owner digest precondition failed"));
            }
            let after = encode_owner(&record).0;
            if after != before {
                delta.owners.push((owner, ExactEdit { before: Some(before), after: Some((after, record)) }));
            }
        },
        PrimitiveEdit::DeleteOwner { owner, expected } => {
            let before = match cache.owner(base, owner)? {
                Some(present) => encode_owner(&present).0,
                None => return Err(change_error("change_owner_missing", "owner is absent at the exact base")),
            };
            if before != expected {
                return Err(change_error("change_exact_precondition", "owner digest precondition failed"));
            }
            delta.owners.push((owner, ExactEdit { before: Some(before), after: None }));
        },
        PrimitiveEdit::AddTypeObject { digest, object } => {
            let actual = encode_type_object(&object).0;
            if actual != digest {
                return Err(change_error("change_exact_precondition", "type object digest precondition failed"));
            }
            match cache.type_object(base, digest)? {
                Some(existing) => {
                    if existing != object {
                        return Err(Diagnostic::new(
                            DiagnosticClass::Corrupt,
                            "change_type_collision",
                            static_message("one type digest is bound to different canonical values"),
                        ));
                    }
                },
                None => {
                    delta.type_additions.push((digest, object));
                },
            }
        },
        PrimitiveEdit::InsertDependency { record } => {
            let package = record.package;
            if cache.dependency(base, package)?.is_some() {
                return Err(change_error("change_dependency_present", "dependency already exists at the exact base"));
            }
            let digest = encode_dependency(&record).0;
            delta.dependencies.push((package, ExactEdit { before: None, after: Some((digest, record)) }));
        },
        PrimitiveEdit::ReplaceDependency { expected, record } => {
            let package = record.package;
            let before = match cache.dependency(base, package)? {
                Some(present) => encode_dependency(&present).0,
                None => return Err(change_error("change_dependency_missing", "dependency is absent at the exact base")),
            };
            if before != expected {
                return Err(change_error("change_exact_precondition", "dependency digest precondition failed"));
            }
            let after = encode_dependency(&record).0;
            if after != before {
                delta.dependencies.push((package, ExactEdit { before: Some(before), after: Some((after, record)) }));
            }
        },
        PrimitiveEdit::DeleteDependency { package, expected } => {
            let before = match cache.dependency(base, package)? {
                Some(present) => encode_dependency(&present).0,
                None => return Err(change_error("change_dependency_missing", "dependency is absent at the exact base")),
            };
            if before != expected {
                return Err(change_error("change_exact_precondition", "dependency digest precondition failed"));
            }
            delta.dependencies.push((package, ExactEdit { before: Some(before), after: None }));
        },
        PrimitiveEdit::InsertRetirement { record } => {
            let owner = record.owner;
            if cache.retirement(base, owner)?.is_some() {
                return Err(change_error("change_retirement_present", "retirement already exists at the exact base"));
            }
            let digest = encode_retirement(&record).0;
            delta.retirements.push((owner, ExactEdit { before: None, after: Some((digest, record)) }));
        },
        PrimitiveEdit::ReplaceRetirement { expected, record } => {
            let owner = record.owner;
            let before = match cache.retirement(base, owner)? {
                Some(present) => encode_retirement(&present).0,
                None => return Err(change_error("change_retirement_missing", "retirement is absent at the exact base")),
            };
            if before != expected {
                return Err(change_error("change_exact_precondition", "retirement digest precondition failed"));
            }
            let after = encode_retirement(&record).0;
            if after != before {
                delta.retirements.push((owner, ExactEdit { before: Some(before), after: Some((after, record)) }));
            }
        },
        PrimitiveEdit::DeleteRetirement { owner, expected } => {
            let before = match cache.retirement(base, owner)? {
                Some(present) => encode_retirement(&present).0,
                None => return Err(change_error("change_retirement_missing", "retirement is absent at the exact base")),
            };
            if before != expected {
                return Err(change_error("change_exact_precondition", "retirement digest precondition failed"));
            }
            delta.retirements.push((owner, ExactEdit { before: Some(before), after: None }));
        },
    }
    assert(apply_edit(authority, old(delta)@, prior, edit) == Ok::<CanonicalDeltaView, Refusal>(delta@));
    Ok(())
}

/// Whether `owner` is live in the candidate authority, reading the base only when the delta
/// does not decide it.
fn candidate_live<R: CanonicalBaseRead>(base: &mut R, cache: &mut NormalizationBase, delta: &CanonicalDelta, owner: OwnerKey) -> (r: Result<bool, Diagnostic>)
    requires
        old(cache).agrees_with(old(base).authority()),
    ensures
        final(base).authority() == old(base).authority(),
        final(base).reads_are_total() == old(base).reads_are_total(),
        final(cache).agrees_with(old(base).authority()),
        r matches Ok(live) ==> live == live_after(old(base).authority(), delta@, owner),
        old(base).reads_are_total() ==> r is Ok,
        r matches Err(d) ==> old(base).read_refusal(d),
        forall|e: Diagnostic| #[trigger] final(base).read_refusal(e) == old(base).read_refusal(e),
{
    match owner_edit_of(&delta.owners, owner) {
        Some(edit) => Ok(edit.after.is_some()),
        None => Ok(cache.owner(base, owner)?.is_some()),
    }
}

/// Whether `owner` is retired in the candidate authority, reading the base only when the delta
/// does not decide it.
fn candidate_retired<R: CanonicalBaseRead>(base: &mut R, cache: &mut NormalizationBase, delta: &CanonicalDelta, owner: OwnerKey) -> (r: Result<bool, Diagnostic>)
    requires
        old(cache).agrees_with(old(base).authority()),
    ensures
        final(base).authority() == old(base).authority(),
        final(base).reads_are_total() == old(base).reads_are_total(),
        final(cache).agrees_with(old(base).authority()),
        r matches Ok(retired) ==> retired == retired_after(old(base).authority(), delta@, owner),
        old(base).reads_are_total() ==> r is Ok,
        r matches Err(d) ==> old(base).read_refusal(d),
        forall|e: Diagnostic| #[trigger] final(base).read_refusal(e) == old(base).read_refusal(e),
{
    match retirement_edit_of(&delta.retirements, owner) {
        Some(edit) => Ok(edit.after.is_some()),
        None => Ok(cache.retirement(base, owner)?.is_some()),
    }
}

/// Refuses a delta that would leave one owner both live and retired.
fn validate_live_retired_exclusion<R: CanonicalBaseRead>(
    base: &mut R,
    cache: &mut NormalizationBase,
    delta: &CanonicalDelta,
) -> (r: Result<(), Diagnostic>)
    requires
        old(cache).agrees_with(old(base).authority()),
    ensures
        final(base).authority() == old(base).authority(),
        final(base).reads_are_total() == old(base).reads_are_total(),
        final(cache).agrees_with(old(base).authority()),
        r is Ok ==> !has_live_retired_overlap(old(base).authority(), delta@),
        r matches Err(d) ==> !old(base).reads_are_total()
            || (has_live_retired_overlap(old(base).authority(), delta@)
                && answers(d, semantic("change_live_retired_overlap"@))),
        r matches Err(d) ==> old(base).read_refusal(d)
            || (has_live_retired_overlap(old(base).authority(), delta@)
                && answers(d, semantic("change_live_retired_overlap"@))),
            forall|e: Diagnostic| #[trigger] final(base).read_refusal(e) == old(base).read_refusal(e),
        old(base).reads_are_total() && !has_live_retired_overlap(old(base).authority(), delta@) ==> r is Ok,
{
    let ghost authority = base.authority();
    let ghost total = base.reads_are_total();
    let mut i: usize = 0;
    while i < delta.owners.len()
        invariant
            forall|e: Diagnostic| #[trigger] base.read_refusal(e) == old(base).read_refusal(e),
            i <= delta.owners@.len(),
            authority == old(base).authority(),
            total == old(base).reads_are_total(),
            base.authority() == authority,
            base.reads_are_total() == total,
            cache.agrees_with(authority),
            forall|j: int| 0 <= j < i ==> !live_and_retired(authority, delta@, #[trigger] delta.owners@[j].0),
        decreases delta.owners@.len() - i,
    {
        let owner = delta.owners[i].0;
        let live = candidate_live(base, cache, delta, owner)?;
        let retired = candidate_retired(base, cache, delta, owner)?;
        if live && retired {
            return Err(change_error("change_live_retired_overlap", "an owner would be both live and retired"));
        }
        i = i + 1;
    }
    let mut k: usize = 0;
    while k < delta.retirements.len()
        invariant
            forall|e: Diagnostic| #[trigger] base.read_refusal(e) == old(base).read_refusal(e),
            k <= delta.retirements@.len(),
            authority == old(base).authority(),
            total == old(base).reads_are_total(),
            base.authority() == authority,
            base.reads_are_total() == total,
            cache.agrees_with(authority),
            forall|j: int| 0 <= j < delta.owners@.len() ==> !live_and_retired(authority, delta@, #[trigger] delta.owners@[j].0),
            forall|j: int| 0 <= j < k ==> !live_and_retired(authority, delta@, #[trigger] delta.retirements@[j].0),
        decreases delta.retirements@.len() - k,
    {
        let owner = delta.retirements[k].0;
        let live = candidate_live(base, cache, delta, owner)?;
        let retired = candidate_retired(base, cache, delta, owner)?;
        if live && retired {
            return Err(change_error("change_live_retired_overlap", "an owner would be both live and retired"));
        }
        k = k + 1;
    }
    Ok(())
}

/// A refusal of a prefix of the request is the refusal of the whole request.
proof fn lemma_refusal_persists(authority: CanonicalAuthority, edits: Seq<PrimitiveEdit>, k: int)
    requires
        0 <= k <= edits.len(),
        normalized_edits(authority, edits.take(k)) is Err,
    ensures
        normalized_edits(authority, edits) == normalized_edits(authority, edits.take(k)),
    decreases edits.len(),
{
    if k == edits.len() {
        assert(edits.take(k) =~= edits);
    } else {
        assert(edits.drop_last().take(k) =~= edits.take(k));
        lemma_refusal_persists(authority, edits.drop_last(), k);
    }
}

/// Whether `r` is what normalizing `edits` against `authority` gives: the exact delta, or a
/// diagnostic answering the refusal.
pub open spec fn normalizes_to(authority: CanonicalAuthority, edits: Seq<PrimitiveEdit>, r: Result<CanonicalDeltaView, Diagnostic>) -> bool {
    match normalized(authority, edits) {
        Ok(delta) => r matches Ok(d) && d == delta && delta.wf(),
        Err(refusal) => r matches Err(d) && answers(d, refusal),
    }
}

/// The delta of a normalization result, taken by its view.
pub open spec fn delta_of(r: Result<CanonicalDelta, Diagnostic>) -> Result<CanonicalDeltaView, Diagnostic> {
    match r {
        Ok(delta) => Ok(delta@),
        Err(d) => Err(d),
    }
}

/// The delta of a normalization through a base read, taken by its view.
pub open spec fn normalization_delta(r: Result<CanonicalNormalization, Diagnostic>) -> Result<CanonicalDeltaView, Diagnostic> {
    match r {
        Ok(n) => Ok(n.canonical@),
        Err(d) => Err(d),
    }
}

/// Normalizing against an in-memory snapshot answers as normalizing against the same authority
/// through a base read whose reads all succeed: the same delta, or refusals of the same class
/// and code.
pub proof fn lemma_normalize_matches_normalize_from(
    authority: CanonicalAuthority,
    edits: Seq<PrimitiveEdit>,
    snapshot: Result<CanonicalDeltaView, Diagnostic>,
    through_read: Result<CanonicalDeltaView, Diagnostic>,
)
    requires
        normalizes_to(authority, edits, snapshot),
        normalizes_to(authority, edits, through_read),
    ensures
        snapshot is Ok <==> through_read is Ok,
        snapshot matches Ok(a) ==> through_read == Ok::<CanonicalDeltaView, Diagnostic>(a),
        snapshot matches Err(a) ==> through_read matches Err(b) && a.class == b.class && a.code@ == b.code@,
{
}

impl CanonicalDelta {
    /// Normalizes `edits` against an in-memory snapshot.
    pub fn normalize(base: &KernelSnapshot, edits: Vec<PrimitiveEdit>) -> (r: Result<Self, Diagnostic>)
        ensures
            match normalized(base.authority(), edits@) {
                Ok(delta) => r matches Ok(d) && d@ == delta && delta.wf(),
                Err(refusal) => r matches Err(d) && answers(d, refusal),
            },
            normalizes_to(base.authority(), edits@, delta_of(r)),
            r matches Ok(d) ==> d@.ordered(),
    {
        let mut reader = base.duplicate();
        proof {
            assert(reader.authority().owners =~= base.authority().owners);
            assert(reader.authority().types =~= base.authority().types);
            assert(reader.authority().interfaces =~= base.authority().interfaces);
            assert(reader.authority().dependencies =~= base.authority().dependencies);
            assert(reader.authority().retirements =~= base.authority().retirements);
            assert(reader.authority() == base.authority());
        }
        let normalization = Self::normalize_from(&mut reader, edits)?;
        proof {
            lemma_normalized_edits_wf(base.authority(), edits@);
        }
        Ok(normalization.canonical)
    }

    /// Normalizes `edits` against one exact base: each key is edited at most once, every
    /// expected digest matches the base, and no owner ends both live and retired.
    pub fn normalize_from<R: CanonicalBaseRead>(base: &mut R, edits: Vec<PrimitiveEdit>) -> (r: Result<CanonicalNormalization, Diagnostic>)
        ensures
            final(base).authority() == old(base).authority(),
            r matches Ok(n) ==> normalized(old(base).authority(), edits@)
                    == Ok::<CanonicalDeltaView, Refusal>(n.canonical@)
                && n.canonical@.wf()
                && n.base_revision == old(base).authority().revision,
            r matches Err(d) ==> !old(base).reads_are_total()
                || (normalized(old(base).authority(), edits@) matches Err(f) && answers(d, f)),
            r matches Err(d) ==> old(base).read_refusal(d)
                || (normalized(old(base).authority(), edits@) matches Err(f) && answers(d, f)),
            r matches Err(d) ==> (normalized(old(base).authority(), edits@) matches Err(f) && answers(d, f))
                || normalized_edits(old(base).authority(), edits@) is Ok
                || exists|i: int| 0 <= i < edits@.len() && normalized_edits(old(base).authority(), edits@.take(i)) is Ok
                    && !slots(edits@.take(i)).contains(#[trigger] edits@[i].spec_slot()),
            old(base).reads_are_total() && normalized(old(base).authority(), edits@) is Ok ==> r is Ok,
            old(base).reads_are_total() ==> normalizes_to(old(base).authority(), edits@, normalization_delta(r)),
            r matches Ok(n) ==> n.canonical@.ordered(),
    {
        let ghost authority = base.authority();
        let ghost total = base.reads_are_total();
        let base_revision = base.exact_revision();
        let mut cache = NormalizationBase::new();
        let mut delta = CanonicalDelta::default();
        let mut seen: Vec<EditSlot> = Vec::new();
        let mut i: usize = 0;
        proof {
            assert(edits@.take(0) =~= Seq::<PrimitiveEdit>::empty());
            assert(seen@ =~= slots(edits@.take(0)));
        }
        while i < edits.len()
            invariant
                forall|e: Diagnostic| #[trigger] base.read_refusal(e) == old(base).read_refusal(e),
                i <= edits@.len(),
                authority == old(base).authority(),
                total == old(base).reads_are_total(),
                base.authority() == authority,
                base.reads_are_total() == total,
                cache.agrees_with(authority),
                seen@ == slots(edits@.take(i as int)),
                normalized_edits(authority, edits@.take(i as int)) == Ok::<CanonicalDeltaView, Refusal>(delta@),
            decreases edits@.len() - i,
        {
            let edit = edits[i];
            let ghost prior = edits@.take(i as int);
            proof {
                assert(edits@.take(i + 1).drop_last() =~= prior);
                assert(edits@.take(i + 1) =~= prior.push(edit));
            }
            match apply_primitive(base, &mut cache, &mut delta, &mut seen, edit, Ghost(prior)) {
                Ok(()) => {},
                Err(d) => {
                    proof {
                        if apply_edit(authority, delta@, prior, edit) is Err {
                            lemma_refusal_persists(authority, edits@, i + 1);
                        }
                        if slots(prior).contains(edit.spec_slot()) {
                            assert(apply_edit(authority, delta@, prior, edit) == Err::<CanonicalDeltaView, Refusal>(semantic("change_duplicate_primitive"@)));
                        } else {
                            assert(edits@[i as int] == edit);
                            assert(normalized_edits(authority, edits@.take(i as int)) is Ok);
                        }
                    }
                    return Err(d);
                },
            }
            i = i + 1;
        }
        proof {
            assert(edits@.take(edits@.len() as int) =~= edits@);
        }
        validate_live_retired_exclusion(base, &mut cache, &delta)?;
        proof {
            lemma_normalized_edits_wf(authority, edits@);
        }
        let canonical = CanonicalDelta {
            owners: sorted_entries(&delta.owners),
            type_additions: sorted_entries(&delta.type_additions),
            dependencies: sorted_entries(&delta.dependencies),
            retirements: sorted_entries(&delta.retirements),
        };
        proof {
            lemma_canonical_order_wf(delta@);
            assert(canonical@ == in_canonical_order(delta@));
        }
        Ok(CanonicalNormalization { canonical, base_revision, work: cache.work })
    }

    pub open spec fn spec_is_empty(&self) -> bool {
        &&& self.owners@.len() == 0
        &&& self.type_additions@.len() == 0
        &&& self.dependencies@.len() == 0
        &&& self.retirements@.len() == 0
    }

    /// Whether the delta changes nothing.
    pub fn is_empty(&self) -> (r: bool)
        ensures
            r == self.spec_is_empty(),
    {
        self.owners.len() == 0 && self.type_additions.len() == 0 && self.dependencies.len() == 0
            && self.retirements.len() == 0
    }

    /// The number of owners the delta changes.
    pub fn changed_owner_count(&self) -> (r: usize)
        ensures
            r == self.owners@.len(),
    {
        self.owners.len()
    }
}


/// The owner the candidate authority holds under `owner`: the delta's value, else the base's.
pub open spec fn candidate_owner(authority: CanonicalAuthority, delta: CanonicalDeltaView, owner: OwnerKey) -> Option<OwnerRecord> {
    match bound_in(delta.owners, owner) {
        Some(edit) => match edit.after {
            Some(after) => Some(after.1),
            None => None,
        },
        None => entry(authority.owners, owner),
    }
}

/// The type object the candidate authority holds under `digest`.
pub open spec fn candidate_type(authority: CanonicalAuthority, delta: CanonicalDeltaView, digest: TypeObjectDigest) -> Option<TypeObject> {
    match bound_in(delta.type_additions, digest) {
        Some(object) => Some(object),
        None => entry(authority.types, digest),
    }
}

/// The dependency the candidate authority holds for `package`.
pub open spec fn candidate_dependency(authority: CanonicalAuthority, delta: CanonicalDeltaView, package: PackageId) -> Option<DependencyRecord> {
    match bound_in(delta.dependencies, package) {
        Some(edit) => match edit.after {
            Some(after) => Some(after.1),
            None => None,
        },
        None => entry(authority.dependencies, package),
    }
}

/// The retirement the candidate authority holds for `owner`.
pub open spec fn candidate_retirement(authority: CanonicalAuthority, delta: CanonicalDeltaView, owner: OwnerKey) -> Option<RetirementRecord> {
    match bound_in(delta.retirements, owner) {
        Some(edit) => match edit.after {
            Some(after) => Some(after.1),
            None => None,
        },
        None => entry(authority.retirements, owner),
    }
}

/// What reading the candidate authority gives back for the key an edit addressed.
pub open spec fn edit_takes_effect(authority: CanonicalAuthority, delta: CanonicalDeltaView, edit: PrimitiveEdit) -> bool {
    match edit {
        PrimitiveEdit::InsertOwner { record } => candidate_owner(authority, delta, record.owner) == Some(record),
        PrimitiveEdit::ReplaceOwner { record, .. } => candidate_owner(authority, delta, record.owner) matches Some(now)
            && owner_digest(now) == owner_digest(record),
        PrimitiveEdit::DeleteOwner { owner, .. } => candidate_owner(authority, delta, owner) is None,
        PrimitiveEdit::AddTypeObject { digest, object } => candidate_type(authority, delta, digest) == Some(object),
        PrimitiveEdit::InsertDependency { record } => candidate_dependency(authority, delta, record.package) == Some(record),
        PrimitiveEdit::ReplaceDependency { record, .. } => candidate_dependency(authority, delta, record.package) matches Some(now)
            && dependency_digest(now) == dependency_digest(record),
        PrimitiveEdit::DeleteDependency { package, .. } => candidate_dependency(authority, delta, package) is None,
        PrimitiveEdit::InsertRetirement { record } => candidate_retirement(authority, delta, record.owner) == Some(record),
        PrimitiveEdit::ReplaceRetirement { record, .. } => candidate_retirement(authority, delta, record.owner) matches Some(now)
            && retirement_digest(now) == retirement_digest(record),
        PrimitiveEdit::DeleteRetirement { owner, .. } => candidate_retirement(authority, delta, owner) is None,
    }
}

/// Appending a binding leaves earlier bindings in front of it.
pub broadcast proof fn lemma_bound_in_push<K, V>(entries: Seq<(K, V)>, key: K, value: V, probe: K)
    ensures
        #[trigger] bound_in(entries.push((key, value)), probe) == (match bound_in(entries, probe) {
            Some(found) => Some(found),
            None => if key == probe { Some(value) } else { None },
        }),
    decreases entries.len(),
{
    let extended = entries.push((key, value));
    if entries.len() == 0 {
        assert(extended.drop_first() =~= Seq::<(K, V)>::empty());
        assert(bound_in(extended.drop_first(), probe) is None);
    } else {
        assert(extended[0] == entries[0]);
        assert(extended.drop_first() =~= entries.drop_first().push((key, value)));
        lemma_bound_in_push(entries.drop_first(), key, value, probe);
    }
}

/// A key that no entry carries is unbound.
pub proof fn lemma_bound_in_none<K, V>(entries: Seq<(K, V)>, probe: K)
    requires
        forall|j: int| 0 <= j < entries.len() ==> #[trigger] entries[j].0 != probe,
    ensures
        bound_in(entries, probe) is None,
    decreases entries.len(),
{
    if entries.len() > 0 {
        assert forall|j: int| 0 <= j < entries.drop_first().len() implies #[trigger] entries.drop_first()[j].0 != probe by {
            assert(entries.drop_first()[j] == entries[j + 1]);
        }
        lemma_bound_in_none(entries.drop_first(), probe);
    }
}

/// Every key a normalized delta carries was addressed by one of the edits.
proof fn lemma_delta_keys_addressed(authority: CanonicalAuthority, edits: Seq<PrimitiveEdit>)
    ensures
        normalized_edits(authority, edits) matches Ok(delta) ==> {
            &&& forall|j: int| 0 <= j < delta.owners.len()
                ==> slots(edits).contains(EditSlot::Owner(#[trigger] delta.owners[j].0))
            &&& forall|j: int| 0 <= j < delta.type_additions.len()
                ==> slots(edits).contains(EditSlot::TypeObject(#[trigger] delta.type_additions[j].0))
            &&& forall|j: int| 0 <= j < delta.dependencies.len()
                ==> slots(edits).contains(EditSlot::Dependency(#[trigger] delta.dependencies[j].0))
            &&& forall|j: int| 0 <= j < delta.retirements.len()
                ==> slots(edits).contains(EditSlot::Retirement(#[trigger] delta.retirements[j].0))
        },
    decreases edits.len(),
{
    if edits.len() > 0 {
        let prior = edits.drop_last();
        lemma_delta_keys_addressed(authority, prior);
        assert(slots(edits) =~= slots(prior).push(edits.last().spec_slot()));
        if let Ok(before) = normalized_edits(authority, prior) {
            if let Ok(delta) = normalized_edits(authority, edits) {
                assert forall|j: int| 0 <= j < delta.owners.len()
                    implies slots(edits).contains(EditSlot::Owner(#[trigger] delta.owners[j].0)) by {
                    if j < before.owners.len() {
                        assert(delta.owners[j] == before.owners[j]);
                        let k = choose|k: int| 0 <= k < slots(prior).len() && slots(prior)[k] == EditSlot::Owner(before.owners[j].0);
                        assert(slots(edits)[k] == slots(prior)[k]);
                    } else {
                        assert(slots(edits)[prior.len() as int] == edits.last().spec_slot());
                    }
                }
                assert forall|j: int| 0 <= j < delta.type_additions.len()
                    implies slots(edits).contains(EditSlot::TypeObject(#[trigger] delta.type_additions[j].0)) by {
                    if j < before.type_additions.len() {
                        assert(delta.type_additions[j] == before.type_additions[j]);
                        let k = choose|k: int| 0 <= k < slots(prior).len() && slots(prior)[k] == EditSlot::TypeObject(before.type_additions[j].0);
                        assert(slots(edits)[k] == slots(prior)[k]);
                    } else {
                        assert(slots(edits)[prior.len() as int] == edits.last().spec_slot());
                    }
                }
                assert forall|j: int| 0 <= j < delta.dependencies.len()
                    implies slots(edits).contains(EditSlot::Dependency(#[trigger] delta.dependencies[j].0)) by {
                    if j < before.dependencies.len() {
                        assert(delta.dependencies[j] == before.dependencies[j]);
                        let k = choose|k: int| 0 <= k < slots(prior).len() && slots(prior)[k] == EditSlot::Dependency(before.dependencies[j].0);
                        assert(slots(edits)[k] == slots(prior)[k]);
                    } else {
                        assert(slots(edits)[prior.len() as int] == edits.last().spec_slot());
                    }
                }
                assert forall|j: int| 0 <= j < delta.retirements.len()
                    implies slots(edits).contains(EditSlot::Retirement(#[trigger] delta.retirements[j].0)) by {
                    if j < before.retirements.len() {
                        assert(delta.retirements[j] == before.retirements[j]);
                        let k = choose|k: int| 0 <= k < slots(prior).len() && slots(prior)[k] == EditSlot::Retirement(before.retirements[j].0);
                        assert(slots(edits)[k] == slots(prior)[k]);
                    } else {
                        assert(slots(edits)[prior.len() as int] == edits.last().spec_slot());
                    }
                }
            }
        }
    }
}

/// A normalized delta carries at most one edit per key, each filed under its own key.
pub proof fn lemma_normalized_edits_wf(authority: CanonicalAuthority, edits: Seq<PrimitiveEdit>)
    ensures
        normalized_edits(authority, edits) matches Ok(delta) ==> delta.wf(),
    decreases edits.len(),
{
    if edits.len() > 0 {
        let prior = edits.drop_last();
        let last = edits.last();
        lemma_normalized_edits_wf(authority, prior);
        lemma_delta_keys_addressed(authority, prior);
        if let Ok(before) = normalized_edits(authority, prior) {
            if let Ok(delta) = normalized_edits(authority, edits) {
                assert(!slots(prior).contains(last.spec_slot()));
                match last.spec_slot() {
                    EditSlot::Owner(key) => {
                        assert forall|j: int| 0 <= j < before.owners.len() implies #[trigger] before.owners[j].0 != key by {
                            assert(slots(prior).contains(EditSlot::Owner(before.owners[j].0)));
                        }
                    },
                    EditSlot::TypeObject(key) => {
                        assert forall|j: int| 0 <= j < before.type_additions.len() implies #[trigger] before.type_additions[j].0 != key by {
                            assert(slots(prior).contains(EditSlot::TypeObject(before.type_additions[j].0)));
                        }
                    },
                    EditSlot::Dependency(key) => {
                        assert forall|j: int| 0 <= j < before.dependencies.len() implies #[trigger] before.dependencies[j].0 != key by {
                            assert(slots(prior).contains(EditSlot::Dependency(before.dependencies[j].0)));
                        }
                    },
                    EditSlot::Retirement(key) => {
                        assert forall|j: int| 0 <= j < before.retirements.len() implies #[trigger] before.retirements[j].0 != key by {
                            assert(slots(prior).contains(EditSlot::Retirement(before.retirements[j].0)));
                        }
                    },
                }
            }
        }
    }
}

/// The edits of a request before its last one, normalized.
proof fn lemma_prior_accepted(authority: CanonicalAuthority, edits: Seq<PrimitiveEdit>)
    requires
        edits.len() > 0,
        normalized_edits(authority, edits) is Ok,
    ensures
        normalized_edits(authority, edits.drop_last()) matches Ok(before)
            && apply_edit(authority, before, edits.drop_last(), edits.last()) == normalized_edits(authority, edits)
            && !slots(edits.drop_last()).contains(edits.last().spec_slot()),
{
}

/// One accepted edit leaves the candidate value of every other key as it was.
proof fn lemma_apply_frame(authority: CanonicalAuthority, before: CanonicalDeltaView, prior: Seq<PrimitiveEdit>, last: PrimitiveEdit)
    requires
        apply_edit(authority, before, prior, last) is Ok,
    ensures
        apply_edit(authority, before, prior, last) matches Ok(after) && {
            &&& forall|k: OwnerKey| EditSlot::Owner(k) != last.spec_slot()
                ==> #[trigger] candidate_owner(authority, after, k) == candidate_owner(authority, before, k)
            &&& forall|k: TypeObjectDigest| EditSlot::TypeObject(k) != last.spec_slot()
                ==> #[trigger] candidate_type(authority, after, k) == candidate_type(authority, before, k)
            &&& forall|k: PackageId| EditSlot::Dependency(k) != last.spec_slot()
                ==> #[trigger] candidate_dependency(authority, after, k) == candidate_dependency(authority, before, k)
            &&& forall|k: OwnerKey| EditSlot::Retirement(k) != last.spec_slot()
                ==> #[trigger] candidate_retirement(authority, after, k) == candidate_retirement(authority, before, k)
        },
{
    broadcast use lemma_bound_in_push;
}

/// An accepted edit of a key the delta did not carry takes effect.
proof fn lemma_apply_takes_effect(authority: CanonicalAuthority, before: CanonicalDeltaView, prior: Seq<PrimitiveEdit>, last: PrimitiveEdit)
    requires
        apply_edit(authority, before, prior, last) is Ok,
        match last.spec_slot() {
            EditSlot::Owner(k) => bound_in(before.owners, k) is None,
            EditSlot::TypeObject(k) => bound_in(before.type_additions, k) is None,
            EditSlot::Dependency(k) => bound_in(before.dependencies, k) is None,
            EditSlot::Retirement(k) => bound_in(before.retirements, k) is None,
        },
    ensures
        apply_edit(authority, before, prior, last) matches Ok(after) && edit_takes_effect(authority, after, last),
{
    broadcast use lemma_bound_in_push;
}

/// Each edit of an accepted sequence takes effect in the candidate authority.
proof fn lemma_edits_take_effect(authority: CanonicalAuthority, edits: Seq<PrimitiveEdit>, i: int)
    requires
        0 <= i < edits.len(),
        normalized_edits(authority, edits) is Ok,
    ensures
        normalized_edits(authority, edits) matches Ok(delta) && edit_takes_effect(authority, delta, edits[i]),
    decreases edits.len(),
{
    let prior = edits.drop_last();
    let last = edits.last();
    lemma_prior_accepted(authority, edits);
    lemma_delta_keys_addressed(authority, prior);
    let before = match normalized_edits(authority, prior) {
        Ok(d) => d,
        Err(_) => arbitrary(),
    };
    if i < edits.len() - 1 {
        lemma_edits_take_effect(authority, prior, i);
        assert(prior[i] == edits[i]);
        assert(slots(prior)[i] == edits[i].spec_slot());
        assert(edits[i].spec_slot() != last.spec_slot());
        lemma_apply_frame(authority, before, prior, last);
        let edit = edits[i];
        match edit {
            PrimitiveEdit::InsertOwner { record } => assert(candidate_owner(authority, before, record.owner) == Some(record)),
            _ => {},
        }
    } else {
        match last.spec_slot() {
            EditSlot::Owner(key) => {
                assert forall|j: int| 0 <= j < before.owners.len() implies #[trigger] before.owners[j].0 != key by {
                    assert(slots(prior).contains(EditSlot::Owner(before.owners[j].0)));
                }
                lemma_bound_in_none(before.owners, key);
            },
            EditSlot::TypeObject(key) => {
                assert forall|j: int| 0 <= j < before.type_additions.len() implies #[trigger] before.type_additions[j].0 != key by {
                    assert(slots(prior).contains(EditSlot::TypeObject(before.type_additions[j].0)));
                }
                lemma_bound_in_none(before.type_additions, key);
            },
            EditSlot::Dependency(key) => {
                assert forall|j: int| 0 <= j < before.dependencies.len() implies #[trigger] before.dependencies[j].0 != key by {
                    assert(slots(prior).contains(EditSlot::Dependency(before.dependencies[j].0)));
                }
                lemma_bound_in_none(before.dependencies, key);
            },
            EditSlot::Retirement(key) => {
                assert forall|j: int| 0 <= j < before.retirements.len() implies #[trigger] before.retirements[j].0 != key by {
                    assert(slots(prior).contains(EditSlot::Retirement(before.retirements[j].0)));
                }
                lemma_bound_in_none(before.retirements, key);
            },
        }
        lemma_apply_takes_effect(authority, before, prior, last);
    }
}

/// Reading back a normalized request: after normalization succeeds, the candidate authority
/// answers every addressed key as the request asked. An inserted value reads back exactly, a
/// deleted key reads back absent, an added type object reads back exactly, and a replacement
/// reads back a value with the requested digest.
pub proof fn lemma_normalized_edits_take_effect(authority: CanonicalAuthority, edits: Seq<PrimitiveEdit>, i: int)
    requires
        normalized(authority, edits) is Ok,
        0 <= i < edits.len(),
    ensures
        normalized(authority, edits) matches Ok(delta) && edit_takes_effect(authority, delta, edits[i]),
{
    lemma_edits_take_effect(authority, edits, i);
    lemma_normalized_edits_wf(authority, edits);
    let unordered = normalized_edits(authority, edits)->Ok_0;
    lemma_canonical_order_wf(unordered);
    let ordered = in_canonical_order(unordered);
    assert forall|k: OwnerKey| #[trigger] candidate_owner(authority, ordered, k) == candidate_owner(authority, unordered, k) by {
        assert(bound_in(ordered.owners, k) == bound_in(unordered.owners, k));
    }
    assert forall|k: PackageId| #[trigger] candidate_dependency(authority, ordered, k) == candidate_dependency(authority, unordered, k) by {
        assert(bound_in(ordered.dependencies, k) == bound_in(unordered.dependencies, k));
    }
    assert forall|k: OwnerKey| #[trigger] candidate_retirement(authority, ordered, k) == candidate_retirement(authority, unordered, k) by {
        assert(bound_in(ordered.retirements, k) == bound_in(unordered.retirements, k));
    }
    assert forall|k: TypeObjectDigest| #[trigger] candidate_type(authority, ordered, k) == candidate_type(authority, unordered, k) by {
        assert(bound_in(ordered.type_additions, k) == bound_in(unordered.type_additions, k));
    }
}

/// Whether the base satisfies what `edit` presumes of it: an insertion finds its key free, a
/// replacement or a deletion finds its key bound to a value whose digest is the one the edit
/// expects, and an added type object is named by its own digest and agrees with any object the
/// base holds under that digest.
pub open spec fn base_meets_expectation(authority: CanonicalAuthority, edit: PrimitiveEdit) -> bool {
    match edit {
        PrimitiveEdit::InsertOwner { record } => !authority.owners.dom().contains(record.owner),
        PrimitiveEdit::ReplaceOwner { expected, record } => authority.owners.dom().contains(record.owner)
            && owner_digest(authority.owners[record.owner]) == expected,
        PrimitiveEdit::DeleteOwner { owner, expected } => authority.owners.dom().contains(owner)
            && owner_digest(authority.owners[owner]) == expected,
        PrimitiveEdit::AddTypeObject { digest, object } => type_digest(object) == digest
            && (authority.types.dom().contains(digest) ==> authority.types[digest] == object),
        PrimitiveEdit::InsertDependency { record } => !authority.dependencies.dom().contains(record.package),
        PrimitiveEdit::ReplaceDependency { expected, record } => authority.dependencies.dom().contains(record.package)
            && dependency_digest(authority.dependencies[record.package]) == expected,
        PrimitiveEdit::DeleteDependency { package, expected } => authority.dependencies.dom().contains(package)
            && dependency_digest(authority.dependencies[package]) == expected,
        PrimitiveEdit::InsertRetirement { record } => !authority.retirements.dom().contains(record.owner),
        PrimitiveEdit::ReplaceRetirement { expected, record } => authority.retirements.dom().contains(record.owner)
            && retirement_digest(authority.retirements[record.owner]) == expected,
        PrimitiveEdit::DeleteRetirement { owner, expected } => authority.retirements.dom().contains(owner)
            && retirement_digest(authority.retirements[owner]) == expected,
    }
}

/// The edits applied in order succeed only where each finds the base as it expects, and no two
/// address the same key.
proof fn lemma_normalized_edits_preconditions(authority: CanonicalAuthority, edits: Seq<PrimitiveEdit>, i: int)
    requires
        normalized_edits(authority, edits) is Ok,
        0 <= i < edits.len(),
    ensures
        base_meets_expectation(authority, edits[i]),
        forall|j: int| 0 <= j < edits.len() && j != i ==> #[trigger] edits[j].spec_slot() != edits[i].spec_slot(),
    decreases edits.len(),
{
    let prior = edits.drop_last();
    let last = edits.len() - 1;
    assert(normalized_edits(authority, prior) is Ok);
    assert(!slots(prior).contains(edits[last].spec_slot())) by {
        assert(apply_edit(authority, normalized_edits(authority, prior)->Ok_0, prior, edits[last]) is Ok);
    }
    assert forall|j: int| 0 <= j < last implies #[trigger] edits[j].spec_slot() != edits[last].spec_slot() by {
        assert(prior[j] == edits[j]);
        assert(slots(prior)[j] == prior[j].spec_slot());
    }
    if i < last {
        lemma_normalized_edits_preconditions(authority, prior, i);
        assert(prior[i] == edits[i]);
        assert forall|j: int| 0 <= j < edits.len() && j != i implies #[trigger] edits[j].spec_slot() != edits[i].spec_slot() by {
            if j < last {
                assert(prior[j] == edits[j]);
            }
        }
    } else {
        let delta = normalized_edits(authority, prior)->Ok_0;
        assert(apply_edit(authority, delta, prior, edits[last]) is Ok);
    }
}

/// A request normalizes only when every edit finds the exact base as it expects (an insertion
/// its key free; a replacement or deletion its key bound to a value with the expected digest;
/// an added type object its own digest) and no two edits address the same key.
pub proof fn normalized_edits_meet_their_expectations(authority: CanonicalAuthority, edits: Seq<PrimitiveEdit>, i: int)
    requires
        normalized(authority, edits) is Ok,
        0 <= i < edits.len(),
    ensures
        base_meets_expectation(authority, edits[i]),
        forall|j: int| 0 <= j < edits.len() && j != i ==> #[trigger] edits[j].spec_slot() != edits[i].spec_slot(),
{
    lemma_normalized_edits_preconditions(authority, edits, i);
}

/// One edit applies exactly when it finds the base as it expects; otherwise it is refused with
/// the code of what it found: a present key for an insertion, a missing key for a replacement or
/// deletion, a different digest as a failed exact precondition, and a type object under
/// another's digest, or colliding with the base's, as a failed precondition or a collision.
pub proof fn single_edit_outcome(authority: CanonicalAuthority, edit: PrimitiveEdit)
    ensures
        normalized_edits(authority, seq![edit]) is Ok <==> base_meets_expectation(authority, edit),
        match edit {
            PrimitiveEdit::InsertOwner { record } => authority.owners.dom().contains(record.owner)
                ==> normalized_edits(authority, seq![edit]) == Err::<CanonicalDeltaView, Refusal>(semantic("change_owner_present"@)),
            PrimitiveEdit::ReplaceOwner { expected, record } => {
                &&& !authority.owners.dom().contains(record.owner)
                    ==> normalized_edits(authority, seq![edit]) == Err::<CanonicalDeltaView, Refusal>(semantic("change_owner_missing"@))
                &&& authority.owners.dom().contains(record.owner) && owner_digest(authority.owners[record.owner]) != expected
                    ==> normalized_edits(authority, seq![edit]) == Err::<CanonicalDeltaView, Refusal>(semantic("change_exact_precondition"@))
            },
            PrimitiveEdit::DeleteOwner { owner, expected } => {
                &&& !authority.owners.dom().contains(owner)
                    ==> normalized_edits(authority, seq![edit]) == Err::<CanonicalDeltaView, Refusal>(semantic("change_owner_missing"@))
                &&& authority.owners.dom().contains(owner) && owner_digest(authority.owners[owner]) != expected
                    ==> normalized_edits(authority, seq![edit]) == Err::<CanonicalDeltaView, Refusal>(semantic("change_exact_precondition"@))
            },
            PrimitiveEdit::AddTypeObject { digest, object } => {
                &&& type_digest(object) != digest
                    ==> normalized_edits(authority, seq![edit]) == Err::<CanonicalDeltaView, Refusal>(semantic("change_exact_precondition"@))
                &&& type_digest(object) == digest && authority.types.dom().contains(digest) && authority.types[digest] != object
                    ==> normalized_edits(authority, seq![edit]) == Err::<CanonicalDeltaView, Refusal>((DiagnosticClass::Corrupt, "change_type_collision"@))
            },
            PrimitiveEdit::InsertDependency { record } => authority.dependencies.dom().contains(record.package)
                ==> normalized_edits(authority, seq![edit]) == Err::<CanonicalDeltaView, Refusal>(semantic("change_dependency_present"@)),
            PrimitiveEdit::ReplaceDependency { expected, record } => {
                &&& !authority.dependencies.dom().contains(record.package)
                    ==> normalized_edits(authority, seq![edit]) == Err::<CanonicalDeltaView, Refusal>(semantic("change_dependency_missing"@))
                &&& authority.dependencies.dom().contains(record.package)
                    && dependency_digest(authority.dependencies[record.package]) != expected
                    ==> normalized_edits(authority, seq![edit]) == Err::<CanonicalDeltaView, Refusal>(semantic("change_exact_precondition"@))
            },
            PrimitiveEdit::DeleteDependency { package, expected } => {
                &&& !authority.dependencies.dom().contains(package)
                    ==> normalized_edits(authority, seq![edit]) == Err::<CanonicalDeltaView, Refusal>(semantic("change_dependency_missing"@))
                &&& authority.dependencies.dom().contains(package) && dependency_digest(authority.dependencies[package]) != expected
                    ==> normalized_edits(authority, seq![edit]) == Err::<CanonicalDeltaView, Refusal>(semantic("change_exact_precondition"@))
            },
            PrimitiveEdit::InsertRetirement { record } => authority.retirements.dom().contains(record.owner)
                ==> normalized_edits(authority, seq![edit]) == Err::<CanonicalDeltaView, Refusal>(semantic("change_retirement_present"@)),
            PrimitiveEdit::ReplaceRetirement { expected, record } => {
                &&& !authority.retirements.dom().contains(record.owner)
                    ==> normalized_edits(authority, seq![edit]) == Err::<CanonicalDeltaView, Refusal>(semantic("change_retirement_missing"@))
                &&& authority.retirements.dom().contains(record.owner)
                    && retirement_digest(authority.retirements[record.owner]) != expected
                    ==> normalized_edits(authority, seq![edit]) == Err::<CanonicalDeltaView, Refusal>(semantic("change_exact_precondition"@))
            },
            PrimitiveEdit::DeleteRetirement { owner, expected } => {
                &&& !authority.retirements.dom().contains(owner)
                    ==> normalized_edits(authority, seq![edit]) == Err::<CanonicalDeltaView, Refusal>(semantic("change_retirement_missing"@))
                &&& authority.retirements.dom().contains(owner) && retirement_digest(authority.retirements[owner]) != expected
                    ==> normalized_edits(authority, seq![edit]) == Err::<CanonicalDeltaView, Refusal>(semantic("change_exact_precondition"@))
            },
        },
{
    let edits = seq![edit];
    assert(edits.drop_last() =~= Seq::<PrimitiveEdit>::empty());
    assert(edits.last() == edit);
    assert(slots(Seq::<PrimitiveEdit>::empty()) =~= Seq::<EditSlot>::empty());
    assert(normalized_edits(authority, Seq::<PrimitiveEdit>::empty()) == Ok::<CanonicalDeltaView, Refusal>(CanonicalDeltaView::empty()));
    assert(normalized_edits(authority, edits.drop_last()) == Ok::<CanonicalDeltaView, Refusal>(CanonicalDeltaView::empty()));
    assert(normalized_edits(authority, edits) == apply_edit(authority, CanonicalDeltaView::empty(), Seq::empty(), edit));
}

/// A normalized delta never leaves an owner it touches both live and retired.
pub proof fn lemma_normalized_exclusive(authority: CanonicalAuthority, edits: Seq<PrimitiveEdit>, owner: OwnerKey)
    requires
        normalized(authority, edits) is Ok,
    ensures
        normalized(authority, edits) matches Ok(delta) && ((exists|j: int| 0 <= j < delta.owners.len() && delta.owners[j].0 == owner)
            || (exists|j: int| 0 <= j < delta.retirements.len() && delta.retirements[j].0 == owner)
            ==> !(live_after(authority, delta, owner) && retired_after(authority, delta, owner))),
{
    lemma_normalized_edits_wf(authority, edits);
    let unordered = normalized_edits(authority, edits)->Ok_0;
    lemma_canonical_order_wf(unordered);
    let ordered = in_canonical_order(unordered);
    assert(bound_in(ordered.owners, owner) == bound_in(unordered.owners, owner));
    assert(bound_in(ordered.retirements, owner) == bound_in(unordered.retirements, owner));
    if exists|j: int| 0 <= j < ordered.owners.len() && ordered.owners[j].0 == owner {
        let j = choose|j: int| 0 <= j < ordered.owners.len() && ordered.owners[j].0 == owner;
        assert(ordered.owners.contains(ordered.owners[j]));
        assert(unordered.owners.contains(ordered.owners[j]));
        let m = choose|m: int| 0 <= m < unordered.owners.len() && unordered.owners[m] == ordered.owners[j];
        assert(!live_and_retired(authority, unordered, unordered.owners[m].0));
    }
    if exists|j: int| 0 <= j < ordered.retirements.len() && ordered.retirements[j].0 == owner {
        let j = choose|j: int| 0 <= j < ordered.retirements.len() && ordered.retirements[j].0 == owner;
        assert(ordered.retirements.contains(ordered.retirements[j]));
        assert(unordered.retirements.contains(ordered.retirements[j]));
        let m = choose|m: int| 0 <= m < unordered.retirements.len() && unordered.retirements[m] == ordered.retirements[j];
        assert(!live_and_retired(authority, unordered, unordered.retirements[m].0));
    }
}

/// With distinct keys, the binding found under a key is the one entry with that key.
proof fn lemma_bound_in_distinct<K, V>(entries: Seq<(K, V)>, key: K, value: V)
    requires
        distinct_keys(entries),
    ensures
        bound_in(entries, key) == Some(value) <==> entries.contains((key, value)),
        bound_in(entries, key) is None <==> forall|j: int| 0 <= j < entries.len() ==> (#[trigger] entries[j]).0 != key,
    decreases entries.len(),
{
    lemma_bound_in_found(entries, key);
    if entries.len() > 0 {
        let rest = entries.drop_first();
        assert(distinct_keys(rest)) by {
            assert forall|i: int, j: int| 0 <= i < j < rest.len() implies #[trigger] rest[i].0 != #[trigger] rest[j].0 by {
                assert(entries[i + 1].0 != entries[j + 1].0);
            }
        }
        lemma_bound_in_distinct(rest, key, value);
        if entries[0].0 == key {
            if entries.contains((key, value)) {
                let j = choose|j: int| 0 <= j < entries.len() && entries[j] == (key, value);
                if j > 0 {
                    assert(entries[0].0 != entries[j].0);
                }
            }
        } else {
            if entries.contains((key, value)) {
                let j = choose|j: int| 0 <= j < entries.len() && entries[j] == (key, value);
                assert(rest[j - 1] == (key, value));
            }
            if rest.contains((key, value)) {
                let j = choose|j: int| 0 <= j < rest.len() && rest[j] == (key, value);
                assert(entries[j + 1] == (key, value));
            }
            if forall|j: int| 0 <= j < rest.len() ==> (#[trigger] rest[j]).0 != key {
                assert forall|j: int| 0 <= j < entries.len() implies (#[trigger] entries[j]).0 != key by {
                    if j > 0 {
                        assert(rest[j - 1] == entries[j]);
                    }
                }
            }
            if forall|j: int| 0 <= j < entries.len() ==> (#[trigger] entries[j]).0 != key {
                assert forall|j: int| 0 <= j < rest.len() implies (#[trigger] rest[j]).0 != key by {
                    assert(rest[j] == entries[j + 1]);
                }
            }
        }
    }
}

/// Entries with increasing keys have distinct keys.
proof fn lemma_increasing_distinct<K: KeyOrder, V>(entries: Seq<(K, V)>)
    requires
        keys_increasing(entries),
    ensures
        distinct_keys(entries),
{
    assert forall|i: int, j: int| 0 <= i < j < entries.len() implies #[trigger] entries[i].0 != #[trigger] entries[j].0 by {
        K::lemma_key_less_irreflexive(entries[i].0);
    }
}

/// Reordering entries with distinct keys finds the same binding under every key.
proof fn lemma_reordered_bindings<K: KeyOrder, V>(entries: Seq<(K, V)>)
    requires
        distinct_keys(entries),
    ensures
        distinct_keys(in_entry_order(entries)),
        keys_increasing(in_entry_order(entries)),
        same_entries(in_entry_order(entries), entries),
        forall|key: K| #[trigger] bound_in(in_entry_order(entries), key) == bound_in(entries, key),
{
    let witness = lemma_orderable(entries);
    lemma_in_entry_order(witness, entries);
    let sorted = in_entry_order(entries);
    lemma_increasing_distinct(sorted);
    assert forall|key: K| #[trigger] bound_in(sorted, key) == bound_in(entries, key) by {
        match bound_in(entries, key) {
            Some(value) => {
                lemma_bound_in_distinct(entries, key, value);
                assert(sorted.contains((key, value)));
                lemma_bound_in_distinct(sorted, key, value);
            },
            None => {
                match bound_in(sorted, key) {
                    Some(value) => {
                        lemma_bound_in_distinct(sorted, key, value);
                        assert(entries.contains((key, value)));
                        lemma_bound_in_distinct(entries, key, value);
                    },
                    None => {},
                }
            },
        }
    }
}

/// Putting a well-formed delta's edits in key order keeps it well formed and finds the same
/// edit under every key.
pub proof fn lemma_canonical_order_wf(delta: CanonicalDeltaView)
    requires
        delta.wf(),
    ensures
        in_canonical_order(delta).wf(),
        in_canonical_order(delta).ordered(),
        same_entries(in_canonical_order(delta).owners, delta.owners),
        same_entries(in_canonical_order(delta).retirements, delta.retirements),
        forall|k: OwnerKey| #[trigger] bound_in(in_canonical_order(delta).owners, k) == bound_in(delta.owners, k),
        forall|k: PackageId| #[trigger] bound_in(in_canonical_order(delta).dependencies, k) == bound_in(delta.dependencies, k),
        forall|k: OwnerKey| #[trigger] bound_in(in_canonical_order(delta).retirements, k) == bound_in(delta.retirements, k),
        forall|k: TypeObjectDigest| #[trigger] bound_in(in_canonical_order(delta).type_additions, k) == bound_in(delta.type_additions, k),
{
    lemma_reordered_bindings(delta.owners);
    lemma_reordered_bindings(delta.type_additions);
    lemma_reordered_bindings(delta.dependencies);
    lemma_reordered_bindings(delta.retirements);
    let sorted = in_canonical_order(delta);
    assert forall|i: int| 0 <= i < sorted.owners.len()
        implies ((#[trigger] sorted.owners[i]).1.after matches Some(after) ==> after.1.owner == sorted.owners[i].0) by {
        assert(sorted.owners.contains(sorted.owners[i]));
        assert(delta.owners.contains(sorted.owners[i]));
        let j = choose|j: int| 0 <= j < delta.owners.len() && delta.owners[j] == sorted.owners[i];
        assert(delta.owners[j].1.after matches Some(after) ==> after.1.owner == delta.owners[j].0);
    }
    assert forall|i: int| 0 <= i < sorted.dependencies.len()
        implies ((#[trigger] sorted.dependencies[i]).1.after matches Some(after) ==> after.1.package == sorted.dependencies[i].0) by {
        assert(sorted.dependencies.contains(sorted.dependencies[i]));
        assert(delta.dependencies.contains(sorted.dependencies[i]));
        let j = choose|j: int| 0 <= j < delta.dependencies.len() && delta.dependencies[j] == sorted.dependencies[i];
        assert(delta.dependencies[j].1.after matches Some(after) ==> after.1.package == delta.dependencies[j].0);
    }
    assert forall|i: int| 0 <= i < sorted.retirements.len()
        implies ((#[trigger] sorted.retirements[i]).1.after matches Some(after) ==> after.1.owner == sorted.retirements[i].0) by {
        assert(sorted.retirements.contains(sorted.retirements[i]));
        assert(delta.retirements.contains(sorted.retirements[i]));
        let j = choose|j: int| 0 <= j < delta.retirements.len() && delta.retirements[j] == sorted.retirements[i];
        assert(delta.retirements[j].1.after matches Some(after) ==> after.1.owner == delta.retirements[j].0);
    }
}

} // verus!
