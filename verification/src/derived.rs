//! Witness deltas derived locally from changed canonical owner records.

use crate::base_read::{sat_add, WitnessBaseRead, WitnessEvidence, WitnessReadWork};
use crate::diagnostic::{static_message, Diagnostic, DiagnosticClass};
use crate::kernel::OwnerKey;
use crate::witness::{
    bound_in, contains_edge, lemma_bound_in_found, NamespaceKey, OwnershipEntry, RelationEdge, RelationEndpoint, RelationKind,
};
use crate::kernel::{PackageId, RepositoryId};
use crate::delta::{CanonicalDelta, DependencyEdit};
use crate::budget::{count, count_spec};
use crate::impact::{contains_owner, insert_owner, local_owner, spec_local_owner};
use crate::witness::OwnershipParent;
use crate::order::{in_key_order, increasing, insert_in_order, lemma_in_key_order, lemma_increasing_no_duplicates, lists, sorted_keys, KeyOrder};
use vstd::prelude::*;

verus! {

/// One keyed derived value before and after a change.
#[derive(Clone, Copy, Debug, PartialEq, Eq)]
pub struct DerivedValueEdit<K, V> {
    pub key: K,
    pub before: Option<V>,
    pub after: Option<V>,
}

/// The relation edges a change removes and adds.
#[derive(Clone, Debug)]
pub struct RelationDelta {
    pub removed: Vec<RelationEdge>,
    pub added: Vec<RelationEdge>,
}

impl Default for RelationDelta {
    fn default() -> (r: Self)
        ensures
            r.removed@.len() == 0,
            r.added@.len() == 0,
    {
        RelationDelta { removed: Vec::new(), added: Vec::new() }
    }
}

/// The witness-level consequences of one canonical delta.
#[derive(Clone, Debug)]
pub struct DerivedDelta {
    pub namespaces: Vec<DerivedValueEdit<NamespaceKey, OwnerKey>>,
    pub ownership: Vec<DerivedValueEdit<OwnerKey, OwnershipEntry>>,
    pub relations: RelationDelta,
    pub summary_candidates: Vec<OwnerKey>,
    pub read_work: WitnessReadWork,
    /// Ownership steps walked while deriving the delta.
    pub ownership_steps: u64,
    /// Relation edges examined while deriving the delta.
    pub relation_edges_examined: u64,
}

impl Default for DerivedDelta {
    fn default() -> (r: Self)
        ensures
            r.namespaces@.len() == 0,
            r.ownership@.len() == 0,
            r.relations.removed@.len() == 0,
            r.relations.added@.len() == 0,
            r.summary_candidates@.len() == 0,
            r.read_work == WitnessReadWork::zero(),
            r.ownership_steps == 0,
            r.relation_edges_examined == 0,
    {
        DerivedDelta {
            namespaces: Vec::new(),
            ownership: Vec::new(),
            relations: RelationDelta::default(),
            summary_candidates: Vec::new(),
            read_work: WitnessReadWork::default(),
            ownership_steps: 0,
            relation_edges_examined: 0,
        }
    }
}

/// Values compared by their fields.
pub trait SameValue: Copy {
    /// Whether `self` and `other` are the same value.
    fn same(&self, other: &Self) -> (r: bool)
        ensures
            r == (*self == *other),
    ;
}

impl SameValue for OwnerKey {
    fn same(&self, other: &Self) -> (r: bool) {
        *self == *other
    }
}

impl SameValue for NamespaceKey {
    fn same(&self, other: &Self) -> (r: bool) {
        *self == *other
    }
}

impl SameValue for OwnershipEntry {
    fn same(&self, other: &Self) -> (r: bool) {
        *self == *other
    }
}

impl SameValue for RelationEdge {
    fn same(&self, other: &Self) -> (r: bool) {
        *self == *other
    }
}

/// Whether two optional values are the same.
fn same_option<V: SameValue>(a: Option<V>, b: Option<V>) -> (r: bool)
    ensures
        r == (a == b),
{
    match (a, b) {
        (Some(x), Some(y)) => x.same(&y),
        (None, None) => true,
        _ => false,
    }
}

/// The value first bound to `key` in `entries`.
pub fn bound_value<K: SameValue, V: Copy>(entries: &Vec<(K, V)>, key: K) -> (r: Option<V>)
    ensures
        r == bound_in(entries@, key),
{
    let mut i: usize = 0;
    assert(entries@.subrange(0, entries@.len() as int) =~= entries@);
    while i < entries.len()
        invariant
            0 <= i <= entries@.len(),
            bound_in(entries@, key) == bound_in(entries@.subrange(i as int, entries@.len() as int), key),
        decreases entries@.len() - i,
    {
        assert(entries@.subrange(i as int, entries@.len() as int).drop_first() =~= entries@.subrange(i + 1, entries@.len() as int));
        if entries[i].0.same(&key) {
            return Some(entries[i].1);
        }
        i = i + 1;
    }
    None
}

/// An unbound key is carried by no entry.
proof fn lemma_unbound_absent<K, V>(entries: Seq<(K, V)>, probe: K)
    requires
        bound_in(entries, probe) is None,
    ensures
        forall|j: int| 0 <= j < entries.len() ==> #[trigger] entries[j].0 != probe,
    decreases entries.len(),
{
    if entries.len() > 0 {
        lemma_unbound_absent(entries.drop_first(), probe);
        assert forall|j: int| 0 <= j < entries.len() implies #[trigger] entries[j].0 != probe by {
            if j > 0 {
                assert(entries[j] == entries.drop_first()[j - 1]);
            }
        }
    }
}

/// Witness answers read once per key and kept for the rest of one derivation.
pub struct CachedWitness {
    namespaces: Vec<(NamespaceKey, Option<OwnerKey>)>,
    ownership: Vec<(OwnerKey, Option<OwnershipEntry>)>,
    relations: Vec<(RelationEdge, bool)>,
    work: WitnessReadWork,
}

impl CachedWitness {
    /// Every kept answer is the answer of `evidence`.
    pub closed spec fn agrees_with(&self, evidence: WitnessEvidence) -> bool {
        &&& forall|i: int| 0 <= i < self.namespaces@.len()
            ==> #[trigger] self.namespaces@[i].1 == bound_in(evidence.namespaces, self.namespaces@[i].0)
        &&& forall|i: int| 0 <= i < self.ownership@.len()
            ==> #[trigger] self.ownership@[i].1 == bound_in(evidence.ownership, self.ownership@[i].0)
        &&& forall|i: int| 0 <= i < self.relations@.len()
            ==> #[trigger] self.relations@[i].1 == evidence.forward.contains(self.relations@[i].0)
    }

    /// The witness read work so far.
    pub closed spec fn spent(&self) -> WitnessReadWork {
        self.work
    }

    /// Whether an answer for namespace `key` is kept.
    pub closed spec fn keeps_namespace(&self, key: NamespaceKey) -> bool {
        exists|i: int| 0 <= i < self.namespaces@.len() && #[trigger] self.namespaces@[i].0 == key
    }

    /// Whether an answer for the ownership of `owner` is kept.
    pub closed spec fn keeps_ownership(&self, owner: OwnerKey) -> bool {
        exists|i: int| 0 <= i < self.ownership@.len() && #[trigger] self.ownership@[i].0 == owner
    }

    /// Whether an answer for the forward relation `edge` is kept.
    pub closed spec fn keeps_relation(&self, edge: RelationEdge) -> bool {
        exists|i: int| 0 <= i < self.relations@.len() && #[trigger] self.relations@[i].0 == edge
    }

    /// A cache that holds no answer yet.
    pub fn new() -> (r: Self)
        ensures
            forall|evidence: WitnessEvidence| r.agrees_with(evidence),
            r.spent() == WitnessReadWork::zero(),
    {
        CachedWitness { namespaces: Vec::new(), ownership: Vec::new(), relations: Vec::new(), work: WitnessReadWork::default() }
    }

    /// The witness read work so far.
    pub fn work(&self) -> (r: WitnessReadWork)
        ensures
            r == self.spent(),
    {
        self.work
    }

    /// The owner `base` binds to namespace `key`, read once.
    pub fn namespace<W: WitnessBaseRead>(&mut self, base: &mut W, key: NamespaceKey) -> (r: Result<Option<OwnerKey>, Diagnostic>)
        requires
            old(self).agrees_with(old(base).evidence()),
        ensures
            final(base).evidence() == old(base).evidence(),
            final(self).agrees_with(final(base).evidence()),
            r matches Ok(value) ==> value == bound_in(old(base).evidence().namespaces, key),
            final(base).witness_reads_are_total() == old(base).witness_reads_are_total(),
            old(self).keeps_namespace(key) ==> r is Ok && *final(base) == *old(base) && *final(self) == *old(self),
            old(base).witness_reads_are_total() ==> r is Ok,
            r is Ok ==> final(self).keeps_namespace(key),
            r is Err ==> *final(self) == *old(self),
            r matches Err(d) ==> old(base).read_refusal(d),
            forall|e: Diagnostic| #[trigger] final(base).read_refusal(e) == old(base).read_refusal(e),
    {
        match bound_value(&self.namespaces, key) {
            Some(value) => {
                proof {
                    lemma_bound_in_found(self.namespaces@, key);
                    let j = choose|j: int| 0 <= j < self.namespaces@.len() && self.namespaces@[j] == (key, value);
                    assert(self.namespaces@[j].0 == key);
                    assert(self.namespaces@[j].1 == bound_in(base.evidence().namespaces, key));
                }
                Ok(value)
            },
            None => {
                proof {
                    lemma_unbound_absent(self.namespaces@, key);
                }
                let read = base.read_namespace(&key)?;
                self.work.add(read.work);
                self.namespaces.push((key, read.value));
                assert(self.namespaces@[self.namespaces@.len() - 1].0 == key);
                Ok(read.value)
            },
        }
    }

    /// The ownership entry `base` binds to `owner`, read once.
    pub fn ownership<W: WitnessBaseRead>(&mut self, base: &mut W, owner: OwnerKey) -> (r: Result<Option<OwnershipEntry>, Diagnostic>)
        requires
            old(self).agrees_with(old(base).evidence()),
        ensures
            final(base).evidence() == old(base).evidence(),
            final(self).agrees_with(final(base).evidence()),
            r matches Ok(value) ==> value == bound_in(old(base).evidence().ownership, owner),
            final(base).witness_reads_are_total() == old(base).witness_reads_are_total(),
            old(self).keeps_ownership(owner) ==> r is Ok && *final(base) == *old(base) && *final(self) == *old(self),
            old(base).witness_reads_are_total() ==> r is Ok,
            r is Ok ==> final(self).keeps_ownership(owner),
            r is Err ==> *final(self) == *old(self),
            r matches Err(d) ==> old(base).read_refusal(d),
            forall|e: Diagnostic| #[trigger] final(base).read_refusal(e) == old(base).read_refusal(e),
    {
        match bound_value(&self.ownership, owner) {
            Some(value) => {
                proof {
                    lemma_bound_in_found(self.ownership@, owner);
                    let j = choose|j: int| 0 <= j < self.ownership@.len() && self.ownership@[j] == (owner, value);
                    assert(self.ownership@[j].0 == owner);
                    assert(self.ownership@[j].1 == bound_in(base.evidence().ownership, owner));
                }
                Ok(value)
            },
            None => {
                proof {
                    lemma_unbound_absent(self.ownership@, owner);
                }
                let read = base.read_ownership(owner)?;
                self.work.add(read.work);
                self.ownership.push((owner, read.value));
                assert(self.ownership@[self.ownership@.len() - 1].0 == owner);
                Ok(read.value)
            },
        }
    }

    /// Whether `base` holds the forward relation `edge`, read once.
    pub fn contains_relation<W: WitnessBaseRead>(&mut self, base: &mut W, edge: RelationEdge) -> (r: Result<bool, Diagnostic>)
        requires
            old(self).agrees_with(old(base).evidence()),
        ensures
            final(base).evidence() == old(base).evidence(),
            final(self).agrees_with(final(base).evidence()),
            r matches Ok(value) ==> value == old(base).evidence().forward.contains(edge),
            final(base).witness_reads_are_total() == old(base).witness_reads_are_total(),
            old(self).keeps_relation(edge) ==> r is Ok && *final(base) == *old(base) && *final(self) == *old(self),
            old(base).witness_reads_are_total() ==> r is Ok,
            r is Ok ==> final(self).keeps_relation(edge),
            r is Err ==> *final(self) == *old(self),
            r matches Err(d) ==> old(base).read_refusal(d),
            forall|e: Diagnostic| #[trigger] final(base).read_refusal(e) == old(base).read_refusal(e),
    {
        match bound_value(&self.relations, edge) {
            Some(value) => {
                proof {
                    lemma_bound_in_found(self.relations@, edge);
                    let j = choose|j: int| 0 <= j < self.relations@.len() && self.relations@[j] == (edge, value);
                    assert(self.relations@[j].0 == edge);
                    assert(self.relations@[j].1 == base.evidence().forward.contains(edge));
                }
                Ok(value)
            },
            None => {
                proof {
                    lemma_unbound_absent(self.relations@, edge);
                }
                let read = base.contains_forward_relation(edge)?;
                self.work.add(read.work);
                self.relations.push((edge, read.value));
                assert(self.relations@[self.relations@.len() - 1].0 == edge);
                Ok(read.value)
            },
        }
    }
}

/// What one key of a contribution map does to the derived witness.
pub enum ContributionOutcome<V> {
    /// The witness already holds the candidate value.
    Unchanged,
    /// The witness value, then the candidate value.
    Changed(Option<V>, Option<V>),
    /// The witness does not hold the value the base records contribute.
    BaseDisagrees,
    /// A candidate record contributes a value the witness binds otherwise.
    CandidatesCollide,
}

/// The outcome of one key: `observed` is the witness value, `before` and `after` what the base
/// and candidate records contribute under the key.
pub open spec fn contribution_outcome<V>(observed: Option<V>, before: Option<V>, after: Option<V>) -> ContributionOutcome<V> {
    if before is Some && observed != before {
        ContributionOutcome::BaseDisagrees
    } else {
        let candidate = if before is Some { None } else { observed };
        match after {
            Some(_) => if candidate is Some && candidate != after {
                ContributionOutcome::CandidatesCollide
            } else if observed != after {
                ContributionOutcome::Changed(observed, after)
            } else {
                ContributionOutcome::Unchanged
            },
            None => if observed != candidate {
                ContributionOutcome::Changed(observed, candidate)
            } else {
                ContributionOutcome::Unchanged
            },
        }
    }
}

/// What one key of a contribution map does: where the base records contribute a value the
/// witness does not hold, the base disagrees; where a candidate record contributes a value and
/// the witness holds another that no base record contributed, the candidates collide; otherwise
/// the key ends up holding the candidate's value, or, where no candidate contributes, nothing if
/// a base record contributed and the witness value if none did, and it is changed exactly when
/// that differs from what the witness holds.
pub proof fn contribution_outcome_law<V>(observed: Option<V>, before: Option<V>, after: Option<V>)
    ensures
        (before is Some) && observed != before ==> contribution_outcome(observed, before, after) is BaseDisagrees,
        (before is None) && (observed is Some) && (after is Some) && observed != after
            ==> contribution_outcome(observed, before, after) is CandidatesCollide,
        ({
            let settled = if after is Some { after } else if before is Some { None } else { observed };
            &&& contribution_outcome(observed, before, after) matches ContributionOutcome::Changed(from, to)
                ==> from == observed && to == settled && to != observed
            &&& contribution_outcome(observed, before, after) is Unchanged ==> settled == observed
            &&& ((before is None) || observed == before) && !((before is None) && (observed is Some) && (after is Some) && observed != after)
                ==> !(contribution_outcome(observed, before, after) is BaseDisagrees)
                    && !(contribution_outcome(observed, before, after) is CandidatesCollide)
        }),
{
}

/// Decides the outcome of one key.
fn decide_contribution<V: SameValue>(observed: Option<V>, before: Option<V>, after: Option<V>) -> (r: ContributionOutcome<V>)
    ensures
        r == contribution_outcome(observed, before, after),
{
    if before.is_some() && !same_option(observed, before) {
        return ContributionOutcome::BaseDisagrees;
    }
    let candidate = if before.is_some() { None } else { observed };
    match after {
        Some(_) => {
            if candidate.is_some() && !same_option(candidate, after) {
                ContributionOutcome::CandidatesCollide
            } else if !same_option(observed, after) {
                ContributionOutcome::Changed(observed, after)
            } else {
                ContributionOutcome::Unchanged
            }
        },
        None => {
            if !same_option(observed, candidate) {
                ContributionOutcome::Changed(observed, candidate)
            } else {
                ContributionOutcome::Unchanged
            }
        },
    }
}

/// The keys bound in `entries`.
pub open spec fn bound_keys<K, V>(entries: Seq<(K, V)>) -> Set<K> {
    Set::new(|k: K| exists|i: int| 0 <= i < entries.len() && #[trigger] entries[i].0 == k)
}

/// The keys a pair of contribution maps touches, each once, in increasing key order.
pub open spec fn contribution_key_order<K: KeyOrder, V>(before: Seq<(K, V)>, after: Seq<(K, V)>) -> Seq<K> {
    in_key_order(bound_keys(before).union(bound_keys(after)))
}

/// The keys a pair of contribution maps touches, in increasing order.
fn contribution_keys<K: KeyOrder, V: Copy>(before: &Vec<(K, V)>, after: &Vec<(K, V)>) -> (r: Vec<K>)
    ensures
        r@ == contribution_key_order(before@, after@),
        increasing(r@),
{
    let mut keys: Vec<K> = Vec::new();
    let mut i: usize = 0;
    while i < before.len()
        invariant
            i <= before@.len(),
            increasing(keys@),
            forall|x: K| #[trigger] keys@.contains(x) <==> exists|m: int| 0 <= m < i && #[trigger] before@[m].0 == x,
        decreases before@.len() - i,
    {
        insert_in_order(&mut keys, before[i].0);
        i = i + 1;
        proof {
            assert forall|x: K| #[trigger] keys@.contains(x) <==> exists|m: int| 0 <= m < i && #[trigger] before@[m].0 == x by {
                if x == before@[i - 1].0 {
                    assert(before@[i - 1].0 == x);
                }
                if exists|m: int| 0 <= m < i && #[trigger] before@[m].0 == x {
                    let m = choose|m: int| 0 <= m < i && #[trigger] before@[m].0 == x;
                    if m < i - 1 {
                        assert(before@[m].0 == x);
                    }
                }
            }
        }
    }
    let mut j: usize = 0;
    while j < after.len()
        invariant
            j <= after@.len(),
            increasing(keys@),
            forall|x: K| #[trigger] keys@.contains(x) <==> (exists|m: int| 0 <= m < before@.len() && #[trigger] before@[m].0 == x)
                || exists|m: int| 0 <= m < j && #[trigger] after@[m].0 == x,
        decreases after@.len() - j,
    {
        insert_in_order(&mut keys, after[j].0);
        j = j + 1;
        proof {
            assert forall|x: K| #[trigger] keys@.contains(x) <==> (exists|m: int| 0 <= m < before@.len() && #[trigger] before@[m].0 == x)
                || exists|m: int| 0 <= m < j && #[trigger] after@[m].0 == x by {
                if x == after@[j - 1].0 {
                    assert(after@[j - 1].0 == x);
                }
                if exists|m: int| 0 <= m < j && #[trigger] after@[m].0 == x {
                    let m = choose|m: int| 0 <= m < j && #[trigger] after@[m].0 == x;
                    if m < j - 1 {
                        assert(after@[m].0 == x);
                    }
                }
            }
        }
    }
    proof {
        let touched = bound_keys(before@).union(bound_keys(after@));
        assert(lists(keys@, touched));
        lemma_in_key_order(keys@, touched);
    }
    keys
}

/// The edits of a pair of contribution maps over the witness bindings `answers`, key by key in
/// `keys`; `None` where some key is refused.
pub open spec fn contribution_edits_of<K, V>(
    keys: Seq<K>,
    before: Seq<(K, V)>,
    after: Seq<(K, V)>,
    answers: Seq<(K, V)>,
) -> Option<Seq<DerivedValueEdit<K, V>>>
    decreases keys.len(),
{
    if keys.len() == 0 {
        Some(Seq::empty())
    } else {
        match contribution_edits_of(keys.drop_last(), before, after, answers) {
            None => None,
            Some(prefix) => {
                let key = keys.last();
                match contribution_outcome(bound_in(answers, key), bound_in(before, key), bound_in(after, key)) {
                    ContributionOutcome::Unchanged => Some(prefix),
                    ContributionOutcome::Changed(observed, candidate) => Some(
                        prefix.push(DerivedValueEdit { key, before: observed, after: candidate }),
                    ),
                    _ => None,
                }
            },
        }
    }
}

/// A key refused in a prefix of the keys refuses the whole sequence.
proof fn lemma_contribution_refusal_persists<K, V>(
    keys: Seq<K>,
    before: Seq<(K, V)>,
    after: Seq<(K, V)>,
    answers: Seq<(K, V)>,
    i: int,
)
    requires
        0 <= i <= keys.len(),
        contribution_edits_of(keys.take(i), before, after, answers) is None,
    ensures
        contribution_edits_of(keys, before, after, answers) is None,
    decreases keys.len(),
{
    if i == keys.len() {
        assert(keys.take(i) =~= keys);
    } else {
        assert(keys.drop_last().take(i) =~= keys.take(i));
        lemma_contribution_refusal_persists(keys.drop_last(), before, after, answers, i);
    }
}

/// The keys of a run of edits, in order.
pub open spec fn edit_keys<K, V>(edits: Seq<DerivedValueEdit<K, V>>) -> Seq<K> {
    edits.map_values(|edit: DerivedValueEdit<K, V>| edit.key)
}

/// Edits taken key by key over increasing keys come out in increasing key order, each under
/// one of the keys.
pub proof fn lemma_edits_in_key_order<K: KeyOrder, V>(
    keys: Seq<K>,
    before: Seq<(K, V)>,
    after: Seq<(K, V)>,
    answers: Seq<(K, V)>,
)
    requires
        increasing(keys),
        contribution_edits_of(keys, before, after, answers) is Some,
    ensures
        increasing(edit_keys(contribution_edits_of(keys, before, after, answers)->0)),
        forall|k: int| 0 <= k < contribution_edits_of(keys, before, after, answers)->0.len()
            ==> keys.contains(#[trigger] contribution_edits_of(keys, before, after, answers)->0[k].key),
    decreases keys.len(),
{
    if keys.len() > 0 {
        let shorter = keys.drop_last();
        assert(increasing(shorter)) by {
            assert forall|a: int, b: int| 0 <= a < b < shorter.len() implies (#[trigger] shorter[a]).key_less(#[trigger] shorter[b]) by {
                assert(keys[a].key_less(keys[b]));
            }
        }
        lemma_edits_in_key_order(shorter, before, after, answers);
        let prefix = contribution_edits_of(shorter, before, after, answers)->0;
        let edits = contribution_edits_of(keys, before, after, answers)->0;
        let last = keys.last();
        assert forall|k: int| 0 <= k < prefix.len() implies (#[trigger] prefix[k]).key.key_less(last) by {
            assert(shorter.contains(prefix[k].key));
            let m = choose|m: int| 0 <= m < shorter.len() && shorter[m] == prefix[k].key;
            assert(keys[m].key_less(keys[keys.len() - 1]));
        }
        assert forall|a: int, b: int| 0 <= a < b < edits.len() implies (#[trigger] edit_keys(edits)[a]).key_less(#[trigger] edit_keys(edits)[b]) by {
            if b < prefix.len() {
                assert(edits[a] == prefix[a] && edits[b] == prefix[b]);
                assert(edit_keys(prefix)[a].key_less(edit_keys(prefix)[b]));
            } else {
                assert(edits[a] == prefix[a]);
                assert(edits[b].key == last);
            }
        }
        assert forall|k: int| 0 <= k < edits.len() implies keys.contains(#[trigger] edits[k].key) by {
            if k < prefix.len() {
                assert(edits[k] == prefix[k]);
                assert(shorter.contains(prefix[k].key));
                let m = choose|m: int| 0 <= m < shorter.len() && shorter[m] == prefix[k].key;
                assert(keys[m] == prefix[k].key);
            } else {
                assert(keys[keys.len() - 1] == edits[k].key);
            }
        }
    }
}

/// The refusal of a key whose base contribution the witness does not hold.
fn base_disagreement(label: &str) -> (r: Diagnostic)
    ensures
        r.class == DiagnosticClass::Corrupt,
        r.code@ == "change_derived_before"@,
{
    Diagnostic::new(DiagnosticClass::Corrupt, "change_derived_before", static_message(label))
}

/// The refusal of a key whose candidate contribution collides with the witness.
fn candidate_collision(label: &str) -> (r: Diagnostic)
    ensures
        r.class == DiagnosticClass::Semantic,
        r.code@ == "change_derived_collision"@,
{
    Diagnostic::new(DiagnosticClass::Semantic, "change_derived_collision", static_message(label))
}

/// The namespace edits of the base and candidate namespace contributions of the changed owners.
pub fn namespace_edits<W: WitnessBaseRead>(
    before: &Vec<(NamespaceKey, OwnerKey)>,
    after: &Vec<(NamespaceKey, OwnerKey)>,
    cache: &mut CachedWitness,
    base: &mut W,
) -> (r: Result<Vec<DerivedValueEdit<NamespaceKey, OwnerKey>>, Diagnostic>)
    requires
        old(cache).agrees_with(old(base).evidence()),
    ensures
        final(base).evidence() == old(base).evidence(),
        final(cache).agrees_with(final(base).evidence()),
        r matches Ok(edits) ==> contribution_edits_of(
            contribution_key_order(before@, after@),
            before@,
            after@,
            old(base).evidence().namespaces,
        ) == Some(edits@),
        final(base).witness_reads_are_total() == old(base).witness_reads_are_total(),
        old(base).witness_reads_are_total() ==> (r is Ok <==> contribution_edits_of(
            contribution_key_order(before@, after@),
            before@,
            after@,
            old(base).evidence().namespaces,
        ) is Some),
        r matches Err(d) ==> old(base).read_refusal(d) || contribution_edits_of(
            contribution_key_order(before@, after@),
            before@,
            after@,
            old(base).evidence().namespaces,
        ) is None,
        forall|e: Diagnostic| #[trigger] final(base).read_refusal(e) == old(base).read_refusal(e),
        r matches Ok(edits) ==> increasing(edit_keys(edits@)),
{
    let keys = contribution_keys(before, after);
    let ghost answers = base.evidence().namespaces;
    let mut edits: Vec<DerivedValueEdit<NamespaceKey, OwnerKey>> = Vec::new();
    let mut i: usize = 0;
    while i < keys.len()
        invariant
            i <= keys@.len(),
            base.evidence() == old(base).evidence(),
            answers == old(base).evidence().namespaces,
            base.witness_reads_are_total() == old(base).witness_reads_are_total(),
            forall|e: Diagnostic| #[trigger] base.read_refusal(e) == old(base).read_refusal(e),
            keys@ == contribution_key_order(before@, after@),
            cache.agrees_with(base.evidence()),
            contribution_edits_of(keys@.take(i as int), before@, after@, answers) == Some(edits@),
        decreases keys@.len() - i,
    {
        let key = keys[i];
        proof {
            assert(keys@.take(i + 1).drop_last() =~= keys@.take(i as int));
        }
        let observed = cache.namespace(base, key)?;
        match decide_contribution(observed, bound_value(before, key), bound_value(after, key)) {
            ContributionOutcome::Unchanged => {},
            ContributionOutcome::Changed(was, becomes) => {
                edits.push(DerivedValueEdit { key, before: was, after: becomes });
            },
            ContributionOutcome::BaseDisagrees => {
                proof {
                    lemma_contribution_refusal_persists(keys@, before@, after@, answers, i + 1);
                }
                return Err(base_disagreement("the base namespace witness disagrees with the base records"));
            },
            ContributionOutcome::CandidatesCollide => {
                proof {
                    lemma_contribution_refusal_persists(keys@, before@, after@, answers, i + 1);
                }
                return Err(candidate_collision("a candidate namespace collides with the witness"));
            },
        }
        i = i + 1;
    }
    assert(keys@.take(keys@.len() as int) =~= keys@);
    proof {
        lemma_edits_in_key_order(keys@, before@, after@, answers);
    }
    Ok(edits)
}

/// The ownership edits of the base and candidate ownership contributions of the changed owners.
pub fn ownership_edits<W: WitnessBaseRead>(
    before: &Vec<(OwnerKey, OwnershipEntry)>,
    after: &Vec<(OwnerKey, OwnershipEntry)>,
    cache: &mut CachedWitness,
    base: &mut W,
) -> (r: Result<Vec<DerivedValueEdit<OwnerKey, OwnershipEntry>>, Diagnostic>)
    requires
        old(cache).agrees_with(old(base).evidence()),
    ensures
        final(base).evidence() == old(base).evidence(),
        final(cache).agrees_with(final(base).evidence()),
        r matches Ok(edits) ==> contribution_edits_of(
            contribution_key_order(before@, after@),
            before@,
            after@,
            old(base).evidence().ownership,
        ) == Some(edits@),
        final(base).witness_reads_are_total() == old(base).witness_reads_are_total(),
        old(base).witness_reads_are_total() ==> (r is Ok <==> contribution_edits_of(
            contribution_key_order(before@, after@),
            before@,
            after@,
            old(base).evidence().ownership,
        ) is Some),
        r matches Err(d) ==> old(base).read_refusal(d) || contribution_edits_of(
            contribution_key_order(before@, after@),
            before@,
            after@,
            old(base).evidence().ownership,
        ) is None,
        forall|e: Diagnostic| #[trigger] final(base).read_refusal(e) == old(base).read_refusal(e),
        r matches Ok(edits) ==> increasing(edit_keys(edits@)),
{
    let keys = contribution_keys(before, after);
    let ghost answers = base.evidence().ownership;
    let mut edits: Vec<DerivedValueEdit<OwnerKey, OwnershipEntry>> = Vec::new();
    let mut i: usize = 0;
    while i < keys.len()
        invariant
            i <= keys@.len(),
            base.evidence() == old(base).evidence(),
            answers == old(base).evidence().ownership,
            base.witness_reads_are_total() == old(base).witness_reads_are_total(),
            forall|e: Diagnostic| #[trigger] base.read_refusal(e) == old(base).read_refusal(e),
            keys@ == contribution_key_order(before@, after@),
            cache.agrees_with(base.evidence()),
            contribution_edits_of(keys@.take(i as int), before@, after@, answers) == Some(edits@),
        decreases keys@.len() - i,
    {
        let key = keys[i];
        proof {
            assert(keys@.take(i + 1).drop_last() =~= keys@.take(i as int));
        }
        let observed = cache.ownership(base, key)?;
        match decide_contribution(observed, bound_value(before, key), bound_value(after, key)) {
            ContributionOutcome::Unchanged => {},
            ContributionOutcome::Changed(was, becomes) => {
                edits.push(DerivedValueEdit { key, before: was, after: becomes });
            },
            ContributionOutcome::BaseDisagrees => {
                proof {
                    lemma_contribution_refusal_persists(keys@, before@, after@, answers, i + 1);
                }
                return Err(base_disagreement("the base ownership witness disagrees with the base records"));
            },
            ContributionOutcome::CandidatesCollide => {
                proof {
                    lemma_contribution_refusal_persists(keys@, before@, after@, answers, i + 1);
                }
                return Err(candidate_collision("a candidate ownership entry collides with the witness"));
            },
        }
        i = i + 1;
    }
    assert(keys@.take(keys@.len() as int) =~= keys@);
    proof {
        lemma_edits_in_key_order(keys@, before@, after@, answers);
    }
    Ok(edits)
}

/// What one owner record contributes to the derived witness: the namespace it claims, the
/// ownership entries it binds, and the relations it states.
#[derive(Clone, Debug)]
pub struct RecordContribution {
    pub namespace: Option<NamespaceKey>,
    pub ownership: Vec<(OwnerKey, OwnershipEntry)>,
    pub relations: Vec<RelationEdge>,
}

/// What one changed owner's base and candidate records contribute.
#[derive(Clone, Debug)]
pub struct OwnerContribution {
    pub owner: OwnerKey,
    pub before: Option<RecordContribution>,
    pub after: Option<RecordContribution>,
}

/// Contribution maps as they accumulate: namespace and ownership bindings without repeated keys,
/// and relations without repeats.
pub struct ContributionMaps {
    pub namespaces: Seq<(NamespaceKey, OwnerKey)>,
    pub ownership: Seq<(OwnerKey, OwnershipEntry)>,
    pub relations: Seq<RelationEdge>,
}

/// No contribution at all.
pub open spec fn no_contributions() -> ContributionMaps {
    ContributionMaps { namespaces: Seq::empty(), ownership: Seq::empty(), relations: Seq::empty() }
}

/// `edges` with `edge` added unless it is there.
pub open spec fn with_edge(edges: Seq<RelationEdge>, edge: RelationEdge) -> Seq<RelationEdge> {
    if edges.contains(edge) { edges } else { edges.push(edge) }
}

/// `edges` with every edge of `more` added in turn.
pub open spec fn with_edges(edges: Seq<RelationEdge>, more: Seq<RelationEdge>) -> Seq<RelationEdge>
    decreases more.len(),
{
    if more.len() == 0 {
        edges
    } else {
        with_edge(with_edges(edges, more.drop_last()), more.last())
    }
}

/// `entries` with every binding of `more` added in turn; `None` where a key is bound twice.
pub open spec fn with_bindings(entries: Seq<(OwnerKey, OwnershipEntry)>, more: Seq<(OwnerKey, OwnershipEntry)>) -> Option<Seq<(OwnerKey, OwnershipEntry)>>
    decreases more.len(),
{
    if more.len() == 0 {
        Some(entries)
    } else {
        match with_bindings(entries, more.drop_last()) {
            None => None,
            Some(prefix) => if bound_in(prefix, more.last().0) is Some {
                None
            } else {
                Some(prefix.push(more.last()))
            },
        }
    }
}

/// `maps` with what `owner`'s record contributes, or the code of the refusal of a key claimed twice.
pub open spec fn contribute(maps: ContributionMaps, owner: OwnerKey, record: RecordContribution) -> Result<ContributionMaps, Seq<char>> {
    let namespaces = match record.namespace {
        Some(key) => if bound_in(maps.namespaces, key) is Some { None } else { Some(maps.namespaces.push((key, owner))) },
        None => Some(maps.namespaces),
    };
    match namespaces {
        None => Err("change_namespace_candidate_duplicate"@),
        Some(namespaces) => match with_bindings(maps.ownership, record.ownership@) {
            None => Err("change_ownership_candidate_duplicate"@),
            Some(ownership) => Ok(ContributionMaps {
                namespaces,
                ownership,
                relations: with_edges(maps.relations, record.relations@),
            }),
        },
    }
}

/// The base and candidate contribution maps of `changes`, each change's base record first; or
/// the code of the first refusal.
pub open spec fn contributions_of(changes: Seq<OwnerContribution>) -> Result<(ContributionMaps, ContributionMaps), Seq<char>>
    decreases changes.len(),
{
    if changes.len() == 0 {
        Ok((no_contributions(), no_contributions()))
    } else {
        match contributions_of(changes.drop_last()) {
            Err(code) => Err(code),
            Ok((before, after)) => {
                let change = changes.last();
                let before = match change.before {
                    Some(record) => contribute(before, change.owner, record),
                    None => Ok(before),
                };
                match before {
                    Err(code) => Err(code),
                    Ok(before) => match change.after {
                        Some(record) => match contribute(after, change.owner, record) {
                            Err(code) => Err(code),
                            Ok(after) => Ok((before, after)),
                        },
                        None => Ok((before, after)),
                    },
                }
            },
        }
    }
}

/// Contribution maps held as they accumulate.
pub struct ContributionSets {
    pub namespaces: Vec<(NamespaceKey, OwnerKey)>,
    pub ownership: Vec<(OwnerKey, OwnershipEntry)>,
    pub relations: Vec<RelationEdge>,
}

impl ContributionSets {
    /// The maps held.
    pub open spec fn maps(&self) -> ContributionMaps {
        ContributionMaps { namespaces: self.namespaces@, ownership: self.ownership@, relations: self.relations@ }
    }

    /// Empty maps.
    pub fn new() -> (r: Self)
        ensures
            r.maps() == no_contributions(),
    {
        ContributionSets { namespaces: Vec::new(), ownership: Vec::new(), relations: Vec::new() }
    }
}

/// Adds `edge` to `edges` unless it is there.
fn add_edge(edges: &mut Vec<RelationEdge>, edge: RelationEdge)
    ensures
        final(edges)@ == with_edge(old(edges)@, edge),
{
    if !contains_edge(edges, edge) {
        edges.push(edge);
    }
}

/// Adds what `owner`'s record contributes, refusing a namespace or ownership key claimed twice.
fn add_contribution(sets: &mut ContributionSets, owner: OwnerKey, record: &RecordContribution) -> (r: Result<(), Diagnostic>)
    ensures
        r is Ok ==> contribute(old(sets).maps(), owner, *record) == Ok::<ContributionMaps, Seq<char>>(final(sets).maps()),
        r matches Err(d) ==> d.class == DiagnosticClass::Semantic
            && contribute(old(sets).maps(), owner, *record) == Err::<ContributionMaps, Seq<char>>(d.code@),
{
    if let Some(key) = record.namespace {
        if bound_value(&sets.namespaces, key).is_some() {
            return Err(Diagnostic::new(
                DiagnosticClass::Semantic,
                "change_namespace_candidate_duplicate",
                static_message("two changed owners select the same namespace"),
            ));
        }
        sets.namespaces.push((key, owner));
    }
    let ghost namespaces = sets.namespaces@;
    let mut i: usize = 0;
    while i < record.ownership.len()
        invariant
            i <= record.ownership@.len(),
            sets.namespaces@ == namespaces,
            match record.namespace {
                Some(key) => bound_in(old(sets).namespaces@, key) is None && namespaces == old(sets).namespaces@.push((key, owner)),
                None => namespaces == old(sets).namespaces@,
            },
            with_bindings(old(sets).ownership@, record.ownership@.take(i as int)) == Some(sets.ownership@),
            sets.relations@ == old(sets).relations@,
        decreases record.ownership@.len() - i,
    {
        let binding = record.ownership[i];
        proof {
            assert(record.ownership@.take(i + 1).drop_last() =~= record.ownership@.take(i as int));
        }
        if bound_value(&sets.ownership, binding.0).is_some() {
            proof {
                lemma_bindings_refusal_persists(old(sets).ownership@, record.ownership@, i + 1);
            }
            return Err(Diagnostic::new(
                DiagnosticClass::Semantic,
                "change_ownership_candidate_duplicate",
                static_message("an owner receives two candidate parents"),
            ));
        }
        sets.ownership.push(binding);
        i = i + 1;
    }
    assert(record.ownership@.take(record.ownership@.len() as int) =~= record.ownership@);
    let mut j: usize = 0;
    while j < record.relations.len()
        invariant
            j <= record.relations@.len(),
            sets.namespaces@ == namespaces,
            match record.namespace {
                Some(key) => bound_in(old(sets).namespaces@, key) is None && namespaces == old(sets).namespaces@.push((key, owner)),
                None => namespaces == old(sets).namespaces@,
            },
            with_bindings(old(sets).ownership@, record.ownership@) == Some(sets.ownership@),
            sets.relations@ == with_edges(old(sets).relations@, record.relations@.take(j as int)),
        decreases record.relations@.len() - j,
    {
        proof {
            assert(record.relations@.take(j + 1).drop_last() =~= record.relations@.take(j as int));
        }
        add_edge(&mut sets.relations, record.relations[j]);
        j = j + 1;
    }
    assert(record.relations@.take(record.relations@.len() as int) =~= record.relations@);
    Ok(())
}

/// Once a binding is refused, every longer run of bindings is refused too.
proof fn lemma_bindings_refusal_persists(entries: Seq<(OwnerKey, OwnershipEntry)>, more: Seq<(OwnerKey, OwnershipEntry)>, k: int)
    requires
        0 <= k <= more.len(),
        with_bindings(entries, more.take(k)) is None,
    ensures
        with_bindings(entries, more) is None,
    decreases more.len() - k,
{
    if k < more.len() {
        assert(more.take(k + 1).drop_last() =~= more.take(k));
        lemma_bindings_refusal_persists(entries, more, k + 1);
    } else {
        assert(more.take(k) =~= more);
    }
}

/// The owner whose summary the summary of an owner with ownership `entry` is part of.
pub open spec fn aggregation_parent(entry: Option<OwnershipEntry>) -> Option<OwnerKey> {
    match entry {
        Some(found) => if found.role.spec_aggregates_into_parent() {
            match found.parent {
                OwnershipParent::Owner(parent) => Some(parent),
                OwnershipParent::Package => None,
            }
        } else {
            None
        },
        None => None,
    }
}

/// The key and candidate value of each derived ownership edit.
pub open spec fn candidate_bindings(edits: Seq<DerivedValueEdit<OwnerKey, OwnershipEntry>>) -> Seq<(OwnerKey, Option<OwnershipEntry>)> {
    edits.map_values(|edit: DerivedValueEdit<OwnerKey, OwnershipEntry>| (edit.key, edit.after))
}

/// The ownership of `owner`: in the base witness, or, where `candidate`, after the derived edits.
pub open spec fn ownership_at(
    candidate: bool,
    edits: Seq<DerivedValueEdit<OwnerKey, OwnershipEntry>>,
    base: Seq<(OwnerKey, OwnershipEntry)>,
    owner: OwnerKey,
) -> Option<OwnershipEntry> {
    if candidate {
        match bound_in(candidate_bindings(edits), owner) {
            Some(after) => after,
            None => bound_in(base, owner),
        }
    } else {
        bound_in(base, owner)
    }
}

/// Whether `path` is the walk from `start` up the aggregating ownership: each owner's summary is
/// part of the next one's, and the last one's is part of no owner's.
pub open spec fn is_walk(
    path: Seq<OwnerKey>,
    start: OwnerKey,
    candidate: bool,
    edits: Seq<DerivedValueEdit<OwnerKey, OwnershipEntry>>,
    base: Seq<(OwnerKey, OwnershipEntry)>,
) -> bool {
    &&& path.len() > 0
    &&& path[0] == start
    &&& forall|k: int| 0 <= k < path.len() - 1
        ==> aggregation_parent(ownership_at(candidate, edits, base, #[trigger] path[k])) == Some(path[k + 1])
    &&& aggregation_parent(ownership_at(candidate, edits, base, path.last())) is None
}

/// Whether `owner` is on the walk from `start`.
pub open spec fn on_walk(
    start: OwnerKey,
    owner: OwnerKey,
    candidate: bool,
    edits: Seq<DerivedValueEdit<OwnerKey, OwnershipEntry>>,
    base: Seq<(OwnerKey, OwnershipEntry)>,
) -> bool {
    exists|path: Seq<OwnerKey>| #[trigger] is_walk(path, start, candidate, edits, base) && path.contains(owner)
}

/// A walk is determined by where it starts.
pub proof fn lemma_walk_unique(
    p: Seq<OwnerKey>,
    q: Seq<OwnerKey>,
    start: OwnerKey,
    candidate: bool,
    edits: Seq<DerivedValueEdit<OwnerKey, OwnershipEntry>>,
    base: Seq<(OwnerKey, OwnershipEntry)>,
)
    requires
        is_walk(p, start, candidate, edits, base),
        is_walk(q, start, candidate, edits, base),
    ensures
        p == q,
{
    let n = if p.len() <= q.len() { p.len() } else { q.len() };
    assert forall|k: int| 0 <= k < n implies p[k] == q[k] by {
        lemma_walk_prefix_agrees(p, q, start, candidate, edits, base, k);
    }
    if p.len() < q.len() {
        assert(p[p.len() - 1] == q[p.len() - 1]);
        assert(aggregation_parent(ownership_at(candidate, edits, base, q[p.len() - 1])) == Some(q[p.len() as int]));
    } else if q.len() < p.len() {
        assert(p[q.len() - 1] == q[q.len() - 1]);
        assert(aggregation_parent(ownership_at(candidate, edits, base, p[q.len() - 1])) == Some(p[q.len() as int]));
    }
    assert(p =~= q);
}

/// Whether some walk runs from `start`.
#[verifier::opaque]
pub open spec fn walk_exists(
    start: OwnerKey,
    candidate: bool,
    edits: Seq<DerivedValueEdit<OwnerKey, OwnershipEntry>>,
    base: Seq<(OwnerKey, OwnershipEntry)>,
) -> bool {
    exists|path: Seq<OwnerKey>| #[trigger] is_walk(path, start, candidate, edits, base)
}

/// Whether `observed` is the part of `path` walked so far and `current` the owner it stands at.
pub open spec fn walk_prefix(path: Seq<OwnerKey>, observed: Seq<OwnerKey>, current: OwnerKey) -> bool {
    &&& observed.len() < path.len()
    &&& observed == path.take(observed.len() as int)
    &&& current == path[observed.len() as int]
}

/// Whether `path` is the walk from `start` and `observed`, then `current`, the part walked so far.
#[verifier::opaque]
pub open spec fn on_the_walk(
    path: Seq<OwnerKey>,
    start: OwnerKey,
    candidate: bool,
    edits: Seq<DerivedValueEdit<OwnerKey, OwnershipEntry>>,
    base: Seq<(OwnerKey, OwnershipEntry)>,
    observed: Seq<OwnerKey>,
    current: OwnerKey,
) -> bool {
    &&& is_walk(path, start, candidate, edits, base)
    &&& path.no_duplicates()
    &&& walk_prefix(path, observed, current)
}

/// The walk from `start` begins at `start`.
pub proof fn lemma_on_the_walk_start(
    path: Seq<OwnerKey>,
    start: OwnerKey,
    candidate: bool,
    edits: Seq<DerivedValueEdit<OwnerKey, OwnershipEntry>>,
    base: Seq<(OwnerKey, OwnershipEntry)>,
)
    requires
        is_walk(path, start, candidate, edits, base),
    ensures
        on_the_walk(path, start, candidate, edits, base, Seq::empty(), start),
{
    reveal(on_the_walk);
    lemma_walk_distinct(path, start, candidate, edits, base);
    assert(path.take(0) =~= Seq::<OwnerKey>::empty());
}

/// Walking one more step along a walk: the owner stood at is new, and its aggregating parent is
/// the next owner of the walk.
pub proof fn lemma_walk_prefix_step(
    path: Seq<OwnerKey>,
    start: OwnerKey,
    candidate: bool,
    edits: Seq<DerivedValueEdit<OwnerKey, OwnershipEntry>>,
    base: Seq<(OwnerKey, OwnershipEntry)>,
    observed: Seq<OwnerKey>,
    current: OwnerKey,
)
    requires
        on_the_walk(path, start, candidate, edits, base, observed, current),
    ensures
        !observed.contains(current),
        aggregation_parent(ownership_at(candidate, edits, base, current)) matches Some(parent)
            ==> on_the_walk(path, start, candidate, edits, base, observed.push(current), parent),
{
    reveal(on_the_walk);
    let n = observed.len() as int;
    assert forall|k: int| 0 <= k < n implies observed[k] != current by {
        assert(observed[k] == path[k]);
    }
    assert(observed.push(current) =~= path.take(n + 1));
    if let Some(parent) = aggregation_parent(ownership_at(candidate, edits, base, current)) {
        if n + 1 >= path.len() {
            assert(path.last() == path[n]);
        }
        assert(aggregation_parent(ownership_at(candidate, edits, base, path[n])) == Some(path[n + 1]));
    }
}

/// Two positions of a walk that hold one owner hold one owner any equal distance further on.
proof fn lemma_walk_shift(
    path: Seq<OwnerKey>,
    start: OwnerKey,
    candidate: bool,
    edits: Seq<DerivedValueEdit<OwnerKey, OwnershipEntry>>,
    base: Seq<(OwnerKey, OwnershipEntry)>,
    a: int,
    b: int,
    m: int,
)
    requires
        is_walk(path, start, candidate, edits, base),
        0 <= a < b,
        0 <= m,
        b + m < path.len(),
        path[a] == path[b],
    ensures
        path[a + m] == path[b + m],
    decreases m,
{
    if m > 0 {
        lemma_walk_shift(path, start, candidate, edits, base, a, b, m - 1);
        assert(aggregation_parent(ownership_at(candidate, edits, base, path[a + m - 1])) == Some(path[a + m]));
        assert(aggregation_parent(ownership_at(candidate, edits, base, path[b + m - 1])) == Some(path[b + m]));
    }
}

/// A walk never comes back to an owner it has passed.
pub proof fn lemma_walk_distinct(
    path: Seq<OwnerKey>,
    start: OwnerKey,
    candidate: bool,
    edits: Seq<DerivedValueEdit<OwnerKey, OwnershipEntry>>,
    base: Seq<(OwnerKey, OwnershipEntry)>,
)
    requires
        is_walk(path, start, candidate, edits, base),
    ensures
        path.no_duplicates(),
{
    assert forall|i: int, j: int| 0 <= i < path.len() && 0 <= j < path.len() && i != j implies path[i] != path[j] by {
        if path[i] == path[j] {
            let a = if i < j { i } else { j };
            let b = if i < j { j } else { i };
            let m = path.len() - 1 - b;
            lemma_walk_shift(path, start, candidate, edits, base, a, b, m);
            assert(aggregation_parent(ownership_at(candidate, edits, base, path[a + m])) == Some(path[a + m + 1]));
        }
    }
}

/// Two walks from one start agree at each position both reach.
proof fn lemma_walk_prefix_agrees(
    p: Seq<OwnerKey>,
    q: Seq<OwnerKey>,
    start: OwnerKey,
    candidate: bool,
    edits: Seq<DerivedValueEdit<OwnerKey, OwnershipEntry>>,
    base: Seq<(OwnerKey, OwnershipEntry)>,
    k: int,
)
    requires
        is_walk(p, start, candidate, edits, base),
        is_walk(q, start, candidate, edits, base),
        0 <= k < p.len(),
        k < q.len(),
    ensures
        p[k] == q[k],
    decreases k,
{
    if k > 0 {
        lemma_walk_prefix_agrees(p, q, start, candidate, edits, base, k - 1);
        assert(aggregation_parent(ownership_at(candidate, edits, base, p[k - 1])) == Some(p[k]));
        assert(aggregation_parent(ownership_at(candidate, edits, base, q[k - 1])) == Some(q[k]));
    }
}

/// The owner a walk reaches from an owner with ownership `entry`, or `otherwise`.
pub open spec fn parent_or(entry: Option<OwnershipEntry>, otherwise: OwnerKey) -> OwnerKey {
    match aggregation_parent(entry) {
        Some(parent) => parent,
        None => otherwise,
    }
}

/// Every owner a walk from `start` can reach: `start` and each parent an entry names.
pub open spec fn walk_universe(
    start: OwnerKey,
    edits: Seq<DerivedValueEdit<OwnerKey, OwnershipEntry>>,
    base: Seq<(OwnerKey, OwnershipEntry)>,
) -> Seq<OwnerKey> {
    seq![start]
        + base.map_values(|entry: (OwnerKey, OwnershipEntry)| parent_or(Some(entry.1), start))
        + edits.map_values(|edit: DerivedValueEdit<OwnerKey, OwnershipEntry>| parent_or(edit.after, start))
}

/// The owner a walk steps to is among those it can reach.
proof fn lemma_parent_in_universe(
    start: OwnerKey,
    candidate: bool,
    edits: Seq<DerivedValueEdit<OwnerKey, OwnershipEntry>>,
    base: Seq<(OwnerKey, OwnershipEntry)>,
    owner: OwnerKey,
)
    ensures
        aggregation_parent(ownership_at(candidate, edits, base, owner)) matches Some(parent)
            ==> walk_universe(start, edits, base).contains(parent),
{
    let universe = walk_universe(start, edits, base);
    let bindings = candidate_bindings(edits);
    lemma_bound_in_found(base, owner);
    lemma_bound_in_found(bindings, owner);
    if let Some(parent) = aggregation_parent(ownership_at(candidate, edits, base, owner)) {
        if candidate && bound_in(bindings, owner) is Some {
            let j = choose|j: int| 0 <= j < bindings.len() && bindings[j] == (owner, bound_in(bindings, owner)->0);
            assert(bindings[j] == (edits[j].key, edits[j].after));
            assert(universe[1 + base.len() + j] == parent_or(edits[j].after, start));
        } else {
            let entry = bound_in(base, owner)->0;
            let j = choose|j: int| 0 <= j < base.len() && base[j] == (owner, entry);
            assert(universe[1 + j] == parent_or(Some(base[j].1), start));
        }
    }
}

/// A sequence without repeats inside another is no longer than it.
proof fn lemma_distinct_within(inner: Seq<OwnerKey>, outer: Seq<OwnerKey>)
    requires
        inner.no_duplicates(),
        forall|x: OwnerKey| inner.contains(x) ==> #[trigger] outer.contains(x),
    ensures
        inner.len() <= outer.len(),
{
    inner.unique_seq_to_set();
    outer.lemma_cardinality_of_set();
    assert(inner.to_set().subset_of(outer.to_set()));
    vstd::set_lib::lemma_len_subset(inner.to_set(), outer.to_set());
}

/// Counting one more step of a saturating count.
proof fn lemma_sat_add_one(a: u64, n: nat)
    requires
        n + 1 <= u64::MAX,
    ensures
        sat_add(a, (n + 1) as u64) == sat_add(sat_add(a, n as u64), 1),
{
}

/// The ownership of `owner` a walk steps by: in the base witness, or, where `candidate`, after
/// the derived `edits`.
fn walk_entry<W: WitnessBaseRead>(
    candidate: bool,
    edits: &Vec<DerivedValueEdit<OwnerKey, OwnershipEntry>>,
    bindings: &Vec<(OwnerKey, Option<OwnershipEntry>)>,
    cache: &mut CachedWitness,
    base: &mut W,
    owner: OwnerKey,
) -> (r: Result<Option<OwnershipEntry>, Diagnostic>)
    requires
        bindings@ == candidate_bindings(edits@),
        old(cache).agrees_with(old(base).evidence()),
    ensures
        final(base).evidence() == old(base).evidence(),
        final(cache).agrees_with(final(base).evidence()),
        final(base).witness_reads_are_total() == old(base).witness_reads_are_total(),
        r matches Ok(entry) ==> entry == ownership_at(candidate, edits@, old(base).evidence().ownership, owner),
        old(base).witness_reads_are_total() ==> r is Ok,
        r matches Err(d) ==> old(base).read_refusal(d),
        forall|e: Diagnostic| #[trigger] final(base).read_refusal(e) == old(base).read_refusal(e),
{
    if candidate {
        match bound_value(bindings, owner) {
            Some(after) => Ok(after),
            None => cache.ownership(base, owner),
        }
    } else {
        cache.ownership(base, owner)
    }
}

/// Walks up the aggregating ownership from `seed`, in the base witness or, where `candidate`,
/// after the derived `edits`, adding every owner it reaches to `affected`. A walk that comes back
/// to an owner would never end; it is refused.
#[verifier::rlimit(100)]
#[verifier::spinoff_prover]
fn walk_summary_ancestors<W: WitnessBaseRead>(
    seed: OwnerKey,
    candidate: bool,
    edits: &Vec<DerivedValueEdit<OwnerKey, OwnershipEntry>>,
    bindings: &Vec<(OwnerKey, Option<OwnershipEntry>)>,
    cache: &mut CachedWitness,
    base: &mut W,
    affected: &mut Vec<OwnerKey>,
    steps: &mut u64,
) -> (r: Result<Ghost<Seq<OwnerKey>>, Diagnostic>)
    requires
        bindings@ == candidate_bindings(edits@),
        old(cache).agrees_with(old(base).evidence()),
    ensures
        final(base).evidence() == old(base).evidence(),
        final(cache).agrees_with(final(base).evidence()),
        old(affected)@.no_duplicates() ==> final(affected)@.no_duplicates(),
        forall|x: OwnerKey| old(affected)@.contains(x) ==> #[trigger] final(affected)@.contains(x),
        r matches Ok(path) ==> is_walk(path@, seed, candidate, edits@, old(base).evidence().ownership)
            && (forall|x: OwnerKey| #[trigger] final(affected)@.contains(x) <==> old(affected)@.contains(x) || path@.contains(x))
            && *final(steps) == sat_add(*old(steps), path@.len() as u64),
        final(base).witness_reads_are_total() == old(base).witness_reads_are_total(),
        forall|path: Seq<OwnerKey>| #[trigger] is_walk(path, seed, candidate, edits@, old(base).evidence().ownership)
            && old(base).witness_reads_are_total() ==> r is Ok,
        r matches Err(d) ==> old(base).read_refusal(d) || !walk_exists(seed, candidate, edits@, old(base).evidence().ownership),
        forall|e: Diagnostic| #[trigger] final(base).read_refusal(e) == old(base).read_refusal(e),
{
    let ghost ownership = base.evidence().ownership;
    let ghost universe = walk_universe(seed, edits@, ownership);
    let ghost total = base.witness_reads_are_total();
    let ghost fits = walk_exists(seed, candidate, edits@, ownership);
    let ghost path: Seq<OwnerKey> = if fits {
        choose|path: Seq<OwnerKey>| #[trigger] is_walk(path, seed, candidate, edits@, ownership)
    } else {
        Seq::empty()
    };
    proof {
        if fits {
            reveal(walk_exists);
            lemma_on_the_walk_start(path, seed, candidate, edits@, ownership);
        }
    }
    let mut current = seed;
    let mut observed: Vec<OwnerKey> = Vec::new();
    assert(universe[0] == seed);
    loop
        invariant_except_break
            observed@.len() > 0 ==> aggregation_parent(ownership_at(candidate, edits@, ownership, observed@.last())) == Some(current),
            fits ==> on_the_walk(path, seed, candidate, edits@, ownership, observed@, current),
        invariant
            base.witness_reads_are_total() == total,
            total == old(base).witness_reads_are_total(),
            fits == walk_exists(seed, candidate, edits@, ownership),
            forall|e: Diagnostic| #[trigger] base.read_refusal(e) == old(base).read_refusal(e),
            bindings@ == candidate_bindings(edits@),
            base.evidence() == old(base).evidence(),
            ownership == old(base).evidence().ownership,
            universe == walk_universe(seed, edits@, ownership),
            cache.agrees_with(base.evidence()),
            observed@.no_duplicates(),
            forall|x: OwnerKey| observed@.contains(x) ==> #[trigger] universe.contains(x),
            universe.contains(current),
            observed@.len() == 0 ==> current == seed,
            observed@.len() > 0 ==> observed@[0] == seed,
            forall|k: int| 0 <= k < observed@.len() - 1
                ==> aggregation_parent(ownership_at(candidate, edits@, ownership, #[trigger] observed@[k])) == Some(observed@[k + 1]),
            old(affected)@.no_duplicates() ==> affected@.no_duplicates(),
            forall|x: OwnerKey| #[trigger] affected@.contains(x) <==> old(affected)@.contains(x) || observed@.contains(x),
            *steps == sat_add(*old(steps), observed@.len() as u64),
        ensures
            base.evidence() == old(base).evidence(),
            cache.agrees_with(base.evidence()),
            old(affected)@.no_duplicates() ==> affected@.no_duplicates(),
            forall|x: OwnerKey| old(affected)@.contains(x) ==> #[trigger] affected@.contains(x),
            is_walk(observed@, seed, candidate, edits@, ownership),
            forall|x: OwnerKey| #[trigger] affected@.contains(x) <==> old(affected)@.contains(x) || observed@.contains(x),
            *steps == sat_add(*old(steps), observed@.len() as u64),
            base.witness_reads_are_total() == total,
            total == old(base).witness_reads_are_total(),
            forall|e: Diagnostic| #[trigger] base.read_refusal(e) == old(base).read_refusal(e),
        decreases universe.len() - observed@.len(),
    {
        proof {
            if fits {
                lemma_walk_prefix_step(path, seed, candidate, edits@, ownership, observed@, current);
            }
        }
        if contains_owner(&observed, current) {
            proof {
                assert(!fits);
                assert forall|p: Seq<OwnerKey>| #[trigger] is_walk(p, seed, candidate, edits@, ownership) && total
                    implies false by {
                    reveal(walk_exists);
                }
            }
            return Err(Diagnostic::new(
                DiagnosticClass::Corrupt,
                "change_summary_ownership_cycle",
                static_message("aggregating summary ownership is cyclic"),
            ));
        }
        let ghost before = observed@;
        proof {
            lemma_push_distinct(before, current);
            lemma_distinct_within(before.push(current), universe);
        }
        observed.push(current);
        let ghost kept = affected@;
        insert_owner(affected, current);
        proof {
            lemma_walk_extends(before, current, candidate, edits@, ownership, universe);
            lemma_affected_extends(old(affected)@, kept, affected@, before, current);
        }
        *steps = steps.saturating_add(1);
        let walked = observed.len();
        proof {
            assert(walked == before.len() + 1);
            lemma_sat_add_one(*old(steps), before.len());
        }
        let entry = walk_entry(candidate, edits, bindings, cache, base, current)?;
        proof {
            lemma_parent_in_universe(seed, candidate, edits@, ownership, current);
        }
        let parent = match entry {
            Some(found) => {
                if found.role.aggregates_into_parent() {
                    match found.parent {
                        OwnershipParent::Owner(parent) => Some(parent),
                        OwnershipParent::Package => None,
                    }
                } else {
                    None
                }
            },
            None => None,
        };
        match parent {
            Some(parent) => {
                current = parent;
            },
            None => {
                break;
            },
        }
    }
    Ok(Ghost(observed@))
}

/// Pushing an owner a sequence lacks keeps it free of repeats.
proof fn lemma_push_distinct(owners: Seq<OwnerKey>, owner: OwnerKey)
    requires
        owners.no_duplicates(),
        !owners.contains(owner),
    ensures
        owners.push(owner).no_duplicates(),
        owners.push(owner).contains(owner),
{
    let pushed = owners.push(owner);
    assert(pushed[owners.len() as int] == owner);
    assert forall|i: int, j: int| 0 <= i < pushed.len() && 0 <= j < pushed.len() && i != j implies pushed[i] != pushed[j] by {
        if i < owners.len() && j < owners.len() {
            assert(pushed[i] == owners[i] && pushed[j] == owners[j]);
        } else if i < owners.len() {
            assert(pushed[i] == owners[i]);
        } else {
            assert(pushed[j] == owners[j]);
        }
    }
}

/// Stepping a chain of aggregating parents to the parent of its last owner keeps it a chain.
pub proof fn lemma_chain_extends(
    before: Seq<OwnerKey>,
    current: OwnerKey,
    candidate: bool,
    edits: Seq<DerivedValueEdit<OwnerKey, OwnershipEntry>>,
    base: Seq<(OwnerKey, OwnershipEntry)>,
)
    requires
        forall|k: int| 0 <= k < before.len() - 1
            ==> aggregation_parent(ownership_at(candidate, edits, base, #[trigger] before[k])) == Some(before[k + 1]),
        before.len() > 0 ==> aggregation_parent(ownership_at(candidate, edits, base, before.last())) == Some(current),
    ensures
        forall|k: int| 0 <= k < before.push(current).len() - 1
            ==> aggregation_parent(ownership_at(candidate, edits, base, #[trigger] before.push(current)[k])) == Some(before.push(current)[k + 1]),
        before.push(current).last() == current,
{
    let after = before.push(current);
    assert forall|k: int| 0 <= k < after.len() - 1 implies
        aggregation_parent(ownership_at(candidate, edits, base, #[trigger] after[k])) == Some(after[k + 1]) by {
        assert(after[k] == before[k]);
        if k < before.len() - 1 {
            assert(after[k + 1] == before[k + 1]);
        } else {
            assert(after[k + 1] == current);
        }
    }
}

/// Stepping a walk to `current` keeps it a chain of aggregating parents inside its universe.
pub proof fn lemma_walk_extends(
    before: Seq<OwnerKey>,
    current: OwnerKey,
    candidate: bool,
    edits: Seq<DerivedValueEdit<OwnerKey, OwnershipEntry>>,
    base: Seq<(OwnerKey, OwnershipEntry)>,
    universe: Seq<OwnerKey>,
)
    requires
        forall|k: int| 0 <= k < before.len() - 1
            ==> aggregation_parent(ownership_at(candidate, edits, base, #[trigger] before[k])) == Some(before[k + 1]),
        before.len() > 0 ==> aggregation_parent(ownership_at(candidate, edits, base, before.last())) == Some(current),
        forall|x: OwnerKey| before.contains(x) ==> #[trigger] universe.contains(x),
        universe.contains(current),
    ensures
        ({
            let after = before.push(current);
            &&& forall|k: int| 0 <= k < after.len() - 1
                ==> aggregation_parent(ownership_at(candidate, edits, base, #[trigger] after[k])) == Some(after[k + 1])
            &&& forall|x: OwnerKey| after.contains(x) ==> #[trigger] universe.contains(x)
            &&& after.last() == current
        }),
{
    let after = before.push(current);
    assert forall|k: int| 0 <= k < after.len() - 1 implies
        aggregation_parent(ownership_at(candidate, edits, base, #[trigger] after[k])) == Some(after[k + 1]) by {
        assert(after[k] == before[k]);
        if k < before.len() - 1 {
            assert(after[k + 1] == before[k + 1]);
        } else {
            assert(after[k + 1] == current);
        }
    }
    assert forall|x: OwnerKey| after.contains(x) implies #[trigger] universe.contains(x) by {
        if x != current {
            let k = choose|k: int| 0 <= k < after.len() && after[k] == x;
            assert(before[k] == x);
        }
    }
}

/// Adding the owner a walk steps to keeps the affected owners those found before and on the walk.
proof fn lemma_affected_extends(
    start: Seq<OwnerKey>,
    kept: Seq<OwnerKey>,
    now: Seq<OwnerKey>,
    before: Seq<OwnerKey>,
    current: OwnerKey,
)
    requires
        forall|x: OwnerKey| #[trigger] kept.contains(x) <==> start.contains(x) || before.contains(x),
        now == if kept.contains(current) { kept } else { kept.push(current) },
    ensures
        forall|x: OwnerKey| #[trigger] now.contains(x) <==> start.contains(x) || before.push(current).contains(x),
        forall|x: OwnerKey| kept.contains(x) ==> #[trigger] now.contains(x),
{
    let walked = before.push(current);
    assert forall|x: OwnerKey| kept.contains(x) implies #[trigger] now.contains(x) by {
        let k = choose|k: int| 0 <= k < kept.len() && kept[k] == x;
        assert(now[k] == x);
    }
    assert(now.contains(current)) by {
        if !kept.contains(current) {
            assert(now[kept.len() as int] == current);
        }
    }
    assert(walked[before.len() as int] == current);
    assert(walked.contains(current));
    assert forall|x: OwnerKey| #[trigger] now.contains(x) <==> start.contains(x) || walked.contains(x) by {
        if now.contains(x) && x != current {
            let k = choose|k: int| 0 <= k < now.len() && now[k] == x;
            if kept.contains(current) {
                assert(kept[k] == x);
                assert(kept.contains(x));
            } else {
                assert(k < kept.len());
                assert(kept[k] == now[k]);
                assert(kept.contains(x));
            }
        }
        if walked.contains(x) && x != current {
            let k = choose|k: int| 0 <= k < walked.len() && walked[k] == x;
            assert(before[k] == x);
        }
        if before.contains(x) {
            let k = choose|k: int| 0 <= k < before.len() && before[k] == x;
            assert(walked[k] == x);
        }
    }
}

/// Whether `owner` is on the base or the candidate walk from `seed`.
pub open spec fn reaches(
    seed: OwnerKey,
    owner: OwnerKey,
    edits: Seq<DerivedValueEdit<OwnerKey, OwnershipEntry>>,
    base: Seq<(OwnerKey, OwnershipEntry)>,
) -> bool {
    on_walk(seed, owner, false, edits, base) || on_walk(seed, owner, true, edits, base)
}

/// Whether `owner` seeds the summary candidates: a changed owner, an owner whose ownership the
/// derived edits change, or a local owner that an added or removed relation starts from.
pub open spec fn is_summary_seed(
    owner: OwnerKey,
    package: PackageId,
    owners: Seq<OwnerKey>,
    edits: Seq<DerivedValueEdit<OwnerKey, OwnershipEntry>>,
    removed: Seq<RelationEdge>,
    added: Seq<RelationEdge>,
) -> bool {
    ||| owners.contains(owner)
    ||| exists|i: int| 0 <= i < edits.len() && #[trigger] edits[i].key == owner
    ||| exists|i: int| 0 <= i < removed.len() && spec_local_owner(#[trigger] removed[i].source, package) == Some(owner)
    ||| exists|i: int| 0 <= i < added.len() && spec_local_owner(#[trigger] added[i].source, package) == Some(owner)
}

/// The walk found from `seed` is the walk the spec names: an owner is on it exactly when the
/// found path holds it.
pub proof fn lemma_on_walk_is_path(
    seed: OwnerKey,
    path: Seq<OwnerKey>,
    candidate: bool,
    edits: Seq<DerivedValueEdit<OwnerKey, OwnershipEntry>>,
    base: Seq<(OwnerKey, OwnershipEntry)>,
)
    requires
        is_walk(path, seed, candidate, edits, base),
    ensures
        forall|owner: OwnerKey| #[trigger] on_walk(seed, owner, candidate, edits, base) <==> path.contains(owner),
{
    assert forall|owner: OwnerKey| #[trigger] on_walk(seed, owner, candidate, edits, base) <==> path.contains(owner) by {
        if on_walk(seed, owner, candidate, edits, base) {
            let other = choose|other: Seq<OwnerKey>| #[trigger] is_walk(other, seed, candidate, edits, base) && other.contains(owner);
            lemma_walk_unique(other, path, seed, candidate, edits, base);
        }
        if path.contains(owner) {
            assert(is_walk(path, seed, candidate, edits, base) && path.contains(owner));
        }
    }
}

/// Adds `owner` to the seeds unless it is there.
fn add_seed(seeds: &mut Vec<OwnerKey>, owner: OwnerKey)
    requires
        old(seeds)@.no_duplicates(),
    ensures
        final(seeds)@.no_duplicates(),
        forall|x: OwnerKey| #[trigger] final(seeds)@.contains(x) <==> old(seeds)@.contains(x) || x == owner,
{
    let ghost before = seeds@;
    if !contains_owner(seeds, owner) {
        proof {
            lemma_push_distinct(before, owner);
        }
        seeds.push(owner);
        proof {
            assert forall|x: OwnerKey| #[trigger] seeds@.contains(x) <==> before.contains(x) || x == owner by {
                if seeds@.contains(x) && x != owner {
                    let k = choose|k: int| 0 <= k < seeds@.len() && seeds@[k] == x;
                    assert(before[k] == x);
                }
                if before.contains(x) {
                    let k = choose|k: int| 0 <= k < before.len() && before[k] == x;
                    assert(seeds@[k] == x);
                }
            }
        }
    }
}

/// The summary seeds of a change, each once.
fn summary_seeds(
    package: PackageId,
    owners: &Vec<OwnerKey>,
    edits: &Vec<DerivedValueEdit<OwnerKey, OwnershipEntry>>,
    removed: &Vec<RelationEdge>,
    added: &Vec<RelationEdge>,
) -> (r: Vec<OwnerKey>)
    ensures
        r@.no_duplicates(),
        forall|x: OwnerKey| #[trigger] r@.contains(x) <==> is_summary_seed(x, package, owners@, edits@, removed@, added@),
{
    let mut seeds: Vec<OwnerKey> = Vec::new();
    let mut i: usize = 0;
    while i < owners.len()
        invariant
            i <= owners@.len(),
            seeds@.no_duplicates(),
            forall|x: OwnerKey| #[trigger] seeds@.contains(x) <==> owners@.take(i as int).contains(x),
        decreases owners@.len() - i,
    {
        let ghost t = owners@.take(i as int);
        add_seed(&mut seeds, owners[i]);
        i = i + 1;
        proof {
            assert(owners@.take(i as int) =~= t.push(owners@[i - 1]));
            assert forall|x: OwnerKey| #[trigger] seeds@.contains(x) <==> owners@.take(i as int).contains(x) by {
                let u = owners@.take(i as int);
                if t.contains(x) {
                    let k = choose|k: int| 0 <= k < t.len() && t[k] == x;
                    assert(u[k] == x);
                }
                if u.contains(x) {
                    let k = choose|k: int| 0 <= k < u.len() && u[k] == x;
                    if k < t.len() {
                        assert(t[k] == x);
                    }
                }
                if x == owners@[i - 1] {
                    assert(u[i - 1] == x);
                }
            }
        }
    }
    assert(owners@.take(owners@.len() as int) =~= owners@);
    let mut j: usize = 0;
    while j < edits.len()
        invariant
            j <= edits@.len(),
            seeds@.no_duplicates(),
            forall|x: OwnerKey| #[trigger] seeds@.contains(x) <==> owners@.contains(x)
                || exists|k: int| 0 <= k < j && #[trigger] edits@[k].key == x,
        decreases edits@.len() - j,
    {
        add_seed(&mut seeds, edits[j].key);
        j = j + 1;
        proof {
            assert forall|x: OwnerKey| #[trigger] seeds@.contains(x) <==> owners@.contains(x)
                || exists|k: int| 0 <= k < j && #[trigger] edits@[k].key == x by {
                if x == edits@[j - 1].key {
                    assert(edits@[j - 1].key == x);
                }
                if exists|k: int| 0 <= k < j && #[trigger] edits@[k].key == x {
                    let k = choose|k: int| 0 <= k < j && #[trigger] edits@[k].key == x;
                    if k < j - 1 {
                        assert(edits@[k].key == x);
                    }
                }
            }
        }
    }
    let mut k: usize = 0;
    while k < removed.len()
        invariant
            k <= removed@.len(),
            seeds@.no_duplicates(),
            forall|x: OwnerKey| #[trigger] seeds@.contains(x) <==> owners@.contains(x)
                || (exists|m: int| 0 <= m < edits@.len() && #[trigger] edits@[m].key == x)
                || exists|m: int| 0 <= m < k && spec_local_owner(#[trigger] removed@[m].source, package) == Some(x),
        decreases removed@.len() - k,
    {
        if let Some(owner) = local_owner(removed[k].source, package) {
            add_seed(&mut seeds, owner);
        }
        k = k + 1;
        proof {
            assert forall|x: OwnerKey| #[trigger] seeds@.contains(x) <==> owners@.contains(x)
                || (exists|m: int| 0 <= m < edits@.len() && #[trigger] edits@[m].key == x)
                || exists|m: int| 0 <= m < k && spec_local_owner(#[trigger] removed@[m].source, package) == Some(x) by {
                if spec_local_owner(removed@[k - 1].source, package) == Some(x) {
                    assert(spec_local_owner(removed@[k - 1].source, package) == Some(x));
                }
                if exists|m: int| 0 <= m < k && spec_local_owner(#[trigger] removed@[m].source, package) == Some(x) {
                    let m = choose|m: int| 0 <= m < k && spec_local_owner(#[trigger] removed@[m].source, package) == Some(x);
                    if m < k - 1 {
                        assert(spec_local_owner(removed@[m].source, package) == Some(x));
                    }
                }
            }
        }
    }
    let mut l: usize = 0;
    while l < added.len()
        invariant
            l <= added@.len(),
            seeds@.no_duplicates(),
            forall|x: OwnerKey| #[trigger] seeds@.contains(x) <==> owners@.contains(x)
                || (exists|m: int| 0 <= m < edits@.len() && #[trigger] edits@[m].key == x)
                || (exists|m: int| 0 <= m < removed@.len() && spec_local_owner(#[trigger] removed@[m].source, package) == Some(x))
                || exists|m: int| 0 <= m < l && spec_local_owner(#[trigger] added@[m].source, package) == Some(x),
        decreases added@.len() - l,
    {
        if let Some(owner) = local_owner(added[l].source, package) {
            add_seed(&mut seeds, owner);
        }
        l = l + 1;
        proof {
            assert forall|x: OwnerKey| #[trigger] seeds@.contains(x) <==> owners@.contains(x)
                || (exists|m: int| 0 <= m < edits@.len() && #[trigger] edits@[m].key == x)
                || (exists|m: int| 0 <= m < removed@.len() && spec_local_owner(#[trigger] removed@[m].source, package) == Some(x))
                || exists|m: int| 0 <= m < l && spec_local_owner(#[trigger] added@[m].source, package) == Some(x) by {
                if spec_local_owner(added@[l - 1].source, package) == Some(x) {
                    assert(spec_local_owner(added@[l - 1].source, package) == Some(x));
                }
                if exists|m: int| 0 <= m < l && spec_local_owner(#[trigger] added@[m].source, package) == Some(x) {
                    let m = choose|m: int| 0 <= m < l && spec_local_owner(#[trigger] added@[m].source, package) == Some(x);
                    if m < l - 1 {
                        assert(spec_local_owner(added@[m].source, package) == Some(x));
                    }
                }
            }
        }
    }
    seeds
}

/// The key and candidate value of each derived ownership edit.
fn candidate_binding_list(edits: &Vec<DerivedValueEdit<OwnerKey, OwnershipEntry>>) -> (r: Vec<(OwnerKey, Option<OwnershipEntry>)>)
    ensures
        r@ == candidate_bindings(edits@),
{
    let mut bindings: Vec<(OwnerKey, Option<OwnershipEntry>)> = Vec::new();
    let mut i: usize = 0;
    while i < edits.len()
        invariant
            i <= edits@.len(),
            bindings@ == candidate_bindings(edits@.take(i as int)),
        decreases edits@.len() - i,
    {
        bindings.push((edits[i].key, edits[i].after));
        i = i + 1;
        assert(bindings@ =~= candidate_bindings(edits@.take(i as int)));
    }
    assert(edits@.take(edits@.len() as int) =~= edits@);
    bindings
}

/// The owners whose summaries a change can affect: every owner on the base or the candidate
/// walk up the aggregating ownership from each summary seed, each once, in increasing order;
/// the seeds are walked in increasing order. `steps` counts the
/// ownership steps taken.
pub fn summary_candidates<W: WitnessBaseRead>(
    package: PackageId,
    owners: &Vec<OwnerKey>,
    edits: &Vec<DerivedValueEdit<OwnerKey, OwnershipEntry>>,
    removed: &Vec<RelationEdge>,
    added: &Vec<RelationEdge>,
    cache: &mut CachedWitness,
    base: &mut W,
    steps: &mut u64,
) -> (r: Result<Vec<OwnerKey>, Diagnostic>)
    requires
        old(cache).agrees_with(old(base).evidence()),
    ensures
        final(base).evidence() == old(base).evidence(),
        final(cache).agrees_with(final(base).evidence()),
        r matches Ok(affected) ==> increasing(affected@) && affected@.no_duplicates()
            && forall|owner: OwnerKey| #[trigger] affected@.contains(owner)
            <==> exists|seed: OwnerKey| is_summary_seed(seed, package, owners@, edits@, removed@, added@)
                && #[trigger] reaches(seed, owner, edits@, old(base).evidence().ownership),
        final(base).witness_reads_are_total() == old(base).witness_reads_are_total(),
        old(base).witness_reads_are_total()
            && (forall|seed: OwnerKey| #[trigger] is_summary_seed(seed, package, owners@, edits@, removed@, added@)
                ==> walk_exists(seed, false, edits@, old(base).evidence().ownership)
                    && walk_exists(seed, true, edits@, old(base).evidence().ownership))
            ==> r is Ok,
        r matches Err(d) ==> old(base).read_refusal(d)
            || !(forall|seed: OwnerKey| #[trigger] is_summary_seed(seed, package, owners@, edits@, removed@, added@)
                ==> walk_exists(seed, false, edits@, old(base).evidence().ownership)
                    && walk_exists(seed, true, edits@, old(base).evidence().ownership)),
        forall|e: Diagnostic| #[trigger] final(base).read_refusal(e) == old(base).read_refusal(e),
{
    let found = summary_seeds(package, owners, edits, removed, added);
    let seeds = sorted_keys(&found);
    proof {
        lemma_increasing_no_duplicates(seeds@);
    }
    let bindings = candidate_binding_list(edits);
    let ghost ownership = base.evidence().ownership;
    let mut affected: Vec<OwnerKey> = Vec::new();
    let mut i: usize = 0;
    while i < seeds.len()
        invariant
            i <= seeds@.len(),
            bindings@ == candidate_bindings(edits@),
            base.evidence() == old(base).evidence(),
            ownership == old(base).evidence().ownership,
            cache.agrees_with(base.evidence()),
            base.witness_reads_are_total() == old(base).witness_reads_are_total(),
            forall|e: Diagnostic| #[trigger] base.read_refusal(e) == old(base).read_refusal(e),
            forall|x: OwnerKey| #[trigger] seeds@.contains(x) <==> is_summary_seed(x, package, owners@, edits@, removed@, added@),
            affected@.no_duplicates(),
            forall|owner: OwnerKey| #[trigger] affected@.contains(owner)
                <==> exists|k: int| 0 <= k < i && #[trigger] reaches(seeds@[k], owner, edits@, ownership),
        decreases seeds@.len() - i,
    {
        let seed = seeds[i];
        let ghost start = affected@;
        let base_path = match walk_summary_ancestors(seed, false, edits, &bindings, cache, base, &mut affected, steps) {
            Ok(path) => path,
            Err(error) => {
                proof {
                    assert(seeds@.contains(seed));
                    reveal(walk_exists);
                }
                return Err(error);
            },
        };
        let ghost middle = affected@;
        let candidate_path = match walk_summary_ancestors(seed, true, edits, &bindings, cache, base, &mut affected, steps) {
            Ok(path) => path,
            Err(error) => {
                proof {
                    assert(seeds@.contains(seed));
                    reveal(walk_exists);
                }
                return Err(error);
            },
        };
        proof {
            lemma_on_walk_is_path(seed, base_path@, false, edits@, ownership);
            lemma_on_walk_is_path(seed, candidate_path@, true, edits@, ownership);
            assert forall|owner: OwnerKey| #[trigger] affected@.contains(owner)
                <==> exists|k: int| 0 <= k < i + 1 && #[trigger] reaches(seeds@[k], owner, edits@, ownership) by {
                if affected@.contains(owner) {
                    if start.contains(owner) {
                        let k = choose|k: int| 0 <= k < i && #[trigger] reaches(seeds@[k], owner, edits@, ownership);
                        assert(reaches(seeds@[k], owner, edits@, ownership));
                    } else {
                        assert(reaches(seeds@[i as int], owner, edits@, ownership));
                    }
                }
                if exists|k: int| 0 <= k < i + 1 && #[trigger] reaches(seeds@[k], owner, edits@, ownership) {
                    let k = choose|k: int| 0 <= k < i + 1 && #[trigger] reaches(seeds@[k], owner, edits@, ownership);
                    if k < i {
                        assert(start.contains(owner));
                    } else {
                        assert(seeds@[k] == seed);
                    }
                }
            }
        }
        i = i + 1;
    }
    proof {
        assert forall|owner: OwnerKey| #[trigger] affected@.contains(owner)
            <==> exists|seed: OwnerKey| is_summary_seed(seed, package, owners@, edits@, removed@, added@)
                && #[trigger] reaches(seed, owner, edits@, ownership) by {
            if affected@.contains(owner) {
                let k = choose|k: int| 0 <= k < seeds@.len() && #[trigger] reaches(seeds@[k], owner, edits@, ownership);
                assert(seeds@.contains(seeds@[k]));
            }
            if exists|seed: OwnerKey| is_summary_seed(seed, package, owners@, edits@, removed@, added@)
                && #[trigger] reaches(seed, owner, edits@, ownership) {
                let seed = choose|seed: OwnerKey| is_summary_seed(seed, package, owners@, edits@, removed@, added@)
                    && #[trigger] reaches(seed, owner, edits@, ownership);
                assert(seeds@.contains(seed));
                let k = choose|k: int| 0 <= k < seeds@.len() && seeds@[k] == seed;
                assert(reaches(seeds@[k], owner, edits@, ownership));
            }
        }
    }
    let sorted = sorted_keys(&affected);
    proof {
        lemma_increasing_no_duplicates(sorted@);
    }
    Ok(sorted)
}

/// The edges of `edges` that `without` lacks, each once, in increasing order.
pub open spec fn edge_difference(edges: Seq<RelationEdge>, without: Seq<RelationEdge>) -> Seq<RelationEdge> {
    in_key_order(Set::new(|edge: RelationEdge| edges.contains(edge) && !without.contains(edge)))
}

/// The edges of `edges` that `without` lacks, each once, in increasing order.
fn difference(edges: &Vec<RelationEdge>, without: &Vec<RelationEdge>) -> (r: Vec<RelationEdge>)
    ensures
        r@ == edge_difference(edges@, without@),
        increasing(r@),
{
    let mut kept: Vec<RelationEdge> = Vec::new();
    let mut i: usize = 0;
    while i < edges.len()
        invariant
            i <= edges@.len(),
            increasing(kept@),
            forall|x: RelationEdge| #[trigger] kept@.contains(x)
                <==> (exists|m: int| 0 <= m < i && #[trigger] edges@[m] == x) && !without@.contains(x),
        decreases edges@.len() - i,
    {
        if !contains_edge(without, edges[i]) {
            insert_in_order(&mut kept, edges[i]);
        }
        i = i + 1;
        proof {
            assert forall|x: RelationEdge| #[trigger] kept@.contains(x)
                <==> (exists|m: int| 0 <= m < i && #[trigger] edges@[m] == x) && !without@.contains(x) by {
                if x == edges@[i - 1] {
                    assert(edges@[i - 1] == x);
                }
                if exists|m: int| 0 <= m < i && #[trigger] edges@[m] == x {
                    let m = choose|m: int| 0 <= m < i && #[trigger] edges@[m] == x;
                    if m < i - 1 {
                        assert(edges@[m] == x);
                    }
                }
            }
        }
    }
    proof {
        let kept_set = Set::new(|edge: RelationEdge| edges@.contains(edge) && !without@.contains(edge));
        assert(lists(kept@, kept_set));
        lemma_in_key_order(kept@, kept_set);
    }
    kept
}

/// The relation by which `source` depends on the package `target`.
pub open spec fn package_dependency(source: PackageId, target: PackageId) -> RelationEdge {
    RelationEdge {
        source: RelationEndpoint::Package(source),
        kind: RelationKind::PackageDependency,
        target: RelationEndpoint::Package(target),
    }
}

/// The package-dependency relations of the dependency edits, on the base side or, where
/// `candidate`, on the candidate side.
pub open spec fn dependency_edges(
    dependencies: Seq<(PackageId, DependencyEdit)>,
    package: PackageId,
    candidate: bool,
) -> Seq<RelationEdge>
    decreases dependencies.len(),
{
    if dependencies.len() == 0 {
        Seq::empty()
    } else {
        let edit = dependencies.last().1;
        let present = if candidate { edit.after is Some } else { edit.before is Some };
        dependency_edges(dependencies.drop_last(), package, candidate) + if present {
            seq![package_dependency(package, dependencies.last().0)]
        } else {
            Seq::empty()
        }
    }
}

/// The relations one side of a change states: those of its records, then its package
/// dependencies, each once.
pub open spec fn side_relations(
    maps: ContributionMaps,
    dependencies: Seq<(PackageId, DependencyEdit)>,
    package: PackageId,
    candidate: bool,
) -> Seq<RelationEdge> {
    with_edges(maps.relations, dependency_edges(dependencies, package, candidate))
}

/// What `derive_local_delta` gives for contribution maps `before` and `after`, given the
/// witness evidence.
pub open spec fn derives(
    derived: DerivedDelta,
    package: PackageId,
    delta_owners: Seq<OwnerKey>,
    dependencies: Seq<(PackageId, DependencyEdit)>,
    before: ContributionMaps,
    after: ContributionMaps,
    evidence: WitnessEvidence,
) -> bool {
    let removed = edge_difference(
        side_relations(before, dependencies, package, false),
        side_relations(after, dependencies, package, true),
    );
    let added = edge_difference(
        side_relations(after, dependencies, package, true),
        side_relations(before, dependencies, package, false),
    );
    &&& contribution_edits_of(
        contribution_key_order(before.namespaces, after.namespaces),
        before.namespaces,
        after.namespaces,
        evidence.namespaces,
    ) == Some(derived.namespaces@)
    &&& contribution_edits_of(
        contribution_key_order(before.ownership, after.ownership),
        before.ownership,
        after.ownership,
        evidence.ownership,
    ) == Some(derived.ownership@)
    &&& derived.relations.removed@ == removed
    &&& derived.relations.added@ == added
    &&& forall|i: int| 0 <= i < removed.len() ==> evidence.forward.contains(#[trigger] removed[i])
    &&& increasing(edit_keys(derived.namespaces@))
    &&& increasing(edit_keys(derived.ownership@))
    &&& increasing(derived.relations.removed@)
    &&& increasing(derived.relations.added@)
    &&& increasing(derived.summary_candidates@)
    &&& derived.summary_candidates@.no_duplicates()
    &&& forall|owner: OwnerKey| #[trigger] derived.summary_candidates@.contains(owner)
        <==> exists|seed: OwnerKey| is_summary_seed(seed, package, delta_owners, derived.ownership@, removed, added)
            && #[trigger] reaches(seed, owner, derived.ownership@, evidence.ownership)
    &&& derived.relation_edges_examined == count_spec(removed.len() as usize)
}

/// The ownership edits of the contributions `before` and `after` over the witness `evidence`,
/// where no key is refused.
pub open spec fn derived_ownership(
    before: ContributionMaps,
    after: ContributionMaps,
    evidence: WitnessEvidence,
) -> Option<Seq<DerivedValueEdit<OwnerKey, OwnershipEntry>>> {
    contribution_edits_of(
        contribution_key_order(before.ownership, after.ownership),
        before.ownership,
        after.ownership,
        evidence.ownership,
    )
}

/// Whether the derivation over the contributions `before` and `after` goes through: every key's
/// witness value agrees, every removed relation is in the witness, and every summary seed has a
/// base and a candidate walk.
pub open spec fn derivation_succeeds(
    package: PackageId,
    delta_owners: Seq<OwnerKey>,
    dependencies: Seq<(PackageId, DependencyEdit)>,
    before: ContributionMaps,
    after: ContributionMaps,
    evidence: WitnessEvidence,
) -> bool {
    let removed = edge_difference(
        side_relations(before, dependencies, package, false),
        side_relations(after, dependencies, package, true),
    );
    let added = edge_difference(
        side_relations(after, dependencies, package, true),
        side_relations(before, dependencies, package, false),
    );
    &&& contribution_edits_of(
        contribution_key_order(before.namespaces, after.namespaces),
        before.namespaces,
        after.namespaces,
        evidence.namespaces,
    ) is Some
    &&& derived_ownership(before, after, evidence) is Some
    &&& forall|seed: OwnerKey| #[trigger] is_summary_seed(seed, package, delta_owners, derived_ownership(before, after, evidence)->0, removed, added)
        ==> walk_exists(seed, false, derived_ownership(before, after, evidence)->0, evidence.ownership)
            && walk_exists(seed, true, derived_ownership(before, after, evidence)->0, evidence.ownership)
    &&& forall|i: int| 0 <= i < removed.len() ==> evidence.forward.contains(#[trigger] removed[i])
}

/// A derivation that goes through has a base and a candidate walk from each summary seed.
proof fn lemma_derivation_summary_walks(
    package: PackageId,
    delta_owners: Seq<OwnerKey>,
    dependencies: Seq<(PackageId, DependencyEdit)>,
    before: ContributionMaps,
    after: ContributionMaps,
    evidence: WitnessEvidence,
    ownership: Seq<DerivedValueEdit<OwnerKey, OwnershipEntry>>,
    seed: OwnerKey,
)
    requires
        derivation_succeeds(package, delta_owners, dependencies, before, after, evidence),
        contribution_edits_of(
            contribution_key_order(before.ownership, after.ownership),
            before.ownership,
            after.ownership,
            evidence.ownership,
        ) == Some(ownership),
        is_summary_seed(
            seed,
            package,
            delta_owners,
            ownership,
            edge_difference(side_relations(before, dependencies, package, false), side_relations(after, dependencies, package, true)),
            edge_difference(side_relations(after, dependencies, package, true), side_relations(before, dependencies, package, false)),
        ),
    ensures
        walk_exists(seed, false, ownership, evidence.ownership),
        walk_exists(seed, true, ownership, evidence.ownership),
{
    let removed = edge_difference(side_relations(before, dependencies, package, false), side_relations(after, dependencies, package, true));
    let added = edge_difference(side_relations(after, dependencies, package, true), side_relations(before, dependencies, package, false));
    assert(derived_ownership(before, after, evidence) == Some(ownership));
    assert(derived_ownership(before, after, evidence)->0 == ownership);
    assert(is_summary_seed(seed, package, delta_owners, derived_ownership(before, after, evidence)->0, removed, added));
}

/// Whether the witness was written under the current contract for `repository` and `package`.
pub open spec fn witness_authority_matches(evidence: WitnessEvidence, repository: RepositoryId, package: PackageId) -> bool {
    &&& evidence.manifest.contract_version == crate::witness::CURRENT_WITNESS_CONTRACT
    &&& evidence.manifest.repository_id == repository
    &&& evidence.package_id == package
}

/// The keys of the changed owners of a delta, in order.
pub open spec fn changed_keys(owners: Seq<(OwnerKey, crate::delta::OwnerEdit)>) -> Seq<OwnerKey> {
    owners.map_values(|entry: (OwnerKey, crate::delta::OwnerEdit)| entry.0)
}

/// The keys of the changed owners of a delta, in order.
fn changed_owner_keys(delta: &CanonicalDelta) -> (r: Vec<OwnerKey>)
    ensures
        r@ == changed_keys(delta@.owners),
{
    let mut keys: Vec<OwnerKey> = Vec::new();
    let mut i: usize = 0;
    while i < delta.owners.len()
        invariant
            i <= delta.owners@.len(),
            keys@ == changed_keys(delta@.owners.take(i as int)),
        decreases delta.owners@.len() - i,
    {
        keys.push(delta.owners[i].0);
        i = i + 1;
        assert(keys@ =~= changed_keys(delta@.owners.take(i as int)));
    }
    assert(delta@.owners.take(delta@.owners.len() as int) =~= delta@.owners);
    keys
}

/// Derives the witness-level consequences of a canonical delta in `package` of `repository`
/// from what each changed owner's base and candidate records contribute (`changes`, in the
/// order of the delta's owners): the namespace and ownership edits against the base witness,
/// key by key in increasing key order, so that a refusal is the one of the lowest refused key;
/// the relations removed and added, each once in increasing order; and the owners whose
/// summaries the change can affect, in increasing order.
pub fn derive_local_delta<W: WitnessBaseRead>(
    repository: RepositoryId,
    package: PackageId,
    delta: &CanonicalDelta,
    changes: &Vec<OwnerContribution>,
    base: &mut W,
) -> (r: Result<DerivedDelta, Diagnostic>)
    ensures
        final(base).evidence() == old(base).evidence(),
        !witness_authority_matches(old(base).evidence(), repository, package) ==> (r matches Err(d)
            && d.class == DiagnosticClass::Corrupt && d.code@ == "change_witness_authority"@
            && *final(base) == *old(base)),
        witness_authority_matches(old(base).evidence(), repository, package)
            && old(base).witness_reads_are_total()
            && (contributions_of(changes@) matches Ok((before, after)) && derivation_succeeds(
                package,
                changed_keys(delta@.owners),
                delta@.dependencies,
                before,
                after,
                old(base).evidence(),
            )) ==> r is Ok,
        r matches Err(d) ==> old(base).read_refusal(d)
            || !witness_authority_matches(old(base).evidence(), repository, package)
            || !(contributions_of(changes@) matches Ok((before, after)) && derivation_succeeds(
                package,
                changed_keys(delta@.owners),
                delta@.dependencies,
                before,
                after,
                old(base).evidence(),
            )),
        contributions_of(changes@) is Err ==> r is Err,
        r matches Ok(derived) ==> ({
            &&& witness_authority_matches(old(base).evidence(), repository, package)
            &&& contributions_of(changes@) matches Ok((before, after)) && derives(
                derived,
                package,
                changed_keys(delta@.owners),
                delta@.dependencies,
                before,
                after,
                old(base).evidence(),
            )
        }),
{
    if !base.witness_contract_is_current() || base.witness_repository_id() != repository
        || base.witness_package_id() != package {
        return Err(Diagnostic::new(
            DiagnosticClass::Corrupt,
            "change_witness_authority",
            static_message("the base witness belongs to a different repository or package"),
        ));
    }
    let ghost evidence = base.evidence();
    let mut before = ContributionSets::new();
    let mut after = ContributionSets::new();
    let mut i: usize = 0;
    while i < changes.len()
        invariant
            i <= changes@.len(),
            evidence == old(base).evidence(),
            base.evidence() == evidence,
            evidence.package_id == package,
            witness_authority_matches(evidence, repository, package),
            base.witness_reads_are_total() == old(base).witness_reads_are_total(),
            forall|e: Diagnostic| #[trigger] base.read_refusal(e) == old(base).read_refusal(e),
            contributions_of(changes@.take(i as int)) == Ok::<(ContributionMaps, ContributionMaps), Seq<char>>((before.maps(), after.maps())),
        decreases changes@.len() - i,
    {
        proof {
            assert(changes@.take(i + 1).drop_last() =~= changes@.take(i as int));
        }
        let change = &changes[i];
        if let Some(record) = &change.before {
            match add_contribution(&mut before, change.owner, record) {
                Ok(()) => {},
                Err(error) => {
                    proof {
                        lemma_contributions_refusal_persists(changes@, i + 1);
                    }
                    return Err(error);
                },
            }
        }
        if let Some(record) = &change.after {
            match add_contribution(&mut after, change.owner, record) {
                Ok(()) => {},
                Err(error) => {
                    proof {
                        lemma_contributions_refusal_persists(changes@, i + 1);
                    }
                    return Err(error);
                },
            }
        }
        i = i + 1;
    }
    assert(changes@.take(changes@.len() as int) =~= changes@);
    let ghost before_maps = before.maps();
    let ghost after_maps = after.maps();
    let mut j: usize = 0;
    while j < delta.dependencies.len()
        invariant
            j <= delta.dependencies@.len(),
            evidence == old(base).evidence(),
            base.evidence() == evidence,
            evidence.package_id == package,
            witness_authority_matches(evidence, repository, package),
            base.witness_reads_are_total() == old(base).witness_reads_are_total(),
            forall|e: Diagnostic| #[trigger] base.read_refusal(e) == old(base).read_refusal(e),
            before.namespaces@ == before_maps.namespaces,
            before.ownership@ == before_maps.ownership,
            after.namespaces@ == after_maps.namespaces,
            after.ownership@ == after_maps.ownership,
            before.relations@ == with_edges(before_maps.relations, dependency_edges(delta@.dependencies.take(j as int), package, false)),
            after.relations@ == with_edges(after_maps.relations, dependency_edges(delta@.dependencies.take(j as int), package, true)),
        decreases delta.dependencies@.len() - j,
    {
        let (dependency, edit) = delta.dependencies[j];
        let edge = RelationEdge {
            source: RelationEndpoint::Package(package),
            kind: RelationKind::PackageDependency,
            target: RelationEndpoint::Package(dependency),
        };
        proof {
            let prefix = delta@.dependencies.take(j + 1);
            assert(prefix.drop_last() =~= delta@.dependencies.take(j as int));
            assert(prefix.last() == (dependency, edit));
            lemma_with_edges_append(before_maps.relations, dependency_edges(delta@.dependencies.take(j as int), package, false), edge);
            lemma_with_edges_append(after_maps.relations, dependency_edges(delta@.dependencies.take(j as int), package, true), edge);
            assert(dependency_edges(prefix, package, false) =~= dependency_edges(delta@.dependencies.take(j as int), package, false)
                + if edit.before is Some { seq![edge] } else { Seq::empty() });
            assert(dependency_edges(prefix, package, true) =~= dependency_edges(delta@.dependencies.take(j as int), package, true)
                + if edit.after is Some { seq![edge] } else { Seq::empty() });
            assert(dependency_edges(delta@.dependencies.take(j as int), package, false) + Seq::<RelationEdge>::empty()
                =~= dependency_edges(delta@.dependencies.take(j as int), package, false));
            assert(dependency_edges(delta@.dependencies.take(j as int), package, true) + Seq::<RelationEdge>::empty()
                =~= dependency_edges(delta@.dependencies.take(j as int), package, true));
        }
        if edit.before.is_some() {
            add_edge(&mut before.relations, edge);
        }
        if edit.after.is_some() {
            add_edge(&mut after.relations, edge);
        }
        j = j + 1;
    }
    assert(delta@.dependencies.take(delta@.dependencies.len() as int) =~= delta@.dependencies);
    let mut cache = CachedWitness::new();
    let namespaces = namespace_edits(&before.namespaces, &after.namespaces, &mut cache, base)?;
    let ownership = ownership_edits(&before.ownership, &after.ownership, &mut cache, base)?;
    let removed = difference(&before.relations, &after.relations);
    let added = difference(&after.relations, &before.relations);
    let ghost removed_s = edge_difference(
        side_relations(before_maps, delta@.dependencies, package, false),
        side_relations(after_maps, delta@.dependencies, package, true),
    );
    proof {
        assert(contributions_of(changes@) == Ok::<(ContributionMaps, ContributionMaps), Seq<char>>((before_maps, after_maps)));
        assert(before.relations@ == side_relations(before_maps, delta@.dependencies, package, false));
        assert(after.relations@ == side_relations(after_maps, delta@.dependencies, package, true));
        assert(removed@ == removed_s);
        assert(added@ == edge_difference(
            side_relations(after_maps, delta@.dependencies, package, true),
            side_relations(before_maps, delta@.dependencies, package, false),
        ));
    }
    let mut k: usize = 0;
    while k < removed.len()
        invariant
            k <= removed@.len(),
            evidence == old(base).evidence(),
            base.evidence() == evidence,
            evidence.package_id == package,
            witness_authority_matches(evidence, repository, package),
            base.witness_reads_are_total() == old(base).witness_reads_are_total(),
            forall|e: Diagnostic| #[trigger] base.read_refusal(e) == old(base).read_refusal(e),
            cache.agrees_with(base.evidence()),
            forall|m: int| 0 <= m < k ==> evidence.forward.contains(#[trigger] removed@[m]),
            removed@ == removed_s,
            removed_s == edge_difference(
                side_relations(before_maps, delta@.dependencies, package, false),
                side_relations(after_maps, delta@.dependencies, package, true),
            ),
            added@ == edge_difference(
                side_relations(after_maps, delta@.dependencies, package, true),
                side_relations(before_maps, delta@.dependencies, package, false),
            ),
            contribution_edits_of(contribution_key_order(before_maps.ownership, after_maps.ownership), before_maps.ownership, after_maps.ownership, evidence.ownership) == Some(ownership@),
            contribution_edits_of(contribution_key_order(before_maps.namespaces, after_maps.namespaces), before_maps.namespaces, after_maps.namespaces, evidence.namespaces) == Some(namespaces@),
            contributions_of(changes@) == Ok::<(ContributionMaps, ContributionMaps), Seq<char>>((before_maps, after_maps)),
        decreases removed@.len() - k,
    {
        if !cache.contains_relation(base, removed[k])? {
            proof {
                assert(!evidence.forward.contains(removed_s[k as int]));
                assert(!derivation_succeeds(package, changed_keys(delta@.owners), delta@.dependencies, before_maps, after_maps, evidence));
            }
            return Err(Diagnostic::new(
                DiagnosticClass::Corrupt,
                "change_relation_before",
                static_message("a locally removed relation is absent from the base witness"),
            ));
        }
        k = k + 1;
    }
    let owners = changed_owner_keys(delta);
    let mut steps: u64 = 0;
    proof {
        let added_s = edge_difference(
            side_relations(after_maps, delta@.dependencies, package, true),
            side_relations(before_maps, delta@.dependencies, package, false),
        );
        assert(added@ == added_s);
        assert(owners@ == changed_keys(delta@.owners));
        assert(contribution_edits_of(contribution_key_order(before_maps.ownership, after_maps.ownership), before_maps.ownership, after_maps.ownership, evidence.ownership) == Some(ownership@));
    }
    let summary = match summary_candidates(package, &owners, &ownership, &removed, &added, &mut cache, base, &mut steps) {
        Ok(summary) => summary,
        Err(error) => {
            proof {
                if derivation_succeeds(package, changed_keys(delta@.owners), delta@.dependencies, before_maps, after_maps, evidence) {
                    assert forall|seed: OwnerKey| #[trigger] is_summary_seed(seed, package, owners@, ownership@, removed@, added@)
                        implies walk_exists(seed, false, ownership@, evidence.ownership)
                            && walk_exists(seed, true, ownership@, evidence.ownership) by {
                        let removed_x = edge_difference(
                            side_relations(before_maps, delta@.dependencies, package, false),
                            side_relations(after_maps, delta@.dependencies, package, true),
                        );
                        let added_x = edge_difference(
                            side_relations(after_maps, delta@.dependencies, package, true),
                            side_relations(before_maps, delta@.dependencies, package, false),
                        );
                        assert(removed@ == removed_x);
                        assert(added@ == added_x);
                        assert(owners@ == changed_keys(delta@.owners));
                        assert(contribution_edits_of(contribution_key_order(before_maps.ownership, after_maps.ownership), before_maps.ownership, after_maps.ownership, evidence.ownership) == Some(ownership@));
                        assert(is_summary_seed(seed, package, changed_keys(delta@.owners), ownership@, removed_x, added_x));
                        lemma_derivation_summary_walks(package, changed_keys(delta@.owners), delta@.dependencies, before_maps, after_maps, evidence, ownership@, seed);
                    }
                }
            }
            return Err(error);
        },
    };
    let examined = count(removed.len());
    let derived = DerivedDelta {
        namespaces,
        ownership,
        relations: RelationDelta { removed, added },
        summary_candidates: summary,
        read_work: cache.work(),
        ownership_steps: steps,
        relation_edges_examined: examined,
    };
    proof {
        let owner_keys = changed_keys(delta@.owners);
        assert(owners@ == owner_keys);
        assert(contributions_of(changes@) == Ok::<(ContributionMaps, ContributionMaps), Seq<char>>((before_maps, after_maps)));
        assert(before.relations@ == side_relations(before_maps, delta@.dependencies, package, false));
        assert(after.relations@ == side_relations(after_maps, delta@.dependencies, package, true));
        assert(derived.relations.removed@ == edge_difference(before.relations@, after.relations@));
        assert(derived.relation_edges_examined == count_spec(derived.relations.removed@.len() as usize));
        let removed_s = edge_difference(side_relations(before_maps, delta@.dependencies, package, false), side_relations(after_maps, delta@.dependencies, package, true));
        assert(contribution_edits_of(contribution_key_order(before_maps.namespaces, after_maps.namespaces), before_maps.namespaces, after_maps.namespaces, evidence.namespaces) == Some(derived.namespaces@));
        assert(contribution_edits_of(contribution_key_order(before_maps.ownership, after_maps.ownership), before_maps.ownership, after_maps.ownership, evidence.ownership) == Some(derived.ownership@));
        assert(derived.relations.removed@ == removed_s);
        assert(forall|i: int| 0 <= i < removed_s.len() ==> evidence.forward.contains(#[trigger] removed_s[i]));
        assert(derived.summary_candidates@.no_duplicates());
        assert(derives(derived, package, owner_keys, delta@.dependencies, before_maps, after_maps, evidence));
    }
    Ok(derived)
}

/// Once a change's contribution is refused, every longer run of changes is refused too.
proof fn lemma_contributions_refusal_persists(changes: Seq<OwnerContribution>, k: int)
    requires
        0 <= k <= changes.len(),
        contributions_of(changes.take(k)) is Err,
    ensures
        contributions_of(changes) is Err,
    decreases changes.len() - k,
{
    if k < changes.len() {
        assert(changes.take(k + 1).drop_last() =~= changes.take(k));
        lemma_contributions_refusal_persists(changes, k + 1);
    } else {
        assert(changes.take(k) =~= changes);
    }
}

/// Adding the edges of a longer run adds the last one after the others.
proof fn lemma_with_edges_append(edges: Seq<RelationEdge>, more: Seq<RelationEdge>, edge: RelationEdge)
    ensures
        with_edges(edges, more.push(edge)) == with_edge(with_edges(edges, more), edge),
{
    assert(more.push(edge).drop_last() =~= more);
}

} // verus!
