//! Exact bounded forward and reverse relation reads over one derived delta.

use crate::base_read::{
    bound_summary, summary_binding_holds, BoundOwnerSummary, WitnessRead,
    bounded_prefix, owner_endpoint, select_prefix, selected_edges, EdgeSelection, WitnessBaseRead,
    WitnessReadWork, WitnessEvidence,
};
use crate::budget::MAXIMUM_RELATION_PREFIX_ITEMS;
use crate::delta::{answers, Refusal};
use crate::derived::DerivedDelta;
use crate::diagnostic::{static_message, Diagnostic, DiagnosticClass};
use crate::kernel::{OwnerKey, PackageId};
use crate::witness::{bound_in, contains_edge, OwnershipEntry, RelationEdge};
use vstd::prelude::*;

verus! {

/// One candidate relation read: the candidate edges and the edges inspected to produce them.
#[derive(Clone, Debug)]
pub struct CandidateRelationRead {
    pub edges: Vec<RelationEdge>,
    /// Base and delta edges inspected while producing `edges`, including index work.
    pub edges_examined: u64,
}

/// The delta edges of one endpoint.
#[derive(Clone, Debug)]
pub struct IndexedRelationDelta {
    pub removed: Vec<RelationEdge>,
    pub added: Vec<RelationEdge>,
}

/// One step of assembling a candidate relation set.
pub enum RelationOp {
    Insert(RelationEdge),
    Remove(RelationEdge),
}

/// The candidate relation set so far, in insertion order, and the edges inspected so far.
pub type RelationTally = Result<(Seq<RelationEdge>, int), Refusal>;

pub open spec fn resource(code: Seq<char>) -> Refusal {
    (DiagnosticClass::Resource, code)
}

/// `edges` without the first occurrence of `edge`.
pub open spec fn without(edges: Seq<RelationEdge>, edge: RelationEdge) -> Seq<RelationEdge>
    decreases edges.len(),
{
    if edges.len() == 0 {
        edges
    } else if edges[0] == edge {
        edges.drop_first()
    } else {
        seq![edges[0]] + without(edges.drop_first(), edge)
    }
}

/// The tally after one more step.
pub open spec fn relation_step(
    tally: RelationTally,
    op: RelationOp,
    maximum_work: u64,
    maximum_fanout: u64,
    missing_code: Seq<char>,
) -> RelationTally {
    match tally {
        Err(refusal) => Err(refusal),
        Ok((edges, examined)) => if examined >= maximum_work {
            Err(resource("change_budget_relation_edges"@))
        } else {
            match op {
                RelationOp::Insert(edge) => if !edges.contains(edge) && edges.len() >= maximum_fanout {
                    Err(resource("change_budget_relation_fanout"@))
                } else if edges.contains(edge) {
                    Ok((edges, examined + 1))
                } else {
                    Ok((edges.push(edge), examined + 1))
                },
                RelationOp::Remove(edge) => if !edges.contains(edge) {
                    Err((DiagnosticClass::Corrupt, missing_code))
                } else {
                    Ok((without(edges, edge), examined + 1))
                },
            }
        },
    }
}

/// The tally after a sequence of steps.
pub open spec fn run_relation_ops(
    ops: Seq<RelationOp>,
    start: RelationTally,
    maximum_work: u64,
    maximum_fanout: u64,
    missing_code: Seq<char>,
) -> RelationTally
    decreases ops.len(),
{
    if ops.len() == 0 {
        start
    } else {
        relation_step(
            run_relation_ops(ops.drop_last(), start, maximum_work, maximum_fanout, missing_code),
            ops.last(),
            maximum_work,
            maximum_fanout,
            missing_code,
        )
    }
}

/// The steps of applying a delta to base edges: insert the base, remove, then insert additions.
pub open spec fn relation_ops(base: Seq<RelationEdge>, removed: Seq<RelationEdge>, added: Seq<RelationEdge>) -> Seq<RelationOp> {
    base.map_values(|edge: RelationEdge| RelationOp::Insert(edge))
        + removed.map_values(|edge: RelationEdge| RelationOp::Remove(edge))
        + added.map_values(|edge: RelationEdge| RelationOp::Insert(edge))
}

/// The candidate edges of a delta applied to base edges, with the edges inspected, or the refusal.
pub open spec fn applied_relations(
    base: Seq<RelationEdge>,
    removed: Seq<RelationEdge>,
    added: Seq<RelationEdge>,
    missing_code: Seq<char>,
    maximum_work: u64,
    maximum_fanout: u64,
    initial_work: u64,
) -> RelationTally {
    run_relation_ops(
        relation_ops(base, removed, added),
        Ok((Seq::empty(), initial_work as int)),
        maximum_work,
        maximum_fanout,
        missing_code,
    )
}

/// A refusal part way through is the refusal of the whole sequence.
proof fn lemma_relation_refusal_persists(
    ops: Seq<RelationOp>,
    start: RelationTally,
    maximum_work: u64,
    maximum_fanout: u64,
    missing_code: Seq<char>,
    k: int,
)
    requires
        0 <= k <= ops.len(),
        run_relation_ops(ops.take(k), start, maximum_work, maximum_fanout, missing_code) is Err,
    ensures
        run_relation_ops(ops, start, maximum_work, maximum_fanout, missing_code)
            == run_relation_ops(ops.take(k), start, maximum_work, maximum_fanout, missing_code),
    decreases ops.len(),
{
    if k == ops.len() {
        assert(ops.take(k) =~= ops);
    } else {
        assert(ops.drop_last().take(k) =~= ops.take(k));
        lemma_relation_refusal_persists(ops.drop_last(), start, maximum_work, maximum_fanout, missing_code, k);
    }
}

/// Removing the first occurrence at its index is `without`.
proof fn lemma_remove_first(edges: Seq<RelationEdge>, edge: RelationEdge, i: int)
    requires
        0 <= i < edges.len(),
        edges[i] == edge,
        forall|j: int| 0 <= j < i ==> edges[j] != edge,
    ensures
        edges.remove(i) == without(edges, edge),
    decreases i,
{
    if i == 0 {
        assert(edges.remove(0) =~= edges.drop_first());
    } else {
        let rest = edges.drop_first();
        assert forall|j: int| 0 <= j < i - 1 implies rest[j] != edge by {
            assert(rest[j] == edges[j + 1]);
        }
        lemma_remove_first(rest, edge, i - 1);
        assert(edges.remove(i) =~= seq![edges[0]] + rest.remove(i - 1));
    }
}

/// A resource refusal of a relation traversal.
fn relation_error(class: DiagnosticClass, code: &str, message: &str) -> (r: Diagnostic)
    ensures
        r.class == class,
        r.code@ == code@,
{
    Diagnostic::new(class, code, static_message(message))
}

/// Counts one more inspected edge unless the edge budget is spent.
fn charge_relation_edge(observed: &mut u64, maximum_items: u64) -> (r: Result<(), Diagnostic>)
    ensures
        r is Ok <==> *old(observed) < maximum_items,
        r is Ok ==> *final(observed) == *old(observed) + 1,
        r matches Err(d) ==> answers(d, resource("change_budget_relation_edges"@)),
{
    if *observed >= maximum_items {
        return Err(relation_error(
            DiagnosticClass::Resource,
            "change_budget_relation_edges",
            "candidate relation traversal exceeds the remaining edge budget",
        ));
    }
    *observed = *observed + 1;
    Ok(())
}

/// Adds `edge` to the candidate set unless that would exceed the endpoint fanout.
fn insert_relation(relations: &mut Vec<RelationEdge>, edge: RelationEdge, maximum_fanout: u64) -> (r: Result<(), Diagnostic>)
    ensures
        r is Ok <==> (old(relations)@.contains(edge) || old(relations)@.len() < maximum_fanout),
        r is Ok ==> final(relations)@ == (if old(relations)@.contains(edge) { old(relations)@ } else { old(relations)@.push(edge) }),
        r matches Err(d) ==> answers(d, resource("change_budget_relation_fanout"@)),
{
    let present = contains_edge(relations, edge);
    if !present && relations.len() as u64 >= maximum_fanout {
        return Err(relation_error(
            DiagnosticClass::Resource,
            "change_budget_relation_fanout",
            "candidate relation endpoint exceeds the declared fanout budget",
        ));
    }
    if !present {
        relations.push(edge);
    }
    Ok(())
}

/// Removes `edge` from the candidate set, refusing an edge that is not there.
fn remove_relation(relations: &mut Vec<RelationEdge>, edge: RelationEdge, missing_code: &str) -> (r: Result<(), Diagnostic>)
    ensures
        r is Ok <==> old(relations)@.contains(edge),
        r is Ok ==> final(relations)@ == without(old(relations)@, edge),
        r matches Err(d) ==> answers(d, (DiagnosticClass::Corrupt, missing_code@)),
{
    let mut i: usize = 0;
    while i < relations.len()
        invariant
            i <= relations@.len(),
            relations@ == old(relations)@,
            forall|j: int| 0 <= j < i ==> relations@[j] != edge,
        decreases relations@.len() - i,
    {
        if relations[i] == edge {
            proof {
                lemma_remove_first(relations@, edge, i as int);
            }
            relations.remove(i);
            return Ok(());
        }
        i = i + 1;
    }
    Err(relation_error(
        DiagnosticClass::Corrupt,
        missing_code,
        "candidate relation delta removes an absent base edge",
    ))
}

/// Applies an endpoint's delta edges to its base edges, charging each inspected edge and
/// keeping the endpoint within its fanout.
pub fn apply_delta(
    base: Vec<RelationEdge>,
    delta: IndexedRelationDelta,
    missing_code: &str,
    maximum_work: u64,
    maximum_fanout: u64,
    initial_work: u64,
) -> (r: Result<CandidateRelationRead, Diagnostic>)
    ensures
        match applied_relations(base@, delta.removed@, delta.added@, missing_code@, maximum_work, maximum_fanout, initial_work) {
            Ok((edges, examined)) => r matches Ok(read) && read.edges@ == edges && read.edges_examined == examined,
            Err(refusal) => r matches Err(d) && answers(d, refusal),
        },
{
    let ghost ops = relation_ops(base@, delta.removed@, delta.added@);
    let ghost start: RelationTally = Ok((Seq::empty(), initial_work as int));
    let ghost code = missing_code@;
    let mut examined = initial_work;
    let mut relations: Vec<RelationEdge> = Vec::new();
    let mut i: usize = 0;
    proof {
        assert(ops.take(0) =~= Seq::<RelationOp>::empty());
    }
    while i < base.len()
        invariant
            i <= base@.len(),
            ops == relation_ops(base@, delta.removed@, delta.added@),
            start == Ok::<(Seq<RelationEdge>, int), Refusal>((Seq::empty(), initial_work as int)),
            code == missing_code@,
            run_relation_ops(ops.take(i as int), start, maximum_work, maximum_fanout, code)
                == Ok::<(Seq<RelationEdge>, int), Refusal>((relations@, examined as int)),
        decreases base@.len() - i,
    {
        let edge = base[i];
        proof {
            assert(ops[i as int] == RelationOp::Insert(edge));
            assert(ops.take(i + 1).drop_last() =~= ops.take(i as int));
        }
        let charged = charge_relation_edge(&mut examined, maximum_work);
        if charged.is_err() {
            proof {
                lemma_relation_refusal_persists(ops, start, maximum_work, maximum_fanout, code, i + 1);
            }
            return Err(charged.unwrap_err());
        }
        let inserted = insert_relation(&mut relations, edge, maximum_fanout);
        if inserted.is_err() {
            proof {
                lemma_relation_refusal_persists(ops, start, maximum_work, maximum_fanout, code, i + 1);
            }
            return Err(inserted.unwrap_err());
        }
        i = i + 1;
    }
    let mut j: usize = 0;
    while j < delta.removed.len()
        invariant
            i == base@.len(),
            j <= delta.removed@.len(),
            ops == relation_ops(base@, delta.removed@, delta.added@),
            start == Ok::<(Seq<RelationEdge>, int), Refusal>((Seq::empty(), initial_work as int)),
            code == missing_code@,
            run_relation_ops(ops.take(i + j), start, maximum_work, maximum_fanout, code)
                == Ok::<(Seq<RelationEdge>, int), Refusal>((relations@, examined as int)),
        decreases delta.removed@.len() - j,
    {
        let edge = delta.removed[j];
        proof {
            assert(ops[i + j] == RelationOp::Remove(edge));
            assert(ops.take(i + j + 1).drop_last() =~= ops.take(i + j));
        }
        let charged = charge_relation_edge(&mut examined, maximum_work);
        if charged.is_err() {
            proof {
                lemma_relation_refusal_persists(ops, start, maximum_work, maximum_fanout, code, i + j + 1);
            }
            return Err(charged.unwrap_err());
        }
        let removed = remove_relation(&mut relations, edge, missing_code);
        if removed.is_err() {
            proof {
                lemma_relation_refusal_persists(ops, start, maximum_work, maximum_fanout, code, i + j + 1);
            }
            return Err(removed.unwrap_err());
        }
        j = j + 1;
    }
    let mut k: usize = 0;
    while k < delta.added.len()
        invariant
            i == base@.len(),
            j == delta.removed@.len(),
            k <= delta.added@.len(),
            ops == relation_ops(base@, delta.removed@, delta.added@),
            start == Ok::<(Seq<RelationEdge>, int), Refusal>((Seq::empty(), initial_work as int)),
            code == missing_code@,
            run_relation_ops(ops.take(i + j + k), start, maximum_work, maximum_fanout, code)
                == Ok::<(Seq<RelationEdge>, int), Refusal>((relations@, examined as int)),
        decreases delta.added@.len() - k,
    {
        let edge = delta.added[k];
        proof {
            assert(ops[i + j + k] == RelationOp::Insert(edge));
            assert(ops.take(i + j + k + 1).drop_last() =~= ops.take(i + j + k));
        }
        let charged = charge_relation_edge(&mut examined, maximum_work);
        if charged.is_err() {
            proof {
                lemma_relation_refusal_persists(ops, start, maximum_work, maximum_fanout, code, i + j + k + 1);
            }
            return Err(charged.unwrap_err());
        }
        let inserted = insert_relation(&mut relations, edge, maximum_fanout);
        if inserted.is_err() {
            proof {
                lemma_relation_refusal_persists(ops, start, maximum_work, maximum_fanout, code, i + j + k + 1);
            }
            return Err(inserted.unwrap_err());
        }
        k = k + 1;
    }
    proof {
        assert(ops.take(i + j + k) =~= ops);
    }
    Ok(CandidateRelationRead { edges: relations, edges_examined: examined })
}


/// The most edges a base prefix read may return under both budgets.
pub open spec fn prefix_maximum(maximum_work: u64, maximum_fanout: u64) -> int {
    let least: int = if maximum_work < maximum_fanout { maximum_work as int } else { maximum_fanout as int };
    if least < MAXIMUM_RELATION_PREFIX_ITEMS { least } else { MAXIMUM_RELATION_PREFIX_ITEMS as int }
}

/// The most edges a base prefix read may return under both budgets.
fn bounded_maximum(maximum_work: u64, maximum_fanout: u64) -> (r: usize)
    ensures
        r == prefix_maximum(maximum_work, maximum_fanout),
{
    let least = if maximum_work < maximum_fanout { maximum_work } else { maximum_fanout };
    if least < MAXIMUM_RELATION_PREFIX_ITEMS as u64 {
        least as usize
    } else {
        MAXIMUM_RELATION_PREFIX_ITEMS
    }
}

/// The code of a base prefix that did not fit: whichever budget was the smaller.
pub open spec fn prefix_code(maximum_work: u64, maximum_fanout: u64) -> Seq<char> {
    if maximum_work < maximum_fanout {
        "change_budget_relation_edges"@
    } else {
        "change_budget_relation_fanout"@
    }
}

fn relation_prefix_code(maximum_work: u64, maximum_fanout: u64) -> (r: &'static str)
    ensures
        r@ == prefix_code(maximum_work, maximum_fanout),
{
    if maximum_work < maximum_fanout {
        "change_budget_relation_edges"
    } else {
        "change_budget_relation_fanout"
    }
}

/// Refuses a traversal with no edge or no fanout budget left.
fn require_relation_capacity(maximum_work: u64, maximum_fanout: u64) -> (r: Result<(), Diagnostic>)
    ensures
        r is Ok <==> maximum_work > 0 && maximum_fanout > 0,
        r matches Err(d) ==> if maximum_work == 0 {
            answers(d, resource("change_budget_relation_edges"@))
        } else {
            answers(d, resource("change_budget_relation_fanout"@))
        },
{
    if maximum_work == 0 {
        return Err(relation_error(
            DiagnosticClass::Resource,
            "change_budget_relation_edges",
            "relation traversal has no remaining edge budget",
        ));
    }
    if maximum_fanout == 0 {
        return Err(relation_error(
            DiagnosticClass::Resource,
            "change_budget_relation_fanout",
            "relation traversal has no remaining endpoint-fanout budget",
        ));
    }
    Ok(())
}

/// The edge budget left after inspecting the base edges.
fn remaining_after_base(maximum_work: u64, base: &Vec<RelationEdge>) -> (r: Result<u64, Diagnostic>)
    ensures
        r is Ok <==> base@.len() <= maximum_work,
        r matches Ok(rest) ==> rest == maximum_work - base@.len(),
        r matches Err(d) ==> answers(d, resource("change_budget_relation_edges"@)),
{
    if base.len() as u64 > maximum_work {
        return Err(relation_error(
            DiagnosticClass::Resource,
            "change_budget_relation_edges",
            "candidate base relation prefix exceeded the remaining edge budget",
        ));
    }
    Ok(maximum_work - base.len() as u64)
}

/// Every edge `selection` takes from `edges`, in order.
fn select_all(edges: &Vec<RelationEdge>, selection: EdgeSelection) -> (r: Vec<RelationEdge>)
    ensures
        r@ == selected_edges(edges@, selection),
{
    let (all, _) = select_prefix(edges, selection, edges.len());
    proof {
        broadcast use vstd::seq_lib::group_filter_ensures;
        assert(selected_edges(edges@, selection).len() <= edges@.len());
    }
    all
}

/// The number of delta edges the first indexing inspects.
pub open spec fn relation_count(derived: DerivedDelta) -> u64 {
    crate::base_read::sat_add(derived.relations.removed@.len() as u64, derived.relations.added@.len() as u64)
}

/// What applying an endpoint's delta to its complete base edges gives.
pub open spec fn delta_outcome(
    base: Seq<RelationEdge>,
    removed: Seq<RelationEdge>,
    added: Seq<RelationEdge>,
    indexed: bool,
    count: u64,
    missing_code: Seq<char>,
    maximum_work: u64,
    maximum_fanout: u64,
) -> RelationTally {
    if base.len() > maximum_work {
        Err(resource("change_budget_relation_edges"@))
    } else if !indexed && count > maximum_work - base.len() {
        Err(resource("change_budget_relation_edges"@))
    } else {
        applied_relations(base, removed, added, missing_code, maximum_work, maximum_fanout, if indexed { 0 } else { count })
    }
}

/// What a candidate relation read answers, given the endpoint's complete base edges and whether
/// they were already cached.
pub open spec fn candidate_outcome(
    base: Seq<RelationEdge>,
    cached: bool,
    removed: Seq<RelationEdge>,
    added: Seq<RelationEdge>,
    indexed: bool,
    count: u64,
    missing_code: Seq<char>,
    maximum_work: u64,
    maximum_fanout: u64,
) -> RelationTally {
    if maximum_work == 0 {
        Err(resource("change_budget_relation_edges"@))
    } else if maximum_fanout == 0 {
        Err(resource("change_budget_relation_fanout"@))
    } else if !cached && base.len() > prefix_maximum(maximum_work, maximum_fanout) {
        Err(resource(prefix_code(maximum_work, maximum_fanout)))
    } else {
        delta_outcome(base, removed, added, indexed, count, missing_code, maximum_work, maximum_fanout)
    }
}

/// Whether a read answered a candidate outcome exactly.
pub open spec fn answers_outcome(r: Result<CandidateRelationRead, Diagnostic>, outcome: RelationTally) -> bool {
    match outcome {
        Ok((edges, examined)) => r matches Ok(read) && read.edges@ == edges && read.edges_examined == examined,
        Err(refusal) => r matches Err(d) && answers(d, refusal),
    }
}

/// The cached edges of `key`, copied.
fn cached_owner_edges(entries: &Vec<(OwnerKey, Vec<RelationEdge>)>, key: OwnerKey) -> (r: Option<Vec<RelationEdge>>)
    ensures
        r matches Some(edges) ==> exists|i: int| 0 <= i < entries@.len() && entries@[i].0 == key && edges@ == entries@[i].1@,
        r is None ==> forall|i: int| 0 <= i < entries@.len() ==> entries@[i].0 != key,
{
    let mut i: usize = 0;
    while i < entries.len()
        invariant
            i <= entries@.len(),
            forall|j: int| 0 <= j < i ==> entries@[j].0 != key,
        decreases entries@.len() - i,
    {
        if entries[i].0 == key {
            return Some(crate::kernel::copy_entries(&entries[i].1));
        }
        i = i + 1;
    }
    None
}

/// The cached edges of `key`, copied.
fn cached_package_edges(entries: &Vec<(PackageId, Vec<RelationEdge>)>, key: PackageId) -> (r: Option<Vec<RelationEdge>>)
    ensures
        r matches Some(edges) ==> exists|i: int| 0 <= i < entries@.len() && entries@[i].0 == key && edges@ == entries@[i].1@,
        r is None ==> forall|i: int| 0 <= i < entries@.len() ==> entries@[i].0 != key,
{
    let mut i: usize = 0;
    while i < entries.len()
        invariant
            i <= entries@.len(),
            forall|j: int| 0 <= j < i ==> entries@[j].0 != key,
        decreases entries@.len() - i,
    {
        if entries[i].0 == key {
            return Some(crate::kernel::copy_entries(&entries[i].1));
        }
        i = i + 1;
    }
    None
}

/// The complete base edges leaving `owner`.
pub open spec fn outgoing_base(relations: WitnessEvidence, owner: OwnerKey) -> Seq<RelationEdge> {
    selected_edges(relations.forward, EdgeSelection::Outgoing(owner_endpoint(relations.package_id, owner)))
}

/// The complete base edges arriving at `owner`.
pub open spec fn incoming_base(relations: WitnessEvidence, owner: OwnerKey) -> Seq<RelationEdge> {
    selected_edges(relations.reverse, EdgeSelection::Incoming(owner_endpoint(relations.package_id, owner)))
}

/// The edges that applying `ops` to no edges leaves, whatever the budgets: an insertion adds an
/// edge not held yet, a removal drops it.
pub open spec fn merged_relations(ops: Seq<RelationOp>) -> Seq<RelationEdge>
    decreases ops.len(),
{
    if ops.len() == 0 {
        Seq::empty()
    } else {
        let edges = merged_relations(ops.drop_last());
        match ops.last() {
            RelationOp::Insert(edge) => if edges.contains(edge) { edges } else { edges.push(edge) },
            RelationOp::Remove(edge) => without(edges, edge),
        }
    }
}

/// The candidate edges arriving at `owner`: its base edges with the delta edges into it applied.
pub open spec fn candidate_incoming(
    evidence: WitnessEvidence,
    derived: DerivedDelta,
    package: PackageId,
    owner: OwnerKey,
) -> Seq<RelationEdge> {
    merged_relations(relation_ops(
        incoming_base(evidence, owner),
        selected_edges(derived.relations.removed@, EdgeSelection::Incoming(owner_endpoint(package, owner))),
        selected_edges(derived.relations.added@, EdgeSelection::Incoming(owner_endpoint(package, owner))),
    ))
}

/// The candidate edges arriving at owners of `package`: its base edges with the delta edges into
/// it applied.
pub open spec fn candidate_package_incoming(evidence: WitnessEvidence, derived: DerivedDelta, package: PackageId) -> Seq<RelationEdge> {
    merged_relations(relation_ops(
        package_base(evidence, package),
        selected_edges(derived.relations.removed@, EdgeSelection::IncomingPackage(package)),
        selected_edges(derived.relations.added@, EdgeSelection::IncomingPackage(package)),
    ))
}

/// Dropping the one occurrence of an edge from edges held without repeats removes exactly it.
proof fn lemma_without_one(edges: Seq<RelationEdge>, edge: RelationEdge)
    requires
        edges.no_duplicates(),
    ensures
        without(edges, edge).no_duplicates(),
        forall|e: RelationEdge| #[trigger] without(edges, edge).contains(e) <==> edges.contains(e) && e != edge,
    decreases edges.len(),
{
    if edges.len() > 0 {
        let rest = edges.drop_first();
        assert forall|i: int, j: int| 0 <= i < rest.len() && 0 <= j < rest.len() && i != j implies rest[i] != rest[j] by {
            assert(rest[i] == edges[i + 1] && rest[j] == edges[j + 1]);
        }
        lemma_without_one(rest, edge);
        assert forall|e: RelationEdge| #[trigger] rest.contains(e) <==> edges.contains(e) && e != edges[0] by {
            if rest.contains(e) {
                let k = choose|k: int| 0 <= k < rest.len() && rest[k] == e;
                assert(edges[k + 1] == e);
            }
            if edges.contains(e) && e != edges[0] {
                let k = choose|k: int| 0 <= k < edges.len() && edges[k] == e;
                assert(rest[k - 1] == e);
            }
        }
        if edges[0] != edge {
            let kept = seq![edges[0]] + without(rest, edge);
            assert forall|e: RelationEdge| #[trigger] kept.contains(e) <==> e == edges[0] || without(rest, edge).contains(e) by {
                if kept.contains(e) && e != edges[0] {
                    let k = choose|k: int| 0 <= k < kept.len() && kept[k] == e;
                    assert(without(rest, edge)[k - 1] == e);
                }
                if without(rest, edge).contains(e) {
                    let k = choose|k: int| 0 <= k < without(rest, edge).len() && without(rest, edge)[k] == e;
                    assert(kept[k + 1] == e);
                }
                if e == edges[0] {
                    assert(kept[0] == e);
                }
            }
            assert(!rest.contains(edges[0])) by {
                if rest.contains(edges[0]) {
                    let k = choose|k: int| 0 <= k < rest.len() && rest[k] == edges[0];
                    assert(edges[k + 1] == edges[0]);
                }
            }
            assert forall|i: int, j: int| 0 <= i < kept.len() && 0 <= j < kept.len() && i != j implies kept[i] != kept[j] by {
                if i > 0 && j > 0 {
                    assert(kept[i] == without(rest, edge)[i - 1] && kept[j] == without(rest, edge)[j - 1]);
                } else if i == 0 {
                    assert(without(rest, edge).contains(kept[j]));
                } else {
                    assert(without(rest, edge).contains(kept[i]));
                }
            }
        } else {
            assert(!rest.contains(edge)) by {
                if rest.contains(edge) {
                    let k = choose|k: int| 0 <= k < rest.len() && rest[k] == edge;
                    assert(edges[k + 1] == edges[0]);
                }
            }
        }
    }
}

/// Whether the last step of `ops` that mentions `edge` inserts it.
pub open spec fn last_inserts(ops: Seq<RelationOp>, edge: RelationEdge) -> bool {
    exists|i: int| 0 <= i < ops.len() && #[trigger] ops[i] == RelationOp::Insert(edge)
        && forall|j: int| i < j < ops.len() ==> #[trigger] ops[j] != RelationOp::Remove(edge)
}

/// The merge holds each edge once, and holds exactly the edges whose last step inserts them.
proof fn lemma_merged_holds_last_inserted(ops: Seq<RelationOp>)
    ensures
        merged_relations(ops).no_duplicates(),
        forall|e: RelationEdge| #[trigger] merged_relations(ops).contains(e) <==> last_inserts(ops, e),
    decreases ops.len(),
{
    if ops.len() > 0 {
        let earlier = ops.drop_last();
        lemma_merged_holds_last_inserted(earlier);
        let held = merged_relations(earlier);
        let last = ops.len() - 1;
        assert forall|j: int| 0 <= j < last implies #[trigger] earlier[j] == ops[j] by {}
        match ops.last() {
            RelationOp::Insert(x) => {
                assert(merged_relations(ops) == (if held.contains(x) { held } else { held.push(x) }));
                if !held.contains(x) {
                    assert forall|i: int, j: int| 0 <= i < held.push(x).len() && 0 <= j < held.push(x).len() && i != j
                        implies held.push(x)[i] != held.push(x)[j] by {
                        if i == held.len() as int {
                            assert(held.contains(held.push(x)[j]));
                        } else if j == held.len() as int {
                            assert(held.contains(held.push(x)[i]));
                        }
                    }
                    assert forall|e: RelationEdge| #[trigger] held.push(x).contains(e) <==> held.contains(e) || e == x by {
                        if held.push(x).contains(e) && e != x {
                            let k = choose|k: int| 0 <= k < held.push(x).len() && held.push(x)[k] == e;
                            assert(held[k] == e);
                        }
                        if held.contains(e) {
                            let k = choose|k: int| 0 <= k < held.len() && held[k] == e;
                            assert(held.push(x)[k] == e);
                        }
                        if e == x {
                            assert(held.push(x)[held.len() as int] == e);
                        }
                    }
                }
                assert forall|e: RelationEdge| #[trigger] merged_relations(ops).contains(e) <==> last_inserts(ops, e) by {
                    if e == x {
                        assert(ops[last] == RelationOp::Insert(e));
                        assert(last_inserts(ops, e));
                    } else {
                        if last_inserts(earlier, e) {
                            let i = choose|i: int| 0 <= i < earlier.len() && #[trigger] earlier[i] == RelationOp::Insert(e)
                                && forall|j: int| i < j < earlier.len() ==> #[trigger] earlier[j] != RelationOp::Remove(e);
                            assert(ops[i] == RelationOp::Insert(e));
                            assert forall|j: int| i < j < ops.len() implies #[trigger] ops[j] != RelationOp::Remove(e) by {
                                if j < last {
                                    assert(earlier[j] == ops[j]);
                                }
                            }
                            assert(last_inserts(ops, e));
                        }
                        if last_inserts(ops, e) {
                            let i = choose|i: int| 0 <= i < ops.len() && #[trigger] ops[i] == RelationOp::Insert(e)
                                && forall|j: int| i < j < ops.len() ==> #[trigger] ops[j] != RelationOp::Remove(e);
                            assert(i < last);
                            assert(earlier[i] == RelationOp::Insert(e));
                            assert forall|j: int| i < j < earlier.len() implies #[trigger] earlier[j] != RelationOp::Remove(e) by {
                                assert(earlier[j] == ops[j]);
                            }
                            assert(last_inserts(earlier, e));
                        }
                    }
                }
            },
            RelationOp::Remove(x) => {
                assert(merged_relations(ops) == without(held, x));
                lemma_without_one(held, x);
                assert forall|e: RelationEdge| #[trigger] merged_relations(ops).contains(e) <==> last_inserts(ops, e) by {
                    if e == x {
                        if last_inserts(ops, e) {
                            let i = choose|i: int| 0 <= i < ops.len() && #[trigger] ops[i] == RelationOp::Insert(e)
                                && forall|j: int| i < j < ops.len() ==> #[trigger] ops[j] != RelationOp::Remove(e);
                            if i < last {
                                assert(ops[last] == RelationOp::Remove(e));
                            }
                        }
                    } else {
                        if last_inserts(earlier, e) {
                            let i = choose|i: int| 0 <= i < earlier.len() && #[trigger] earlier[i] == RelationOp::Insert(e)
                                && forall|j: int| i < j < earlier.len() ==> #[trigger] earlier[j] != RelationOp::Remove(e);
                            assert(ops[i] == RelationOp::Insert(e));
                            assert forall|j: int| i < j < ops.len() implies #[trigger] ops[j] != RelationOp::Remove(e) by {
                                if j < last {
                                    assert(earlier[j] == ops[j]);
                                }
                            }
                            assert(last_inserts(ops, e));
                        }
                        if last_inserts(ops, e) {
                            let i = choose|i: int| 0 <= i < ops.len() && #[trigger] ops[i] == RelationOp::Insert(e)
                                && forall|j: int| i < j < ops.len() ==> #[trigger] ops[j] != RelationOp::Remove(e);
                            assert(i < last);
                            assert(earlier[i] == RelationOp::Insert(e));
                            assert forall|j: int| i < j < earlier.len() implies #[trigger] earlier[j] != RelationOp::Remove(e) by {
                                assert(earlier[j] == ops[j]);
                            }
                            assert(last_inserts(earlier, e));
                        }
                    }
                }
            },
        }
    }
}

/// Applying a delta to base edges holds each edge once: the added edges, and the base edges the
/// delta does not remove.
pub proof fn delta_applied_edges(base: Seq<RelationEdge>, removed: Seq<RelationEdge>, added: Seq<RelationEdge>)
    ensures
        merged_relations(relation_ops(base, removed, added)).no_duplicates(),
        forall|e: RelationEdge| #[trigger] merged_relations(relation_ops(base, removed, added)).contains(e)
            <==> added.contains(e) || (base.contains(e) && !removed.contains(e)),
{
    let ops = relation_ops(base, removed, added);
    lemma_merged_holds_last_inserted(ops);
    let nb = base.len() as int;
    let nr = removed.len() as int;
    assert(ops.len() == nb + nr + added.len());
    assert forall|k: int| 0 <= k < nb implies #[trigger] ops[k] == RelationOp::Insert(base[k]) by {}
    assert forall|k: int| 0 <= k < nr implies #[trigger] ops[nb + k] == RelationOp::Remove(removed[k]) by {}
    assert forall|k: int| 0 <= k < added.len() implies #[trigger] ops[nb + nr + k] == RelationOp::Insert(added[k]) by {}
    assert forall|e: RelationEdge| #[trigger] merged_relations(ops).contains(e)
        <==> added.contains(e) || (base.contains(e) && !removed.contains(e)) by {
        if added.contains(e) {
            let k = choose|k: int| 0 <= k < added.len() && added[k] == e;
            let i = nb + nr + k;
            assert(ops[i] == RelationOp::Insert(e));
            assert forall|j: int| i < j < ops.len() implies #[trigger] ops[j] != RelationOp::Remove(e) by {
                assert(ops[nb + nr + (j - nb - nr)] == RelationOp::Insert(added[j - nb - nr]));
            }
            assert(last_inserts(ops, e));
        } else if base.contains(e) && !removed.contains(e) {
            let k = choose|k: int| 0 <= k < nb && base[k] == e;
            assert(ops[k] == RelationOp::Insert(e));
            assert forall|j: int| k < j < ops.len() implies #[trigger] ops[j] != RelationOp::Remove(e) by {
                if j < nb {
                    assert(ops[j] == RelationOp::Insert(base[j]));
                } else if j < nb + nr {
                    assert(ops[nb + (j - nb)] == RelationOp::Remove(removed[j - nb]));
                    assert(removed[j - nb] != e);
                } else {
                    assert(ops[nb + nr + (j - nb - nr)] == RelationOp::Insert(added[j - nb - nr]));
                }
            }
            assert(last_inserts(ops, e));
        } else if last_inserts(ops, e) {
            let i = choose|i: int| 0 <= i < ops.len() && #[trigger] ops[i] == RelationOp::Insert(e)
                && forall|j: int| i < j < ops.len() ==> #[trigger] ops[j] != RelationOp::Remove(e);
            if i < nb {
                assert(ops[i] == RelationOp::Insert(base[i]));
                assert(base.contains(e));
                let k = choose|k: int| 0 <= k < nr && removed[k] == e;
                assert(ops[nb + k] == RelationOp::Remove(e));
            } else if i < nb + nr {
                assert(ops[nb + (i - nb)] == RelationOp::Remove(removed[i - nb]));
            } else {
                assert(ops[nb + nr + (i - nb - nr)] == RelationOp::Insert(added[i - nb - nr]));
                assert(added[i - nb - nr] == e);
            }
        }
    }
}

/// The candidate edges arriving at an owner are its base edges that the derived delta does not
/// remove, with the delta's added edges into it, each once; likewise the candidate edges
/// arriving at a package's owners.
pub proof fn candidate_edges_apply_the_delta(evidence: WitnessEvidence, derived: DerivedDelta, package: PackageId, owner: OwnerKey)
    ensures
        candidate_incoming(evidence, derived, package, owner).no_duplicates(),
        forall|e: RelationEdge| #[trigger] candidate_incoming(evidence, derived, package, owner).contains(e) <==> {
            ||| selected_edges(derived.relations.added@, EdgeSelection::Incoming(owner_endpoint(package, owner))).contains(e)
            ||| incoming_base(evidence, owner).contains(e)
                && !selected_edges(derived.relations.removed@, EdgeSelection::Incoming(owner_endpoint(package, owner))).contains(e)
        },
        candidate_package_incoming(evidence, derived, package).no_duplicates(),
        forall|e: RelationEdge| #[trigger] candidate_package_incoming(evidence, derived, package).contains(e) <==> {
            ||| selected_edges(derived.relations.added@, EdgeSelection::IncomingPackage(package)).contains(e)
            ||| package_base(evidence, package).contains(e)
                && !selected_edges(derived.relations.removed@, EdgeSelection::IncomingPackage(package)).contains(e)
        },
{
    delta_applied_edges(
        incoming_base(evidence, owner),
        selected_edges(derived.relations.removed@, EdgeSelection::Incoming(owner_endpoint(package, owner))),
        selected_edges(derived.relations.added@, EdgeSelection::Incoming(owner_endpoint(package, owner))),
    );
    delta_applied_edges(
        package_base(evidence, package),
        selected_edges(derived.relations.removed@, EdgeSelection::IncomingPackage(package)),
        selected_edges(derived.relations.added@, EdgeSelection::IncomingPackage(package)),
    );
}

/// A traversal that the budgets let finish holds the edges that the unbounded merge gives.
proof fn lemma_run_merged(
    ops: Seq<RelationOp>,
    start_work: int,
    maximum_work: u64,
    maximum_fanout: u64,
    missing_code: Seq<char>,
)
    ensures
        run_relation_ops(ops, Ok((Seq::empty(), start_work)), maximum_work, maximum_fanout, missing_code) matches Ok((edges, _))
            ==> edges == merged_relations(ops),
    decreases ops.len(),
{
    if ops.len() > 0 {
        lemma_run_merged(ops.drop_last(), start_work, maximum_work, maximum_fanout, missing_code);
    }
}

/// A candidate read that succeeds answers the merged candidate edges.
pub proof fn lemma_candidate_outcome_edges(
    base: Seq<RelationEdge>,
    cached: bool,
    removed: Seq<RelationEdge>,
    added: Seq<RelationEdge>,
    indexed: bool,
    count: u64,
    missing_code: Seq<char>,
    maximum_work: u64,
    maximum_fanout: u64,
)
    ensures
        candidate_outcome(base, cached, removed, added, indexed, count, missing_code, maximum_work, maximum_fanout) matches Ok((edges, _))
            ==> edges == merged_relations(relation_ops(base, removed, added)),
{
    lemma_run_merged(
        relation_ops(base, removed, added),
        (if indexed { 0u64 } else { count }) as int,
        maximum_work,
        maximum_fanout,
        missing_code,
    );
}

/// The complete base edges arriving at owners of `package`.
pub open spec fn package_base(relations: WitnessEvidence, package: PackageId) -> Seq<RelationEdge> {
    selected_edges(relations.reverse, EdgeSelection::IncomingPackage(package))
}

/// Exact bounded relation reads of a candidate: base witness edges with one derived delta applied.
/// Base prefixes are read once per endpoint and cached; the delta is indexed, and charged, once.
pub struct CandidateRelations<W> {
    package: PackageId,
    derived: DerivedDelta,
    base: W,
    delta_indexed: bool,
    outgoing: Vec<(OwnerKey, Vec<RelationEdge>)>,
    incoming: Vec<(OwnerKey, Vec<RelationEdge>)>,
    incoming_packages: Vec<(PackageId, Vec<RelationEdge>)>,
    work: WitnessReadWork,
}

impl<W: WitnessBaseRead> CandidateRelations<W> {
    /// The base witness read through.
    pub closed spec fn source(&self) -> W {
        self.base
    }

    /// The package whose owners the delta edges are indexed by.
    pub closed spec fn local_package(&self) -> PackageId {
        self.package
    }

    /// The derived delta applied.
    pub closed spec fn derived_delta(&self) -> DerivedDelta {
        self.derived
    }

    /// Whether the delta was indexed, and charged, already.
    pub closed spec fn indexed(&self) -> bool {
        self.delta_indexed
    }

    /// The witness read work so far.
    pub closed spec fn spent(&self) -> WitnessReadWork {
        self.work
    }

    /// Whether the outgoing base edges of `owner` are cached.
    pub closed spec fn outgoing_cached(&self, owner: OwnerKey) -> bool {
        exists|i: int| 0 <= i < self.outgoing@.len() && self.outgoing@[i].0 == owner
    }

    /// Whether the incoming base edges of `owner` are cached.
    pub closed spec fn incoming_cached(&self, owner: OwnerKey) -> bool {
        exists|i: int| 0 <= i < self.incoming@.len() && self.incoming@[i].0 == owner
    }

    /// Whether the base edges into `package` are cached.
    pub closed spec fn package_cached(&self, package: PackageId) -> bool {
        exists|i: int| 0 <= i < self.incoming_packages@.len() && self.incoming_packages@[i].0 == package
    }

    /// Every cached base list is the complete base selection of its endpoint.
    pub closed spec fn wf(&self) -> bool {
        &&& forall|i: int| 0 <= i < self.outgoing@.len()
            ==> #[trigger] self.outgoing@[i].1@ == outgoing_base(self.base.evidence(), self.outgoing@[i].0)
        &&& forall|i: int| 0 <= i < self.incoming@.len()
            ==> #[trigger] self.incoming@[i].1@ == incoming_base(self.base.evidence(), self.incoming@[i].0)
        &&& forall|i: int| 0 <= i < self.incoming_packages@.len()
            ==> #[trigger] self.incoming_packages@[i].1@ == package_base(self.base.evidence(), self.incoming_packages@[i].0)
    }

    /// `later` is this view after more reads: still well formed over the same evidence and delta.
    pub open spec fn evolves_to(&self, later: &Self) -> bool {
        &&& later.wf()
        &&& later.source().evidence() == self.source().evidence()
        &&& later.source().witness_reads_are_total() == self.source().witness_reads_are_total()
        &&& later.local_package() == self.local_package()
        &&& later.derived_delta() == self.derived_delta()
        &&& self.indexed() ==> later.indexed()
    }

    /// Reads the base ownership entry of `owner` from the witness this view reads.
    pub fn read_base_ownership(&mut self, owner: OwnerKey) -> (r: Result<WitnessRead<Option<OwnershipEntry>>, Diagnostic>)
        requires
            old(self).wf(),
        ensures
            old(self).evolves_to(final(self)),
            r matches Ok(read) ==> read.value == bound_in(old(self).source().evidence().ownership, owner),
            old(self).source().witness_reads_are_total() ==> r is Ok,
    {
        self.base.read_ownership(owner)
    }

    /// Reads the owner summary of `owner` from the witness this view reads.
    pub fn read_base_owner_summary(&mut self, owner: OwnerKey) -> (r: Result<WitnessRead<Option<BoundOwnerSummary>>, Diagnostic>)
        requires
            old(self).wf(),
        ensures
            old(self).evolves_to(final(self)),
            r matches Ok(read) ==> read.value == bound_summary(old(self).source().evidence(), owner),
            old(self).source().witness_reads_are_total()
                ==> (r is Ok <==> summary_binding_holds(old(self).source().evidence(), owner)),
            old(self).source().witness_reads_are_total() && !summary_binding_holds(old(self).source().evidence(), owner)
                ==> (r matches Err(d) && d.class == DiagnosticClass::Corrupt),
    {
        self.base.read_owner_summary(owner)
    }

    /// A view of `base` with the relation delta of `derived`, indexed by owners of `package`.
    pub fn new(package: PackageId, derived: DerivedDelta, base: W) -> (r: Self)
        ensures
            r.wf(),
            r.source() == base,
            r.local_package() == package,
            r.derived_delta() == derived,
            !r.indexed(),
            r.spent() == WitnessReadWork::zero(),
            forall|owner: OwnerKey| !r.outgoing_cached(owner) && !r.incoming_cached(owner),
            forall|package: PackageId| !r.package_cached(package),
    {
        CandidateRelations {
            package,
            derived,
            base,
            delta_indexed: false,
            outgoing: Vec::new(),
            incoming: Vec::new(),
            incoming_packages: Vec::new(),
            work: WitnessReadWork::default(),
        }
    }

    /// The witness read work so far.
    pub fn work(&self) -> (r: WitnessReadWork)
        ensures
            r == self.spent(),
    {
        self.work
    }

    /// Indexes the delta once, charging its edges against `maximum_work`.
    fn ensure_delta_index(&mut self, maximum_work: u64) -> (r: Result<u64, Diagnostic>)
        ensures
            final(self).base == old(self).base,
            final(self).package == old(self).package,
            final(self).derived == old(self).derived,
            final(self).outgoing == old(self).outgoing,
            final(self).incoming == old(self).incoming,
            final(self).incoming_packages == old(self).incoming_packages,
            final(self).work == old(self).work,
            old(self).delta_indexed ==> r == Ok::<u64, Diagnostic>(0) && final(self).delta_indexed,
            !old(self).delta_indexed ==> if relation_count(old(self).derived) > maximum_work {
                r matches Err(d) && answers(d, resource("change_budget_relation_edges"@)) && !final(self).delta_indexed
            } else {
                r == Ok::<u64, Diagnostic>(relation_count(old(self).derived)) && final(self).delta_indexed
            },
    {
        if self.delta_indexed {
            return Ok(0);
        }
        let relation_count = (self.derived.relations.removed.len() as u64).saturating_add(
            self.derived.relations.added.len() as u64,
        );
        if relation_count > maximum_work {
            return Err(relation_error(
                DiagnosticClass::Resource,
                "change_budget_relation_edges",
                "candidate relation delta indexing requires more edge inspections than remain",
            ));
        }
        self.delta_indexed = true;
        Ok(relation_count)
    }

    /// Applies the delta edges `selection` takes to the complete base edges of one endpoint.
    fn finish_candidate(
        &mut self,
        base: Vec<RelationEdge>,
        selection: EdgeSelection,
        missing_code: &str,
        maximum_work: u64,
        maximum_fanout: u64,
    ) -> (r: Result<CandidateRelationRead, Diagnostic>)
        ensures
            final(self).base == old(self).base,
            final(self).package == old(self).package,
            final(self).derived == old(self).derived,
            final(self).outgoing == old(self).outgoing,
            final(self).incoming == old(self).incoming,
            final(self).incoming_packages == old(self).incoming_packages,
            final(self).work == old(self).work,
            old(self).delta_indexed ==> final(self).delta_indexed,
            r is Ok ==> final(self).delta_indexed,
            answers_outcome(r, delta_outcome(
                base@,
                selected_edges(old(self).derived.relations.removed@, selection),
                selected_edges(old(self).derived.relations.added@, selection),
                old(self).delta_indexed,
                relation_count(old(self).derived),
                missing_code@,
                maximum_work,
                maximum_fanout,
            )),
    {
        let remaining = remaining_after_base(maximum_work, &base)?;
        let index_work = self.ensure_delta_index(remaining)?;
        let delta = IndexedRelationDelta {
            removed: select_all(&self.derived.relations.removed, selection),
            added: select_all(&self.derived.relations.added, selection),
        };
        apply_delta(base, delta, missing_code, maximum_work, maximum_fanout, index_work)
    }

    /// The candidate edges leaving `owner`.
    pub fn outgoing(&mut self, owner: OwnerKey, maximum_work: u64, maximum_fanout: u64) -> (r: Result<CandidateRelationRead, Diagnostic>)
        requires
            old(self).wf(),
        ensures
            final(self).wf(),
            final(self).source().evidence() == old(self).source().evidence(),
            final(self).source().witness_reads_are_total() == old(self).source().witness_reads_are_total(),
            final(self).local_package() == old(self).local_package(),
            final(self).derived_delta() == old(self).derived_delta(),
            old(self).indexed() ==> final(self).indexed(),
            r is Ok ==> final(self).indexed(),
            ({
                let outcome = candidate_outcome(
                    outgoing_base(old(self).source().evidence(), owner),
                    old(self).outgoing_cached(owner),
                    selected_edges(old(self).derived_delta().relations.removed@, EdgeSelection::Outgoing(owner_endpoint(old(self).local_package(), owner))),
                    selected_edges(old(self).derived_delta().relations.added@, EdgeSelection::Outgoing(owner_endpoint(old(self).local_package(), owner))),
                    old(self).indexed(),
                    relation_count(old(self).derived_delta()),
                    "change_relation_forward_remove"@,
                    maximum_work,
                    maximum_fanout,
                );
                &&& r matches Ok(_) ==> answers_outcome(r, outcome)
                &&& old(self).source().witness_reads_are_total() ==> answers_outcome(r, outcome)
                &&& (maximum_work == 0 || maximum_fanout == 0 || old(self).outgoing_cached(owner)) ==> answers_outcome(r, outcome)
            }),
    {
        require_relation_capacity(maximum_work, maximum_fanout)?;
        let base = match cached_owner_edges(&self.outgoing, owner) {
            Some(edges) => edges,
            None => {
                let read = self.base.read_outgoing_relations(owner, bounded_maximum(maximum_work, maximum_fanout))?;
                self.work.add(read.work);
                if read.value.truncated {
                    return Err(relation_error(
                        DiagnosticClass::Resource,
                        relation_prefix_code(maximum_work, maximum_fanout),
                        "outgoing relation prefix exceeds the remaining work or per-owner fanout budget",
                    ));
                }
                let edges = read.value.edges;
                self.outgoing.push((owner, crate::kernel::copy_entries(&edges)));
                edges
            },
        };
        let local = owner_endpoint_of(self.package, owner);
        self.finish_candidate(base, EdgeSelection::Outgoing(local), "change_relation_forward_remove", maximum_work, maximum_fanout)
    }

    /// The candidate edges arriving at `owner`.
    pub fn incoming(&mut self, owner: OwnerKey, maximum_work: u64, maximum_fanout: u64) -> (r: Result<CandidateRelationRead, Diagnostic>)
        requires
            old(self).wf(),
        ensures
            final(self).wf(),
            final(self).source().evidence() == old(self).source().evidence(),
            final(self).source().witness_reads_are_total() == old(self).source().witness_reads_are_total(),
            final(self).local_package() == old(self).local_package(),
            final(self).derived_delta() == old(self).derived_delta(),
            old(self).indexed() ==> final(self).indexed(),
            r is Ok ==> final(self).indexed(),
            ({
                let outcome = candidate_outcome(
                    incoming_base(old(self).source().evidence(), owner),
                    old(self).incoming_cached(owner),
                    selected_edges(old(self).derived_delta().relations.removed@, EdgeSelection::Incoming(owner_endpoint(old(self).local_package(), owner))),
                    selected_edges(old(self).derived_delta().relations.added@, EdgeSelection::Incoming(owner_endpoint(old(self).local_package(), owner))),
                    old(self).indexed(),
                    relation_count(old(self).derived_delta()),
                    "change_relation_reverse_remove"@,
                    maximum_work,
                    maximum_fanout,
                );
                &&& r matches Ok(_) ==> answers_outcome(r, outcome)
                &&& old(self).source().witness_reads_are_total() ==> answers_outcome(r, outcome)
                &&& (maximum_work == 0 || maximum_fanout == 0 || old(self).incoming_cached(owner)) ==> answers_outcome(r, outcome)
            }),
    {
        require_relation_capacity(maximum_work, maximum_fanout)?;
        let base = match cached_owner_edges(&self.incoming, owner) {
            Some(edges) => edges,
            None => {
                let read = self.base.read_incoming_relations(owner, bounded_maximum(maximum_work, maximum_fanout))?;
                self.work.add(read.work);
                if read.value.truncated {
                    return Err(relation_error(
                        DiagnosticClass::Resource,
                        relation_prefix_code(maximum_work, maximum_fanout),
                        "incoming relation prefix exceeds the remaining work or per-owner fanout budget",
                    ));
                }
                let edges = read.value.edges;
                self.incoming.push((owner, crate::kernel::copy_entries(&edges)));
                edges
            },
        };
        let local = owner_endpoint_of(self.package, owner);
        self.finish_candidate(base, EdgeSelection::Incoming(local), "change_relation_reverse_remove", maximum_work, maximum_fanout)
    }

    /// The candidate edges arriving at owners of `package`.
    pub fn incoming_package(&mut self, package: PackageId, maximum_work: u64, maximum_fanout: u64) -> (r: Result<CandidateRelationRead, Diagnostic>)
        requires
            old(self).wf(),
        ensures
            final(self).wf(),
            final(self).source().evidence() == old(self).source().evidence(),
            final(self).source().witness_reads_are_total() == old(self).source().witness_reads_are_total(),
            final(self).local_package() == old(self).local_package(),
            final(self).derived_delta() == old(self).derived_delta(),
            old(self).indexed() ==> final(self).indexed(),
            r is Ok ==> final(self).indexed(),
            ({
                let outcome = candidate_outcome(
                    package_base(old(self).source().evidence(), package),
                    old(self).package_cached(package),
                    selected_edges(old(self).derived_delta().relations.removed@, EdgeSelection::IncomingPackage(package)),
                    selected_edges(old(self).derived_delta().relations.added@, EdgeSelection::IncomingPackage(package)),
                    old(self).indexed(),
                    relation_count(old(self).derived_delta()),
                    "change_relation_package_remove"@,
                    maximum_work,
                    maximum_fanout,
                );
                &&& r matches Ok(_) ==> answers_outcome(r, outcome)
                &&& old(self).source().witness_reads_are_total() ==> answers_outcome(r, outcome)
                &&& (maximum_work == 0 || maximum_fanout == 0 || old(self).package_cached(package)) ==> answers_outcome(r, outcome)
            }),
    {
        require_relation_capacity(maximum_work, maximum_fanout)?;
        let base = match cached_package_edges(&self.incoming_packages, package) {
            Some(edges) => edges,
            None => {
                let read = self.base.read_incoming_package_relations(package, bounded_maximum(maximum_work, maximum_fanout))?;
                self.work.add(read.work);
                if read.value.truncated {
                    return Err(relation_error(
                        DiagnosticClass::Resource,
                        relation_prefix_code(maximum_work, maximum_fanout),
                        "foreign-package relation prefix exceeds the remaining work or per-package fanout budget",
                    ));
                }
                let edges = read.value.edges;
                self.incoming_packages.push((package, crate::kernel::copy_entries(&edges)));
                edges
            },
        };
        self.finish_candidate(base, EdgeSelection::IncomingPackage(package), "change_relation_package_remove", maximum_work, maximum_fanout)
    }
}

/// The endpoint of `owner` in `package`.
fn owner_endpoint_of(package: PackageId, owner: OwnerKey) -> (r: crate::witness::RelationEndpoint)
    ensures
        r == owner_endpoint(package, owner),
{
    crate::witness::RelationEndpoint::Owner(crate::witness::ExactOwnerKey { package, owner })
}

} // verus!
