//! Paging the accepted revision history: which records of the parent chain, walked from the
//! head, a page lists, and where the next page begins.

use crate::diagnostic::{static_message, Diagnostic, DiagnosticClass};
use vstd::prelude::*;

verus! {

/// The most revisions one history page may list.
pub const HISTORY_MAXIMUM_ITEMS: usize = 1000;

/// The positions in a walked chain of the records a page lists, in walking order, and the
/// revision bound the next page starts from, if the page is full and more records follow.
#[derive(Clone, Debug)]
pub struct HistorySelection {
    pub positions: Vec<usize>,
    pub next_before: Option<u64>,
}

/// `value + 1`, saturating at the top.
pub open spec fn successor(value: u64) -> u64 {
    if value == u64::MAX { value } else { (value + 1) as u64 }
}

/// The bound a page starts from: the one asked for, or just past the head.
pub open spec fn page_bound(head: u64, before: Option<u64>) -> u64 {
    match before {
        Some(bound) => bound,
        None => successor(head),
    }
}

/// The positions of the records of `revisions` below `bound`, in order.
pub open spec fn eligible(revisions: Seq<u64>, bound: u64) -> Seq<usize>
    decreases revisions.len(),
{
    if revisions.len() == 0 {
        Seq::empty()
    } else {
        eligible(revisions.drop_last(), bound) + if revisions.last() < bound {
            seq![(revisions.len() - 1) as usize]
        } else {
            Seq::empty()
        }
    }
}

/// What a history page over the chain `revisions`, walked from the head revision `head`, lists:
/// the first `limit` records below the bound, and, where another such record follows, the
/// bound just past it; or the code of the refusal of the limit.
pub open spec fn history_page(revisions: Seq<u64>, head: u64, before: Option<u64>, limit: usize) -> Result<(Seq<usize>, Option<u64>), Seq<char>> {
    if limit == 0 || limit > 1000 {
        Err("source_history_limit"@)
    } else {
        let listed = eligible(revisions, page_bound(head, before));
        if listed.len() > limit {
            Ok((listed.take(limit as int), Some(successor(revisions[listed[limit as int] as int]))))
        } else {
            Ok((listed, None))
        }
    }
}

/// The eligible positions are in range, below the bound, strictly increasing, and complete.
proof fn lemma_eligible_facts(revisions: Seq<u64>, bound: u64)
    requires
        revisions.len() <= usize::MAX,
    ensures
        forall|k: int| 0 <= k < eligible(revisions, bound).len() ==> (#[trigger] eligible(revisions, bound)[k] as int) < revisions.len()
            && revisions[eligible(revisions, bound)[k] as int] < bound,
        forall|k1: int, k2: int| 0 <= k1 < k2 < eligible(revisions, bound).len()
            ==> #[trigger] eligible(revisions, bound)[k1] < #[trigger] eligible(revisions, bound)[k2],
        forall|i: int| 0 <= i < revisions.len() && #[trigger] revisions[i] < bound
            ==> exists|k: int| 0 <= k < eligible(revisions, bound).len() && eligible(revisions, bound)[k] as int == i,
    decreases revisions.len(),
{
    if revisions.len() > 0 {
        let shorter = revisions.drop_last();
        lemma_eligible_facts(shorter, bound);
        let before = eligible(shorter, bound);
        let whole = eligible(revisions, bound);
        let last = revisions.len() - 1;
        assert forall|k: int| 0 <= k < before.len() implies whole[k] == before[k] && revisions[before[k] as int] == shorter[before[k] as int] by {
            assert(whole[k] == before[k]);
        }
        if revisions.last() < bound {
            assert(whole == before.push(last as usize));
            assert(whole[before.len() as int] == last as usize);
        } else {
            assert(whole =~= before);
        }
        assert forall|i: int| 0 <= i < revisions.len() && #[trigger] revisions[i] < bound
            implies exists|k: int| 0 <= k < whole.len() && whole[k] as int == i by {
            if i < last {
                assert(shorter[i] == revisions[i]);
                let k = choose|k: int| 0 <= k < before.len() && before[k] as int == i;
                assert(whole[k] == before[k]);
            } else {
                assert(revisions.last() == revisions[i]);
                assert(whole == before.push(last as usize));
                assert(whole[before.len() as int] as int == i);
            }
        }
    }
}

/// A history page lists, in walking order, the first `limit` records of the chain below its
/// bound (the one asked for, or just past the head), skipping none before the last it lists;
/// it names where the next page begins exactly when another such record follows, as just past
/// that record's revision. A limit of 0 or over 1000 is refused.
pub proof fn history_page_lists_first_records_below_bound(revisions: Seq<u64>, head: u64, before: Option<u64>, limit: usize)
    requires
        revisions.len() <= usize::MAX,
    ensures
        history_page(revisions, head, before, limit) is Err <==> limit == 0 || limit > 1000,
        history_page(revisions, head, before, limit) matches Ok((positions, next)) ==> {
            let bound = match before {
                Some(bound) => bound,
                None => if head == u64::MAX { head } else { (head + 1) as u64 },
            };
            &&& positions.len() <= limit
            &&& forall|k: int| 0 <= k < positions.len() ==> (#[trigger] positions[k] as int) < revisions.len()
                && revisions[positions[k] as int] < bound
            &&& forall|k1: int, k2: int| 0 <= k1 < k2 < positions.len() ==> #[trigger] positions[k1] < #[trigger] positions[k2]
            &&& forall|i: int| 0 <= i < revisions.len() && #[trigger] revisions[i] < bound
                && (next is None || i < positions[positions.len() - 1]) ==> positions.contains(i as usize)
            &&& (next matches Some(following) ==> positions.len() == limit && exists|i: int|
                positions[positions.len() - 1] < i < revisions.len() && #[trigger] revisions[i] < bound
                && following == (if revisions[i] == u64::MAX { revisions[i] } else { (revisions[i] + 1) as u64 })
                && forall|j: int| positions[positions.len() - 1] < j < i ==> revisions[j] >= bound)
        },
{
    let bound = page_bound(head, before);
    lemma_eligible_facts(revisions, bound);
    let listed = eligible(revisions, bound);
    if 0 < limit <= 1000 {
        if listed.len() > limit {
            let positions = listed.take(limit as int);
            assert forall|i: int| 0 <= i < revisions.len() && #[trigger] revisions[i] < bound
                && i < positions[positions.len() - 1] implies positions.contains(i as usize) by {
                let k = choose|k: int| 0 <= k < listed.len() && listed[k] as int == i;
                if k >= limit {
                    assert(listed[limit - 1] < listed[k] || limit - 1 == k);
                }
                assert(positions[k] == listed[k]);
            }
            let i = listed[limit as int] as int;
            assert(listed[limit - 1] < listed[limit as int]);
            assert forall|j: int| positions[positions.len() - 1] < j < i implies revisions[j] >= bound by {
                if revisions[j] < bound {
                    let k = choose|k: int| 0 <= k < listed.len() && listed[k] as int == j;
                    if k < limit {
                        if k < limit - 1 {
                            assert(listed[k] < listed[limit - 1]);
                        }
                    } else if k > limit {
                        assert(listed[limit as int] < listed[k]);
                    }
                }
            }
            assert(revisions[i] < bound);
        } else {
            assert forall|i: int| 0 <= i < revisions.len() && #[trigger] revisions[i] < bound implies listed.contains(i as usize) by {
                let k = choose|k: int| 0 <= k < listed.len() && listed[k] as int == i;
                assert(listed[k] == i as usize);
            }
        }
    }
}

/// Chooses the records a history page over the walked chain `revisions` lists.
pub fn select_history(revisions: &Vec<u64>, head: u64, before: Option<u64>, limit: usize) -> (r: Result<HistorySelection, Diagnostic>)
    ensures
        match history_page(revisions@, head, before, limit) {
            Ok((positions, next)) => r matches Ok(page) && page.positions@ == positions && page.next_before == next,
            Err(code) => r matches Err(d) && d.class == DiagnosticClass::Resource && d.code@ == code,
        },
{
    if limit == 0 || limit > HISTORY_MAXIMUM_ITEMS {
        return Err(Diagnostic::new(
            DiagnosticClass::Resource,
            "source_history_limit",
            static_message("history limit must be 1 through 1000"),
        ));
    }
    let bound = match before {
        Some(bound) => bound,
        None => head.saturating_add(1),
    };
    let ghost whole = eligible(revisions@, bound);
    let mut positions: Vec<usize> = Vec::new();
    let mut i: usize = 0;
    while i < revisions.len()
        invariant
            i <= revisions@.len(),
            0 < limit <= 1000,
            bound == page_bound(head, before),
            whole == eligible(revisions@, bound),
            positions@ == eligible(revisions@.take(i as int), bound),
            positions@.len() <= limit,
        decreases revisions@.len() - i,
    {
        proof {
            assert(revisions@.take(i + 1).drop_last() =~= revisions@.take(i as int));
        }
        if revisions[i] < bound {
            if positions.len() == limit {
                proof {
                    lemma_eligible_prefix(revisions@, bound, i + 1);
                    let grown = eligible(revisions@.take(i + 1), bound);
                    assert(grown =~= positions@.push(i));
                    assert(whole.take(grown.len() as int) == grown);
                    assert(whole[limit as int] == whole.take(grown.len() as int)[limit as int]);
                    assert(whole[limit as int] == i);
                    assert(whole.take(limit as int) =~= positions@);
                }
                return Ok(HistorySelection { positions, next_before: Some(revisions[i].saturating_add(1)) });
            }
            positions.push(i);
        }
        i = i + 1;
        assert(positions@ =~= eligible(revisions@.take(i as int), bound));
    }
    assert(revisions@.take(revisions@.len() as int) =~= revisions@);
    Ok(HistorySelection { positions, next_before: None })
}

/// The positions listed for a prefix of the chain begin the positions listed for the chain.
proof fn lemma_eligible_prefix(revisions: Seq<u64>, bound: u64, n: int)
    requires
        0 <= n <= revisions.len(),
    ensures
        eligible(revisions, bound).len() >= eligible(revisions.take(n), bound).len(),
        eligible(revisions, bound).take(eligible(revisions.take(n), bound).len() as int) == eligible(revisions.take(n), bound),
    decreases revisions.len() - n,
{
    if n == revisions.len() {
        assert(revisions.take(n) =~= revisions);
        assert(eligible(revisions, bound).take(eligible(revisions, bound).len() as int) =~= eligible(revisions, bound));
    } else {
        lemma_eligible_prefix(revisions, bound, n + 1);
        let shorter = eligible(revisions.take(n), bound);
        let longer = eligible(revisions.take(n + 1), bound);
        assert(revisions.take(n + 1).drop_last() =~= revisions.take(n));
        assert(longer.take(shorter.len() as int) =~= shorter);
        assert(eligible(revisions, bound).take(shorter.len() as int) =~= longer.take(shorter.len() as int));
    }
}

} // verus!
