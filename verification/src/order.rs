//! Strict total orders on keys, and sequences kept in increasing key order.

use crate::artifact::{bytes_less, digest_byte_vec, digest_bytes, lex_less};
use crate::digest::ObjectDigest;
use crate::kernel::{owner_key_id, owner_key_id_of, owner_key_tag, owner_key_tag_of, OwnerKey, PackageId};
use crate::witness::{ExactOwnerKey, NamespaceKey, RelationEdge, RelationEndpoint};
use vstd::bytes::{lemma_auto_spec_u64_to_from_le_bytes, spec_u64_from_le_bytes, spec_u64_to_le_bytes};
use vstd::prelude::*;

verus! {

/// A key type with a strict total order.
pub trait KeyOrder: Sized + Copy {
    /// Whether `self` comes strictly before `other`.
    spec fn key_less(self, other: Self) -> bool;

    /// No key comes before itself.
    proof fn lemma_key_less_irreflexive(a: Self)
        ensures
            !a.key_less(a),
    ;

    /// The order is transitive.
    proof fn lemma_key_less_transitive(a: Self, b: Self, c: Self)
        requires
            a.key_less(b),
            b.key_less(c),
        ensures
            a.key_less(c),
    ;

    /// Of two distinct keys, one comes first.
    proof fn lemma_key_less_total(a: Self, b: Self)
        ensures
            a == b || a.key_less(b) || b.key_less(a),
    ;

    /// Whether `self` comes strictly before `other`.
    fn comes_before(&self, other: &Self) -> (r: bool)
        ensures
            r == self.key_less(*other),
    ;
}

/// Owner keys: by form, then by identity.
pub open spec fn owner_key_less(a: OwnerKey, b: OwnerKey) -> bool {
    owner_key_tag(a) < owner_key_tag(b) || (owner_key_tag(a) == owner_key_tag(b) && owner_key_id(a) < owner_key_id(b))
}

/// Namespace keys: by parent, then by name.
pub open spec fn namespace_key_less(a: NamespaceKey, b: NamespaceKey) -> bool {
    owner_key_less(a.parent, b.parent) || (a.parent == b.parent && a.name < b.name)
}

/// Package-qualified owners: by package, then by owner.
pub open spec fn exact_owner_less(a: ExactOwnerKey, b: ExactOwnerKey) -> bool {
    a.package.0 < b.package.0 || (a.package == b.package && owner_key_less(a.owner, b.owner))
}

/// Relation endpoints: owners before packages, each by its own order.
pub open spec fn endpoint_less(a: RelationEndpoint, b: RelationEndpoint) -> bool {
    match (a, b) {
        (RelationEndpoint::Owner(x), RelationEndpoint::Owner(y)) => exact_owner_less(x, y),
        (RelationEndpoint::Owner(_), RelationEndpoint::Package(_)) => true,
        (RelationEndpoint::Package(_), RelationEndpoint::Owner(_)) => false,
        (RelationEndpoint::Package(p), RelationEndpoint::Package(q)) => p.0 < q.0,
    }
}

/// Relation edges: by source, then by kind, then by target.
pub open spec fn edge_less(a: RelationEdge, b: RelationEdge) -> bool {
    ||| endpoint_less(a.source, b.source)
    ||| a.source == b.source && a.kind.spec_index() < b.kind.spec_index()
    ||| a.source == b.source && a.kind == b.kind && endpoint_less(a.target, b.target)
}

/// An owner key is fixed by its form and identity.
proof fn lemma_owner_key_parts(a: OwnerKey, b: OwnerKey)
    ensures
        owner_key_tag(a) == owner_key_tag(b) && owner_key_id(a) == owner_key_id(b) ==> a == b,
{
}

/// A relation kind is fixed by its position.
proof fn lemma_kind_index(a: crate::witness::RelationKind, b: crate::witness::RelationKind)
    ensures
        a.spec_index() == b.spec_index() ==> a == b,
{
}

proof fn lemma_endpoint_irreflexive(a: RelationEndpoint)
    ensures
        !endpoint_less(a, a),
{
}

proof fn lemma_endpoint_transitive(a: RelationEndpoint, b: RelationEndpoint, c: RelationEndpoint)
    requires
        endpoint_less(a, b),
        endpoint_less(b, c),
    ensures
        endpoint_less(a, c),
{
}

proof fn lemma_endpoint_total(a: RelationEndpoint, b: RelationEndpoint)
    ensures
        a == b || endpoint_less(a, b) || endpoint_less(b, a),
{
    match (a, b) {
        (RelationEndpoint::Owner(x), RelationEndpoint::Owner(y)) => {
            lemma_owner_key_parts(x.owner, y.owner);
        },
        _ => {},
    }
}

/// Whether `a` comes strictly before `b` by form, then identity.
fn owner_key_precedes(a: OwnerKey, b: OwnerKey) -> (r: bool)
    ensures
        r == owner_key_less(a, b),
{
    let tag_a = owner_key_tag_of(a);
    let tag_b = owner_key_tag_of(b);
    tag_a < tag_b || (tag_a == tag_b && owner_key_id_of(a) < owner_key_id_of(b))
}

/// Whether `a` comes strictly before `b` as a relation endpoint.
fn endpoint_precedes(a: RelationEndpoint, b: RelationEndpoint) -> (r: bool)
    ensures
        r == endpoint_less(a, b),
{
    match (a, b) {
        (RelationEndpoint::Owner(x), RelationEndpoint::Owner(y)) => {
            x.package.0 < y.package.0 || (x.package.0 == y.package.0 && owner_key_precedes(x.owner, y.owner))
        },
        (RelationEndpoint::Owner(_), RelationEndpoint::Package(_)) => true,
        (RelationEndpoint::Package(_), RelationEndpoint::Owner(_)) => false,
        (RelationEndpoint::Package(p), RelationEndpoint::Package(q)) => p.0 < q.0,
    }
}

impl KeyOrder for OwnerKey {
    open spec fn key_less(self, other: Self) -> bool {
        owner_key_less(self, other)
    }

    proof fn lemma_key_less_irreflexive(a: Self) {
    }

    proof fn lemma_key_less_transitive(a: Self, b: Self, c: Self) {
    }

    proof fn lemma_key_less_total(a: Self, b: Self) {
        lemma_owner_key_parts(a, b);
    }

    fn comes_before(&self, other: &Self) -> (r: bool) {
        owner_key_precedes(*self, *other)
    }
}

impl KeyOrder for NamespaceKey {
    open spec fn key_less(self, other: Self) -> bool {
        namespace_key_less(self, other)
    }

    proof fn lemma_key_less_irreflexive(a: Self) {
    }

    proof fn lemma_key_less_transitive(a: Self, b: Self, c: Self) {
    }

    proof fn lemma_key_less_total(a: Self, b: Self) {
        lemma_owner_key_parts(a.parent, b.parent);
    }

    fn comes_before(&self, other: &Self) -> (r: bool) {
        owner_key_precedes(self.parent, other.parent) || (self.parent == other.parent && self.name < other.name)
    }
}

impl KeyOrder for RelationEdge {
    open spec fn key_less(self, other: Self) -> bool {
        edge_less(self, other)
    }

    proof fn lemma_key_less_irreflexive(a: Self) {
        lemma_endpoint_irreflexive(a.source);
        lemma_endpoint_irreflexive(a.target);
    }

    proof fn lemma_key_less_transitive(a: Self, b: Self, c: Self) {
        lemma_endpoint_irreflexive(a.source);
        lemma_endpoint_irreflexive(b.source);
        if endpoint_less(a.source, b.source) && endpoint_less(b.source, c.source) {
            lemma_endpoint_transitive(a.source, b.source, c.source);
        }
        if endpoint_less(a.target, b.target) && endpoint_less(b.target, c.target) {
            lemma_endpoint_transitive(a.target, b.target, c.target);
        }
    }

    proof fn lemma_key_less_total(a: Self, b: Self) {
        lemma_endpoint_total(a.source, b.source);
        lemma_endpoint_total(a.target, b.target);
        lemma_kind_index(a.kind, b.kind);
    }

    fn comes_before(&self, other: &Self) -> (r: bool) {
        if endpoint_precedes(self.source, other.source) {
            return true;
        }
        if self.source != other.source {
            return false;
        }
        let kind_a = self.kind.index();
        let kind_b = other.kind.index();
        if kind_a != kind_b {
            proof {
                lemma_kind_index(self.kind, other.kind);
            }
            return kind_a < kind_b;
        }
        proof {
            lemma_kind_index(self.kind, other.kind);
        }
        endpoint_precedes(self.target, other.target)
    }
}

impl KeyOrder for PackageId {
    open spec fn key_less(self, other: Self) -> bool {
        self.0 < other.0
    }

    proof fn lemma_key_less_irreflexive(a: Self) {
    }

    proof fn lemma_key_less_transitive(a: Self, b: Self, c: Self) {
    }

    proof fn lemma_key_less_total(a: Self, b: Self) {
    }

    fn comes_before(&self, other: &Self) -> (r: bool) {
        self.0 < other.0
    }
}

/// No byte string comes before itself.
proof fn lemma_lex_irreflexive(a: Seq<u8>)
    ensures
        !lex_less(a, a),
    decreases a.len(),
{
    if a.len() > 0 {
        lemma_lex_irreflexive(a.drop_first());
    }
}

/// Lexicographic byte order is transitive.
proof fn lemma_lex_transitive(a: Seq<u8>, b: Seq<u8>, c: Seq<u8>)
    requires
        lex_less(a, b),
        lex_less(b, c),
    ensures
        lex_less(a, c),
    decreases a.len(),
{
    if a.len() > 0 && b.len() > 0 && c.len() > 0 && a[0] == b[0] && b[0] == c[0] {
        lemma_lex_transitive(a.drop_first(), b.drop_first(), c.drop_first());
    }
}

/// Of two distinct byte strings of one length, one comes first.
proof fn lemma_lex_total(a: Seq<u8>, b: Seq<u8>)
    requires
        a.len() == b.len(),
    ensures
        a == b || lex_less(a, b) || lex_less(b, a),
    decreases a.len(),
{
    if a.len() == 0 {
        assert(a =~= b);
    } else if a[0] == b[0] {
        lemma_lex_total(a.drop_first(), b.drop_first());
        if a.drop_first() == b.drop_first() {
            assert forall|i: int| 0 <= i < a.len() implies a[i] == b[i] by {
                if i > 0 {
                    assert(a[i] == a.drop_first()[i - 1]);
                    assert(b[i] == b.drop_first()[i - 1]);
                }
            }
            assert(a =~= b);
        }
    }
}

/// A digest is fixed by its 32 canonical bytes.
proof fn lemma_digest_bytes_injective(a: ObjectDigest, b: ObjectDigest)
    ensures
        digest_bytes(a).len() == 32,
        digest_bytes(a) == digest_bytes(b) ==> a == b,
{
    lemma_auto_spec_u64_to_from_le_bytes();
    if digest_bytes(a) == digest_bytes(b) {
        let x = digest_bytes(a);
        let y = digest_bytes(b);
        assert(x.subrange(0, 8) =~= spec_u64_to_le_bytes(a.w0));
        assert(y.subrange(0, 8) =~= spec_u64_to_le_bytes(b.w0));
        assert(x.subrange(8, 16) =~= spec_u64_to_le_bytes(a.w1));
        assert(y.subrange(8, 16) =~= spec_u64_to_le_bytes(b.w1));
        assert(x.subrange(16, 24) =~= spec_u64_to_le_bytes(a.w2));
        assert(y.subrange(16, 24) =~= spec_u64_to_le_bytes(b.w2));
        assert(x.subrange(24, 32) =~= spec_u64_to_le_bytes(a.w3));
        assert(y.subrange(24, 32) =~= spec_u64_to_le_bytes(b.w3));
        assert(spec_u64_from_le_bytes(spec_u64_to_le_bytes(a.w0)) == spec_u64_from_le_bytes(spec_u64_to_le_bytes(b.w0)));
        assert(spec_u64_from_le_bytes(spec_u64_to_le_bytes(a.w1)) == spec_u64_from_le_bytes(spec_u64_to_le_bytes(b.w1)));
        assert(spec_u64_from_le_bytes(spec_u64_to_le_bytes(a.w2)) == spec_u64_from_le_bytes(spec_u64_to_le_bytes(b.w2)));
        assert(spec_u64_from_le_bytes(spec_u64_to_le_bytes(a.w3)) == spec_u64_from_le_bytes(spec_u64_to_le_bytes(b.w3)));
    }
}

/// Digests: by their canonical bytes, lexicographically.
impl KeyOrder for ObjectDigest {
    open spec fn key_less(self, other: Self) -> bool {
        lex_less(digest_bytes(self), digest_bytes(other))
    }

    proof fn lemma_key_less_irreflexive(a: Self) {
        lemma_lex_irreflexive(digest_bytes(a));
    }

    proof fn lemma_key_less_transitive(a: Self, b: Self, c: Self) {
        lemma_lex_transitive(digest_bytes(a), digest_bytes(b), digest_bytes(c));
    }

    proof fn lemma_key_less_total(a: Self, b: Self) {
        lemma_digest_bytes_injective(a, b);
        lemma_digest_bytes_injective(b, a);
        lemma_lex_total(digest_bytes(a), digest_bytes(b));
    }

    fn comes_before(&self, other: &Self) -> (r: bool) {
        let a = digest_byte_vec(*self);
        let b = digest_byte_vec(*other);
        bytes_less(a.as_slice(), b.as_slice())
    }
}

/// Whether `s` increases strictly, so that no key occurs twice.
pub open spec fn increasing<K: KeyOrder>(s: Seq<K>) -> bool {
    forall|i: int, j: int| 0 <= i < j < s.len() ==> (#[trigger] s[i]).key_less(#[trigger] s[j])
}

/// Whether `s` holds exactly the keys of `keys`.
pub open spec fn lists<K>(s: Seq<K>, keys: Set<K>) -> bool {
    forall|x: K| #[trigger] s.contains(x) <==> keys.contains(x)
}

/// The keys of `keys`, each once, in increasing order.
pub open spec fn in_key_order<K: KeyOrder>(keys: Set<K>) -> Seq<K> {
    choose|s: Seq<K>| increasing(s) && lists(s, keys)
}

/// An increasing sequence holds no key twice.
pub proof fn lemma_increasing_no_duplicates<K: KeyOrder>(s: Seq<K>)
    requires
        increasing(s),
    ensures
        s.no_duplicates(),
{
    assert forall|i: int, j: int| 0 <= i < s.len() && 0 <= j < s.len() && i != j implies s[i] != s[j] by {
        K::lemma_key_less_irreflexive(s[i]);
        if i < j {
            assert(s[i].key_less(s[j]));
        } else {
            assert(s[j].key_less(s[i]));
        }
    }
}

/// Two increasing sequences with the same keys are the same sequence.
pub proof fn lemma_increasing_unique<K: KeyOrder>(s: Seq<K>, t: Seq<K>)
    requires
        increasing(s),
        increasing(t),
        forall|x: K| #![trigger s.contains(x)] #![trigger t.contains(x)] s.contains(x) <==> t.contains(x),
    ensures
        s == t,
    decreases s.len(),
{
    if s.len() == 0 {
        if t.len() > 0 {
            assert(t.contains(t[0]));
        }
        assert(s =~= t);
    } else {
        assert(s.contains(s[0]));
        let j = choose|j: int| 0 <= j < t.len() && t[j] == s[0];
        assert(t.contains(t[0]));
        let i = choose|i: int| 0 <= i < s.len() && s[i] == t[0];
        if j > 0 {
            assert(t[0].key_less(t[j]));
            K::lemma_key_less_irreflexive(s[0]);
            if i > 0 {
                assert(s[0].key_less(s[i]));
                K::lemma_key_less_transitive(s[0], t[0], s[0]);
            }
        }
        assert(s[0] == t[0]);
        let s1 = s.drop_first();
        let t1 = t.drop_first();
        assert forall|x: K| #![trigger s1.contains(x)] #![trigger t1.contains(x)] s1.contains(x) <==> t1.contains(x) by {
            if s1.contains(x) {
                let k = choose|k: int| 0 <= k < s1.len() && s1[k] == x;
                assert(s[k + 1] == x);
                assert(s[0].key_less(s[k + 1]));
                K::lemma_key_less_irreflexive(x);
                assert(t.contains(x));
                let m = choose|m: int| 0 <= m < t.len() && t[m] == x;
                assert(m != 0);
                assert(t1[m - 1] == x);
            }
            if t1.contains(x) {
                let k = choose|k: int| 0 <= k < t1.len() && t1[k] == x;
                assert(t[k + 1] == x);
                assert(t[0].key_less(t[k + 1]));
                K::lemma_key_less_irreflexive(x);
                assert(s.contains(x));
                let m = choose|m: int| 0 <= m < s.len() && s[m] == x;
                assert(m != 0);
                assert(s1[m - 1] == x);
            }
        }
        assert(increasing(s1)) by {
            assert forall|a: int, b: int| 0 <= a < b < s1.len() implies (#[trigger] s1[a]).key_less(#[trigger] s1[b]) by {
                assert(s[a + 1].key_less(s[b + 1]));
            }
        }
        assert(increasing(t1)) by {
            assert forall|a: int, b: int| 0 <= a < b < t1.len() implies (#[trigger] t1[a]).key_less(#[trigger] t1[b]) by {
                assert(t[a + 1].key_less(t[b + 1]));
            }
        }
        lemma_increasing_unique(s1, t1);
        assert(s =~= t) by {
            assert forall|k: int| 0 <= k < s.len() implies s[k] == t[k] by {
                if k > 0 {
                    assert(s[k] == s1[k - 1]);
                    assert(t[k] == t1[k - 1]);
                }
            }
        }
    }
}

/// An increasing sequence of exactly the keys of `keys` is the one `in_key_order` names.
pub proof fn lemma_in_key_order<K: KeyOrder>(s: Seq<K>, keys: Set<K>)
    requires
        increasing(s),
        lists(s, keys),
    ensures
        in_key_order(keys) == s,
{
    let t = in_key_order(keys);
    assert(increasing(t) && lists(t, keys));
    lemma_increasing_unique(s, t);
}

/// Adds `key` to the increasing `keys` at its place, unless it is there.
pub fn insert_in_order<K: KeyOrder>(keys: &mut Vec<K>, key: K)
    requires
        increasing(old(keys)@),
    ensures
        increasing(final(keys)@),
        forall|x: K| #[trigger] final(keys)@.contains(x) <==> old(keys)@.contains(x) || x == key,
{
    let mut i: usize = 0;
    while i < keys.len() && keys[i].comes_before(&key)
        invariant
            i <= keys@.len(),
            keys@ == old(keys)@,
            increasing(keys@),
            forall|j: int| 0 <= j < i ==> (#[trigger] keys@[j]).key_less(key),
        decreases keys@.len() - i,
    {
        i = i + 1;
    }
    if i < keys.len() && !key.comes_before(&keys[i]) {
        proof {
            K::lemma_key_less_total(key, keys@[i as int]);
            assert(keys@[i as int] == key);
        }
        return;
    }
    let ghost before = keys@;
    keys.insert(i, key);
    proof {
        assert forall|a: int, b: int| 0 <= a < b < keys@.len() implies (#[trigger] keys@[a]).key_less(#[trigger] keys@[b]) by {
            if b < i {
                assert(keys@[a] == before[a] && keys@[b] == before[b]);
            } else if b == i {
                assert(keys@[a] == before[a]);
            } else if a < i {
                assert(keys@[b] == before[b - 1]);
                assert(before[a].key_less(key));
                assert(key.key_less(before[i as int]));
                if b - 1 > i {
                    assert(before[i as int].key_less(before[b - 1]));
                    K::lemma_key_less_transitive(key, before[i as int], before[b - 1]);
                }
                K::lemma_key_less_transitive(before[a], key, before[b - 1]);
            } else if a == i {
                assert(keys@[b] == before[b - 1]);
                assert(key.key_less(before[i as int]));
                if b - 1 > i {
                    assert(before[i as int].key_less(before[b - 1]));
                    K::lemma_key_less_transitive(key, before[i as int], before[b - 1]);
                }
            } else {
                assert(keys@[a] == before[a - 1] && keys@[b] == before[b - 1]);
            }
        }
        assert forall|x: K| #[trigger] keys@.contains(x) <==> before.contains(x) || x == key by {
            if keys@.contains(x) {
                let k = choose|k: int| 0 <= k < keys@.len() && keys@[k] == x;
                if k < i {
                    assert(before[k] == x);
                } else if k > i {
                    assert(before[k - 1] == x);
                }
            }
            if before.contains(x) {
                let k = choose|k: int| 0 <= k < before.len() && before[k] == x;
                if k < i {
                    assert(keys@[k] == x);
                } else {
                    assert(keys@[k + 1] == x);
                }
            }
            if x == key {
                assert(keys@[i as int] == x);
            }
        }
    }
}

/// The keys of `keys`, each once, in increasing order.
pub fn sorted_keys<K: KeyOrder>(keys: &Vec<K>) -> (r: Vec<K>)
    ensures
        increasing(r@),
        forall|x: K| #[trigger] r@.contains(x) <==> keys@.contains(x),
{
    let mut sorted: Vec<K> = Vec::new();
    let mut i: usize = 0;
    while i < keys.len()
        invariant
            i <= keys@.len(),
            increasing(sorted@),
            forall|x: K| #[trigger] sorted@.contains(x) <==> keys@.take(i as int).contains(x),
        decreases keys@.len() - i,
    {
        let ghost prefix = keys@.take(i as int);
        insert_in_order(&mut sorted, keys[i]);
        i = i + 1;
        proof {
            assert(keys@.take(i as int) =~= prefix.push(keys@[i - 1]));
            assert forall|x: K| #[trigger] sorted@.contains(x) <==> keys@.take(i as int).contains(x) by {
                let grown = keys@.take(i as int);
                if prefix.contains(x) {
                    let k = choose|k: int| 0 <= k < prefix.len() && prefix[k] == x;
                    assert(grown[k] == x);
                }
                if grown.contains(x) {
                    let k = choose|k: int| 0 <= k < grown.len() && grown[k] == x;
                    if k < prefix.len() {
                        assert(prefix[k] == x);
                    }
                }
                if x == keys@[i - 1] {
                    assert(grown[i - 1] == x);
                }
            }
        }
    }
    assert(keys@.take(keys@.len() as int) =~= keys@);
    sorted
}

/// Whether the keys of `entries` increase strictly, so that no key occurs twice.
pub open spec fn keys_increasing<K: KeyOrder, V>(entries: Seq<(K, V)>) -> bool {
    forall|i: int, j: int| 0 <= i < j < entries.len() ==> (#[trigger] entries[i]).0.key_less((#[trigger] entries[j]).0)
}

/// Whether `s` and `t` hold the same entries.
pub open spec fn same_entries<T>(s: Seq<T>, t: Seq<T>) -> bool {
    forall|x: T| #![trigger s.contains(x)] #![trigger t.contains(x)] s.contains(x) <==> t.contains(x)
}

/// The entries of `entries`, in increasing key order.
pub open spec fn in_entry_order<K: KeyOrder, V>(entries: Seq<(K, V)>) -> Seq<(K, V)> {
    choose|s: Seq<(K, V)>| keys_increasing(s) && same_entries(s, entries)
}

/// Two sequences of entries with strictly increasing keys and the same entries are the same.
pub proof fn lemma_entries_unique<K: KeyOrder, V>(s: Seq<(K, V)>, t: Seq<(K, V)>)
    requires
        keys_increasing(s),
        keys_increasing(t),
        same_entries(s, t),
    ensures
        s == t,
    decreases s.len(),
{
    if s.len() == 0 {
        if t.len() > 0 {
            assert(t.contains(t[0]));
        }
        assert(s =~= t);
    } else {
        assert(s.contains(s[0]));
        let j = choose|j: int| 0 <= j < t.len() && t[j] == s[0];
        assert(t.contains(t[0]));
        let i = choose|i: int| 0 <= i < s.len() && s[i] == t[0];
        if j > 0 {
            assert(t[0].0.key_less(t[j].0));
            K::lemma_key_less_irreflexive(s[0].0);
            if i > 0 {
                assert(s[0].0.key_less(s[i].0));
                K::lemma_key_less_transitive(s[0].0, t[0].0, s[0].0);
            }
        }
        assert(s[0] == t[0]);
        let s1 = s.drop_first();
        let t1 = t.drop_first();
        assert forall|x: (K, V)| #![trigger s1.contains(x)] #![trigger t1.contains(x)] s1.contains(x) <==> t1.contains(x) by {
            if s1.contains(x) {
                let k = choose|k: int| 0 <= k < s1.len() && s1[k] == x;
                assert(s[k + 1] == x);
                assert(s[0].0.key_less(s[k + 1].0));
                K::lemma_key_less_irreflexive(x.0);
                assert(t.contains(x));
                let m = choose|m: int| 0 <= m < t.len() && t[m] == x;
                assert(m != 0);
                assert(t1[m - 1] == x);
            }
            if t1.contains(x) {
                let k = choose|k: int| 0 <= k < t1.len() && t1[k] == x;
                assert(t[k + 1] == x);
                assert(t[0].0.key_less(t[k + 1].0));
                K::lemma_key_less_irreflexive(x.0);
                assert(s.contains(x));
                let m = choose|m: int| 0 <= m < s.len() && s[m] == x;
                assert(m != 0);
                assert(s1[m - 1] == x);
            }
        }
        assert(keys_increasing(s1)) by {
            assert forall|a: int, b: int| 0 <= a < b < s1.len() implies (#[trigger] s1[a]).0.key_less((#[trigger] s1[b]).0) by {
                assert(s[a + 1].0.key_less(s[b + 1].0));
            }
        }
        assert(keys_increasing(t1)) by {
            assert forall|a: int, b: int| 0 <= a < b < t1.len() implies (#[trigger] t1[a]).0.key_less((#[trigger] t1[b]).0) by {
                assert(t[a + 1].0.key_less(t[b + 1].0));
            }
        }
        lemma_entries_unique(s1, t1);
        assert(s =~= t) by {
            assert forall|k: int| 0 <= k < s.len() implies s[k] == t[k] by {
                if k > 0 {
                    assert(s[k] == s1[k - 1]);
                    assert(t[k] == t1[k - 1]);
                }
            }
        }
    }
}

/// Entries with strictly increasing keys that are the entries of `entries` are the ones
/// `in_entry_order` names.
pub proof fn lemma_in_entry_order<K: KeyOrder, V>(s: Seq<(K, V)>, entries: Seq<(K, V)>)
    requires
        keys_increasing(s),
        same_entries(s, entries),
    ensures
        in_entry_order(entries) == s,
{
    let t = in_entry_order(entries);
    assert(keys_increasing(t) && same_entries(t, entries));
    lemma_entries_unique(s, t);
}

/// Putting `entry` at position `i` of `before`, after the smaller keys and before the larger
/// ones, keeps the keys increasing and adds exactly `entry`.
proof fn lemma_insert_entry<K: KeyOrder, V>(before: Seq<(K, V)>, entry: (K, V), i: int)
    requires
        0 <= i <= before.len(),
        keys_increasing(before),
        forall|j: int| 0 <= j < i ==> (#[trigger] before[j]).0.key_less(entry.0),
        i < before.len() ==> entry.0.key_less(before[i].0),
    ensures
        keys_increasing(before.insert(i, entry)),
        forall|x: (K, V)| #[trigger] before.insert(i, entry).contains(x) <==> before.contains(x) || x == entry,
{
    let after = before.insert(i, entry);
    assert forall|a: int, b: int| 0 <= a < b < after.len() implies (#[trigger] after[a]).0.key_less((#[trigger] after[b]).0) by {
        if b < i {
            assert(after[a] == before[a] && after[b] == before[b]);
        } else if b == i {
            assert(after[a] == before[a]);
        } else if a < i {
            assert(after[b] == before[b - 1]);
            if b - 1 > i {
                assert(before[i].0.key_less(before[b - 1].0));
                K::lemma_key_less_transitive(entry.0, before[i].0, before[b - 1].0);
            }
            K::lemma_key_less_transitive(before[a].0, entry.0, before[b - 1].0);
        } else if a == i {
            assert(after[b] == before[b - 1]);
            if b - 1 > i {
                assert(before[i].0.key_less(before[b - 1].0));
                K::lemma_key_less_transitive(entry.0, before[i].0, before[b - 1].0);
            }
        } else {
            assert(after[a] == before[a - 1] && after[b] == before[b - 1]);
        }
    }
    assert forall|x: (K, V)| #[trigger] after.contains(x) <==> before.contains(x) || x == entry by {
        if after.contains(x) {
            let k = choose|k: int| 0 <= k < after.len() && after[k] == x;
            if k < i {
                assert(before[k] == x);
            } else if k > i {
                assert(before[k - 1] == x);
            }
        }
        if before.contains(x) {
            let k = choose|k: int| 0 <= k < before.len() && before[k] == x;
            if k < i {
                assert(after[k] == x);
            } else {
                assert(after[k + 1] == x);
            }
        }
        if x == entry {
            assert(after[i] == x);
        }
    }
}

/// The first position from `from` on whose key does not come before `key`.
proof fn lemma_first_not_below<K: KeyOrder, V>(entries: Seq<(K, V)>, key: K, from: int) -> (p: int)
    requires
        0 <= from <= entries.len(),
        forall|j: int| 0 <= j < from ==> (#[trigger] entries[j]).0.key_less(key),
    ensures
        from <= p <= entries.len(),
        forall|j: int| 0 <= j < p ==> (#[trigger] entries[j]).0.key_less(key),
        p < entries.len() ==> !entries[p].0.key_less(key),
    decreases entries.len() - from,
{
    if from == entries.len() || !entries[from].0.key_less(key) {
        from
    } else {
        lemma_first_not_below(entries, key, from + 1)
    }
}

/// Entries with distinct keys can be put in increasing key order.
pub proof fn lemma_orderable<K: KeyOrder, V>(entries: Seq<(K, V)>) -> (s: Seq<(K, V)>)
    requires
        forall|i: int, j: int| 0 <= i < j < entries.len() ==> (#[trigger] entries[i]).0 != (#[trigger] entries[j]).0,
    ensures
        keys_increasing(s),
        same_entries(s, entries),
    decreases entries.len(),
{
    if entries.len() == 0 {
        let s = Seq::<(K, V)>::empty();
        assert forall|x: (K, V)| #![trigger s.contains(x)] #![trigger entries.contains(x)] s.contains(x) <==> entries.contains(x) by {}
        s
    } else {
        let rest = entries.drop_last();
        assert forall|i: int, j: int| 0 <= i < j < rest.len() implies (#[trigger] rest[i]).0 != (#[trigger] rest[j]).0 by {
            assert(entries[i].0 != entries[j].0);
        }
        let ordered = lemma_orderable(rest);
        let entry = entries.last();
        let p = lemma_first_not_below(ordered, entry.0, 0);
        if p < ordered.len() {
            assert(ordered.contains(ordered[p]));
            assert(rest.contains(ordered[p]));
            let m = choose|m: int| 0 <= m < rest.len() && rest[m] == ordered[p];
            assert(entries[m].0 != entries[entries.len() - 1].0);
            K::lemma_key_less_total(entry.0, ordered[p].0);
        }
        lemma_insert_entry(ordered, entry, p);
        let s = ordered.insert(p, entry);
        assert forall|x: (K, V)| #![trigger s.contains(x)] #![trigger entries.contains(x)] s.contains(x) <==> entries.contains(x) by {
            if entries.contains(x) {
                let k = choose|k: int| 0 <= k < entries.len() && entries[k] == x;
                if k < rest.len() {
                    assert(rest[k] == x);
                    assert(rest.contains(x));
                    assert(ordered.contains(x));
                }
            }
            if s.contains(x) {
                if x != entry {
                    assert(ordered.contains(x));
                    assert(rest.contains(x));
                    let k = choose|k: int| 0 <= k < rest.len() && rest[k] == x;
                    assert(entries[k] == x);
                } else {
                    assert(entries[entries.len() - 1] == x);
                }
            }
        }
        s
    }
}

/// Adds `entry`, whose key is not yet bound, to `entries` at its key's place.
fn insert_entry_in_order<K: KeyOrder, V: Copy>(entries: &mut Vec<(K, V)>, entry: (K, V))
    requires
        keys_increasing(old(entries)@),
        forall|j: int| 0 <= j < old(entries)@.len() ==> (#[trigger] old(entries)@[j]).0 != entry.0,
    ensures
        keys_increasing(final(entries)@),
        forall|x: (K, V)| #[trigger] final(entries)@.contains(x) <==> old(entries)@.contains(x) || x == entry,
{
    let mut i: usize = 0;
    while i < entries.len() && entries[i].0.comes_before(&entry.0)
        invariant
            i <= entries@.len(),
            entries@ == old(entries)@,
            keys_increasing(entries@),
            forall|j: int| 0 <= j < i ==> (#[trigger] entries@[j]).0.key_less(entry.0),
        decreases entries@.len() - i,
    {
        i = i + 1;
    }
    proof {
        if i < entries@.len() {
            K::lemma_key_less_total(entry.0, entries@[i as int].0);
            assert(entries@[i as int].0 != entry.0);
        }
        lemma_insert_entry(entries@, entry, i as int);
    }
    entries.insert(i, entry);
}

/// The entries of `entries`, whose keys are distinct, in increasing key order.
pub fn sorted_entries<K: KeyOrder, V: Copy>(entries: &Vec<(K, V)>) -> (r: Vec<(K, V)>)
    requires
        forall|i: int, j: int| 0 <= i < j < entries@.len() ==> (#[trigger] entries@[i]).0 != (#[trigger] entries@[j]).0,
    ensures
        keys_increasing(r@),
        same_entries(r@, entries@),
        r@ == in_entry_order(entries@),
{
    let mut sorted: Vec<(K, V)> = Vec::new();
    let mut i: usize = 0;
    while i < entries.len()
        invariant
            i <= entries@.len(),
            forall|a: int, b: int| 0 <= a < b < entries@.len() ==> (#[trigger] entries@[a]).0 != (#[trigger] entries@[b]).0,
            keys_increasing(sorted@),
            forall|x: (K, V)| #[trigger] sorted@.contains(x) <==> exists|m: int| 0 <= m < i && #[trigger] entries@[m] == x,
        decreases entries@.len() - i,
    {
        proof {
            assert forall|j: int| 0 <= j < sorted@.len() implies (#[trigger] sorted@[j]).0 != entries@[i as int].0 by {
                assert(sorted@.contains(sorted@[j]));
                let m = choose|m: int| 0 <= m < i && #[trigger] entries@[m] == sorted@[j];
                assert(entries@[m].0 != entries@[i as int].0);
            }
        }
        insert_entry_in_order(&mut sorted, entries[i]);
        i = i + 1;
        proof {
            assert forall|x: (K, V)| #[trigger] sorted@.contains(x) <==> exists|m: int| 0 <= m < i && #[trigger] entries@[m] == x by {
                if x == entries@[i - 1] {
                    assert(entries@[i - 1] == x);
                }
                if exists|m: int| 0 <= m < i && #[trigger] entries@[m] == x {
                    let m = choose|m: int| 0 <= m < i && #[trigger] entries@[m] == x;
                    if m < i - 1 {
                        assert(entries@[m] == x);
                    }
                }
            }
        }
    }
    proof {
        assert(same_entries(sorted@, entries@));
        lemma_in_entry_order(sorted@, entries@);
    }
    sorted
}

} // verus!
