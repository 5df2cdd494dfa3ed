//! The byte order of map keys, and sequences of entries kept in that order.

use vstd::prelude::*;

verus! {

/// The first index from `i` on at which `a` and `b` differ, or the length
/// of the shorter one where they agree throughout.
pub open spec fn first_diff(a: Seq<u8>, b: Seq<u8>, i: int) -> int
    decreases a.len() - i,
{
    if 0 <= i < a.len() && i < b.len() && a[i] == b[i] {
        first_diff(a, b, i + 1)
    } else {
        i
    }
}

/// `a` comes before `b` in lexicographic byte order.
pub open spec fn lex_lt(a: Seq<u8>, b: Seq<u8>) -> bool {
    let d = first_diff(a, b, 0);
    if d < a.len() && d < b.len() {
        a[d] < b[d]
    } else {
        a.len() < b.len()
    }
}

pub proof fn lemma_first_diff(a: Seq<u8>, b: Seq<u8>, i: int)
    requires
        0 <= i <= a.len(),
        i <= b.len(),
    ensures
        i <= first_diff(a, b, i) <= a.len(),
        first_diff(a, b, i) <= b.len(),
        forall|j: int| i <= j < first_diff(a, b, i) ==> a[j] == b[j],
        first_diff(a, b, i) < a.len() && first_diff(a, b, i) < b.len() ==> a[first_diff(a, b, i)]
            != b[first_diff(a, b, i)],
    decreases a.len() - i,
{
    if i < a.len() && i < b.len() && a[i] == b[i] {
        lemma_first_diff(a, b, i + 1);
    }
}

/// An index at which two strings part, after agreeing from `i` up to it,
/// is their first difference.
pub proof fn lemma_first_diff_unique(a: Seq<u8>, b: Seq<u8>, i: int, k: int)
    requires
        0 <= i <= k <= a.len(),
        k <= b.len(),
        forall|j: int| i <= j < k ==> a[j] == b[j],
        k == a.len() || k == b.len() || a[k] != b[k],
    ensures
        first_diff(a, b, i) == k,
    decreases k - i,
{
    if i < k {
        lemma_first_diff_unique(a, b, i + 1, k);
    }
}

/// No byte string comes before itself.
pub proof fn lemma_lex_irreflexive(a: Seq<u8>)
    ensures
        !lex_lt(a, a),
{
    lemma_first_diff_unique(a, a, 0, a.len() as int);
}

/// Of two different byte strings exactly one comes first.
pub proof fn lemma_lex_total(a: Seq<u8>, b: Seq<u8>)
    ensures
        a == b || lex_lt(a, b) || lex_lt(b, a),
        !(lex_lt(a, b) && lex_lt(b, a)),
{
    lemma_first_diff(a, b, 0);
    let d = first_diff(a, b, 0);
    lemma_first_diff_unique(b, a, 0, d);
    if d == a.len() && d == b.len() {
        assert(a =~= b);
    }
}

pub proof fn lemma_lex_transitive(a: Seq<u8>, b: Seq<u8>, c: Seq<u8>)
    requires
        lex_lt(a, b),
        lex_lt(b, c),
    ensures
        lex_lt(a, c),
{
    lemma_first_diff(a, b, 0);
    lemma_first_diff(b, c, 0);
    let d1 = first_diff(a, b, 0);
    let d2 = first_diff(b, c, 0);
    let d = if d1 <= d2 {
        d1
    } else {
        d2
    };
    lemma_first_diff_unique(a, c, 0, d);
}

/// Decides whether `a` comes before `b`.
pub fn bytes_lt(a: &[u8], b: &[u8]) -> (r: bool)
    ensures
        r == lex_lt(a@, b@),
{
    let mut i: usize = 0;
    while i < a.len() && i < b.len() && a[i] == b[i]
        invariant
            i <= a.len(),
            i <= b.len(),
            first_diff(a@, b@, 0) == first_diff(a@, b@, i as int),
        decreases a.len() - i,
    {
        i += 1;
    }
    if i < a.len() && i < b.len() {
        a[i] < b[i]
    } else {
        a.len() < b.len()
    }
}

/// The keys of `es` strictly ascend.
pub open spec fn keys_ascending<V>(es: Seq<(Seq<u8>, V)>) -> bool {
    forall|i: int, j: int| 0 <= i < j < es.len() ==> lex_lt(#[trigger] es[i].0, #[trigger] es[j].0)
}

/// The index of the first entry from `i` on whose key does not come before
/// `key`, or the length where every key does.
pub open spec fn slot_from<V>(es: Seq<(Seq<u8>, V)>, key: Seq<u8>, i: int) -> int
    decreases es.len() - i,
{
    if 0 <= i < es.len() && lex_lt(es[i].0, key) {
        slot_from(es, key, i + 1)
    } else {
        i
    }
}

/// Where `key` stands, or would stand, in `es`.
pub open spec fn slot<V>(es: Seq<(Seq<u8>, V)>, key: Seq<u8>) -> int {
    slot_from(es, key, 0)
}

/// Whether an entry with `key` stands in `es`, looked for at its slot.
pub open spec fn has_key<V>(es: Seq<(Seq<u8>, V)>, key: Seq<u8>) -> bool {
    slot(es, key) < es.len() && es[slot(es, key)].0 == key
}

/// The value stored under `key`, if any.
pub open spec fn lookup<V>(es: Seq<(Seq<u8>, V)>, key: Seq<u8>) -> Option<V> {
    if has_key(es, key) {
        Some(es[slot(es, key)].1)
    } else {
        None
    }
}

/// `es` with `value` stored under `key`: an entry with that key is replaced,
/// a new one is put at its slot.
pub open spec fn put<V>(es: Seq<(Seq<u8>, V)>, key: Seq<u8>, value: V) -> Seq<(Seq<u8>, V)> {
    if has_key(es, key) {
        es.update(slot(es, key), (key, value))
    } else {
        es.insert(slot(es, key), (key, value))
    }
}

pub proof fn lemma_slot_from<V>(es: Seq<(Seq<u8>, V)>, key: Seq<u8>, i: int)
    requires
        0 <= i <= es.len(),
    ensures
        i <= slot_from(es, key, i) <= es.len(),
        forall|j: int| i <= j < slot_from(es, key, i) ==> lex_lt(#[trigger] es[j].0, key),
        slot_from(es, key, i) < es.len() ==> !lex_lt(es[slot_from(es, key, i)].0, key),
    decreases es.len() - i,
{
    if i < es.len() && lex_lt(es[i].0, key) {
        lemma_slot_from(es, key, i + 1);
    }
}

/// Storing a value keeps ascending keys ascending.
pub proof fn lemma_put_ascending<V>(es: Seq<(Seq<u8>, V)>, key: Seq<u8>, value: V)
    requires
        keys_ascending(es),
    ensures
        keys_ascending(put(es, key, value)),
{
    lemma_slot_from(es, key, 0);
    let s = slot(es, key);
    let r = put(es, key, value);
    assert forall|i: int, j: int| 0 <= i < j < r.len() implies lex_lt(
        #[trigger] r[i].0,
        #[trigger] r[j].0,
    ) by {
        if has_key(es, key) {
            assert(r[i].0 == es[i].0);
            assert(r[j].0 == es[j].0);
        } else {
            if s < es.len() {
                lemma_lex_total(es[s].0, key);
            }
            if j < s {
                assert(r[i].0 == es[i].0 && r[j].0 == es[j].0);
            } else if j == s {
                assert(r[i].0 == es[i].0);
            } else if i == s {
                assert(r[j].0 == es[j - 1].0);
                if j - 1 > s {
                    assert(lex_lt(es[s].0, es[j - 1].0));
                    lemma_lex_transitive(key, es[s].0, es[j - 1].0);
                }
            } else if i < s {
                assert(r[i].0 == es[i].0 && r[j].0 == es[j - 1].0);
            } else {
                assert(r[i].0 == es[i - 1].0 && r[j].0 == es[j - 1].0);
            }
        }
    }
}

/// A key that comes after every key of `es` is stored at the end.
pub proof fn lemma_put_last<V>(es: Seq<(Seq<u8>, V)>, key: Seq<u8>, value: V)
    requires
        forall|i: int| 0 <= i < es.len() ==> lex_lt(#[trigger] es[i].0, key),
    ensures
        put(es, key, value) == es.push((key, value)),
{
    lemma_slot_from(es, key, 0);
    assert(es.insert(es.len() as int, (key, value)) =~= es.push((key, value)));
}

/// What is stored can be looked up, and nothing else changes.
pub proof fn lemma_lookup_put<V>(es: Seq<(Seq<u8>, V)>, key: Seq<u8>, value: V, other: Seq<u8>)
    requires
        keys_ascending(es),
    ensures
        lookup(put(es, key, value), key) == Some(value),
        other != key ==> lookup(put(es, key, value), other) == lookup(es, other),
{
    lemma_slot_from(es, key, 0);
    lemma_put_ascending(es, key, value);
    let r = put(es, key, value);
    let s = slot(es, key);
    lemma_slot_of_entry(r, s);
    if other != key {
        lemma_slot_from(es, other, 0);
        lemma_slot_from(r, other, 0);
        let t = slot(es, other);
        let u = slot(r, other);
        lemma_lex_total(key, other);
        if has_key(es, key) {
            assert forall|j: int| 0 <= j < r.len() implies #[trigger] r[j].0 == es[j].0 by {}
            lemma_slot_unique(r, other, t);
        } else if lex_lt(other, key) {
            // the slot of `other` lies at or before the new entry
            if s < t {
                assert(lex_lt(es[s].0, other));
                lemma_lex_total(es[s].0, key);
                lemma_lex_transitive(key, es[s].0, other);
                lemma_lex_total(key, other);
            }
            assert(t <= s);
            assert forall|j: int| 0 <= j < t implies lex_lt(#[trigger] r[j].0, other) by {
                assert(r[j] == es[j]);
            }
            if t < s {
                assert(r[t] == es[t]);
            } else {
                assert(r[t].0 == key);
            }
            lemma_slot_unique(r, other, t);
            if t == s {
                assert(!has_key(r, other));
                if t < es.len() && es[t].0 == other {
                    lemma_lex_total(es[s].0, key);
                }
            }
        } else {
            // `key` comes before `other`: the slot moves one up
            if t < s {
                assert(lex_lt(es[t].0, key));
                lemma_lex_total(es[t].0, other);
                if es[t].0 != other {
                    lemma_lex_transitive(other, es[t].0, key);
                }
                lemma_lex_total(key, other);
                assert(false);
            }
            assert forall|j: int| 0 <= j < t + 1 implies lex_lt(#[trigger] r[j].0, other) by {
                if j < s {
                    assert(r[j] == es[j]);
                } else if j == s {
                } else {
                    assert(r[j] == es[j - 1]);
                }
            }
            if t < es.len() {
                assert(r[t + 1] == es[t]);
            }
            lemma_slot_unique(r, other, t + 1);
        }
    }
}

/// An index whose key does not come before `key`, behind keys that all do,
/// is the slot of `key`.
pub proof fn lemma_slot_unique<V>(es: Seq<(Seq<u8>, V)>, key: Seq<u8>, k: int)
    requires
        0 <= k <= es.len(),
        forall|j: int| 0 <= j < k ==> lex_lt(#[trigger] es[j].0, key),
        k < es.len() ==> !lex_lt(es[k].0, key),
    ensures
        slot(es, key) == k,
{
    lemma_slot_from_unique(es, key, 0, k);
}

proof fn lemma_slot_from_unique<V>(es: Seq<(Seq<u8>, V)>, key: Seq<u8>, i: int, k: int)
    requires
        0 <= i <= k <= es.len(),
        forall|j: int| i <= j < k ==> lex_lt(#[trigger] es[j].0, key),
        k < es.len() ==> !lex_lt(es[k].0, key),
    ensures
        slot_from(es, key, i) == k,
    decreases k - i,
{
    if i < k {
        lemma_slot_from_unique(es, key, i + 1, k);
    }
}

/// In ascending keys every entry stands at the slot of its own key.
pub proof fn lemma_slot_of_entry<V>(es: Seq<(Seq<u8>, V)>, i: int)
    requires
        keys_ascending(es),
        0 <= i < es.len(),
    ensures
        slot(es, es[i].0) == i,
        has_key(es, es[i].0),
        lookup(es, es[i].0) == Some(es[i].1),
{
    lemma_lex_irreflexive(es[i].0);
    lemma_slot_unique(es, es[i].0, i);
}

/// Ascending keys leave no choice: two sequences with ascending keys that
/// answer every lookup alike are the same sequence.
pub proof fn lemma_ascending_unique<V>(a: Seq<(Seq<u8>, V)>, b: Seq<(Seq<u8>, V)>)
    requires
        keys_ascending(a),
        keys_ascending(b),
        forall|key: Seq<u8>| lookup(a, key) == lookup(b, key),
    ensures
        a == b,
{
    lemma_agree_up_to(a, b, a.len() as int);
    lemma_agree_up_to(b, a, b.len() as int);
    assert(a =~= b);
}

/// Two sequences with ascending keys that answer every lookup alike hold
/// the same entries at the first `n` indices of the first.
proof fn lemma_agree_up_to<V>(a: Seq<(Seq<u8>, V)>, b: Seq<(Seq<u8>, V)>, n: int)
    requires
        keys_ascending(a),
        keys_ascending(b),
        forall|key: Seq<u8>| lookup(a, key) == lookup(b, key),
        0 <= n <= a.len(),
    ensures
        n <= b.len(),
        forall|i: int| 0 <= i < n ==> a[i] == b[i],
    decreases n,
{
    if n > 0 {
        lemma_agree_up_to(a, b, n - 1);
        let i = n - 1;
        // the entry of `a` at `i` is found in `b`, at `p`
        lemma_slot_of_entry(a, i);
        assert(lookup(b, a[i].0) == Some(a[i].1));
        let p = slot(b, a[i].0);
        assert(b[p].0 == a[i].0 && b[p].1 == a[i].1);
        lemma_slot_from(b, a[i].0, 0);
        if p < i {
            // then it would stand twice in `a`
            assert(a[p] == b[p]);
            lemma_lex_irreflexive(a[i].0);
            assert(lex_lt(a[p].0, a[i].0));
        }
        if p > i {
            // the entry of `b` at `i` is found in `a`, at `q`
            lemma_slot_of_entry(b, i);
            assert(lookup(a, b[i].0) == Some(b[i].1));
            let q = slot(a, b[i].0);
            lemma_slot_from(a, b[i].0, 0);
            assert(a[q].0 == b[i].0);
            assert(lex_lt(b[i].0, b[p].0));
            lemma_lex_total(a[q].0, a[i].0);
            if q < i {
                assert(a[q] == b[q]);
                lemma_lex_irreflexive(b[i].0);
                assert(lex_lt(b[q].0, b[i].0));
            } else if q > i {
                assert(lex_lt(a[i].0, a[q].0));
            } else {
                lemma_lex_irreflexive(a[i].0);
            }
            assert(false);
        }
    }
}

/// The order in which two different keys are stored does not matter.
pub proof fn lemma_put_commutes<V>(
    es: Seq<(Seq<u8>, V)>,
    key1: Seq<u8>,
    value1: V,
    key2: Seq<u8>,
    value2: V,
)
    requires
        keys_ascending(es),
        key1 != key2,
    ensures
        put(put(es, key1, value1), key2, value2) == put(put(es, key2, value2), key1, value1),
{
    let one = put(es, key1, value1);
    let two = put(es, key2, value2);
    lemma_put_ascending(es, key1, value1);
    lemma_put_ascending(es, key2, value2);
    lemma_put_ascending(one, key2, value2);
    lemma_put_ascending(two, key1, value1);
    assert forall|key: Seq<u8>| lookup(put(one, key2, value2), key) == lookup(
        put(two, key1, value1),
        key,
    ) by {
        lemma_lookup_put(es, key1, value1, key);
        lemma_lookup_put(es, key2, value2, key);
        lemma_lookup_put(one, key2, value2, key);
        lemma_lookup_put(two, key1, value1, key);
    }
    lemma_ascending_unique(put(one, key2, value2), put(two, key1, value1));
}

} // verus!
