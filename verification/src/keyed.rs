//! Vectors of entries keyed by text, kept sorted by key.

use vstd::prelude::*;

use crate::text::{
    lemma_text_lt_irreflexive, lemma_text_lt_total, lemma_text_lt_transitive, text_less, text_lt,
};

verus! {

/// The keys of `m` are strictly increasing.
pub open spec fn keys_sorted<T>(m: Seq<(String, T)>) -> bool {
    forall|i: int, j: int| 0 <= i < j < m.len() ==> text_lt(#[trigger] m[i].0@, #[trigger] m[j].0@)
}

/// Some entry of `m` has key `k`.
pub open spec fn has_key<T>(m: Seq<(String, T)>, k: Seq<char>) -> bool {
    exists|i: int| 0 <= i < m.len() && #[trigger] m[i].0@ == k
}

/// Where `k` is or belongs in `m`: every key before the slot sorts before
/// `k`, and the key at the slot (if any) does not.
pub fn key_slot<T>(m: &Vec<(String, T)>, k: &String) -> (r: usize)
    ensures
        r <= m@.len(),
        forall|j: int| 0 <= j < r ==> text_lt(#[trigger] m@[j].0@, k@),
        r < m@.len() ==> !text_lt(m@[r as int].0@, k@),
{
    let mut p: usize = 0;
    while p < m.len() && text_less(m[p].0.as_str(), k.as_str())
        invariant
            p <= m@.len(),
            forall|j: int| 0 <= j < p ==> text_lt(#[trigger] m@[j].0@, k@),
        decreases m.len() - p,
    {
        p = p + 1;
    }
    p
}

/// In sorted entries, the slot of a present key holds it, and a key whose
/// slot holds another key is absent.
pub proof fn lemma_slot_finds<T>(m: Seq<(String, T)>, p: int, k: Seq<char>)
    requires
        keys_sorted(m),
        0 <= p <= m.len(),
        forall|j: int| 0 <= j < p ==> text_lt(#[trigger] m[j].0@, k),
        p < m.len() ==> !text_lt(m[p].0@, k),
    ensures
        has_key(m, k) <==> (p < m.len() && m[p].0@ == k),
{
    if has_key(m, k) {
        let j = choose|j: int| 0 <= j < m.len() && #[trigger] m[j].0@ == k;
        lemma_text_lt_irreflexive(k);
        if j > p {
            assert(text_lt(m[p].0@, m[j].0@));
            lemma_text_lt_total(m[p].0@, k);
            lemma_text_lt_transitive(k, m[p].0@, m[j].0@);
        }
    }
    if p < m.len() && m[p].0@ == k {
        assert(has_key(m, k));
    }
}

/// Inserting a new key at its slot keeps the keys sorted and adds just it.
pub proof fn lemma_insert_at_slot<T>(m: Seq<(String, T)>, p: int, e: (String, T))
    requires
        keys_sorted(m),
        0 <= p <= m.len(),
        forall|j: int| 0 <= j < p ==> text_lt(#[trigger] m[j].0@, e.0@),
        p < m.len() ==> !text_lt(m[p].0@, e.0@) && m[p].0@ != e.0@,
    ensures
        keys_sorted(m.insert(p, e)),
        forall|k: Seq<char>| has_key(m.insert(p, e), k) <==> (has_key(m, k) || k == e.0@),
{
    let n = m.insert(p, e);
    let k0 = e.0@;
    assert forall|a: int, b: int| 0 <= a < b < n.len() implies text_lt(
        #[trigger] n[a].0@,
        #[trigger] n[b].0@,
    ) by {
        if b < p {
            assert(text_lt(m[a].0@, m[b].0@));
        } else if a < p && b == p {
        } else if a < p && b > p {
            assert(text_lt(m[a].0@, m[b - 1].0@));
        } else if a == p {
            lemma_text_lt_total(m[p].0@, k0);
            if b - 1 > p {
                assert(text_lt(m[p].0@, m[b - 1].0@));
                lemma_text_lt_transitive(k0, m[p].0@, m[b - 1].0@);
            }
        } else {
            assert(text_lt(m[a - 1].0@, m[b - 1].0@));
        }
    }
    assert forall|k: Seq<char>| has_key(n, k) <==> (has_key(m, k) || k == k0) by {
        if has_key(n, k) {
            let j = choose|j: int| 0 <= j < n.len() && #[trigger] n[j].0@ == k;
            if j < p {
                assert(m[j].0@ == k);
            } else if j > p {
                assert(m[j - 1].0@ == k);
            }
        }
        if has_key(m, k) {
            let j = choose|j: int| 0 <= j < m.len() && #[trigger] m[j].0@ == k;
            if j < p {
                assert(n[j].0@ == k);
            } else {
                assert(n[j + 1].0@ == k);
            }
        }
        if k == k0 {
            assert(n[p].0@ == k);
        }
    }
}

/// Replacing the entry at `p` by one with the same key keeps the keys.
pub proof fn lemma_update_same_key<T>(m: Seq<(String, T)>, p: int, e: (String, T))
    requires
        keys_sorted(m),
        0 <= p < m.len(),
        m[p].0@ == e.0@,
    ensures
        keys_sorted(m.update(p, e)),
        forall|k: Seq<char>| has_key(m.update(p, e), k) <==> has_key(m, k),
{
    let n = m.update(p, e);
    assert forall|a: int, b: int| 0 <= a < b < n.len() implies text_lt(
        #[trigger] n[a].0@,
        #[trigger] n[b].0@,
    ) by {
        assert(text_lt(m[a].0@, m[b].0@));
    }
    assert forall|k: Seq<char>| has_key(n, k) <==> has_key(m, k) by {
        if has_key(n, k) {
            let j = choose|j: int| 0 <= j < n.len() && #[trigger] n[j].0@ == k;
            assert(m[j].0@ == k);
        }
        if has_key(m, k) {
            let j = choose|j: int| 0 <= j < m.len() && #[trigger] m[j].0@ == k;
            assert(n[j].0@ == k);
        }
    }
}

/// In sorted entries, a key occurs at most once.
pub proof fn lemma_key_unique<T>(m: Seq<(String, T)>, i: int, j: int)
    requires
        keys_sorted(m),
        0 <= i < m.len(),
        0 <= j < m.len(),
        m[i].0@ == m[j].0@,
    ensures
        i == j,
{
    if i != j {
        lemma_text_lt_irreflexive(m[i].0@);
        if i < j {
            assert(text_lt(m[i].0@, m[j].0@));
        } else {
            assert(text_lt(m[j].0@, m[i].0@));
        }
    }
}

} // verus!
