//! Sequences of `(id, value)` pairs with distinct ids, read as maps from id to value.
use vstd::prelude::*;

verus! {

/// No id occurs twice.
pub open spec fn keys_unique(s: Seq<(String, u64)>) -> bool {
    forall|i: int, j: int|
        0 <= i < s.len() && 0 <= j < s.len() && i != j ==> #[trigger] s[i].0@ != #[trigger] s[j].0@
}

/// No value occurs twice.
pub open spec fn values_unique(s: Seq<(String, u64)>) -> bool {
    forall|i: int, j: int|
        0 <= i < s.len() && 0 <= j < s.len() && i != j ==> #[trigger] s[i].1 != #[trigger] s[j].1
}

pub open spec fn has_key(s: Seq<(String, u64)>, k: Seq<char>) -> bool {
    exists|i: int| 0 <= i < s.len() && #[trigger] s[i].0@ == k
}

/// The map from id to value that the pairs describe.
pub open spec fn entries_map(s: Seq<(String, u64)>) -> Map<Seq<char>, u64> {
    Map::new(
        |k: Seq<char>| has_key(s, k),
        |k: Seq<char>| s[choose|i: int| 0 <= i < s.len() && #[trigger] s[i].0@ == k].1,
    )
}

pub proof fn lemma_map_at(s: Seq<(String, u64)>, i: int)
    requires
        keys_unique(s),
        0 <= i < s.len(),
    ensures
        entries_map(s).contains_key(s[i].0@),
        entries_map(s)[s[i].0@] == s[i].1,
{
    let k = s[i].0@;
    assert(has_key(s, k));
    let j = choose|j: int| 0 <= j < s.len() && #[trigger] s[j].0@ == k;
    assert(i == j);
}

pub proof fn lemma_map_push(s: Seq<(String, u64)>, e: (String, u64))
    requires
        keys_unique(s),
        !has_key(s, e.0@),
    ensures
        keys_unique(s.push(e)),
        entries_map(s.push(e)) == entries_map(s).insert(e.0@, e.1),
{
    let t = s.push(e);
    assert(keys_unique(t)) by {
        assert forall|i: int, j: int|
            0 <= i < t.len() && 0 <= j < t.len() && i != j implies #[trigger] t[i].0@ != #[trigger] t[j].0@ by {
            if i < s.len() && j < s.len() {
                assert(t[i] == s[i] && t[j] == s[j]);
            } else if i < s.len() {
                assert(t[i] == s[i]);
            } else {
                assert(t[j] == s[j]);
            }
        }
    }
    let m = entries_map(s).insert(e.0@, e.1);
    assert forall|k: Seq<char>| #[trigger] entries_map(t).contains_key(k) == m.contains_key(k) by {
        if has_key(s, k) {
            let i = choose|i: int| 0 <= i < s.len() && #[trigger] s[i].0@ == k;
            assert(t[i] == s[i]);
        }
        if has_key(t, k) {
            let i = choose|i: int| 0 <= i < t.len() && #[trigger] t[i].0@ == k;
            if i < s.len() {
                assert(t[i] == s[i]);
            }
        }
        if k == e.0@ {
            assert(t[s.len() as int] == e);
        }
    }
    assert forall|k: Seq<char>| #[trigger] entries_map(t).contains_key(k) implies entries_map(t)[k] == m[k] by {
        let i = choose|i: int| 0 <= i < t.len() && #[trigger] t[i].0@ == k;
        lemma_map_at(t, i);
        if i < s.len() {
            assert(t[i] == s[i]);
            lemma_map_at(s, i);
        }
    }
    assert(entries_map(t) =~= m);
}

pub proof fn lemma_map_remove(s: Seq<(String, u64)>, i: int)
    requires
        keys_unique(s),
        0 <= i < s.len(),
    ensures
        keys_unique(s.remove(i)),
        values_unique(s) ==> values_unique(s.remove(i)),
        entries_map(s.remove(i)) == entries_map(s).remove(s[i].0@),
        forall|j: int| 0 <= j < s.remove(i).len() ==> #[trigger] s.remove(i)[j] == (if j < i { s[j] } else { s[j + 1] }),
{
    let t = s.remove(i);
    assert forall|j: int| 0 <= j < t.len() implies #[trigger] t[j] == (if j < i { s[j] } else { s[j + 1] }) by {}
    assert(keys_unique(t)) by {
        assert forall|a: int, b: int|
            0 <= a < t.len() && 0 <= b < t.len() && a != b implies #[trigger] t[a].0@ != #[trigger] t[b].0@ by {
            let a1 = if a < i { a } else { a + 1 };
            let b1 = if b < i { b } else { b + 1 };
            assert(t[a] == s[a1] && t[b] == s[b1]);
        }
    }
    if values_unique(s) {
        assert forall|a: int, b: int|
            0 <= a < t.len() && 0 <= b < t.len() && a != b implies #[trigger] t[a].1 != #[trigger] t[b].1 by {
            let a1 = if a < i { a } else { a + 1 };
            let b1 = if b < i { b } else { b + 1 };
            assert(t[a] == s[a1] && t[b] == s[b1]);
        }
    }
    let m = entries_map(s).remove(s[i].0@);
    assert forall|k: Seq<char>| #[trigger] entries_map(t).contains_key(k) == m.contains_key(k) by {
        if has_key(s, k) && k != s[i].0@ {
            let j = choose|j: int| 0 <= j < s.len() && #[trigger] s[j].0@ == k;
            if j < i {
                assert(t[j] == s[j]);
            } else {
                assert(t[j - 1] == s[j]);
            }
        }
        if has_key(t, k) {
            let j = choose|j: int| 0 <= j < t.len() && #[trigger] t[j].0@ == k;
            let j1 = if j < i { j } else { j + 1 };
            assert(t[j] == s[j1]);
        }
    }
    assert forall|k: Seq<char>| #[trigger] entries_map(t).contains_key(k) implies entries_map(t)[k] == m[k] by {
        let j = choose|j: int| 0 <= j < t.len() && #[trigger] t[j].0@ == k;
        let j1 = if j < i { j } else { j + 1 };
        assert(t[j] == s[j1]);
        lemma_map_at(t, j);
        lemma_map_at(s, j1);
    }
    assert(entries_map(t) =~= m);
}

pub proof fn lemma_map_update(s: Seq<(String, u64)>, i: int, e: (String, u64))
    requires
        keys_unique(s),
        0 <= i < s.len(),
        e.0@ == s[i].0@,
    ensures
        keys_unique(s.update(i, e)),
        entries_map(s.update(i, e)) == entries_map(s).insert(s[i].0@, e.1),
{
    let t = s.update(i, e);
    let v = e.1;
    assert(keys_unique(t)) by {
        assert forall|a: int, b: int|
            0 <= a < t.len() && 0 <= b < t.len() && a != b implies #[trigger] t[a].0@ != #[trigger] t[b].0@ by {
            assert(t[a].0@ == s[a].0@ && t[b].0@ == s[b].0@);
        }
    }
    let m = entries_map(s).insert(s[i].0@, v);
    assert forall|k: Seq<char>| #[trigger] entries_map(t).contains_key(k) == m.contains_key(k) by {
        if has_key(s, k) {
            let j = choose|j: int| 0 <= j < s.len() && #[trigger] s[j].0@ == k;
            assert(t[j].0@ == s[j].0@);
        }
        if has_key(t, k) {
            let j = choose|j: int| 0 <= j < t.len() && #[trigger] t[j].0@ == k;
            assert(t[j].0@ == s[j].0@);
        }
        if k == s[i].0@ {
            assert(t[i].0@ == s[i].0@);
        }
    }
    assert forall|k: Seq<char>| #[trigger] entries_map(t).contains_key(k) implies entries_map(t)[k] == m[k] by {
        let j = choose|j: int| 0 <= j < t.len() && #[trigger] t[j].0@ == k;
        lemma_map_at(t, j);
        if j != i {
            assert(t[j] == s[j]);
            lemma_map_at(s, j);
        }
    }
    assert(entries_map(t) =~= m);
}

/// The position of `key` among the pairs, if it occurs.
pub fn find_entry(s: &Vec<(String, u64)>, key: &String) -> (r: Option<usize>)
    ensures
        match r {
            Some(i) => i < s.len() && s@[i as int].0@ == key@,
            None => !has_key(s@, key@),
        },
{
    let mut i: usize = 0;
    while i < s.len()
        invariant
            i <= s.len(),
            forall|j: int| 0 <= j < i ==> #[trigger] s@[j].0@ != key@,
        decreases s.len() - i,
    {
        if s[i].0 == *key {
            return Some(i);
        }
        i = i + 1;
    }
    None
}

} // verus!
