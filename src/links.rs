//! Link lists: the handles a node is linked to, each at most once.
use vstd::prelude::*;

verus! {

/// `s` with `x` appended unless already present.
pub open spec fn add_link(s: Seq<u64>, x: u64) -> Seq<u64> {
    if s.contains(x) {
        s
    } else {
        s.push(x)
    }
}

/// Holds of every handle but `x`.
pub open spec fn other_than(x: u64) -> spec_fn(u64) -> bool {
    |y: u64| y != x
}

/// `s` without any occurrence of `x`, order kept.
pub open spec fn drop_link(s: Seq<u64>, x: u64) -> Seq<u64> {
    s.filter(other_than(x))
}

pub proof fn lemma_push_contains(s: Seq<u64>, e: u64)
    ensures
        forall|y: u64| #[trigger] s.push(e).contains(y) <==> (s.contains(y) || y == e),
{
    let t = s.push(e);
    assert forall|y: u64| #[trigger] t.contains(y) <==> (s.contains(y) || y == e) by {
        if t.contains(y) {
            let i = choose|i: int| 0 <= i < t.len() && t[i] == y;
            if i < s.len() {
                assert(s[i] == y);
            }
        }
        if s.contains(y) {
            let i = choose|i: int| 0 <= i < s.len() && s[i] == y;
            assert(t[i] == y);
        }
        if y == e {
            assert(t[s.len() as int] == y);
        }
    }
}

pub proof fn lemma_add_link(s: Seq<u64>, x: u64)
    ensures
        forall|y: u64| #[trigger] add_link(s, x).contains(y) <==> (s.contains(y) || y == x),
        s.no_duplicates() ==> add_link(s, x).no_duplicates(),
{
    lemma_push_contains(s, x);
    if !s.contains(x) && s.no_duplicates() {
        let t = s.push(x);
        assert forall|i: int, j: int| 0 <= i < t.len() && 0 <= j < t.len() && i != j implies t[i] != t[j] by {
            if i < s.len() && j < s.len() {
            } else if i < s.len() {
                assert(s.contains(s[i]));
            } else {
                assert(s.contains(s[j]));
            }
        }
    }
}

pub proof fn lemma_drop_link(s: Seq<u64>, x: u64)
    ensures
        forall|y: u64| #[trigger] drop_link(s, x).contains(y) <==> (s.contains(y) && y != x),
        s.no_duplicates() ==> drop_link(s, x).no_duplicates(),
        !s.contains(x) ==> drop_link(s, x) == s,
    decreases s.len(),
{
    reveal(Seq::filter);
    if s.len() > 0 {
        let p = s.drop_last();
        let l = s.last();
        lemma_drop_link(p, x);
        assert(s == p.push(l));
        let d = drop_link(p, x);
        assert(drop_link(s, x) == if l != x { d.push(l) } else { d });
        lemma_push_contains(p, l);
        lemma_push_contains(d, l);
        if s.no_duplicates() {
            assert(p.no_duplicates()) by {
                assert forall|i: int, j: int| 0 <= i < p.len() && 0 <= j < p.len() && i != j implies p[i] != p[j] by {
                    assert(p[i] == s[i] && p[j] == s[j]);
                }
            }
            if l != x {
                assert(!p.contains(l)) by {
                    if p.contains(l) {
                        let i = choose|i: int| 0 <= i < p.len() && p[i] == l;
                        assert(s[i] == s[s.len() - 1]);
                    }
                }
                lemma_add_link(d, l);
            }
        }
    }
}

/// Adds `x` to the list unless it is there.
pub fn push_link(v: &mut Vec<u64>, x: u64)
    ensures
        final(v)@ == add_link(old(v)@, x),
{
    let mut i: usize = 0;
    while i < v.len()
        invariant
            i <= v.len(),
            v@ == old(v)@,
            forall|j: int| 0 <= j < i ==> v@[j] != x,
        decreases v.len() - i,
    {
        if v[i] == x {
            return;
        }
        i = i + 1;
    }
    v.push(x);
}

/// The list without `x`.
pub fn without_link(v: &Vec<u64>, x: u64) -> (r: Vec<u64>)
    ensures
        r@ == drop_link(v@, x),
{
    let mut out: Vec<u64> = Vec::new();
    let mut i: usize = 0;
    while i < v.len()
        invariant
            i <= v.len(),
            out@ == drop_link(v@.subrange(0, i as int), x),
        decreases v.len() - i,
    {
        proof {
            let p = v@.subrange(0, i as int);
            assert(v@.subrange(0, i as int + 1) == p.push(v@[i as int]));
            p.lemma_filter_push(v@[i as int], other_than(x));
        }
        if v[i] != x {
            out.push(v[i]);
        }
        i = i + 1;
    }
    assert(v@.subrange(0, v@.len() as int) == v@);
    out
}

} // verus!
