//! The persisted form of a store, made of plain values, and the way back from it.
use vstd::prelude::*;
use crate::arena::ARENA_CAPACITY;
use crate::entries::{entries_map, has_key, keys_unique, lemma_map_at, lemma_map_push, values_unique};
use crate::error::{Error, ErrorKind};
use crate::model::{MicroSDCard, StoreElement};
use crate::store::{view_ok, StoreData, StoreView};

verus! {

/// One node as persisted: its handle, its element and the handles it links to.
pub struct NodeRecord {
    pub handle: u64,
    pub element: StoreElement,
    pub links: Vec<u64>,
}

/// A whole store as persisted: the nodes, the id index and the fingerprint cache.
pub struct StoreSnapshot {
    pub nodes: Vec<NodeRecord>,
    pub node_ids: Vec<(String, u64)>,
    pub hashes: Vec<(String, u64)>,
}

/// The position of the first record with handle `h`.
pub open spec fn record_at(recs: Seq<NodeRecord>, h: u64) -> Option<int> {
    if exists|i: int| 0 <= i < recs.len() && #[trigger] recs[i].handle == h {
        Some(choose|i: int| 0 <= i < recs.len() && #[trigger] recs[i].handle == h
            && forall|j: int| 0 <= j < i ==> #[trigger] recs[j].handle != h)
    } else {
        None
    }
}

/// The record of handle `h`.
pub open spec fn record_of(recs: Seq<NodeRecord>, h: u64) -> NodeRecord {
    recs[record_at(recs, h).unwrap()]
}

/// The ids linked to `id`.
pub open spec fn linked_ids(v: StoreView, id: Seq<char>) -> Set<Seq<char>> {
    Set::new(|b: Seq<char>| v.index.contains_key(b) && v.nodes[v.index[id]].links@.contains(v.index[b]))
}

/// The ids a snapshot links to `id`, in either direction.
pub open spec fn snapshot_linked(snap: StoreSnapshot, id: Seq<char>) -> Set<Seq<char>> {
    let m = entries_map(snap.node_ids@);
    let recs = snap.nodes@;
    Set::new(|b: Seq<char>| m.contains_key(b) && (record_of(recs, m[id]).links@.contains(m[b])
        || record_of(recs, m[b]).links@.contains(m[id])))
}

/// A snapshot that can be loaded: ids and their handles are distinct, every
/// indexed handle has a record, links join a card and an application, and the
/// fingerprint cache names each card once.
pub open spec fn snapshot_valid(snap: StoreSnapshot) -> bool {
    let ids = snap.node_ids@;
    let recs = snap.nodes@;
    &&& ids.len() <= ARENA_CAPACITY
    &&& keys_unique(ids)
    &&& values_unique(ids)
    &&& keys_unique(snap.hashes@)
    &&& forall|i: int| 0 <= i < ids.len() ==> #[trigger] record_at(recs, ids[i].1) is Some
    &&& forall|i: int, k: int| 0 <= i < ids.len() && 0 <= k < ids.len()
        && #[trigger] record_of(recs, ids[i].1).links@.contains(#[trigger] ids[k].1) ==>
            record_of(recs, ids[i].1).element.is_card() != record_of(recs, ids[k].1).element.is_card()
}

/// The store loaded from `snap`: the same ids with the same elements, links as the
/// records give them (in either direction), and the same fingerprints.
pub open spec fn imported(snap: StoreSnapshot, t: StoreView) -> bool {
    let m = entries_map(snap.node_ids@);
    &&& t.index.dom() == m.dom()
    &&& forall|a: Seq<char>| #[trigger] m.contains_key(a) ==> t.nodes[t.index[a]].element == record_of(snap.nodes@, m[a]).element
    &&& forall|a: Seq<char>| #[trigger] m.contains_key(a) ==> linked_ids(t, a) == snapshot_linked(snap, a)
    &&& t.hashes == entries_map(snap.hashes@)
}

/// `snap` records store `s`: every node in arena order, the index and the cache.
pub open spec fn exported(s: StoreView, snap: StoreSnapshot) -> bool {
    &&& keys_unique(snap.node_ids@)
    &&& entries_map(snap.node_ids@) == s.index
    &&& snap.node_ids@.len() <= s.nodes.len()
    &&& keys_unique(snap.hashes@)
    &&& entries_map(snap.hashes@) == s.hashes
    &&& s.order.no_duplicates()
    &&& s.order.to_set() == s.nodes.dom()
    &&& snap.nodes@.len() == s.order.len()
    &&& forall|i: int| 0 <= i < snap.nodes@.len() ==> {
        &&& #[trigger] snap.nodes@[i].handle == s.order[i]
        &&& snap.nodes@[i].element == s.nodes[s.order[i]].element
        &&& snap.nodes@[i].links@ == s.nodes[s.order[i]].links@
    }
}

proof fn lemma_record_at(recs: Seq<NodeRecord>, h: u64, i: int)
    requires
        0 <= i < recs.len(),
        recs[i].handle == h,
        forall|j: int| 0 <= j < i ==> #[trigger] recs[j].handle != h,
    ensures
        record_at(recs, h) == Some(i),
{
    let q = choose|q: int| 0 <= q < recs.len() && #[trigger] recs[q].handle == h
        && forall|j: int| 0 <= j < q ==> #[trigger] recs[j].handle != h;
    assert(q == i) by {
        if q < i {
            assert(recs[q].handle != h);
        } else if q > i {
            assert(recs[i].handle != h);
        }
    }
}

fn copy_element(e: &StoreElement) -> (r: StoreElement)
    ensures
        r == *e,
{
    match e {
        StoreElement::Card(c) => StoreElement::Card(c.duplicate()),
        StoreElement::Game(g) => StoreElement::Game(g.duplicate()),
    }
}

fn copy_handles(v: &Vec<u64>) -> (r: Vec<u64>)
    ensures
        r@ == v@,
{
    let mut out: Vec<u64> = Vec::new();
    let mut i: usize = 0;
    while i < v.len()
        invariant
            i <= v.len(),
            out@ == v@.take(i as int),
        decreases v.len() - i,
    {
        out.push(v[i]);
        assert(v@.take(i as int + 1) == v@.take(i as int).push(v@[i as int]));
        i = i + 1;
    }
    assert(v@.take(v@.len() as int) == v@);
    out
}

/// The position of the first record with handle `h`.
fn find_record(recs: &Vec<NodeRecord>, h: u64) -> (r: Option<usize>)
    ensures
        match r {
            Some(i) => i < recs.len() && record_at(recs@, h) == Some(i as int),
            None => record_at(recs@, h) is None,
        },
{
    let mut i: usize = 0;
    while i < recs.len()
        invariant
            i <= recs.len(),
            forall|j: int| 0 <= j < i ==> #[trigger] recs@[j].handle != h,
        decreases recs.len() - i,
    {
        if recs[i].handle == h {
            proof {
                lemma_record_at(recs@, h, i as int);
            }
            return Some(i);
        }
        i = i + 1;
    }
    None
}

/// The position of an id whose handle is `h`.
fn find_handle(ids: &Vec<(String, u64)>, h: u64, upto: usize) -> (r: Option<usize>)
    requires
        upto <= ids.len(),
    ensures
        match r {
            Some(k) => k < upto && ids@[k as int].1 == h,
            None => forall|k: int| 0 <= k < upto ==> #[trigger] ids@[k].1 != h,
        },
{
    let mut i: usize = 0;
    while i < upto
        invariant
            i <= upto <= ids.len(),
            forall|k: int| 0 <= k < i ==> #[trigger] ids@[k].1 != h,
        decreases upto - i,
    {
        if ids[i].1 == h {
            return Some(i);
        }
        i = i + 1;
    }
    None
}

/// `s` without leading and trailing white space.
pub uninterp spec fn trimmed(s: Seq<char>) -> Seq<char>;

/// Relies on str::trim: leading and trailing white space is removed, and the result
/// depends on the text alone.
#[verifier::external_body]
fn trim_text(s: &str) -> (r: String)
    ensures
        r@ == trimmed(s@),
{
    s.trim().to_string()
}

/// `e` with the uid trimmed if it is a card.
pub open spec fn element_cleaned(e: StoreElement, r: StoreElement) -> bool {
    match e {
        StoreElement::Card(c) => r matches StoreElement::Card(d) && d == (MicroSDCard { uid: d.uid, ..c })
            && d.uid@ == trimmed(c.uid@),
        StoreElement::Game(_) => r == e,
    }
}

impl StoreSnapshot {
    /// Whether every index entry names a handle that has a node record; an entry
    /// that does not is a dead index entry.
    pub fn validate(&self) -> (r: bool)
        ensures
            r == forall|i: int| 0 <= i < self.node_ids@.len() ==> #[trigger] record_at(self.nodes@, self.node_ids@[i].1) is Some,
    {
        let mut i: usize = 0;
        while i < self.node_ids.len()
            invariant
                i <= self.node_ids.len(),
                forall|j: int| 0 <= j < i ==> #[trigger] record_at(self.nodes@, self.node_ids@[j].1) is Some,
            decreases self.node_ids.len() - i,
        {
            if find_record(&self.nodes, self.node_ids[i].1).is_none() {
                return false;
            }
            i = i + 1;
        }
        true
    }

    /// Trims white space around every id and every card uid: card readers
    /// sometimes report identifiers with stray white space.
    pub fn clean_up(&mut self)
        ensures
            final(self).node_ids@.len() == old(self).node_ids@.len(),
            forall|i: int| 0 <= i < old(self).node_ids@.len() ==> {
                &&& #[trigger] final(self).node_ids@[i].0@ == trimmed(old(self).node_ids@[i].0@)
                &&& final(self).node_ids@[i].1 == old(self).node_ids@[i].1
            },
            final(self).hashes@ == old(self).hashes@,
            final(self).nodes@.len() == old(self).nodes@.len(),
            forall|i: int| 0 <= i < old(self).nodes@.len() ==> {
                &&& #[trigger] final(self).nodes@[i].handle == old(self).nodes@[i].handle
                &&& final(self).nodes@[i].links@ == old(self).nodes@[i].links@
                &&& element_cleaned(old(self).nodes@[i].element, final(self).nodes@[i].element)
            },
    {
        let mut ids: Vec<(String, u64)> = Vec::new();
        let mut i: usize = 0;
        while i < self.node_ids.len()
            invariant
                i <= self.node_ids.len(),
                self.node_ids@ == old(self).node_ids@,
                ids@.len() == i,
                forall|j: int| 0 <= j < i ==> {
                    &&& #[trigger] ids@[j].0@ == trimmed(self.node_ids@[j].0@)
                    &&& ids@[j].1 == self.node_ids@[j].1
                },
            decreases self.node_ids.len() - i,
        {
            ids.push((trim_text(self.node_ids[i].0.as_str()), self.node_ids[i].1));
            i = i + 1;
        }
        let mut nodes: Vec<NodeRecord> = Vec::new();
        let mut i: usize = 0;
        while i < self.nodes.len()
            invariant
                i <= self.nodes.len(),
                self.nodes@ == old(self).nodes@,
                nodes@.len() == i,
                forall|j: int| 0 <= j < i ==> {
                    &&& #[trigger] nodes@[j].handle == self.nodes@[j].handle
                    &&& nodes@[j].links@ == self.nodes@[j].links@
                    &&& element_cleaned(self.nodes@[j].element, nodes@[j].element)
                },
            decreases self.nodes.len() - i,
        {
            let rec = &self.nodes[i];
            let element = match &rec.element {
                StoreElement::Card(c) => {
                    let mut d = c.duplicate();
                    d.uid = trim_text(c.uid.as_str());
                    StoreElement::Card(d)
                },
                StoreElement::Game(g) => StoreElement::Game(g.duplicate()),
            };
            nodes.push(NodeRecord { handle: rec.handle, element, links: copy_handles(&rec.links) });
            i = i + 1;
        }
        self.node_ids = ids;
        self.nodes = nodes;
    }
}

impl StoreData {
    /// Everything the store holds, as plain values.
    pub fn to_snapshot(&self) -> (r: StoreSnapshot)
        requires
            self.wf(),
        ensures
            exported(self@, r),
    {
        let keys = self.handles();
        let mut nodes: Vec<NodeRecord> = Vec::new();
        let mut i: usize = 0;
        while i < keys.len()
            invariant
                self.wf(),
                keys@ == self@.order,
                keys@.to_set() == self@.nodes.dom(),
                i <= keys.len(),
                nodes@.len() == i,
                forall|j: int| 0 <= j < i ==> {
                    &&& #[trigger] nodes@[j].handle == keys@[j]
                    &&& nodes@[j].element == self@.nodes[keys@[j]].element
                    &&& nodes@[j].links@ == self@.nodes[keys@[j]].links@
                },
            decreases keys.len() - i,
        {
            let h = keys[i];
            proof {
                assert(keys@.contains(h));
                assert(keys@.to_set().contains(h));
            }
            let element = self.element_at(h);
            let links = self.links_of(h);
            nodes.push(NodeRecord { handle: h, element, links });
            i = i + 1;
        }
        StoreSnapshot { nodes, node_ids: self.index_entries(), hashes: self.hash_entries() }
    }

    /// Loads a store from a snapshot.  Fails with `Corruption` unless the snapshot
    /// is valid (see `snapshot_valid`): in particular an index entry whose handle
    /// has no node is refused.
    #[verifier::rlimit(60)]
    pub fn from_snapshot(snap: &StoreSnapshot) -> (r: Result<StoreData, Error>)
        ensures
            r is Ok <==> snapshot_valid(*snap),
            r matches Ok(t) ==> t.wf() && imported(*snap, t@),
    {
        let ghost m = entries_map(snap.node_ids@);
        if snap.node_ids.len() > ARENA_CAPACITY {
            return Err(Error::new(ErrorKind::Corruption, "Too many ids"));
        }
        let mut t = StoreData::new();
        let mut i: usize = 0;
        while i < snap.node_ids.len()
            invariant
                t.wf(),
                snap.node_ids.len() <= ARENA_CAPACITY,
                i <= snap.node_ids.len(),
                keys_unique(snap.node_ids@.take(i as int)),
                values_unique(snap.node_ids@.take(i as int)),
                forall|j: int| 0 <= j < i ==> #[trigger] record_at(snap.nodes@, snap.node_ids@[j].1) is Some,
                t@.index.dom() == entries_map(snap.node_ids@.take(i as int)).dom(),
                t@.nodes.len() == i,
                t@.hashes.dom() == Set::<Seq<char>>::empty(),
                forall|a: Seq<char>| #[trigger] t@.index.contains_key(a) ==> {
                    &&& t@.nodes[t@.index[a]].element == record_of(snap.nodes@, entries_map(snap.node_ids@.take(i as int))[a]).element
                    &&& t@.nodes[t@.index[a]].links@.len() == 0
                },
            decreases snap.node_ids.len() - i,
        {
            let ghost pre = t@;
            let ghost p = snap.node_ids@.take(i as int);
            let ghost q = snap.node_ids@.take(i as int + 1);
            proof {
                assert(q == p.push(snap.node_ids@[i as int]));
            }
            if t.contains_element(snap.node_ids[i].0.as_str()) {
                proof {
                    assert(entries_map(p).contains_key(snap.node_ids@[i as int].0@));
                    let j = choose|j: int| 0 <= j < p.len() && #[trigger] p[j].0@ == snap.node_ids@[i as int].0@;
                    assert(snap.node_ids@[j].0@ == snap.node_ids@[i as int].0@);
                    assert(!keys_unique(snap.node_ids@));
                    assert(!snapshot_valid(*snap));
                }
                return Err(Error::new(ErrorKind::Corruption, "Id listed twice"));
            }
            let h = snap.node_ids[i].1;
            if let Some(j) = find_handle(&snap.node_ids, h, i) {
                proof {
                    assert(snap.node_ids@[j as int].1 == snap.node_ids@[i as int].1);
                    assert(!values_unique(snap.node_ids@));
                    assert(!snapshot_valid(*snap));
                }
                return Err(Error::new(ErrorKind::Corruption, "Handle listed twice"));
            }
            let ri = match find_record(&snap.nodes, h) {
                Some(ri) => ri,
                None => {
                    proof {
                        assert(record_at(snap.nodes@, snap.node_ids@[i as int].1) is None);
                        assert(!snapshot_valid(*snap));
                    }
                    return Err(Error::new(ErrorKind::Corruption, "Found dead node id"));
                },
            };
            let element = copy_element(&snap.nodes[ri].element);
            t.add_element(snap.node_ids[i].0.clone(), element);
            proof {
                let post = t@;
                let id = snap.node_ids@[i as int].0@;
                assert(!has_key(p, id));
                lemma_map_push(p, snap.node_ids@[i as int]);
                assert(keys_unique(q));
                assert(values_unique(q)) by {
                    assert forall|a: int, b: int| 0 <= a < q.len() && 0 <= b < q.len() && a != b implies #[trigger] q[a].1 != #[trigger] q[b].1 by {
                        if a < p.len() && b < p.len() {
                            assert(q[a] == p[a] && q[b] == p[b]);
                        } else if a < p.len() {
                            assert(q[a] == snap.node_ids@[a]);
                        } else {
                            assert(q[b] == snap.node_ids@[b]);
                        }
                    }
                }
                assert(post.index.dom() =~= entries_map(q).dom());
                assert(post.nodes.dom() == pre.nodes.dom().insert(post.index[id]));
                assert forall|a: Seq<char>| #[trigger] post.index.contains_key(a) implies {
                    &&& post.nodes[post.index[a]].element == record_of(snap.nodes@, entries_map(q)[a]).element
                    &&& post.nodes[post.index[a]].links@.len() == 0
                } by {
                    if a != id {
                        assert(pre.index.contains_key(a));
                        assert(pre.nodes.contains_key(pre.index[a]));
                    }
                }
            }
            i = i + 1;
        }
        proof {
            assert(snap.node_ids@.take(snap.node_ids@.len() as int) == snap.node_ids@);
        }
        let ghost t1 = t@;
        let mut i: usize = 0;
        while i < snap.node_ids.len()
            invariant
                t.wf(),
                snap.node_ids.len() <= ARENA_CAPACITY,
                i <= snap.node_ids.len(),
                m == entries_map(snap.node_ids@),
                keys_unique(snap.node_ids@),
                values_unique(snap.node_ids@),
                forall|j: int| 0 <= j < snap.node_ids@.len() ==> #[trigger] record_at(snap.nodes@, snap.node_ids@[j].1) is Some,
                t@.index == t1.index,
                t@.hashes == t1.hashes,
                t@.nodes.dom() == t1.nodes.dom(),
                t@.index.dom() == m.dom(),
                t@.hashes.dom() == Set::<Seq<char>>::empty(),
                forall|a: Seq<char>| #[trigger] t@.index.contains_key(a) ==>
                    t@.nodes[t@.index[a]].element == record_of(snap.nodes@, m[a]).element,
                forall|a: Seq<char>, b: Seq<char>| t@.index.contains_key(a) && t@.index.contains_key(b)
                    && #[trigger] t@.nodes[t@.index[a]].links@.contains(#[trigger] t@.index[b]) ==> snapshot_linked(*snap, a).contains(b),
                forall|x: int, k: int| 0 <= x < i && 0 <= k < snap.node_ids@.len()
                    && #[trigger] record_of(snap.nodes@, snap.node_ids@[x].1).links@.contains(#[trigger] snap.node_ids@[k].1) ==> {
                        &&& t@.nodes[t@.index[snap.node_ids@[x].0@]].links@.contains(t@.index[snap.node_ids@[k].0@])
                        &&& record_of(snap.nodes@, snap.node_ids@[x].1).element.is_card() != record_of(snap.nodes@, snap.node_ids@[k].1).element.is_card()
                    },
            decreases snap.node_ids.len() - i,
        {
            let ri = match find_record(&snap.nodes, snap.node_ids[i].1) {
                Some(ri) => ri,
                None => {
                    proof {
                        assert(record_at(snap.nodes@, snap.node_ids@[i as int].1) is Some);
                    }
                    return Err(Error::new(ErrorKind::Corruption, "Found dead node id"));
                },
            };
            let links = copy_handles(&snap.nodes[ri].links);
            let ghost rec_i = record_of(snap.nodes@, snap.node_ids@[i as int].1);
            assert(links@ == rec_i.links@);
            let mut j: usize = 0;
            while j < links.len()
                invariant
                    t.wf(),
                    i < snap.node_ids.len(),
                    j <= links.len(),
                    links@ == rec_i.links@,
                    rec_i == record_of(snap.nodes@, snap.node_ids@[i as int].1),
                    m == entries_map(snap.node_ids@),
                    keys_unique(snap.node_ids@),
                    values_unique(snap.node_ids@),
                    t@.index == t1.index,
                    t@.hashes == t1.hashes,
                    t@.nodes.dom() == t1.nodes.dom(),
                    t@.index.dom() == m.dom(),
                    forall|a: Seq<char>| #[trigger] t@.index.contains_key(a) ==>
                        t@.nodes[t@.index[a]].element == record_of(snap.nodes@, m[a]).element,
                    forall|a: Seq<char>, b: Seq<char>| t@.index.contains_key(a) && t@.index.contains_key(b)
                        && #[trigger] t@.nodes[t@.index[a]].links@.contains(#[trigger] t@.index[b]) ==> snapshot_linked(*snap, a).contains(b),
                    forall|x: int, k: int| 0 <= x < i && 0 <= k < snap.node_ids@.len()
                        && #[trigger] record_of(snap.nodes@, snap.node_ids@[x].1).links@.contains(#[trigger] snap.node_ids@[k].1) ==> {
                            &&& t@.nodes[t@.index[snap.node_ids@[x].0@]].links@.contains(t@.index[snap.node_ids@[k].0@])
                            &&& record_of(snap.nodes@, snap.node_ids@[x].1).element.is_card() != record_of(snap.nodes@, snap.node_ids@[k].1).element.is_card()
                        },
                    forall|k: int| 0 <= k < snap.node_ids@.len() && #[trigger] links@.take(j as int).contains(snap.node_ids@[k].1) ==> {
                        &&& t@.nodes[t@.index[snap.node_ids@[i as int].0@]].links@.contains(t@.index[snap.node_ids@[k].0@])
                        &&& rec_i.element.is_card() != record_of(snap.nodes@, snap.node_ids@[k].1).element.is_card()
                    },
                decreases links.len() - j,
            {
                let l = links[j];
                proof {
                    assert(links@.take(j as int + 1) == links@.take(j as int).push(l));
                    crate::links::lemma_push_contains(links@.take(j as int), l);
                }
                match find_handle(&snap.node_ids, l, snap.node_ids.len()) {
                    None => {},
                    Some(k) => {
                        let ghost pre = t@;
                        let ghost a = snap.node_ids@[i as int].0@;
                        let ghost b = snap.node_ids@[k as int].0@;
                        proof {
                            lemma_map_at(snap.node_ids@, i as int);
                            lemma_map_at(snap.node_ids@, k as int);
                            assert(links@[j as int] == l);
                            assert(links@.contains(l));
                            assert(rec_i.links@.contains(snap.node_ids@[k as int].1));
                            assert(t@.index.contains_key(a) && t@.index.contains_key(b));
                            assert(t@.nodes[t@.index[a]].element == record_of(snap.nodes@, m[a]).element);
                            assert(t@.nodes[t@.index[b]].element == record_of(snap.nodes@, m[b]).element);
                        }
                        match t.link(snap.node_ids[i].0.as_str(), snap.node_ids[k].0.as_str()) {
                            Ok(()) => {},
                            Err(_) => {
                                proof {
                                    assert(rec_i.links@.contains(snap.node_ids@[k as int].1));
                                    assert(!snapshot_valid(*snap));
                                }
                                return Err(Error::new(ErrorKind::Corruption, "A link joins two nodes of one kind"));
                            },
                        }
                        proof {
                            let post = t@;
                            let ha = pre.index[a];
                            let hb = pre.index[b];
                            assert(pre.nodes.contains_key(ha) && pre.nodes.contains_key(hb));
                            crate::links::lemma_add_link(pre.nodes[ha].links@, hb);
                            crate::links::lemma_add_link(pre.nodes[hb].links@, ha);
                            assert(snapshot_linked(*snap, a).contains(b));
                            assert(snapshot_linked(*snap, b).contains(a));
                            assert forall|x: Seq<char>, y: Seq<char>| post.index.contains_key(x) && post.index.contains_key(y)
                                && #[trigger] post.nodes[post.index[x]].links@.contains(#[trigger] post.index[y]) implies snapshot_linked(*snap, x).contains(y) by {
                                assert(pre.nodes.contains_key(post.index[x]));
                                crate::links::lemma_add_link(pre.nodes[post.index[x]].links@, hb);
                                crate::links::lemma_add_link(pre.nodes[post.index[x]].links@, ha);
                                if !pre.nodes[pre.index[x]].links@.contains(pre.index[y]) {
                                    if post.index[x] == ha {
                                        assert(post.index[y] == hb);
                                        assert(y == b);
                                        assert(x == a);
                                    } else {
                                        assert(post.index[x] == hb);
                                        assert(post.index[y] == ha);
                                        assert(y == a);
                                        assert(x == b);
                                    }
                                }
                            }
                            assert forall|x: int, kk: int| 0 <= x < i && 0 <= kk < snap.node_ids@.len()
                                && #[trigger] record_of(snap.nodes@, snap.node_ids@[x].1).links@.contains(#[trigger] snap.node_ids@[kk].1) implies
                                    post.nodes[post.index[snap.node_ids@[x].0@]].links@.contains(post.index[snap.node_ids@[kk].0@]) by {
                                lemma_map_at(snap.node_ids@, x);
                                assert(pre.nodes.contains_key(pre.index[snap.node_ids@[x].0@]));
                                crate::links::lemma_add_link(pre.nodes[pre.index[snap.node_ids@[x].0@]].links@, hb);
                                crate::links::lemma_add_link(pre.nodes[pre.index[snap.node_ids@[x].0@]].links@, ha);
                            }
                            assert forall|kk: int| 0 <= kk < snap.node_ids@.len() && #[trigger] links@.take(j as int + 1).contains(snap.node_ids@[kk].1) implies
                                post.nodes[post.index[a]].links@.contains(post.index[snap.node_ids@[kk].0@]) by {
                                if kk != k {
                                    assert(snap.node_ids@[kk].1 != l);
                                    assert(links@.take(j as int).contains(snap.node_ids@[kk].1));
                                }
                            }
                        }
                    },
                }
                proof {
                    assert forall|kk: int| 0 <= kk < snap.node_ids@.len() && #[trigger] links@.take(j as int + 1).contains(snap.node_ids@[kk].1) implies {
                        &&& t@.nodes[t@.index[snap.node_ids@[i as int].0@]].links@.contains(t@.index[snap.node_ids@[kk].0@])
                        &&& rec_i.element.is_card() != record_of(snap.nodes@, snap.node_ids@[kk].1).element.is_card()
                    } by {
                        if snap.node_ids@[kk].1 != l {
                            assert(links@.take(j as int).contains(snap.node_ids@[kk].1));
                        }
                    }
                }
                j = j + 1;
            }
            proof {
                assert(links@.take(links@.len() as int) == links@);
            }
            i = i + 1;
        }
        let ghost t2 = t@;
        let mut i: usize = 0;
        while i < snap.hashes.len()
            invariant
                t.wf(),
                i <= snap.hashes.len(),
                keys_unique(snap.hashes@.take(i as int)),
                t@.hashes == entries_map(snap.hashes@.take(i as int)),
                t@.index == t2.index,
                t@.nodes == t2.nodes,
            decreases snap.hashes.len() - i,
        {
            let ghost p = snap.hashes@.take(i as int);
            proof {
                assert(snap.hashes@.take(i as int + 1) == p.push(snap.hashes@[i as int]));
            }
            if t.has_hash(snap.hashes[i].0.as_str()) {
                proof {
                    let j = choose|j: int| 0 <= j < p.len() && #[trigger] p[j].0@ == snap.hashes@[i as int].0@;
                    assert(snap.hashes@[j].0@ == snap.hashes@[i as int].0@);
                    assert(!keys_unique(snap.hashes@));
                    assert(!snapshot_valid(*snap));
                }
                return Err(Error::new(ErrorKind::Corruption, "Fingerprint listed twice"));
            }
            t.update_hash(snap.hashes[i].0.as_str(), snap.hashes[i].1);
            proof {
                lemma_map_push(p, snap.hashes@[i as int]);
            }
            i = i + 1;
        }
        proof {
            assert(snap.hashes@.take(snap.hashes@.len() as int) == snap.hashes@);
            let tv = t@;
            assert forall|a: Seq<char>| #[trigger] m.contains_key(a) implies linked_ids(tv, a) == snapshot_linked(*snap, a) by {
                assert forall|b: Seq<char>| snapshot_linked(*snap, a).contains(b) implies #[trigger] linked_ids(tv, a).contains(b) by {
                    let x = choose|x: int| 0 <= x < snap.node_ids@.len() && #[trigger] snap.node_ids@[x].0@ == a;
                    let k = choose|k: int| 0 <= k < snap.node_ids@.len() && #[trigger] snap.node_ids@[k].0@ == b;
                    lemma_map_at(snap.node_ids@, x);
                    lemma_map_at(snap.node_ids@, k);
                    if record_of(snap.nodes@, snap.node_ids@[x].1).links@.contains(snap.node_ids@[k].1) {
                    } else {
                        assert(record_of(snap.nodes@, snap.node_ids@[k].1).links@.contains(snap.node_ids@[x].1));
                        assert(tv.nodes[tv.index[b]].links@.contains(tv.index[a]));
                        assert(tv.nodes.contains_key(tv.index[b]));
                    }
                }
                assert(linked_ids(tv, a) =~= snapshot_linked(*snap, a));
            }
            assert forall|i: int, k: int| 0 <= i < snap.node_ids@.len() && 0 <= k < snap.node_ids@.len()
                && #[trigger] record_of(snap.nodes@, snap.node_ids@[i].1).links@.contains(#[trigger] snap.node_ids@[k].1) implies
                    record_of(snap.nodes@, snap.node_ids@[i].1).element.is_card() != record_of(snap.nodes@, snap.node_ids@[k].1).element.is_card() by {
            }
            assert(tv.hashes == entries_map(snap.hashes@));
        }
        Ok(t)
    }
}

/// Saving a store and loading it back gives a valid snapshot, and every id that was
/// known resolves to an entity with the same fields and the same linked ids; the
/// fingerprint cache comes back too.
pub proof fn law_snapshot_round_trip(s: StoreView, snap: StoreSnapshot, t: StoreView)
    requires
        view_ok(s),
        exported(s, snap),
        imported(snap, t),
    ensures
        snapshot_valid(snap),
        t.index.dom() == s.index.dom(),
        forall|a: Seq<char>| #[trigger] s.index.contains_key(a) ==> {
            &&& t.nodes[t.index[a]].element == s.nodes[s.index[a]].element
            &&& linked_ids(t, a) == linked_ids(s, a)
        },
        t.hashes == s.hashes,
{
    let recs = snap.nodes@;
    let ids = snap.node_ids@;
    assert forall|h: u64| #[trigger] s.nodes.contains_key(h) implies record_at(recs, h) is Some && record_of(recs, h) == (NodeRecord {
        handle: h,
        element: s.nodes[h].element,
        links: record_of(recs, h).links,
    }) && record_of(recs, h).links@ == s.nodes[h].links@ by {
        assert(s.order.to_set().contains(h));
        let i = choose|i: int| 0 <= i < s.order.len() && s.order[i] == h;
        assert(recs[i].handle == h);
        assert forall|j: int| 0 <= j < i implies #[trigger] recs[j].handle != h by {
            assert(recs[j].handle == s.order[j]);
        }
        lemma_record_at(recs, h, i);
    }
    assert forall|i: int| 0 <= i < ids.len() implies #[trigger] record_at(recs, ids[i].1) is Some by {
        lemma_map_at(ids, i);
    }
    assert(values_unique(ids)) by {
        assert forall|a: int, b: int| 0 <= a < ids.len() && 0 <= b < ids.len() && a != b implies #[trigger] ids[a].1 != #[trigger] ids[b].1 by {
            lemma_map_at(ids, a);
            lemma_map_at(ids, b);
        }
    }
    assert forall|i: int, k: int| 0 <= i < ids.len() && 0 <= k < ids.len()
        && #[trigger] record_of(recs, ids[i].1).links@.contains(#[trigger] ids[k].1) implies
            record_of(recs, ids[i].1).element.is_card() != record_of(recs, ids[k].1).element.is_card() by {
        lemma_map_at(ids, i);
        lemma_map_at(ids, k);
    }
    assert forall|a: Seq<char>| #[trigger] s.index.contains_key(a) implies linked_ids(t, a) == linked_ids(s, a) by {
        assert(snapshot_linked(snap, a) =~= linked_ids(s, a)) by {
            assert forall|b: Seq<char>| #[trigger] snapshot_linked(snap, a).contains(b) == linked_ids(s, a).contains(b) by {
                if s.index.contains_key(b) {
                    assert(s.nodes.contains_key(s.index[a]) && s.nodes.contains_key(s.index[b]));
                    if s.nodes[s.index[b]].links@.contains(s.index[a]) {
                        assert(s.nodes[s.index[a]].links@.contains(s.index[b]));
                    }
                }
            }
        }
    }
}

} // verus!
