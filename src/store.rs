//! The relationship store: an arena of card and application nodes, an index from
//! external id to handle, symmetric links between nodes of the two kinds, and a
//! per-card fingerprint cache.
use vstd::prelude::*;
use crate::arena::{
    arena_get, arena_get_mut, arena_insert, arena_items, arena_keys, arena_len, arena_new,
    arena_order, arena_remove, Arena, Node, ARENA_CAPACITY,
};
use crate::entries::{
    entries_map, find_entry, keys_unique, lemma_map_at, lemma_map_push, lemma_map_remove,
    lemma_map_update,
};
use crate::error::{Error, ErrorKind};
use crate::links::{add_link, drop_link, lemma_add_link, lemma_drop_link, push_link, without_link};
use crate::model::{Game, MicroSDCard, StoreElement};

verus! {

/// What a store holds, as mathematics.
pub struct StoreView {
    /// Live nodes by handle.
    pub nodes: Map<u64, Node>,
    /// The order in which the arena visits its nodes.
    pub order: Seq<u64>,
    /// External id to handle.
    pub index: Map<Seq<char>, u64>,
    /// Card id to last observed fingerprint.
    pub hashes: Map<Seq<char>, u64>,
}

/// Links are symmetric, join a card to an application, and name each neighbour once.
pub open spec fn graph_ok(nodes: Map<u64, Node>) -> bool {
    &&& forall|k: u64| #[trigger] nodes.contains_key(k) ==> nodes[k].links@.no_duplicates()
    &&& forall|k: u64, l: u64|
        nodes.contains_key(k) && #[trigger] nodes[k].links@.contains(l) ==> {
            &&& nodes.contains_key(l)
            &&& nodes[l].links@.contains(k)
            &&& nodes[k].element.is_card() != nodes[l].element.is_card()
        }
}

/// The invariants of a store, over its view.
pub open spec fn view_ok(v: StoreView) -> bool {
    &&& v.nodes.dom().finite()
    &&& v.nodes.len() <= ARENA_CAPACITY
    &&& forall|id: Seq<char>| #[trigger] v.index.contains_key(id) ==> v.nodes.contains_key(v.index[id])
    &&& forall|a: Seq<char>, b: Seq<char>|
        v.index.contains_key(a) && v.index.contains_key(b) && #[trigger] v.index[a] == #[trigger] v.index[b]
            ==> a == b
    &&& graph_ok(v.nodes)
}

/// Nothing but the links of `ha` and `hb` changed: each gained the other.
pub open spec fn links_added(pre: StoreView, post: StoreView, ha: u64, hb: u64) -> bool {
    &&& post.index == pre.index
    &&& post.hashes == pre.hashes
    &&& post.nodes.dom() == pre.nodes.dom()
    &&& forall|k: u64| #[trigger] pre.nodes.contains_key(k) ==> {
        &&& post.nodes[k].element == pre.nodes[k].element
        &&& post.nodes[k].links@ == if k == ha {
            add_link(pre.nodes[k].links@, hb)
        } else if k == hb {
            add_link(pre.nodes[k].links@, ha)
        } else {
            pre.nodes[k].links@
        }
    }
}

/// Nothing but the links of `ha` and `hb` changed: each lost the other.
pub open spec fn links_dropped(pre: StoreView, post: StoreView, ha: u64, hb: u64) -> bool {
    &&& post.index == pre.index
    &&& post.hashes == pre.hashes
    &&& post.nodes.dom() == pre.nodes.dom()
    &&& forall|k: u64| #[trigger] pre.nodes.contains_key(k) ==> {
        &&& post.nodes[k].element == pre.nodes[k].element
        &&& post.nodes[k].links@ == if k == ha {
            drop_link(pre.nodes[k].links@, hb)
        } else if k == hb {
            drop_link(pre.nodes[k].links@, ha)
        } else {
            pre.nodes[k].links@
        }
    }
}

/// `add` with id `id` and element `e`: a no-op when the id is present (first write
/// wins), else a fresh unlinked node under a new handle.
pub open spec fn added(pre: StoreView, post: StoreView, id: Seq<char>, e: StoreElement) -> bool {
    if pre.index.contains_key(id) {
        post == pre
    } else {
        let h = post.index[id];
        &&& !pre.nodes.contains_key(h)
        &&& post.index == pre.index.insert(id, h)
        &&& post.hashes == pre.hashes
        &&& post.nodes.dom() == pre.nodes.dom().insert(h)
        &&& post.nodes[h].element == e
        &&& post.nodes[h].links@.len() == 0
        &&& forall|k: u64| #[trigger] pre.nodes.contains_key(k) ==> post.nodes[k] == pre.nodes[k]
    }
}

/// The node of `id` is gone, its index entry too, and no remaining node links to it.
pub open spec fn removed(pre: StoreView, post: StoreView, id: Seq<char>) -> bool {
    let h = pre.index[id];
    &&& post.index == pre.index.remove(id)
    &&& post.nodes.dom() == pre.nodes.dom().remove(h)
    &&& forall|k: u64| #[trigger] post.nodes.contains_key(k) ==> {
        &&& post.nodes[k].element == pre.nodes[k].element
        &&& post.nodes[k].links@ == drop_link(pre.nodes[k].links@, h)
    }
}

/// Only the element of node `h` changed.
pub open spec fn element_replaced(pre: StoreView, post: StoreView, h: u64) -> bool {
    &&& post.index == pre.index
    &&& post.hashes == pre.hashes
    &&& post.nodes.dom() == pre.nodes.dom()
    &&& post.nodes[h].links@ == pre.nodes[h].links@
    &&& forall|k: u64| #[trigger] pre.nodes.contains_key(k) && k != h ==> post.nodes[k] == pre.nodes[k]
}

/// The applications among the nodes `hs`, in that order.
pub open spec fn games_of(nodes: Map<u64, Node>, hs: Seq<u64>) -> Seq<Game>
    decreases hs.len(),
{
    if hs.len() == 0 {
        Seq::empty()
    } else {
        let rest = games_of(nodes, hs.drop_last());
        match nodes[hs.last()].element {
            StoreElement::Game(g) => rest.push(g),
            _ => rest,
        }
    }
}

/// The cards among the nodes `hs`, in that order.
pub open spec fn cards_of(nodes: Map<u64, Node>, hs: Seq<u64>) -> Seq<MicroSDCard>
    decreases hs.len(),
{
    if hs.len() == 0 {
        Seq::empty()
    } else {
        let rest = cards_of(nodes, hs.drop_last());
        match nodes[hs.last()].element {
            StoreElement::Card(c) => rest.push(c),
            _ => rest,
        }
    }
}

/// Each card among the nodes `hs`, with the applications it is linked to.
pub open spec fn cards_with_games_of(nodes: Map<u64, Node>, hs: Seq<u64>) -> Seq<(MicroSDCard, Seq<Game>)>
    decreases hs.len(),
{
    if hs.len() == 0 {
        Seq::empty()
    } else {
        let rest = cards_with_games_of(nodes, hs.drop_last());
        let k = hs.last();
        match nodes[k].element {
            StoreElement::Card(c) => rest.push((c, games_of(nodes, nodes[k].links@))),
            _ => rest,
        }
    }
}

proof fn lemma_links_added_graph(pre: StoreView, post: StoreView, ha: u64, hb: u64)
    requires
        graph_ok(pre.nodes),
        pre.nodes.contains_key(ha),
        pre.nodes.contains_key(hb),
        pre.nodes[ha].element.is_card() != pre.nodes[hb].element.is_card(),
        links_added(pre, post, ha, hb),
    ensures
        graph_ok(post.nodes),
        forall|k: u64, y: u64| pre.nodes.contains_key(k) && #[trigger] pre.nodes[k].links@.contains(y) ==> post.nodes[k].links@.contains(y),
{
    assert forall|k: u64, y: u64| pre.nodes.contains_key(k) && #[trigger] pre.nodes[k].links@.contains(y) implies post.nodes[k].links@.contains(y) by {
        lemma_add_link(pre.nodes[k].links@, hb);
        lemma_add_link(pre.nodes[k].links@, ha);
    }
    assert forall|k: u64| #[trigger] post.nodes.contains_key(k) implies post.nodes[k].links@.no_duplicates() by {
        lemma_add_link(pre.nodes[k].links@, hb);
        lemma_add_link(pre.nodes[k].links@, ha);
    }
    assert forall|k: u64, l: u64|
        post.nodes.contains_key(k) && #[trigger] post.nodes[k].links@.contains(l) implies {
            &&& post.nodes.contains_key(l)
            &&& post.nodes[l].links@.contains(k)
            &&& post.nodes[k].element.is_card() != post.nodes[l].element.is_card()
        } by {
        lemma_add_link(pre.nodes[k].links@, hb);
        lemma_add_link(pre.nodes[k].links@, ha);
        if pre.nodes[k].links@.contains(l) {
            assert(pre.nodes[l].links@.contains(k));
        } else if k == ha {
            assert(l == hb);
            lemma_add_link(pre.nodes[hb].links@, ha);
        } else {
            assert(k == hb && l == ha);
            lemma_add_link(pre.nodes[ha].links@, hb);
        }
    }
}

proof fn lemma_links_dropped_graph(pre: StoreView, post: StoreView, ha: u64, hb: u64)
    requires
        graph_ok(pre.nodes),
        links_dropped(pre, post, ha, hb),
    ensures
        graph_ok(post.nodes),
{
    assert forall|k: u64| #[trigger] post.nodes.contains_key(k) implies post.nodes[k].links@.no_duplicates() by {
        lemma_drop_link(pre.nodes[k].links@, hb);
        lemma_drop_link(pre.nodes[k].links@, ha);
    }
    assert forall|k: u64, l: u64|
        post.nodes.contains_key(k) && #[trigger] post.nodes[k].links@.contains(l) implies {
            &&& post.nodes.contains_key(l)
            &&& post.nodes[l].links@.contains(k)
            &&& post.nodes[k].element.is_card() != post.nodes[l].element.is_card()
        } by {
        lemma_drop_link(pre.nodes[k].links@, hb);
        lemma_drop_link(pre.nodes[k].links@, ha);
        assert(pre.nodes[k].links@.contains(l));
        assert(pre.nodes[l].links@.contains(k));
        lemma_drop_link(pre.nodes[l].links@, hb);
        lemma_drop_link(pre.nodes[l].links@, ha);
    }
}

proof fn lemma_removed_graph(pre: StoreView, post: StoreView, h: u64)
    requires
        graph_ok(pre.nodes),
        pre.nodes.contains_key(h),
        post.nodes.dom() == pre.nodes.dom().remove(h),
        forall|k: u64| #[trigger] post.nodes.contains_key(k) ==> {
            &&& post.nodes[k].element == pre.nodes[k].element
            &&& post.nodes[k].links@ == drop_link(pre.nodes[k].links@, h)
        },
    ensures
        graph_ok(post.nodes),
{
    assert forall|k: u64| #[trigger] post.nodes.contains_key(k) implies post.nodes[k].links@.no_duplicates() by {
        lemma_drop_link(pre.nodes[k].links@, h);
    }
    assert forall|k: u64, l: u64|
        post.nodes.contains_key(k) && #[trigger] post.nodes[k].links@.contains(l) implies {
            &&& post.nodes.contains_key(l)
            &&& post.nodes[l].links@.contains(k)
            &&& post.nodes[k].element.is_card() != post.nodes[l].element.is_card()
        } by {
        lemma_drop_link(pre.nodes[k].links@, h);
        assert(pre.nodes[k].links@.contains(l));
        assert(post.nodes.contains_key(l));
        lemma_drop_link(pre.nodes[l].links@, h);
    }
}

/// Each card with its applications, with the lists read as sequences.
pub open spec fn pairs_view(s: Seq<(MicroSDCard, Vec<Game>)>) -> Seq<(MicroSDCard, Seq<Game>)> {
    s.map_values(|p: (MicroSDCard, Vec<Game>)| (p.0, p.1@))
}

fn copy_entries(v: &Vec<(String, u64)>) -> (r: Vec<(String, u64)>)
    ensures
        r@ == v@,
{
    let mut out: Vec<(String, u64)> = Vec::new();
    let mut i: usize = 0;
    while i < v.len()
        invariant
            i <= v.len(),
            out@ == v@.take(i as int),
        decreases v.len() - i,
    {
        out.push((v[i].0.clone(), v[i].1));
        assert(v@.take(i as int + 1) == v@.take(i as int).push(v@[i as int]));
        i = i + 1;
    }
    assert(v@.take(v@.len() as int) == v@);
    out
}

/// The in-memory relationship store.
pub struct StoreData {
    nodes: Arena,
    node_ids: Vec<(String, u64)>,
    hashes: Vec<(String, u64)>,
}

impl View for StoreData {
    type V = StoreView;

    closed spec fn view(&self) -> StoreView {
        StoreView {
            nodes: arena_items(self.nodes),
            order: arena_order(self.nodes),
            index: entries_map(self.node_ids@),
            hashes: entries_map(self.hashes@),
        }
    }
}

impl StoreData {
    pub closed spec fn entries_ok(&self) -> bool {
        &&& keys_unique(self.node_ids@)
        &&& keys_unique(self.hashes@)
        &&& self.node_ids@.len() <= arena_items(self.nodes).len()
    }

    /// The store's invariants.
    pub open spec fn wf(&self) -> bool {
        self.entries_ok() && view_ok(self@)
    }

    proof fn lemma_index_at(&self, i: int)
        requires
            self.entries_ok(),
            0 <= i < self.node_ids@.len(),
        ensures
            self@.index.contains_key(self.node_ids@[i].0@),
            self@.index[self.node_ids@[i].0@] == self.node_ids@[i].1,
    {
        lemma_map_at(self.node_ids@, i);
    }

    /// The handle of `id`, if the id is known.
    pub(crate) fn handle_of(&self, id: &str) -> (r: Option<u64>)
        requires
            self.wf(),
        ensures
            match r {
                Some(h) => self@.index.contains_key(id@) && self@.index[id@] == h,
                None => !self@.index.contains_key(id@),
            },
    {
        let key = id.to_owned();
        match find_entry(&self.node_ids, &key) {
            Some(i) => {
                proof {
                    self.lemma_index_at(i as int);
                }
                Some(self.node_ids[i].1)
            },
            None => None,
        }
    }

    /// An empty store.
    pub fn new() -> (r: StoreData)
        ensures
            r.wf(),
            r@.nodes.dom() == Set::<u64>::empty(),
            r@.index.dom() == Set::<Seq<char>>::empty(),
            r@.hashes.dom() == Set::<Seq<char>>::empty(),
    {
        let r = StoreData { nodes: arena_new(), node_ids: Vec::new(), hashes: Vec::new() };
        assert(r@.index.dom() =~= Set::<Seq<char>>::empty());
        assert(r@.hashes.dom() =~= Set::<Seq<char>>::empty());
        r
    }

    /// How many nodes the store holds.
    pub fn node_count(&self) -> (r: usize)
        ensures
            r == self@.nodes.len(),
    {
        arena_len(&self.nodes)
    }

    pub(crate) fn add_element(&mut self, id: String, element: StoreElement)
        requires
            old(self).wf(),
            old(self)@.nodes.len() < ARENA_CAPACITY,
        ensures
            final(self).wf(),
            added(old(self)@, final(self)@, id@, element),
    {
        match find_entry(&self.node_ids, &id) {
            Some(i) => {
                proof {
                    self.lemma_index_at(i as int);
                }
            },
            None => {
                let ghost pre = self@;
                let h = arena_insert(&mut self.nodes, Node { element, links: Vec::new() });
                proof {
                    lemma_map_push(self.node_ids@, (id, h));
                }
                self.node_ids.push((id, h));
                proof {
                    let post = self@;
                    assert(post.index == pre.index.insert(id@, h));
                    assert(post.nodes.dom() =~= pre.nodes.dom().insert(h));
                    assert forall|a: Seq<char>| #[trigger] post.index.contains_key(a) implies post.nodes.contains_key(post.index[a]) by {
                        if a != id@ {
                            assert(pre.index.contains_key(a));
                        }
                    }
                    assert forall|a: Seq<char>, b: Seq<char>|
                        post.index.contains_key(a) && post.index.contains_key(b) && #[trigger] post.index[a] == #[trigger] post.index[b]
                        implies a == b by {
                        if a != id@ && b != id@ {
                        } else if a != id@ {
                            assert(pre.nodes.contains_key(pre.index[a]));
                        } else if b != id@ {
                            assert(pre.nodes.contains_key(pre.index[b]));
                        }
                    }
                    assert forall|k: u64, l: u64|
                        post.nodes.contains_key(k) && #[trigger] post.nodes[k].links@.contains(l) implies {
                            &&& post.nodes.contains_key(l)
                            &&& post.nodes[l].links@.contains(k)
                            &&& post.nodes[k].element.is_card() != post.nodes[l].element.is_card()
                        } by {
                        if k != h {
                            assert(pre.nodes[k].links@.contains(l));
                            assert(l != h);
                        }
                    }
                }
            },
        }
    }

    /// Adds a card under `id` unless the id is already known; an existing entity is
    /// left untouched (the first write wins).
    pub fn add_card(&mut self, id: String, card: MicroSDCard)
        requires
            old(self).wf(),
            old(self)@.nodes.len() < ARENA_CAPACITY,
        ensures
            final(self).wf(),
            added(old(self)@, final(self)@, id@, StoreElement::Card(card)),
    {
        self.add_element(id, StoreElement::Card(card))
    }

    /// Adds an application under `id` unless the id is already known; an existing
    /// entity is left untouched (the first write wins).
    pub fn add_game(&mut self, id: String, game: Game)
        requires
            old(self).wf(),
            old(self)@.nodes.len() < ARENA_CAPACITY,
        ensures
            final(self).wf(),
            added(old(self)@, final(self)@, id@, StoreElement::Game(game)),
    {
        self.add_element(id, StoreElement::Game(game))
    }

    /// Links `a_id` and `b_id` both ways.  Both ids must be known, and one must be a
    /// card and the other an application.
    pub fn link(&mut self, a_id: &str, b_id: &str) -> (r: Result<(), Error>)
        requires
            old(self).wf(),
        ensures
            final(self).wf(),
            !(old(self)@.index.contains_key(a_id@) && old(self)@.index.contains_key(b_id@)) ==> (r matches Err(e)
                && e.kind == ErrorKind::NotFound) && final(self)@ == old(self)@,
            old(self)@.index.contains_key(a_id@) && old(self)@.index.contains_key(b_id@) ==> {
                let ha = old(self)@.index[a_id@];
                let hb = old(self)@.index[b_id@];
                if old(self)@.nodes[ha].element.is_card() == old(self)@.nodes[hb].element.is_card() {
                    (r matches Err(e) && e.kind == ErrorKind::KindMismatch) && final(self)@ == old(self)@
                } else {
                    r is Ok && links_added(old(self)@, final(self)@, ha, hb)
                }
            },
    {
        let (ha, hb) = match (self.handle_of(a_id), self.handle_of(b_id)) {
            (Some(x), Some(y)) => (x, y),
            _ => {
                return Err(Error::new(ErrorKind::NotFound, "Either Game or Card could not be found"));
            },
        };
        let a_card = arena_get(&self.nodes, ha).element.holds_card();
        let b_card = arena_get(&self.nodes, hb).element.holds_card();
        if a_card == b_card {
            return Err(Error::new(ErrorKind::KindMismatch, "A link joins a card and a game"));
        }
        let ghost pre = self@;
        {
            let na = arena_get_mut(&mut self.nodes, ha);
            push_link(&mut na.links, hb);
        }
        {
            let nb = arena_get_mut(&mut self.nodes, hb);
            push_link(&mut nb.links, ha);
        }
        proof {
            let post = self@;
            assert(post.nodes.dom() =~= pre.nodes.dom());
            assert(links_added(pre, post, ha, hb));
            lemma_links_added_graph(pre, post, ha, hb);
        }
        Ok(())
    }

    /// Removes the link between `a_id` and `b_id`, both ways.  Both ids must be known.
    pub fn unlink(&mut self, a_id: &str, b_id: &str) -> (r: Result<(), Error>)
        requires
            old(self).wf(),
        ensures
            final(self).wf(),
            !(old(self)@.index.contains_key(a_id@) && old(self)@.index.contains_key(b_id@)) ==> (r matches Err(e)
                && e.kind == ErrorKind::NotFound) && final(self)@ == old(self)@,
            old(self)@.index.contains_key(a_id@) && old(self)@.index.contains_key(b_id@) ==> r is Ok
                && links_dropped(old(self)@, final(self)@, old(self)@.index[a_id@], old(self)@.index[b_id@]),
    {
        let (ha, hb) = match (self.handle_of(a_id), self.handle_of(b_id)) {
            (Some(x), Some(y)) => (x, y),
            _ => {
                return Err(Error::new(ErrorKind::NotFound, "Either Game or Card could not be found"));
            },
        };
        self.unlink_handles(ha, hb);
        Ok(())
    }

    pub(crate) fn unlink_handles(&mut self, ha: u64, hb: u64)
        requires
            old(self).wf(),
            old(self)@.nodes.contains_key(ha),
            old(self)@.nodes.contains_key(hb),
        ensures
            final(self).wf(),
            links_dropped(old(self)@, final(self)@, ha, hb),
    {
        let ghost pre = self@;
        {
            let na = arena_get_mut(&mut self.nodes, ha);
            na.links = without_link(&na.links, hb);
        }
        proof {
            lemma_drop_link(pre.nodes[ha].links@, hb);
            lemma_drop_link(pre.nodes[ha].links@, ha);
            lemma_drop_link(drop_link(pre.nodes[ha].links@, hb), ha);
        }
        {
            let nb = arena_get_mut(&mut self.nodes, hb);
            nb.links = without_link(&nb.links, ha);
        }
        proof {
            let post = self@;
            assert(post.nodes.dom() =~= pre.nodes.dom());
            assert(links_dropped(pre, post, ha, hb));
            lemma_links_dropped_graph(pre, post, ha, hb);
        }
    }

    /// Removes the entity `id` and every link to it.  The fingerprint cache is not
    /// touched.
    pub fn remove_item(&mut self, id: &str) -> (r: Result<(), Error>)
        requires
            old(self).wf(),
        ensures
            final(self).wf(),
            !old(self)@.index.contains_key(id@) ==> (r matches Err(e) && e.kind == ErrorKind::NotFound)
                && final(self)@ == old(self)@,
            old(self)@.index.contains_key(id@) ==> r is Ok && removed(old(self)@, final(self)@, id@)
                && final(self)@.hashes == old(self)@.hashes,
    {
        let key = id.to_owned();
        let i = match find_entry(&self.node_ids, &key) {
            Some(i) => i,
            None => {
                return Err(Error::new(ErrorKind::NotFound, "Id not present"));
            },
        };
        let h = self.node_ids[i].1;
        let ghost pre = self@;
        proof {
            self.lemma_index_at(i as int);
            lemma_map_remove(self.node_ids@, i as int);
        }
        self.node_ids.remove(i);
        let ghost ids1 = self.node_ids@;
        let node = match arena_remove(&mut self.nodes, h) {
            Some(n) => n,
            None => {
                return Err(Error::new(ErrorKind::Corruption, "Id resolves to no node"));
            },
        };
        let ghost n0 = self@.nodes;
        assert(n0 == pre.nodes.remove(h));
        let mut j: usize = 0;
        while j < node.links.len()
            invariant
                node == pre.nodes[h],
                graph_ok(pre.nodes),
                pre.nodes.contains_key(h),
                n0 == pre.nodes.remove(h),
                self.node_ids@ == ids1,
                self.hashes@ == old(self).hashes@,
                j <= node.links.len(),
                self@.nodes.dom() == n0.dom(),
                forall|k: u64| #[trigger] n0.contains_key(k) ==> {
                    &&& self@.nodes[k].element == n0[k].element
                    &&& self@.nodes[k].links@ == if node.links@.subrange(0, j as int).contains(k) {
                        drop_link(n0[k].links@, h)
                    } else {
                        n0[k].links@
                    }
                },
            decreases node.links.len() - j,
        {
            let l = node.links[j];
            let ghost before = self@.nodes;
            proof {
                assert(pre.nodes[h].links@.contains(l));
                assert(n0.contains_key(l));
                assert(!node.links@.subrange(0, j as int).contains(l)) by {
                    if node.links@.subrange(0, j as int).contains(l) {
                        let q = choose|q: int| 0 <= q < j && node.links@.subrange(0, j as int)[q] == l;
                        assert(node.links@[q] == node.links@[j as int]);
                    }
                }
                assert forall|k: u64| #[trigger] node.links@.subrange(0, j as int + 1).contains(k) <==> (
                    node.links@.subrange(0, j as int).contains(k) || k == l) by {
                    assert(node.links@.subrange(0, j as int + 1) == node.links@.subrange(0, j as int).push(l));
                    crate::links::lemma_push_contains(node.links@.subrange(0, j as int), l);
                }
            }
            {
                let nl = arena_get_mut(&mut self.nodes, l);
                nl.links = without_link(&nl.links, h);
            }
            proof {
                assert(self@.nodes.dom() =~= n0.dom());
            }
            j = j + 1;
        }
        proof {
            let post = self@;
            assert(node.links@.subrange(0, node.links@.len() as int) == node.links@);
            assert forall|k: u64| #[trigger] post.nodes.contains_key(k) implies {
                &&& post.nodes[k].element == pre.nodes[k].element
                &&& post.nodes[k].links@ == drop_link(pre.nodes[k].links@, h)
            } by {
                if !node.links@.contains(k) {
                    assert(!pre.nodes[k].links@.contains(h));
                    lemma_drop_link(pre.nodes[k].links@, h);
                }
            }
            assert(post.nodes.dom() =~= pre.nodes.dom().remove(h));
            lemma_removed_graph(pre, post, h);
            assert(post.index == pre.index.remove(id@));
            assert forall|a: Seq<char>| #[trigger] post.index.contains_key(a) implies post.nodes.contains_key(post.index[a]) by {
                assert(pre.index.contains_key(a) && a != id@);
                assert(pre.index[a] != h);
            }
            assert forall|a: Seq<char>, b: Seq<char>|
                post.index.contains_key(a) && post.index.contains_key(b) && #[trigger] post.index[a] == #[trigger] post.index[b]
                implies a == b by {
                assert(pre.index[a] == pre.index[b]);
            }
        }
        Ok(())
    }

    /// Removes the entity `id`, every link to it and its cached fingerprint, in one
    /// step.
    pub fn remove_element(&mut self, id: &str) -> (r: Result<(), Error>)
        requires
            old(self).wf(),
        ensures
            final(self).wf(),
            !old(self)@.index.contains_key(id@) ==> (r matches Err(e) && e.kind == ErrorKind::NotFound)
                && final(self)@ == old(self)@,
            old(self)@.index.contains_key(id@) ==> r is Ok && removed(old(self)@, final(self)@, id@)
                && final(self)@.hashes == old(self)@.hashes.remove(id@),
    {
        self.remove_item(id)?;
        self.delete_hash(id);
        Ok(())
    }

    /// Forgets the fingerprint cached for `key`.
    pub fn delete_hash(&mut self, key: &str)
        requires
            old(self).wf(),
        ensures
            final(self).wf(),
            final(self)@ == (StoreView { hashes: old(self)@.hashes.remove(key@), ..old(self)@ }),
    {
        let k = key.to_owned();
        match find_entry(&self.hashes, &k) {
            Some(i) => {
                proof {
                    lemma_map_at(self.hashes@, i as int);
                    lemma_map_remove(self.hashes@, i as int);
                }
                self.hashes.remove(i);
            },
            None => {
                assert(old(self)@.hashes.remove(key@) =~= old(self)@.hashes);
            },
        }
    }

    /// Records `hash` as the fingerprint last observed for `key`.
    pub fn update_hash(&mut self, key: &str, hash: u64)
        requires
            old(self).wf(),
        ensures
            final(self).wf(),
            final(self)@ == (StoreView { hashes: old(self)@.hashes.insert(key@, hash), ..old(self)@ }),
    {
        let k = key.to_owned();
        match find_entry(&self.hashes, &k) {
            Some(i) => {
                proof {
                    lemma_map_at(self.hashes@, i as int);
                    lemma_map_update(self.hashes@, i as int, (k, hash));
                }
                self.hashes.set(i, (k, hash));
            },
            None => {
                proof {
                    lemma_map_push(self.hashes@, (k, hash));
                }
                self.hashes.push((k, hash));
            },
        }
    }

    /// `Some(hash)` when `hash` calls for work on card `id`: no fingerprint is cached
    /// for it, or the cached one differs.  `None` when nothing changed.
    pub fn is_hash_changed(&self, id: &str, hash: u64) -> (r: Option<u64>)
        requires
            self.wf(),
        ensures
            r == if self@.hashes.contains_key(id@) && self@.hashes[id@] == hash {
                None
            } else {
                Some(hash)
            },
    {
        let k = id.to_owned();
        match find_entry(&self.hashes, &k) {
            None => Some(hash),
            Some(i) => {
                proof {
                    lemma_map_at(self.hashes@, i as int);
                }
                if self.hashes[i].1 == hash {
                    None
                } else {
                    Some(hash)
                }
            },
        }
    }

    /// Applies `func` to the card `card_id` and stores what it returns.  A failure of
    /// `func` leaves the store as it was and is passed on.
    pub fn update_card<F>(&mut self, card_id: &str, func: F) -> (r: Result<(), Error>)
        where
            F: FnOnce(MicroSDCard) -> Result<MicroSDCard, Error>,
        requires
            old(self).wf(),
            forall|c: MicroSDCard| func.requires((c,)),
        ensures
            final(self).wf(),
            !old(self)@.index.contains_key(card_id@) ==> (r matches Err(e) && e.kind == ErrorKind::NotFound)
                && final(self)@ == old(self)@,
            old(self)@.index.contains_key(card_id@) ==> {
                let h = old(self)@.index[card_id@];
                match old(self)@.nodes[h].element {
                    StoreElement::Game(_) => (r matches Err(e) && e.kind == ErrorKind::KindMismatch)
                        && final(self)@ == old(self)@,
                    StoreElement::Card(c) => match r {
                        Ok(_) => {
                            &&& final(self)@.nodes[h].element.is_card()
                            &&& func.ensures((c,), Ok(final(self)@.nodes[h].element.card_of().unwrap()))
                            &&& element_replaced(old(self)@, final(self)@, h)
                        },
                        Err(e) => func.ensures((c,), Err(e)) && final(self)@ == old(self)@,
                    },
                }
            },
    {
        let h = match self.handle_of(card_id) {
            Some(h) => h,
            None => {
                return Err(Error::new(ErrorKind::NotFound, "Card Id not present"));
            },
        };
        let card = match arena_get(&self.nodes, h).element.as_card() {
            Some(c) => c,
            None => {
                return Err(Error::new(ErrorKind::KindMismatch, "Expected Card, got Game"));
            },
        };
        let updated = func(card)?;
        let ghost pre = self@;
        {
            let n = arena_get_mut(&mut self.nodes, h);
            n.element = StoreElement::Card(updated);
        }
        proof {
            let post = self@;
            assert(post.nodes.dom() =~= pre.nodes.dom());
            assert forall|k: u64, l: u64|
                post.nodes.contains_key(k) && #[trigger] post.nodes[k].links@.contains(l) implies {
                    &&& post.nodes.contains_key(l)
                    &&& post.nodes[l].links@.contains(k)
                    &&& post.nodes[k].element.is_card() != post.nodes[l].element.is_card()
                } by {
                assert(pre.nodes[k].links@.contains(l));
            }
            assert(graph_ok(post.nodes));
        }
        Ok(())
    }

    /// The handles node `h` is linked to.
    pub(crate) fn links_of(&self, h: u64) -> (r: Vec<u64>)
        requires
            self.wf(),
            self@.nodes.contains_key(h),
        ensures
            r@ == self@.nodes[h].links@,
    {
        let node = arena_get(&self.nodes, h);
        let mut out: Vec<u64> = Vec::new();
        let mut j: usize = 0;
        while j < node.links.len()
            invariant
                j <= node.links.len(),
                out@ == node.links@.subrange(0, j as int),
            decreases node.links.len() - j,
        {
            out.push(node.links[j]);
            assert(node.links@.subrange(0, j as int + 1) == node.links@.subrange(0, j as int).push(node.links@[j as int]));
            j = j + 1;
        }
        assert(node.links@.subrange(0, node.links@.len() as int) == node.links@);
        out
    }

    /// A copy of the element of node `h`.
    pub(crate) fn element_at(&self, h: u64) -> (r: StoreElement)
        requires
            self.wf(),
            self@.nodes.contains_key(h),
        ensures
            r == self@.nodes[h].element,
    {
        let e = &arena_get(&self.nodes, h).element;
        match e {
            StoreElement::Card(c) => StoreElement::Card(c.duplicate()),
            StoreElement::Game(g) => StoreElement::Game(g.duplicate()),
        }
    }

    /// The applications linked to node `h`, in link order.
    fn games_linked(&self, h: u64) -> (r: Vec<Game>)
        requires
            self.wf(),
            self@.nodes.contains_key(h),
        ensures
            r@ == games_of(self@.nodes, self@.nodes[h].links@),
    {
        let node = arena_get(&self.nodes, h);
        let mut out: Vec<Game> = Vec::new();
        let mut j: usize = 0;
        while j < node.links.len()
            invariant
                self.wf(),
                *node == self@.nodes[h],
                self@.nodes.contains_key(h),
                j <= node.links.len(),
                out@ == games_of(self@.nodes, node.links@.subrange(0, j as int)),
            decreases node.links.len() - j,
        {
            let l = node.links[j];
            proof {
                assert(node.links@.contains(l));
                assert(node.links@.subrange(0, j as int + 1).drop_last() == node.links@.subrange(0, j as int));
            }
            match arena_get(&self.nodes, l).element.as_game() {
                Some(g) => out.push(g),
                None => {},
            }
            j = j + 1;
        }
        assert(node.links@.subrange(0, node.links@.len() as int) == node.links@);
        out
    }

    /// The cards linked to node `h`, in link order.
    fn cards_linked(&self, h: u64) -> (r: Vec<MicroSDCard>)
        requires
            self.wf(),
            self@.nodes.contains_key(h),
        ensures
            r@ == cards_of(self@.nodes, self@.nodes[h].links@),
    {
        let node = arena_get(&self.nodes, h);
        let mut out: Vec<MicroSDCard> = Vec::new();
        let mut j: usize = 0;
        while j < node.links.len()
            invariant
                self.wf(),
                *node == self@.nodes[h],
                self@.nodes.contains_key(h),
                j <= node.links.len(),
                out@ == cards_of(self@.nodes, node.links@.subrange(0, j as int)),
            decreases node.links.len() - j,
        {
            let l = node.links[j];
            proof {
                assert(node.links@.contains(l));
                assert(node.links@.subrange(0, j as int + 1).drop_last() == node.links@.subrange(0, j as int));
            }
            match arena_get(&self.nodes, l).element.as_card() {
                Some(c) => out.push(c),
                None => {},
            }
            j = j + 1;
        }
        assert(node.links@.subrange(0, node.links@.len() as int) == node.links@);
        out
    }

    /// The card `card_id`.
    pub fn get_card(&self, card_id: &str) -> (r: Result<MicroSDCard, Error>)
        requires
            self.wf(),
        ensures
            !self@.index.contains_key(card_id@) ==> (r matches Err(e) && e.kind == ErrorKind::NotFound),
            self@.index.contains_key(card_id@) ==> match self@.nodes[self@.index[card_id@]].element {
                StoreElement::Card(c) => r == Ok::<MicroSDCard, Error>(c),
                StoreElement::Game(_) => (r matches Err(e) && e.kind == ErrorKind::KindMismatch),
            },
    {
        let h = match self.handle_of(card_id) {
            Some(h) => h,
            None => {
                return Err(Error::new(ErrorKind::NotFound, "Card Id not present"));
            },
        };
        match arena_get(&self.nodes, h).element.as_card() {
            Some(c) => Ok(c),
            None => Err(Error::new(ErrorKind::KindMismatch, "Expected card but game was returned")),
        }
    }

    /// The application `game_id`.
    pub fn get_game(&self, game_id: &str) -> (r: Result<Game, Error>)
        requires
            self.wf(),
        ensures
            !self@.index.contains_key(game_id@) ==> (r matches Err(e) && e.kind == ErrorKind::NotFound),
            self@.index.contains_key(game_id@) ==> match self@.nodes[self@.index[game_id@]].element {
                StoreElement::Game(g) => r == Ok::<Game, Error>(g),
                StoreElement::Card(_) => (r matches Err(e) && e.kind == ErrorKind::KindMismatch),
            },
    {
        let h = match self.handle_of(game_id) {
            Some(h) => h,
            None => {
                return Err(Error::new(ErrorKind::NotFound, "Game Id not present"));
            },
        };
        match arena_get(&self.nodes, h).element.as_game() {
            Some(g) => Ok(g),
            None => Err(Error::new(ErrorKind::KindMismatch, "Expected game but card was returned")),
        }
    }

    /// The card `card_id` with the applications linked to it.
    pub fn get_card_and_games(&self, card_id: &str) -> (r: Result<(MicroSDCard, Vec<Game>), Error>)
        requires
            self.wf(),
        ensures
            !self@.index.contains_key(card_id@) ==> (r matches Err(e) && e.kind == ErrorKind::NotFound),
            self@.index.contains_key(card_id@) ==> {
                let h = self@.index[card_id@];
                match self@.nodes[h].element {
                    StoreElement::Card(c) => (r matches Ok(p) && p.0 == c
                        && p.1@ == games_of(self@.nodes, self@.nodes[h].links@)),
                    StoreElement::Game(_) => (r matches Err(e) && e.kind == ErrorKind::KindMismatch),
                }
            },
    {
        let h = match self.handle_of(card_id) {
            Some(h) => h,
            None => {
                return Err(Error::new(ErrorKind::NotFound, "Card Id not present"));
            },
        };
        match arena_get(&self.nodes, h).element.as_card() {
            Some(c) => Ok((c, self.games_linked(h))),
            None => Err(Error::new(ErrorKind::KindMismatch, "Element was not a card")),
        }
    }

    /// The applications linked to `card_id`, in link order.
    pub fn get_games_on_card(&self, card_id: &str) -> (r: Result<Vec<Game>, Error>)
        requires
            self.wf(),
        ensures
            !self@.index.contains_key(card_id@) ==> (r matches Err(e) && e.kind == ErrorKind::NotFound),
            self@.index.contains_key(card_id@) ==> (r matches Ok(v)
                && v@ == games_of(self@.nodes, self@.nodes[self@.index[card_id@]].links@)),
    {
        match self.handle_of(card_id) {
            Some(h) => Ok(self.games_linked(h)),
            None => Err(Error::new(ErrorKind::NotFound, "Card Id not present")),
        }
    }

    /// The cards linked to `game_id`, in link order.
    pub fn get_cards_for_game(&self, game_id: &str) -> (r: Result<Vec<MicroSDCard>, Error>)
        requires
            self.wf(),
        ensures
            !self@.index.contains_key(game_id@) ==> (r matches Err(e) && e.kind == ErrorKind::NotFound),
            self@.index.contains_key(game_id@) ==> (r matches Ok(v)
                && v@ == cards_of(self@.nodes, self@.nodes[self@.index[game_id@]].links@)),
    {
        match self.handle_of(game_id) {
            Some(h) => Ok(self.cards_linked(h)),
            None => Err(Error::new(ErrorKind::NotFound, "Game Id not present")),
        }
    }

    /// Every card, in arena order.
    pub fn list_cards(&self) -> (r: Vec<MicroSDCard>)
        requires
            self.wf(),
        ensures
            r@ == cards_of(self@.nodes, self@.order),
    {
        let keys = arena_keys(&self.nodes);
        let mut out: Vec<MicroSDCard> = Vec::new();
        let mut i: usize = 0;
        while i < keys.len()
            invariant
                self.wf(),
                keys@ == self@.order,
                keys@.to_set() == self@.nodes.dom(),
                i <= keys.len(),
                out@ == cards_of(self@.nodes, keys@.subrange(0, i as int)),
            decreases keys.len() - i,
        {
            let k = keys[i];
            proof {
                assert(keys@.contains(k));
                assert(keys@.to_set().contains(k));
                assert(keys@.subrange(0, i as int + 1).drop_last() == keys@.subrange(0, i as int));
            }
            match arena_get(&self.nodes, k).element.as_card() {
                Some(c) => out.push(c),
                None => {},
            }
            i = i + 1;
        }
        assert(keys@.subrange(0, keys@.len() as int) == keys@);
        out
    }

    /// Every application, in arena order.
    pub fn list_games(&self) -> (r: Vec<Game>)
        requires
            self.wf(),
        ensures
            r@ == games_of(self@.nodes, self@.order),
    {
        let keys = arena_keys(&self.nodes);
        let mut out: Vec<Game> = Vec::new();
        let mut i: usize = 0;
        while i < keys.len()
            invariant
                self.wf(),
                keys@ == self@.order,
                keys@.to_set() == self@.nodes.dom(),
                i <= keys.len(),
                out@ == games_of(self@.nodes, keys@.subrange(0, i as int)),
            decreases keys.len() - i,
        {
            let k = keys[i];
            proof {
                assert(keys@.contains(k));
                assert(keys@.to_set().contains(k));
                assert(keys@.subrange(0, i as int + 1).drop_last() == keys@.subrange(0, i as int));
            }
            match arena_get(&self.nodes, k).element.as_game() {
                Some(g) => out.push(g),
                None => {},
            }
            i = i + 1;
        }
        assert(keys@.subrange(0, keys@.len() as int) == keys@);
        out
    }

    /// Every card with the applications linked to it, in arena order.
    pub fn list_cards_with_games(&self) -> (r: Vec<(MicroSDCard, Vec<Game>)>)
        requires
            self.wf(),
        ensures
            pairs_view(r@) == cards_with_games_of(self@.nodes, self@.order),
    {
        let keys = arena_keys(&self.nodes);
        let mut out: Vec<(MicroSDCard, Vec<Game>)> = Vec::new();
        let mut i: usize = 0;
        while i < keys.len()
            invariant
                self.wf(),
                keys@ == self@.order,
                keys@.to_set() == self@.nodes.dom(),
                i <= keys.len(),
                pairs_view(out@) == cards_with_games_of(self@.nodes, keys@.subrange(0, i as int)),
            decreases keys.len() - i,
        {
            let k = keys[i];
            proof {
                assert(keys@.contains(k));
                assert(keys@.to_set().contains(k));
                assert(keys@.subrange(0, i as int + 1).drop_last() == keys@.subrange(0, i as int));
            }
            match arena_get(&self.nodes, k).element.as_card() {
                Some(c) => {
                    let games = self.games_linked(k);
                    let ghost before = out@;
                    out.push((c, games));
                    assert(pairs_view(out@) == pairs_view(before).push((c, games@)));
                },
                None => {},
            }
            i = i + 1;
        }
        assert(keys@.subrange(0, keys@.len() as int) == keys@);
        out
    }

    /// Whether a fingerprint is cached for `key`.
    pub(crate) fn has_hash(&self, key: &str) -> (r: bool)
        requires
            self.wf(),
        ensures
            r == self@.hashes.contains_key(key@),
    {
        let k = key.to_owned();
        match find_entry(&self.hashes, &k) {
            Some(i) => {
                proof {
                    lemma_map_at(self.hashes@, i as int);
                }
                true
            },
            None => false,
        }
    }

    /// The live handles, in arena order.
    pub(crate) fn handles(&self) -> (r: Vec<u64>)
        requires
            self.wf(),
        ensures
            r@ == self@.order,
            r@.no_duplicates(),
            r@.to_set() == self@.nodes.dom(),
    {
        arena_keys(&self.nodes)
    }

    /// A copy of the id index as pairs.
    pub(crate) fn index_entries(&self) -> (r: Vec<(String, u64)>)
        requires
            self.wf(),
        ensures
            keys_unique(r@),
            entries_map(r@) == self@.index,
            r@.len() <= self@.nodes.len(),
    {
        copy_entries(&self.node_ids)
    }

    /// A copy of the fingerprint cache as pairs.
    pub(crate) fn hash_entries(&self) -> (r: Vec<(String, u64)>)
        requires
            self.wf(),
        ensures
            keys_unique(r@),
            entries_map(r@) == self@.hashes,
    {
        copy_entries(&self.hashes)
    }

    /// Whether `id` is known.
    pub fn contains_element(&self, id: &str) -> (r: bool)
        requires
            self.wf(),
        ensures
            r == self@.index.contains_key(id@),
    {
        self.handle_of(id).is_some()
    }
}

} // verus!
