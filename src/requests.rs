//! The bodies of link requests.
use vstd::prelude::*;
use crate::arena::ARENA_CAPACITY;
use crate::error::{Error, ErrorKind};
use crate::model::{MicroSDCard, StoreElement};
use crate::store::{added, element_replaced, StoreData, StoreView};
use crate::links::{lemma_add_link, lemma_drop_link};

verus! {

/// A request to link or unlink one application and one card.
#[derive(Debug)]
pub struct LinkBody {
    pub card_id: String,
    pub game_id: String,
}

/// A request to link or unlink several applications and one card.
#[derive(Debug)]
pub struct ManyLinkBody {
    pub card_id: String,
    pub game_ids: Vec<String>,
}

/// `c` with the user-editable fields of `other` taken over.
pub open spec fn merged(c: MicroSDCard, other: MicroSDCard) -> MicroSDCard {
    MicroSDCard { name: other.name, position: other.position, hidden: other.hidden, ..c }
}

impl StoreData {
    /// Stores the card `card` under `id`, which must be its uid: a known card takes
    /// over the new name, position and hidden flag (uid and library id must agree);
    /// an unknown id is added.
    pub fn upsert_card(&mut self, id: String, card: MicroSDCard) -> (r: Result<(), Error>)
        requires
            old(self).wf(),
            old(self)@.nodes.len() < ARENA_CAPACITY,
        ensures
            final(self).wf(),
            id@ != card.uid@ ==> (r matches Err(e) && e.kind == ErrorKind::Invalid) && final(self)@ == old(self)@,
            id@ == card.uid@ && !old(self)@.index.contains_key(id@) ==> r is Ok
                && added(old(self)@, final(self)@, id@, StoreElement::Card(card)),
            id@ == card.uid@ && old(self)@.index.contains_key(id@) ==> {
                let h = old(self)@.index[id@];
                match old(self)@.nodes[h].element {
                    StoreElement::Game(_) => (r matches Err(e) && e.kind == ErrorKind::KindMismatch)
                        && final(self)@ == old(self)@,
                    StoreElement::Card(c) => if c.uid@ == card.uid@ && c.libid@ == card.libid@ {
                        &&& r is Ok
                        &&& element_replaced(old(self)@, final(self)@, h)
                        &&& final(self)@.nodes[h].element == StoreElement::Card(merged(c, card))
                    } else {
                        (r matches Err(e) && e.kind == ErrorKind::Invalid) && final(self)@ == old(self)@
                    },
                }
            },
    {
        if id != card.uid {
            return Err(Error::from_str("uid did not match id provided"));
        }
        if !self.contains_element(id.as_str()) {
            self.add_card(id, card);
            return Ok(());
        }
        let merge = move |c: MicroSDCard| -> (r: Result<MicroSDCard, Error>)
            ensures
                c.uid@ == card.uid@ && c.libid@ == card.libid@ ==> r == Ok::<MicroSDCard, Error>(merged(c, card)),
                !(c.uid@ == card.uid@ && c.libid@ == card.libid@) ==> (r matches Err(e) && e.kind == ErrorKind::Invalid),
            {
                let mut c = c;
                match c.merge(&card) {
                    Ok(()) => Ok(c),
                    Err(e) => Err(e),
                }
            };
        self.update_card(id.as_str(), merge)
    }
}

/// `a` and `b` are known and of different kinds.
pub open spec fn linkable(v: StoreView, a: Seq<char>, b: Seq<char>) -> bool {
    &&& v.index.contains_key(a)
    &&& v.index.contains_key(b)
    &&& v.nodes[v.index[a]].element.is_card() != v.nodes[v.index[b]].element.is_card()
}

/// Only links changed.
pub open spec fn same_entities(pre: StoreView, post: StoreView) -> bool {
    &&& post.index == pre.index
    &&& post.hashes == pre.hashes
    &&& post.nodes.dom() == pre.nodes.dom()
    &&& forall|k: u64| #[trigger] pre.nodes.contains_key(k) ==> post.nodes[k].element == pre.nodes[k].element
}

/// The link between `k` and `l` is one between the card `hc` and one of the
/// applications `ids`.
pub open spec fn is_batch_link(v: StoreView, hc: u64, ids: Seq<String>, k: u64, l: u64) -> bool {
    ||| k == hc && exists|i: int| 0 <= i < ids.len() && v.index[#[trigger] ids[i]@] == l
    ||| l == hc && exists|i: int| 0 <= i < ids.len() && v.index[#[trigger] ids[i]@] == k
}

impl StoreData {
    /// Links every application of `body` to its card, in order, stopping at the
    /// first one that cannot be linked.
    pub fn link_many(&mut self, body: &ManyLinkBody) -> (r: Result<(), Error>)
        requires
            old(self).wf(),
        ensures
            final(self).wf(),
            same_entities(old(self)@, final(self)@),
            r is Ok <==> forall|i: int| 0 <= i < body.game_ids@.len() ==> linkable(old(self)@, #[trigger] body.game_ids@[i]@, body.card_id@),
            forall|k: u64, l: u64| #[trigger] old(self)@.nodes[k].links@.contains(l) && old(self)@.nodes.contains_key(k)
                ==> final(self)@.nodes[k].links@.contains(l),
            r is Ok ==> {
                let hc = old(self)@.index[body.card_id@];
                &&& forall|i: int| 0 <= i < body.game_ids@.len() ==> {
                    &&& final(self)@.nodes[hc].links@.contains(old(self)@.index[#[trigger] body.game_ids@[i]@])
                    &&& final(self)@.nodes[old(self)@.index[body.game_ids@[i]@]].links@.contains(hc)
                }
                &&& forall|k: u64, l: u64| final(self)@.nodes.contains_key(k) && #[trigger] final(self)@.nodes[k].links@.contains(l) ==>
                    old(self)@.nodes[k].links@.contains(l) || is_batch_link(old(self)@, hc, body.game_ids@, k, l)
            },
    {
        let ghost s0 = self@;
        let ghost hc = s0.index[body.card_id@];
        let mut i: usize = 0;
        while i < body.game_ids.len()
            invariant
                self.wf(),
                s0 == old(self)@,
                hc == s0.index[body.card_id@],
                i <= body.game_ids.len(),
                same_entities(s0, self@),
                forall|j: int| 0 <= j < i ==> linkable(s0, #[trigger] body.game_ids@[j]@, body.card_id@),
                forall|k: u64, l: u64| #[trigger] s0.nodes[k].links@.contains(l) && s0.nodes.contains_key(k) ==> self@.nodes[k].links@.contains(l),
                forall|j: int| 0 <= j < i ==> {
                    &&& self@.nodes[hc].links@.contains(s0.index[#[trigger] body.game_ids@[j]@])
                    &&& self@.nodes[s0.index[body.game_ids@[j]@]].links@.contains(hc)
                },
                forall|k: u64, l: u64| self@.nodes.contains_key(k) && #[trigger] self@.nodes[k].links@.contains(l) ==>
                    s0.nodes[k].links@.contains(l) || is_batch_link(s0, hc, body.game_ids@.take(i as int), k, l),
            decreases body.game_ids.len() - i,
        {
            let ghost pre = self@;
            let res = self.link(body.game_ids[i].as_str(), body.card_id.as_str());
            match res {
                Ok(()) => {},
                Err(e) => {
                    return Err(e);
                },
            }
            proof {
                let post = self@;
                let g = body.game_ids@[i as int]@;
                let ha = pre.index[g];
                assert(pre.nodes.contains_key(ha) && pre.nodes.contains_key(hc));
                lemma_add_link(pre.nodes[ha].links@, hc);
                lemma_add_link(pre.nodes[hc].links@, ha);
                assert forall|k: u64, l: u64| #[trigger] s0.nodes[k].links@.contains(l) && s0.nodes.contains_key(k) implies post.nodes[k].links@.contains(l) by {
                    lemma_add_link(pre.nodes[k].links@, hc);
                    lemma_add_link(pre.nodes[k].links@, ha);
                }
                assert forall|j: int| 0 <= j < i + 1 implies {
                    &&& post.nodes[hc].links@.contains(s0.index[#[trigger] body.game_ids@[j]@])
                    &&& post.nodes[s0.index[body.game_ids@[j]@]].links@.contains(hc)
                } by {
                    let hj = s0.index[body.game_ids@[j]@];
                    assert(pre.nodes.contains_key(hj));
                    lemma_add_link(pre.nodes[hj].links@, hc);
                    lemma_add_link(pre.nodes[hj].links@, ha);
                }
                assert(body.game_ids@.take(i as int + 1) == body.game_ids@.take(i as int).push(body.game_ids@[i as int]));
                assert forall|k: u64, l: u64| post.nodes.contains_key(k) && #[trigger] post.nodes[k].links@.contains(l) implies
                    s0.nodes[k].links@.contains(l) || is_batch_link(s0, hc, body.game_ids@.take(i as int + 1), k, l) by {
                    let t = body.game_ids@.take(i as int + 1);
                    lemma_add_link(pre.nodes[k].links@, hc);
                    lemma_add_link(pre.nodes[k].links@, ha);
                    if pre.nodes[k].links@.contains(l) {
                        if !s0.nodes[k].links@.contains(l) {
                            let p = body.game_ids@.take(i as int);
                            if k == hc {
                                let q = choose|q: int| 0 <= q < p.len() && s0.index[#[trigger] p[q]@] == l;
                                assert(t[q] == p[q]);
                            } else {
                                let q = choose|q: int| 0 <= q < p.len() && s0.index[#[trigger] p[q]@] == k;
                                assert(t[q] == p[q]);
                            }
                        }
                    } else if k == ha {
                        assert(t[i as int] == body.game_ids@[i as int]);
                    } else {
                        assert(t[i as int] == body.game_ids@[i as int]);
                    }
                }
            }
            i = i + 1;
        }
        proof {
            assert(body.game_ids@.take(body.game_ids@.len() as int) == body.game_ids@);
        }
        Ok(())
    }
}

impl StoreData {
    /// Unlinks every application of `body` from its card, in order, stopping at the
    /// first id that is not known.
    pub fn unlink_many(&mut self, body: &ManyLinkBody) -> (r: Result<(), Error>)
        requires
            old(self).wf(),
        ensures
            final(self).wf(),
            same_entities(old(self)@, final(self)@),
            r is Ok <==> forall|i: int| 0 <= i < body.game_ids@.len() ==> (old(self)@.index.contains_key(#[trigger] body.game_ids@[i]@)
                && old(self)@.index.contains_key(body.card_id@)),
            forall|k: u64, l: u64| final(self)@.nodes.contains_key(k) && #[trigger] final(self)@.nodes[k].links@.contains(l)
                ==> old(self)@.nodes[k].links@.contains(l),
            r is Ok ==> {
                let hc = old(self)@.index[body.card_id@];
                &&& forall|i: int| 0 <= i < body.game_ids@.len() ==> {
                    &&& !final(self)@.nodes[hc].links@.contains(old(self)@.index[#[trigger] body.game_ids@[i]@])
                    &&& !final(self)@.nodes[old(self)@.index[body.game_ids@[i]@]].links@.contains(hc)
                }
                &&& forall|k: u64, l: u64| old(self)@.nodes.contains_key(k) && #[trigger] old(self)@.nodes[k].links@.contains(l)
                    && !is_batch_link(old(self)@, hc, body.game_ids@, k, l) ==> final(self)@.nodes[k].links@.contains(l)
            },
    {
        let ghost s0 = self@;
        let ghost hc = s0.index[body.card_id@];
        let mut i: usize = 0;
        while i < body.game_ids.len()
            invariant
                self.wf(),
                s0 == old(self)@,
                hc == s0.index[body.card_id@],
                i <= body.game_ids.len(),
                same_entities(s0, self@),
                forall|j: int| 0 <= j < i ==> (s0.index.contains_key(#[trigger] body.game_ids@[j]@) && s0.index.contains_key(body.card_id@)),
                forall|k: u64, l: u64| self@.nodes.contains_key(k) && #[trigger] self@.nodes[k].links@.contains(l) ==> s0.nodes[k].links@.contains(l),
                forall|j: int| 0 <= j < i ==> {
                    &&& !self@.nodes[hc].links@.contains(s0.index[#[trigger] body.game_ids@[j]@])
                    &&& !self@.nodes[s0.index[body.game_ids@[j]@]].links@.contains(hc)
                },
                forall|k: u64, l: u64| s0.nodes.contains_key(k) && #[trigger] s0.nodes[k].links@.contains(l)
                    && !is_batch_link(s0, hc, body.game_ids@.take(i as int), k, l) ==> self@.nodes[k].links@.contains(l),
            decreases body.game_ids.len() - i,
        {
            let ghost pre = self@;
            let res = self.unlink(body.game_ids[i].as_str(), body.card_id.as_str());
            match res {
                Ok(()) => {},
                Err(e) => {
                    return Err(e);
                },
            }
            proof {
                let post = self@;
                let g = body.game_ids@[i as int]@;
                let ha = pre.index[g];
                assert(pre.nodes.contains_key(ha) && pre.nodes.contains_key(hc));
                assert forall|k: u64, l: u64| post.nodes.contains_key(k) && #[trigger] post.nodes[k].links@.contains(l) implies s0.nodes[k].links@.contains(l) by {
                    lemma_drop_link(pre.nodes[k].links@, hc);
                    lemma_drop_link(pre.nodes[k].links@, ha);
                }
                assert forall|j: int| 0 <= j < i + 1 implies {
                    &&& !post.nodes[hc].links@.contains(s0.index[#[trigger] body.game_ids@[j]@])
                    &&& !post.nodes[s0.index[body.game_ids@[j]@]].links@.contains(hc)
                } by {
                    let hj = s0.index[body.game_ids@[j]@];
                    assert(pre.nodes.contains_key(hj));
                    lemma_drop_link(pre.nodes[hj].links@, hc);
                    lemma_drop_link(pre.nodes[hj].links@, ha);
                    lemma_drop_link(pre.nodes[hc].links@, ha);
                    lemma_drop_link(pre.nodes[hc].links@, hj);
                }
                assert(body.game_ids@.take(i as int + 1) == body.game_ids@.take(i as int).push(body.game_ids@[i as int]));
                assert forall|k: u64, l: u64| s0.nodes.contains_key(k) && #[trigger] s0.nodes[k].links@.contains(l)
                    && !is_batch_link(s0, hc, body.game_ids@.take(i as int + 1), k, l) implies post.nodes[k].links@.contains(l) by {
                    let t = body.game_ids@.take(i as int + 1);
                    let p = body.game_ids@.take(i as int);
                    assert(t[i as int] == body.game_ids@[i as int]);
                    if is_batch_link(s0, hc, p, k, l) {
                        if k == hc {
                            let q = choose|q: int| 0 <= q < p.len() && s0.index[#[trigger] p[q]@] == l;
                            assert(t[q] == p[q]);
                        } else {
                            let q = choose|q: int| 0 <= q < p.len() && s0.index[#[trigger] p[q]@] == k;
                            assert(t[q] == p[q]);
                        }
                    }
                    lemma_drop_link(pre.nodes[k].links@, hc);
                    lemma_drop_link(pre.nodes[k].links@, ha);
                }
            }
            i = i + 1;
        }
        proof {
            assert(body.game_ids@.take(body.game_ids@.len() as int) == body.game_ids@);
        }
        Ok(())
    }
}

} // verus!
