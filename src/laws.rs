//! Properties that relate several store operations, proved from their contracts.
use vstd::prelude::*;
use crate::links::{add_link, drop_link, lemma_add_link, lemma_drop_link};
use crate::model::{Game, MicroSDCard, StoreElement};
use crate::store::{added, cards_of, games_of, links_added, links_dropped, removed, view_ok, StoreView};
use crate::arena::Node;
use crate::reconcile::{is_stale, reconciled, AppState, LibraryFolder};

verus! {

pub proof fn lemma_games_of_contains(nodes: Map<u64, Node>, hs: Seq<u64>, i: int, g: Game)
    requires
        0 <= i < hs.len(),
        nodes[hs[i]].element == StoreElement::Game(g),
    ensures
        games_of(nodes, hs).contains(g),
    decreases hs.len(),
{
    let rest = games_of(nodes, hs.drop_last());
    if i == hs.len() - 1 {
        assert(games_of(nodes, hs) == rest.push(g));
        assert(rest.push(g)[rest.len() as int] == g);
    } else {
        lemma_games_of_contains(nodes, hs.drop_last(), i, g);
        let j = choose|j: int| 0 <= j < rest.len() && rest[j] == g;
        match nodes[hs.last()].element {
            StoreElement::Game(h) => assert(rest.push(h)[j] == g),
            _ => {},
        }
    }
}

pub proof fn lemma_cards_of_contains(nodes: Map<u64, Node>, hs: Seq<u64>, i: int, c: MicroSDCard)
    requires
        0 <= i < hs.len(),
        nodes[hs[i]].element == StoreElement::Card(c),
    ensures
        cards_of(nodes, hs).contains(c),
    decreases hs.len(),
{
    let rest = cards_of(nodes, hs.drop_last());
    if i == hs.len() - 1 {
        assert(cards_of(nodes, hs) == rest.push(c));
        assert(rest.push(c)[rest.len() as int] == c);
    } else {
        lemma_cards_of_contains(nodes, hs.drop_last(), i, c);
        let j = choose|j: int| 0 <= j < rest.len() && rest[j] == c;
        match nodes[hs.last()].element {
            StoreElement::Card(d) => assert(rest.push(d)[j] == c),
            _ => {},
        }
    }
}

/// Linking card `a` to application `b` puts `b` among the applications on `a` and `a`
/// among the cards of `b`; unlinking them afterwards takes each out of the other's
/// link list.
pub proof fn law_link_then_unlink(
    s0: StoreView,
    s1: StoreView,
    s2: StoreView,
    a: Seq<char>,
    b: Seq<char>,
    card: MicroSDCard,
    game: Game,
)
    requires
        view_ok(s0),
        s0.index.contains_key(a),
        s0.index.contains_key(b),
        s0.nodes[s0.index[a]].element == StoreElement::Card(card),
        s0.nodes[s0.index[b]].element == StoreElement::Game(game),
        links_added(s0, s1, s0.index[a], s0.index[b]),
        links_dropped(s1, s2, s1.index[a], s1.index[b]),
    ensures
        games_of(s1.nodes, s1.nodes[s1.index[a]].links@).contains(game),
        cards_of(s1.nodes, s1.nodes[s1.index[b]].links@).contains(card),
        !s2.nodes[s2.index[a]].links@.contains(s2.index[b]),
        !s2.nodes[s2.index[b]].links@.contains(s2.index[a]),
{
    let ha = s0.index[a];
    let hb = s0.index[b];
    assert(ha != hb);
    let la = s1.nodes[ha].links@;
    let lb = s1.nodes[hb].links@;
    assert(s0.nodes.contains_key(ha) && s0.nodes.contains_key(hb));
    assert(la == add_link(s0.nodes[ha].links@, hb));
    assert(lb == add_link(s0.nodes[hb].links@, ha));
    lemma_add_link(s0.nodes[ha].links@, hb);
    lemma_add_link(s0.nodes[hb].links@, ha);
    assert(la.contains(hb) && lb.contains(ha));
    assert(s1.nodes[hb].element == s0.nodes[hb].element);
    assert(s1.nodes[ha].element == s0.nodes[ha].element);
    let i = choose|i: int| 0 <= i < la.len() && la[i] == hb;
    lemma_games_of_contains(s1.nodes, la, i, game);
    let j = choose|j: int| 0 <= j < lb.len() && lb[j] == ha;
    lemma_cards_of_contains(s1.nodes, lb, j, card);
    assert(s1.nodes.contains_key(ha) && s1.nodes.contains_key(hb));
    assert(s2.nodes[ha].links@ == drop_link(la, hb));
    assert(s2.nodes[hb].links@ == drop_link(lb, ha));
    lemma_drop_link(la, hb);
    lemma_drop_link(lb, ha);
}

/// After `remove(id)` no remaining node links to the handle `id` had.
pub proof fn law_remove_leaves_no_link(pre: StoreView, post: StoreView, id: Seq<char>)
    requires
        view_ok(pre),
        pre.index.contains_key(id),
        removed(pre, post, id),
    ensures
        forall|k: u64| #[trigger] post.nodes.contains_key(k) ==> !post.nodes[k].links@.contains(pre.index[id]),
{
    assert forall|k: u64| #[trigger] post.nodes.contains_key(k) implies !post.nodes[k].links@.contains(pre.index[id]) by {
        lemma_drop_link(pre.nodes[k].links@, pre.index[id]);
    }
}

/// Adding under an id a second time changes nothing; when the id was new before the
/// first add, the element stored is the first one.
pub proof fn law_first_add_wins(
    s0: StoreView,
    s1: StoreView,
    s2: StoreView,
    id: Seq<char>,
    e1: StoreElement,
    e2: StoreElement,
)
    requires
        view_ok(s0),
        added(s0, s1, id, e1),
        added(s1, s2, id, e2),
    ensures
        s2 == s1,
        !s0.index.contains_key(id) ==> s2.index.contains_key(id) && s2.nodes[s2.index[id]].element == e1,
{
}

/// Reconciling a known card against a mount with no manifests unlinks every
/// application that reconciliation had linked to it, keeps the ones entered by hand,
/// and leaves the card record as it was.
pub proof fn law_empty_scan_unlinks_discovered(
    pre: StoreView,
    post: StoreView,
    cid: Seq<char>,
    mount: Option<String>,
    lib: LibraryFolder,
)
    requires
        view_ok(pre),
        pre.index.contains_key(cid),
        pre.nodes[pre.index[cid]].element.is_card(),
        reconciled(pre, post, cid, mount, lib, Seq::<AppState>::empty()),
    ensures
        post.index[cid] == pre.index[cid],
        post.nodes[post.index[cid]].element == pre.nodes[pre.index[cid]].element,
        forall|l: u64| #[trigger] pre.nodes[pre.index[cid]].links@.contains(l) ==> match pre.nodes[l].element {
            StoreElement::Game(g) => post.nodes[post.index[cid]].links@.contains(l) == !g.is_steam,
            _ => true,
        },
        forall|l: u64| #[trigger] post.nodes[post.index[cid]].links@.contains(l) ==> pre.nodes[pre.index[cid]].links@.contains(l),
{
    let hc = pre.index[cid];
    assert(pre.nodes.contains_key(hc));
    assert forall|l: u64| #[trigger] pre.nodes[hc].links@.contains(l) implies match pre.nodes[l].element {
        StoreElement::Game(g) => post.nodes[hc].links@.contains(l) == !g.is_steam,
        _ => true,
    } by {
        match pre.nodes[l].element {
            StoreElement::Game(g) => {
                if g.is_steam {
                    assert(is_stale(pre.nodes[l].element, Seq::<AppState>::empty()));
                }
            },
            _ => {},
        }
    }
}

} // verus!
