//! Merging what a card's manifests say into the store.
use vstd::prelude::*;
use crate::arena::ARENA_CAPACITY;
use crate::error::{Error, ErrorKind};
use crate::links::{lemma_add_link, lemma_drop_link, lemma_push_contains};
use crate::model::{copy_opt_text, Game, MicroSDCard, StoreElement};
use crate::store::{view_ok, StoreData, StoreView};

verus! {

/// The library descriptor at the root of a card.
pub struct LibraryFolder {
    pub contentid: String,
    pub label: String,
}

/// One application manifest found on a card.
pub struct AppState {
    pub appid: String,
    pub universe: i32,
    pub name: String,
    pub state_flags: Option<i32>,
    pub installdir: String,
    pub size_on_disk: u64,
}

/// Some manifest names `uid`.
pub open spec fn discovered(games: Seq<AppState>, uid: Seq<char>) -> bool {
    exists|i: int| 0 <= i < games.len() && #[trigger] games[i].appid@ == uid
}

/// A linked element that reconciliation put there and that no manifest names any more.
pub open spec fn is_stale(e: StoreElement, games: Seq<AppState>) -> bool {
    match e {
        StoreElement::Game(g) => g.is_steam && !discovered(games, g.uid@),
        _ => false,
    }
}

/// The application record made for a manifest.
pub open spec fn discovered_game(a: AppState) -> Game {
    Game { uid: a.appid, name: a.name, size: a.size_on_disk, is_steam: true }
}

/// The card record made on first sight of a card.
pub open spec fn is_new_card(c: MicroSDCard, cid: Seq<char>, mount: Option<String>, lib: LibraryFolder) -> bool {
    &&& c.uid@ == cid
    &&& c.libid == lib.contentid
    &&& c.mount == mount
    &&& c.name == lib.label
    &&& c.position == u32::MAX
    &&& !c.hidden
}

/// Reconciliation succeeds: `cid` does not name an application, and no manifest
/// names `cid` or another card.
pub open spec fn can_reconcile(pre: StoreView, cid: Seq<char>, games: Seq<AppState>) -> bool {
    &&& !(pre.index.contains_key(cid) && !pre.nodes[pre.index[cid]].element.is_card())
    &&& forall|i: int| 0 <= i < games.len() ==> {
        &&& #[trigger] games[i].appid@ != cid
        &&& !(pre.index.contains_key(games[i].appid@) && pre.nodes[pre.index[games[i].appid@]].element.is_card())
    }
}

/// What a successful reconciliation of card `cid` leaves.
pub open spec fn reconciled(
    pre: StoreView,
    post: StoreView,
    cid: Seq<char>,
    mount: Option<String>,
    lib: LibraryFolder,
    games: Seq<AppState>,
) -> bool {
    let hc = post.index[cid];
    &&& post.hashes == pre.hashes
    &&& post.index.contains_key(cid)
    &&& post.nodes[hc].element.is_card()
    &&& forall|id: Seq<char>| #[trigger] pre.index.contains_key(id) ==> post.index.contains_key(id) && post.index[id] == pre.index[id]
    &&& forall|k: u64| #[trigger] pre.nodes.contains_key(k) ==> post.nodes.contains_key(k) && post.nodes[k].element == pre.nodes[k].element
    &&& !pre.index.contains_key(cid) ==> (post.nodes[hc].element matches StoreElement::Card(c) && is_new_card(c, cid, mount, lib))
    &&& forall|i: int| 0 <= i < games.len() ==> {
        &&& post.index.contains_key(#[trigger] games[i].appid@)
        &&& post.nodes[hc].links@.contains(post.index[games[i].appid@])
    }
    &&& forall|l: u64| #[trigger] post.nodes[hc].links@.contains(l) ==> {
        ||| pre.nodes.contains_key(hc) && pre.nodes[hc].links@.contains(l) && !is_stale(pre.nodes[l].element, games)
        ||| exists|i: int| 0 <= i < games.len() && post.index[#[trigger] games[i].appid@] == l
    }
    &&& forall|l: u64| pre.nodes.contains_key(hc) && #[trigger] pre.nodes[hc].links@.contains(l) && !is_stale(pre.nodes[l].element, games)
        ==> post.nodes[hc].links@.contains(l)
    &&& forall|k: u64, l: u64| pre.nodes.contains_key(k) && k != hc && l != hc ==>
        (#[trigger] post.nodes[k].links@.contains(l) == pre.nodes[k].links@.contains(l))
    &&& forall|id: Seq<char>| #[trigger] post.index.contains_key(id) && !pre.index.contains_key(id) ==> id == cid || exists|i: int|
        0 <= i < games.len() && #[trigger] games[i].appid@ == id
            && post.nodes[post.index[id]].element == StoreElement::Game(discovered_game(games[i]))
}

/// Whether some manifest names `uid`.
fn is_discovered(games: &Vec<AppState>, uid: &String) -> (r: bool)
    ensures
        r == discovered(games@, uid@),
{
    let mut i: usize = 0;
    while i < games.len()
        invariant
            i <= games.len(),
            forall|j: int| 0 <= j < i ==> #[trigger] games@[j].appid@ != uid@,
        decreases games.len() - i,
    {
        if games[i].appid == *uid {
            return true;
        }
        i = i + 1;
    }
    false
}

/// Unlinks from card `hc` every application that reconciliation had put there and
/// that no manifest names any more.
fn drop_stale_links(store: &mut StoreData, hc: u64, games: &Vec<AppState>)
    requires
        old(store).wf(),
        old(store)@.nodes.contains_key(hc),
        old(store)@.nodes[hc].element.is_card(),
    ensures
        final(store).wf(),
        final(store)@.index == old(store)@.index,
        final(store)@.hashes == old(store)@.hashes,
        final(store)@.nodes.dom() == old(store)@.nodes.dom(),
        forall|k: u64| #[trigger] old(store)@.nodes.contains_key(k) ==> final(store)@.nodes[k].element == old(store)@.nodes[k].element,
        forall|l: u64| #[trigger] final(store)@.nodes[hc].links@.contains(l) <==> (old(store)@.nodes[hc].links@.contains(l)
            && !is_stale(old(store)@.nodes[l].element, games@)),
        forall|k: u64, l: u64| old(store)@.nodes.contains_key(k) && k != hc && l != hc ==>
            (#[trigger] final(store)@.nodes[k].links@.contains(l) == old(store)@.nodes[k].links@.contains(l)),
{
    let ghost s0 = store@;
    let current = store.links_of(hc);
    let mut j: usize = 0;
    while j < current.len()
        invariant
            store.wf(),
            s0 == old(store)@,
            view_ok(s0),
            s0.nodes.contains_key(hc),
            s0.nodes[hc].element.is_card(),
            current@ == s0.nodes[hc].links@,
            j <= current.len(),
            store@.index == s0.index,
            store@.hashes == s0.hashes,
            store@.nodes.dom() == s0.nodes.dom(),
            forall|k: u64| #[trigger] s0.nodes.contains_key(k) ==> store@.nodes[k].element == s0.nodes[k].element,
            forall|l: u64| #[trigger] store@.nodes[hc].links@.contains(l) <==> (s0.nodes[hc].links@.contains(l)
                && !(current@.subrange(0, j as int).contains(l) && is_stale(s0.nodes[l].element, games@))),
            forall|k: u64, l: u64| s0.nodes.contains_key(k) && k != hc && l != hc ==>
                (#[trigger] store@.nodes[k].links@.contains(l) == s0.nodes[k].links@.contains(l)),
        decreases current.len() - j,
    {
        let l = current[j];
        proof {
            assert(s0.nodes[hc].links@.contains(l));
            assert(s0.nodes.contains_key(l));
            assert(current@.subrange(0, j as int + 1) == current@.subrange(0, j as int).push(l));
            lemma_push_contains(current@.subrange(0, j as int), l);
        }
        let stale = match store.element_at(l) {
            StoreElement::Game(g) => g.is_steam && !is_discovered(games, &g.uid),
            StoreElement::Card(_) => false,
        };
        let ghost pre = store@;
        if stale {
            store.unlink_handles(hc, l);
            proof {
                let post = store@;
                assert(hc != l);
                assert forall|x: u64| #[trigger] post.nodes[hc].links@.contains(x) <==> (s0.nodes[hc].links@.contains(x)
                    && !(current@.subrange(0, j as int + 1).contains(x) && is_stale(s0.nodes[x].element, games@))) by {
                    lemma_drop_link(pre.nodes[hc].links@, l);
                }
                assert forall|k: u64, x: u64| s0.nodes.contains_key(k) && k != hc && x != hc implies
                    (#[trigger] post.nodes[k].links@.contains(x) == s0.nodes[k].links@.contains(x)) by {
                    lemma_drop_link(pre.nodes[k].links@, hc);
                }
            }
        }
        j = j + 1;
    }
    assert(current@.subrange(0, current@.len() as int) == current@);
}

/// Makes every manifest's application known and links it to card `cid`.
#[verifier::rlimit(40)]
fn link_discovered(store: &mut StoreData, cid: &str, hc: u64, games: &Vec<AppState>) -> (r: Result<(), Error>)
    requires
        old(store).wf(),
        old(store)@.index.contains_key(cid@),
        old(store)@.index[cid@] == hc,
        old(store)@.nodes[hc].element.is_card(),
        old(store)@.nodes.len() + games.len() < ARENA_CAPACITY,
    ensures
        final(store).wf(),
        final(store)@.hashes == old(store)@.hashes,
        r is Ok <==> forall|i: int| 0 <= i < games.len() ==> {
            &&& #[trigger] games@[i].appid@ != cid@
            &&& !(old(store)@.index.contains_key(games@[i].appid@)
                && old(store)@.nodes[old(store)@.index[games@[i].appid@]].element.is_card())
        },
        r is Ok ==> {
            let s0 = old(store)@;
            let s = final(store)@;
            &&& forall|id: Seq<char>| #[trigger] s0.index.contains_key(id) ==> s.index.contains_key(id) && s.index[id] == s0.index[id]
            &&& forall|k: u64| #[trigger] s0.nodes.contains_key(k) ==> s.nodes.contains_key(k) && s.nodes[k].element == s0.nodes[k].element
            &&& forall|i: int| 0 <= i < games.len() ==> {
                &&& s.index.contains_key(#[trigger] games@[i].appid@)
                &&& s.nodes[hc].links@.contains(s.index[games@[i].appid@])
            }
            &&& forall|l: u64| #[trigger] s.nodes[hc].links@.contains(l) ==> {
                ||| s0.nodes[hc].links@.contains(l)
                ||| exists|i: int| 0 <= i < games.len() && s.index[#[trigger] games@[i].appid@] == l
            }
            &&& forall|l: u64| #[trigger] s0.nodes[hc].links@.contains(l) ==> s.nodes[hc].links@.contains(l)
            &&& forall|k: u64, l: u64| s0.nodes.contains_key(k) && k != hc && l != hc ==>
                (#[trigger] s.nodes[k].links@.contains(l) == s0.nodes[k].links@.contains(l))
            &&& forall|id: Seq<char>| #[trigger] s.index.contains_key(id) && !s0.index.contains_key(id) ==> exists|i: int|
                0 <= i < games.len() && #[trigger] games@[i].appid@ == id
                    && s.nodes[s.index[id]].element == StoreElement::Game(discovered_game(games@[i]))
        },
{
    let ghost s0 = store@;
    let mut j: usize = 0;
    while j < games.len()
        invariant
            store.wf(),
            s0 == old(store)@,
            view_ok(s0),
            s0.nodes.contains_key(hc),
            s0.index.contains_key(cid@),
            s0.index[cid@] == hc,
            s0.nodes[hc].element.is_card(),
            s0.nodes.len() + games.len() < ARENA_CAPACITY,
            j <= games.len(),
            store@.hashes == s0.hashes,
            store@.nodes.len() <= s0.nodes.len() + j,
            forall|id: Seq<char>| #[trigger] s0.index.contains_key(id) ==> store@.index.contains_key(id) && store@.index[id] == s0.index[id],
            forall|k: u64| #[trigger] s0.nodes.contains_key(k) ==> store@.nodes.contains_key(k) && store@.nodes[k].element == s0.nodes[k].element,
            forall|i: int| 0 <= i < j ==> {
                &&& #[trigger] games@[i].appid@ != cid@
                &&& !(s0.index.contains_key(games@[i].appid@) && s0.nodes[s0.index[games@[i].appid@]].element.is_card())
            },
            forall|i: int| 0 <= i < j ==> {
                &&& store@.index.contains_key(#[trigger] games@[i].appid@)
                &&& store@.nodes[hc].links@.contains(store@.index[games@[i].appid@])
            },
            forall|l: u64| #[trigger] store@.nodes[hc].links@.contains(l) ==> {
                ||| s0.nodes[hc].links@.contains(l)
                ||| exists|i: int| 0 <= i < j && store@.index[#[trigger] games@[i].appid@] == l
            },
            forall|l: u64| #[trigger] s0.nodes[hc].links@.contains(l) ==> store@.nodes[hc].links@.contains(l),
            forall|k: u64, l: u64| s0.nodes.contains_key(k) && k != hc && l != hc ==>
                (#[trigger] store@.nodes[k].links@.contains(l) == s0.nodes[k].links@.contains(l)),
            forall|id: Seq<char>| #[trigger] store@.index.contains_key(id) && !s0.index.contains_key(id) ==> exists|i: int|
                0 <= i < j && #[trigger] games@[i].appid@ == id
                    && store@.nodes[store@.index[id]].element == StoreElement::Game(discovered_game(games@[i])),
        decreases games.len() - j,
    {
        let app = &games[j];
        let ghost s1 = store@;
        if !store.contains_element(app.appid.as_str()) {
            store.add_game(
                app.appid.clone(),
                Game { uid: app.appid.clone(), name: app.name.clone(), size: app.size_on_disk, is_steam: true },
            );
            proof {
                let s2 = store@;
                let id = app.appid@;
                assert(s2.nodes[s2.index[id]].element == StoreElement::Game(discovered_game(games@[j as int])));
                assert forall|x: Seq<char>| #[trigger] s2.index.contains_key(x) && !s0.index.contains_key(x) implies exists|i: int|
                    0 <= i < j + 1 && #[trigger] games@[i].appid@ == x
                        && s2.nodes[s2.index[x]].element == StoreElement::Game(discovered_game(games@[i])) by {
                    if x == id {
                        assert(games@[j as int].appid@ == x);
                    } else {
                        assert(s1.index.contains_key(x));
                        let i = choose|i: int| 0 <= i < j && #[trigger] games@[i].appid@ == x
                            && s1.nodes[s1.index[x]].element == StoreElement::Game(discovered_game(games@[i]));
                        assert(s1.nodes.contains_key(s1.index[x]));
                    }
                }
            }
        } else {
            proof {
                assert forall|x: Seq<char>| #[trigger] store@.index.contains_key(x) && !s0.index.contains_key(x) implies exists|i: int|
                    0 <= i < j + 1 && #[trigger] games@[i].appid@ == x
                        && store@.nodes[store@.index[x]].element == StoreElement::Game(discovered_game(games@[i])) by {
                    let i = choose|i: int| 0 <= i < j && #[trigger] games@[i].appid@ == x
                        && s1.nodes[s1.index[x]].element == StoreElement::Game(discovered_game(games@[i]));
                }
            }
        }
        let ghost s2 = store@;
        proof {
            assert(s2.index[cid@] == hc);
            let ha = s2.index[app.appid@];
            if s2.nodes[ha].element.is_card() {
                if !s0.index.contains_key(app.appid@) {
                    let i = choose|i: int| 0 <= i < j + 1 && #[trigger] games@[i].appid@ == app.appid@
                        && s2.nodes[s2.index[app.appid@]].element == StoreElement::Game(discovered_game(games@[i]));
                }
            }
        }
        proof {
            assert(s0.nodes.contains_key(hc));
            assert(s2.nodes[hc].element == s0.nodes[hc].element);
            if s0.index.contains_key(app.appid@) {
                assert(s0.nodes.contains_key(s0.index[app.appid@]));
                assert(s2.index[app.appid@] == s0.index[app.appid@]);
            }
        }
        match store.link(app.appid.as_str(), cid) {
            Ok(()) => {},
            Err(e) => {
                proof {
                    let ha = s2.index[app.appid@];
                    assert(s2.nodes[ha].element.is_card());
                    if !s0.index.contains_key(app.appid@) {
                        let i = choose|i: int| 0 <= i < j + 1 && #[trigger] games@[i].appid@ == app.appid@
                            && s2.nodes[s2.index[app.appid@]].element == StoreElement::Game(discovered_game(games@[i]));
                    }
                    assert(!(games@[j as int].appid@ != cid@ && !(s0.index.contains_key(games@[j as int].appid@)
                        && s0.nodes[s0.index[games@[j as int].appid@]].element.is_card())));
                }
                return Err(e);
            },
        }
        proof {
            let s3 = store@;
            let ha = s2.index[app.appid@];
            assert(ha != hc);
            assert(s2.nodes.contains_key(ha) && s2.nodes.contains_key(hc));
            lemma_add_link(s2.nodes[hc].links@, ha);
            lemma_add_link(s2.nodes[ha].links@, hc);
            if s0.index.contains_key(app.appid@) {
                assert(s0.nodes[s0.index[app.appid@]].element == s2.nodes[ha].element);
            } else {
                assert(app.appid@ != cid@);
            }
            assert forall|i: int| 0 <= i < j + 1 implies {
                &&& s3.index.contains_key(#[trigger] games@[i].appid@)
                &&& s3.nodes[hc].links@.contains(s3.index[games@[i].appid@])
            } by {
                if i < j {
                    assert(s2.nodes.contains_key(hc));
                }
            }
            assert forall|l: u64| #[trigger] s3.nodes[hc].links@.contains(l) implies {
                ||| s0.nodes[hc].links@.contains(l)
                ||| exists|i: int| 0 <= i < j + 1 && s3.index[#[trigger] games@[i].appid@] == l
            } by {
                if l == ha {
                    assert(s3.index[games@[j as int].appid@] == l);
                } else {
                    assert(s2.nodes[hc].links@.contains(l));
                    if !s0.nodes[hc].links@.contains(l) {
                        let i = choose|i: int| 0 <= i < j && s2.index[#[trigger] games@[i].appid@] == l;
                        assert(s3.index[games@[i].appid@] == l);
                    }
                }
            }
            assert forall|k: u64, l: u64| s0.nodes.contains_key(k) && k != hc && l != hc implies
                (#[trigger] s3.nodes[k].links@.contains(l) == s0.nodes[k].links@.contains(l)) by {
                assert(s2.nodes.contains_key(k));
                lemma_add_link(s2.nodes[k].links@, hc);
            }
            assert forall|x: Seq<char>| #[trigger] s3.index.contains_key(x) && !s0.index.contains_key(x) implies exists|i: int|
                0 <= i < j + 1 && #[trigger] games@[i].appid@ == x
                    && s3.nodes[s3.index[x]].element == StoreElement::Game(discovered_game(games@[i])) by {
                let i = choose|i: int| 0 <= i < j + 1 && #[trigger] games@[i].appid@ == x
                    && s2.nodes[s2.index[x]].element == StoreElement::Game(discovered_game(games@[i]));
                assert(s2.nodes.contains_key(s2.index[x]));
            }
            assert forall|k: u64| #[trigger] s0.nodes.contains_key(k) implies s3.nodes.contains_key(k) && s3.nodes[k].element == s0.nodes[k].element by {
                assert(s2.nodes.contains_key(k));
            }
        }
        j = j + 1;
    }
    Ok(())
}

/// Reconciles card `cid` with the manifests read from its mount: makes the card
/// known on first sight, unlinks the applications that reconciliation had linked
/// and that no manifest names any more, and makes every manifest's application
/// known and linked to the card.  Applications entered by hand are never unlinked.
pub fn reconcile_card(
    store: &mut StoreData,
    cid: &str,
    mount: &Option<String>,
    library: &LibraryFolder,
    games: &Vec<AppState>,
) -> (r: Result<(), Error>)
    requires
        old(store).wf(),
        old(store)@.nodes.len() + games.len() + 1 < ARENA_CAPACITY,
    ensures
        final(store).wf(),
        final(store)@.hashes == old(store)@.hashes,
        r is Ok <==> can_reconcile(old(store)@, cid@, games@),
        r is Ok ==> reconciled(old(store)@, final(store)@, cid@, *mount, *library, games@),
        old(store)@.index.contains_key(cid@) && !old(store)@.nodes[old(store)@.index[cid@]].element.is_card()
            ==> final(store)@ == old(store)@,
{
    let ghost s0 = store@;
    if !store.contains_element(cid) {
        store.add_card(
            cid.to_owned(),
            MicroSDCard {
                uid: cid.to_owned(),
                libid: library.contentid.clone(),
                mount: copy_opt_text(mount),
                name: library.label.clone(),
                position: u32::MAX,
                hidden: false,
            },
        );
    }
    let hc = match store.handle_of(cid) {
        Some(h) => h,
        None => {
            return Err(Error::new(ErrorKind::NotFound, "Card Id not present"));
        },
    };
    if !store.element_at(hc).holds_card() {
        return Err(Error::new(ErrorKind::KindMismatch, "Card id names a game"));
    }
    let ghost s1 = store@;
    drop_stale_links(store, hc, games);
    let ghost s2 = store@;
    proof {
        assert(s2.nodes.len() == s1.nodes.len());
    }
    let r = link_discovered(store, cid, hc, games);
    proof {
        let s3 = store@;
        assert forall|i: int| 0 <= i < games.len() implies (
            (s1.index.contains_key(#[trigger] games@[i].appid@) && s1.nodes[s1.index[games@[i].appid@]].element.is_card())
            <==> (games@[i].appid@ == cid@ || (s0.index.contains_key(games@[i].appid@)
                && s0.nodes[s0.index[games@[i].appid@]].element.is_card()))) by {
            if games@[i].appid@ != cid@ && s1.index.contains_key(games@[i].appid@) {
                assert(s0.index.contains_key(games@[i].appid@));
            }
        }
        if r is Ok {
            assert(forall|l: u64| s0.nodes.contains_key(hc) ==> (#[trigger] s0.nodes[hc].links@.contains(l) ==> s1.nodes[hc].links@.contains(l)));
            assert forall|l: u64| #[trigger] s3.nodes[hc].links@.contains(l) implies {
                ||| s0.nodes.contains_key(hc) && s0.nodes[hc].links@.contains(l) && !is_stale(s0.nodes[l].element, games@)
                ||| exists|i: int| 0 <= i < games.len() && s3.index[#[trigger] games@[i].appid@] == l
            } by {
                if s2.nodes[hc].links@.contains(l) {
                    assert(s1.nodes[hc].links@.contains(l));
                    if !s0.index.contains_key(cid@) {
                        assert(s1.nodes[hc].links@.len() == 0);
                    }
                }
            }
            assert forall|k: u64, l: u64| s0.nodes.contains_key(k) && k != hc && l != hc implies
                (#[trigger] s3.nodes[k].links@.contains(l) == s0.nodes[k].links@.contains(l)) by {
                assert(s1.nodes.contains_key(k));
            }
            assert forall|id: Seq<char>| #[trigger] s3.index.contains_key(id) && !s0.index.contains_key(id) implies id == cid@ || exists|i: int|
                0 <= i < games.len() && #[trigger] games@[i].appid@ == id
                    && s3.nodes[s3.index[id]].element == StoreElement::Game(discovered_game(games@[i])) by {
                if id != cid@ {
                    assert(!s1.index.contains_key(id));
                }
            }
            assert forall|k: u64| #[trigger] s0.nodes.contains_key(k) implies s3.nodes.contains_key(k) && s3.nodes[k].element == s0.nodes[k].element by {
                assert(s1.nodes.contains_key(k));
            }
            let hc3 = s3.index[cid@];
            assert(hc3 == hc);
            assert(s3.hashes == s0.hashes);
            assert(s3.nodes[hc].element.is_card());
            assert forall|id: Seq<char>| #[trigger] s0.index.contains_key(id) implies s3.index.contains_key(id) && s3.index[id] == s0.index[id] by {
                assert(s1.index.contains_key(id));
                assert(s1.index[id] == s0.index[id]);
                assert(s2.index[id] == s0.index[id]);
            }
            assert(!s0.index.contains_key(cid@) ==> (s3.nodes[hc].element matches StoreElement::Card(c) && is_new_card(c, cid@, *mount, *library)));
            assert(forall|i: int| 0 <= i < games.len() ==> {
                &&& s3.index.contains_key(#[trigger] games@[i].appid@)
                &&& s3.nodes[hc].links@.contains(s3.index[games@[i].appid@])
            });
            assert forall|l: u64| s0.nodes.contains_key(hc) && #[trigger] s0.nodes[hc].links@.contains(l) && !is_stale(s0.nodes[l].element, games@)
                implies s3.nodes[hc].links@.contains(l) by {
                if !s0.index.contains_key(cid@) {
                    assert(!s0.nodes.contains_key(s1.index[cid@]));
                }
                assert(s1 == s0);
                assert(s1.nodes[hc].links@.contains(l));
                assert(s2.nodes[hc].links@.contains(l));
            }
        }
    }
    r
}

} // verus!
