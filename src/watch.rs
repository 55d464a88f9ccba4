//! The decisions of the reconciliation loop, as a state machine.  Whoever drives it
//! performs the I/O each step asks for and hands back what it observed; every
//! decision and every store change is made here.
use vstd::prelude::*;
use crate::arena::ARENA_CAPACITY;
use crate::error::Error;
use crate::fingerprint::{fingerprint, fingerprint_of, FileStamp};
use crate::model::{copy_opt_text, CardEvent, MicroSDCard, StoreElement};
use crate::reconcile::{can_reconcile, reconcile_card, reconciled, AppState, LibraryFolder};
use crate::store::{element_replaced, StoreData, StoreView};

verus! {

/// Where the current tick stands.
#[derive(Debug)]
pub enum WatchStage {
    /// No tick in progress.
    Idle,
    /// Waiting for the card's identifier.
    AwaitCardId,
    /// Waiting to learn whether the cached mount exposes the library root.
    AwaitCachedProbe { cid: String },
    /// Waiting to learn whether the mount stored on the card record exposes it.
    AwaitStoredProbe { cid: String },
    /// Waiting for a mount found by scanning device labels.
    AwaitDiscovery { cid: String },
    /// Waiting to learn whether the mount just settled on exposes the library root.
    AwaitFinalProbe { cid: String },
    /// Waiting for the stamps of the manifest files under the mount.
    AwaitScan { cid: String },
    /// Waiting for the parsed manifests; `hash` is the fingerprint to record.
    AwaitManifests { cid: String, hash: u64 },
}

/// What the driver observed.
pub enum WatchEvent {
    /// The timer fired; whether a card is physically present.
    Tick(bool),
    /// The card's identifier, if it could be read.
    CardId(Option<String>),
    /// Whether the probed mount exposes the library root.
    Probed(bool),
    /// The mount found by scanning device labels, if any.
    Discovered(Option<String>),
    /// The stamps of the manifest files, or `None` if the directory could not be read.
    Scanned(Option<Vec<FileStamp>>),
    /// The library descriptor and the manifests that parsed, or why the descriptor
    /// could not be had.
    Manifests(Result<(LibraryFolder, Vec<AppState>), Error>),
}

/// What the driver is to do next.
#[derive(Debug, PartialEq, Eq)]
pub enum WatchRequest {
    /// Nothing until the next tick.
    Wait,
    /// Read the card's identifier.
    ReadCardId,
    /// Check whether the mount exposes the library root.
    Probe(Option<String>),
    /// Scan device labels for the card's mount.
    Discover,
    /// Collect the stamps of the manifest files under the mount.
    Scan(Option<String>),
    /// Read the library descriptor and parse the manifests under the mount.
    ReadManifests(Option<String>),
}

/// One step's outcome: an event to publish, if any, and the next request.
pub struct WatchStep {
    pub publish: Option<CardEvent>,
    pub request: WatchRequest,
}

/// The loop's state across ticks.
pub struct Watcher {
    pub card_inserted: bool,
    /// The mount last settled on; `None` stands for the default mount.
    pub mount: Option<String>,
    pub stage: WatchStage,
}

/// The mount saved on the record of card `cid`, if there is such a card.
pub open spec fn stored_mount(s: StoreView, cid: Seq<char>) -> Option<String> {
    if s.index.contains_key(cid) {
        match s.nodes[s.index[cid]].element {
            StoreElement::Card(c) => c.mount,
            _ => None,
        }
    } else {
        None
    }
}

/// The store after saving `mount` on the record of card `cid`, when there is one.
pub open spec fn mount_saved(pre: StoreView, post: StoreView, cid: Seq<char>, mount: Option<String>) -> bool {
    if pre.index.contains_key(cid) && pre.nodes[pre.index[cid]].element.is_card() {
        let h = pre.index[cid];
        &&& element_replaced(pre, post, h)
        &&& post.nodes[h].element == StoreElement::Card(
            MicroSDCard { mount: mount, ..pre.nodes[h].element.card_of().unwrap() },
        )
    } else {
        post == pre
    }
}

pub open spec fn idle(w: Watcher, r: WatchStep, pre: Watcher) -> bool {
    &&& w.stage == WatchStage::Idle
    &&& w.card_inserted == pre.card_inserted
    &&& w.mount == pre.mount
    &&& r.publish is None
    &&& r.request == WatchRequest::Wait
}

pub open spec fn asks(w: Watcher, r: WatchStep, pre: Watcher, stage: WatchStage, mount: Option<String>, request: WatchRequest) -> bool {
    &&& w.stage == stage
    &&& w.card_inserted == pre.card_inserted
    &&& w.mount == mount
    &&& r.publish is None
    &&& r.request == request
}

impl Watcher {
    /// No card seen yet, default mount, no tick in progress.
    pub fn new() -> (r: Watcher)
        ensures
            !r.card_inserted,
            r.mount is None,
            r.stage == WatchStage::Idle,
    {
        Watcher { card_inserted: false, mount: None, stage: WatchStage::Idle }
    }

    fn save_mount(store: &mut StoreData, cid: &String, mount: &Option<String>)
        requires
            old(store).wf(),
        ensures
            final(store).wf(),
            mount_saved(old(store)@, final(store)@, cid@, *mount),
    {
        let m = copy_opt_text(mount);
        let set = move |c: MicroSDCard| -> (r: Result<MicroSDCard, Error>)
            ensures
                r == Ok::<MicroSDCard, Error>(MicroSDCard { mount: m, ..c }),
            {
                let mut c = c;
                c.mount = m;
                Ok(c)
            };
        let _ = store.update_card(cid.as_str(), set);
    }

    /// Advances the loop by one observation.
    #[verifier::rlimit(60)]
    pub fn step(&mut self, store: &mut StoreData, event: WatchEvent) -> (r: WatchStep)
        requires
            old(store).wf(),
        ensures
            final(store).wf(),
            ({
                let pre = *old(self);
                let w = *final(self);
                let s0 = old(store)@;
                let s1 = final(store)@;
                match event {
                    WatchEvent::Tick(present) => s1 == s0 && if !present {
                        &&& w.stage == WatchStage::Idle
                        &&& !w.card_inserted
                        &&& w.mount is None
                        &&& r.publish == if pre.card_inserted { Some(CardEvent::Removed) } else { None }
                        &&& r.request == WatchRequest::Wait
                    } else {
                        &&& w.stage == WatchStage::AwaitCardId
                        &&& w.card_inserted
                        &&& w.mount == if pre.card_inserted { pre.mount } else { None }
                        &&& r.publish == if pre.card_inserted { None } else { Some(CardEvent::Inserted) }
                        &&& r.request == WatchRequest::ReadCardId
                    },
                    WatchEvent::CardId(id) => s1 == s0 && match (pre.stage, id) {
                        (WatchStage::AwaitCardId, Some(cid)) => asks(w, r, pre,
                            WatchStage::AwaitCachedProbe { cid }, pre.mount, WatchRequest::Probe(pre.mount)),
                        _ => idle(w, r, pre),
                    },
                    WatchEvent::Probed(ok) => match pre.stage {
                        WatchStage::AwaitCachedProbe { cid } => s1 == s0 && if ok {
                            asks(w, r, pre, WatchStage::AwaitScan { cid }, pre.mount, WatchRequest::Scan(pre.mount))
                        } else {
                            let m = if pre.mount is None { stored_mount(s0, cid@) } else { pre.mount };
                            if m is Some {
                                asks(w, r, pre, WatchStage::AwaitStoredProbe { cid }, m, WatchRequest::Probe(m))
                            } else {
                                asks(w, r, pre, WatchStage::AwaitDiscovery { cid }, None, WatchRequest::Discover)
                            }
                        },
                        WatchStage::AwaitStoredProbe { cid } => if ok {
                            mount_saved(s0, s1, cid@, pre.mount)
                                && asks(w, r, pre, WatchStage::AwaitFinalProbe { cid }, pre.mount, WatchRequest::Probe(pre.mount))
                        } else {
                            s1 == s0 && asks(w, r, pre, WatchStage::AwaitDiscovery { cid }, None, WatchRequest::Discover)
                        },
                        WatchStage::AwaitFinalProbe { cid } => s1 == s0 && if ok {
                            asks(w, r, pre, WatchStage::AwaitScan { cid }, pre.mount, WatchRequest::Scan(pre.mount))
                        } else {
                            idle(w, r, pre)
                        },
                        _ => s1 == s0 && idle(w, r, pre),
                    },
                    WatchEvent::Discovered(found) => match pre.stage {
                        WatchStage::AwaitDiscovery { cid } => mount_saved(s0, s1, cid@, found)
                            && asks(w, r, pre, WatchStage::AwaitFinalProbe { cid }, found, WatchRequest::Probe(found)),
                        _ => s1 == s0 && idle(w, r, pre),
                    },
                    WatchEvent::Scanned(files) => s1 == s0 && match (pre.stage, files) {
                        (WatchStage::AwaitScan { cid }, Some(files)) => {
                            let hash = fingerprint_of(pre.mount, files@);
                            if s0.hashes.contains_key(cid@) && s0.hashes[cid@] == hash {
                                idle(w, r, pre)
                            } else {
                                asks(w, r, pre, WatchStage::AwaitManifests { cid, hash }, pre.mount,
                                    WatchRequest::ReadManifests(pre.mount))
                            }
                        },
                        _ => idle(w, r, pre),
                    },
                    WatchEvent::Manifests(found) => {
                        &&& w.stage == WatchStage::Idle
                        &&& w.card_inserted == pre.card_inserted
                        &&& w.mount == pre.mount
                        &&& r.request == WatchRequest::Wait
                        &&& match (pre.stage, found) {
                            (WatchStage::AwaitManifests { cid, hash }, Ok(parsed)) => {
                                let fits = s0.nodes.len() + parsed.1.len() + 1 < ARENA_CAPACITY;
                                if fits && can_reconcile(s0, cid@, parsed.1@) {
                                    &&& r.publish == Some(CardEvent::Updated)
                                    &&& exists|mid: StoreView| reconciled(s0, mid, cid@, pre.mount, parsed.0, parsed.1@)
                                        && s1 == (StoreView { hashes: mid.hashes.insert(cid@, hash), ..mid })
                                } else {
                                    &&& r.publish is None
                                    &&& !fits ==> s1 == s0
                                    &&& s1.hashes == s0.hashes
                                }
                            },
                            _ => r.publish is None && s1 == s0,
                        }
                    },
                }
            }),
    {
        let mut stage = WatchStage::Idle;
        core::mem::swap(&mut self.stage, &mut stage);
        let wait = WatchStep { publish: None, request: WatchRequest::Wait };
        match event {
            WatchEvent::Tick(present) => {
                if !present {
                    let publish = if self.card_inserted { Some(CardEvent::Removed) } else { None };
                    self.card_inserted = false;
                    self.mount = None;
                    return WatchStep { publish, request: WatchRequest::Wait };
                }
                let publish = if self.card_inserted {
                    None
                } else {
                    self.mount = None;
                    Some(CardEvent::Inserted)
                };
                self.card_inserted = true;
                self.stage = WatchStage::AwaitCardId;
                WatchStep { publish, request: WatchRequest::ReadCardId }
            },
            WatchEvent::CardId(id) => match (stage, id) {
                (WatchStage::AwaitCardId, Some(cid)) => {
                    let m = copy_opt_text(&self.mount);
                    self.stage = WatchStage::AwaitCachedProbe { cid };
                    WatchStep { publish: None, request: WatchRequest::Probe(m) }
                },
                _ => wait,
            },
            WatchEvent::Probed(ok) => match stage {
                WatchStage::AwaitCachedProbe { cid } => {
                    if ok {
                        let m = copy_opt_text(&self.mount);
                        self.stage = WatchStage::AwaitScan { cid };
                        return WatchStep { publish: None, request: WatchRequest::Scan(m) };
                    }
                    if self.mount.is_none() {
                        if let Ok(card) = store.get_card(cid.as_str()) {
                            self.mount = card.mount;
                        }
                    }
                    if self.mount.is_some() {
                        let m = copy_opt_text(&self.mount);
                        self.stage = WatchStage::AwaitStoredProbe { cid };
                        WatchStep { publish: None, request: WatchRequest::Probe(m) }
                    } else {
                        self.stage = WatchStage::AwaitDiscovery { cid };
                        WatchStep { publish: None, request: WatchRequest::Discover }
                    }
                },
                WatchStage::AwaitStoredProbe { cid } => {
                    if ok {
                        Self::save_mount(store, &cid, &self.mount);
                        let m = copy_opt_text(&self.mount);
                        self.stage = WatchStage::AwaitFinalProbe { cid };
                        WatchStep { publish: None, request: WatchRequest::Probe(m) }
                    } else {
                        self.mount = None;
                        self.stage = WatchStage::AwaitDiscovery { cid };
                        WatchStep { publish: None, request: WatchRequest::Discover }
                    }
                },
                WatchStage::AwaitFinalProbe { cid } => {
                    if ok {
                        let m = copy_opt_text(&self.mount);
                        self.stage = WatchStage::AwaitScan { cid };
                        WatchStep { publish: None, request: WatchRequest::Scan(m) }
                    } else {
                        wait
                    }
                },
                _ => wait,
            },
            WatchEvent::Discovered(found) => match stage {
                WatchStage::AwaitDiscovery { cid } => {
                    self.mount = found;
                    Self::save_mount(store, &cid, &self.mount);
                    let m = copy_opt_text(&self.mount);
                    self.stage = WatchStage::AwaitFinalProbe { cid };
                    WatchStep { publish: None, request: WatchRequest::Probe(m) }
                },
                _ => wait,
            },
            WatchEvent::Scanned(files) => match (stage, files) {
                (WatchStage::AwaitScan { cid }, Some(files)) => {
                    let h = fingerprint(&self.mount, &files);
                    match store.is_hash_changed(cid.as_str(), h) {
                        None => wait,
                        Some(hash) => {
                            let m = copy_opt_text(&self.mount);
                            self.stage = WatchStage::AwaitManifests { cid, hash };
                            WatchStep { publish: None, request: WatchRequest::ReadManifests(m) }
                        },
                    }
                },
                _ => wait,
            },
            WatchEvent::Manifests(found) => match (stage, found) {
                (WatchStage::AwaitManifests { cid, hash }, Ok((library, games))) => {
                    let count = store.node_count();
                    if count >= ARENA_CAPACITY || games.len() >= ARENA_CAPACITY - count - 1 {
                        return wait;
                    }
                    let ghost s0 = store@;
                    match reconcile_card(store, cid.as_str(), &self.mount, &library, &games) {
                        Ok(()) => {
                            let ghost mid = store@;
                            store.update_hash(cid.as_str(), hash);
                            assert(reconciled(s0, mid, cid@, self.mount, library, games@));
                            WatchStep { publish: Some(CardEvent::Updated), request: WatchRequest::Wait }
                        },
                        Err(_) => wait,
                    }
                },
                _ => wait,
            },
        }
    }
}

} // verus!
