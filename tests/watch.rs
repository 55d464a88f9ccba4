use microsdeck::fingerprint::{fingerprint, FileStamp};
use microsdeck::model::{CardEvent, MicroSDCard};
use microsdeck::reconcile::{AppState, LibraryFolder};
use microsdeck::store::StoreData;
use microsdeck::watch::{WatchEvent, WatchRequest, WatchStage, Watcher};

fn stamps() -> Vec<FileStamp> {
    vec![FileStamp { len: 10, modified_secs: 1_700_000_000, modified_nanos: 5 }]
}

fn manifests() -> WatchEvent {
    WatchEvent::Manifests(Ok((
        LibraryFolder { contentid: "lib".to_string(), label: "Card".to_string() },
        vec![AppState {
            appid: "42".to_string(),
            universe: 1,
            name: "Answer".to_string(),
            state_flags: None,
            installdir: "answer".to_string(),
            size_on_disk: 9,
        }],
    )))
}

#[test]
fn insert_then_remove_publishes() {
    let mut s = StoreData::new();
    let mut w = Watcher::new();
    let step = w.step(&mut s, WatchEvent::Tick(true));
    assert_eq!(step.publish, Some(CardEvent::Inserted));
    assert_eq!(step.request, WatchRequest::ReadCardId);
    let step = w.step(&mut s, WatchEvent::Tick(true));
    assert_eq!(step.publish, None);
    let step = w.step(&mut s, WatchEvent::Tick(false));
    assert_eq!(step.publish, Some(CardEvent::Removed));
    assert_eq!(step.request, WatchRequest::Wait);
    assert!(!w.card_inserted);
    let step = w.step(&mut s, WatchEvent::Tick(false));
    assert_eq!(step.publish, None);
}

#[test]
fn full_tick_reconciles_then_skips_unchanged() {
    let mut s = StoreData::new();
    let mut w = Watcher::new();
    w.step(&mut s, WatchEvent::Tick(true));
    let step = w.step(&mut s, WatchEvent::CardId(Some("CID".to_string())));
    assert_eq!(step.request, WatchRequest::Probe(None));
    let step = w.step(&mut s, WatchEvent::Probed(true));
    assert_eq!(step.request, WatchRequest::Scan(None));
    let step = w.step(&mut s, WatchEvent::Scanned(Some(stamps())));
    assert_eq!(step.request, WatchRequest::ReadManifests(None));
    let step = w.step(&mut s, manifests());
    assert_eq!(step.publish, Some(CardEvent::Updated));
    assert_eq!(step.request, WatchRequest::Wait);
    assert_eq!(s.get_games_on_card("CID").unwrap().len(), 1);
    assert_eq!(s.is_hash_changed("CID", fingerprint(&None, &stamps())), None);

    w.step(&mut s, WatchEvent::Tick(true));
    w.step(&mut s, WatchEvent::CardId(Some("CID".to_string())));
    w.step(&mut s, WatchEvent::Probed(true));
    let step = w.step(&mut s, WatchEvent::Scanned(Some(stamps())));
    assert_eq!(step.request, WatchRequest::Wait);
    assert!(matches!(w.stage, WatchStage::Idle));
}

#[test]
fn failed_manifests_record_no_fingerprint() {
    let mut s = StoreData::new();
    let mut w = Watcher::new();
    w.step(&mut s, WatchEvent::Tick(true));
    w.step(&mut s, WatchEvent::CardId(Some("CID".to_string())));
    w.step(&mut s, WatchEvent::Probed(true));
    w.step(&mut s, WatchEvent::Scanned(Some(stamps())));
    let step = w.step(&mut s, WatchEvent::Manifests(Err(microsdeck::error::Error::from_str("unreadable"))));
    assert_eq!(step.publish, None);
    let h = fingerprint(&None, &stamps());
    assert_eq!(s.is_hash_changed("CID", h), Some(h));
}

#[test]
fn mount_resolution_uses_stored_then_discovery() {
    let mut s = StoreData::new();
    s.add_card("CID".to_string(), MicroSDCard {
        uid: "CID".to_string(),
        libid: "l".to_string(),
        mount: Some("OLD".to_string()),
        name: "n".to_string(),
        position: 0,
        hidden: false,
    });
    let mut w = Watcher::new();
    w.step(&mut s, WatchEvent::Tick(true));
    w.step(&mut s, WatchEvent::CardId(Some("CID".to_string())));
    let step = w.step(&mut s, WatchEvent::Probed(false));
    assert_eq!(step.request, WatchRequest::Probe(Some("OLD".to_string())));
    let step = w.step(&mut s, WatchEvent::Probed(false));
    assert_eq!(step.request, WatchRequest::Discover);
    let step = w.step(&mut s, WatchEvent::Discovered(Some("NEW".to_string())));
    assert_eq!(step.request, WatchRequest::Probe(Some("NEW".to_string())));
    assert_eq!(s.get_card("CID").unwrap().mount, Some("NEW".to_string()));
    let step = w.step(&mut s, WatchEvent::Probed(false));
    assert_eq!(step.request, WatchRequest::Wait);
    assert_eq!(w.mount, Some("NEW".to_string()));
}

#[test]
fn unreadable_card_id_ends_tick() {
    let mut s = StoreData::new();
    let mut w = Watcher::new();
    w.step(&mut s, WatchEvent::Tick(true));
    let step = w.step(&mut s, WatchEvent::CardId(None));
    assert_eq!(step.request, WatchRequest::Wait);
    let step = w.step(&mut s, WatchEvent::Probed(true));
    assert_eq!(step.request, WatchRequest::Wait);
}
