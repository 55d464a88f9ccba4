use microsdeck::error::ErrorKind;
use microsdeck::model::{Game, MicroSDCard};
use microsdeck::reconcile::{reconcile_card, AppState, LibraryFolder};
use microsdeck::store::StoreData;

fn app(id: &str) -> AppState {
    AppState {
        appid: id.to_string(),
        universe: 1,
        name: format!("App {id}"),
        state_flags: Some(4),
        installdir: format!("dir{id}"),
        size_on_disk: 1000,
    }
}

fn library() -> LibraryFolder {
    LibraryFolder { contentid: "content-7".to_string(), label: "My Card".to_string() }
}

fn uids(games: &[Game]) -> Vec<String> {
    let mut v: Vec<String> = games.iter().map(|g| g.uid.clone()).collect();
    v.sort();
    v
}

#[test]
fn first_sight_creates_card_and_links() {
    let mut s = StoreData::new();
    let mount = Some("SDCARD".to_string());
    reconcile_card(&mut s, "CID", &mount, &library(), &vec![app("10"), app("20")]).unwrap();
    let c = s.get_card("CID").unwrap();
    assert_eq!(c.uid, "CID");
    assert_eq!(c.libid, "content-7");
    assert_eq!(c.name, "My Card");
    assert_eq!(c.mount, mount);
    assert_eq!(c.position, u32::MAX);
    assert!(!c.hidden);
    assert_eq!(uids(&s.get_games_on_card("CID").unwrap()), vec!["10".to_string(), "20".to_string()]);
    let g = s.get_game("10").unwrap();
    assert!(g.is_steam);
    assert_eq!(g.size, 1000);
    assert_eq!(g.name, "App 10");
}

#[test]
fn empty_scan_unlinks_three_discovered() {
    let mut s = StoreData::new();
    reconcile_card(&mut s, "CID", &None, &library(), &vec![app("1"), app("2"), app("3")]).unwrap();
    s.update_card("CID", |mut c| {
        c.name = "kept".to_string();
        Ok(c)
    })
    .unwrap();
    assert_eq!(s.get_games_on_card("CID").unwrap().len(), 3);
    reconcile_card(&mut s, "CID", &None, &library(), &vec![]).unwrap();
    assert!(s.get_games_on_card("CID").unwrap().is_empty());
    let c = s.get_card("CID").unwrap();
    assert_eq!(c.name, "kept");
    assert!(s.contains_element("1"));
}

#[test]
fn manual_games_survive_reconciliation() {
    let mut s = StoreData::new();
    s.add_card("CID".to_string(), MicroSDCard {
        uid: "CID".to_string(),
        libid: "l".to_string(),
        mount: None,
        name: "n".to_string(),
        position: 0,
        hidden: false,
    });
    s.add_game("M".to_string(), Game { uid: "M".to_string(), name: "manual".to_string(), size: 1, is_steam: false });
    s.link("M", "CID").unwrap();
    reconcile_card(&mut s, "CID", &None, &library(), &vec![app("5")]).unwrap();
    assert_eq!(uids(&s.get_games_on_card("CID").unwrap()), vec!["5".to_string(), "M".to_string()]);
    assert_eq!(s.get_card("CID").unwrap().name, "n");
}

#[test]
fn removed_manifest_is_unlinked() {
    let mut s = StoreData::new();
    reconcile_card(&mut s, "CID", &None, &library(), &vec![app("1"), app("2")]).unwrap();
    reconcile_card(&mut s, "CID", &None, &library(), &vec![app("2")]).unwrap();
    assert_eq!(uids(&s.get_games_on_card("CID").unwrap()), vec!["2".to_string()]);
}

#[test]
fn card_id_naming_a_game_fails() {
    let mut s = StoreData::new();
    s.add_game("CID".to_string(), Game { uid: "CID".to_string(), name: "g".to_string(), size: 1, is_steam: true });
    let e = reconcile_card(&mut s, "CID", &None, &library(), &vec![app("1")]).unwrap_err();
    assert_eq!(e.kind, ErrorKind::KindMismatch);
    assert!(!s.contains_element("1"));
}

#[test]
fn manifest_naming_a_card_fails() {
    let mut s = StoreData::new();
    let e = reconcile_card(&mut s, "CID", &None, &library(), &vec![app("CID")]).unwrap_err();
    assert_eq!(e.kind, ErrorKind::KindMismatch);
}
