use microsdeck::error::ErrorKind;
use microsdeck::model::{Game, MicroSDCard, StoreElement};
use microsdeck::snapshot::{NodeRecord, StoreSnapshot};
use microsdeck::store::StoreData;

fn card(uid: &str) -> MicroSDCard {
    MicroSDCard {
        uid: uid.to_string(),
        libid: "lib".to_string(),
        mount: Some("SD".to_string()),
        name: format!("Card {uid}"),
        position: 2,
        hidden: true,
    }
}

fn game(uid: &str) -> Game {
    Game { uid: uid.to_string(), name: format!("Game {uid}"), size: 5, is_steam: false }
}

fn sample() -> StoreData {
    let mut s = StoreData::new();
    s.add_card("C1".to_string(), card("C1"));
    s.add_card("C2".to_string(), card("C2"));
    s.add_game("G1".to_string(), game("G1"));
    s.add_game("G2".to_string(), game("G2"));
    s.link("G1", "C1").unwrap();
    s.link("G2", "C1").unwrap();
    s.link("G2", "C2").unwrap();
    s.update_hash("C1", 77);
    s
}

fn sorted(mut v: Vec<String>) -> Vec<String> {
    v.sort();
    v
}

#[test]
fn round_trip_keeps_entities_links_and_hashes() {
    let s = sample();
    let t = StoreData::from_snapshot(&s.to_snapshot()).unwrap();
    for id in ["C1", "C2"] {
        let a = s.get_card(id).unwrap();
        let b = t.get_card(id).unwrap();
        assert_eq!((a.uid, a.libid, a.mount, a.name, a.position, a.hidden), (b.uid, b.libid, b.mount, b.name, b.position, b.hidden));
        let ga = sorted(s.get_games_on_card(id).unwrap().into_iter().map(|g| g.uid).collect());
        let gb = sorted(t.get_games_on_card(id).unwrap().into_iter().map(|g| g.uid).collect());
        assert_eq!(ga, gb);
    }
    for id in ["G1", "G2"] {
        assert_eq!(s.get_game(id).unwrap().name, t.get_game(id).unwrap().name);
        let ca = sorted(s.get_cards_for_game(id).unwrap().into_iter().map(|c| c.uid).collect());
        let cb = sorted(t.get_cards_for_game(id).unwrap().into_iter().map(|c| c.uid).collect());
        assert_eq!(ca, cb);
    }
    assert_eq!(t.is_hash_changed("C1", 77), None);
    assert_eq!(t.node_count(), 4);
}

#[test]
fn dead_index_entry_is_corruption() {
    let mut snap = sample().to_snapshot();
    snap.node_ids.push(("ghost".to_string(), 123_456));
    let e = StoreData::from_snapshot(&snap).err().unwrap();
    assert_eq!(e.kind, ErrorKind::Corruption);
}

#[test]
fn duplicate_id_is_corruption() {
    let mut snap = sample().to_snapshot();
    let first = snap.node_ids[0].clone();
    snap.node_ids.push((first.0, first.1 ^ 1));
    assert_eq!(StoreData::from_snapshot(&snap).err().unwrap().kind, ErrorKind::Corruption);
}

#[test]
fn same_kind_link_is_corruption() {
    let snap = StoreSnapshot {
        nodes: vec![
            NodeRecord { handle: 1, element: StoreElement::Card(card("A")), links: vec![2] },
            NodeRecord { handle: 2, element: StoreElement::Card(card("B")), links: vec![1] },
        ],
        node_ids: vec![("A".to_string(), 1), ("B".to_string(), 2)],
        hashes: vec![],
    };
    assert_eq!(StoreData::from_snapshot(&snap).err().unwrap().kind, ErrorKind::Corruption);
}

#[test]
fn one_sided_link_is_restored_both_ways() {
    let snap = StoreSnapshot {
        nodes: vec![
            NodeRecord { handle: 1, element: StoreElement::Card(card("A")), links: vec![2] },
            NodeRecord { handle: 2, element: StoreElement::Game(game("G")), links: vec![] },
        ],
        node_ids: vec![("A".to_string(), 1), ("G".to_string(), 2)],
        hashes: vec![("A".to_string(), 1), ("B".to_string(), 2)],
    };
    let t = StoreData::from_snapshot(&snap).unwrap();
    assert_eq!(t.get_cards_for_game("G").unwrap().len(), 1);
    assert_eq!(t.get_games_on_card("A").unwrap().len(), 1);
    let mut dup = snap;
    dup.hashes.push(("A".to_string(), 3));
    assert_eq!(StoreData::from_snapshot(&dup).err().unwrap().kind, ErrorKind::Corruption);
}

#[test]
fn clean_up_trims_ids_and_uids() {
    let mut snap = StoreSnapshot {
        nodes: vec![NodeRecord { handle: 9, element: StoreElement::Card(card(" C1 \n")), links: vec![] }],
        node_ids: vec![(" C1 \n".to_string(), 9)],
        hashes: vec![],
    };
    snap.clean_up();
    assert_eq!(snap.node_ids[0].0, "C1");
    let t = StoreData::from_snapshot(&snap).unwrap();
    let c = t.get_card("C1").unwrap();
    assert_eq!(c.uid, "C1");
    assert_eq!(c.name, "Card  C1 \n");
}

#[test]
fn validate_spots_dead_entries() {
    let mut snap = sample().to_snapshot();
    assert!(snap.validate());
    snap.node_ids.push(("ghost".to_string(), 424_242));
    assert!(!snap.validate());
}
