use microsdeck::error::ErrorKind;
use microsdeck::model::{Game, MicroSDCard, StoreElement};
use microsdeck::requests::{LinkBody, ManyLinkBody};
use microsdeck::store::StoreData;

fn card(uid: &str, name: &str) -> MicroSDCard {
    MicroSDCard {
        uid: uid.to_string(),
        libid: format!("lib-{uid}"),
        mount: None,
        name: name.to_string(),
        position: 0,
        hidden: false,
    }
}

fn game(uid: &str, is_steam: bool) -> Game {
    Game { uid: uid.to_string(), name: format!("Game {uid}"), size: 100, is_steam }
}

#[test]
fn link_absent_ids_then_present() {
    let mut s = StoreData::new();
    let e = s.link("G1", "C1").unwrap_err();
    assert_eq!(e.kind, ErrorKind::NotFound);
    s.add_card("C1".to_string(), card("C1", "first"));
    s.add_game("G1".to_string(), game("G1", true));
    s.link("G1", "C1").unwrap();
    let games = s.get_games_on_card("C1").unwrap();
    let uids: Vec<String> = games.iter().map(|g| g.uid.clone()).collect();
    assert_eq!(uids, vec!["G1".to_string()]);
}

#[test]
fn link_then_unlink_both_directions() {
    let mut s = StoreData::new();
    s.add_card("A".to_string(), card("A", "card"));
    s.add_game("B".to_string(), game("B", false));
    s.link("A", "B").unwrap();
    assert_eq!(s.get_games_on_card("A").unwrap().len(), 1);
    let cards = s.get_cards_for_game("B").unwrap();
    assert_eq!(cards.len(), 1);
    assert_eq!(cards[0].uid, "A");
    s.unlink("A", "B").unwrap();
    assert!(s.get_games_on_card("A").unwrap().is_empty());
    assert!(s.get_cards_for_game("B").unwrap().is_empty());
}

#[test]
fn link_twice_keeps_one_link() {
    let mut s = StoreData::new();
    s.add_card("A".to_string(), card("A", "card"));
    s.add_game("B".to_string(), game("B", false));
    s.link("A", "B").unwrap();
    s.link("B", "A").unwrap();
    assert_eq!(s.get_games_on_card("A").unwrap().len(), 1);
    assert_eq!(s.get_cards_for_game("B").unwrap().len(), 1);
}

#[test]
fn link_same_kind_is_refused() {
    let mut s = StoreData::new();
    s.add_card("A".to_string(), card("A", "one"));
    s.add_card("B".to_string(), card("B", "two"));
    let e = s.link("A", "B").unwrap_err();
    assert_eq!(e.kind, ErrorKind::KindMismatch);
    assert!(s.get_games_on_card("A").unwrap().is_empty());
}

#[test]
fn unlink_unknown_id_is_not_found() {
    let mut s = StoreData::new();
    s.add_card("A".to_string(), card("A", "one"));
    assert_eq!(s.unlink("A", "nope").unwrap_err().kind, ErrorKind::NotFound);
}

#[test]
fn remove_scrubs_links() {
    let mut s = StoreData::new();
    s.add_card("C".to_string(), card("C", "card"));
    s.add_game("G1".to_string(), game("G1", true));
    s.add_game("G2".to_string(), game("G2", true));
    s.link("G1", "C").unwrap();
    s.link("G2", "C").unwrap();
    s.remove_item("C").unwrap();
    assert!(!s.contains_element("C"));
    assert!(s.get_cards_for_game("G1").unwrap().is_empty());
    assert!(s.get_cards_for_game("G2").unwrap().is_empty());
    assert_eq!(s.remove_item("C").unwrap_err().kind, ErrorKind::NotFound);
    assert_eq!(s.node_count(), 2);
}

#[test]
fn remove_element_evicts_fingerprint() {
    let mut s = StoreData::new();
    s.add_card("C".to_string(), card("C", "card"));
    s.update_hash("C", 42);
    assert_eq!(s.is_hash_changed("C", 42), None);
    s.remove_element("C").unwrap();
    assert_eq!(s.is_hash_changed("C", 42), Some(42));
}

#[test]
fn remove_item_keeps_fingerprint() {
    let mut s = StoreData::new();
    s.add_card("C".to_string(), card("C", "card"));
    s.update_hash("C", 7);
    s.remove_item("C").unwrap();
    assert_eq!(s.is_hash_changed("C", 7), None);
}

#[test]
fn first_add_wins() {
    let mut s = StoreData::new();
    s.add_card("C".to_string(), card("C", "v1"));
    s.add_card("C".to_string(), card("C", "v2"));
    assert_eq!(s.get_card("C").unwrap().name, "v1");
    s.add_game("C".to_string(), game("C", true));
    assert!(s.get_card("C").is_ok());
    assert_eq!(s.node_count(), 1);
}

#[test]
fn get_wrong_kind_is_kind_mismatch() {
    let mut s = StoreData::new();
    s.add_game("G".to_string(), game("G", true));
    s.add_card("C".to_string(), card("C", "card"));
    assert_eq!(s.get_card("G").unwrap_err().kind, ErrorKind::KindMismatch);
    assert_eq!(s.get_game("C").unwrap_err().kind, ErrorKind::KindMismatch);
    assert_eq!(s.get_card("X").unwrap_err().kind, ErrorKind::NotFound);
    assert_eq!(s.get_game("X").unwrap_err().kind, ErrorKind::NotFound);
    assert_eq!(s.get_card_and_games("G").unwrap_err().kind, ErrorKind::KindMismatch);
    assert_eq!(s.get_games_on_card("X").unwrap_err().kind, ErrorKind::NotFound);
    assert_eq!(s.get_cards_for_game("X").unwrap_err().kind, ErrorKind::NotFound);
}

#[test]
fn hash_changed_rules() {
    let mut s = StoreData::new();
    assert_eq!(s.is_hash_changed("C", 5), Some(5));
    s.update_hash("C", 5);
    assert_eq!(s.is_hash_changed("C", 5), None);
    assert_eq!(s.is_hash_changed("C", 6), Some(6));
    s.update_hash("C", 6);
    assert_eq!(s.is_hash_changed("C", 6), None);
    s.delete_hash("C");
    assert_eq!(s.is_hash_changed("C", 6), Some(6));
}

#[test]
fn listings() {
    let mut s = StoreData::new();
    s.add_card("C1".to_string(), card("C1", "one"));
    s.add_card("C2".to_string(), card("C2", "two"));
    s.add_game("G1".to_string(), game("G1", true));
    s.link("C1", "G1").unwrap();
    assert_eq!(s.list_cards().len(), 2);
    assert_eq!(s.list_games().len(), 1);
    let pairs = s.list_cards_with_games();
    assert_eq!(pairs.len(), 2);
    for (c, games) in pairs {
        if c.uid == "C1" {
            assert_eq!(games.len(), 1);
            assert_eq!(games[0].uid, "G1");
        } else {
            assert!(games.is_empty());
        }
    }
    let (c, games) = s.get_card_and_games("C1").unwrap();
    assert_eq!(c.name, "one");
    assert_eq!(games.len(), 1);
}

#[test]
fn update_card_applies_and_propagates() {
    let mut s = StoreData::new();
    s.add_card("C".to_string(), card("C", "old"));
    s.update_card("C", |mut c| {
        c.name = "new".to_string();
        Ok(c)
    })
    .unwrap();
    assert_eq!(s.get_card("C").unwrap().name, "new");
    let e = s
        .update_card("C", |_c| Err(microsdeck::error::Error::from_str("refused")))
        .unwrap_err();
    assert_eq!(e.message, "refused");
    assert_eq!(s.get_card("C").unwrap().name, "new");
    s.add_game("G".to_string(), game("G", true));
    assert_eq!(s.update_card("G", |c| Ok(c)).unwrap_err().kind, ErrorKind::KindMismatch);
    assert_eq!(s.update_card("X", |c| Ok(c)).unwrap_err().kind, ErrorKind::NotFound);
}

#[test]
fn upsert_card_merges_or_adds() {
    let mut s = StoreData::new();
    assert_eq!(s.upsert_card("X".to_string(), card("C", "n")).unwrap_err().kind, ErrorKind::Invalid);
    s.upsert_card("C".to_string(), card("C", "first")).unwrap();
    let mut edit = card("C", "renamed");
    edit.position = 3;
    edit.hidden = true;
    edit.mount = Some("elsewhere".to_string());
    s.upsert_card("C".to_string(), edit).unwrap();
    let c = s.get_card("C").unwrap();
    assert_eq!(c.name, "renamed");
    assert_eq!(c.position, 3);
    assert!(c.hidden);
    assert_eq!(c.mount, None);
    let mut other_lib = card("C", "x");
    other_lib.libid = "different".to_string();
    assert_eq!(s.upsert_card("C".to_string(), other_lib).unwrap_err().kind, ErrorKind::Invalid);
}

#[test]
fn merge_rules() {
    let mut a = card("C", "a");
    let b = card("D", "b");
    assert!(a.merge(&b).is_err());
    let mut c = card("C", "c");
    c.libid = "other".to_string();
    assert!(a.merge(&c).is_err());
    assert_eq!(a.name, "a");
    let mut d = card("C", "d");
    d.position = 9;
    d.mount = Some("m".to_string());
    a.merge(&d).unwrap();
    assert_eq!(a.name, "d");
    assert_eq!(a.position, 9);
    assert_eq!(a.mount, None);
}

#[test]
fn element_accessors() {
    let e = StoreElement::Game(game("G", true));
    assert_eq!(e.as_game().unwrap().uid, "G");
    assert!(e.as_card().is_none());
    let c = StoreElement::Card(card("C", "n"));
    assert_eq!(c.as_card().unwrap().uid, "C");
    assert!(c.as_game().is_none());
}

#[test]
fn request_bodies_hold_ids() {
    let one = LinkBody { card_id: "C".to_string(), game_id: "G".to_string() };
    let many = ManyLinkBody { card_id: "C".to_string(), game_ids: vec!["G1".to_string(), "G2".to_string()] };
    let mut s = StoreData::new();
    s.add_card(one.card_id.clone(), card("C", "n"));
    s.add_game(one.game_id.clone(), game("G", false));
    s.link(&one.game_id, &one.card_id).unwrap();
    for g in &many.game_ids {
        s.add_game(g.clone(), game(g, true));
        s.link(g, &many.card_id).unwrap();
    }
    assert_eq!(s.get_games_on_card("C").unwrap().len(), 3);
}

#[test]
fn link_many_and_unlink_many() {
    let mut s = StoreData::new();
    s.add_card("C".to_string(), card("C", "n"));
    for g in ["G1", "G2", "G3"] {
        s.add_game(g.to_string(), game(g, true));
    }
    let body = ManyLinkBody { card_id: "C".to_string(), game_ids: vec!["G1".to_string(), "G2".to_string()] };
    s.link_many(&body).unwrap();
    assert_eq!(s.get_games_on_card("C").unwrap().len(), 2);
    s.link("G3", "C").unwrap();
    s.unlink_many(&body).unwrap();
    let left: Vec<String> = s.get_games_on_card("C").unwrap().into_iter().map(|g| g.uid).collect();
    assert_eq!(left, vec!["G3".to_string()]);
    let bad = ManyLinkBody { card_id: "C".to_string(), game_ids: vec!["G1".to_string(), "missing".to_string()] };
    assert_eq!(s.link_many(&bad).unwrap_err().kind, ErrorKind::NotFound);
    assert_eq!(s.get_games_on_card("C").unwrap().len(), 2);
    assert_eq!(s.unlink_many(&bad).unwrap_err().kind, ErrorKind::NotFound);
    let same_kind = ManyLinkBody { card_id: "C".to_string(), game_ids: vec!["C".to_string()] };
    assert_eq!(s.link_many(&same_kind).unwrap_err().kind, ErrorKind::KindMismatch);
}
