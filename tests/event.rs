use microsdeck::event::{Event, EventBuilder, EventTrait};
use microsdeck::model::CardEvent;

#[test]
fn card_event_text() {
    assert_eq!(Event::new(CardEvent::Inserted).to_text(), "event: insert\n\n");
    assert_eq!(Event::new(CardEvent::Removed).to_text(), "event: remove\n\n");
    assert_eq!(Event::new(CardEvent::Updated).to_text(), "event: update\n\n");
    assert_eq!(CardEvent::Updated.event_name(), "update");
}

#[test]
fn builder_text() {
    let b = EventBuilder::new().with_id("7").with_event("ping").with_data("x");
    assert_eq!(Event::new(b).to_text(), "id: 7\nevent: ping\ndata: x\n\n");
    assert_eq!(Event::new(EventBuilder::new()).to_text(), "");
    let mut b = EventBuilder::new();
    b.set_data("d");
    b.set_id("i");
    b.set_event("e");
    assert_eq!(b.get_id(), Some("i"));
    assert_eq!(b.get_event(), Some("e"));
    assert_eq!(b.get_data(), Some("d"));
}

#[test]
fn parse_fields() {
    let b = Event::<CardEvent>::parse("id:1\nevent:update\ndata:payload\n\n");
    assert_eq!(b.id, Some("1"));
    assert_eq!(b.event, Some("update"));
    assert_eq!(b.data, Some("payload"));
}

#[test]
fn parse_skips_bad_lines_and_keeps_spaces() {
    let b = Event::<CardEvent>::parse("no colon here\nid:\nweird:value\nevent: spaced\ndata:a:b");
    assert_eq!(b.id, None);
    assert_eq!(b.event, Some(" spaced"));
    assert_eq!(b.data, Some("a:b"));
}

#[test]
fn parse_later_line_wins() {
    let b = Event::<CardEvent>::parse("id:first\nid:second");
    assert_eq!(b.id, Some("second"));
    let round = Event::<CardEvent>::parse("");
    assert_eq!(round.id, None);
    assert_eq!(round.event, None);
    assert_eq!(round.data, None);
}
