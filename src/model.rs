//! The entities the store relates: cards, applications, and lifecycle signals.
use vstd::prelude::*;
use crate::error::{Error, ErrorKind};

verus! {

/// A removable storage card.
#[derive(Debug)]
pub struct MicroSDCard {
    pub uid: String,
    pub libid: String,
    pub mount: Option<String>,
    pub name: String,
    pub position: u32,
    pub hidden: bool,
}

/// An installed application.
#[derive(Debug)]
pub struct Game {
    pub uid: String,
    pub name: String,
    pub size: u64,
    /// Whether reconciliation discovered it on a card (rather than a user entering it).
    pub is_steam: bool,
}

/// A lifecycle signal about the card slot.
#[derive(Clone, Copy, Debug, PartialEq, Eq, Structural)]
pub enum CardEvent {
    Inserted,
    Removed,
    Updated,
}

/// One entity of the store.
#[derive(Debug)]
pub enum StoreElement {
    Game(Game),
    Card(MicroSDCard),
}

/// A copy of an optional text.
pub fn copy_opt_text(s: &Option<String>) -> (r: Option<String>)
    ensures
        r == *s,
{
    match s {
        Some(v) => Some(v.clone()),
        None => None,
    }
}

impl MicroSDCard {
    /// A field-for-field copy.
    pub fn duplicate(&self) -> (r: MicroSDCard)
        ensures
            r == *self,
    {
        MicroSDCard {
            uid: self.uid.clone(),
            libid: self.libid.clone(),
            mount: copy_opt_text(&self.mount),
            name: self.name.clone(),
            position: self.position,
            hidden: self.hidden,
        }
    }

    /// Takes over the user-editable fields of `other` (name, position, hidden flag),
    /// provided both records describe the same card and library.
    pub fn merge(&mut self, other: &MicroSDCard) -> (r: Result<(), Error>)
        ensures
            old(self).uid@ != other.uid@ ==> (r matches Err(e) && e.kind == ErrorKind::Invalid)
                && *final(self) == *old(self),
            old(self).uid@ == other.uid@ && old(self).libid@ != other.libid@ ==> (r matches Err(e)
                && e.kind == ErrorKind::Invalid) && *final(self) == *old(self),
            old(self).uid@ == other.uid@ && old(self).libid@ == other.libid@ ==> r is Ok
                && *final(self) == (MicroSDCard {
                    name: other.name,
                    position: other.position,
                    hidden: other.hidden,
                    ..*old(self)
                }),
    {
        if self.uid != other.uid {
            return Error::new_res("uid's did not match");
        }
        if self.libid != other.libid {
            return Error::new_res("libid's did not match");
        }
        self.name = other.name.clone();
        self.position = other.position;
        self.hidden = other.hidden;
        Ok(())
    }
}

impl Game {
    /// A field-for-field copy.
    pub fn duplicate(&self) -> (r: Game)
        ensures
            r == *self,
    {
        Game { uid: self.uid.clone(), name: self.name.clone(), size: self.size, is_steam: self.is_steam }
    }
}

impl CardEvent {
    /// The event name used on the notification stream.
    pub fn event_name(&self) -> (r: &'static str)
        ensures
            *self == CardEvent::Inserted ==> r@ == "insert"@,
            *self == CardEvent::Removed ==> r@ == "remove"@,
            *self == CardEvent::Updated ==> r@ == "update"@,
    {
        match self {
            CardEvent::Inserted => "insert",
            CardEvent::Removed => "remove",
            CardEvent::Updated => "update",
        }
    }
}

impl StoreElement {
    pub open spec fn game_of(self) -> Option<Game> {
        match self {
            StoreElement::Game(g) => Some(g),
            _ => None,
        }
    }

    pub open spec fn card_of(self) -> Option<MicroSDCard> {
        match self {
            StoreElement::Card(c) => Some(c),
            _ => None,
        }
    }

    pub open spec fn is_card(self) -> bool {
        self is Card
    }

    /// Whether this element is a card.
    pub fn holds_card(&self) -> (r: bool)
        ensures
            r == self.is_card(),
    {
        match self {
            StoreElement::Card(_) => true,
            StoreElement::Game(_) => false,
        }
    }

    /// A copy of the application, if this element is one.
    pub fn as_game(&self) -> (r: Option<Game>)
        ensures
            r == self.game_of(),
    {
        match self {
            StoreElement::Game(game) => Some(game.duplicate()),
            _ => None,
        }
    }

    /// A copy of the card, if this element is one.
    pub fn as_card(&self) -> (r: Option<MicroSDCard>)
        ensures
            r == self.card_of(),
    {
        match self {
            StoreElement::Card(card) => Some(card.duplicate()),
            _ => None,
        }
    }
}

} // verus!
