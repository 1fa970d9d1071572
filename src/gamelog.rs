//! The rolling feed of messages shown to the player.

use vstd::prelude::*;

verus! {

/// One message of the log. The renderer turns each into a line of text.
pub enum LogEntry {
    /// Free text.
    Text(String),
    /// `attacker` hits `target` for `damage` hit points.
    Hit { attacker: String, target: String, damage: i32 },
    /// `attacker` is unable to hurt `target`.
    UnableToHurt { attacker: String, target: String },
    /// An attack that could not land: its target is gone, or the attacker (named when it has
    /// a name) cannot fight.
    HackedAtAir { attacker: Option<String> },
    /// The player died.
    PlayerDied,
    /// A named entity died.
    IsDead { name: String },
    /// The player picked up an item, named when it has a name.
    PickedUp { name: Option<String> },
    /// The player asked to pick up where no item lies.
    NothingToPickUp,
    /// The player dropped an item.
    Dropped { item: String },
    /// The player used a consumable.
    Used { item: String },
    /// The player took off an item to free its slot.
    Unequipped { item: String },
    /// The player put an item on.
    Equipped { item: String },
    /// The item can be neither consumed nor equipped.
    CannotUse,
}

/// The messages, oldest first.
pub struct GameLog {
    pub entries: Vec<LogEntry>,
}

impl GameLog {
    pub open spec fn view(&self) -> Seq<LogEntry> {
        self.entries@
    }

    /// An empty log.
    pub fn new() -> (r: GameLog)
        ensures
            r@.len() == 0,
    {
        GameLog { entries: Vec::new() }
    }

    /// Appends a message.
    pub fn add_entry(&mut self, entry: LogEntry)
        ensures
            final(self)@ == old(self)@.push(entry),
    {
        self.entries.push(entry);
    }
}

} // verus!
