use vstd::prelude::*;

verus! {

/// One message of the game log. How a message is worded and coloured is up
/// to whoever draws it.
#[derive(Clone, Debug)]
pub enum LogEntry {
    Welcome,
    Dead { name: String },
    GetItem { name: String },
    DropItem { name: String },
    CannotDescend,
    NothingHere,
    Heal { item: String, amount: i32 },
    NoSuchItem,
    Battle { attacker: String, target: String, damage: i32 },
    Paralyzed { name: String },
    NextLevel,
}

/// The message log, oldest first.
#[derive(Debug)]
pub struct GameLog {
    pub entries: Vec<LogEntry>,
}

impl GameLog {
    pub fn new() -> (r: GameLog)
        ensures
            r.entries@.len() == 1,
            r.entries@[0] is Welcome,
    {
        GameLog { entries: vec![LogEntry::Welcome] }
    }

    pub fn dead_log(name: &String) -> (r: LogEntry)
        ensures
            r == (LogEntry::Dead { name: *name }),
    {
        LogEntry::Dead { name: name.clone() }
    }

    pub fn get_item_log(name: &String) -> (r: LogEntry)
        ensures
            r == (LogEntry::GetItem { name: *name }),
    {
        LogEntry::GetItem { name: name.clone() }
    }

    pub fn drop_item_log(name: &String) -> (r: LogEntry)
        ensures
            r == (LogEntry::DropItem { name: *name }),
    {
        LogEntry::DropItem { name: name.clone() }
    }

    pub fn cannot_down_log() -> (r: LogEntry)
        ensures
            r is CannotDescend,
    {
        LogEntry::CannotDescend
    }

    pub fn try_get_but_nothing_log() -> (r: LogEntry)
        ensures
            r is NothingHere,
    {
        LogEntry::NothingHere
    }

    pub fn heal_log(name: &String, amount: i32) -> (r: LogEntry)
        ensures
            r == (LogEntry::Heal { item: *name, amount }),
    {
        LogEntry::Heal { item: name.clone(), amount }
    }

    pub fn try_do_item_but_no_item() -> (r: LogEntry)
        ensures
            r is NoSuchItem,
    {
        LogEntry::NoSuchItem
    }

    pub fn battle_log(name: &String, target_name: &String, damage: i32) -> (r: LogEntry)
        ensures
            r == (LogEntry::Battle { attacker: *name, target: *target_name, damage }),
    {
        LogEntry::Battle { attacker: name.clone(), target: target_name.clone(), damage }
    }

    pub fn paralyze_log(name: &String) -> (r: LogEntry)
        ensures
            r == (LogEntry::Paralyzed { name: *name }),
    {
        LogEntry::Paralyzed { name: name.clone() }
    }

    pub fn goto_next_level_log() -> (r: LogEntry)
        ensures
            r is NextLevel,
    {
        LogEntry::NextLevel
    }
}

} // verus!
