use vstd::prelude::*;

verus! {

/// The log keeps at most this many lines; the oldest line is dropped first.
pub const MSG_CAP: usize = 6;

/// One line of the game log. Carries the data a display needs; the
/// surrounding program renders the words and colours.
#[derive(Clone, Debug, PartialEq)]
pub enum Msg {
    Intro,
    NewGameIntro,
    Attack { attacker: String, target: String, damage: i32 },
    NoEffect { attacker: String, target: String },
    PlayerDied,
    PressStartNewGame,
    MonsterDied { name: String },
    AttackWall,
    NeedKey,
    ChestOpening,
    PressStartGift,
    PickedPotion,
    PickedKey,
    UsedPotion { left: i32 },
    NoPotionsLeft,
    Waited,
}

/// What one append does to the log: at the cap, the oldest line goes first.
pub open spec fn log_push(s: Seq<Msg>, m: Msg) -> Seq<Msg> {
    if s.len() == MSG_CAP as int {
        s.subrange(1, s.len() as int).push(m)
    } else {
        s.push(m)
    }
}

/// Bounded message log for the status panel.
pub struct MessageLog {
    pub entries: Vec<Msg>,
}

impl MessageLog {
    pub fn new() -> (log: MessageLog)
        ensures
            log.entries@ == Seq::<Msg>::empty(),
    {
        MessageLog { entries: Vec::new() }
    }

    pub fn print_message(&mut self, m: Msg)
        ensures
            final(self).entries@ == log_push(old(self).entries@, m),
    {
        if self.entries.len() == MSG_CAP {
            self.entries.remove(0);
        }
        self.entries.push(m);
    }

    pub fn clear(&mut self)
        ensures
            final(self).entries@ == Seq::<Msg>::empty(),
    {
        self.entries.clear();
    }
}

} // verus!
