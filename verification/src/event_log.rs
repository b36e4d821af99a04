//! What happened in the game, newest first.

use vstd::prelude::*;
use crate::entity_map::Entity;

verus! {

/// Something worth telling the player.
#[derive(Copy, Clone, Debug, PartialEq, Eq, Structural)]
pub enum LogEvent {
    FinishedTurn(Entity),
    Died(Entity),
    /// Who hit whom, and the hit points taken.
    DidDamage(Entity, Entity, i32),
}

/// The events of the game, newest first.
pub struct EventLog {
    pub logs: Vec<LogEvent>,
}

impl Default for EventLog {
    fn default() -> (log: EventLog)
        ensures
            log.logs@ == Seq::<LogEvent>::empty(),
    {
        EventLog { logs: Vec::new() }
    }
}

impl EventLog {
    /// Puts an event in front of the others.
    pub fn log(&mut self, event: LogEvent)
        ensures
            final(self).logs@ == seq![event] + old(self).logs@,
    {
        self.logs.insert(0, event);
        assert(self.logs@ =~= seq![event] + old(self).logs@);
    }
}

} // verus!
