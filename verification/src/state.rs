//! Global game resources: the round/finished record, the turn timer, and
//! the debug log.

use vstd::prelude::*;

use crate::utils::Timer;

verus! {

/// The global game record.
///
/// Mutability restriction: outside this crate the record changes only
/// through the actions, which keeps every change auditable.
#[derive(Debug, Clone, Copy, PartialEq, Eq, Structural)]
pub struct GameState {
    /// The current round number.
    pub round: u32,
    /// Indicates if the game is finished.
    pub finished: bool,
}

impl GameState {
    pub fn new() -> (r: GameState)
        ensures
            r.round == 0,
            !r.finished,
    {
        GameState { round: 0, finished: false }
    }
}

/// Resource present exactly while a turn is in progress.
#[derive(Debug, Clone, Copy, PartialEq, Eq, Structural)]
pub struct TurnTimer(pub Timer);

/// Shared, append-only log of every action performed.
#[derive(Debug, Clone)]
pub struct DebugLog {
    pub entries: Vec<String>,
}

impl DebugLog {
    pub fn push(&mut self, entry: String)
        ensures
            final(self).entries@ == old(self).entries@.push(entry),
    {
        self.entries.push(entry);
    }
}

impl Default for DebugLog {
    fn default() -> (r: DebugLog)
        ensures
            r.entries@.len() == 0,
    {
        DebugLog { entries: Vec::new() }
    }
}

} // verus!
