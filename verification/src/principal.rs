//! Authenticated actors. A principal is the result of credential or token
//! verification, performed outside the core; once resolved it is immutable
//! for the duration of a request.

use vstd::prelude::*;

verus! {

/// The closed set of actor roles. The capability check is done once, on the
/// resolved role, never by comparing role strings.
#[derive(Clone, Copy, Debug, PartialEq, Eq, Structural)]
pub enum Role {
    Player,
    GameMaster,
}

/// An authenticated actor: an identifier plus its role.
#[derive(Clone, Copy, Debug, PartialEq, Eq, Structural)]
pub struct Principal {
    pub id: u64,
    pub role: Role,
}

impl Principal {
    /// Whether this principal holds the game-master capability.
    pub open spec fn spec_is_game_master(self) -> bool {
        self.role == Role::GameMaster
    }

    /// Capability check: only game-masters may create or delete sessions.
    pub fn is_game_master(&self) -> (r: bool)
        ensures
            r == self.spec_is_game_master(),
    {
        matches!(self.role, Role::GameMaster)
    }
}

} // verus!
