use vstd::prelude::*;

use crate::game::basic_types::BoardSize;

verus! {

/// Options for one game session, as the host's argument handling
/// provides them.
#[derive(Debug, Clone)]
pub struct Opts {
    pub board_size: BoardSize,
    pub player_two: String,
    pub player_one: String,
    pub quiet: bool,
}

/// The turn driver's bookkeeping after a move: a player who finished a
/// box moves again, on a longer streak; otherwise the other seat moves
/// next and the streak starts over. Returns the next seat index and
/// streak count.
pub fn advance_turn(
    player_index: usize,
    streak_count: usize,
    owned_before: usize,
    owned_after: usize,
) -> (r: (usize, usize))
    requires
        player_index < 2,
        streak_count < usize::MAX,
    ensures
        owned_before < owned_after ==> r.0 == player_index && r.1 == streak_count + 1,
        owned_before >= owned_after ==> r.0 == ((player_index + 1) % 2) && r.1 == 0,
{
    if owned_before < owned_after {
        (player_index, streak_count + 1)
    } else {
        ((player_index + 1) % 2, 0)
    }
}

} // verus!
