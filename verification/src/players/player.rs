use vstd::prelude::*;

use crate::game::basic_types::Edge;
use crate::game::board::Board;

verus! {

/// One of the two participants of a game. The game is structurally
/// two-player, so the identifiers form a closed enum.
#[derive(Debug, Clone, Copy, Eq, PartialEq, Structural, Hash, PartialOrd, Ord)]
pub enum PlayerId {
    One,
    Two,
}

impl PlayerId {
    /// A printable label for the player.
    pub fn label(&self) -> (r: &'static str)
        ensures
            *self is One ==> r@ == "One"@,
            *self is Two ==> r@ == "Two"@,
    {
        match self {
            PlayerId::One => "One",
            PlayerId::Two => "Two",
        }
    }
}

/// The capability a move-selecting participant offers to the turn driver:
/// a display name and the ability to pick one edge for a board snapshot.
///
/// The driver owns the authoritative board; it hands each player a
/// private clone, and re-validates whatever edge comes back, so the
/// trait itself promises nothing about the returned edge.
pub trait Player {
    fn name(&self) -> String;

    fn play(&self, board: Board) -> Edge
        requires
            board.wf(),
            !board.spec_full(),
    ;
}

} // verus!
