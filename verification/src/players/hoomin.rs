use vstd::prelude::*;
use vstd::string::*;

use crate::players::player::PlayerId;

verus! {

/// The name under which an interactive player is selected.
pub const KEY: &'static str = "hoomin";

/// An interactively driven player: an identity and a display name.
/// The edge itself is typed in by the person at the terminal; the
/// host reads it and re-validates whatever they enter, so no move
/// logic lives here.
#[derive(Debug, Clone)]
pub struct Hoomin {
    pub id: PlayerId,
    pub name: String,
}

impl Hoomin {
    /// A player with the default name for its seat.
    pub fn new(id: PlayerId) -> (r: Self)
        ensures
            r.id == id,
            id is One ==> r.name@ == "Hoomin One"@,
            id is Two ==> r.name@ == "Hoomin Two"@,
    {
        Hoomin {
            id,
            name: match id {
                PlayerId::One => String::from_str("Hoomin One"),
                PlayerId::Two => String::from_str("Hoomin Two"),
            },
        }
    }

    /// A player under a name of the caller's choosing.
    pub fn named(id: PlayerId, name: String) -> (r: Self)
        ensures
            r.id == id,
            r.name == name,
    {
        Self { id, name }
    }

    /// The player's display name.
    pub fn name(&self) -> (r: String)
        ensures
            r@ == self.name@,
    {
        self.name.clone()
    }
}

} // verus!
