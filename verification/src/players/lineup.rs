use vstd::prelude::*;
use vstd::string::*;

use crate::ai::doot;
use crate::ai::sleepy;
use crate::players::player::PlayerId;

verus! {

/// Which kind of player implementation a name selects.
#[derive(Debug, Clone)]
pub enum PlayerChoice {
    /// The greedy box-taking heuristic.
    Doot,
    /// The slow weekday-dependent player.
    Sleepy,
    /// An interactive player under the given name.
    Hoomin(String),
}

/// Whether `c` is the kind of player the name `n` selects: the known
/// keys pick their heuristics, and any other name an interactive
/// player bearing that name.
pub open spec fn spec_choice_for(n: Seq<char>, c: PlayerChoice) -> bool {
    if n == "doot"@ {
        c is Doot
    } else if n == "sleepy"@ {
        c is Sleepy
    } else {
        c matches PlayerChoice::Hoomin(m) && m@ == n
    }
}

/// The kind of player implementation the given name selects.
fn choice_for(name: &str) -> (c: PlayerChoice)
    ensures
        spec_choice_for(name@, c),
{
    let n = String::from_str(name);
    if n == String::from_str(doot::KEY) {
        PlayerChoice::Doot
    } else if n == String::from_str(sleepy::KEY) {
        PlayerChoice::Sleepy
    } else {
        PlayerChoice::Hoomin(n)
    }
}

/// Decide which player implementation each seat's name selects: always
/// exactly two seats, player one first. The host turns the choices
/// into live player implementations.
pub fn choose_players(name_one: &str, name_two: &str) -> (r: Vec<(PlayerId, PlayerChoice)>)
    ensures
        r@.len() == 2,
        r@[0].0 == PlayerId::One,
        r@[1].0 == PlayerId::Two,
        spec_choice_for(name_one@, r@[0].1),
        spec_choice_for(name_two@, r@[1].1),
{
    let mut players: Vec<(PlayerId, PlayerChoice)> = Vec::new();
    players.push((PlayerId::One, choice_for(name_one)));
    players.push((PlayerId::Two, choice_for(name_two)));
    players
}

} // verus!
