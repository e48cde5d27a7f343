use vstd::prelude::*;
use vstd::string::*;

use crate::game::basic_types::{spec_edge_valid, Edge};
use crate::game::board::{spec_contains_edge, spec_edge_count, spec_edge_fits, Board};
use crate::game::edge_list::{spec_edge_at, lemma_free_edge_exists};
use crate::players::player::PlayerId;

verus! {

/// The name under which this player is selected.
pub const KEY: &'static str = "sleepy";

/// A playful, slow player: it naps before moving, longer on weekends,
/// refuses to play at all on Mondays, and then simply takes the first
/// free edge of the scan. Reading the clock and actually napping are
/// side effects its host performs; the decisions stand here.
#[derive(Debug, Clone)]
pub struct Sleepy {
    id: PlayerId,
}

impl Sleepy {
    /// Which player this instance moves for.
    pub closed spec fn spec_id(&self) -> PlayerId {
        self.id
    }

    pub fn new(id: PlayerId) -> (r: Self)
        ensures
            r.spec_id() == id,
    {
        Self { id }
    }

    /// The player's display name.
    pub fn name(&self) -> (r: String)
        ensures
            self.spec_id() is One ==> r@ == "Sleepy One"@,
            self.spec_id() is Two ==> r@ == "Sleepy Two"@,
    {
        match self.id {
            PlayerId::One => String::from_str("Sleepy One"),
            PlayerId::Two => String::from_str("Sleepy Two"),
        }
    }

    /// How long to nap before moving, by the day of the week counted
    /// from Monday = 0: no play at all on Mondays, five seconds on
    /// weekend days, one second otherwise.
    pub fn nap_seconds(weekday: u8) -> (r: Option<u8>)
        requires
            weekday < 7,
        ensures
            weekday == 0 ==> r is None,
            5 <= weekday < 7 ==> r == Option::Some(5u8),
            1 <= weekday < 5 ==> r == Option::Some(1u8),
    {
        if weekday == 0 {
            Option::None
        } else if weekday >= 5 {
            Option::Some(5)
        } else {
            Option::Some(1)
        }
    }

    /// The edge Sleepy picks: the first free edge in canonical scan
    /// order. It is legal for the board it was given.
    pub fn select_edge(&self, board: &Board) -> (e: Edge)
        requires
            board.wf(),
            !board.spec_full(),
        ensures
            !spec_contains_edge(board.spec_edges(), e),
            spec_edge_valid(e),
            spec_edge_fits(e, board.spec_size() + 1),
    {
        let ghost s = board.spec_edges();
        let ghost sz = board.spec_size() as int;
        let edges = board.iter_edges();
        let mut m: usize = 0;
        while m < edges.len()
            invariant
                board.wf(),
                s == board.spec_edges(),
                sz == board.spec_size() as int,
                0 <= m <= edges@.len(),
                edges@.len() == spec_edge_count(sz),
                forall|j: int| 0 <= j < m ==> spec_contains_edge(s, #[trigger] edges@[j]),
                forall|j: int|
                    0 <= j < edges@.len() ==> spec_edge_valid(#[trigger] edges@[j])
                        && spec_edge_fits(edges@[j], sz + 1) && edges@[j] == spec_edge_at(sz, j),
            decreases edges@.len() - m,
        {
            let e = edges[m];
            if board.is_free(e) {
                return e;
            }
            m = m + 1;
        }
        // Unreachable: the board is not full, so a free edge exists.
        proof {
            lemma_free_edge_exists(sz, s);
            let k = choose|k: int|
                0 <= k < spec_edge_count(sz) && !spec_contains_edge(s, spec_edge_at(sz, k));
            assert(spec_contains_edge(s, edges@[k]));
            assert(false);
        }
        edges[0]
    }
}

/// Relies on chrono's `Local::now` and `Datelike::weekday`:
/// `num_days_from_monday` returns the current day's index counted from
/// Monday, between 0 and 6.
#[verifier::external_body]
fn weekday_today() -> (d: u8)
    ensures
        d < 7,
{
    chrono::Datelike::weekday(&chrono::Local::now()).num_days_from_monday() as u8
}

/// Sleepy's plan for the current day: `None` on a Monday (no play at
/// all), otherwise the number of seconds to nap. Which day it is comes
/// from the clock, so only the shape of the result is known.
pub fn current_nap_plan() -> (r: Option<u8>)
    ensures
        r is None || r == Option::Some(1u8) || r == Option::Some(5u8),
{
    let wd = weekday_today();
    Sleepy::nap_seconds(wd)
}

} // verus!
