use vstd::prelude::*;
use vstd::string::*;

use crate::game::basic_types::Edge;
use crate::game::board::{
    spec_contains_edge, spec_edge_count, spec_would_claim, Board, OwnedEdge,
};
use crate::game::edge_list::{
    spec_edge_at, spec_edge_list, lemma_edge_at_props, lemma_free_edge_exists,
};
use crate::players::player::{Player, PlayerId};

verus! {

/// The name under which this heuristic is selected.
pub const KEY: &'static str = "doot";

/// Whether drawing `e` (by player `id`) would leave some box one move
/// from completion, handing the opponent a free box on their turn.
pub open spec fn spec_opens_box(s: Seq<OwnedEdge>, size: int, id: PlayerId, e: Edge) -> bool {
    exists|j: int|
        0 <= j < spec_edge_count(size) && spec_would_claim(
            s.push((id, e)),
            size,
            #[trigger] spec_edge_at(size, j),
        )
}

/// The heuristic's score for drawing the free edge `e`: base 1, plus 2
/// when the move completes a box at once, minus 1 when it would open a
/// box for the opponent.
pub open spec fn spec_move_score(s: Seq<OwnedEdge>, size: int, id: PlayerId, e: Edge) -> int {
    1 + (if spec_would_claim(s, size, e) {
        2int
    } else {
        0int
    }) - (if spec_opens_box(s, size, id, e) {
        1int
    } else {
        0int
    })
}

/// Whether `e` is the edge this heuristic picks: a free edge of the
/// canonical scan whose score no free edge beats, and the last such
/// edge in scan order.
pub open spec fn spec_is_doot_move(s: Seq<OwnedEdge>, size: int, id: PlayerId, e: Edge) -> bool {
    exists|k: int|
        #![trigger spec_edge_list(size)[k]]
        {
            &&& 0 <= k < spec_edge_list(size).len()
            &&& e == spec_edge_list(size)[k]
            &&& !spec_contains_edge(s, e)
            &&& forall|j: int|
                0 <= j < spec_edge_list(size).len() && !spec_contains_edge(
                    s,
                    #[trigger] spec_edge_list(size)[j],
                ) ==> spec_move_score(s, size, id, spec_edge_list(size)[j]) <= spec_move_score(
                    s,
                    size,
                    id,
                    e,
                )
            &&& forall|j: int|
                k < j < spec_edge_list(size).len() && !spec_contains_edge(
                    s,
                    #[trigger] spec_edge_list(size)[j],
                ) ==> spec_move_score(s, size, id, spec_edge_list(size)[j]) < spec_move_score(
                    s,
                    size,
                    id,
                    e,
                )
        }
}

/// The greedy heuristic player: it takes a free box when one is
/// available, avoids handing the opponent a box when it can, and
/// otherwise plays the last best-scoring edge in scan order.
#[derive(Debug, Clone)]
pub struct AI {
    id: PlayerId,
}

impl AI {
    /// Which player this instance moves for.
    pub closed spec fn spec_id(&self) -> PlayerId {
        self.id
    }

    pub fn new(id: PlayerId) -> (r: Self)
        ensures
            r.spec_id() == id,
    {
        Self { id }
    }
}

impl Player for AI {
    fn name(&self) -> (r: String)
        ensures
            self.spec_id() is One ==> r@ == "Doot One"@,
            self.spec_id() is Two ==> r@ == "Doot Two"@,
    {
        match self.id {
            PlayerId::One => String::from_str("Doot One"),
            PlayerId::Two => String::from_str("Doot Two"),
        }
    }

    /// Score every free edge and pick the highest score, breaking ties
    /// towards the edge scanned last.
    fn play(&self, board: Board) -> (e: Edge)
        ensures
            spec_is_doot_move(
                board.spec_edges(),
                board.spec_size() as int,
                self.spec_id(),
                e,
            ),
            !spec_contains_edge(board.spec_edges(), e),
    {
        let ghost s = board.spec_edges();
        let ghost sz = board.spec_size() as int;
        let edges = board.iter_edges();
        let mut best: Option<(i8, Edge)> = Option::None;
        let ghost mut best_at: int = 0;
        let mut i: usize = 0;
        while i < edges.len()
            invariant
                board.wf(),
                !board.spec_full(),
                s == board.spec_edges(),
                sz == board.spec_size() as int,
                edges@ == spec_edge_list(sz),
                0 <= i <= edges@.len(),
                match best {
                    Option::None => forall|j: int|
                        0 <= j < i ==> spec_contains_edge(s, #[trigger] edges@[j]),
                    Option::Some(p) => {
                        &&& 0 <= best_at < i
                        &&& p.1 == edges@[best_at]
                        &&& !spec_contains_edge(s, p.1)
                        &&& p.0 == spec_move_score(s, sz, self.spec_id(), p.1)
                        &&& forall|j: int|
                            0 <= j < i && !spec_contains_edge(s, #[trigger] edges@[j])
                                ==> spec_move_score(s, sz, self.spec_id(), edges@[j]) <= p.0
                        &&& forall|j: int|
                            best_at < j < i && !spec_contains_edge(s, #[trigger] edges@[j])
                                ==> spec_move_score(s, sz, self.spec_id(), edges@[j]) < p.0
                    },
                },
            decreases edges@.len() - i,
        {
            let e = edges[i];
            if board.is_free(e) {
                let mut score: i8 = 1;
                if board.would_claim_box(e) {
                    score = score + 2;
                }
                // Try the move on a private copy and see whether any
                // edge would then complete a box for the opponent.
                let mut hypothetical = board.snapshot();
                let draw_result = hypothetical.draw((self.id, e));
                proof {
                    lemma_edge_at_props(sz, i as int);
                    assert(e == spec_edge_at(sz, i as int));
                    assert(draw_result is Ok);
                }
                let hyp_edges = hypothetical.iter_edges();
                let mut opens = false;
                let mut j: usize = 0;
                while j < hyp_edges.len()
                    invariant
                        hypothetical.wf(),
                        hypothetical.spec_edges() == s.push((self.spec_id(), e)),
                        hypothetical.spec_size() as int == sz,
                        hyp_edges@ == spec_edge_list(sz),
                        0 <= j <= hyp_edges@.len(),
                        opens == exists|m: int|
                            0 <= m < j && spec_would_claim(
                                s.push((self.spec_id(), e)),
                                sz,
                                #[trigger] spec_edge_at(sz, m),
                            ),
                    decreases hyp_edges@.len() - j,
                {
                    if hypothetical.would_claim_box(hyp_edges[j]) {
                        opens = true;
                    }
                    j = j + 1;
                }
                proof {
                    assert(opens == spec_opens_box(s, sz, self.spec_id(), e));
                }
                if opens {
                    score = score - 1;
                }
                proof {
                    assert(score == spec_move_score(s, sz, self.spec_id(), e));
                }
                let replace = match best {
                    Option::None => true,
                    Option::Some(p) => score >= p.0,
                };
                if replace {
                    best = Option::Some((score, e));
                    proof {
                        best_at = i as int;
                    }
                }
            }
            i = i + 1;
        }
        match best {
            Option::Some(p) => p.1,
            Option::None => {
                // Unreachable: the board is not full, so a free edge
                // exists somewhere in the scan.
                proof {
                    lemma_free_edge_exists(sz, s);
                    let k = choose|k: int|
                        0 <= k < spec_edge_count(sz) && !spec_contains_edge(
                            s,
                            spec_edge_at(sz, k),
                        );
                    assert(edges@[k] == spec_edge_at(sz, k));
                    assert(false);
                }
                edges[0]
            },
        }
    }
}

} // verus!
