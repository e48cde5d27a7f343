use vstd::prelude::*;
use vstd::string::*;

use crate::game::basic_types::{spec_edge_valid, Edge};
use crate::game::board::{
    lemma_box_edges_legal, spec_contains_edge, spec_edge_count, spec_edge_fits, Board,
};
use crate::game::edge_list::{spec_edge_at, lemma_free_edge_exists};
use crate::players::player::{Player, PlayerId};

verus! {

/// The name under which this heuristic is selected.
pub const KEY: &'static str = "boox";

/// A heuristic player that looks near the opponent's most recent
/// edges: it gathers the free boundary edges of the boxes those edges
/// border, newest first, completes a box there when it can, otherwise
/// plays near them, and falls back to the first free edge of the scan.
#[derive(Debug, Clone)]
pub struct AI {
    id: PlayerId,
}

impl AI {
    /// Which player this instance moves for.
    pub closed spec fn spec_id(&self) -> PlayerId {
        self.id
    }

    pub fn new(id: PlayerId) -> (r: Self)
        ensures
            r.spec_id() == id,
    {
        Self { id }
    }
}

impl Player for AI {
    fn name(&self) -> (r: String)
        ensures
            self.spec_id() is One ==> r@ == "Boox One"@,
            self.spec_id() is Two ==> r@ == "Boox Two"@,
    {
        match self.id {
            PlayerId::One => String::from_str("Boox One"),
            PlayerId::Two => String::from_str("Boox Two"),
        }
    }

    /// The returned edge is always legal for the board it was given:
    /// valid, in bounds and still free.
    fn play(&self, board: Board) -> (e: Edge)
        ensures
            !spec_contains_edge(board.spec_edges(), e),
            spec_edge_valid(e),
            spec_edge_fits(e, board.spec_size() + 1),
    {
        let ghost s = board.spec_edges();
        let ghost sz = board.spec_size() as int;
        let owned = board.iter_owned_edges();
        let mut claimers: Vec<Edge> = Vec::new();
        let mut others: Vec<Edge> = Vec::new();
        let mut i: usize = owned.len();
        while i > 0
            invariant
                board.wf(),
                s == board.spec_edges(),
                sz == board.spec_size() as int,
                owned@ == s,
                0 <= i <= s.len(),
                forall|p: int|
                    0 <= p < claimers@.len() ==> !spec_contains_edge(s, #[trigger] claimers@[p])
                        && spec_edge_valid(claimers@[p]) && spec_edge_fits(claimers@[p], sz + 1),
                forall|p: int|
                    0 <= p < others@.len() ==> !spec_contains_edge(s, #[trigger] others@[p])
                        && spec_edge_valid(others@[p]) && spec_edge_fits(others@[p], sz + 1),
            decreases i,
        {
            i = i - 1;
            let (owner, drawn_edge) = owned[i];
            if owner != self.id {
                let boxes = board.associated_boxes(drawn_edge);
                proof {
                    assert(spec_edge_valid(s[i as int].1) && spec_edge_fits(s[i as int].1, sz + 1));
                }
                let mut bi: usize = 0;
                while bi < boxes.len()
                    invariant
                        board.wf(),
                        s == board.spec_edges(),
                        sz == board.spec_size() as int,
                        0 <= bi <= boxes@.len(),
                        forall|q: int|
                            0 <= q < boxes@.len() ==> (#[trigger] boxes@[q]).0.row < sz
                                && boxes@[q].0.col < sz,
                        forall|p: int|
                            0 <= p < claimers@.len() ==> !spec_contains_edge(
                                s,
                                #[trigger] claimers@[p],
                            ) && spec_edge_valid(claimers@[p]) && spec_edge_fits(
                                claimers@[p],
                                sz + 1,
                            ),
                        forall|p: int|
                            0 <= p < others@.len() ==> !spec_contains_edge(
                                s,
                                #[trigger] others@[p],
                            ) && spec_edge_valid(others@[p]) && spec_edge_fits(
                                others@[p],
                                sz + 1,
                            ),
                    decreases boxes@.len() - bi,
                {
                    let dot_box = boxes[bi];
                    proof {
                        lemma_box_edges_legal(dot_box, sz);
                    }
                    let box_edges = dot_box.edges();
                    let mut k: usize = 0;
                    while k < 4
                        invariant
                            board.wf(),
                            s == board.spec_edges(),
                            sz == board.spec_size() as int,
                            0 <= k <= 4,
                            box_edges@.len() == 4,
                            forall|m: int|
                                0 <= m < 4 ==> spec_edge_valid(#[trigger] box_edges@[m])
                                    && spec_edge_fits(box_edges@[m], sz + 1),
                            forall|p: int|
                                0 <= p < claimers@.len() ==> !spec_contains_edge(
                                    s,
                                    #[trigger] claimers@[p],
                                ) && spec_edge_valid(claimers@[p]) && spec_edge_fits(
                                    claimers@[p],
                                    sz + 1,
                                ),
                            forall|p: int|
                                0 <= p < others@.len() ==> !spec_contains_edge(
                                    s,
                                    #[trigger] others@[p],
                                ) && spec_edge_valid(others@[p]) && spec_edge_fits(
                                    others@[p],
                                    sz + 1,
                                ),
                        decreases 4 - k,
                    {
                        let candidate = box_edges[k];
                        if board.is_free(candidate) {
                            if board.would_claim_box(candidate) {
                                claimers.push(candidate);
                            } else {
                                others.push(candidate);
                            }
                        }
                        k = k + 1;
                    }
                    bi = bi + 1;
                }
            }
        }
        if claimers.len() > 0 {
            return claimers[0];
        }
        if others.len() > 0 {
            return others[0];
        }
        // Nothing near the opponent: take the first free edge of the
        // canonical scan.
        let edges = board.iter_edges();
        let mut m: usize = 0;
        while m < edges.len()
            invariant
                board.wf(),
                s == board.spec_edges(),
                sz == board.spec_size() as int,
                0 <= m <= edges@.len(),
                edges@.len() == spec_edge_count(sz),
                forall|j: int| 0 <= j < m ==> spec_contains_edge(s, #[trigger] edges@[j]),
                forall|j: int|
                    0 <= j < edges@.len() ==> spec_edge_valid(#[trigger] edges@[j])
                        && spec_edge_fits(edges@[j], sz + 1) && edges@[j] == spec_edge_at(sz, j),
            decreases edges@.len() - m,
        {
            let e = edges[m];
            if board.is_free(e) {
                return e;
            }
            m = m + 1;
        }
        // Unreachable: the board is not full, so a free edge exists.
        proof {
            lemma_free_edge_exists(sz, s);
            let k = choose|k: int|
                0 <= k < spec_edge_count(sz) && !spec_contains_edge(s, spec_edge_at(sz, k));
            assert(spec_contains_edge(s, edges@[k]));
            assert(false);
        }
        edges[0]
    }
}

} // verus!
