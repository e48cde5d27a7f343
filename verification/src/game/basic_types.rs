use vstd::prelude::*;

use crate::players::player::PlayerId;

verus! {

/// Width of the coordinates a board works with.
pub type BoardSize = u16;

/// Shorthand constructor to create a dot from its coordinates.
pub fn dot(row: BoardSize, col: BoardSize) -> (d: Dot)
    ensures
        d == (Dot { row, col }),
{
    Dot { row, col }
}

/// Shorthand constructor to create an edge from coordinate tuples.
pub fn edge(a: (BoardSize, BoardSize), b: (BoardSize, BoardSize)) -> (e: Edge)
    ensures
        e == (Edge(Dot { row: a.0, col: a.1 }, Dot { row: b.0, col: b.1 })),
{
    Edge(Dot { row: a.0, col: a.1 }, Dot { row: b.0, col: b.1 })
}

/// A lattice point of the board, identified by `(row, col)`.
#[derive(Default, Copy, Clone, Debug, PartialEq, Eq, Structural, Hash, PartialOrd, Ord)]
pub struct Dot {
    pub row: BoardSize,
    pub col: BoardSize,
}

impl Dot {
    pub fn transpose(&self) -> (d: Self)
        ensures
            d == *self,
    {
        dot(self.row, self.col)
    }
}

/// The dot one grid step to the right of `d`.
pub open spec fn spec_dot_right(d: Dot) -> Dot {
    Dot { row: d.row, col: (d.col + 1) as u16 }
}

/// The dot one grid step below `d`.
pub open spec fn spec_dot_down(d: Dot) -> Dot {
    Dot { row: (d.row + 1) as u16, col: d.col }
}

/// The dot one grid step below and to the right of `d`.
pub open spec fn spec_dot_down_right(d: Dot) -> Dot {
    Dot { row: (d.row + 1) as u16, col: (d.col + 1) as u16 }
}

/// Absolute difference of two coordinates, as a mathematical integer.
pub open spec fn spec_abs_diff(a: BoardSize, b: BoardSize) -> int {
    if a >= b {
        a - b
    } else {
        b - a
    }
}

/// An edge is geometrically valid when its dots are exactly one grid
/// step apart: the Manhattan distance between them is 1.
pub open spec fn spec_edge_valid(e: Edge) -> bool {
    spec_abs_diff(e.0.row, e.1.row) + spec_abs_diff(e.0.col, e.1.col) == 1
}

/// Order-insensitive equality of edges: the same unordered pair of dots.
pub open spec fn spec_edge_eq(a: Edge, b: Edge) -> bool {
    (a.0 == b.0 && a.1 == b.1) || (a.0 == b.1 && a.1 == b.0)
}

/// An unordered pair of two adjacent dots. Its `==` is order-insensitive:
/// `Edge(a, b)` equals `Edge(b, a)`.
#[derive(Default, Copy, Clone, Debug, Eq)]
pub struct Edge(pub Dot, pub Dot);

impl PartialEq for Edge {
    fn eq(&self, other: &Self) -> (r: bool) {
        (self.0 == other.0 && self.1 == other.1) || (self.0 == other.1 && self.1 == other.0)
    }
}

impl vstd::std_specs::cmp::PartialEqSpecImpl for Edge {
    open spec fn obeys_eq_spec() -> bool {
        true
    }

    open spec fn eq_spec(&self, other: &Self) -> bool {
        spec_edge_eq(*self, *other)
    }
}

impl Edge {
    /// Whether the two dots are exactly one grid step apart.
    pub fn is_valid(&self) -> (r: bool)
        ensures
            r == spec_edge_valid(*self),
    {
        let dr: u16 = if self.1.row >= self.0.row {
            self.1.row - self.0.row
        } else {
            self.0.row - self.1.row
        };
        let dc: u16 = if self.1.col >= self.0.col {
            self.1.col - self.0.col
        } else {
            self.0.col - self.1.col
        };
        (dr as u32) + (dc as u32) == 1
    }

    /// Whether `dot` is one of the edge's two endpoints.
    pub fn has_dot(&self, dot: Dot) -> (r: bool)
        ensures
            r == (self.0 == dot || self.1 == dot),
    {
        self.0 == dot || self.1 == dot
    }
}

/// Order-insensitive edge equality is symmetric in the dots: the edge
/// from `a` to `b` equals the edge from `b` to `a`.
pub proof fn lemma_edge_order_insensitive(a: Dot, b: Dot)
    ensures
        spec_edge_eq(Edge(a, b), Edge(b, a)),
{
}

/// Order-insensitive edge equality is an equivalence: reflexive,
/// symmetric and transitive.
pub proof fn lemma_edge_eq_equivalence(a: Edge, b: Edge, c: Edge)
    ensures
        spec_edge_eq(a, a),
        spec_edge_eq(a, b) == spec_edge_eq(b, a),
        spec_edge_eq(a, b) && spec_edge_eq(b, c) ==> spec_edge_eq(a, c),
{
}

/// The four boundary edges of a box, in the fixed order top, right,
/// bottom, left, derived from the box's upper-left dot.
pub open spec fn spec_box_edges(b: DotBox) -> Seq<Edge> {
    seq![
        Edge(b.0, spec_dot_right(b.0)),
        Edge(spec_dot_right(b.0), spec_dot_down_right(b.0)),
        Edge(spec_dot_down(b.0), spec_dot_down_right(b.0)),
        Edge(b.0, spec_dot_down(b.0)),
    ]
}

/// A unit square of the board, identified by its upper-left dot.
#[derive(Default, Copy, Clone, Debug, PartialEq, Eq, Structural, Hash)]
pub struct DotBox(pub Dot);

impl DotBox {
    pub fn upper_left(&self) -> (d: Dot)
        ensures
            d == self.0,
    {
        self.0
    }

    pub fn upper_right(&self) -> (d: Dot)
        requires
            self.0.col < BoardSize::MAX,
        ensures
            d == spec_dot_right(self.0),
    {
        dot(self.0.row, self.0.col + 1)
    }

    pub fn lower_right(&self) -> (d: Dot)
        requires
            self.0.row < BoardSize::MAX,
            self.0.col < BoardSize::MAX,
        ensures
            d == spec_dot_down_right(self.0),
    {
        dot(self.0.row + 1, self.0.col + 1)
    }

    pub fn lower_left(&self) -> (d: Dot)
        requires
            self.0.row < BoardSize::MAX,
        ensures
            d == spec_dot_down(self.0),
    {
        dot(self.0.row + 1, self.0.col)
    }

    pub fn top(&self) -> (e: Edge)
        requires
            self.0.col < BoardSize::MAX,
        ensures
            e == spec_box_edges(*self)[0],
    {
        Edge(self.upper_left(), self.upper_right())
    }

    pub fn right(&self) -> (e: Edge)
        requires
            self.0.row < BoardSize::MAX,
            self.0.col < BoardSize::MAX,
        ensures
            e == spec_box_edges(*self)[1],
    {
        Edge(self.upper_right(), self.lower_right())
    }

    pub fn bottom(&self) -> (e: Edge)
        requires
            self.0.row < BoardSize::MAX,
            self.0.col < BoardSize::MAX,
        ensures
            e == spec_box_edges(*self)[2],
    {
        Edge(self.lower_left(), self.lower_right())
    }

    pub fn left(&self) -> (e: Edge)
        requires
            self.0.row < BoardSize::MAX,
        ensures
            e == spec_box_edges(*self)[3],
    {
        Edge(self.upper_left(), self.lower_left())
    }

    /// The four boundary edges in the order top, right, bottom, left.
    pub fn edges(&self) -> (r: Vec<Edge>)
        requires
            self.0.row < BoardSize::MAX,
            self.0.col < BoardSize::MAX,
        ensures
            r@ == spec_box_edges(*self),
    {
        let mut r: Vec<Edge> = Vec::new();
        r.push(self.top());
        r.push(self.right());
        r.push(self.bottom());
        r.push(self.left());
        proof {
            assert(r@ =~= spec_box_edges(*self));
        }
        r
    }
}

/// The outcome of a finished game, as derived from a full board:
/// a unique winner with their box count, or a tie among the players
/// sharing the maximum count. `NoneYet` while the board is not full.
#[derive(Clone, Debug, Eq)]
pub enum WinnerResult {
    Winner(PlayerId, usize),
    Tie(Vec<PlayerId>, usize),
    NoneYet,
}

/// How many entries of `s` are the player `id`.
pub open spec fn spec_count_id(s: Seq<PlayerId>, id: PlayerId) -> int
    decreases s.len(),
{
    if s.len() == 0 {
        0int
    } else {
        spec_count_id(s.drop_last(), id) + if s.last() == id {
            1int
        } else {
            0int
        }
    }
}

/// Two lists of player identifiers hold the same players with the same
/// multiplicities, ignoring order. With exactly two possible players
/// this is the same as comparing the sorted lists.
pub open spec fn spec_ids_equiv(a: Seq<PlayerId>, b: Seq<PlayerId>) -> bool {
    &&& a.len() == b.len()
    &&& spec_count_id(a, PlayerId::One) == spec_count_id(b, PlayerId::One)
    &&& spec_count_id(a, PlayerId::Two) == spec_count_id(b, PlayerId::Two)
}

/// How `==` on `WinnerResult` compares values: winners must agree in
/// player and count; ties must agree in count and hold the same set of
/// players, in any order.
pub open spec fn spec_winner_result_eq(a: WinnerResult, b: WinnerResult) -> bool {
    match (a, b) {
        (WinnerResult::Winner(id_a, c_a), WinnerResult::Winner(id_b, c_b)) => id_a == id_b && c_a
            == c_b,
        (WinnerResult::Tie(ids_a, c_a), WinnerResult::Tie(ids_b, c_b)) => c_a == c_b
            && spec_ids_equiv(ids_a@, ids_b@),
        (WinnerResult::NoneYet, WinnerResult::NoneYet) => true,
        _ => false,
    }
}

/// Count the occurrences of `id` in `ids`.
fn count_id(ids: &Vec<PlayerId>, id: PlayerId) -> (r: usize)
    ensures
        r == spec_count_id(ids@, id),
{
    let mut r: usize = 0;
    let mut i: usize = 0;
    while i < ids.len()
        invariant
            0 <= i <= ids@.len(),
            r == spec_count_id(ids@.subrange(0, i as int), id),
            r <= i,
        decreases ids@.len() - i,
    {
        let here = ids[i];
        if here == id {
            r = r + 1;
        }
        proof {
            assert(ids@.subrange(0, i + 1 as int).drop_last() =~= ids@.subrange(0, i as int));
            assert(ids@.subrange(0, i + 1 as int).last() == ids@[i as int]);
        }
        i = i + 1;
    }
    proof {
        assert(ids@.subrange(0, ids@.len() as int) =~= ids@);
    }
    r
}

impl PartialEq for WinnerResult {
    fn eq(&self, other: &Self) -> (r: bool) {
        match (self, other) {
            (WinnerResult::Winner(id_a, c_a), WinnerResult::Winner(id_b, c_b)) => {
                id_a == id_b && c_a == c_b
            },
            (WinnerResult::Tie(ids_a, c_a), WinnerResult::Tie(ids_b, c_b)) => {
                c_a == c_b && ids_a.len() == ids_b.len() && count_id(ids_a, PlayerId::One)
                    == count_id(ids_b, PlayerId::One) && count_id(ids_a, PlayerId::Two) == count_id(
                    ids_b,
                    PlayerId::Two,
                )
            },
            (WinnerResult::NoneYet, WinnerResult::NoneYet) => true,
            _ => false,
        }
    }
}

impl vstd::std_specs::cmp::PartialEqSpecImpl for WinnerResult {
    open spec fn obeys_eq_spec() -> bool {
        true
    }

    open spec fn eq_spec(&self, other: &Self) -> bool {
        spec_winner_result_eq(*self, *other)
    }
}

} // verus!
