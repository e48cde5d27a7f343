use vstd::prelude::*;

pub use crate::game::basic_types::{
    dot, edge, spec_abs_diff, spec_box_edges, spec_dot_down, spec_dot_down_right, spec_dot_right,
    spec_edge_eq, spec_edge_valid, BoardSize, Dot, DotBox, Edge, WinnerResult,
};
use crate::game::edge_list::{
    spec_edge_at, spec_edge_is_horizontal, spec_edge_is_vertical, spec_edge_list, spec_edge_lo,
    spec_row_width, lemma_drawn_le_edge_count, lemma_edge_at_props, lemma_edge_list_distinct,
};
use crate::box_drawings::{lookup, spec_box_char_value, BoxChar, LINE_H, LINE_V};
use crate::players::player::PlayerId;
use crate::utils::{char_to_string, pad_end, pad_out, u16_to_string};
use vstd::arithmetic::div_mod::lemma_fundamental_div_mod_converse;
use vstd::string::*;

verus! {

/// An edge together with the player who drew it.
pub type OwnedEdge = (PlayerId, Edge);

/// The largest supported board size: the edge count `2 * size * (size + 1)`
/// of a board of this size still fits the coordinate width `u16`.
pub const MAX_BOARD_SIZE: u16 = 180;

/// Why a draw request was rejected.
#[derive(Debug, Clone, Copy, PartialEq, Eq, Structural)]
pub enum DrawError {
    /// The two dots are not exactly one grid step apart.
    InvalidEdge,
    /// An endpoint lies outside the board's dot grid.
    OutOfBounds,
    /// An order-insensitive duplicate of this edge is already drawn.
    AlreadyDrawn,
}

impl DrawError {
    /// A printable description of the error.
    pub fn message(&self) -> (r: &'static str)
        ensures
            *self is InvalidEdge ==> r@ == "cannot draw invalid edge"@,
            *self is OutOfBounds ==> r@ == "edge does not fit in board"@,
            *self is AlreadyDrawn ==> r@ == "cannot redraw edge"@,
    {
        match self {
            DrawError::InvalidEdge => "cannot draw invalid edge",
            DrawError::OutOfBounds => "edge does not fit in board",
            DrawError::AlreadyDrawn => "cannot redraw edge",
        }
    }
}

/// Whether the dot lies within a grid of `dsize` dots per side.
pub open spec fn spec_dot_fits(d: Dot, dsize: int) -> bool {
    d.row < dsize && d.col < dsize
}

/// Whether both endpoints of the edge lie within a grid of `dsize`
/// dots per side.
pub open spec fn spec_edge_fits(e: Edge, dsize: int) -> bool {
    spec_dot_fits(e.0, dsize) && spec_dot_fits(e.1, dsize)
}

/// Whether an edge equal to `e` (order-insensitively) appears in `s`.
pub open spec fn spec_contains_edge(s: Seq<OwnedEdge>, e: Edge) -> bool {
    exists|i: int| 0 <= i < s.len() && spec_edge_eq(s[i].1, e)
}

/// What validating a draw of `e` against drawn edges `s` on a board of
/// the given size yields: the edge itself when it is geometrically
/// valid, fits and is not yet drawn, and otherwise the first applicable
/// error, checked in the order validity, bounds, duplication.
pub open spec fn spec_validate_edge(size: BoardSize, s: Seq<OwnedEdge>, e: Edge) -> Result<
    Edge,
    DrawError,
> {
    if !spec_edge_valid(e) {
        Result::Err(DrawError::InvalidEdge)
    } else if !spec_edge_fits(e, size + 1) {
        Result::Err(DrawError::OutOfBounds)
    } else if spec_contains_edge(s, e) {
        Result::Err(DrawError::AlreadyDrawn)
    } else {
        Result::Ok(e)
    }
}

/// What validating a whole batch yields: each entry is checked, in
/// order, against the drawn edges `s` extended with the batch entries
/// before it, and the first failure is reported. `Ok` means every entry
/// passed, in-batch duplicates included.
pub open spec fn spec_batch_result(
    size: BoardSize,
    s: Seq<OwnedEdge>,
    batch: Seq<OwnedEdge>,
) -> Result<(), DrawError>
    decreases batch.len(),
{
    if batch.len() == 0 {
        Result::Ok(())
    } else {
        match spec_validate_edge(size, s, batch[0].1) {
            Result::Err(err) => Result::Err(err),
            Result::Ok(_) => spec_batch_result(
                size,
                s.push(batch[0]),
                batch.subrange(1, batch.len() as int),
            ),
        }
    }
}

/// The owner of the first entry of `s` whose edge equals `e`, or `None`
/// if no entry matches.
pub open spec fn spec_edge_owner(s: Seq<OwnedEdge>, e: Edge) -> Option<PlayerId>
    decreases s.len(),
{
    if s.len() == 0 {
        Option::None
    } else if spec_edge_eq(s[0].1, e) {
        Option::Some(s[0].0)
    } else {
        spec_edge_owner(s.subrange(1, s.len() as int), e)
    }
}

/// The total number of distinct legal edges of a board with `size`
/// boxes per side.
pub open spec fn spec_edge_count(size: int) -> int {
    2 * size * (size + 1)
}

/// Every dot of a grid with `dsize` dots per side, in row-major order.
pub open spec fn spec_dot_list(dsize: int) -> Seq<Dot> {
    Seq::new(
        (dsize * dsize) as nat,
        |i: int| Dot { row: (i / dsize) as u16, col: (i % dsize) as u16 },
    )
}

/// Every box of a board with `size` boxes per side, keyed by its
/// upper-left dot, in row-major order.
pub open spec fn spec_box_list(size: int) -> Seq<DotBox> {
    Seq::new(
        (size * size) as nat,
        |i: int| DotBox(Dot { row: (i / size) as u16, col: (i % size) as u16 }),
    )
}

/// Whether `e` is one of the four boundary edges of the box `b`,
/// order-insensitively.
pub open spec fn spec_is_box_edge(e: Edge, b: DotBox) -> bool {
    exists|k: int| 0 <= k < 4 && spec_edge_eq(#[trigger] spec_box_edges(b)[k], e)
}

/// Whether all four boundary edges of the box `b` have been drawn.
pub open spec fn spec_box_complete(s: Seq<OwnedEdge>, b: DotBox) -> bool {
    forall|k: int| 0 <= k < 4 ==> spec_contains_edge(s, #[trigger] spec_box_edges(b)[k])
}

/// Who owns the box `b`: nobody while any of its four edges is
/// missing; once all four are drawn, whoever drew the chronologically
/// last of them — the completing move — regardless of who drew the
/// other three.
pub open spec fn spec_box_owner(s: Seq<OwnedEdge>, b: DotBox) -> Option<PlayerId>
    decreases s.len(),
{
    if s.len() == 0 || !spec_box_complete(s, b) {
        Option::None
    } else if spec_is_box_edge(s.last().1, b) {
        Option::Some(s.last().0)
    } else {
        spec_box_owner(s.drop_last(), b)
    }
}

/// The boxes of the board that `e` borders: for a vertical edge the
/// box to its left (unless the edge lies on the leftmost column) and
/// the box to its right (unless it lies on the rightmost one); for a
/// horizontal edge the boxes above and below it analogously; nothing
/// for an edge that is not a unit grid step.
pub open spec fn spec_assoc_boxes(size: int, e: Edge) -> Seq<DotBox> {
    let lo = spec_edge_lo(e);
    if spec_edge_is_vertical(e) {
        (if lo.col > 0 {
            seq![DotBox(Dot { row: lo.row, col: (lo.col - 1) as u16 })]
        } else {
            Seq::empty()
        }) + (if lo.col < size {
            seq![DotBox(lo)]
        } else {
            Seq::empty()
        })
    } else if spec_edge_is_horizontal(e) {
        (if lo.row > 0 {
            seq![DotBox(Dot { row: (lo.row - 1) as u16, col: lo.col })]
        } else {
            Seq::empty()
        }) + (if lo.row < size {
            seq![DotBox(lo)]
        } else {
            Seq::empty()
        })
    } else {
        Seq::empty()
    }
}

/// The drawn entries whose edge is a boundary edge of the box `b`, in
/// draw order.
pub open spec fn spec_box_owned(s: Seq<OwnedEdge>, b: DotBox) -> Seq<OwnedEdge>
    decreases s.len(),
{
    if s.len() == 0 {
        Seq::empty()
    } else {
        spec_box_owned(s.drop_last(), b) + if spec_is_box_edge(s.last().1, b) {
            seq![s.last()]
        } else {
            Seq::empty()
        }
    }
}

/// Whether drawing the currently free edge `e` would complete the box
/// `b`: `e` is a boundary edge of `b` and every other boundary edge is
/// already drawn.
pub open spec fn spec_claims_box(s: Seq<OwnedEdge>, b: DotBox, e: Edge) -> bool {
    &&& !spec_contains_edge(s, e)
    &&& spec_is_box_edge(e, b)
    &&& forall|k: int|
        0 <= k < 4 && !spec_edge_eq(#[trigger] spec_box_edges(b)[k], e) ==> spec_contains_edge(
            s,
            spec_box_edges(b)[k],
        )
}

/// Whether drawing the free edge `e` would immediately complete at
/// least one of the boxes it borders.
pub open spec fn spec_would_claim(s: Seq<OwnedEdge>, size: int, e: Edge) -> bool {
    exists|i: int|
        0 <= i < spec_assoc_boxes(size, e).len() && spec_claims_box(
            s,
            #[trigger] spec_assoc_boxes(size, e)[i],
            e,
        )
}

/// The drawn edges that touch the dot `d`, in draw order.
pub open spec fn spec_connected_edges(s: Seq<OwnedEdge>, d: Dot) -> Seq<Edge>
    decreases s.len(),
{
    if s.len() == 0 {
        Seq::empty()
    } else {
        spec_connected_edges(s.drop_last(), d) + if s.last().1.0 == d || s.last().1.1 == d {
            seq![s.last().1]
        } else {
            Seq::empty()
        }
    }
}

/// The other endpoints of the drawn edges that touch the dot `d`, in
/// draw order.
pub open spec fn spec_connected_dots(s: Seq<OwnedEdge>, d: Dot) -> Seq<Dot>
    decreases s.len(),
{
    if s.len() == 0 {
        Seq::empty()
    } else {
        spec_connected_dots(s.drop_last(), d) + if s.last().1.0 == d {
            seq![s.last().1.1]
        } else if s.last().1.1 == d {
            seq![s.last().1.0]
        } else {
            Seq::empty()
        }
    }
}

/// The boxes among `boxes` whose owner is `id`, in the order given.
pub open spec fn spec_owned_boxes(
    s: Seq<OwnedEdge>,
    boxes: Seq<DotBox>,
    id: PlayerId,
) -> Seq<DotBox>
    decreases boxes.len(),
{
    if boxes.len() == 0 {
        Seq::empty()
    } else {
        spec_owned_boxes(s, boxes.drop_last(), id) + if spec_box_owner(s, boxes.last())
            == Option::Some(id) {
            seq![boxes.last()]
        } else {
            Seq::empty()
        }
    }
}

/// The completed boxes of a board, partitioned by their owner.
/// Incomplete boxes appear in neither list.
#[derive(Clone, Debug)]
pub struct OwnerBoxes {
    pub one: Vec<DotBox>,
    pub two: Vec<DotBox>,
}

impl OwnerBoxes {
    /// The boxes owned by the given player.
    pub fn get(&self, id: PlayerId) -> (r: &Vec<DotBox>)
        ensures
            id is One ==> r == &self.one,
            id is Two ==> r == &self.two,
    {
        match id {
            PlayerId::One => &self.one,
            PlayerId::Two => &self.two,
        }
    }
}

/// The board: the grid size and the edges drawn so far, each with its
/// owner, in the exact order they were drawn.
#[derive(Clone, Debug)]
pub struct Board {
    size: BoardSize,
    owned_edges: Vec<OwnedEdge>,
}

impl Board {
    /// The board's size, for specification purposes.
    pub closed spec fn spec_size(&self) -> BoardSize {
        self.size
    }

    /// The drawn edges with their owners, in draw order, for
    /// specification purposes.
    pub closed spec fn spec_edges(&self) -> Seq<OwnedEdge> {
        self.owned_edges@
    }

    /// The board's invariant: the size is within the supported bound,
    /// every stored edge is geometrically valid and fits the grid, and
    /// no edge appears twice (order-insensitively).
    pub open spec fn wf(&self) -> bool {
        &&& self.spec_size() <= MAX_BOARD_SIZE
        &&& forall|i: int|
            0 <= i < self.spec_edges().len() ==> spec_edge_valid(
                #[trigger] self.spec_edges()[i].1,
            ) && spec_edge_fits(self.spec_edges()[i].1, self.spec_size() + 1)
        &&& forall|i: int, j: int|
            0 <= i < j < self.spec_edges().len() ==> !spec_edge_eq(
                #[trigger] self.spec_edges()[i].1,
                #[trigger] self.spec_edges()[j].1,
            )
    }

    /// Whether the board is full at the specification level: the number
    /// of drawn edges has reached the total number of legal edges.
    pub open spec fn spec_full(&self) -> bool {
        self.spec_edges().len() >= spec_edge_count(self.spec_size() as int)
    }

    /// Create an empty board with `size` boxes per side. Sizes beyond
    /// `MAX_BOARD_SIZE` are rejected outright — their edge count would
    /// overflow the coordinate width — rather than silently wrapped;
    /// callers enforce their own practical bounds before construction.
    pub fn new(size: BoardSize) -> (b: Board)
        requires
            size <= MAX_BOARD_SIZE,
        ensures
            b.wf(),
            b.spec_size() == size,
            b.spec_edges() == Seq::<OwnedEdge>::empty(),
    {
        let b = Board { size, owned_edges: Vec::new() };
        proof {
            assert(b.spec_edges() =~= Seq::<OwnedEdge>::empty());
        }
        b
    }

    /// The number of boxes per side.
    pub fn size(&self) -> (r: BoardSize)
        ensures
            r == self.spec_size(),
    {
        self.size
    }

    /// The number of dots in a row (equal to a column).
    pub fn dot_size(&self) -> (r: BoardSize)
        requires
            self.wf(),
        ensures
            r == self.spec_size() + 1,
    {
        self.size + 1
    }

    /// The number of dots in the whole board.
    pub fn dot_count(&self) -> (r: BoardSize)
        requires
            self.wf(),
        ensures
            r == (self.spec_size() + 1) * (self.spec_size() + 1),
    {
        let ds = self.dot_size();
        assert(ds * ds <= 181 * 181) by (nonlinear_arith)
            requires
                ds <= 181,
        ;
        ds * ds
    }

    /// The total number of distinct legal edges on this board.
    pub fn edge_count(&self) -> (r: BoardSize)
        requires
            self.wf(),
        ensures
            r == spec_edge_count(self.spec_size() as int),
    {
        let ds = self.dot_size();
        assert(2 * self.size * ds <= 2 * 180 * 181) by (nonlinear_arith)
            requires
                self.size <= 180,
                ds <= 181,
        ;
        2 * self.size * ds
    }

    /// Whether every legal edge has been drawn, so the game is over.
    /// On a well-formed board the number of drawn edges never exceeds
    /// the edge count, so fullness is exactly equality.
    pub fn is_full(&self) -> (r: bool)
        requires
            self.wf(),
        ensures
            r == self.spec_full(),
            r <==> self.spec_edges().len() == spec_edge_count(self.spec_size() as int),
    {
        proof {
            lemma_drawn_le_edge_count(self.spec_size() as int, self.spec_edges());
        }
        (self.edge_count() as usize) <= self.owned_edges.len()
    }

    /// The drawn edges with their owners, in the order they were drawn.
    pub fn iter_owned_edges(&self) -> (r: Vec<OwnedEdge>)
        ensures
            r@ == self.spec_edges(),
    {
        let mut r: Vec<OwnedEdge> = Vec::new();
        let mut i: usize = 0;
        while i < self.owned_edges.len()
            invariant
                0 <= i <= self.owned_edges@.len(),
                r@ == self.owned_edges@.subrange(0, i as int),
            decreases self.owned_edges@.len() - i,
        {
            r.push(self.owned_edges[i]);
            proof {
                assert(r@ =~= self.owned_edges@.subrange(0, i + 1 as int));
            }
            i = i + 1;
        }
        proof {
            assert(r@ =~= self.spec_edges());
        }
        r
    }

    /// Whether the dot fits in this board.
    pub fn dot_fits(&self, d: Dot) -> (r: bool)
        requires
            self.wf(),
        ensures
            r == spec_dot_fits(d, self.spec_size() + 1),
    {
        let ds = self.dot_size();
        d.row < ds && d.col < ds
    }

    /// Whether the edge fits in this board.
    pub fn edge_fits(&self, e: Edge) -> (r: bool)
        requires
            self.wf(),
        ensures
            r == spec_edge_fits(e, self.spec_size() + 1),
    {
        self.dot_fits(e.0) && self.dot_fits(e.1)
    }

    /// Whether no edge equal to `e` has been drawn.
    pub fn is_free(&self, e: Edge) -> (r: bool)
        ensures
            r == !spec_contains_edge(self.spec_edges(), e),
    {
        let mut i: usize = 0;
        while i < self.owned_edges.len()
            invariant
                0 <= i <= self.owned_edges@.len(),
                forall|j: int| 0 <= j < i ==> !spec_edge_eq(self.owned_edges@[j].1, e),
            decreases self.owned_edges@.len() - i,
        {
            if self.owned_edges[i].1 == e {
                return false;
            }
            i = i + 1;
        }
        true
    }

    /// Whether an edge equal to `e` has been drawn.
    pub fn is_drawn(&self, e: Edge) -> (r: bool)
        ensures
            r == spec_contains_edge(self.spec_edges(), e),
    {
        !self.is_free(e)
    }

    /// Check whether `e` may be drawn on the current board. Fails with
    /// `InvalidEdge` if the dots are not one step apart, `OutOfBounds`
    /// if an endpoint is off the grid, and `AlreadyDrawn` if an equal
    /// edge exists; otherwise returns the edge unchanged.
    pub fn validate_draw(&self, e: Edge) -> (r: Result<Edge, DrawError>)
        requires
            self.wf(),
        ensures
            r == self.spec_validate(e),
    {
        if !e.is_valid() {
            Result::Err(DrawError::InvalidEdge)
        } else if !self.edge_fits(e) {
            Result::Err(DrawError::OutOfBounds)
        } else if self.is_drawn(e) {
            Result::Err(DrawError::AlreadyDrawn)
        } else {
            Result::Ok(e)
        }
    }

    /// What `validate_draw` returns: the edge itself when it is valid,
    /// fits and is not yet drawn, and otherwise the first applicable
    /// error, checked in the order validity, bounds, duplication.
    pub open spec fn spec_validate(&self, e: Edge) -> Result<Edge, DrawError> {
        spec_validate_edge(self.spec_size(), self.spec_edges(), e)
    }

    /// Draw one edge for one owner. On success the pair is appended to
    /// the drawn edges; on failure the board is unchanged.
    pub fn draw(&mut self, owned_edge: OwnedEdge) -> (r: Result<Edge, DrawError>)
        requires
            old(self).wf(),
        ensures
            final(self).wf(),
            final(self).spec_size() == old(self).spec_size(),
            r == old(self).spec_validate(owned_edge.1),
            r is Ok ==> final(self).spec_edges() == old(self).spec_edges().push(owned_edge),
            r is Err ==> *final(self) == *old(self),
    {
        let validation = self.validate_draw(owned_edge.1);
        if validation.is_ok() {
            self.owned_edges.push(owned_edge);
        }
        validation
    }

    /// Draw a whole batch, all-or-nothing: every entry is validated, in
    /// order, against the board extended with the entries before it; if
    /// any entry fails, the board is left untouched and the first
    /// failure is returned. On success every entry is appended, in
    /// batch order, and the number of drawn edges is returned.
    pub fn draw_many(&mut self, owned_edges: Vec<OwnedEdge>) -> (r: Result<BoardSize, DrawError>)
        requires
            old(self).wf(),
            owned_edges@.len() <= BoardSize::MAX,
        ensures
            final(self).wf(),
            final(self).spec_size() == old(self).spec_size(),
            match r {
                Result::Ok(n) => {
                    &&& spec_batch_result(
                        old(self).spec_size(),
                        old(self).spec_edges(),
                        owned_edges@,
                    ) is Ok
                    &&& n == owned_edges@.len()
                    &&& final(self).spec_edges() == old(self).spec_edges() + owned_edges@
                },
                Result::Err(err) => {
                    &&& spec_batch_result(
                        old(self).spec_size(),
                        old(self).spec_edges(),
                        owned_edges@,
                    ) == Result::<(), DrawError>::Err(err)
                    &&& *final(self) == *old(self)
                },
            },
    {
        let ghost size = self.spec_size();
        let ghost s = self.spec_edges();
        let ghost batch = owned_edges@;
        proof {
            assert(s + batch.subrange(0, 0) =~= s);
            assert(batch.subrange(0, batch.len() as int) =~= batch);
        }
        let mut i: usize = 0;
        while i < owned_edges.len()
            invariant
                0 <= i <= batch.len(),
                self.wf(),
                *self == *old(self),
                size == self.spec_size(),
                s == self.spec_edges(),
                batch == owned_edges@,
                batch.len() <= BoardSize::MAX,
                spec_batch_result(size, s, batch) == spec_batch_result(
                    size,
                    s + batch.subrange(0, i as int),
                    batch.subrange(i as int, batch.len() as int),
                ),
                forall|k: int|
                    0 <= k < i ==> spec_validate_edge(
                        size,
                        s + batch.subrange(0, k),
                        (#[trigger] batch[k]).1,
                    ) is Ok,
            decreases batch.len() - i,
        {
            let e = owned_edges[i].1;
            let ghost prefix = batch.subrange(0, i as int);
            let ghost rest = batch.subrange(i as int, batch.len() as int);
            proof {
                assert(rest[0] == batch[i as int]);
            }
            // Validate against the board itself.
            let base_check = self.validate_draw(e);
            let verdict: Result<Edge, DrawError> = match base_check {
                Result::Err(err) => Result::Err(err),
                Result::Ok(_) => {
                    // Also reject duplicates of earlier batch entries.
                    let mut dup = false;
                    let mut k: usize = 0;
                    while k < i
                        invariant
                            0 <= k <= i <= batch.len(),
                            batch == owned_edges@,
                            e == batch[i as int].1,
                            prefix == batch.subrange(0, i as int),
                            dup == spec_contains_edge(prefix.subrange(0, k as int), e),
                        decreases i - k,
                    {
                        if owned_edges[k].1 == e {
                            dup = true;
                        }
                        proof {
                            let shorter = prefix.subrange(0, k as int);
                            let longer = prefix.subrange(0, k + 1 as int);
                            assert(longer[k as int] == batch[k as int]);
                            assert(shorter =~= longer.subrange(0, k as int));
                            assert(forall|m: int| 0 <= m < k ==> longer[m] == shorter[m]);
                        }
                        k = k + 1;
                    }
                    proof {
                        assert(prefix.subrange(0, i as int) =~= prefix);
                        lemma_contains_concat(s, prefix, e);
                    }
                    if dup {
                        Result::Err(DrawError::AlreadyDrawn)
                    } else {
                        Result::Ok(e)
                    }
                },
            };
            match verdict {
                Result::Err(err) => {
                    proof {
                        lemma_contains_concat(s, prefix, e);
                        assert(spec_validate_edge(size, s + prefix, e) == Result::<
                            Edge,
                            DrawError,
                        >::Err(err));
                        assert(spec_batch_result(size, s + prefix, rest) == Result::<
                            (),
                            DrawError,
                        >::Err(err));
                    }
                    return Result::Err(err);
                },
                Result::Ok(_) => {
                    proof {
                        lemma_contains_concat(s, prefix, e);
                        assert(spec_validate_edge(size, s + prefix, e) is Ok);
                        assert((s + prefix).push(batch[i as int]) =~= s + batch.subrange(
                            0,
                            i + 1 as int,
                        ));
                        assert(rest.subrange(1, rest.len() as int) =~= batch.subrange(
                            i + 1 as int,
                            batch.len() as int,
                        ));
                        assert(spec_batch_result(size, s + prefix, rest) == spec_batch_result(
                            size,
                            s + batch.subrange(0, i + 1 as int),
                            batch.subrange(i + 1 as int, batch.len() as int),
                        ));
                    }
                },
            }
            i = i + 1;
        }
        proof {
            assert(batch.subrange(0, batch.len() as int) =~= batch);
            assert(batch.subrange(batch.len() as int, batch.len() as int) =~= Seq::<
                OwnedEdge,
            >::empty());
            assert(spec_batch_result(size, s, batch) is Ok);
        }
        // Every entry validated: commit the whole batch.
        let count = owned_edges.len() as BoardSize;
        let mut j: usize = 0;
        while j < owned_edges.len()
            invariant
                0 <= j <= batch.len(),
                batch == owned_edges@,
                self.spec_size() == size,
                self.spec_edges() == s + batch.subrange(0, j as int),
                forall|k: int|
                    0 <= k < batch.len() ==> spec_validate_edge(
                        size,
                        s + batch.subrange(0, k),
                        (#[trigger] batch[k]).1,
                    ) is Ok,
                old(self).wf(),
                s == old(self).spec_edges(),
                size == old(self).spec_size(),
            decreases batch.len() - j,
        {
            self.owned_edges.push(owned_edges[j]);
            proof {
                assert(self.spec_edges() =~= s + batch.subrange(0, j + 1 as int));
            }
            j = j + 1;
        }
        proof {
            assert(batch.subrange(0, batch.len() as int) =~= batch);
            lemma_batch_preserves_wf(size, s, batch);
            assert(self.spec_edges() == s + batch);
        }
        Result::Ok(count)
    }

    /// The owner of the edge equal to `e` that was drawn first, or
    /// `None` if no equal edge has been drawn.
    pub fn edge_owner(&self, e: Edge) -> (r: Option<PlayerId>)
        ensures
            r == spec_edge_owner(self.spec_edges(), e),
    {
        let mut i: usize = 0;
        while i < self.owned_edges.len()
            invariant
                0 <= i <= self.owned_edges@.len(),
                forall|j: int| 0 <= j < i ==> !spec_edge_eq(self.owned_edges@[j].1, e),
            decreases self.owned_edges@.len() - i,
        {
            if self.owned_edges[i].1 == e {
                proof {
                    lemma_edge_owner_first(self.spec_edges(), e, i as int);
                }
                return Option::Some(self.owned_edges[i].0);
            }
            i = i + 1;
        }
        proof {
            lemma_edge_owner_none(self.spec_edges(), e);
        }
        Option::None
    }

    /// Partition every completed box of the board by its owner, in
    /// row-major box order. Boxes with no owner are excluded.
    pub fn owner_to_boxes(&self) -> (r: OwnerBoxes)
        requires
            self.wf(),
        ensures
            r.one@ == spec_owned_boxes(
                self.spec_edges(),
                spec_box_list(self.spec_size() as int),
                PlayerId::One,
            ),
            r.two@ == spec_owned_boxes(
                self.spec_edges(),
                spec_box_list(self.spec_size() as int),
                PlayerId::Two,
            ),
    {
        let ghost s = self.spec_edges();
        let boxes = self.iter_boxes();
        let mut one: Vec<DotBox> = Vec::new();
        let mut two: Vec<DotBox> = Vec::new();
        let mut i: usize = 0;
        while i < boxes.len()
            invariant
                s == self.spec_edges(),
                self.wf(),
                0 <= i <= boxes@.len(),
                boxes@ == spec_box_list(self.spec_size() as int),
                one@ == spec_owned_boxes(s, boxes@.subrange(0, i as int), PlayerId::One),
                two@ == spec_owned_boxes(s, boxes@.subrange(0, i as int), PlayerId::Two),
            decreases boxes@.len() - i,
        {
            let ghost prefix = boxes@.subrange(0, i as int);
            let ghost longer = boxes@.subrange(0, i + 1 as int);
            proof {
                assert(longer.drop_last() =~= prefix);
                assert(longer.last() == boxes@[i as int]);
            }
            let dot_box = boxes[i];
            match self.box_owner(dot_box.0) {
                Option::Some(PlayerId::One) => one.push(dot_box),
                Option::Some(PlayerId::Two) => two.push(dot_box),
                Option::None => {},
            }
            proof {
                assert(DotBox(boxes@[i as int].0) == boxes@[i as int]);
                assert(one@ =~= spec_owned_boxes(s, longer, PlayerId::One));
                assert(two@ =~= spec_owned_boxes(s, longer, PlayerId::Two));
            }
            i = i + 1;
        }
        proof {
            assert(boxes@.subrange(0, boxes@.len() as int) =~= boxes@);
        }
        OwnerBoxes { one, two }
    }

    /// How many completed boxes the given player owns.
    pub fn owned_boxes_count(&self, owner: PlayerId) -> (r: usize)
        requires
            self.wf(),
        ensures
            r == spec_owned_boxes(
                self.spec_edges(),
                spec_box_list(self.spec_size() as int),
                owner,
            ).len(),
    {
        let obs = self.owner_to_boxes();
        match owner {
            PlayerId::One => obs.one.len(),
            PlayerId::Two => obs.two.len(),
        }
    }

    /// The game's outcome: `NoneYet` while the board is not full; once
    /// full, the player owning more boxes wins with their count, and an
    /// equal split is a tie listing both players.
    pub fn winner(&self) -> (r: WinnerResult)
        requires
            self.wf(),
        ensures
            ({
                let c1 = spec_owned_boxes(
                    self.spec_edges(),
                    spec_box_list(self.spec_size() as int),
                    PlayerId::One,
                ).len();
                let c2 = spec_owned_boxes(
                    self.spec_edges(),
                    spec_box_list(self.spec_size() as int),
                    PlayerId::Two,
                ).len();
                &&& !self.spec_full() ==> r is NoneYet
                &&& self.spec_full() && c1 > c2 ==> r == WinnerResult::Winner(
                    PlayerId::One,
                    c1 as usize,
                )
                &&& self.spec_full() && c2 > c1 ==> r == WinnerResult::Winner(
                    PlayerId::Two,
                    c2 as usize,
                )
                &&& self.spec_full() && c1 == c2 ==> r is Tie && r->Tie_0@ =~= seq![
                    PlayerId::One,
                    PlayerId::Two,
                ] && r->Tie_1 == c1
            }),
    {
        if !self.is_full() {
            return WinnerResult::NoneYet;
        }
        let obs = self.owner_to_boxes();
        let c1 = obs.one.len();
        let c2 = obs.two.len();
        if c1 > c2 {
            WinnerResult::Winner(PlayerId::One, c1)
        } else if c2 > c1 {
            WinnerResult::Winner(PlayerId::Two, c2)
        } else {
            let mut ids: Vec<PlayerId> = Vec::new();
            ids.push(PlayerId::One);
            ids.push(PlayerId::Two);
            proof {
                assert(ids@ =~= seq![PlayerId::One, PlayerId::Two]);
            }
            WinnerResult::Tie(ids, c1)
        }
    }

    /// The box-drawing character for the dot `d`: its connection flags
    /// say in which directions a drawn edge leaves `d`, and its value
    /// is the matching glyph.
    pub fn choose_char(&self, d: Dot) -> (r: BoxChar)
        requires
            self.wf(),
        ensures
            r.up == (d.row > 0 && spec_contains_edge(
                self.spec_edges(),
                Edge(d, Dot { row: (d.row - 1) as u16, col: d.col }),
            )),
            r.right == (d.col < BoardSize::MAX && spec_contains_edge(
                self.spec_edges(),
                Edge(d, spec_dot_right(d)),
            )),
            r.down == (d.row < BoardSize::MAX && spec_contains_edge(
                self.spec_edges(),
                Edge(d, spec_dot_down(d)),
            )),
            r.left == (d.col > 0 && spec_contains_edge(
                self.spec_edges(),
                Edge(d, Dot { row: d.row, col: (d.col - 1) as u16 }),
            )),
            r.value == spec_box_char_value(r.up, r.right, r.down, r.left),
    {
        let ghost s = self.spec_edges();
        let ghost up_edge = Edge(d, Dot { row: (d.row - 1) as u16, col: d.col });
        let ghost right_edge = Edge(d, spec_dot_right(d));
        let ghost down_edge = Edge(d, spec_dot_down(d));
        let ghost left_edge = Edge(d, Dot { row: d.row, col: (d.col - 1) as u16 });
        let mut up = false;
        let mut right = false;
        let mut down = false;
        let mut left = false;
        let mut i: usize = 0;
        while i < self.owned_edges.len()
            invariant
                self.wf(),
                s == self.spec_edges(),
                0 <= i <= s.len(),
                up_edge == Edge(d, Dot { row: (d.row - 1) as u16, col: d.col }),
                right_edge == Edge(d, spec_dot_right(d)),
                down_edge == Edge(d, spec_dot_down(d)),
                left_edge == Edge(d, Dot { row: d.row, col: (d.col - 1) as u16 }),
                up == (d.row > 0 && spec_contains_edge(s.subrange(0, i as int), up_edge)),
                right == (d.col < BoardSize::MAX && spec_contains_edge(
                    s.subrange(0, i as int),
                    right_edge,
                )),
                down == (d.row < BoardSize::MAX && spec_contains_edge(
                    s.subrange(0, i as int),
                    down_edge,
                )),
                left == (d.col > 0 && spec_contains_edge(s.subrange(0, i as int), left_edge)),
            decreases s.len() - i,
        {
            let ghost prefix = s.subrange(0, i as int);
            let ghost longer = s.subrange(0, i + 1 as int);
            proof {
                assert(longer.drop_last() =~= prefix);
                assert(longer.last() == s[i as int]);
                assert(forall|m: int| 0 <= m < i ==> longer[m] == prefix[m]);
                // A match in the longer prefix is either the new entry
                // or a match in the shorter one.
                assert forall|probe: Edge|
                    #![trigger spec_contains_edge(longer, probe)]
                    spec_contains_edge(longer, probe) == (spec_contains_edge(prefix, probe)
                        || spec_edge_eq(s[i as int].1, probe)) by {
                    if spec_contains_edge(longer, probe) {
                        let m = choose|m: int|
                            0 <= m < longer.len() && spec_edge_eq(longer[m].1, probe);
                        if m < i {
                            assert(spec_contains_edge(prefix, probe));
                        }
                    } else {
                        if spec_contains_edge(prefix, probe) {
                            let m = choose|m: int|
                                0 <= m < prefix.len() && spec_edge_eq(prefix[m].1, probe);
                            assert(longer[m] == prefix[m]);
                            assert(false);
                        }
                    }
                }
            }
            let e = self.owned_edges[i].1;
            if e.has_dot(d) {
                let other = if e.0 == d {
                    e.1
                } else {
                    e.0
                };
                proof {
                    assert(spec_edge_valid(s[i as int].1));
                    assert(e.0 == d && e.1 == other || e.0 == other && e.1 == d);
                }
                // Only one direction can apply: dots never connect
                // diagonally.
                if other.row < d.row {
                    up = true;
                    proof {
                        assert(other == up_edge.1);
                        assert(spec_edge_eq(s[i as int].1, up_edge));
                    }
                } else if d.col < other.col {
                    right = true;
                    proof {
                        assert(other == right_edge.1);
                        assert(spec_edge_eq(s[i as int].1, right_edge));
                    }
                } else if d.row < other.row {
                    down = true;
                    proof {
                        assert(other == down_edge.1);
                        assert(spec_edge_eq(s[i as int].1, down_edge));
                    }
                } else if other.col < d.col {
                    left = true;
                    proof {
                        assert(other == left_edge.1);
                        assert(spec_edge_eq(s[i as int].1, left_edge));
                    }
                }
                proof {
                    // An entry equal to a direction edge has `d` on one
                    // side and that direction's neighbour on the other,
                    // so the matching branch fired.
                    if d.row > 0 && spec_edge_eq(s[i as int].1, up_edge) {
                        assert(other == up_edge.1);
                        assert(up);
                    }
                    if d.col < BoardSize::MAX && spec_edge_eq(s[i as int].1, right_edge) {
                        assert(other == right_edge.1);
                        assert(right);
                    }
                    if d.row < BoardSize::MAX && spec_edge_eq(s[i as int].1, down_edge) {
                        assert(other == down_edge.1);
                        assert(down);
                    }
                    if d.col > 0 && spec_edge_eq(s[i as int].1, left_edge) {
                        assert(other == left_edge.1);
                        assert(left);
                    }
                }
            } else {
                proof {
                    if spec_edge_eq(s[i as int].1, up_edge) {
                        assert(false);
                    }
                    if spec_edge_eq(s[i as int].1, right_edge) {
                        assert(false);
                    }
                    if spec_edge_eq(s[i as int].1, down_edge) {
                        assert(false);
                    }
                    if spec_edge_eq(s[i as int].1, left_edge) {
                        assert(false);
                    }
                }
            }
            i = i + 1;
        }
        proof {
            assert(s.subrange(0, s.len() as int) =~= s);
        }
        lookup(BoxChar { value: ' ', up, right, down, left })
    }

    /// The character marking the owner of the box at `d`: the player's
    /// digit once the box is complete, a space otherwise.
    pub fn choose_owner_char(&self, d: Dot) -> (r: char)
        requires
            self.wf(),
        ensures
            r == (match spec_box_owner(self.spec_edges(), DotBox(d)) {
                Option::Some(PlayerId::One) => '1',
                Option::Some(PlayerId::Two) => '2',
                Option::None => ' ',
            }),
    {
        match self.box_owner(d) {
            Option::Some(PlayerId::One) => '1',
            Option::Some(PlayerId::Two) => '2',
            Option::None => ' ',
        }
    }

    /// Render the board as text: a column-guide header, then for each
    /// dot row a line of dots and horizontal edges and a line of
    /// vertical edges and box owners, with row guides on the left.
    /// Every line is three characters per dot plus a three-wide guide
    /// column; the exact glyphs are display only and are pinned by
    /// tests rather than by a specification.
    pub fn to_string(&self) -> (r: String)
        requires
            self.wf(),
        ensures
            r@.len() == 2 * (self.spec_size() + 1) * (3 * (self.spec_size() + 1) + 4) - 1,
    {
        let dot_size = self.dot_size();
        let ghost line_len = 3 + 3 * (dot_size as int);
        let mut grid: Vec<String> = Vec::new();

        // Header guide row.
        let mut row_string = String::from_str("   ");
        proof {
            reveal_strlit("   ");
        }
        let mut col: u16 = 0;
        while col < dot_size
            invariant
                self.wf(),
                dot_size == self.spec_size() + 1,
                0 <= col <= dot_size,
                row_string@.len() == 3 + 3 * col,
            decreases dot_size - col,
        {
            let num = u16_to_string(col);
            proof {
                crate::utils::lemma_dec_len(col as nat);
            }
            let padded = pad_end(num.as_str(), " ", 3);
            row_string.append(padded.as_str());
            col = col + 1;
        }
        grid.push(row_string);

        let mut row: u16 = 0;
        while row < dot_size
            invariant
                self.wf(),
                dot_size == self.spec_size() + 1,
                line_len == 3 + 3 * (dot_size as int),
                0 <= row <= dot_size,
                grid@.len() == 1 + 2 * row,
                forall|k: int| 0 <= k < grid@.len() ==> (#[trigger] grid@[k])@.len() == line_len,
            decreases dot_size - row,
        {
            // Left guide column.
            let num = u16_to_string(row);
            proof {
                crate::utils::lemma_dec_len(row as nat);
                crate::utils::lemma_pad_out_len(num@, " "@, 3);
                crate::utils::lemma_pad_out_len(""@, " "@, 3);
                reveal_strlit("");
            }
            let mut dot_row_string = pad_out(num.as_str(), " ", 3);
            let mut fill_row_string = pad_out("", " ", 3);

            let mut col2: u16 = 0;
            while col2 < dot_size
                invariant
                    self.wf(),
                    dot_size == self.spec_size() + 1,
                    0 <= col2 <= dot_size,
                    0 <= row < dot_size,
                    dot_row_string@.len() == 3 + 3 * col2,
                    fill_row_string@.len() == 3 + 3 * col2,
                decreases dot_size - col2,
            {
                let cell_dot = dot(row, col2);
                // Pick the appropriate box intersection.
                let entry = self.choose_char(cell_dot);

                // Extend right to account for horizontal space.
                let spacer_h = if entry.right {
                    LINE_H
                } else {
                    ' '
                };
                let value_str = char_to_string(entry.value);
                let spacer_str = char_to_string(spacer_h);
                let padded = pad_end(value_str.as_str(), spacer_str.as_str(), 3);
                dot_row_string.append(padded.as_str());

                // Extend down for the left edge of a filled box, and
                // fill in the owner symbol for an owned box.
                let spacer_v = if entry.down {
                    LINE_V
                } else {
                    ' '
                };
                let owner_char = self.choose_owner_char(cell_dot);
                let mut cell = String::new();
                crate::utils::push_char(&mut cell, spacer_v);
                crate::utils::push_char(&mut cell, owner_char);
                let padded_cell = pad_end(cell.as_str(), " ", 3);
                fill_row_string.append(padded_cell.as_str());

                col2 = col2 + 1;
            }
            grid.push(dot_row_string);
            grid.push(fill_row_string);
            row = row + 1;
        }
        // Dropping the extra trailing fill row is easier than special
        // casing the last row.
        grid.pop();
        proof {
            assert(grid@.len() == 2 * (dot_size as int));
        }

        let mut out = String::new();
        let mut i: usize = 0;
        while i < grid.len()
            invariant
                grid@.len() == 2 * (dot_size as int),
                line_len == 3 + 3 * (dot_size as int),
                dot_size >= 1,
                forall|k: int| 0 <= k < grid@.len() ==> (#[trigger] grid@[k])@.len() == line_len,
                0 <= i <= grid@.len(),
                out@.len() == if i == 0 {
                    0int
                } else {
                    i * (line_len + 1) - 1
                },
            decreases grid@.len() - i,
        {
            if i > 0 {
                crate::utils::push_char(&mut out, '\n');
            }
            let line = &grid[i];
            out.append(line.as_str());
            proof {
                assert((i + 1) * (line_len + 1) == i * (line_len + 1) + (line_len + 1))
                    by (nonlinear_arith);
            }
            i = i + 1;
        }
        proof {
            let ds = dot_size as int;
            assert(out@.len() == 2 * ds * (line_len + 1) - 1) by (nonlinear_arith)
                requires
                    out@.len() == (2 * ds) * (line_len + 1) - 1,
            ;
            assert(2 * ds * (line_len + 1) == 2 * ds * (3 * ds + 4)) by (nonlinear_arith)
                requires
                    line_len == 3 + 3 * ds,
            ;
        }
        out
    }

    /// An owned copy of the board: same size, same drawn edges. The
    /// turn driver hands such snapshots to players so that no player
    /// can mutate the authoritative board.
    pub fn snapshot(&self) -> (b: Board)
        ensures
            b.spec_size() == self.spec_size(),
            b.spec_edges() == self.spec_edges(),
    {
        let edges = self.iter_owned_edges();
        Board { size: self.size, owned_edges: edges }
    }

    /// Every dot of the board, in row-major order.
    pub fn iter_dots(&self) -> (r: Vec<Dot>)
        requires
            self.wf(),
        ensures
            r@ == spec_dot_list(self.spec_size() + 1),
            r@.len() == (self.spec_size() + 1) * (self.spec_size() + 1),
    {
        let ds = self.dot_size();
        let ghost d = ds as int;
        proof {
            assert(d * d >= 0) by (nonlinear_arith)
                requires
                    d >= 1,
            ;
        }
        let mut r: Vec<Dot> = Vec::new();
        let mut row: u16 = 0;
        while row < ds
            invariant
                1 <= ds <= 181,
                d == ds as int,
                0 <= row <= ds,
                r@.len() == row * d,
                forall|i: int| 0 <= i < r@.len() ==> r@[i] == spec_dot_list(d)[i],
                r@.len() <= d * d,
            decreases ds - row,
        {
            let mut col: u16 = 0;
            while col < ds
                invariant
                    1 <= ds <= 181,
                    d == ds as int,
                    0 <= row < ds,
                    0 <= col <= ds,
                    r@.len() == row * d + col,
                    forall|i: int| 0 <= i < r@.len() ==> r@[i] == spec_dot_list(d)[i],
                decreases ds - col,
            {
                proof {
                    let idx = r@.len() as int;
                    lemma_fundamental_div_mod_converse(idx, d, row as int, col as int);
                    assert(idx < d * d) by (nonlinear_arith)
                        requires
                            idx == row * d + col,
                            0 <= row < d,
                            0 <= col < d,
                    ;
                }
                r.push(dot(row, col));
                col = col + 1;
            }
            proof {
                assert((row + 1) * d == row * d + d) by (nonlinear_arith);
                assert((row + 1) * d <= d * d) by (nonlinear_arith)
                    requires
                        row + 1 <= d,
                        d >= 0,
                ;
            }
            row = row + 1;
        }
        proof {
            assert(r@ =~= spec_dot_list(d));
        }
        r
    }

    /// Every legal edge of the board, exactly once, in the canonical
    /// scan order: dots row-major, each dot emitting first its
    /// rightward edge, then its downward edge. Every produced edge is
    /// valid and fits; the count equals `edge_count`; no edge repeats,
    /// even order-insensitively.
    pub fn iter_edges(&self) -> (r: Vec<Edge>)
        requires
            self.wf(),
        ensures
            r@ == spec_edge_list(self.spec_size() as int),
            r@.len() == spec_edge_count(self.spec_size() as int),
            forall|i: int|
                0 <= i < r@.len() ==> spec_edge_valid(#[trigger] r@[i]) && spec_edge_fits(
                    r@[i],
                    self.spec_size() + 1,
                ),
            forall|i: int, j: int|
                0 <= i < j < r@.len() ==> !spec_edge_eq(#[trigger] r@[i], #[trigger] r@[j]),
    {
        let size = self.size;
        let ds = self.dot_size();
        let ghost sz = size as int;
        let ghost w = spec_row_width(sz);
        let ghost n = spec_edge_count(sz);
        proof {
            assert(n == sz * w + sz) by (nonlinear_arith)
                requires
                    w == 2 * sz + 1,
                    n == 2 * sz * (sz + 1),
            ;
        }
        let mut r: Vec<Edge> = Vec::new();
        let mut row: u16 = 0;
        while row < ds
            invariant
                size <= 180,
                ds == size + 1,
                sz == size as int,
                w == spec_row_width(sz),
                n == spec_edge_count(sz),
                n == sz * w + sz,
                0 <= row <= ds,
                r@.len() == if row <= sz { (row as int) * w } else { n },
                forall|i: int| 0 <= i < r@.len() ==> r@[i] == spec_edge_at(sz, i),
            decreases ds - row,
        {
            let ghost row_base = (row as int) * w;
            let mut col: u16 = 0;
            while col < ds
                invariant
                    size <= 180,
                    ds == size + 1,
                    sz == size as int,
                    w == spec_row_width(sz),
                    n == spec_edge_count(sz),
                    n == sz * w + sz,
                    0 <= row < ds,
                    0 <= col <= ds,
                    row_base == (row as int) * w,
                    r@.len() == row_base + if row < size {
                        if col <= size {
                            2 * (col as int)
                        } else {
                            w
                        }
                    } else {
                        if col <= size {
                            col as int
                        } else {
                            sz
                        }
                    },
                    forall|i: int| 0 <= i < r@.len() ==> r@[i] == spec_edge_at(sz, i),
                decreases ds - col,
            {
                if col < size {
                    let e = Edge(dot(row, col), dot(row, col + 1));
                    proof {
                        let idx = r@.len() as int;
                        if row < size {
                            assert(idx == row_base + 2 * (col as int));
                            lemma_fundamental_div_mod_converse(
                                idx,
                                w,
                                row as int,
                                2 * (col as int),
                            );
                            lemma_fundamental_div_mod_converse(
                                2 * (col as int),
                                2,
                                col as int,
                                0,
                            );
                            assert(spec_edge_at(sz, idx) == e);
                        } else {
                            assert(idx == (sz * w) + (col as int));
                            lemma_fundamental_div_mod_converse(idx, w, sz, col as int);
                            assert(spec_edge_at(sz, idx) == e);
                        }
                    }
                    r.push(e);
                }
                if row < size {
                    let e = Edge(dot(row, col), dot(row + 1, col));
                    proof {
                        let idx = r@.len() as int;
                        if col < size {
                            assert(idx == row_base + 2 * (col as int) + 1);
                            lemma_fundamental_div_mod_converse(
                                idx,
                                w,
                                row as int,
                                2 * (col as int) + 1,
                            );
                            lemma_fundamental_div_mod_converse(
                                2 * (col as int) + 1,
                                2,
                                col as int,
                                1,
                            );
                            assert(spec_edge_at(sz, idx) == e);
                        } else {
                            assert(idx == row_base + 2 * sz);
                            lemma_fundamental_div_mod_converse(idx, w, row as int, 2 * sz);
                            assert(spec_edge_at(sz, idx) == e);
                        }
                    }
                    r.push(e);
                }
                col = col + 1;
            }
            proof {
                if row < size {
                    assert(((row + 1) as int) * w == (row as int) * w + w) by (nonlinear_arith);
                }
            }
            row = row + 1;
        }
        proof {
            assert(r@ =~= spec_edge_list(sz));
            assert forall|i: int|
                0 <= i < r@.len() implies spec_edge_valid(#[trigger] r@[i]) && spec_edge_fits(
                r@[i],
                sz + 1,
            ) by {
                lemma_edge_at_props(sz, i);
            }
            assert forall|i: int, j: int| 0 <= i < j < r@.len() implies !spec_edge_eq(
                #[trigger] r@[i],
                #[trigger] r@[j],
            ) by {
                lemma_edge_list_distinct(sz, i, j);
            }
        }
        r
    }

    /// Every box of the board, in row-major order of upper-left dots.
    pub fn iter_boxes(&self) -> (r: Vec<DotBox>)
        requires
            self.wf(),
        ensures
            r@ == spec_box_list(self.spec_size() as int),
            r@.len() == self.spec_size() * self.spec_size(),
    {
        let size = self.size;
        let ghost sz = size as int;
        proof {
            assert(sz * sz >= 0) by (nonlinear_arith)
                requires
                    sz >= 0,
            ;
        }
        let mut r: Vec<DotBox> = Vec::new();
        let mut row: u16 = 0;
        while row < size
            invariant
                size <= 180,
                sz == size as int,
                0 <= row <= size,
                r@.len() == row * sz,
                forall|i: int| 0 <= i < r@.len() ==> r@[i] == spec_box_list(sz)[i],
                r@.len() <= sz * sz,
            decreases size - row,
        {
            let mut col: u16 = 0;
            while col < size
                invariant
                    size <= 180,
                    sz == size as int,
                    0 <= row < size,
                    0 <= col <= size,
                    r@.len() == row * sz + col,
                    forall|i: int| 0 <= i < r@.len() ==> r@[i] == spec_box_list(sz)[i],
                decreases size - col,
            {
                proof {
                    let idx = r@.len() as int;
                    lemma_fundamental_div_mod_converse(idx, sz, row as int, col as int);
                    assert(idx < sz * sz) by (nonlinear_arith)
                        requires
                            idx == row * sz + col,
                            0 <= row < sz,
                            0 <= col < sz,
                    ;
                }
                r.push(DotBox(dot(row, col)));
                col = col + 1;
            }
            proof {
                assert((row + 1) * sz == row * sz + sz) by (nonlinear_arith);
                assert((row + 1) * sz <= sz * sz) by (nonlinear_arith)
                    requires
                        row + 1 <= sz,
                        sz >= 0,
                ;
            }
            row = row + 1;
        }
        proof {
            assert(r@ =~= spec_box_list(sz));
        }
        r
    }

    /// The boxes of this board that `e` borders: two for an interior
    /// edge, one for an edge on the outer boundary, none for an edge
    /// that is not a unit grid step. Every returned box has coordinates
    /// strictly below the coordinate maximum, so its edges can be
    /// derived safely.
    pub fn associated_boxes(&self, e: Edge) -> (r: Vec<DotBox>)
        requires
            self.wf(),
        ensures
            r@ == spec_assoc_boxes(self.spec_size() as int, e),
            forall|i: int|
                0 <= i < r@.len() ==> (#[trigger] r@[i]).0.row < BoardSize::MAX && r@[i].0.col
                    < BoardSize::MAX,
            spec_edge_valid(e) && spec_edge_fits(e, self.spec_size() + 1) ==> forall|i: int|
                0 <= i < r@.len() ==> (#[trigger] r@[i]).0.row < self.spec_size() && r@[i].0.col
                    < self.spec_size(),
    {
        let a = e.0;
        let b = e.1;
        let lo = if a.row < b.row || (a.row == b.row && a.col <= b.col) {
            a
        } else {
            b
        };
        let vertical = a.col == b.col && (if a.row >= b.row {
            a.row - b.row
        } else {
            b.row - a.row
        }) == 1;
        let horizontal = a.row == b.row && (if a.col >= b.col {
            a.col - b.col
        } else {
            b.col - a.col
        }) == 1;
        let mut r: Vec<DotBox> = Vec::new();
        if vertical {
            if lo.col > 0 {
                r.push(DotBox(dot(lo.row, lo.col - 1)));
            }
            if lo.col < self.size {
                r.push(DotBox(dot(lo.row, lo.col)));
            }
        } else if horizontal {
            if lo.row > 0 {
                r.push(DotBox(dot(lo.row - 1, lo.col)));
            }
            if lo.row < self.size {
                r.push(DotBox(dot(lo.row, lo.col)));
            }
        }
        proof {
            assert(r@ =~= spec_assoc_boxes(self.spec_size() as int, e));
        }
        r
    }

    /// The drawn entries that lie on the boundary of the given box, in
    /// draw order.
    pub fn box_owned_edges(&self, dot_box: DotBox) -> (r: Vec<OwnedEdge>)
        requires
            dot_box.0.row < BoardSize::MAX,
            dot_box.0.col < BoardSize::MAX,
        ensures
            r@ == spec_box_owned(self.spec_edges(), dot_box),
    {
        let ghost s = self.spec_edges();
        let box_edges = dot_box.edges();
        let mut r: Vec<OwnedEdge> = Vec::new();
        let mut i: usize = 0;
        while i < self.owned_edges.len()
            invariant
                s == self.spec_edges(),
                0 <= i <= s.len(),
                box_edges@ == spec_box_edges(dot_box),
                r@ == spec_box_owned(s.subrange(0, i as int), dot_box),
            decreases s.len() - i,
        {
            let ghost prefix = s.subrange(0, i as int);
            let ghost longer = s.subrange(0, i + 1 as int);
            proof {
                assert(longer.drop_last() =~= prefix);
                assert(longer.last() == s[i as int]);
            }
            let oe = self.owned_edges[i];
            let hit = oe.1 == box_edges[0] || oe.1 == box_edges[1] || oe.1 == box_edges[2]
                || oe.1 == box_edges[3];
            proof {
                if !hit {
                    assert forall|k: int| 0 <= k < 4 implies !spec_edge_eq(
                        #[trigger] spec_box_edges(dot_box)[k],
                        s[i as int].1,
                    ) by {
                        assert(!spec_edge_eq(s[i as int].1, spec_box_edges(dot_box)[0]));
                        assert(!spec_edge_eq(s[i as int].1, spec_box_edges(dot_box)[1]));
                        assert(!spec_edge_eq(s[i as int].1, spec_box_edges(dot_box)[2]));
                        assert(!spec_edge_eq(s[i as int].1, spec_box_edges(dot_box)[3]));
                    }
                    assert(!spec_is_box_edge(s[i as int].1, dot_box));
                }
            }
            if hit {
                r.push(oe);
                proof {
                    assert(spec_is_box_edge(s[i as int].1, dot_box));
                    assert(r@ =~= spec_box_owned(longer, dot_box));
                }
            } else {
                proof {
                    assert(r@ =~= spec_box_owned(longer, dot_box));
                }
            }
            i = i + 1;
        }
        proof {
            assert(s.subrange(0, s.len() as int) =~= s);
        }
        r
    }

    /// Whether drawing the currently free edge `e` would immediately
    /// complete at least one of the boxes it borders: that box already
    /// has its other three boundary edges drawn.
    pub fn would_claim_box(&self, e: Edge) -> (r: bool)
        requires
            self.wf(),
        ensures
            r == spec_would_claim(self.spec_edges(), self.spec_size() as int, e),
    {
        let ghost s = self.spec_edges();
        let ghost sz = self.spec_size() as int;
        if self.is_drawn(e) {
            proof {
                assert forall|i: int| 0 <= i < spec_assoc_boxes(sz, e).len() implies
                    !spec_claims_box(s, #[trigger] spec_assoc_boxes(sz, e)[i], e) by {}
            }
            return false;
        }
        let boxes = self.associated_boxes(e);
        let mut bi: usize = 0;
        while bi < boxes.len()
            invariant
                s == self.spec_edges(),
                sz == self.spec_size() as int,
                self.wf(),
                0 <= bi <= boxes@.len(),
                boxes@ == spec_assoc_boxes(sz, e),
                forall|i: int|
                    0 <= i < boxes@.len() ==> (#[trigger] boxes@[i]).0.row < BoardSize::MAX
                        && boxes@[i].0.col < BoardSize::MAX,
                !spec_contains_edge(s, e),
                forall|i: int| 0 <= i < bi ==> !spec_claims_box(s, #[trigger] boxes@[i], e),
            decreases boxes@.len() - bi,
        {
            let dot_box = boxes[bi];
            let box_edges = dot_box.edges();
            let mut has_own = false;
            let mut others_drawn = true;
            if box_edges[0] == e {
                has_own = true;
            } else if self.is_free(box_edges[0]) {
                others_drawn = false;
            }
            if box_edges[1] == e {
                has_own = true;
            } else if self.is_free(box_edges[1]) {
                others_drawn = false;
            }
            if box_edges[2] == e {
                has_own = true;
            } else if self.is_free(box_edges[2]) {
                others_drawn = false;
            }
            if box_edges[3] == e {
                has_own = true;
            } else if self.is_free(box_edges[3]) {
                others_drawn = false;
            }
            if has_own && others_drawn {
                proof {
                    assert(spec_is_box_edge(e, dot_box)) by {
                        if spec_edge_eq(spec_box_edges(dot_box)[0], e) {
                        } else if spec_edge_eq(spec_box_edges(dot_box)[1], e) {
                        } else if spec_edge_eq(spec_box_edges(dot_box)[2], e) {
                        } else {
                            assert(spec_edge_eq(spec_box_edges(dot_box)[3], e));
                        }
                    }
                    assert forall|k: int|
                        0 <= k < 4 && !spec_edge_eq(#[trigger] spec_box_edges(dot_box)[k], e)
                        implies spec_contains_edge(s, spec_box_edges(dot_box)[k]) by {}
                    assert(spec_claims_box(s, dot_box, e));
                }
                return true;
            }
            proof {
                if spec_claims_box(s, dot_box, e) {
                    assert(has_own) by {
                        let k = choose|k: int|
                            0 <= k < 4 && spec_edge_eq(spec_box_edges(dot_box)[k], e);
                        assert(spec_edge_eq(spec_box_edges(dot_box)[k], e));
                    }
                    assert(others_drawn);
                    assert(false);
                }
            }
            bi = bi + 1;
        }
        false
    }

    /// The drawn edges that touch the dot `d`, in draw order.
    pub fn edges_connected_to_dot(&self, d: Dot) -> (r: Vec<Edge>)
        ensures
            r@ == spec_connected_edges(self.spec_edges(), d),
    {
        let ghost s = self.spec_edges();
        let mut r: Vec<Edge> = Vec::new();
        let mut i: usize = 0;
        while i < self.owned_edges.len()
            invariant
                s == self.spec_edges(),
                0 <= i <= s.len(),
                r@ == spec_connected_edges(s.subrange(0, i as int), d),
            decreases s.len() - i,
        {
            let ghost prefix = s.subrange(0, i as int);
            let ghost longer = s.subrange(0, i + 1 as int);
            proof {
                assert(longer.drop_last() =~= prefix);
                assert(longer.last() == s[i as int]);
            }
            let e = self.owned_edges[i].1;
            if e.has_dot(d) {
                r.push(e);
            }
            proof {
                assert(r@ =~= spec_connected_edges(longer, d));
            }
            i = i + 1;
        }
        proof {
            assert(s.subrange(0, s.len() as int) =~= s);
        }
        r
    }

    /// The dots connected to `d` by a drawn edge: the other endpoint of
    /// each drawn edge that touches `d`, in draw order.
    pub fn dots_connected_to_dot(&self, d: Dot) -> (r: Vec<Dot>)
        ensures
            r@ == spec_connected_dots(self.spec_edges(), d),
    {
        let ghost s = self.spec_edges();
        let mut r: Vec<Dot> = Vec::new();
        let mut i: usize = 0;
        while i < self.owned_edges.len()
            invariant
                s == self.spec_edges(),
                0 <= i <= s.len(),
                r@ == spec_connected_dots(s.subrange(0, i as int), d),
            decreases s.len() - i,
        {
            let ghost prefix = s.subrange(0, i as int);
            let ghost longer = s.subrange(0, i + 1 as int);
            proof {
                assert(longer.drop_last() =~= prefix);
                assert(longer.last() == s[i as int]);
            }
            let e = self.owned_edges[i].1;
            if e.0 == d {
                r.push(e.1);
            } else if e.1 == d {
                r.push(e.0);
            }
            proof {
                assert(r@ =~= spec_connected_dots(longer, d));
            }
            i = i + 1;
        }
        proof {
            assert(s.subrange(0, s.len() as int) =~= s);
        }
        r
    }

    /// Who owns a box: `None` unless the dot names a box whose four
    /// boundary edges are all drawn; once complete, the owner is
    /// whoever drew the chronologically last of those four edges.
    pub fn box_owner(&self, corner: Dot) -> (r: Option<PlayerId>)
        requires
            self.wf(),
        ensures
            r == spec_box_owner(self.spec_edges(), DotBox(corner)),
    {
        if !(corner.row < self.size && corner.col < self.size) {
            proof {
                lemma_box_owner_out_of_range(
                    self.spec_size() as int,
                    self.spec_edges(),
                    DotBox(corner),
                );
            }
            return Option::None;
        }
        let dot_box = DotBox(corner);
        let ghost s = self.spec_edges();
        let box_edges = dot_box.edges();
        let mut f0 = false;
        let mut f1 = false;
        let mut f2 = false;
        let mut f3 = false;
        let mut latest: Option<PlayerId> = Option::None;
        let ghost mut latest_at: int = 0;
        let mut i: usize = 0;
        while i < self.owned_edges.len()
            invariant
                s == self.spec_edges(),
                0 <= i <= s.len(),
                box_edges@ == spec_box_edges(dot_box),
                f0 == spec_contains_edge(s.subrange(0, i as int), spec_box_edges(dot_box)[0]),
                f1 == spec_contains_edge(s.subrange(0, i as int), spec_box_edges(dot_box)[1]),
                f2 == spec_contains_edge(s.subrange(0, i as int), spec_box_edges(dot_box)[2]),
                f3 == spec_contains_edge(s.subrange(0, i as int), spec_box_edges(dot_box)[3]),
                match latest {
                    Option::None => forall|j: int|
                        0 <= j < i ==> !spec_is_box_edge(s[j].1, dot_box),
                    Option::Some(p) => {
                        &&& 0 <= latest_at < i
                        &&& spec_is_box_edge(s[latest_at].1, dot_box)
                        &&& p == s[latest_at].0
                        &&& forall|j: int|
                            latest_at < j < i ==> !spec_is_box_edge(s[j].1, dot_box)
                    },
                },
            decreases s.len() - i,
        {
            let ghost prefix = s.subrange(0, i as int);
            let ghost longer = s.subrange(0, i + 1 as int);
            proof {
                assert(longer.drop_last() =~= prefix);
                assert(longer.last() == s[i as int]);
                assert(forall|m: int| 0 <= m < i ==> longer[m] == prefix[m]);
            }
            let oe = self.owned_edges[i];
            let mut hit = false;
            if oe.1 == box_edges[0] {
                f0 = true;
                hit = true;
            }
            if oe.1 == box_edges[1] {
                f1 = true;
                hit = true;
            }
            if oe.1 == box_edges[2] {
                f2 = true;
                hit = true;
            }
            if oe.1 == box_edges[3] {
                f3 = true;
                hit = true;
            }
            proof {
                // A match in the longer prefix is either the new entry
                // or a match in the shorter one.
                assert forall|k: int| 0 <= k < 4 implies spec_contains_edge(
                    longer,
                    spec_box_edges(dot_box)[k],
                ) == (spec_contains_edge(prefix, spec_box_edges(dot_box)[k]) || spec_edge_eq(
                    s[i as int].1,
                    spec_box_edges(dot_box)[k],
                )) by {
                    if spec_contains_edge(longer, spec_box_edges(dot_box)[k]) {
                        let m = choose|m: int|
                            0 <= m < longer.len() && spec_edge_eq(
                                longer[m].1,
                                spec_box_edges(dot_box)[k],
                            );
                        if m < i {
                            assert(prefix[m] == longer[m]);
                            assert(spec_contains_edge(prefix, spec_box_edges(dot_box)[k]));
                        }
                    } else {
                        assert(!spec_edge_eq(longer[i as int].1, spec_box_edges(dot_box)[k]));
                        if spec_contains_edge(prefix, spec_box_edges(dot_box)[k]) {
                            let m = choose|m: int|
                                0 <= m < prefix.len() && spec_edge_eq(
                                    prefix[m].1,
                                    spec_box_edges(dot_box)[k],
                                );
                            assert(longer[m] == prefix[m]);
                            assert(false);
                        }
                    }
                }
            }
            if hit {
                latest = Option::Some(oe.0);
                proof {
                    latest_at = i as int;
                }
            }
            i = i + 1;
        }
        proof {
            assert(s.subrange(0, s.len() as int) =~= s);
        }
        if f0 && f1 && f2 && f3 {
            proof {
                assert(spec_box_complete(s, dot_box));
                if latest is None {
                    // Impossible: the first box edge is contained, so
                    // some drawn entry is a box edge.
                    let m = choose|m: int|
                        0 <= m < s.len() && spec_edge_eq(s[m].1, spec_box_edges(dot_box)[0]);
                    assert(spec_is_box_edge(s[m].1, dot_box));
                    assert(false);
                }
                lemma_box_owner_last_match(s, dot_box, latest_at);
            }
            latest
        } else {
            proof {
                assert(!spec_box_complete(s, dot_box));
            }
            Option::None
        }
    }
}

impl Default for Board {
    /// An empty board of size 2.
    fn default() -> (b: Board)
        ensures
            b.wf(),
            b.spec_size() == 2,
            b.spec_edges() == Seq::<OwnedEdge>::empty(),
    {
        Board::new(2)
    }
}

/// An edge is contained in a concatenation exactly when it is contained
/// in one of the parts.
pub proof fn lemma_contains_concat(a: Seq<OwnedEdge>, b: Seq<OwnedEdge>, e: Edge)
    ensures
        spec_contains_edge(a + b, e) == (spec_contains_edge(a, e) || spec_contains_edge(b, e)),
{
    if spec_contains_edge(a, e) {
        let i = choose|i: int| 0 <= i < a.len() && spec_edge_eq(a[i].1, e);
        assert((a + b)[i] == a[i]);
        assert(spec_contains_edge(a + b, e));
    } else if spec_contains_edge(b, e) {
        let i = choose|i: int| 0 <= i < b.len() && spec_edge_eq(b[i].1, e);
        assert((a + b)[a.len() + i] == b[i]);
        assert(spec_contains_edge(a + b, e));
    } else {
        if spec_contains_edge(a + b, e) {
            let i = choose|i: int| 0 <= i < (a + b).len() && spec_edge_eq((a + b)[i].1, e);
            if i < a.len() {
                assert((a + b)[i] == a[i]);
            } else {
                assert((a + b)[i] == b[i - a.len()]);
            }
            assert(false);
        }
    }
}

/// A successfully validated batch, appended to a well-formed board's
/// edges, leaves the combined edge list well-formed: everything valid
/// and fitting, no duplicates.
proof fn lemma_batch_preserves_wf(size: BoardSize, s: Seq<OwnedEdge>, batch: Seq<OwnedEdge>)
    requires
        size <= MAX_BOARD_SIZE,
        forall|i: int|
            0 <= i < s.len() ==> spec_edge_valid(#[trigger] s[i].1) && spec_edge_fits(
                s[i].1,
                size + 1,
            ),
        forall|i: int, j: int|
            0 <= i < j < s.len() ==> !spec_edge_eq(#[trigger] s[i].1, #[trigger] s[j].1),
        forall|k: int|
            0 <= k < batch.len() ==> spec_validate_edge(
                size,
                s + batch.subrange(0, k),
                (#[trigger] batch[k]).1,
            ) is Ok,
    ensures
        forall|i: int|
            0 <= i < (s + batch).len() ==> spec_edge_valid(#[trigger] (s + batch)[i].1)
                && spec_edge_fits((s + batch)[i].1, size + 1),
        forall|i: int, j: int|
            0 <= i < j < (s + batch).len() ==> !spec_edge_eq(
                #[trigger] (s + batch)[i].1,
                #[trigger] (s + batch)[j].1,
            ),
{
    let comb = s + batch;
    assert forall|i: int|
        0 <= i < comb.len() implies spec_edge_valid(#[trigger] comb[i].1) && spec_edge_fits(
        comb[i].1,
        size + 1,
    ) by {
        if i < s.len() {
            assert(comb[i] == s[i]);
        } else {
            let k = i - s.len();
            assert(comb[i] == batch[k]);
            assert(spec_validate_edge(size, s + batch.subrange(0, k), batch[k].1) is Ok);
        }
    }
    assert forall|i: int, j: int| 0 <= i < j < comb.len() implies !spec_edge_eq(
        #[trigger] comb[i].1,
        #[trigger] comb[j].1,
    ) by {
        if j < s.len() {
            assert(comb[i] == s[i] && comb[j] == s[j]);
        } else {
            let kj = j - s.len();
            assert(comb[j] == batch[kj]);
            assert(spec_validate_edge(size, s + batch.subrange(0, kj), batch[kj].1) is Ok);
            assert(!spec_contains_edge(s + batch.subrange(0, kj), batch[kj].1));
            if i < s.len() {
                assert((s + batch.subrange(0, kj))[i] == s[i]);
                assert(comb[i] == s[i]);
            } else {
                let ki = i - s.len();
                assert((s + batch.subrange(0, kj))[s.len() + ki] == batch[ki]);
                assert(comb[i] == batch[ki]);
            }
        }
    }
}

/// If the first matching entry for `e` stands at index `i`, the edge
/// owner is that entry's owner.
proof fn lemma_edge_owner_first(s: Seq<OwnedEdge>, e: Edge, i: int)
    requires
        0 <= i < s.len(),
        spec_edge_eq(s[i].1, e),
        forall|j: int| 0 <= j < i ==> !spec_edge_eq(s[j].1, e),
    ensures
        spec_edge_owner(s, e) == Option::Some(s[i].0),
    decreases i,
{
    if i == 0 {
    } else {
        let rest = s.subrange(1, s.len() as int);
        assert(rest[i - 1] == s[i]);
        assert(forall|j: int| 0 <= j < i - 1 ==> rest[j] == s[j + 1]);
        lemma_edge_owner_first(rest, e, i - 1);
    }
}

/// After an edge between dots `a` and `b` is drawn, the board contains
/// it under either orientation: membership is order-insensitive.
pub proof fn lemma_drawn_either_direction(s: Seq<OwnedEdge>, owner: PlayerId, a: Dot, b: Dot)
    ensures
        spec_contains_edge(s.push((owner, Edge(a, b))), Edge(a, b)),
        spec_contains_edge(s.push((owner, Edge(a, b))), Edge(b, a)),
{
    let s2 = s.push((owner, Edge(a, b)));
    assert(spec_edge_eq(s2[s.len() as int].1, Edge(a, b)));
    assert(spec_edge_eq(s2[s.len() as int].1, Edge(b, a)));
}

/// A box with any boundary edge still missing has no owner.
pub proof fn lemma_box_owner_incomplete(s: Seq<OwnedEdge>, b: DotBox)
    requires
        !spec_box_complete(s, b),
    ensures
        spec_box_owner(s, b) is None,
{
}

/// Every boundary edge of a box that lies within the board is itself a
/// valid edge that fits the board.
pub proof fn lemma_box_edges_legal(b: DotBox, size: int)
    requires
        0 <= size <= 180,
        b.0.row < size,
        b.0.col < size,
    ensures
        forall|k: int|
            0 <= k < 4 ==> spec_edge_valid(#[trigger] spec_box_edges(b)[k]) && spec_edge_fits(
                spec_box_edges(b)[k],
                size + 1,
            ),
{
    assert forall|k: int|
        0 <= k < 4 implies spec_edge_valid(#[trigger] spec_box_edges(b)[k]) && spec_edge_fits(
        spec_box_edges(b)[k],
        size + 1,
    ) by {
        assert(spec_edge_valid(spec_box_edges(b)[0]));
        assert(spec_edge_valid(spec_box_edges(b)[1]));
        assert(spec_edge_valid(spec_box_edges(b)[2]));
        assert(spec_edge_valid(spec_box_edges(b)[3]));
    }
}

/// Two order-insensitively equal edges either both fit a grid or both
/// do not: they span the same pair of dots.
pub proof fn lemma_edge_eq_same_fit(a: Edge, b: Edge, dsize: int)
    requires
        spec_edge_eq(a, b),
    ensures
        spec_edge_fits(a, dsize) == spec_edge_fits(b, dsize),
{
}

/// A box named by a dot outside the board's box range is never owned:
/// at least one of its boundary edges cannot fit the board, so it can
/// never be drawn.
pub proof fn lemma_box_owner_out_of_range(size: int, s: Seq<OwnedEdge>, b: DotBox)
    requires
        0 <= size <= 180,
        forall|i: int|
            0 <= i < s.len() ==> spec_edge_valid(#[trigger] s[i].1) && spec_edge_fits(
                s[i].1,
                size + 1,
            ),
        !(b.0.row < size && b.0.col < size),
    ensures
        spec_box_owner(s, b) is None,
{
    // One of the four boundary edges does not fit the grid.
    let unfit: int = if b.0.row >= size {
        if b.0.row >= size + 1 {
            0int  // the top edge's row is already off the grid
        } else {
            2int  // the bottom edge's row is one below the last dot row
        }
    } else {
        if b.0.col >= size + 1 {
            3int  // the left edge's column is already off the grid
        } else {
            1int  // the right edge's column is one past the last dot column
        }
    };
    let e = spec_box_edges(b)[unfit];
    assert(!spec_edge_fits(e, size + 1));
    if spec_contains_edge(s, e) {
        let i = choose|i: int| 0 <= i < s.len() && spec_edge_eq(s[i].1, e);
        lemma_edge_eq_same_fit(s[i].1, e, size + 1);
        assert(false);
    }
    assert(!spec_box_complete(s, b));
}

/// If the last drawn boundary edge of a complete box stands at index
/// `m`, the box owner is that entry's owner: the completing move is
/// what decides ownership, whoever drew the other three edges.
pub proof fn lemma_box_owner_last_match(s: Seq<OwnedEdge>, b: DotBox, m: int)
    requires
        spec_box_complete(s, b),
        0 <= m < s.len(),
        spec_is_box_edge(s[m].1, b),
        forall|j: int| m < j < s.len() ==> !spec_is_box_edge(s[j].1, b),
    ensures
        spec_box_owner(s, b) == Option::Some(s[m].0),
    decreases s.len(),
{
    if m == s.len() - 1 {
        assert(spec_is_box_edge(s.last().1, b));
    } else {
        assert(!spec_is_box_edge(s.last().1, b));
        let shorter = s.drop_last();
        assert forall|k: int| 0 <= k < 4 implies spec_contains_edge(
            shorter,
            #[trigger] spec_box_edges(b)[k],
        ) by {
            let i = choose|i: int|
                0 <= i < s.len() && spec_edge_eq(s[i].1, spec_box_edges(b)[k]);
            if i == s.len() - 1 {
                assert(spec_is_box_edge(s.last().1, b));
                assert(false);
            }
            assert(shorter[i] == s[i]);
        }
        assert(forall|j: int| m < j < shorter.len() ==> shorter[j] == s[j]);
        assert(shorter[m] == s[m]);
        lemma_box_owner_last_match(shorter, b, m);
    }
}

/// If no entry matches `e`, the edge owner is `None`.
proof fn lemma_edge_owner_none(s: Seq<OwnedEdge>, e: Edge)
    requires
        forall|j: int| 0 <= j < s.len() ==> !spec_edge_eq(s[j].1, e),
    ensures
        spec_edge_owner(s, e) is None,
    decreases s.len(),
{
    if s.len() > 0 {
        let rest = s.subrange(1, s.len() as int);
        assert(forall|j: int| 0 <= j < rest.len() ==> rest[j] == s[j + 1]);
        lemma_edge_owner_none(rest, e);
    }
}

} // verus!
