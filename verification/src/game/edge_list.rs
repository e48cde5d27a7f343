use vstd::prelude::*;

use crate::game::basic_types::{
    spec_abs_diff, spec_edge_eq, spec_edge_valid, Dot, Edge,
};
use crate::game::board::{spec_contains_edge, spec_edge_count, spec_edge_fits, OwnedEdge};
use vstd::arithmetic::div_mod::{
    lemma_fundamental_div_mod, lemma_fundamental_div_mod_converse, lemma_mod_bound,
};
use vstd::set_lib::{lemma_int_range, lemma_len_subset, set_int_range};

verus! {

/// The canonical horizontal edge from `(row, col)` to `(row, col + 1)`.
pub open spec fn spec_right_edge(row: int, col: int) -> Edge {
    Edge(
        Dot { row: row as u16, col: col as u16 },
        Dot { row: row as u16, col: (col + 1) as u16 },
    )
}

/// The canonical vertical edge from `(row, col)` to `(row + 1, col)`.
pub open spec fn spec_down_edge(row: int, col: int) -> Edge {
    Edge(
        Dot { row: row as u16, col: col as u16 },
        Dot { row: (row + 1) as u16, col: col as u16 },
    )
}

/// How many edges the canonical scan lists for each full dot row but
/// the last: two per dot that has both a rightward and a downward
/// edge, plus one for the rightmost dot, which only has a downward one.
pub open spec fn spec_row_width(size: int) -> int {
    2 * size + 1
}

/// The edge at position `i` of the canonical scan: dots are walked in
/// row-major order and each dot emits first its rightward edge (if it
/// has one), then its downward edge (if it has one).
pub open spec fn spec_edge_at(size: int, i: int) -> Edge {
    let w = spec_row_width(size);
    let row = i / w;
    let k = i % w;
    if row < size {
        if k < 2 * size {
            if k % 2 == 0 {
                spec_right_edge(row, k / 2)
            } else {
                spec_down_edge(row, k / 2)
            }
        } else {
            spec_down_edge(row, size)
        }
    } else {
        spec_right_edge(size, k)
    }
}

/// The canonical list of every legal edge of a board with `size` boxes
/// per side: each appears exactly once, in scan order.
pub open spec fn spec_edge_list(size: int) -> Seq<Edge> {
    Seq::new(spec_edge_count(size) as nat, |i: int| spec_edge_at(size, i))
}

/// The endpoint that comes first in row-major order.
pub open spec fn spec_edge_lo(e: Edge) -> Dot {
    if e.0.row < e.1.row || (e.0.row == e.1.row && e.0.col <= e.1.col) {
        e.0
    } else {
        e.1
    }
}

/// Whether the edge connects two dots of the same column (one grid step
/// apart vertically).
pub open spec fn spec_edge_is_vertical(e: Edge) -> bool {
    e.0.col == e.1.col && spec_abs_diff(e.0.row, e.1.row) == 1
}

/// Whether the edge connects two dots of the same row (one grid step
/// apart horizontally).
pub open spec fn spec_edge_is_horizontal(e: Edge) -> bool {
    e.0.row == e.1.row && spec_abs_diff(e.0.col, e.1.col) == 1
}

/// The position a valid, fitting edge occupies in the canonical scan.
pub open spec fn spec_edge_index(size: int, e: Edge) -> int {
    let lo = spec_edge_lo(e);
    let w = spec_row_width(size);
    if spec_edge_is_vertical(e) {
        if lo.col < size {
            lo.row * w + (2 * lo.col + 1)
        } else {
            lo.row * w + 2 * size
        }
    } else {
        if lo.row < size {
            lo.row * w + 2 * lo.col
        } else {
            size * w + lo.col
        }
    }
}

/// Every valid edge that fits the board stands somewhere in the
/// canonical scan: its index is in range and the edge listed there is
/// equal to it (order-insensitively).
pub proof fn lemma_edge_index_props(size: int, e: Edge)
    requires
        0 <= size <= 180,
        spec_edge_valid(e),
        spec_edge_fits(e, size + 1),
    ensures
        0 <= spec_edge_index(size, e) < spec_edge_count(size),
        spec_edge_eq(spec_edge_at(size, spec_edge_index(size, e)), e),
{
    let w = spec_row_width(size);
    let lo = spec_edge_lo(e);
    let i = spec_edge_index(size, e);
    if spec_edge_is_vertical(e) {
        // The lower endpoint is one row below `lo`, and both fit, so
        // lo.row < size.
        assert(lo.row < size);
        if lo.col < size {
            let k = 2 * lo.col + 1;
            assert(0 <= k < w);
            lemma_fundamental_div_mod_converse(i, w, lo.row as int, k);
            lemma_fundamental_div_mod_converse(k, 2, lo.col as int, 1);
            assert(k < 2 * size);
            assert(spec_edge_at(size, i) == spec_down_edge(lo.row as int, lo.col as int));
            assert(i < spec_edge_count(size)) by (nonlinear_arith)
                requires
                    i == lo.row * w + (2 * lo.col + 1),
                    lo.row <= size - 1,
                    lo.col <= size - 1,
                    w == 2 * size + 1,
                    size >= 1,
            ;
            assert(i >= 0) by (nonlinear_arith)
                requires
                    i == lo.row * w + (2 * lo.col + 1),
                    lo.row >= 0,
                    lo.col >= 0,
                    w >= 1,
            ;
        } else {
            assert(lo.col == size);
            let k = 2 * size;
            assert(0 <= k < w);
            lemma_fundamental_div_mod_converse(i, w, lo.row as int, k);
            assert(spec_edge_at(size, i) == spec_down_edge(lo.row as int, size));
            assert(i < spec_edge_count(size)) by (nonlinear_arith)
                requires
                    i == lo.row * w + 2 * size,
                    lo.row <= size - 1,
                    w == 2 * size + 1,
                    size >= 1,
            ;
            assert(i >= 0) by (nonlinear_arith)
                requires
                    i == lo.row * w + 2 * size,
                    lo.row >= 0,
                    size >= 0,
                    w >= 1,
            ;
        }
    } else {
        // Valid and not vertical: the dots share a row and sit one
        // column apart, with `lo` on the left.
        assert(lo.row == e.0.row && lo.row == e.1.row);
        assert(lo.col < size + 1);
        if lo.row < size {
            let k = 2 * lo.col;
            assert(lo.col < size);
            assert(0 <= k < 2 * size);
            lemma_fundamental_div_mod_converse(i, w, lo.row as int, k);
            lemma_fundamental_div_mod_converse(k, 2, lo.col as int, 0);
            assert(spec_edge_at(size, i) == spec_right_edge(lo.row as int, lo.col as int));
            assert(i < spec_edge_count(size)) by (nonlinear_arith)
                requires
                    i == lo.row * w + 2 * lo.col,
                    lo.row <= size - 1,
                    lo.col <= size - 1,
                    w == 2 * size + 1,
                    size >= 1,
            ;
            assert(i >= 0) by (nonlinear_arith)
                requires
                    i == lo.row * w + 2 * lo.col,
                    lo.row >= 0,
                    lo.col >= 0,
                    w >= 1,
            ;
        } else {
            assert(lo.row == size);
            assert(lo.col < size);
            lemma_fundamental_div_mod_converse(i, w, size, lo.col as int);
            assert(spec_edge_at(size, i) == spec_right_edge(size, lo.col as int));
            assert(spec_edge_count(size) == size * w + size) by (nonlinear_arith)
                requires
                    w == 2 * size + 1,
            ;
            assert(i >= 0) by (nonlinear_arith)
                requires
                    i == size * w + lo.col,
                    lo.col >= 0,
                    size >= 0,
                    w >= 1,
            ;
        }
    }
}

/// Every position of the canonical scan holds a valid, fitting edge,
/// and the scan position of that edge is the position itself.
pub proof fn lemma_edge_at_props(size: int, i: int)
    requires
        0 <= size <= 180,
        0 <= i < spec_edge_count(size),
    ensures
        spec_edge_valid(spec_edge_at(size, i)),
        spec_edge_fits(spec_edge_at(size, i), size + 1),
        spec_edge_index(size, spec_edge_at(size, i)) == i,
{
    let w = spec_row_width(size);
    let row = i / w;
    let k = i % w;
    lemma_fundamental_div_mod(i, w);
    lemma_mod_bound(i, w);
    assert(row >= 0) by (nonlinear_arith)
        requires
            i == w * row + k,
            0 <= k < w,
            i >= 0,
            w >= 1,
    ;
    assert(row <= size) by (nonlinear_arith)
        requires
            i == w * row + k,
            0 <= k < w,
            i < 2 * size * (size + 1),
            w == 2 * size + 1,
            row >= 0,
    ;
    if row < size {
        if k < 2 * size {
            let c = k / 2;
            let b = k % 2;
            lemma_fundamental_div_mod(k, 2);
            lemma_mod_bound(k, 2);
            assert(c >= 0 && 2 * c + b == k);
            assert(c < size);
            if b == 0 {
                let e = spec_right_edge(row, c);
                assert(spec_edge_at(size, i) == e);
                assert(spec_edge_lo(e) == e.0);
                assert(!spec_edge_is_vertical(e));
                assert(spec_edge_index(size, e) == row * w + 2 * c);
                assert(row * w + 2 * c == i) by (nonlinear_arith)
                    requires
                        i == w * row + k,
                        k == 2 * c,
                ;
            } else {
                let e = spec_down_edge(row, c);
                assert(spec_edge_at(size, i) == e);
                assert(spec_edge_lo(e) == e.0);
                assert(spec_edge_is_vertical(e));
                assert(spec_edge_index(size, e) == row * w + (2 * c + 1));
                assert(row * w + (2 * c + 1) == i) by (nonlinear_arith)
                    requires
                        i == w * row + k,
                        k == 2 * c + 1,
                ;
            }
        } else {
            assert(k == 2 * size);
            let e = spec_down_edge(row, size);
            assert(spec_edge_at(size, i) == e);
            assert(spec_edge_lo(e) == e.0);
            assert(spec_edge_is_vertical(e));
            assert(spec_edge_index(size, e) == row * w + 2 * size);
            assert(row * w + 2 * size == i) by (nonlinear_arith)
                requires
                    i == w * row + k,
                    k == 2 * size,
            ;
        }
    } else {
        assert(row == size);
        assert(k < size) by (nonlinear_arith)
            requires
                i == w * row + k,
                row == size,
                i < 2 * size * (size + 1),
                w == 2 * size + 1,
        ;
        let e = spec_right_edge(size, k);
        assert(spec_edge_at(size, i) == e);
        assert(spec_edge_lo(e) == e.0);
        assert(!spec_edge_is_vertical(e));
        assert(spec_edge_index(size, e) == size * w + k);
        assert(size * w + k == i) by (nonlinear_arith)
            requires
                i == w * row + k,
                row == size,
        ;
    }
}

/// Order-insensitively equal edges occupy the same scan position.
pub proof fn lemma_edge_index_respects_eq(size: int, a: Edge, b: Edge)
    requires
        spec_edge_eq(a, b),
    ensures
        spec_edge_index(size, a) == spec_edge_index(size, b),
{
    assert(spec_edge_lo(a) == spec_edge_lo(b));
    assert(spec_edge_is_vertical(a) == spec_edge_is_vertical(b));
}

/// No edge appears twice in the canonical scan, even order-insensitively.
pub proof fn lemma_edge_list_distinct(size: int, i: int, j: int)
    requires
        0 <= size <= 180,
        0 <= i < spec_edge_count(size),
        0 <= j < spec_edge_count(size),
        i != j,
    ensures
        !spec_edge_eq(spec_edge_at(size, i), spec_edge_at(size, j)),
{
    if spec_edge_eq(spec_edge_at(size, i), spec_edge_at(size, j)) {
        lemma_edge_at_props(size, i);
        lemma_edge_at_props(size, j);
        lemma_edge_index_respects_eq(size, spec_edge_at(size, i), spec_edge_at(size, j));
        assert(false);
    }
}

/// A sequence of pairwise-distinct integers drawn from `[0, m)` has at
/// most `m` elements.
proof fn lemma_distinct_int_seq_len(s: Seq<int>, m: int)
    requires
        m >= 0,
        forall|p: int| 0 <= p < s.len() ==> 0 <= #[trigger] s[p] < m,
        forall|p: int, q: int| 0 <= p < q < s.len() ==> s[p] != s[q],
    ensures
        s.len() <= m,
{
    assert(s.no_duplicates());
    s.unique_seq_to_set();
    let range = set_int_range(0, m);
    lemma_int_range(0, m);
    assert forall|x: int| s.to_set().contains(x) implies range.contains(x) by {
        let p = choose|p: int| 0 <= p < s.len() && s[p] == x;
        assert(0 <= s[p] < m);
    }
    lemma_len_subset(s.to_set(), range);
}

/// A well-formed list of drawn edges — every entry valid and fitting,
/// no entry repeated — can hold at most as many edges as the board has.
pub proof fn lemma_drawn_le_edge_count(size: int, s: Seq<OwnedEdge>)
    requires
        0 <= size <= 180,
        forall|i: int|
            0 <= i < s.len() ==> spec_edge_valid(#[trigger] s[i].1) && spec_edge_fits(
                s[i].1,
                size + 1,
            ),
        forall|i: int, j: int|
            0 <= i < j < s.len() ==> !spec_edge_eq(#[trigger] s[i].1, #[trigger] s[j].1),
    ensures
        s.len() <= spec_edge_count(size),
{
    let n = spec_edge_count(size);
    let idx = Seq::new(s.len(), |p: int| spec_edge_index(size, s[p].1));
    assert forall|p: int| 0 <= p < idx.len() implies 0 <= #[trigger] idx[p] < n by {
        lemma_edge_index_props(size, s[p].1);
    }
    assert forall|p: int, q: int| 0 <= p < q < idx.len() implies idx[p] != idx[q] by {
        if idx[p] == idx[q] {
            lemma_edge_index_props(size, s[p].1);
            lemma_edge_index_props(size, s[q].1);
            assert(spec_edge_eq(spec_edge_at(size, idx[p]), s[p].1));
            assert(spec_edge_eq(spec_edge_at(size, idx[q]), s[q].1));
            assert(spec_edge_eq(s[p].1, s[q].1));
            assert(false);
        }
    }
    lemma_distinct_int_seq_len(idx, n);
}

/// On a board that is not yet full, some legal edge of the canonical
/// scan is still free.
pub proof fn lemma_free_edge_exists(size: int, s: Seq<OwnedEdge>)
    requires
        0 <= size <= 180,
        forall|i: int|
            0 <= i < s.len() ==> spec_edge_valid(#[trigger] s[i].1) && spec_edge_fits(
                s[i].1,
                size + 1,
            ),
        forall|i: int, j: int|
            0 <= i < j < s.len() ==> !spec_edge_eq(#[trigger] s[i].1, #[trigger] s[j].1),
        s.len() < spec_edge_count(size),
    ensures
        exists|i: int|
            0 <= i < spec_edge_count(size) && !spec_contains_edge(
                s,
                #[trigger] spec_edge_at(size, i),
            ),
{
    let n = spec_edge_count(size);
    if forall|i: int| 0 <= i < n ==> spec_contains_edge(s, #[trigger] spec_edge_at(size, i)) {
        // Each canonical edge would then point at a distinct drawn
        // entry, which is impossible with fewer drawn edges than
        // canonical ones.
        let widx = Seq::new(
            n as nat,
            |i: int|
                choose|p: int| 0 <= p < s.len() && spec_edge_eq(s[p].1, spec_edge_at(size, i)),
        );
        assert forall|i: int| 0 <= i < widx.len() implies 0 <= #[trigger] widx[i] < s.len() by {
            assert(spec_contains_edge(s, spec_edge_at(size, i)));
            let p = choose|p: int|
                0 <= p < s.len() && spec_edge_eq(s[p].1, spec_edge_at(size, i));
            assert(widx[i] == p);
        }
        assert forall|i: int, j: int| 0 <= i < j < widx.len() implies widx[i] != widx[j] by {
            assert(spec_contains_edge(s, spec_edge_at(size, i)));
            assert(spec_contains_edge(s, spec_edge_at(size, j)));
            let p = choose|p: int|
                0 <= p < s.len() && spec_edge_eq(s[p].1, spec_edge_at(size, i));
            let q = choose|q: int|
                0 <= q < s.len() && spec_edge_eq(s[q].1, spec_edge_at(size, j));
            if p == q {
                lemma_edge_index_respects_eq(size, spec_edge_at(size, i), s[p].1);
                lemma_edge_index_respects_eq(size, spec_edge_at(size, j), s[q].1);
                lemma_edge_at_props(size, i);
                lemma_edge_at_props(size, j);
                assert(false);
            }
        }
        lemma_distinct_int_seq_len(widx, s.len() as int);
        assert(false);
    }
}

} // verus!
