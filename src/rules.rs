//! The cellular-automaton rule itself, stated over a mathematical grid model
//! (`Seq<Seq<bool>>`, indexed `[row][col]`), shared by both engines.

use vstd::prelude::*;

verus! {

/// Horizontal component of the `k`-th Moore offset. The eight offsets are
/// ordered row by row: `(-1,-1) (0,-1) (1,-1) (-1,0) (1,0) (-1,1) (0,1) (1,1)`.
pub open spec fn off_dx(k: int) -> int {
    if k == 0 || k == 3 || k == 5 {
        -1
    } else if k == 1 || k == 6 {
        0
    } else {
        1
    }
}

/// Vertical component of the `k`-th Moore offset.
pub open spec fn off_dy(k: int) -> int {
    if k < 3 {
        -1
    } else if k < 5 {
        0
    } else {
        1
    }
}

/// `s` has exactly `h` rows of exactly `w` cells each.
pub open spec fn shaped(s: Seq<Seq<bool>>, w: int, h: int) -> bool {
    &&& s.len() == h
    &&& forall|y: int| 0 <= y < h ==> #[trigger] s[y].len() == w
}

pub open spec fn in_bounds(w: int, h: int, x: int, y: int) -> bool {
    0 <= x < w && 0 <= y < h
}

/// Whether position `(x, y)` holds a live cell; a position off the grid holds
/// none (no wraparound).
pub open spec fn alive_at(s: Seq<Seq<bool>>, x: int, y: int) -> bool {
    0 <= y < s.len() && 0 <= x < s[y].len() && s[y][x]
}

/// Live cells among the first `k` Moore neighbours of `(x, y)`.
pub open spec fn count_upto(s: Seq<Seq<bool>>, x: int, y: int, k: int) -> int
    decreases k,
{
    if k <= 0 {
        0
    } else {
        count_upto(s, x, y, k - 1) + if alive_at(s, x + off_dx(k - 1), y + off_dy(k - 1)) {
            1int
        } else {
            0int
        }
    }
}

/// Live cells among the (up to eight) grid-adjacent positions of `(x, y)`.
pub open spec fn neighbor_count(s: Seq<Seq<bool>>, x: int, y: int) -> int {
    count_upto(s, x, y, 8)
}

/// In-bounds positions among the first `k` Moore neighbours of `(x, y)`.
pub open spec fn in_bounds_upto(w: int, h: int, x: int, y: int, k: int) -> int
    decreases k,
{
    if k <= 0 {
        0
    } else {
        in_bounds_upto(w, h, x, y, k - 1) + if in_bounds(
            w,
            h,
            x + off_dx(k - 1),
            y + off_dy(k - 1),
        ) {
            1int
        } else {
            0int
        }
    }
}

/// The Game of Life rule: a live cell survives with 2 or 3 live neighbours, a
/// dead cell is born with exactly 3.
pub open spec fn rule(alive: bool, n: int) -> bool {
    if alive {
        n == 2 || n == 3
    } else {
        n == 3
    }
}

/// The next generation of a `w`×`h` grid, every cell computed from `s` alone.
pub open spec fn next_gen(s: Seq<Seq<bool>>, w: int, h: int) -> Seq<Seq<bool>> {
    Seq::new(
        h as nat,
        |y: int| Seq::new(w as nat, |x: int| rule(alive_at(s, x, y), neighbor_count(s, x, y))),
    )
}

/// The `w`×`h` grid with no live cell.
pub open spec fn all_dead(w: int, h: int) -> Seq<Seq<bool>> {
    Seq::new(h as nat, |y: int| Seq::new(w as nat, |x: int| false))
}

/// Applies the rule to one cell.
pub fn next_state(alive: bool, n: usize) -> (r: bool)
    ensures
        r == rule(alive, n as int),
{
    if alive {
        n == 2 || n == 3
    } else {
        n == 3
    }
}

/// The `k`-th Moore offset as `(dx, dy)`.
pub fn neighbour_offset(k: usize) -> (r: (isize, isize))
    requires
        k < 8,
    ensures
        r.0 == off_dx(k as int),
        r.1 == off_dy(k as int),
{
    let dx: isize = if k == 0 || k == 3 || k == 5 {
        -1
    } else if k == 1 || k == 6 {
        0
    } else {
        1
    };
    let dy: isize = if k < 3 {
        -1
    } else if k < 5 {
        0
    } else {
        1
    };
    (dx, dy)
}

/// Moves coordinate `p` by `d` inside `[0, bound)`, or `None` when that leaves
/// the range.
pub fn shift(p: usize, d: isize, bound: usize) -> (r: Option<usize>)
    requires
        -1 <= d <= 1,
        p < bound,
    ensures
        r is Some <==> 0 <= p + d < bound,
        r is Some ==> r->Some_0 == p + d,
{
    if d < 0 {
        if p == 0 {
            None
        } else {
            Some(p - 1)
        }
    } else if d == 0 {
        Some(p)
    } else if p + 1 < bound {
        Some(p + 1)
    } else {
        None
    }
}

proof fn lemma_count_upto_dead(w: int, h: int, x: int, y: int, k: int)
    requires
        0 <= k <= 8,
    ensures
        count_upto(all_dead(w, h), x, y, k) == 0,
    decreases k,
{
    if k > 0 {
        lemma_count_upto_dead(w, h, x, y, k - 1);
    }
}

/// No spontaneous generation: the next generation of an all-dead grid is
/// all dead.
pub proof fn lemma_dead_stays_dead(w: int, h: int)
    requires
        0 <= w,
        0 <= h,
    ensures
        next_gen(all_dead(w, h), w, h) == all_dead(w, h),
{
    let d = all_dead(w, h);
    assert forall|y: int| 0 <= y < h implies next_gen(d, w, h)[y] == d[y] by {
        assert forall|x: int| 0 <= x < w implies next_gen(d, w, h)[y][x] == d[y][x] by {
            lemma_count_upto_dead(w, h, x, y, 8);
        }
        assert(next_gen(d, w, h)[y] =~= d[y]);
    }
    assert(next_gen(d, w, h) =~= d);
}

/// Every cell of the next generation follows the rule: a live cell with 2 or 3
/// live neighbours survives and with any other count dies; a dead cell with
/// exactly 3 is born and otherwise stays dead.
pub proof fn lemma_step_rule(s: Seq<Seq<bool>>, w: int, h: int, x: int, y: int)
    requires
        shaped(s, w, h),
        in_bounds(w, h, x, y),
    ensures
        0 <= neighbor_count(s, x, y) <= 8,
        s[y][x] ==> (next_gen(s, w, h)[y][x] <==> (neighbor_count(s, x, y) == 2
            || neighbor_count(s, x, y) == 3)),
        !s[y][x] ==> (next_gen(s, w, h)[y][x] <==> neighbor_count(s, x, y) == 3),
{
    lemma_count_bounded(s, w, h, x, y, 8);
}

/// The count over the first `k` offsets lies between 0 and the number of
/// those offsets that stay on the grid.
proof fn lemma_count_bounded(s: Seq<Seq<bool>>, w: int, h: int, x: int, y: int, k: int)
    requires
        shaped(s, w, h),
        0 <= k <= 8,
    ensures
        0 <= count_upto(s, x, y, k) <= in_bounds_upto(w, h, x, y, k) <= k,
    decreases k,
{
    if k > 0 {
        lemma_count_bounded(s, w, h, x, y, k - 1);
    }
}

/// Neighbour counting sees only on-grid positions: the count never exceeds the
/// number of grid-adjacent positions that lie in bounds (3 at a corner, 5 on an
/// edge).
pub proof fn lemma_count_within_bounds(s: Seq<Seq<bool>>, w: int, h: int, x: int, y: int)
    requires
        shaped(s, w, h),
    ensures
        0 <= neighbor_count(s, x, y) <= in_bounds_upto(w, h, x, y, 8),
{
    lemma_count_bounded(s, w, h, x, y, 8);
}

proof fn lemma_count_upto_local(
    s: Seq<Seq<bool>>,
    t: Seq<Seq<bool>>,
    w: int,
    h: int,
    x: int,
    y: int,
    k: int,
)
    requires
        shaped(s, w, h),
        shaped(t, w, h),
        0 <= k <= 8,
        forall|nx: int, ny: int|
            in_bounds(w, h, nx, ny) && -1 <= nx - x <= 1 && -1 <= ny - y <= 1 && !(nx == x && ny
                == y) ==> s[ny][nx] == t[ny][nx],
    ensures
        count_upto(s, x, y, k) == count_upto(t, x, y, k),
    decreases k,
{
    if k > 0 {
        lemma_count_upto_local(s, t, w, h, x, y, k - 1);
        let nx = x + off_dx(k - 1);
        let ny = y + off_dy(k - 1);
        if in_bounds(w, h, nx, ny) {
            assert(s[ny][nx] == t[ny][nx]);
        }
    }
}

/// Neighbour counting never wraps around the edges: two equally shaped grids
/// that agree on the in-bounds positions adjacent to `(x, y)` give the same
/// count there, whatever they hold on the opposite edge.
pub proof fn lemma_count_is_local(
    s: Seq<Seq<bool>>,
    t: Seq<Seq<bool>>,
    w: int,
    h: int,
    x: int,
    y: int,
)
    requires
        shaped(s, w, h),
        shaped(t, w, h),
        forall|nx: int, ny: int|
            in_bounds(w, h, nx, ny) && -1 <= nx - x <= 1 && -1 <= ny - y <= 1 && !(nx == x && ny
                == y) ==> s[ny][nx] == t[ny][nx],
    ensures
        neighbor_count(s, x, y) == neighbor_count(t, x, y),
{
    lemma_count_upto_local(s, t, w, h, x, y, 8);
}

} // verus!
