//! The flat-grid engine: two equally sized boolean buffers, `current` and
//! `next`, indexed `[row][col]`; a step fills `next` from `current` and swaps.

use vstd::prelude::*;
use crate::config::{SimConfig, Rect, cells_along, rect_of};
use crate::rules::{
    shaped, alive_at, count_upto, neighbor_count, next_gen, next_state, neighbour_offset, shift,
};

verus! {

/// The rows of a buffer as a mathematical grid.
pub open spec fn rows_view(v: Seq<Vec<bool>>) -> Seq<Seq<bool>> {
    Seq::new(v.len(), |i: int| v[i]@)
}

/// `v` has exactly `h` rows of exactly `w` cells each.
pub open spec fn rows_shaped(v: Seq<Vec<bool>>, w: int, h: int) -> bool {
    &&& v.len() == h
    &&& forall|y: int| 0 <= y < h ==> #[trigger] v[y]@.len() == w
}

pub proof fn lemma_rows_shaped(v: Seq<Vec<bool>>, w: int, h: int)
    requires
        rows_shaped(v, w, h),
    ensures
        shaped(rows_view(v), w, h),
        forall|i: int| 0 <= i < v.len() ==> #[trigger] rows_view(v)[i] == v[i]@,
{
    assert forall|y: int| 0 <= y < h implies #[trigger] rows_view(v)[y].len() == w by {
        assert(rows_view(v)[y] == v[y]@);
    }
}

/// Relies on rand::random_ratio: `numerator/denominator` chance of `true`,
/// `false` for certain when `numerator == 0`, `true` for certain when
/// `numerator == denominator`; panics when `denominator == 0` or
/// `numerator > denominator`.
pub assume_specification[ rand::random_ratio ](numerator: u32, denominator: u32) -> (r: bool)
    requires
        denominator > 0,
        numerator <= denominator,
    ensures
        numerator == 0 ==> !r,
        numerator == denominator ==> r,
;

/// A `width`×`height` grid whose cells are each alive with chance 1/5,
/// independently.
pub fn get_random_grid(width: usize, height: usize) -> (g: Vec<Vec<bool>>)
    ensures
        rows_shaped(g@, width as int, height as int),
{
    let mut g: Vec<Vec<bool>> = Vec::new();
    let mut y: usize = 0;
    while y < height
        invariant
            y <= height,
            g@.len() == y,
            forall|i: int| 0 <= i < y ==> #[trigger] g@[i]@.len() == width,
        decreases height - y,
    {
        let mut row: Vec<bool> = Vec::new();
        let mut x: usize = 0;
        while x < width
            invariant
                x <= width,
                row@.len() == x,
            decreases width - x,
        {
            row.push(rand::random_ratio(1, 5));
            x += 1;
        }
        g.push(row);
        y += 1;
    }
    g
}

/// Copies a grid row by row.
fn copy_grid(g: &Vec<Vec<bool>>) -> (r: Vec<Vec<bool>>)
    ensures
        r@.len() == g@.len(),
        forall|i: int| 0 <= i < g@.len() ==> #[trigger] r@[i]@ == g@[i]@,
        rows_view(r@) == rows_view(g@),
{
    let mut r: Vec<Vec<bool>> = Vec::new();
    let mut y: usize = 0;
    while y < g.len()
        invariant
            y <= g@.len(),
            r@.len() == y,
            forall|i: int| 0 <= i < y ==> #[trigger] r@[i]@ == g@[i]@,
        decreases g@.len() - y,
    {
        r.push(g[y].clone());
        y += 1;
    }
    assert(rows_view(r@) =~= rows_view(g@));
    r
}

/// Draw rectangles of the live cells among the first `x` cells of row `y`,
/// left to right.
pub open spec fn row_rects(row: Seq<bool>, y: int, cs: int, x: int) -> Seq<Rect>
    decreases x,
{
    if x <= 0 {
        Seq::empty()
    } else {
        row_rects(row, y, cs, x - 1) + if row[x - 1] {
            seq![rect_of(x - 1, y, cs)]
        } else {
            Seq::empty()
        }
    }
}

/// Draw rectangles of the live cells in the first `y` rows of `s`, row by row.
pub open spec fn grid_rects(s: Seq<Seq<bool>>, cs: int, y: int) -> Seq<Rect>
    decreases y,
{
    if y <= 0 {
        Seq::empty()
    } else {
        grid_rects(s, cs, y - 1) + row_rects(s[y - 1], y - 1, cs, s[y - 1].len() as int)
    }
}

/// The flat-grid Game of Life engine with its configuration.
pub struct GoLRust {
    pub grid: Vec<Vec<bool>>,
    pub next_grid: Vec<Vec<bool>>,
    pub width: usize,
    pub height: usize,
    pub config: SimConfig,
}

impl View for GoLRust {
    type V = Seq<Seq<bool>>;

    open spec fn view(&self) -> Seq<Seq<bool>> {
        rows_view(self.grid@)
    }
}

impl GoLRust {
    pub open spec fn spec_width(&self) -> int {
        self.width as int
    }

    pub open spec fn spec_height(&self) -> int {
        self.height as int
    }

    /// Both buffers have the grid's dimensions.
    pub open spec fn wf(&self) -> bool {
        &&& rows_shaped(self.grid@, self.width as int, self.height as int)
        &&& rows_shaped(self.next_grid@, self.width as int, self.height as int)
    }

    /// A 1×1 random grid under the default configuration.
    pub fn new() -> (r: GoLRust)
        ensures
            r.wf(),
            r.spec_width() == 1,
            r.spec_height() == 1,
            rows_view(r.next_grid@) == r@,
            r.config.cell_size == crate::config::DEFAULT_CELL_SIZE,
            r.config.grid_width == 1,
            r.config.grid_height == 1,
            r.config.timeout_ns == crate::config::DEFAULT_TIMEOUT_NS,
            r.config.on_timer,
    {
        let grid = get_random_grid(1, 1);
        let next_grid = copy_grid(&grid);
        GoLRust { grid, next_grid, width: 1, height: 1, config: SimConfig::new() }
    }

    pub fn width(&self) -> (r: usize)
        ensures
            r == self.spec_width(),
    {
        self.width
    }

    pub fn height(&self) -> (r: usize)
        ensures
            r == self.spec_height(),
    {
        self.height
    }

    /// Replaces the whole grid by the `width`×`height` assignment `cells`;
    /// the second buffer becomes a copy of it.
    pub fn reset_with(&mut self, width: usize, height: usize, cells: Vec<Vec<bool>>)
        requires
            rows_shaped(cells@, width as int, height as int),
        ensures
            final(self).wf(),
            final(self).spec_width() == width,
            final(self).spec_height() == height,
            final(self)@ == rows_view(cells@),
            rows_view(final(self).next_grid@) == rows_view(cells@),
            final(self).config == old(self).config,
    {
        self.next_grid = copy_grid(&cells);
        self.grid = cells;
        self.width = width;
        self.height = height;
    }

    /// Re-derives the grid size from the viewport and reseeds every cell at
    /// random (alive with chance 1/5). Nothing of the previous grid survives.
    pub fn reset(&mut self, viewport_w: u32, viewport_h: u32)
        ensures
            final(self).wf(),
            final(self).spec_width() == final(self).config.grid_width,
            final(self).spec_height() == final(self).config.grid_height,
            rows_view(final(self).next_grid@) == final(self)@,
            final(self).config.cell_size == old(self).config.cell_size,
            final(self).config.timeout_ns == old(self).config.timeout_ns,
            final(self).config.on_timer == old(self).config.on_timer,
            final(self).config.grid_width == cells_along(
                viewport_w as int,
                old(self).config.cell_size as int,
            ),
            final(self).config.grid_height == cells_along(
                viewport_h as int,
                old(self).config.cell_size as int,
            ),
    {
        self.config.update_grid_size(viewport_w, viewport_h);
        let w = self.config.grid_width as usize;
        let h = self.config.grid_height as usize;
        let cells = get_random_grid(w, h);
        self.reset_with(w, h, cells);
    }

    /// Whether cell `(x, y)` is alive; `false` off the grid.
    pub fn is_alive(&self, x: usize, y: usize) -> (r: bool)
        requires
            self.wf(),
        ensures
            r == alive_at(self@, x as int, y as int),
    {
        proof {
            lemma_rows_shaped(self.grid@, self.width as int, self.height as int);
        }
        if y < self.height && x < self.width {
            self.grid[y][x]
        } else {
            false
        }
    }

    /// Live cells among the in-bounds Moore neighbours of `(x, y)`.
    pub fn count_alive_neighbors(&self, x: usize, y: usize) -> (r: usize)
        requires
            self.wf(),
            x < self.spec_width(),
            y < self.spec_height(),
        ensures
            r == neighbor_count(self@, x as int, y as int),
    {
        let ghost s = self@;
        proof {
            lemma_rows_shaped(self.grid@, self.width as int, self.height as int);
        }
        let mut count: usize = 0;
        let mut k: usize = 0;
        while k < 8
            invariant
                self.wf(),
                s == self@,
                x < self.width,
                y < self.height,
                k <= 8,
                count <= k,
                count == count_upto(s, x as int, y as int, k as int),
            decreases 8 - k,
        {
            let (dx, dy) = neighbour_offset(k);
            let nx = shift(x, dx, self.width);
            let ny = shift(y, dy, self.height);
            if nx.is_some() && ny.is_some() {
                let cx = nx.unwrap();
                let cy = ny.unwrap();
                if self.grid[cy][cx] {
                    count += 1;
                }
            }
            k += 1;
        }
        count
    }

    /// One generation: every cell of `next` is computed from the unmodified
    /// `current`, then the two buffers swap.
    pub fn update_grid(&mut self)
        requires
            old(self).wf(),
        ensures
            final(self).wf(),
            final(self).spec_width() == old(self).spec_width(),
            final(self).spec_height() == old(self).spec_height(),
            final(self)@ == next_gen(old(self)@, old(self).spec_width(), old(self).spec_height()),
            rows_view(final(self).next_grid@) == old(self)@,
            final(self).config == old(self).config,
    {
        let ghost s = self@;
        let ghost w = self.width as int;
        let ghost h = self.height as int;
        proof {
            lemma_rows_shaped(self.grid@, w, h);
        }
        let mut y: usize = 0;
        while y < self.height
            invariant
                self.wf(),
                self@ == s,
                self.width == w,
                self.height == h,
                self.config == old(self).config,
                y <= h,
                forall|i: int, j: int|
                    0 <= i < y && 0 <= j < w ==> #[trigger] self.next_grid@[i]@[j] == next_gen(
                        s,
                        w,
                        h,
                    )[i][j],
            decreases h - y,
        {
            let mut x: usize = 0;
            while x < self.width
                invariant
                    self.wf(),
                    self@ == s,
                    self.width == w,
                    self.height == h,
                    self.config == old(self).config,
                    y < h,
                    x <= w,
                    forall|i: int, j: int|
                        0 <= i < y && 0 <= j < w ==> #[trigger] self.next_grid@[i]@[j]
                            == next_gen(s, w, h)[i][j],
                    forall|j: int|
                        0 <= j < x ==> #[trigger] self.next_grid@[y as int]@[j] == next_gen(
                            s,
                            w,
                            h,
                        )[y as int][j],
                decreases w - x,
            {
                let n = self.count_alive_neighbors(x, y);
                let alive = self.grid[y][x];
                let v = next_state(alive, n);
                let ghost before = self.next_grid@;
                self.next_grid[y][x] = v;
                assert forall|i: int| 0 <= i < h implies #[trigger] self.next_grid@[i]@.len()
                    == w by {
                    if i != y {
                        assert(self.next_grid@[i] == before[i]);
                    }
                }
                assert forall|i: int, j: int|
                    0 <= i < y && 0 <= j < w implies #[trigger] self.next_grid@[i]@[j]
                        == next_gen(s, w, h)[i][j] by {
                    assert(self.next_grid@[i] == before[i]);
                }
                x += 1;
            }
            y += 1;
        }
        proof {
            assert(rows_view(self.next_grid@) =~= next_gen(s, w, h)) by {
                assert forall|i: int| 0 <= i < h implies rows_view(self.next_grid@)[i]
                    =~= next_gen(s, w, h)[i] by {
                    assert forall|j: int| 0 <= j < w implies rows_view(self.next_grid@)[i][j]
                        == next_gen(s, w, h)[i][j] by {
                        assert(self.next_grid@[i]@[j] == next_gen(s, w, h)[i][j]);
                    }
                }
            }
        }
        std::mem::swap(&mut self.grid, &mut self.next_grid);
    }

    /// A timer tick: one generation.
    pub fn on_timer_timeout(&mut self)
        requires
            old(self).wf(),
        ensures
            final(self).wf(),
            final(self).spec_width() == old(self).spec_width(),
            final(self).spec_height() == old(self).spec_height(),
            final(self)@ == next_gen(old(self)@, old(self).spec_width(), old(self).spec_height()),
            rows_view(final(self).next_grid@) == old(self)@,
            final(self).config == old(self).config,
    {
        self.update_grid();
    }

    /// Sets the cell size; a change rebuilds the grid for the viewport at
    /// random, keeping the clock. Returns whether it changed; when it did not,
    /// nothing changes.
    pub fn update_cell_size(&mut self, size: u32, viewport_w: u32, viewport_h: u32) -> (changed:
        bool)
        requires
            old(self).wf(),
        ensures
            final(self).wf(),
            changed == (size != old(self).config.cell_size),
            !changed ==> *final(self) == *old(self),
            changed ==> {
                &&& final(self).config.cell_size == size
                &&& final(self).config.grid_width == cells_along(viewport_w as int, size as int)
                &&& final(self).config.grid_height == cells_along(viewport_h as int, size as int)
                &&& final(self).spec_width() == final(self).config.grid_width
                &&& final(self).spec_height() == final(self).config.grid_height
                &&& final(self).config.timeout_ns == old(self).config.timeout_ns
                &&& final(self).config.on_timer == old(self).config.on_timer
                &&& rows_view(final(self).next_grid@) == final(self)@
            },
    {
        if size == self.config.cell_size {
            return false;
        }
        self.config.update_cell_size(size);
        self.reset(viewport_w, viewport_h);
        true
    }

    /// The draw rectangle of every live cell, row by row and left to right.
    pub fn live_rects(&self) -> (r: Vec<Rect>)
        requires
            self.wf(),
            self.spec_width() <= u32::MAX + 1,
            self.spec_height() <= u32::MAX + 1,
        ensures
            r@ == grid_rects(self@, self.config.cell_size as int, self.spec_height()),
    {
        let ghost s = self@;
        let ghost cs = self.config.cell_size as int;
        proof {
            lemma_rows_shaped(self.grid@, self.width as int, self.height as int);
        }
        let mut out: Vec<Rect> = Vec::new();
        let mut y: usize = 0;
        while y < self.height
            invariant
                self.wf(),
                s == self@,
                shaped(s, self.width as int, self.height as int),
                forall|i: int| 0 <= i < self.grid@.len() ==> #[trigger] s[i] == self.grid@[i]@,
                cs == self.config.cell_size,
                self.width <= u32::MAX + 1,
                self.height <= u32::MAX + 1,
                y <= self.height,
                out@ == grid_rects(s, cs, y as int),
            decreases self.height - y,
        {
            let ghost base = out@;
            let mut x: usize = 0;
            while x < self.width
                invariant
                    self.wf(),
                    s == self@,
                    shaped(s, self.width as int, self.height as int),
                    forall|i: int| 0 <= i < self.grid@.len() ==> #[trigger] s[i] == self.grid@[i]@,
                    cs == self.config.cell_size,
                    self.width <= u32::MAX + 1,
                    self.height <= u32::MAX + 1,
                    y < self.height,
                    x <= self.width,
                    out@ == base + row_rects(s[y as int], y as int, cs, x as int),
                decreases self.width - x,
            {
                let ghost prefix = row_rects(s[y as int], y as int, cs, x as int);
                assert(s[y as int] == self.grid@[y as int]@);
                if self.grid[y][x] {
                    assert(x <= u32::MAX && y <= u32::MAX);
                    let r = self.config.cell_rect(x as u32, y as u32);
                    out.push(r);
                    assert(row_rects(s[y as int], y as int, cs, x + 1) == prefix + seq![r]);
                    assert(out@ =~= base + (prefix + seq![r]));
                } else {
                    assert(row_rects(s[y as int], y as int, cs, x + 1) =~= prefix);
                }
                x += 1;
            }
            assert(out@ == grid_rects(s, cs, y + 1));
            y += 1;
        }
        out
    }
}

} // verus!
