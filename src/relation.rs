//! The entity/relationship engine: every cell is an entity with a `Position`
//! and a `Cell` state, and grid adjacency is a set of directed `Neighbours`
//! edges between entities, built once per reset. An entity's identity is its
//! index; its edges are held as a precomputed table of target identities.
//! A flecs world cannot hold these entities here: flecs components are
//! declared through its `Component` derive, which verified code cannot carry,
//! and its queries run closures through traits Verus does not read.

use vstd::prelude::*;
use crate::config::{SimConfig, cells_along};
use crate::grid::{rows_shaped, get_random_grid};
use crate::rules::{
    in_bounds, alive_at, count_upto, next_gen, rule, next_state, neighbour_offset,
    shift, off_dx, off_dy, shaped,
};

verus! {

/// A cell entity's grid coordinate; fixed once the entity exists.
#[derive(Clone, Copy, Debug, PartialEq, Eq, Structural)]
pub struct Position {
    pub x: u16,
    pub y: u16,
}

/// A cell entity's state, updated every generation.
#[derive(Clone, Copy, Debug, PartialEq, Eq, Structural)]
pub struct Cell {
    pub alive: bool,
}

#[derive(Clone, Copy, Debug, PartialEq, Eq, Structural)]
pub struct CellEntity {
    pub position: Position,
    pub cell: Cell,
}

/// Identity of the entity at `(x, y)` in a grid `w` wide.
pub open spec fn index_of(w: int, x: int, y: int) -> int {
    y * w + x
}

/// The edge towards the `k`-th Moore neighbour of `(x, y)`, if it is on the
/// grid.
pub open spec fn offset_edge(w: int, h: int, x: int, y: int, k: int) -> Seq<int> {
    if in_bounds(w, h, x + off_dx(k), y + off_dy(k)) {
        seq![index_of(w, x + off_dx(k), y + off_dy(k))]
    } else {
        Seq::empty()
    }
}

/// Edge targets towards the first `k` Moore neighbours of `(x, y)`, in offset
/// order.
pub open spec fn adjacency_upto(w: int, h: int, x: int, y: int, k: int) -> Seq<int>
    decreases k,
{
    if k <= 0 {
        Seq::empty()
    } else {
        adjacency_upto(w, h, x, y, k - 1) + offset_edge(w, h, x, y, k - 1)
    }
}

/// The `Neighbours` edge targets of the entity at `(x, y)`: every in-bounds
/// Moore neighbour, once each.
pub open spec fn adjacency(w: int, h: int, x: int, y: int) -> Seq<int> {
    adjacency_upto(w, h, x, y, 8)
}

/// How many of the entities `t` are alive in `a`.
pub open spec fn count_alive(a: Seq<bool>, t: Seq<int>) -> int
    decreases t.len(),
{
    if t.len() == 0 {
        0
    } else {
        count_alive(a, t.drop_last()) + if 0 <= t.last() < a.len() && a[t.last()] {
            1int
        } else {
            0int
        }
    }
}

/// One generation over the edge graph: each entity follows the rule with the
/// number of live targets of its edges.
pub open spec fn edge_next(a: Seq<bool>, e: Seq<Seq<int>>) -> Seq<bool> {
    Seq::new(a.len(), |i: int| rule(a[i], count_alive(a, e[i])))
}

pub open spec fn alive_seq(cells: Seq<CellEntity>) -> Seq<bool> {
    Seq::new(cells.len(), |i: int| cells[i].cell.alive)
}

pub open spec fn edges_view(nb: Seq<Vec<usize>>) -> Seq<Seq<int>> {
    Seq::new(nb.len(), |i: int| nb[i]@.map_values(|j: usize| j as int))
}

/// The live/dead assignment of a `w`×`h` world laid out as a grid.
pub open spec fn grid_of(a: Seq<bool>, w: int, h: int) -> Seq<Seq<bool>> {
    Seq::new(h as nat, |y: int| Seq::new(w as nat, |x: int| a[index_of(w, x, y)]))
}

/// A `w`×`h` world can be built: its entity count fits in memory and, when it
/// has any entity, every coordinate fits a 16-bit `Position`.
pub open spec fn world_fits(w: int, h: int) -> bool {
    &&& w * h <= usize::MAX
    &&& (w * h == 0 || (w <= 0x1_0000 && h <= 0x1_0000))
}

/// The entity relationship engine with its configuration.
pub struct GoLRustFlecs {
    pub cells: Vec<CellEntity>,
    pub neighbours: Vec<Vec<usize>>,
    pub width: usize,
    pub height: usize,
    pub config: SimConfig,
}

/// The entity `i` stands at a grid coordinate, and `i` is its identity there.
pub open spec fn placed(c: CellEntity, w: int, h: int, i: int) -> bool {
    &&& c.position.x < w
    &&& c.position.y < h
    &&& index_of(w, c.position.x as int, c.position.y as int) == i
}

impl GoLRustFlecs {
    pub open spec fn spec_width(&self) -> int {
        self.width as int
    }

    pub open spec fn spec_height(&self) -> int {
        self.height as int
    }

    pub open spec fn spec_alive(&self) -> Seq<bool> {
        alive_seq(self.cells@)
    }

    pub open spec fn spec_edges(&self) -> Seq<Seq<int>> {
        edges_view(self.neighbours@)
    }

    /// The world's live/dead assignment as a grid.
    pub open spec fn spec_grid(&self) -> Seq<Seq<bool>> {
        grid_of(self.spec_alive(), self.width as int, self.height as int)
    }

    /// One entity per grid coordinate, each placed at its own coordinate, and
    /// each entity's edges exactly its in-bounds Moore neighbours.
    pub open spec fn wf(&self) -> bool {
        &&& world_fits(self.width as int, self.height as int)
        &&& self.cells@.len() == self.width * self.height
        &&& self.neighbours@.len() == self.cells@.len()
        &&& forall|i: int|
            0 <= i < self.cells@.len() ==> #[trigger] placed(
                self.cells@[i],
                self.width as int,
                self.height as int,
                i,
            )
        &&& forall|i: int|
            0 <= i < self.cells@.len() ==> #[trigger] self.spec_edges()[i] == adjacency(
                self.width as int,
                self.height as int,
                self.cells@[i].position.x as int,
                self.cells@[i].position.y as int,
            )
        &&& forall|i: int, t: int|
            0 <= i < self.cells@.len() && 0 <= t < self.neighbours@[i]@.len() ==> (
            #[trigger] self.neighbours@[i]@[t]) < self.cells@.len()
    }
}

proof fn lemma_index_in_range(w: int, h: int, x: int, y: int)
    requires
        in_bounds(w, h, x, y),
    ensures
        0 <= index_of(w, x, y) < w * h,
{
    assert(0 <= y * w + x < w * h) by (nonlinear_arith)
        requires
            0 <= x < w,
            0 <= y < h,
    ;
}

proof fn lemma_index_unique(w: int, x1: int, y1: int, x2: int, y2: int)
    requires
        0 <= x1 < w,
        0 <= x2 < w,
        index_of(w, x1, y1) == index_of(w, x2, y2),
    ensures
        x1 == x2,
        y1 == y2,
{
    assert((y1 - y2) * w == x2 - x1) by (nonlinear_arith)
        requires
            y1 * w + x1 == y2 * w + x2,
    ;
    if y1 > y2 {
        assert((y1 - y2) * w >= w) by (nonlinear_arith)
            requires
                y1 - y2 >= 1,
                w > 0,
        ;
    } else if y1 < y2 {
        assert((y2 - y1) * w >= w) by (nonlinear_arith)
            requires
                y2 - y1 >= 1,
                w > 0,
        ;
        assert((y1 - y2) * w == -((y2 - y1) * w)) by (nonlinear_arith);
    }
}

proof fn lemma_grid_of_alive_at(a: Seq<bool>, w: int, h: int, x: int, y: int)
    requires
        0 <= w,
        0 <= h,
        a.len() == w * h,
    ensures
        alive_at(grid_of(a, w, h), x, y) == (in_bounds(w, h, x, y) && a[index_of(w, x, y)]),
{
    if in_bounds(w, h, x, y) {
        lemma_index_in_range(w, h, x, y);
    }
}

/// Counting live edge targets agrees with counting live grid neighbours.
proof fn lemma_count_adjacency(a: Seq<bool>, w: int, h: int, x: int, y: int, k: int)
    requires
        0 <= w,
        0 <= h,
        a.len() == w * h,
        0 <= k <= 8,
    ensures
        count_alive(a, adjacency_upto(w, h, x, y, k)) == count_upto(grid_of(a, w, h), x, y, k),
    decreases k,
{
    if k > 0 {
        lemma_count_adjacency(a, w, h, x, y, k - 1);
        let prev = adjacency_upto(w, h, x, y, k - 1);
        let nx = x + off_dx(k - 1);
        let ny = y + off_dy(k - 1);
        lemma_grid_of_alive_at(a, w, h, nx, ny);
        if in_bounds(w, h, nx, ny) {
            let j = index_of(w, nx, ny);
            lemma_index_in_range(w, h, nx, ny);
            assert((prev + seq![j]).drop_last() =~= prev);
        } else {
            assert(prev + Seq::<int>::empty() =~= prev);
        }
    }
}

proof fn lemma_adjacency_has(w: int, h: int, x: int, y: int, k: int, m: int)
    requires
        0 <= m < k <= 8,
        in_bounds(w, h, x + off_dx(m), y + off_dy(m)),
    ensures
        adjacency_upto(w, h, x, y, k).contains(index_of(w, x + off_dx(m), y + off_dy(m))),
    decreases k,
{
    let prev = adjacency_upto(w, h, x, y, k - 1);
    let last = offset_edge(w, h, x, y, k - 1);
    if m < k - 1 {
        lemma_adjacency_has(w, h, x, y, k - 1, m);
        let t = choose|t: int| 0 <= t < prev.len() && prev[t] == index_of(
            w,
            x + off_dx(m),
            y + off_dy(m),
        );
        assert((prev + last)[t] == prev[t]);
    } else {
        assert((prev + last)[prev.len() as int] == last[0]);
    }
}

proof fn lemma_adjacency_only(w: int, h: int, x: int, y: int, k: int, j: int)
    requires
        0 <= k <= 8,
        adjacency_upto(w, h, x, y, k).contains(j),
    ensures
        exists|m: int|
            0 <= m < k && in_bounds(w, h, x + off_dx(m), y + off_dy(m)) && j == index_of(
                w,
                x + off_dx(m),
                y + off_dy(m),
            ),
    decreases k,
{
    let prev = adjacency_upto(w, h, x, y, k - 1);
    let last = offset_edge(w, h, x, y, k - 1);
    let t = choose|t: int| 0 <= t < (prev + last).len() && (prev + last)[t] == j;
    if t < prev.len() {
        assert(prev[t] == j);
        lemma_adjacency_only(w, h, x, y, k - 1, j);
        let m = choose|m: int|
            0 <= m < k - 1 && in_bounds(w, h, x + off_dx(m), y + off_dy(m)) && j == index_of(
                w,
                x + off_dx(m),
                y + off_dy(m),
            );
        assert(0 <= m < k);
    } else {
        assert(last[t - prev.len()] == j);
        assert(in_bounds(w, h, x + off_dx(k - 1), y + off_dy(k - 1)));
    }
}

/// Cross-engine equivalence: on the same live/dead assignment and the same
/// dimensions, a generation computed over the `Neighbours` edges gives, cell by
/// cell, exactly the generation the flat-grid engine computes.
pub proof fn lemma_engines_agree(world: GoLRustFlecs, flat: Seq<Seq<bool>>)
    requires
        world.wf(),
        flat == world.spec_grid(),
    ensures
        shaped(flat, world.spec_width(), world.spec_height()),
        grid_of(edge_next(world.spec_alive(), world.spec_edges()), world.spec_width(), world.spec_height())
            == next_gen(flat, world.spec_width(), world.spec_height()),
{
    let w = world.spec_width();
    let h = world.spec_height();
    let a = world.spec_alive();
    let e = world.spec_edges();
    let lhs = grid_of(edge_next(a, e), w, h);
    let rhs = next_gen(flat, w, h);
    assert forall|y: int| 0 <= y < h implies lhs[y] =~= rhs[y] by {
        assert forall|x: int| 0 <= x < w implies lhs[y][x] == rhs[y][x] by {
            let i = index_of(w, x, y);
            lemma_index_in_range(w, h, x, y);
            let c = world.cells@[i];
            assert(placed(c, w, h, i));
            lemma_index_unique(w, c.position.x as int, c.position.y as int, x, y);
            assert(e[i] == adjacency(w, h, x, y));
            lemma_count_adjacency(a, w, h, x, y, 8);
            lemma_grid_of_alive_at(a, w, h, x, y);
        }
    }
    assert(lhs =~= rhs);
}

/// Edge symmetry: whenever an entity `A` has a `Neighbours` edge to `B`, `B`
/// has one back to `A`.
pub proof fn lemma_edges_symmetric(world: GoLRustFlecs, i: int, j: int)
    requires
        world.wf(),
        0 <= i < world.cells@.len(),
        world.spec_edges()[i].contains(j),
    ensures
        0 <= j < world.cells@.len(),
        world.spec_edges()[j].contains(i),
{
    let w = world.spec_width();
    let h = world.spec_height();
    let c = world.cells@[i];
    assert(placed(c, w, h, i));
    let x = c.position.x as int;
    let y = c.position.y as int;
    lemma_adjacency_only(w, h, x, y, 8, j);
    let m = choose|m: int|
        0 <= m < 8 && in_bounds(w, h, x + off_dx(m), y + off_dy(m)) && j == index_of(
            w,
            x + off_dx(m),
            y + off_dy(m),
        );
    let nx = x + off_dx(m);
    let ny = y + off_dy(m);
    lemma_index_in_range(w, h, nx, ny);
    let d = world.cells@[j];
    assert(placed(d, w, h, j));
    lemma_index_unique(w, d.position.x as int, d.position.y as int, nx, ny);
    let r = 7 - m;
    assert(off_dx(r) == -off_dx(m) && off_dy(r) == -off_dy(m));
    assert(nx + off_dx(r) == x && ny + off_dy(r) == y);
    lemma_adjacency_has(w, h, nx, ny, 8, r);
    assert(world.spec_edges()[j] == adjacency(w, h, nx, ny));
}

/// Identities of the in-bounds Moore neighbours of `(x, y)`, in offset order.
fn neighbour_targets(w: usize, h: usize, x: usize, y: usize) -> (r: Vec<usize>)
    requires
        x < w,
        y < h,
        w * h <= usize::MAX,
    ensures
        r@.map_values(|j: usize| j as int) == adjacency(w as int, h as int, x as int, y as int),
        forall|t: int| 0 <= t < r@.len() ==> #[trigger] r@[t] < w * h,
{
    let mut r: Vec<usize> = Vec::new();
    let mut k: usize = 0;
    while k < 8
        invariant
            x < w,
            y < h,
            w * h <= usize::MAX,
            k <= 8,
            r@.map_values(|j: usize| j as int) == adjacency_upto(
                w as int,
                h as int,
                x as int,
                y as int,
                k as int,
            ),
            forall|t: int| 0 <= t < r@.len() ==> #[trigger] r@[t] < w * h,
        decreases 8 - k,
    {
        let (dx, dy) = neighbour_offset(k);
        let nx = shift(x, dx, w);
        let ny = shift(y, dy, h);
        let ghost prev = r@;
        if nx.is_some() && ny.is_some() {
            let cx = nx.unwrap();
            let cy = ny.unwrap();
            proof {
                lemma_index_in_range(w as int, h as int, cx as int, cy as int);
            }
            let j = cy * w + cx;
            r.push(j);
            assert(r@.map_values(|j: usize| j as int) =~= prev.map_values(|j: usize| j as int)
                + seq![index_of(w as int, cx as int, cy as int)]);
        } else {
            assert(r@.map_values(|j: usize| j as int) =~= prev.map_values(|j: usize| j as int)
                + Seq::<int>::empty());
        }
        k += 1;
    }
    r
}

impl GoLRustFlecs {
    /// An empty world (no entities) under the default configuration; the
    /// configured grid size applies from the first reset on.
    pub fn new() -> (r: GoLRustFlecs)
        ensures
            r.wf(),
            r.cells@.len() == 0,
            r.spec_width() == 0,
            r.spec_height() == 0,
            r.config.cell_size == crate::config::DEFAULT_CELL_SIZE,
            r.config.grid_width == 1,
            r.config.grid_height == 1,
            r.config.timeout_ns == crate::config::DEFAULT_TIMEOUT_NS,
            r.config.on_timer,
    {
        GoLRustFlecs {
            cells: Vec::new(),
            neighbours: Vec::new(),
            width: 0,
            height: 0,
            config: SimConfig::new(),
        }
    }

    /// Deletes every entity and its edges, creates one entity per coordinate
    /// of a `width`×`height` grid with its state from `seed`, then, once all
    /// entities exist, links each to its in-bounds Moore neighbours.
    pub fn reset_with(&mut self, width: usize, height: usize, seed: &Vec<Vec<bool>>)
        requires
            rows_shaped(seed@, width as int, height as int),
            world_fits(width as int, height as int),
        ensures
            final(self).wf(),
            final(self).spec_width() == width,
            final(self).spec_height() == height,
            final(self).spec_grid() == crate::grid::rows_view(seed@),
            final(self).config == old(self).config,
    {
        let w = width;
        let h = height;
        let mut cells: Vec<CellEntity> = Vec::new();
        let mut y: usize = 0;
        while y < h
            invariant
                rows_shaped(seed@, w as int, h as int),
                world_fits(w as int, h as int),
                y <= h,
                cells@.len() == y * w,
                forall|i: int|
                    0 <= i < cells@.len() ==> placed(#[trigger] cells@[i], w as int, h as int, i),
                forall|i: int|
                    0 <= i < cells@.len() ==> (#[trigger] cells@[i]).cell.alive
                        == seed@[cells@[i].position.y as int]@[cells@[i].position.x as int],
            decreases h - y,
        {
            let mut x: usize = 0;
            while x < w
                invariant
                    rows_shaped(seed@, w as int, h as int),
                    world_fits(w as int, h as int),
                    y < h,
                    x <= w,
                    cells@.len() == y * w + x,
                    forall|i: int|
                        0 <= i < cells@.len() ==> placed(#[trigger] cells@[i], w as int, h as int, i),
                    forall|i: int|
                        0 <= i < cells@.len() ==> (#[trigger] cells@[i]).cell.alive
                            == seed@[cells@[i].position.y as int]@[cells@[i].position.x as int],
                decreases w - x,
            {
                assert(w * h > 0) by (nonlinear_arith)
                    requires
                        x < w,
                        y < h,
                ;
                let alive = seed[y][x];
                cells.push(
                    CellEntity { position: Position { x: x as u16, y: y as u16 }, cell: Cell { alive } },
                );
                x += 1;
            }
            assert((y + 1) * w == y * w + w) by (nonlinear_arith);
            y += 1;
        }
        assert(y * w == w * h) by (nonlinear_arith)
            requires
                y == h,
        ;
        let mut neighbours: Vec<Vec<usize>> = Vec::new();
        let mut i: usize = 0;
        while i < cells.len()
            invariant
                w * h <= usize::MAX,
                cells@.len() == w * h,
                i <= cells@.len(),
                neighbours@.len() == i,
                forall|q: int|
                    0 <= q < cells@.len() ==> #[trigger] placed(cells@[q], w as int, h as int, q),
                forall|q: int|
                    0 <= q < i ==> #[trigger] edges_view(neighbours@)[q] == adjacency(
                        w as int,
                        h as int,
                        cells@[q].position.x as int,
                        cells@[q].position.y as int,
                    ),
                forall|q: int, t: int|
                    0 <= q < i && 0 <= t < neighbours@[q]@.len() ==> (#[trigger] neighbours@[q]@[t])
                        < w * h,
            decreases cells@.len() - i,
        {
            let pos = cells[i].position;
            assert(placed(cells@[i as int], w as int, h as int, i as int));
            let targets = neighbour_targets(w, h, pos.x as usize, pos.y as usize);
            let ghost prev = neighbours@;
            neighbours.push(targets);
            assert forall|q: int| 0 <= q <= i implies #[trigger] edges_view(neighbours@)[q]
                == adjacency(
                w as int,
                h as int,
                cells@[q].position.x as int,
                cells@[q].position.y as int,
            ) by {
                if q < i {
                    assert(edges_view(neighbours@)[q] == edges_view(prev)[q]);
                }
            }
            assert forall|q: int, t: int|
                0 <= q <= i && 0 <= t < neighbours@[q]@.len() implies (
            #[trigger] neighbours@[q]@[t]) < w * h by {
                if q < i {
                    assert(neighbours@[q] == prev[q]);
                }
            }
            i += 1;
        }
        self.cells = cells;
        self.neighbours = neighbours;
        self.width = w;
        self.height = h;
        proof {
            let g = self.spec_grid();
            let sv = crate::grid::rows_view(seed@);
            assert forall|yy: int| 0 <= yy < h implies g[yy] =~= sv[yy] by {
                assert forall|xx: int| 0 <= xx < w implies g[yy][xx] == sv[yy][xx] by {
                    let q = index_of(w as int, xx, yy);
                    lemma_index_in_range(w as int, h as int, xx, yy);
                    let c = self.cells@[q];
                    assert(placed(c, w as int, h as int, q));
                    lemma_index_unique(w as int, c.position.x as int, c.position.y as int, xx, yy);
                }
            }
            assert(g =~= sv);
        }
    }

    /// Re-derives the grid size from the viewport and rebuilds the world with
    /// every cell alive at random with chance 1/5.
    pub fn reset(&mut self, viewport_w: u32, viewport_h: u32)
        requires
            world_fits(
                cells_along(viewport_w as int, old(self).config.cell_size as int),
                cells_along(viewport_h as int, old(self).config.cell_size as int),
            ),
        ensures
            final(self).wf(),
            final(self).spec_width() == final(self).config.grid_width,
            final(self).spec_height() == final(self).config.grid_height,
            final(self).config.grid_width == cells_along(
                viewport_w as int,
                old(self).config.cell_size as int,
            ),
            final(self).config.grid_height == cells_along(
                viewport_h as int,
                old(self).config.cell_size as int,
            ),
            final(self).config.cell_size == old(self).config.cell_size,
            final(self).config.timeout_ns == old(self).config.timeout_ns,
            final(self).config.on_timer == old(self).config.on_timer,
    {
        self.config.update_grid_size(viewport_w, viewport_h);
        let w = self.config.grid_width as usize;
        let h = self.config.grid_height as usize;
        let seed = get_random_grid(w, h);
        self.reset_with(w, h, &seed);
    }

    /// Resets as `reset` does when the grid derived from the viewport can be
    /// built; otherwise changes nothing. Returns whether it reset.
    pub fn try_reset(&mut self, viewport_w: u32, viewport_h: u32) -> (done: bool)
        ensures
            done == world_fits(
                cells_along(viewport_w as int, old(self).config.cell_size as int),
                cells_along(viewport_h as int, old(self).config.cell_size as int),
            ),
            !done ==> *final(self) == *old(self),
            done ==> {
                &&& final(self).wf()
                &&& final(self).config.grid_width == cells_along(
                    viewport_w as int,
                    old(self).config.cell_size as int,
                )
                &&& final(self).config.grid_height == cells_along(
                    viewport_h as int,
                    old(self).config.cell_size as int,
                )
                &&& final(self).spec_width() == final(self).config.grid_width
                &&& final(self).spec_height() == final(self).config.grid_height
                &&& final(self).config.cell_size == old(self).config.cell_size
                &&& final(self).config.timeout_ns == old(self).config.timeout_ns
                &&& final(self).config.on_timer == old(self).config.on_timer
            },
    {
        let cs = self.config.cell_size;
        let (w, h): (u32, u32) = if cs == 0 {
            (0, 0)
        } else {
            (viewport_w / cs, viewport_h / cs)
        };
        assert(w as u64 * h as u64 <= u32::MAX * u32::MAX) by (nonlinear_arith)
            requires
                w <= u32::MAX,
                h <= u32::MAX,
        ;
        let n: u64 = w as u64 * h as u64;
        let fits = n <= usize::MAX as u64 && (n == 0 || (w <= 0x1_0000 && h <= 0x1_0000));
        if fits {
            self.reset(viewport_w, viewport_h);
        }
        fits
    }

    /// Whether the entity at `(x, y)` is alive; `false` off the grid.
    pub fn is_alive(&self, x: usize, y: usize) -> (r: bool)
        requires
            self.wf(),
        ensures
            r == alive_at(self.spec_grid(), x as int, y as int),
    {
        if x < self.width && y < self.height {
            proof {
                lemma_index_in_range(self.width as int, self.height as int, x as int, y as int);
            }
            self.cells[y * self.width + x].cell.alive
        } else {
            false
        }
    }

    /// How many targets of entity `i`'s `Neighbours` edges are alive.
    pub fn count_alive_neighbours(&self, i: usize) -> (r: usize)
        requires
            self.wf(),
            i < self.cells@.len(),
        ensures
            r == count_alive(self.spec_alive(), self.spec_edges()[i as int]),
    {
        let ghost a = self.spec_alive();
        let ghost e = self.spec_edges()[i as int];
        let targets = &self.neighbours[i];
        let mut c: usize = 0;
        let mut t: usize = 0;
        while t < targets.len()
            invariant
                self.wf(),
                i < self.cells@.len(),
                targets == self.neighbours@[i as int],
                e == targets@.map_values(|j: usize| j as int),
                a == self.spec_alive(),
                t <= targets@.len(),
                c <= t,
                c == count_alive(a, e.take(t as int)),
            decreases targets@.len() - t,
        {
            let j = targets[t];
            assert(e.take(t + 1).drop_last() =~= e.take(t as int));
            if self.cells[j].cell.alive {
                c += 1;
            }
            t += 1;
        }
        assert(e.take(t as int) =~= e);
        c
    }

    /// One generation: every entity's next state is staged from the current
    /// states of its edge targets, then all staged states are applied at once.
    pub fn update_grid(&mut self)
        requires
            old(self).wf(),
        ensures
            final(self).wf(),
            final(self).spec_width() == old(self).spec_width(),
            final(self).spec_height() == old(self).spec_height(),
            final(self).spec_edges() == old(self).spec_edges(),
            final(self).spec_alive() == edge_next(old(self).spec_alive(), old(self).spec_edges()),
            final(self).spec_grid() == next_gen(
                old(self).spec_grid(),
                old(self).spec_width(),
                old(self).spec_height(),
            ),
            final(self).config == old(self).config,
    {
        let ghost a = self.spec_alive();
        let ghost e = self.spec_edges();
        let n = self.cells.len();
        let mut staged: Vec<bool> = Vec::new();
        let mut i: usize = 0;
        while i < n
            invariant
                self.wf(),
                self.spec_alive() == a,
                self.spec_edges() == e,
                n == self.cells@.len(),
                i <= n,
                staged@.len() == i,
                forall|q: int| 0 <= q < i ==> #[trigger] staged@[q] == edge_next(a, e)[q],
            decreases n - i,
        {
            let c = self.count_alive_neighbours(i);
            let v = next_state(self.cells[i].cell.alive, c);
            staged.push(v);
            i += 1;
        }
        let ghost old_cells = self.cells@;
        let mut i: usize = 0;
        while i < n
            invariant
                n == self.cells@.len(),
                n == old_cells.len(),
                i <= n,
                staged@.len() == n,
                forall|q: int| 0 <= q < n ==> #[trigger] staged@[q] == edge_next(a, e)[q],
                forall|q: int|
                    0 <= q < n ==> (#[trigger] self.cells@[q]).position == old_cells[q].position,
                forall|q: int| 0 <= q < i ==> #[trigger] self.cells@[q].cell.alive == staged@[q],
                forall|q: int|
                    i <= q < n ==> #[trigger] self.cells@[q].cell.alive == old_cells[q].cell.alive,
                self.neighbours@ == old(self).neighbours@,
                self.width == old(self).width,
                self.height == old(self).height,
                self.config == old(self).config,
            decreases n - i,
        {
            let mut c = self.cells[i];
            c.cell.alive = staged[i];
            self.cells.set(i, c);
            i += 1;
        }
        proof {
            assert(self.spec_alive() =~= edge_next(a, e));
            assert forall|q: int| 0 <= q < n implies #[trigger] placed(
                self.cells@[q],
                self.width as int,
                self.height as int,
                q,
            ) by {
                assert(placed(old_cells[q], self.width as int, self.height as int, q));
            }
            lemma_engines_agree(*old(self), old(self).spec_grid());
        }
    }

    /// A timer tick: one generation.
    pub fn on_timer_timeout(&mut self)
        requires
            old(self).wf(),
        ensures
            final(self).wf(),
            final(self).spec_width() == old(self).spec_width(),
            final(self).spec_height() == old(self).spec_height(),
            final(self).spec_edges() == old(self).spec_edges(),
            final(self).spec_grid() == next_gen(
                old(self).spec_grid(),
                old(self).spec_width(),
                old(self).spec_height(),
            ),
            final(self).config == old(self).config,
    {
        self.update_grid();
    }
}

} // verus!
