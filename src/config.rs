//! Simulation configuration shared by both engines: cell size, grid size
//! derived from the viewport, and the stepping clock.

use vstd::prelude::*;

verus! {

/// Intervals at or below this many nanoseconds suspend timer-driven stepping.
pub const MIN_TIMEOUT_NS: u64 = 5_000_000;

/// Default cell edge in pixels.
pub const DEFAULT_CELL_SIZE: u32 = 10;

/// Default interval between generations, in nanoseconds.
pub const DEFAULT_TIMEOUT_NS: u64 = 500_000_000;

/// What the host's timer must do after a timeout change.
#[derive(Clone, Copy, Debug, PartialEq, Eq, Structural)]
pub enum TimerAction {
    /// Stop the timer: stepping is suspended.
    Stop,
    /// Set the timer's interval to this many nanoseconds and start it again.
    Restart(u64),
    /// Leave the timer as it is.
    Keep,
}

/// A pixel-space rectangle.
#[derive(Clone, Copy, Debug, PartialEq, Eq, Structural)]
pub struct Rect {
    pub x: u64,
    pub y: u64,
    pub width: u64,
    pub height: u64,
}

/// Grid cells that fit along a viewport extent of `extent` pixels; a zero
/// cell size gives an empty grid.
pub open spec fn cells_along(extent: int, cell_size: int) -> int {
    if cell_size == 0 {
        0
    } else {
        extent / cell_size
    }
}

/// The draw rectangle of cell `(x, y)` for cells `cs` pixels wide.
pub open spec fn rect_of(x: int, y: int, cs: int) -> Rect {
    Rect { x: (x * cs) as u64, y: (y * cs) as u64, width: cs as u64, height: cs as u64 }
}

pub struct SimConfig {
    pub cell_size: u32,
    pub grid_width: u32,
    pub grid_height: u32,
    pub timeout_ns: u64,
    pub on_timer: bool,
}

impl SimConfig {
    /// Cell size 10, a 1×1 grid, half a second between generations, timer on.
    pub fn new() -> (r: SimConfig)
        ensures
            r.cell_size == DEFAULT_CELL_SIZE,
            r.grid_width == 1,
            r.grid_height == 1,
            r.timeout_ns == DEFAULT_TIMEOUT_NS,
            r.on_timer,
    {
        SimConfig {
            cell_size: DEFAULT_CELL_SIZE,
            grid_width: 1,
            grid_height: 1,
            timeout_ns: DEFAULT_TIMEOUT_NS,
            on_timer: true,
        }
    }

    /// Derives the grid dimensions from a viewport of `viewport_w`×`viewport_h`
    /// pixels: as many whole cells as fit along each axis.
    pub fn update_grid_size(&mut self, viewport_w: u32, viewport_h: u32)
        ensures
            final(self).grid_width == cells_along(viewport_w as int, old(self).cell_size as int),
            final(self).grid_height == cells_along(viewport_h as int, old(self).cell_size as int),
            final(self).cell_size == old(self).cell_size,
            final(self).timeout_ns == old(self).timeout_ns,
            final(self).on_timer == old(self).on_timer,
    {
        if self.cell_size == 0 {
            self.grid_width = 0;
            self.grid_height = 0;
        } else {
            self.grid_width = viewport_w / self.cell_size;
            self.grid_height = viewport_h / self.cell_size;
        }
    }

    /// Sets the cell size; returns whether it changed (and the grid must then
    /// be rebuilt).
    pub fn update_cell_size(&mut self, size: u32) -> (changed: bool)
        ensures
            changed == (size != old(self).cell_size),
            final(self).cell_size == size,
            final(self).grid_width == old(self).grid_width,
            final(self).grid_height == old(self).grid_height,
            final(self).timeout_ns == old(self).timeout_ns,
            final(self).on_timer == old(self).on_timer,
    {
        if size != self.cell_size {
            self.cell_size = size;
            true
        } else {
            false
        }
    }

    /// Changes the interval between generations. At or below the threshold
    /// automatic stepping is suspended; above it stepping is on: the interval
    /// is stored, and the timer is restarted when the interval changed or the
    /// timer was stopped.
    pub fn update_timeout(&mut self, time_ns: u64) -> (action: TimerAction)
        ensures
            time_ns <= MIN_TIMEOUT_NS ==> {
                &&& !final(self).on_timer
                &&& action == TimerAction::Stop
                &&& final(self).timeout_ns == old(self).timeout_ns
            },
            time_ns > MIN_TIMEOUT_NS ==> {
                &&& final(self).on_timer
                &&& final(self).timeout_ns == time_ns
                &&& action == if time_ns != old(self).timeout_ns || !old(self).on_timer {
                    TimerAction::Restart(time_ns)
                } else {
                    TimerAction::Keep
                }
            },
            final(self).cell_size == old(self).cell_size,
            final(self).grid_width == old(self).grid_width,
            final(self).grid_height == old(self).grid_height,
    {
        if time_ns <= MIN_TIMEOUT_NS {
            self.on_timer = false;
            TimerAction::Stop
        } else {
            let was_running = self.on_timer;
            self.on_timer = true;
            if time_ns != self.timeout_ns || !was_running {
                self.timeout_ns = time_ns;
                TimerAction::Restart(time_ns)
            } else {
                TimerAction::Keep
            }
        }
    }

    /// The draw rectangle of cell `(x, y)`: `(x*cell_size, y*cell_size)`,
    /// `cell_size` on each side.
    pub fn cell_rect(&self, x: u32, y: u32) -> (r: Rect)
        ensures
            r.x == x * self.cell_size,
            r.y == y * self.cell_size,
            r.width == self.cell_size,
            r.height == self.cell_size,
            r == rect_of(x as int, y as int, self.cell_size as int),
    {
        let cs = self.cell_size as u64;
        assert(x * cs <= u32::MAX * u32::MAX) by (nonlinear_arith)
            requires
                x <= u32::MAX,
                cs <= u32::MAX,
        ;
        assert(y * cs <= u32::MAX * u32::MAX) by (nonlinear_arith)
            requires
                y <= u32::MAX,
                cs <= u32::MAX,
        ;
        Rect { x: x as u64 * cs, y: y as u64 * cs, width: cs, height: cs }
    }
}

} // verus!
