//! The dot grid: its parameter layout, where each dot goes, and when the
//! cached bitmap must be drawn again.
use vstd::prelude::*;
use crate::align::{Placement, h_placement, v_placement, spec_h_placement, spec_v_placement};

verus! {

pub const PARAM_COLUMNS: usize = 0;
pub const PARAM_ROWS: usize = 1;
pub const PARAM_DOT_SIZE: usize = 2;
pub const PARAM_ALIGN_X: usize = 3;
pub const PARAM_ALIGN_Y: usize = 4;
pub const PARAM_FILL_R: usize = 5;
pub const PARAM_FILL_G: usize = 6;
pub const PARAM_FILL_B: usize = 7;
pub const PARAM_FILL_A: usize = 8;
pub const PARAM_BG_R: usize = 9;
pub const PARAM_BG_G: usize = 10;
pub const PARAM_BG_B: usize = 11;
pub const PARAM_BG_A: usize = 12;
pub const NUM_PARAMS: usize = 13;

pub const ALIGN_LEFT: u32 = 0;
pub const ALIGN_CENTER: u32 = 1;
pub const ALIGN_RIGHT: u32 = 2;

pub const VALIGN_TOP: u32 = 0;
pub const VALIGN_CENTER: u32 = 1;
pub const VALIGN_BOTTOM: u32 = 2;

/// A rendered grid: `width` by `height` RGBA pixels, four bytes each, rows
/// stored from the bottom of the image up.
pub struct DotGridRenderer {
    pub width: usize,
    pub height: usize,
    pub pixels: Vec<u8>,
}

impl DotGridRenderer {
    /// The buffer holds exactly four bytes per pixel.
    pub open spec fn wf(&self) -> bool {
        self.pixels@.len() == self.width * self.height * 4
    }
}

/// How the grid is laid out: at least one column and one row, and where each
/// dot sits inside its cell.
pub struct GridPlan {
    pub columns: u32,
    pub rows: u32,
    pub x: Placement,
    pub y: Placement,
}

/// The larger of `n` and one.
pub open spec fn at_least_one(n: u32) -> u32 {
    if n == 0 { 1 } else { n }
}

/// The layout for the given column and row counts and alignment codes.
pub fn plan_grid(columns: u32, rows: u32, align_x: u32, align_y: u32) -> (g: GridPlan)
    ensures
        g.columns == at_least_one(columns),
        g.rows == at_least_one(rows),
        g.x == spec_h_placement(align_x),
        g.y == spec_v_placement(align_y),
{
    GridPlan {
        columns: if columns == 0 { 1 } else { columns },
        rows: if rows == 0 { 1 } else { rows },
        x: h_placement(align_x),
        y: v_placement(align_y),
    }
}

impl GridPlan {
    /// The cell, in bottom-up coordinates (column, row), of the dot in
    /// on-screen row `row` (0 at the top) and column `col`.
    pub open spec fn spec_cell(&self, row: int, col: int) -> (int, int) {
        (col, self.rows - 1 - row)
    }

    pub fn cell(&self, row: u32, col: u32) -> (c: (u32, u32))
        requires
            row < self.rows,
            col < self.columns,
        ensures
            c.0 == self.spec_cell(row as int, col as int).0,
            c.1 == self.spec_cell(row as int, col as int).1,
    {
        (col, self.rows - 1 - row)
    }
}

/// Every cell of the grid holds exactly one dot: distinct on-screen positions
/// go to distinct cells, and every cell is reached.
pub proof fn law_one_dot_per_cell(g: GridPlan, r1: int, c1: int, r2: int, c2: int, cell_col: int, cell_row: int)
    requires
        0 <= r1 < g.rows,
        0 <= c1 < g.columns,
        0 <= r2 < g.rows,
        0 <= c2 < g.columns,
        0 <= cell_col < g.columns,
        0 <= cell_row < g.rows,
    ensures
        (r1 != r2 || c1 != c2) ==> g.spec_cell(r1, c1) != g.spec_cell(r2, c2),
        0 <= g.spec_cell(r1, c1).0 < g.columns,
        0 <= g.spec_cell(r1, c1).1 < g.rows,
        g.spec_cell(g.rows - 1 - cell_row, cell_col) == (cell_col, cell_row),
{
}

/// The grid never collapses: it always has at least one dot.
pub proof fn law_grid_not_empty(columns: u32, rows: u32)
    ensures
        at_least_one(columns) >= 1,
        at_least_one(rows) >= 1,
        at_least_one(columns) * at_least_one(rows) >= 1,
{
    assert(at_least_one(columns) * at_least_one(rows) >= 1) by (nonlinear_arith)
        requires
            at_least_one(columns) >= 1,
            at_least_one(rows) >= 1,
    ;
}

/// What the dot grid remembers between frames.
pub struct DotGridStateView {
    pub dirty: bool,
    pub last_width: int,
    pub last_height: int,
}

impl DotGridStateView {
    /// The state after a parameter changed its value.
    pub open spec fn after_param(self) -> DotGridStateView {
        DotGridStateView { dirty: true, ..self }
    }

    /// Whether a frame of `width` by `height` pixels draws the grid anew: it
    /// does when something changed or the viewport was resized, and the
    /// viewport has pixels.
    pub open spec fn render_due(self, width: int, height: int) -> bool {
        &&& (self.dirty || width != self.last_width || height != self.last_height)
        &&& width > 0
        &&& height > 0
    }

    /// The state after a frame of `width` by `height` pixels.
    pub open spec fn after_frame(self, width: int, height: int) -> DotGridStateView {
        DotGridStateView {
            dirty: (self.dirty || width != self.last_width || height != self.last_height)
                && !self.render_due(width, height),
            last_width: width,
            last_height: height,
        }
    }
}

/// The dot grid's frame-to-frame state.
pub struct DotGridState {
    dirty: bool,
    last_width: usize,
    last_height: usize,
}

impl View for DotGridState {
    type V = DotGridStateView;

    closed spec fn view(&self) -> DotGridStateView {
        DotGridStateView {
            dirty: self.dirty,
            last_width: self.last_width as int,
            last_height: self.last_height as int,
        }
    }
}

impl DotGridState {
    /// A fresh grid has not drawn anything and has seen no viewport.
    pub fn new() -> (s: Self)
        ensures
            s@ == (DotGridStateView { dirty: true, last_width: 0, last_height: 0 }),
    {
        DotGridState { dirty: true, last_width: 0, last_height: 0 }
    }

    /// Whether the cached bitmap is out of date.
    pub fn is_dirty(&self) -> (d: bool)
        ensures
            d == self@.dirty,
    {
        self.dirty
    }

    /// A parameter took a new value.
    pub fn param_changed(&mut self)
        ensures
            final(self)@ == old(self)@.after_param(),
    {
        self.dirty = true;
    }

    /// A frame of `width` by `height` pixels begins; returns whether the grid
    /// must be drawn into the bitmap for it.
    pub fn take_render(&mut self, width: usize, height: usize) -> (r: bool)
        ensures
            r == old(self)@.render_due(width as int, height as int),
            final(self)@ == old(self)@.after_frame(width as int, height as int),
    {
        if width != self.last_width || height != self.last_height {
            self.last_width = width;
            self.last_height = height;
            self.dirty = true;
        }
        if self.dirty && width > 0 && height > 0 {
            self.dirty = false;
            true
        } else {
            false
        }
    }
}

/// A frame never draws twice without a change in between.
pub proof fn law_grid_render_once(s: DotGridStateView, width: int, height: int)
    ensures
        !s.after_frame(width, height).render_due(width, height),
{
}

/// A resize to a viewport with pixels always redraws, and so does the first
/// frame with pixels after a parameter change.
pub proof fn law_grid_redraws(s: DotGridStateView, width: int, height: int)
    requires
        width > 0,
        height > 0,
    ensures
        (width != s.last_width || height != s.last_height) ==> s.render_due(width, height),
        s.after_param().render_due(width, height),
{
}

/// A change seen while the viewport is empty is kept until a frame with pixels draws it.
pub proof fn law_grid_change_kept(s: DotGridStateView, width: int, height: int, w2: int, h2: int)
    requires
        width <= 0 || height <= 0,
        w2 > 0,
        h2 > 0,
    ensures
        s.after_param().after_frame(width, height).render_due(w2, h2),
{
}

/// The grid has exactly the requested numbers of columns and rows, except
/// that a request for none gives one.
pub proof fn law_grid_counts(n: u32)
    ensures
        n >= 1 ==> at_least_one(n) == n,
        n == 0 ==> at_least_one(n) == 1,
        at_least_one(n) >= n,
        at_least_one(n) <= n + 1,
{
}

/// Nothing is drawn into an empty viewport, nor again while neither the
/// parameters nor the viewport size changed; the viewport size is remembered.
pub proof fn law_grid_render_needs_change_and_pixels(s: DotGridStateView, width: int, height: int)
    ensures
        (width <= 0 || height <= 0) ==> !s.render_due(width, height),
        (!s.dirty && width == s.last_width && height == s.last_height) ==> !s.render_due(width, height),
        s.after_frame(width, height).last_width == width,
        s.after_frame(width, height).last_height == height,
        s.render_due(width, height) ==> !s.after_frame(width, height).dirty,
{
}

/// A parameter change only marks the grid out of date; it keeps the viewport size.
pub proof fn law_grid_param_keeps_size(s: DotGridStateView)
    ensures
        s.after_param().dirty,
        s.after_param().last_width == s.last_width,
        s.after_param().last_height == s.last_height,
{
}

} // verus!
