//! Paths: straight lines and cubic Bezier curves in output space, with
//! style flags, orientation queries, and SVG path-data serialisation.
//!
//! Output-space coordinates are fixed-point (`FP` units per pixel).  A grid
//! cell is `SCALE` pixels wide and `SCALE * ASPECT` pixels tall; fractional
//! grid coordinates are carried in twentieths of a cell (`GF` per cell),
//! which is exact for every stretch the finders apply.

use vstd::prelude::*;
use crate::numfmt::{format_coord, spec_format_coord, FP};

verus! {

/// Pixels per character cell (horizontally).
pub const SCALE: i64 = 8;

/// Cells are `ASPECT` times as tall as they are wide.
pub const ASPECT: i64 = 2;

/// Width of one cell in fixed-point units.
pub const CELL_X: i64 = 800000;

/// Height of one cell in fixed-point units.
pub const CELL_Y: i64 = 1600000;

/// Fractional grid units per cell: finder stretches move endpoints by
/// halves, quarters, and tenths of a cell, all exact in twentieths.
pub const GF: i64 = 20;

/// One fractional grid unit, horizontally, in fixed-point units.
pub const GFX: i64 = 40000;

/// One fractional grid unit, vertically, in fixed-point units.
pub const GFY: i64 = 80000;

/// Proximity tolerance of the cell queries: half a cell width.
pub const NEAR: i64 = 400000;

/// Degeneracy tolerance: a hundredth of a pixel.
pub const DEGEN: i64 = 1000;

/// Bound on the coordinates the library works with; grids within
/// `MAX_DIM` stay far inside it.
pub const COORD_BOUND: i64 = 0x38d7ea4c68000;

/// The slope of a diagonal in degrees, `atan(ASPECT)`, at the output
/// resolution.
pub fn diagonal_angle() -> (r: i64)
    ensures
        r == crate::decoration::DIAGONAL_ANGLE,
{
    crate::decoration::DIAGONAL_ANGLE
}

/// Absolute value.
pub open spec fn iabs(a: int) -> int {
    if a < 0 {
        -a
    } else {
        a
    }
}

/// The endpoint deltas of finder-made paths are whole grid steps: each is
/// zero or at least the degeneracy tolerance.
pub open spec fn spec_grid_aligned(p: Path) -> bool {
    (p.b.x - p.a.x == 0 || iabs(p.b.x - p.a.x) >= DEGEN) && (p.b.y - p.a.y == 0 || iabs(
        p.b.y - p.a.y,
    ) >= DEGEN)
}

/// Two fixed-point values within the proximity tolerance of each other.
pub open spec fn spec_near(u: int, v: int) -> bool {
    iabs(u - v) < NEAR
}

fn near(u: i64, v: i64) -> (r: bool)
    ensures
        r == spec_near(u as int, v as int),
{
    let d: i128 = u as i128 - v as i128;
    -(NEAR as i128) < d && d < NEAR as i128
}

/// A 2D output-space point in fixed-point units.
#[derive(Debug, Clone, Copy, PartialEq, Eq, Structural)]
pub struct Vec2 {
    pub x: i64,
    pub y: i64,
}

/// The output-space point of an integer grid cell: one cell of margin keeps
/// edge glyphs unclipped.
pub open spec fn spec_from_grid(x: int, y: int) -> Vec2 {
    Vec2 { x: ((x + 1) * CELL_X) as i64, y: ((y + 1) * CELL_Y) as i64 }
}

/// The output-space point of a fractional grid coordinate given in
/// twentieths of a cell.
pub open spec fn spec_from_grid_frac(gx: int, gy: int) -> Vec2 {
    Vec2 { x: ((gx + GF) * GFX) as i64, y: ((gy + GF) * GFY) as i64 }
}

pub open spec fn spec_in_coord_range(v: Vec2) -> bool {
    -COORD_BOUND <= v.x <= COORD_BOUND && -COORD_BOUND <= v.y <= COORD_BOUND
}

impl Vec2 {
    /// A point from raw fixed-point coordinates (`FP` units per pixel).
    pub fn new(x: i64, y: i64) -> (r: Vec2)
        ensures
            r == (Vec2 { x, y }),
    {
        Vec2 { x, y }
    }

    /// The output-space point of a grid cell.
    pub fn from_grid(x: i32, y: i32) -> (r: Vec2)
        ensures
            r == spec_from_grid(x as int, y as int),
    {
        Vec2 { x: (x as i64 + 1) * CELL_X, y: (y as i64 + 1) * CELL_Y }
    }

    /// The output-space point of a fractional grid coordinate, in
    /// twentieths of a cell.
    pub fn from_grid_frac(gx: i64, gy: i64) -> (r: Vec2)
        requires
            -1000000000 <= gx <= 1000000000,
            -1000000000 <= gy <= 1000000000,
        ensures
            r == spec_from_grid_frac(gx as int, gy as int),
    {
        Vec2 { x: (gx + GF) * GFX, y: (gy + GF) * GFY }
    }

    /// This point moved by a grid-unit offset, in twentieths of a cell.
    pub fn offset(&self, dx: i64, dy: i64) -> (r: Vec2)
        requires
            spec_in_coord_range(*self),
            -1000000000 <= dx <= 1000000000,
            -1000000000 <= dy <= 1000000000,
        ensures
            r.x == self.x + dx * GFX,
            r.y == self.y + dy * GFY,
    {
        Vec2 { x: self.x + dx * GFX, y: self.y + dy * GFY }
    }

    /// This point moved by a raw fixed-point offset.
    pub fn offset_pixels(&self, dx: i64, dy: i64) -> (r: Vec2)
        requires
            spec_in_coord_range(*self),
            -10 * COORD_BOUND <= dx <= 10 * COORD_BOUND,
            -10 * COORD_BOUND <= dy <= 10 * COORD_BOUND,
        ensures
            r.x == self.x + dx,
            r.y == self.y + dy,
    {
        Vec2 { x: self.x + dx, y: self.y + dy }
    }

    /// The serialised `x,y` pair.
    pub open spec fn spec_coords(self) -> Seq<char> {
        spec_format_coord(self.x as int) + ","@ + spec_format_coord(self.y as int)
    }

    /// Serialise as `x,y`.
    pub fn coords(&self) -> (r: String)
        requires
            self.x > i64::MIN,
            self.y > i64::MIN,
        ensures
            r@ == self.spec_coords(),
    {
        let mut s = format_coord(self.x);
        s.append(",");
        let t = format_coord(self.y);
        s.append(t.as_str());
        s
    }

    /// Serialise as `x,y ` with a trailing space.
    pub fn to_svg(&self) -> (r: String)
        requires
            self.x > i64::MIN,
            self.y > i64::MIN,
        ensures
            r@ == self.spec_coords() + " "@,
    {
        let mut s = self.coords();
        s.append(" ");
        s
    }
}

/// Style flags of a path.
#[derive(Debug, Clone, Copy, PartialEq, Eq, Structural)]
pub struct PathStyle {
    pub dashed: bool,
    pub double: bool,
    pub squiggle: bool,
}

impl PathStyle {
    /// All flags off.
    pub fn plain() -> (r: PathStyle)
        ensures
            r == (PathStyle { dashed: false, double: false, squiggle: false }),
    {
        PathStyle { dashed: false, double: false, squiggle: false }
    }
}

/// A path segment: a straight line from `a` to `b`, or, when the control
/// points `c` and `d` are present, a cubic Bezier curve.
#[derive(Debug, Clone)]
pub struct Path {
    /// Start point.
    pub a: Vec2,
    /// End point.
    pub b: Vec2,
    /// First control point (curves only).
    pub c: Option<Vec2>,
    /// Second control point (curves only).
    pub d: Option<Vec2>,
    /// Style flags.
    pub style: PathStyle,
}

impl Path {
    /// Every coordinate of the path lies within the workable range.
    pub open spec fn spec_bounded(self) -> bool {
        &&& spec_in_coord_range(self.a)
        &&& spec_in_coord_range(self.b)
        &&& (self.c is Some ==> spec_in_coord_range(self.c->0))
        &&& (self.d is Some ==> spec_in_coord_range(self.d->0))
    }

    /// Both endpoints coincide within the degeneracy tolerance.
    pub open spec fn spec_degenerate(self) -> bool {
        iabs(self.a.x - self.b.x) < DEGEN && iabs(self.a.y - self.b.y) < DEGEN
    }

    pub open spec fn spec_curved(self) -> bool {
        self.c is Some
    }

    pub open spec fn spec_vertical(self) -> bool {
        self.c is None && iabs(self.a.x - self.b.x) < DEGEN
    }

    pub open spec fn spec_horizontal(self) -> bool {
        self.c is None && iabs(self.a.y - self.b.y) < DEGEN
    }

    /// A forward diagonal runs from lower-left to upper-right.
    pub open spec fn spec_diagonal(self) -> bool {
        self.c is None && self.b.x - self.a.x > 0 && self.b.y - self.a.y < 0
    }

    /// A back diagonal runs from upper-left to lower-right.
    pub open spec fn spec_back_diagonal(self) -> bool {
        self.c is None && self.b.x - self.a.x > 0 && self.b.y - self.a.y > 0
    }

    pub open spec fn spec_ends_at(self, x: int, y: int) -> bool {
        let t = spec_from_grid(x, y);
        (spec_near(self.a.x as int, t.x as int) && spec_near(self.a.y as int, t.y as int))
            || (spec_near(self.b.x as int, t.x as int) && spec_near(self.b.y as int, t.y as int))
    }

    /// A vertical path with an end half a cell above `(x, y)`.
    pub open spec fn spec_up_ends_at(self, x: int, y: int) -> bool {
        let t = spec_from_grid(x, y);
        let ty = t.y - CELL_Y / 2;
        self.spec_vertical() && ((spec_near(self.a.x as int, t.x as int) && spec_near(
            self.a.y as int,
            ty as int,
        )) || (spec_near(self.b.x as int, t.x as int) && spec_near(self.b.y as int, ty as int)))
    }

    /// A vertical path with an end half a cell below `(x, y)`.
    pub open spec fn spec_down_ends_at(self, x: int, y: int) -> bool {
        let t = spec_from_grid(x, y);
        let ty = t.y + CELL_Y / 2;
        self.spec_vertical() && ((spec_near(self.a.x as int, t.x as int) && spec_near(
            self.a.y as int,
            ty as int,
        )) || (spec_near(self.b.x as int, t.x as int) && spec_near(self.b.y as int, ty as int)))
    }

    /// A horizontal path with an end half a cell left of `(x, y)`.
    pub open spec fn spec_left_ends_at(self, x: int, y: int) -> bool {
        let t = spec_from_grid(x, y);
        let tx = t.x - CELL_X / 2;
        self.spec_horizontal() && ((spec_near(self.a.x as int, tx as int) && spec_near(
            self.a.y as int,
            t.y as int,
        )) || (spec_near(self.b.x as int, tx as int) && spec_near(self.b.y as int, t.y as int)))
    }

    /// A horizontal path with an end half a cell right of `(x, y)`.
    pub open spec fn spec_right_ends_at(self, x: int, y: int) -> bool {
        let t = spec_from_grid(x, y);
        let tx = t.x + CELL_X / 2;
        self.spec_horizontal() && ((spec_near(self.a.x as int, tx as int) && spec_near(
            self.a.y as int,
            t.y as int,
        )) || (spec_near(self.b.x as int, tx as int) && spec_near(self.b.y as int, t.y as int)))
    }

    /// A vertical path whose span covers `(x, y)`; the lateral test is
    /// inclusive at the tolerance, unlike the endpoint queries.
    pub open spec fn spec_vertical_passes_through(self, x: int, y: int) -> bool {
        let t = spec_from_grid(x, y);
        let lo = if self.a.y <= self.b.y {
            self.a.y
        } else {
            self.b.y
        };
        let hi = if self.a.y <= self.b.y {
            self.b.y
        } else {
            self.a.y
        };
        self.spec_vertical() && iabs(self.a.x - t.x) <= NEAR && lo - NEAR <= t.y <= hi + NEAR
    }

    /// A horizontal path whose span covers `(x, y)`; the lateral test is
    /// inclusive at the tolerance, unlike the endpoint queries.
    pub open spec fn spec_horizontal_passes_through(self, x: int, y: int) -> bool {
        let t = spec_from_grid(x, y);
        let lo = if self.a.x <= self.b.x {
            self.a.x
        } else {
            self.b.x
        };
        let hi = if self.a.x <= self.b.x {
            self.b.x
        } else {
            self.a.x
        };
        self.spec_horizontal() && iabs(self.a.y - t.y) <= NEAR && lo - NEAR <= t.x <= hi + NEAR
    }

    /// The upper end of a forward diagonal: the endpoint with the smaller y.
    pub open spec fn spec_upper(self) -> Vec2 {
        if self.a.y < self.b.y {
            self.a
        } else {
            self.b
        }
    }

    /// The lower end: the endpoint with the larger y.
    pub open spec fn spec_lower(self) -> Vec2 {
        if self.a.y > self.b.y {
            self.a
        } else {
            self.b
        }
    }

    pub open spec fn spec_diagonal_up_ends_at(self, x: int, y: int) -> bool {
        let t = spec_from_grid(x, y);
        let u = self.spec_upper();
        self.spec_diagonal() && spec_near(u.x as int, t.x as int) && spec_near(
            u.y as int,
            t.y as int,
        )
    }

    pub open spec fn spec_diagonal_down_ends_at(self, x: int, y: int) -> bool {
        let t = spec_from_grid(x, y);
        let u = self.spec_lower();
        self.spec_diagonal() && spec_near(u.x as int, t.x as int) && spec_near(
            u.y as int,
            t.y as int,
        )
    }

    pub open spec fn spec_back_diagonal_up_ends_at(self, x: int, y: int) -> bool {
        let t = spec_from_grid(x, y);
        let u = self.spec_upper();
        self.spec_back_diagonal() && spec_near(u.x as int, t.x as int) && spec_near(
            u.y as int,
            t.y as int,
        )
    }

    pub open spec fn spec_back_diagonal_down_ends_at(self, x: int, y: int) -> bool {
        let t = spec_from_grid(x, y);
        let u = self.spec_lower();
        self.spec_back_diagonal() && spec_near(u.x as int, t.x as int) && spec_near(
            u.y as int,
            t.y as int,
        )
    }

    /// A straight line from `a` to `b`.
    pub fn line(a: Vec2, b: Vec2) -> (r: Path)
        ensures
            r == (Path { a, b, c: None, d: None, style: PathStyle {
                dashed: false,
                double: false,
                squiggle: false,
            } }),
    {
        Path { a, b, c: None, d: None, style: PathStyle::plain() }
    }

    /// A straight line between two grid cells.
    pub fn line_from_grid(x1: i32, y1: i32, x2: i32, y2: i32) -> (r: Path)
        ensures
            r.a == spec_from_grid(x1 as int, y1 as int),
            r.b == spec_from_grid(x2 as int, y2 as int),
            r.c is None,
            r.d is None,
            r.style == (PathStyle { dashed: false, double: false, squiggle: false }),
    {
        Path::line(Vec2::from_grid(x1, y1), Vec2::from_grid(x2, y2))
    }

    /// A cubic Bezier curve from `a` to `b` with control points `c`, `d`.
    pub fn curve(a: Vec2, b: Vec2, c: Vec2, d: Vec2) -> (r: Path)
        ensures
            r == (Path { a, b, c: Some(c), d: Some(d), style: PathStyle {
                dashed: false,
                double: false,
                squiggle: false,
            } }),
    {
        Path { a, b, c: Some(c), d: Some(d), style: PathStyle::plain() }
    }

    pub fn with_dashed(self, dashed: bool) -> (r: Path)
        ensures
            r == (Path { style: PathStyle { dashed, ..self.style }, ..self }),
    {
        let mut p = self;
        p.style.dashed = dashed;
        p
    }

    pub fn with_double(self, double: bool) -> (r: Path)
        ensures
            r == (Path { style: PathStyle { double, ..self.style }, ..self }),
    {
        let mut p = self;
        p.style.double = double;
        p
    }

    pub fn with_squiggle(self, squiggle: bool) -> (r: Path)
        ensures
            r == (Path { style: PathStyle { squiggle, ..self.style }, ..self }),
    {
        let mut p = self;
        p.style.squiggle = squiggle;
        p
    }

    /// Both endpoints coincide within tolerance: such a path is dropped,
    /// never stored.
    pub fn is_degenerate(&self) -> (r: bool)
        ensures
            r == self.spec_degenerate(),
    {
        let dx: i128 = self.a.x as i128 - self.b.x as i128;
        let dy: i128 = self.a.y as i128 - self.b.y as i128;
        -(DEGEN as i128) < dx && dx < DEGEN as i128 && -(DEGEN as i128) < dy && dy < DEGEN as i128
    }

    pub fn is_vertical(&self) -> (r: bool)
        ensures
            r == self.spec_vertical(),
    {
        let dx: i128 = self.a.x as i128 - self.b.x as i128;
        self.c.is_none() && -(DEGEN as i128) < dx && dx < DEGEN as i128
    }

    pub fn is_horizontal(&self) -> (r: bool)
        ensures
            r == self.spec_horizontal(),
    {
        let dy: i128 = self.a.y as i128 - self.b.y as i128;
        self.c.is_none() && -(DEGEN as i128) < dy && dy < DEGEN as i128
    }

    pub fn is_diagonal(&self) -> (r: bool)
        ensures
            r == self.spec_diagonal(),
    {
        if self.c.is_some() {
            return false;
        }
        let dx: i128 = self.b.x as i128 - self.a.x as i128;
        let dy: i128 = self.b.y as i128 - self.a.y as i128;
        dx > 0 && dy < 0
    }

    pub fn is_back_diagonal(&self) -> (r: bool)
        ensures
            r == self.spec_back_diagonal(),
    {
        if self.c.is_some() {
            return false;
        }
        let dx: i128 = self.b.x as i128 - self.a.x as i128;
        let dy: i128 = self.b.y as i128 - self.a.y as i128;
        dx > 0 && dy > 0
    }

    pub fn is_curved(&self) -> (r: bool)
        ensures
            r == self.spec_curved(),
    {
        self.c.is_some()
    }

    /// Does either endpoint land on the grid cell `(x, y)`?
    pub fn ends_at(&self, x: i32, y: i32) -> (r: bool)
        ensures
            r == self.spec_ends_at(x as int, y as int),
    {
        let t = Vec2::from_grid(x, y);
        (near(self.a.x, t.x) && near(self.a.y, t.y)) || (near(self.b.x, t.x) && near(
            self.b.y,
            t.y,
        ))
    }

    pub fn up_ends_at(&self, x: i32, y: i32) -> (r: bool)
        ensures
            r == self.spec_up_ends_at(x as int, y as int),
    {
        if !self.is_vertical() {
            return false;
        }
        let t = Vec2::from_grid(x, y);
        let ty: i64 = t.y - CELL_Y / 2;
        (near(self.a.x, t.x) && near(self.a.y, ty)) || (near(self.b.x, t.x) && near(self.b.y, ty))
    }

    pub fn down_ends_at(&self, x: i32, y: i32) -> (r: bool)
        ensures
            r == self.spec_down_ends_at(x as int, y as int),
    {
        if !self.is_vertical() {
            return false;
        }
        let t = Vec2::from_grid(x, y);
        let ty: i64 = t.y + CELL_Y / 2;
        (near(self.a.x, t.x) && near(self.a.y, ty)) || (near(self.b.x, t.x) && near(self.b.y, ty))
    }

    pub fn left_ends_at(&self, x: i32, y: i32) -> (r: bool)
        ensures
            r == self.spec_left_ends_at(x as int, y as int),
    {
        if !self.is_horizontal() {
            return false;
        }
        let t = Vec2::from_grid(x, y);
        let tx: i64 = t.x - CELL_X / 2;
        (near(self.a.x, tx) && near(self.a.y, t.y)) || (near(self.b.x, tx) && near(self.b.y, t.y))
    }

    pub fn right_ends_at(&self, x: i32, y: i32) -> (r: bool)
        ensures
            r == self.spec_right_ends_at(x as int, y as int),
    {
        if !self.is_horizontal() {
            return false;
        }
        let t = Vec2::from_grid(x, y);
        let tx: i64 = t.x + CELL_X / 2;
        (near(self.a.x, tx) && near(self.a.y, t.y)) || (near(self.b.x, tx) && near(self.b.y, t.y))
    }

    pub fn vertical_passes_through(&self, x: i32, y: i32) -> (r: bool)
        ensures
            r == self.spec_vertical_passes_through(x as int, y as int),
    {
        if !self.is_vertical() {
            return false;
        }
        let t = Vec2::from_grid(x, y);
        let dx: i128 = self.a.x as i128 - t.x as i128;
        if dx > NEAR as i128 || dx < -(NEAR as i128) {
            return false;
        }
        let lo: i64 = if self.a.y <= self.b.y {
            self.a.y
        } else {
            self.b.y
        };
        let hi: i64 = if self.a.y <= self.b.y {
            self.b.y
        } else {
            self.a.y
        };
        lo as i128 - NEAR as i128 <= t.y as i128 && t.y as i128 <= hi as i128 + NEAR as i128
    }

    pub fn horizontal_passes_through(&self, x: i32, y: i32) -> (r: bool)
        ensures
            r == self.spec_horizontal_passes_through(x as int, y as int),
    {
        if !self.is_horizontal() {
            return false;
        }
        let t = Vec2::from_grid(x, y);
        let dy: i128 = self.a.y as i128 - t.y as i128;
        if dy > NEAR as i128 || dy < -(NEAR as i128) {
            return false;
        }
        let lo: i64 = if self.a.x <= self.b.x {
            self.a.x
        } else {
            self.b.x
        };
        let hi: i64 = if self.a.x <= self.b.x {
            self.b.x
        } else {
            self.a.x
        };
        lo as i128 - NEAR as i128 <= t.x as i128 && t.x as i128 <= hi as i128 + NEAR as i128
    }

    fn upper(&self) -> (r: Vec2)
        ensures
            r == self.spec_upper(),
    {
        if self.a.y < self.b.y {
            self.a
        } else {
            self.b
        }
    }

    fn lower(&self) -> (r: Vec2)
        ensures
            r == self.spec_lower(),
    {
        if self.a.y > self.b.y {
            self.a
        } else {
            self.b
        }
    }

    pub fn diagonal_up_ends_at(&self, x: i32, y: i32) -> (r: bool)
        ensures
            r == self.spec_diagonal_up_ends_at(x as int, y as int),
    {
        if !self.is_diagonal() {
            return false;
        }
        let t = Vec2::from_grid(x, y);
        let u = self.upper();
        near(u.x, t.x) && near(u.y, t.y)
    }

    pub fn diagonal_down_ends_at(&self, x: i32, y: i32) -> (r: bool)
        ensures
            r == self.spec_diagonal_down_ends_at(x as int, y as int),
    {
        if !self.is_diagonal() {
            return false;
        }
        let t = Vec2::from_grid(x, y);
        let u = self.lower();
        near(u.x, t.x) && near(u.y, t.y)
    }

    pub fn back_diagonal_up_ends_at(&self, x: i32, y: i32) -> (r: bool)
        ensures
            r == self.spec_back_diagonal_up_ends_at(x as int, y as int),
    {
        if !self.is_back_diagonal() {
            return false;
        }
        let t = Vec2::from_grid(x, y);
        let u = self.upper();
        near(u.x, t.x) && near(u.y, t.y)
    }

    pub fn back_diagonal_down_ends_at(&self, x: i32, y: i32) -> (r: bool)
        ensures
            r == self.spec_back_diagonal_down_ends_at(x as int, y as int),
    {
        if !self.is_back_diagonal() {
            return false;
        }
        let t = Vec2::from_grid(x, y);
        let u = self.lower();
        near(u.x, t.x) && near(u.y, t.y)
    }
}

/// An insertion-ordered collection of paths; degenerate paths are dropped
/// at insertion, so everything stored is non-degenerate.
#[derive(Debug)]
pub struct PathSet {
    /// The stored paths, in insertion order.
    pub paths: Vec<Path>,
}

impl PathSet {
    /// Everything stored is non-degenerate and within coordinate range.
    pub open spec fn wf(self) -> bool {
        forall|i: int|
            0 <= i < self.paths@.len() ==> !(#[trigger] self.paths@[i]).spec_degenerate()
                && self.paths@[i].spec_bounded()
    }

    pub fn new() -> (r: PathSet)
        ensures
            r.paths@.len() == 0,
            r.wf(),
    {
        PathSet { paths: Vec::new() }
    }

    /// Append `path` unless it is degenerate; the stored prefix is kept as
    /// it was.
    pub fn insert(&mut self, path: Path)
        requires
            old(self).wf(),
            path.spec_bounded(),
        ensures
            final (self).wf(),
            path.spec_degenerate() ==> final (self).paths@ == old(self).paths@,
            !path.spec_degenerate() ==> final (self).paths@ == old(self).paths@.push(path),
    {
        if !path.is_degenerate() {
            self.paths.push(path);
        }
    }

    pub fn len(&self) -> (r: usize)
        ensures
            r == self.paths@.len(),
    {
        self.paths.len()
    }

    pub fn is_empty(&self) -> (r: bool)
        ensures
            r == (self.paths@.len() == 0),
    {
        self.paths.len() == 0
    }

    /// The path at `i`, in insertion order.
    pub fn index(&self, i: usize) -> (r: &Path)
        requires
            i < self.paths@.len(),
        ensures
            *r == self.paths@[i as int],
    {
        &self.paths[i]
    }

    /// The stored paths, in insertion order.
    pub fn iter(&self) -> (r: &Vec<Path>)
        ensures
            r@ == self.paths@,
    {
        &self.paths
    }

    pub fn up_ends_at(&self, x: i32, y: i32) -> (r: bool)
        ensures
            r == exists|i: int|
                0 <= i < self.paths@.len() && (#[trigger] self.paths@[i]).spec_up_ends_at(
                    x as int,
                    y as int,
                ),
    {
        let mut k: usize = 0;
        while k < self.paths.len()
            invariant
                k <= self.paths@.len(),
                forall|i: int|
                    0 <= i < k ==> !(#[trigger] self.paths@[i]).spec_up_ends_at(x as int, y as int),
            decreases self.paths@.len() - k,
        {
            if self.paths[k].up_ends_at(x, y) {
                return true;
            }
            k = k + 1;
        }
        false
    }

    pub fn down_ends_at(&self, x: i32, y: i32) -> (r: bool)
        ensures
            r == exists|i: int|
                0 <= i < self.paths@.len() && (#[trigger] self.paths@[i]).spec_down_ends_at(
                    x as int,
                    y as int,
                ),
    {
        let mut k: usize = 0;
        while k < self.paths.len()
            invariant
                k <= self.paths@.len(),
                forall|i: int|
                    0 <= i < k ==> !(#[trigger] self.paths@[i]).spec_down_ends_at(
                        x as int,
                        y as int,
                    ),
            decreases self.paths@.len() - k,
        {
            if self.paths[k].down_ends_at(x, y) {
                return true;
            }
            k = k + 1;
        }
        false
    }

    pub fn left_ends_at(&self, x: i32, y: i32) -> (r: bool)
        ensures
            r == exists|i: int|
                0 <= i < self.paths@.len() && (#[trigger] self.paths@[i]).spec_left_ends_at(
                    x as int,
                    y as int,
                ),
    {
        let mut k: usize = 0;
        while k < self.paths.len()
            invariant
                k <= self.paths@.len(),
                forall|i: int|
                    0 <= i < k ==> !(#[trigger] self.paths@[i]).spec_left_ends_at(
                        x as int,
                        y as int,
                    ),
            decreases self.paths@.len() - k,
        {
            if self.paths[k].left_ends_at(x, y) {
                return true;
            }
            k = k + 1;
        }
        false
    }

    pub fn right_ends_at(&self, x: i32, y: i32) -> (r: bool)
        ensures
            r == exists|i: int|
                0 <= i < self.paths@.len() && (#[trigger] self.paths@[i]).spec_right_ends_at(
                    x as int,
                    y as int,
                ),
    {
        let mut k: usize = 0;
        while k < self.paths.len()
            invariant
                k <= self.paths@.len(),
                forall|i: int|
                    0 <= i < k ==> !(#[trigger] self.paths@[i]).spec_right_ends_at(
                        x as int,
                        y as int,
                    ),
            decreases self.paths@.len() - k,
        {
            if self.paths[k].right_ends_at(x, y) {
                return true;
            }
            k = k + 1;
        }
        false
    }

    pub fn vertical_passes_through(&self, x: i32, y: i32) -> (r: bool)
        ensures
            r == exists|i: int|
                0 <= i < self.paths@.len() && (
                #[trigger] self.paths@[i]).spec_vertical_passes_through(x as int, y as int),
    {
        let mut k: usize = 0;
        while k < self.paths.len()
            invariant
                k <= self.paths@.len(),
                forall|i: int|
                    0 <= i < k ==> !(#[trigger] self.paths@[i]).spec_vertical_passes_through(
                        x as int,
                        y as int,
                    ),
            decreases self.paths@.len() - k,
        {
            if self.paths[k].vertical_passes_through(x, y) {
                return true;
            }
            k = k + 1;
        }
        false
    }

    pub fn horizontal_passes_through(&self, x: i32, y: i32) -> (r: bool)
        ensures
            r == exists|i: int|
                0 <= i < self.paths@.len() && (
                #[trigger] self.paths@[i]).spec_horizontal_passes_through(x as int, y as int),
    {
        let mut k: usize = 0;
        while k < self.paths.len()
            invariant
                k <= self.paths@.len(),
                forall|i: int|
                    0 <= i < k ==> !(#[trigger] self.paths@[i]).spec_horizontal_passes_through(
                        x as int,
                        y as int,
                    ),
            decreases self.paths@.len() - k,
        {
            if self.paths[k].horizontal_passes_through(x, y) {
                return true;
            }
            k = k + 1;
        }
        false
    }

    pub fn diagonal_up_ends_at(&self, x: i32, y: i32) -> (r: bool)
        ensures
            r == exists|i: int|
                0 <= i < self.paths@.len() && (#[trigger] self.paths@[i]).spec_diagonal_up_ends_at(
                    x as int,
                    y as int,
                ),
    {
        let mut k: usize = 0;
        while k < self.paths.len()
            invariant
                k <= self.paths@.len(),
                forall|i: int|
                    0 <= i < k ==> !(#[trigger] self.paths@[i]).spec_diagonal_up_ends_at(
                        x as int,
                        y as int,
                    ),
            decreases self.paths@.len() - k,
        {
            if self.paths[k].diagonal_up_ends_at(x, y) {
                return true;
            }
            k = k + 1;
        }
        false
    }

    pub fn diagonal_down_ends_at(&self, x: i32, y: i32) -> (r: bool)
        ensures
            r == exists|i: int|
                0 <= i < self.paths@.len() && (
                #[trigger] self.paths@[i]).spec_diagonal_down_ends_at(x as int, y as int),
    {
        let mut k: usize = 0;
        while k < self.paths.len()
            invariant
                k <= self.paths@.len(),
                forall|i: int|
                    0 <= i < k ==> !(#[trigger] self.paths@[i]).spec_diagonal_down_ends_at(
                        x as int,
                        y as int,
                    ),
            decreases self.paths@.len() - k,
        {
            if self.paths[k].diagonal_down_ends_at(x, y) {
                return true;
            }
            k = k + 1;
        }
        false
    }

    pub fn back_diagonal_up_ends_at(&self, x: i32, y: i32) -> (r: bool)
        ensures
            r == exists|i: int|
                0 <= i < self.paths@.len() && (
                #[trigger] self.paths@[i]).spec_back_diagonal_up_ends_at(x as int, y as int),
    {
        let mut k: usize = 0;
        while k < self.paths.len()
            invariant
                k <= self.paths@.len(),
                forall|i: int|
                    0 <= i < k ==> !(#[trigger] self.paths@[i]).spec_back_diagonal_up_ends_at(
                        x as int,
                        y as int,
                    ),
            decreases self.paths@.len() - k,
        {
            if self.paths[k].back_diagonal_up_ends_at(x, y) {
                return true;
            }
            k = k + 1;
        }
        false
    }

    pub fn back_diagonal_down_ends_at(&self, x: i32, y: i32) -> (r: bool)
        ensures
            r == exists|i: int|
                0 <= i < self.paths@.len() && (
                #[trigger] self.paths@[i]).spec_back_diagonal_down_ends_at(x as int, y as int),
    {
        let mut k: usize = 0;
        while k < self.paths.len()
            invariant
                k <= self.paths@.len(),
                forall|i: int|
                    0 <= i < k ==> !(#[trigger] self.paths@[i]).spec_back_diagonal_down_ends_at(
                        x as int,
                        y as int,
                    ),
            decreases self.paths@.len() - k,
        {
            if self.paths[k].back_diagonal_down_ends_at(x, y) {
                return true;
            }
            k = k + 1;
        }
        false
    }
}

/// Floor of the square root.
pub open spec fn spec_isqrt(n: nat) -> nat {
    choose|r: nat| #[trigger] (r * r) <= n && n < (r + 1) * (r + 1)
}

/// The square-root floor is unique, so any witness is the chosen one.
pub proof fn lemma_isqrt_val(n: nat, r: nat)
    requires
        r * r <= n,
        n < (r + 1) * (r + 1),
    ensures
        spec_isqrt(n) == r,
{
    assert((r * r) <= n && n < (r + 1) * (r + 1));
    let q = spec_isqrt(n);
    assert((q * q) <= n && n < (q + 1) * (q + 1));
    assert(q == r) by (nonlinear_arith)
        requires
            q * q <= n && n < (q + 1) * (q + 1) && r * r <= n && n < (r + 1) * (r + 1),
    ;
}

/// Floor of the square root, by bisection.
fn isqrt(n: u128) -> (r: u128)
    ensures
        r < 0x1_0000_0000_0000_0000,
        (r * r) as nat <= n as nat,
        (n as nat) < ((r as nat) + 1) * ((r as nat) + 1),
        r as nat == spec_isqrt(n as nat),
{
    let mut lo: u128 = 0;
    let mut hi: u128 = 0x1_0000_0000_0000_0000;
    proof {
        assert((hi as nat) * (hi as nat) > n as nat) by (nonlinear_arith)
            requires
                hi == 0x1_0000_0000_0000_0000u128 && (n as nat) < 0x1_0000_0000_0000_0000_0000_0000_0000_0000nat,
        ;
    }
    while hi - lo > 1
        invariant
            lo < hi <= 0x1_0000_0000_0000_0000,
            (lo * lo) as nat <= n as nat,
            (hi as nat) * (hi as nat) > n as nat,
        decreases hi - lo,
    {
        let mid: u128 = lo + (hi - lo) / 2;
        proof {
            assert((mid as nat) * (mid as nat) < 0x1_0000_0000_0000_0000_0000_0000_0000_0000nat)
                by (nonlinear_arith)
                requires
                    (mid as nat) < 0x1_0000_0000_0000_0000nat,
            ;
        }
        if mid * mid <= n {
            lo = mid;
        } else {
            hi = mid;
        }
    }
    proof {
        assert(hi == lo + 1);
        lemma_isqrt_val(n as nat, lo as nat);
    }
    lo
}

/// Division rounded to the nearest integer, halves away from zero; the
/// divisor is positive.
pub open spec fn spec_round_div(a: int, b: int) -> int {
    if a >= 0 {
        (a + b / 2) / b
    } else {
        -(((-a) + b / 2) / b)
    }
}

/// Division rounded toward positive infinity; the divisor is positive.
pub open spec fn spec_ceil_div(a: int, b: int) -> int {
    if a >= 0 {
        (a + b - 1) / b
    } else {
        -((-a) / b)
    }
}

fn round_div_i128(a: i128, b: i128) -> (r: i128)
    requires
        b > 0,
        -0x1000_0000_0000_0000_0000_0000_0000 < a < 0x1000_0000_0000_0000_0000_0000_0000,
        b < 0x1000_0000_0000_0000_0000_0000_0000,
    ensures
        r == spec_round_div(a as int, b as int),
{
    if a >= 0 {
        (a + b / 2) / b
    } else {
        -((-a + b / 2) / b)
    }
}

fn ceil_div_i64(a: i64, b: i64) -> (r: i64)
    requires
        b > 0,
        -0x1000_0000_0000_0000 < a < 0x1000_0000_0000_0000,
        b < 0x1000_0000_0000_0000,
    ensures
        r == spec_ceil_div(a as int, b as int),
{
    if a >= 0 {
        (a + b - 1) / b
    } else {
        -((-a) / b)
    }
}

/// A rounded two-pixel offset component never exceeds two pixels by more
/// than one unit.
proof fn lemma_rdiv_small(a: int, s: int)
    requires
        s > 0,
        iabs(a) <= s,
    ensures
        iabs(spec_round_div(2 * FP * a, s)) <= 2 * FP + 1,
{
    let m = iabs(a);
    assert(0 <= 2 * FP * m + s / 2 <= (2 * FP + 1) * s) by (nonlinear_arith)
        requires
            0 <= m <= s && s > 0,
    ;
    assert((2 * FP * m + s / 2) / s <= 2 * FP + 1) by (nonlinear_arith)
        requires
            0 <= 2 * FP * m + s / 2 <= (2 * FP + 1) * s && s > 0,
    ;
    if a >= 0 {
        assert(2 * FP * a == 2 * FP * m);
    } else {
        assert(-(2 * FP * a) == 2 * FP * m);
    }
}

/// The perpendicular offset, in fixed-point units, that separates the two
/// strokes of a double-weight path: the unit normal of the segment, two
/// pixels long, rounded at the output resolution.  A zero segment gets no
/// offset.
pub open spec fn spec_double_offset(vx: int, vy: int) -> (int, int) {
    let s = spec_isqrt((vx * vx + vy * vy) as nat);
    if s == 0 {
        (0, 0)
    } else {
        (spec_round_div(2 * FP * vy, s as int), spec_round_div(-2 * FP * vx, s as int))
    }
}

fn double_offset(vx: i64, vy: i64) -> (r: (i64, i64))
    requires
        -2 * COORD_BOUND <= vx <= 2 * COORD_BOUND,
        -2 * COORD_BOUND <= vy <= 2 * COORD_BOUND,
    ensures
        (r.0 as int, r.1 as int) == spec_double_offset(vx as int, vy as int),
        -300000 <= r.0 <= 300000,
        -300000 <= r.1 <= 300000,
{
    proof {
        assert(0 <= (vx as int) * (vx as int) <= 0x8_0000_0000_0000_0000_0000_0000_0000int && 0
            <= (vy as int) * (vy as int) <= 0x8_0000_0000_0000_0000_0000_0000_0000int && 0 <= (vx
            as int) * (vx as int) + (vy as int) * (vy as int)
            <= 0x10_0000_0000_0000_0000_0000_0000_0000int) by (nonlinear_arith)
            requires
                -2 * COORD_BOUND <= vx <= 2 * COORD_BOUND && -2 * COORD_BOUND <= vy <= 2
                    * COORD_BOUND && COORD_BOUND == 0x38d7ea4c68000i64,
        ;
    }
    let sq: i128 = (vx as i128) * (vx as i128) + (vy as i128) * (vy as i128);
    let s128: u128 = isqrt(sq as u128);
    if s128 == 0 {
        proof {
            assert(spec_isqrt((vx * vx + vy * vy) as nat) == 0);
        }
        return (0, 0);
    }
    proof {
        // the root of a sum of squares this small fits an i64
        assert((s128 as nat) < 0x1000_0000_0000_0000nat) by (nonlinear_arith)
            requires
                (s128 as nat) * (s128 as nat) <= (sq as nat) && (sq as nat)
                    <= 0x10_0000_0000_0000_0000_0000_0000_0000nat,
        ;
    }
    let s: i64 = s128 as i64;
    proof {
        // the root is no smaller than either component, which bounds the
        // rounded quotients by the two-pixel offset itself
        let n = (vx * vx + vy * vy) as nat;
        assert(s as nat == spec_isqrt(n));
        assert(iabs(vy as int) <= s as int && iabs(vx as int) <= s as int) by (nonlinear_arith)
            requires
                (s as nat) * (s as nat) <= n && n < ((s as nat) + 1) * ((s as nat) + 1) && n == (vx
                    as int) * (vx as int) + (vy as int) * (vy as int) && s > 0,
        ;
        lemma_rdiv_small(vy as int, s as int);
        lemma_rdiv_small(-(vx as int), s as int);
    }
    proof {
        assert(-0x1000_0000_0000_0000_0000_0000_0000int < 2 * (FP as int) * (vy as int)
            < 0x1000_0000_0000_0000_0000_0000_0000int && -0x1000_0000_0000_0000_0000_0000_0000int
            < -2 * (FP as int) * (vx as int) < 0x1000_0000_0000_0000_0000_0000_0000int)
            by (nonlinear_arith)
            requires
                -2 * COORD_BOUND <= vx <= 2 * COORD_BOUND && -2 * COORD_BOUND <= vy <= 2
                    * COORD_BOUND && COORD_BOUND == 0x38d7ea4c68000i64 && FP == 100000i64,
        ;
    }
    let ox128: i128 = round_div_i128(2 * (FP as i128) * (vy as i128), s as i128);
    let oy128: i128 = round_div_i128(-2 * (FP as i128) * (vx as i128), s as i128);
    let ox: i64 = ox128 as i64;
    let oy: i64 = oy128 as i64;
    proof {
        assert(ox as int == spec_round_div(2 * FP * (vy as int), s as int));
        assert(oy as int == spec_round_div(-2 * FP * (vx as int), s as int));
    }
    (ox, oy)
}

/// A division by one cell width stays small when the numerator is in
/// coordinate range.
proof fn lemma_cell_div_range(a: int)
    requires
        -2_000_000_000_000_000 <= a <= 2_000_000_000_000_000,
    ensures
        -2_500_000_001 <= spec_round_div(a, 800000) <= 2_500_000_001,
        -2_500_000_001 <= spec_ceil_div(a, 800000) <= 2_500_000_001,
{
    if a >= 0 {
        vstd::arithmetic::div_mod::lemma_div_is_ordered(0, a + 400000, 800000);
        vstd::arithmetic::div_mod::lemma_div_is_ordered(a + 400000, 2_000_000_000_400_000, 800000);
        vstd::arithmetic::div_mod::lemma_div_is_ordered(0, a + 799999, 800000);
        vstd::arithmetic::div_mod::lemma_div_is_ordered(a + 799999, 2_000_000_000_799_999, 800000);
    } else {
        vstd::arithmetic::div_mod::lemma_div_is_ordered(0, (-a) + 400000, 800000);
        vstd::arithmetic::div_mod::lemma_div_is_ordered(
            (-a) + 400000,
            2_000_000_000_400_000,
            800000,
        );
        vstd::arithmetic::div_mod::lemma_div_is_ordered(0, -a, 800000);
        vstd::arithmetic::div_mod::lemma_div_is_ordered(-a, 2_000_000_000_000_000, 800000);
    }
}

fn round_div_i64(a: i64, b: i64) -> (r: i64)
    requires
        b > 0,
        -0x1000_0000_0000_0000 < a < 0x1000_0000_0000_0000,
        b < 0x1000_0000_0000_0000,
    ensures
        r == spec_round_div(a as int, b as int),
{
    if a >= 0 {
        (a + b / 2) / b
    } else {
        -((-a + b / 2) / b)
    }
}

/// Append one serialised coordinate.
fn push_coord(s: &mut String, v: i64)
    requires
        v > i64::MIN,
    ensures
        final (s)@ == old(s)@ + spec_format_coord(v as int),
{
    let t = format_coord(v);
    s.append(t.as_str());
}

/// A point shifted by a raw fixed-point offset.
pub open spec fn spec_shift(v: Vec2, dx: int, dy: int) -> Vec2 {
    Vec2 { x: (v.x + dx) as i64, y: (v.y + dy) as i64 }
}

impl Path {
    /// The path-data of this path drawn once: `M a L b` for a line,
    /// `M a C c d b` for a curve.
    pub open spec fn spec_single_svg(self) -> Seq<char> {
        if self.c is Some && self.d is Some {
            "M "@ + self.a.spec_coords() + " C "@ + self.c->0.spec_coords() + " "@
                + self.d->0.spec_coords() + " "@ + self.b.spec_coords()
        } else {
            "M "@ + self.a.spec_coords() + " L "@ + self.b.spec_coords()
        }
    }

    /// The same path-data with every point shifted by `(dx, dy)`.
    pub open spec fn spec_offset_svg(self, dx: int, dy: int) -> Seq<char> {
        if self.c is Some && self.d is Some {
            "M "@ + spec_shift(self.a, dx, dy).spec_coords() + " C "@ + spec_shift(
                self.c->0,
                dx,
                dy,
            ).spec_coords() + " "@ + spec_shift(self.d->0, dx, dy).spec_coords() + " "@
                + spec_shift(self.b, dx, dy).spec_coords()
        } else {
            "M "@ + spec_shift(self.a, dx, dy).spec_coords() + " L "@ + spec_shift(
                self.b,
                dx,
                dy,
            ).spec_coords()
        }
    }

    /// How many full cells of wave the squiggle covers.
    pub open spec fn spec_squiggle_count(self) -> nat {
        let x0 = if self.a.x <= self.b.x {
            self.a.x
        } else {
            self.b.x
        };
        let x1 = if self.a.x <= self.b.x {
            self.b.x
        } else {
            self.a.x
        };
        let g0 = spec_round_div(x0 - CELL_X, CELL_X as int);
        let g1 = spec_ceil_div(x1 - CELL_X, CELL_X as int);
        if g1 > g0 {
            (g1 - g0) as nat
        } else {
            0
        }
    }

    #[verifier::rlimit(60)]
    fn single_line_svg(&self) -> (r: String)
        requires
            self.spec_bounded(),
        ensures
            r@ == self.spec_single_svg(),
    {
        let mut s = String::new();
        s.append("M ");
        push_coord(&mut s, self.a.x);
        s.append(",");
        push_coord(&mut s, self.a.y);
        if let (Some(c), Some(d)) = (self.c, self.d) {
            s.append(" C ");
            push_coord(&mut s, c.x);
            s.append(",");
            push_coord(&mut s, c.y);
            s.append(" ");
            push_coord(&mut s, d.x);
            s.append(",");
            push_coord(&mut s, d.y);
            s.append(" ");
            push_coord(&mut s, self.b.x);
            s.append(",");
            push_coord(&mut s, self.b.y);
        } else {
            s.append(" L ");
            push_coord(&mut s, self.b.x);
            s.append(",");
            push_coord(&mut s, self.b.y);
        }
        proof {
            assert(s@ =~= self.spec_single_svg());
        }
        s
    }

    #[verifier::rlimit(60)]
    fn offset_line_svg(&self, dx: i64, dy: i64) -> (r: String)
        requires
            self.spec_bounded(),
            -400000 <= dx <= 400000,
            -400000 <= dy <= 400000,
        ensures
            r@ == self.spec_offset_svg(dx as int, dy as int),
    {
        let mut s = String::new();
        s.append("M ");
        push_coord(&mut s, self.a.x + dx);
        s.append(",");
        push_coord(&mut s, self.a.y + dy);
        if let (Some(c), Some(d)) = (self.c, self.d) {
            s.append(" C ");
            push_coord(&mut s, c.x + dx);
            s.append(",");
            push_coord(&mut s, c.y + dy);
            s.append(" ");
            push_coord(&mut s, d.x + dx);
            s.append(",");
            push_coord(&mut s, d.y + dy);
            s.append(" ");
            push_coord(&mut s, self.b.x + dx);
            s.append(",");
            push_coord(&mut s, self.b.y + dy);
        } else {
            s.append(" L ");
            push_coord(&mut s, self.b.x + dx);
            s.append(",");
            push_coord(&mut s, self.b.y + dy);
        }
        proof {
            assert(s@ =~= self.spec_offset_svg(dx as int, dy as int));
        }
        s
    }
}

/// `count` cells of wave starting at `x`: two quadratic arcs per cell,
/// rising a fifth of a cell above the line and falling as far below it.
pub open spec fn spec_squiggle_q(x: int, y: int, count: nat) -> Seq<char>
    decreases count,
{
    if count == 0 {
        Seq::<char>::empty()
    } else {
        " Q "@ + spec_format_coord(x + 200000) + ","@ + spec_format_coord(y - 320000) + " "@
            + spec_format_coord(x + 400000) + ","@ + spec_format_coord(y) + " Q "@
            + spec_format_coord(x + 600000) + ","@ + spec_format_coord(y + 320000) + " "@
            + spec_format_coord(x + 800000) + ","@ + spec_format_coord(y) + spec_squiggle_q(
            x + 800000,
            y,
            (count - 1) as nat,
        )
    }
}

impl Path {
    /// The wavy rendering of a squiggle-styled horizontal path.
    pub open spec fn spec_squiggle_svg(self) -> Seq<char> {
        let x0 = if self.a.x <= self.b.x {
            self.a.x
        } else {
            self.b.x
        };
        "M "@ + spec_format_coord(x0 as int) + ","@ + spec_format_coord(self.a.y as int)
            + spec_squiggle_q(x0 as int, self.a.y as int, self.spec_squiggle_count()) + " "@
    }

    #[verifier::rlimit(90)]
    fn squiggle_svg(&self) -> (r: String)
        requires
            self.spec_bounded(),
        ensures
            r@ == self.spec_squiggle_svg(),
    {
        let x0: i64 = if self.a.x <= self.b.x {
            self.a.x
        } else {
            self.b.x
        };
        let x1: i64 = if self.a.x <= self.b.x {
            self.b.x
        } else {
            self.a.x
        };
        let y: i64 = self.a.y;
        let g0: i64 = round_div_i64(x0 - CELL_X, CELL_X);
        let g1: i64 = ceil_div_i64(x1 - CELL_X, CELL_X);
        proof {
            lemma_cell_div_range(x0 as int - CELL_X);
            lemma_cell_div_range(x1 as int - CELL_X);
        }
        let mut k: i64 = if g1 > g0 {
            g1 - g0
        } else {
            0
        };
        let ghost total = k as nat;
        proof {
            assert(total == self.spec_squiggle_count());
            assert(total <= 5_100_000_000);
        }
        let mut s = String::new();
        s.append("M ");
        push_coord(&mut s, x0);
        s.append(",");
        push_coord(&mut s, y);
        let ghost prefix = s@;
        let mut cx: i64 = x0;
        while k > 0
            invariant
                0 <= k <= total,
                total <= 5_100_000_000,
                -2_000_000_000_000_000 <= x0 <= 2_000_000_000_000_000,
                -2_000_000_000_000_000 <= y <= 2_000_000_000_000_000,
                cx as int == x0 + (total - k) * CELL_X,
                -2_000_000_000_000_000 <= cx <= 7_000_000_000_000_000,
                s@ + spec_squiggle_q(cx as int, y as int, k as nat) == prefix + spec_squiggle_q(
                    x0 as int,
                    y as int,
                    total,
                ),
            decreases k,
        {
            s.append(" Q ");
            push_coord(&mut s, cx + 200000);
            s.append(",");
            push_coord(&mut s, y - 320000);
            s.append(" ");
            push_coord(&mut s, cx + 400000);
            s.append(",");
            push_coord(&mut s, y);
            s.append(" Q ");
            push_coord(&mut s, cx + 600000);
            s.append(",");
            push_coord(&mut s, y + 320000);
            s.append(" ");
            push_coord(&mut s, cx + 800000);
            s.append(",");
            push_coord(&mut s, y);
            proof {
                assert((total - k + 1) * CELL_X == (total - k) * CELL_X + CELL_X);
                assert((total - k) * CELL_X <= 5_100_000_000int * 800000) by (nonlinear_arith)
                    requires
                        0 <= total - k <= 5_100_000_000,
                ;
                assert(s@ + spec_squiggle_q(cx as int + 800000, y as int, (k - 1) as nat) =~= prefix
                    + spec_squiggle_q(x0 as int, y as int, total));
            }
            cx = cx + 800000;
            k = k - 1;
        }
        s.append(" ");
        proof {
            assert(s@ =~= self.spec_squiggle_svg());
        }
        s
    }

    /// The path-data strings this path serialises to: one for an ordinary
    /// path, a wave for a horizontal squiggle, and two parallel strokes,
    /// offset along the unit normal, for a double-weight path.
    pub open spec fn spec_svg_datas(self) -> Seq<Seq<char>> {
        if self.style.squiggle && self.spec_horizontal() {
            seq![self.spec_squiggle_svg()]
        } else if self.style.double {
            let o = spec_double_offset(
                self.b.x - self.a.x as int,
                self.b.y - self.a.y as int,
            );
            seq![self.spec_offset_svg(o.0, o.1), self.spec_offset_svg(-o.0, -o.1)]
        } else {
            seq![self.spec_single_svg()]
        }
    }

    /// Serialise to SVG path data; double-weight paths give two strings.
    pub fn to_svg_paths(&self) -> (r: Vec<String>)
        requires
            self.spec_bounded(),
        ensures
            r@.map_values(|t: String| t@) == self.spec_svg_datas(),
    {
        let mut out: Vec<String> = Vec::new();
        if self.style.squiggle && self.is_horizontal() {
            out.push(self.squiggle_svg());
        } else if self.style.double {
            let vx: i64 = self.b.x - self.a.x;
            let vy: i64 = self.b.y - self.a.y;
            let o = double_offset(vx, vy);
            out.push(self.offset_line_svg(o.0, o.1));
            out.push(self.offset_line_svg(-o.0, -o.1));
        } else {
            out.push(self.single_line_svg());
        }
        proof {
            assert(out@.map_values(|t: String| t@) =~~= self.spec_svg_datas());
        }
        out
    }
}

/// One serialised `<path>` element with the given path data, dashed when
/// the path's style says so.
pub open spec fn spec_path_entry(p: Path, data: Seq<char>) -> Seq<char> {
    "<path d=\""@ + data + "\" fill=\"none\" stroke=\"var(--aasvg-stroke)\""@ + (if p.style.dashed {
        " stroke-dasharray=\"4,2\""@
    } else {
        Seq::<char>::empty()
    }) + "/>\n"@
}

/// The `<path>` elements of one path, one per data string.
pub open spec fn spec_path_entries(p: Path, datas: Seq<Seq<char>>) -> Seq<char>
    decreases datas.len(),
{
    if datas.len() == 0 {
        Seq::<char>::empty()
    } else {
        spec_path_entries(p, datas.drop_last()) + spec_path_entry(p, datas.last())
    }
}

/// The concatenated `<path>` elements of a sequence of paths, in order.
pub open spec fn spec_paths_svg(ps: Seq<Path>) -> Seq<char>
    decreases ps.len(),
{
    if ps.len() == 0 {
        Seq::<char>::empty()
    } else {
        spec_paths_svg(ps.drop_last()) + spec_path_entries(
            ps.last(),
            ps.last().spec_svg_datas(),
        )
    }
}

impl PathSet {
    /// Serialise every stored path, in insertion order; a double-weight
    /// path contributes two `<path>` elements.
    pub fn to_svg(&self) -> (r: String)
        requires
            self.wf(),
        ensures
            r@ == spec_paths_svg(self.paths@),
    {
        let mut s = String::new();
        let mut k: usize = 0;
        while k < self.paths.len()
            invariant
                self.wf(),
                k <= self.paths@.len(),
                s@ == spec_paths_svg(self.paths@.take(k as int)),
            decreases self.paths@.len() - k,
        {
            let p = &self.paths[k];
            let datas = p.to_svg_paths();
            let ghost dseq = datas@.map_values(|t: String| t@);
            let mut j: usize = 0;
            while j < datas.len()
                invariant
                    j <= datas@.len(),
                    dseq == datas@.map_values(|t: String| t@),
                    *p == self.paths@[k as int],
                    0 <= k < self.paths@.len(),
                    s@ == spec_paths_svg(self.paths@.take(k as int)) + spec_path_entries(
                        *p,
                        dseq.take(j as int),
                    ),
                decreases datas@.len() - j,
            {
                s.append("<path d=\"");
                s.append(datas[j].as_str());
                s.append("\" fill=\"none\" stroke=\"var(--aasvg-stroke)\"");
                if p.style.dashed {
                    s.append(" stroke-dasharray=\"4,2\"");
                }
                proof {
                    assert(dseq.take(j as int + 1).drop_last() =~~= dseq.take(j as int));
                    assert(dseq.take(j as int + 1).last() == dseq[j as int]);
                }
                s.append("/>\n");
                proof {
                    assert(s@ =~= spec_paths_svg(self.paths@.take(k as int)) + spec_path_entries(
                        *p,
                        dseq.take(j as int + 1),
                    ));
                }
                j = j + 1;
            }
            proof {
                assert(dseq.take(dseq.len() as int) =~~= dseq);
                assert(self.paths@.take(k as int + 1).drop_last() =~= self.paths@.take(k as int));
                assert(self.paths@.take(k as int + 1).last() == self.paths@[k as int]);
                assert(s@ =~= spec_paths_svg(self.paths@.take(k as int + 1)));
            }
            k = k + 1;
        }
        proof {
            assert(self.paths@.take(self.paths@.len() as int) =~= self.paths@);
        }
        s
    }
}

} // verus!
