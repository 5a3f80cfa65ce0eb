//! Decorations: arrowheads, point markers, jump bridges, gray fills, and
//! triangles, each placed at one grid cell and serialised to SVG elements.

use vstd::prelude::*;
use vstd::string::StringExecFns;
use crate::chars::{gray_level, spec_gray_level, spec_tri_angle, tri_angle};
use crate::numfmt::{spec_dec_digits, spec_format_coord, u64_to_dec};
use crate::path::{spec_from_grid, spec_in_coord_range, Vec2};

verus! {

/// Angle units per degree: angles share the coordinate resolution.
pub const DEG: i64 = 100000;

/// Rotation of a right-pointing arrowhead.
pub const ARROW_RIGHT: i64 = 0;

/// Rotation of a down-pointing arrowhead.
pub const ARROW_DOWN: i64 = 9000000;

/// Rotation of a left-pointing arrowhead.
pub const ARROW_LEFT: i64 = 18000000;

/// Rotation of an up-pointing arrowhead.
pub const ARROW_UP: i64 = 27000000;

/// The slope angle of a diagonal, `atan(ASPECT)` in degrees, at the output
/// resolution.
pub const DIAGONAL_ANGLE: i64 = 6343495;

/// Rotation for an arrowhead on the upper end of a forward diagonal.
pub fn arrow_angle_diagonal_up() -> (r: i64)
    ensures
        r == 36000000 - DIAGONAL_ANGLE,
{
    36000000 - DIAGONAL_ANGLE
}

/// Rotation for an arrowhead on the lower end of a forward diagonal.
pub fn arrow_angle_diagonal_down() -> (r: i64)
    ensures
        r == DIAGONAL_ANGLE,
{
    DIAGONAL_ANGLE
}

/// Rotation for an arrowhead on the upper end of a back diagonal.
pub fn arrow_angle_back_diagonal_up() -> (r: i64)
    ensures
        r == 18000000 + DIAGONAL_ANGLE,
{
    18000000 + DIAGONAL_ANGLE
}

/// Rotation for an arrowhead on the lower end of a back diagonal.
pub fn arrow_angle_back_diagonal_down() -> (r: i64)
    ensures
        r == 18000000 - DIAGONAL_ANGLE,
{
    18000000 - DIAGONAL_ANGLE
}

/// What a decoration draws.
#[derive(Debug, Clone, Copy, PartialEq, Eq, Structural)]
pub enum DecorationType {
    /// Arrow head.
    Arrow,
    /// Closed (filled) point.
    ClosedPoint,
    /// Open point.
    OpenPoint,
    /// Dotted point.
    DottedPoint,
    /// Shaded point.
    ShadedPoint,
    /// Point with a cross through it.
    XorPoint,
    /// Jump curve bridging a line crossing; the glyph says which way the
    /// bridge bends.
    Jump(char),
    /// A rectangle filling the cell with a gray level.
    Gray(u8),
    /// A rotated solid triangle.
    Triangle,
}

/// A single decoration, created once by the decoration finder and immutable
/// thereafter.
#[derive(Debug, Clone)]
pub struct Decoration {
    /// Centre position, in output space.
    pub pos: Vec2,
    /// What is drawn there.
    pub kind: DecorationType,
    /// Rotation, in `DEG` units per degree.
    pub angle: i64,
    /// Start anchor of a bridge curve, where one is carried.
    pub jump_from: Option<Vec2>,
    /// End anchor of a bridge curve, where one is carried.
    pub jump_to: Option<Vec2>,
}

impl Decoration {
    /// The position and rotation stay in workable range.
    pub open spec fn wf(self) -> bool {
        &&& spec_in_coord_range(self.pos)
        &&& -100000000 <= self.angle <= 100000000
    }

    /// An arrowhead at `(x, y)` rotated by `angle`.
    pub fn arrow(x: i32, y: i32, angle: i64) -> (r: Decoration)
        requires
            -500000000 <= x <= 500000000,
            -500000000 <= y <= 500000000,
            -100000000 <= angle <= 100000000,
        ensures
            r == (Decoration {
                pos: spec_from_grid(x as int, y as int),
                kind: DecorationType::Arrow,
                angle,
                jump_from: None,
                jump_to: None,
            }),
            r.wf(),
    {
        Decoration {
            pos: Vec2::from_grid(x, y),
            kind: DecorationType::Arrow,
            angle,
            jump_from: None,
            jump_to: None,
        }
    }

    /// A closed point at `(x, y)`.
    pub fn closed_point(x: i32, y: i32) -> (r: Decoration)
        requires
            -500000000 <= x <= 500000000,
            -500000000 <= y <= 500000000,
        ensures
            r == (Decoration {
                pos: spec_from_grid(x as int, y as int),
                kind: DecorationType::ClosedPoint,
                angle: 0i64,
                jump_from: None,
                jump_to: None,
            }),
            r.wf(),
    {
        Decoration {
            pos: Vec2::from_grid(x, y),
            kind: DecorationType::ClosedPoint,
            angle: 0,
            jump_from: None,
            jump_to: None,
        }
    }

    /// An open point at `(x, y)`.
    pub fn open_point(x: i32, y: i32) -> (r: Decoration)
        requires
            -500000000 <= x <= 500000000,
            -500000000 <= y <= 500000000,
        ensures
            r == (Decoration {
                pos: spec_from_grid(x as int, y as int),
                kind: DecorationType::OpenPoint,
                angle: 0i64,
                jump_from: None,
                jump_to: None,
            }),
            r.wf(),
    {
        Decoration {
            pos: Vec2::from_grid(x, y),
            kind: DecorationType::OpenPoint,
            angle: 0,
            jump_from: None,
            jump_to: None,
        }
    }

    /// A dotted point at `(x, y)`.
    pub fn dotted_point(x: i32, y: i32) -> (r: Decoration)
        requires
            -500000000 <= x <= 500000000,
            -500000000 <= y <= 500000000,
        ensures
            r == (Decoration {
                pos: spec_from_grid(x as int, y as int),
                kind: DecorationType::DottedPoint,
                angle: 0i64,
                jump_from: None,
                jump_to: None,
            }),
            r.wf(),
    {
        Decoration {
            pos: Vec2::from_grid(x, y),
            kind: DecorationType::DottedPoint,
            angle: 0,
            jump_from: None,
            jump_to: None,
        }
    }

    /// A shaded point at `(x, y)`.
    pub fn shaded_point(x: i32, y: i32) -> (r: Decoration)
        requires
            -500000000 <= x <= 500000000,
            -500000000 <= y <= 500000000,
        ensures
            r == (Decoration {
                pos: spec_from_grid(x as int, y as int),
                kind: DecorationType::ShadedPoint,
                angle: 0i64,
                jump_from: None,
                jump_to: None,
            }),
            r.wf(),
    {
        Decoration {
            pos: Vec2::from_grid(x, y),
            kind: DecorationType::ShadedPoint,
            angle: 0,
            jump_from: None,
            jump_to: None,
        }
    }

    /// A crossed point at `(x, y)`.
    pub fn xor_point(x: i32, y: i32) -> (r: Decoration)
        requires
            -500000000 <= x <= 500000000,
            -500000000 <= y <= 500000000,
        ensures
            r == (Decoration {
                pos: spec_from_grid(x as int, y as int),
                kind: DecorationType::XorPoint,
                angle: 0i64,
                jump_from: None,
                jump_to: None,
            }),
            r.wf(),
    {
        Decoration {
            pos: Vec2::from_grid(x, y),
            kind: DecorationType::XorPoint,
            angle: 0,
            jump_from: None,
            jump_to: None,
        }
    }

    /// A jump bridge at `(x, y)`; `c` is the jump glyph and says which way
    /// the bridge bends.
    pub fn jump(x: i32, y: i32, c: char) -> (r: Decoration)
        requires
            -500000000 <= x <= 500000000,
            -500000000 <= y <= 500000000,
        ensures
            r == (Decoration {
                pos: spec_from_grid(x as int, y as int),
                kind: DecorationType::Jump(c),
                angle: 0i64,
                jump_from: None,
                jump_to: None,
            }),
            r.wf(),
    {
        Decoration {
            pos: Vec2::from_grid(x, y),
            kind: DecorationType::Jump(c),
            angle: 0,
            jump_from: None,
            jump_to: None,
        }
    }

    /// A gray fill at `(x, y)` with the level of the shading glyph `c`.
    pub fn gray(x: i32, y: i32, c: char) -> (r: Decoration)
        requires
            -500000000 <= x <= 500000000,
            -500000000 <= y <= 500000000,
        ensures
            r == (Decoration {
                pos: spec_from_grid(x as int, y as int),
                kind: DecorationType::Gray(spec_gray_level(c)),
                angle: 0i64,
                jump_from: None,
                jump_to: None,
            }),
            r.wf(),
    {
        Decoration {
            pos: Vec2::from_grid(x, y),
            kind: DecorationType::Gray(gray_level(c)),
            angle: 0,
            jump_from: None,
            jump_to: None,
        }
    }

    /// A triangle at `(x, y)` with the rotation of the triangle glyph `c`.
    pub fn triangle(x: i32, y: i32, c: char) -> (r: Decoration)
        requires
            -500000000 <= x <= 500000000,
            -500000000 <= y <= 500000000,
        ensures
            r == (Decoration {
                pos: spec_from_grid(x as int, y as int),
                kind: DecorationType::Triangle,
                angle: spec_tri_angle(c),
                jump_from: None,
                jump_to: None,
            }),
            r.wf(),
    {
        Decoration {
            pos: Vec2::from_grid(x, y),
            kind: DecorationType::Triangle,
            angle: tri_angle(c),
            jump_from: None,
            jump_to: None,
        }
    }
}

/// The serialised centre `cx,cy` attribute pair of a circle of radius six
/// pixels.
pub open spec fn spec_circle_prefix(pos: Vec2) -> Seq<char> {
    "<circle cx=\""@ + spec_format_coord(pos.x as int) + "\" cy=\""@ + spec_format_coord(
        pos.y as int,
    ) + "\" r=\"6\""@
}

impl Decoration {
    pub open spec fn spec_arrow_svg(self) -> Seq<char> {
        "<polygon points=\"8,0 -4,-3 -4,3\" fill=\"var(--aasvg-fill)\" transform=\"translate("@
            + spec_format_coord(self.pos.x as int) + ","@ + spec_format_coord(self.pos.y as int)
            + ") rotate("@ + spec_format_coord(self.angle as int) + ")\"/>\n"@
    }

    pub open spec fn spec_closed_point_svg(self) -> Seq<char> {
        spec_circle_prefix(self.pos) + " fill=\"var(--aasvg-fill)\"/>\n"@
    }

    pub open spec fn spec_open_point_svg(self) -> Seq<char> {
        spec_circle_prefix(self.pos)
            + " fill=\"var(--aasvg-bg)\" stroke=\"var(--aasvg-stroke)\"/>\n"@
    }

    pub open spec fn spec_dotted_point_svg(self) -> Seq<char> {
        spec_circle_prefix(self.pos)
            + " fill=\"var(--aasvg-bg)\" stroke=\"var(--aasvg-stroke)\" stroke-dasharray=\"2,2\"/>\n"@
    }

    pub open spec fn spec_shaded_point_svg(self) -> Seq<char> {
        spec_circle_prefix(self.pos) + " fill=\"#888\" stroke=\"var(--aasvg-stroke)\"/>\n"@
    }

    pub open spec fn spec_xor_point_svg(self) -> Seq<char> {
        spec_circle_prefix(self.pos)
            + " fill=\"var(--aasvg-bg)\" stroke=\"var(--aasvg-stroke)\"/>\n"@ + "<line x1=\""@
            + spec_format_coord(self.pos.x - 600000) + "\" y1=\""@ + spec_format_coord(
            self.pos.y as int,
        ) + "\" x2=\""@ + spec_format_coord(self.pos.x + 600000) + "\" y2=\""@ + spec_format_coord(
            self.pos.y as int,
        ) + "\" stroke=\"var(--aasvg-stroke)\"/>\n"@ + "<line x1=\""@ + spec_format_coord(
            self.pos.x as int,
        ) + "\" y1=\""@ + spec_format_coord(self.pos.y - 600000) + "\" x2=\""@ + spec_format_coord(
            self.pos.x as int,
        ) + "\" y2=\""@ + spec_format_coord(self.pos.y + 600000)
            + "\" stroke=\"var(--aasvg-stroke)\"/>\n"@
    }

    /// The one cubic the bridge follows, from half a cell below to half a
    /// cell above, bowed sideways by three quarters of a cell.
    pub open spec fn spec_jump_curve(self, c: char) -> Seq<char> {
        let bow: int = if c == ')' {
            600000
        } else {
            -600000
        };
        "M "@ + spec_format_coord(self.pos.x as int) + ","@ + spec_format_coord(self.pos.y + 800000)
            + " C "@ + spec_format_coord(self.pos.x + bow) + ","@ + spec_format_coord(
            self.pos.y + 800000,
        ) + " "@ + spec_format_coord(self.pos.x + bow) + ","@ + spec_format_coord(
            self.pos.y - 800000,
        ) + " "@ + spec_format_coord(self.pos.x as int) + ","@ + spec_format_coord(
            self.pos.y - 800000,
        )
    }

    /// Two stacked curves: a thick background-coloured one that visually
    /// breaks the crossing line, and a normal stroke on top.
    pub open spec fn spec_jump_svg(self, c: char) -> Seq<char> {
        "<path d=\""@ + self.spec_jump_curve(c)
            + "\" fill=\"none\" stroke=\"var(--aasvg-bg)\" stroke-width=\"3\"/>\n"@ + "<path d=\""@
            + self.spec_jump_curve(c) + "\" fill=\"none\" stroke=\"var(--aasvg-stroke)\"/>\n"@
    }

    pub open spec fn spec_gray_svg(self, level: u8) -> Seq<char> {
        "<rect x=\""@ + spec_format_coord(self.pos.x - 400000) + "\" y=\""@ + spec_format_coord(
            self.pos.y - 800000,
        ) + "\" width=\"8\" height=\"16\" fill=\"rgb("@ + spec_dec_digits(level as nat) + ","@
            + spec_dec_digits(level as nat) + ","@ + spec_dec_digits(level as nat) + ")\"/>\n"@
    }

    pub open spec fn spec_triangle_svg(self) -> Seq<char> {
        "<polygon points=\"4,0 -4,-8 -4,8\" fill=\"var(--aasvg-fill)\" transform=\"translate("@
            + spec_format_coord(self.pos.x as int) + ","@ + spec_format_coord(self.pos.y as int)
            + ") rotate("@ + spec_format_coord(self.angle as int) + ")\"/>\n"@
    }

    /// The SVG elements this decoration serialises to.
    pub open spec fn spec_svg(self) -> Seq<char> {
        match self.kind {
            DecorationType::Arrow => self.spec_arrow_svg(),
            DecorationType::ClosedPoint => self.spec_closed_point_svg(),
            DecorationType::OpenPoint => self.spec_open_point_svg(),
            DecorationType::DottedPoint => self.spec_dotted_point_svg(),
            DecorationType::ShadedPoint => self.spec_shaded_point_svg(),
            DecorationType::XorPoint => self.spec_xor_point_svg(),
            DecorationType::Jump(c) => self.spec_jump_svg(c),
            DecorationType::Gray(level) => self.spec_gray_svg(level),
            DecorationType::Triangle => self.spec_triangle_svg(),
        }
    }
}

/// Append one serialised coordinate.
fn push_coord(s: &mut String, v: i64)
    requires
        v > i64::MIN,
    ensures
        final (s)@ == old(s)@ + spec_format_coord(v as int),
{
    let t = crate::numfmt::format_coord(v);
    s.append(t.as_str());
}

impl Decoration {
    #[verifier::rlimit(60)]
    fn arrow_svg(&self) -> (r: String)
        requires
            self.wf(),
        ensures
            r@ == self.spec_arrow_svg(),
    {
        let mut s = String::new();
        s.append(
            "<polygon points=\"8,0 -4,-3 -4,3\" fill=\"var(--aasvg-fill)\" transform=\"translate(",
        );
        push_coord(&mut s, self.pos.x);
        s.append(",");
        push_coord(&mut s, self.pos.y);
        s.append(") rotate(");
        push_coord(&mut s, self.angle);
        s.append(")\"/>\n");
        proof {
            assert(s@ =~= self.spec_arrow_svg());
        }
        s
    }

    fn circle_prefix(&self) -> (r: String)
        requires
            self.wf(),
        ensures
            r@ == spec_circle_prefix(self.pos),
    {
        let mut s = String::new();
        s.append("<circle cx=\"");
        push_coord(&mut s, self.pos.x);
        s.append("\" cy=\"");
        push_coord(&mut s, self.pos.y);
        s.append("\" r=\"6\"");
        proof {
            assert(s@ =~= spec_circle_prefix(self.pos));
        }
        s
    }

    fn closed_point_svg(&self) -> (r: String)
        requires
            self.wf(),
        ensures
            r@ == self.spec_closed_point_svg(),
    {
        let mut s = self.circle_prefix();
        s.append(" fill=\"var(--aasvg-fill)\"/>\n");
        proof {
            assert(s@ =~= self.spec_closed_point_svg());
        }
        s
    }

    fn open_point_svg(&self) -> (r: String)
        requires
            self.wf(),
        ensures
            r@ == self.spec_open_point_svg(),
    {
        let mut s = self.circle_prefix();
        s.append(" fill=\"var(--aasvg-bg)\" stroke=\"var(--aasvg-stroke)\"/>\n");
        proof {
            assert(s@ =~= self.spec_open_point_svg());
        }
        s
    }

    fn dotted_point_svg(&self) -> (r: String)
        requires
            self.wf(),
        ensures
            r@ == self.spec_dotted_point_svg(),
    {
        let mut s = self.circle_prefix();
        s.append(
            " fill=\"var(--aasvg-bg)\" stroke=\"var(--aasvg-stroke)\" stroke-dasharray=\"2,2\"/>\n",
        );
        proof {
            assert(s@ =~= self.spec_dotted_point_svg());
        }
        s
    }

    fn shaded_point_svg(&self) -> (r: String)
        requires
            self.wf(),
        ensures
            r@ == self.spec_shaded_point_svg(),
    {
        let mut s = self.circle_prefix();
        s.append(" fill=\"#888\" stroke=\"var(--aasvg-stroke)\"/>\n");
        proof {
            assert(s@ =~= self.spec_shaded_point_svg());
        }
        s
    }

    #[verifier::rlimit(90)]
    fn xor_point_svg(&self) -> (r: String)
        requires
            self.wf(),
        ensures
            r@ == self.spec_xor_point_svg(),
    {
        let mut s = self.circle_prefix();
        s.append(" fill=\"var(--aasvg-bg)\" stroke=\"var(--aasvg-stroke)\"/>\n");
        s.append("<line x1=\"");
        push_coord(&mut s, self.pos.x - 600000);
        s.append("\" y1=\"");
        push_coord(&mut s, self.pos.y);
        s.append("\" x2=\"");
        push_coord(&mut s, self.pos.x + 600000);
        s.append("\" y2=\"");
        push_coord(&mut s, self.pos.y);
        s.append("\" stroke=\"var(--aasvg-stroke)\"/>\n");
        s.append("<line x1=\"");
        push_coord(&mut s, self.pos.x);
        s.append("\" y1=\"");
        push_coord(&mut s, self.pos.y - 600000);
        s.append("\" x2=\"");
        push_coord(&mut s, self.pos.x);
        s.append("\" y2=\"");
        push_coord(&mut s, self.pos.y + 600000);
        s.append("\" stroke=\"var(--aasvg-stroke)\"/>\n");
        proof {
            assert(s@ =~= self.spec_xor_point_svg());
        }
        s
    }

    #[verifier::rlimit(60)]
    fn jump_curve(&self, c: char) -> (r: String)
        requires
            self.wf(),
        ensures
            r@ == self.spec_jump_curve(c),
    {
        let bow: i64 = if c == ')' {
            600000
        } else {
            -600000
        };
        let mut s = String::new();
        s.append("M ");
        push_coord(&mut s, self.pos.x);
        s.append(",");
        push_coord(&mut s, self.pos.y + 800000);
        s.append(" C ");
        push_coord(&mut s, self.pos.x + bow);
        s.append(",");
        push_coord(&mut s, self.pos.y + 800000);
        s.append(" ");
        push_coord(&mut s, self.pos.x + bow);
        s.append(",");
        push_coord(&mut s, self.pos.y - 800000);
        s.append(" ");
        push_coord(&mut s, self.pos.x);
        s.append(",");
        push_coord(&mut s, self.pos.y - 800000);
        proof {
            assert(s@ =~= self.spec_jump_curve(c));
        }
        s
    }

    #[verifier::rlimit(60)]
    fn jump_svg(&self, c: char) -> (r: String)
        requires
            self.wf(),
        ensures
            r@ == self.spec_jump_svg(c),
    {
        let curve = self.jump_curve(c);
        let mut s = String::new();
        s.append("<path d=\"");
        s.append(curve.as_str());
        s.append("\" fill=\"none\" stroke=\"var(--aasvg-bg)\" stroke-width=\"3\"/>\n");
        s.append("<path d=\"");
        s.append(curve.as_str());
        s.append("\" fill=\"none\" stroke=\"var(--aasvg-stroke)\"/>\n");
        proof {
            assert(s@ =~= self.spec_jump_svg(c));
        }
        s
    }

    #[verifier::rlimit(60)]
    fn gray_svg(&self, level: u8) -> (r: String)
        requires
            self.wf(),
        ensures
            r@ == self.spec_gray_svg(level),
    {
        let fill = u64_to_dec(level as u64);
        let mut s = String::new();
        s.append("<rect x=\"");
        push_coord(&mut s, self.pos.x - 400000);
        s.append("\" y=\"");
        push_coord(&mut s, self.pos.y - 800000);
        s.append("\" width=\"8\" height=\"16\" fill=\"rgb(");
        s.append(fill.as_str());
        s.append(",");
        s.append(fill.as_str());
        s.append(",");
        s.append(fill.as_str());
        s.append(")\"/>\n");
        proof {
            assert(s@ =~= self.spec_gray_svg(level));
        }
        s
    }

    #[verifier::rlimit(60)]
    fn triangle_svg(&self) -> (r: String)
        requires
            self.wf(),
        ensures
            r@ == self.spec_triangle_svg(),
    {
        let mut s = String::new();
        s.append(
            "<polygon points=\"4,0 -4,-8 -4,8\" fill=\"var(--aasvg-fill)\" transform=\"translate(",
        );
        push_coord(&mut s, self.pos.x);
        s.append(",");
        push_coord(&mut s, self.pos.y);
        s.append(") rotate(");
        push_coord(&mut s, self.angle);
        s.append(")\"/>\n");
        proof {
            assert(s@ =~= self.spec_triangle_svg());
        }
        s
    }

    /// Serialise this decoration to its SVG elements.
    pub fn to_svg(&self) -> (r: String)
        requires
            self.wf(),
        ensures
            r@ == self.spec_svg(),
    {
        match self.kind {
            DecorationType::Arrow => self.arrow_svg(),
            DecorationType::ClosedPoint => self.closed_point_svg(),
            DecorationType::OpenPoint => self.open_point_svg(),
            DecorationType::DottedPoint => self.dotted_point_svg(),
            DecorationType::ShadedPoint => self.shaded_point_svg(),
            DecorationType::XorPoint => self.xor_point_svg(),
            DecorationType::Jump(c) => self.jump_svg(c),
            DecorationType::Gray(level) => self.gray_svg(level),
            DecorationType::Triangle => self.triangle_svg(),
        }
    }
}

/// A jump bridge never collapses: whatever its cell, the two anchors of
/// its curve sit a full cell apart vertically, far beyond the degeneracy
/// tolerance.
pub proof fn lemma_jump_bridge_spans_a_cell(d: Decoration)
    ensures
        crate::path::iabs((d.pos.y + 800000) - (d.pos.y - 800000)) == crate::path::CELL_Y,
        crate::path::iabs((d.pos.y + 800000) - (d.pos.y - 800000)) > crate::path::DEGEN,
{
}

/// The concatenated SVG of a sequence of decorations, in order.
pub open spec fn spec_decorations_svg(ds: Seq<Decoration>) -> Seq<char>
    decreases ds.len(),
{
    if ds.len() == 0 {
        Seq::<char>::empty()
    } else {
        spec_decorations_svg(ds.drop_last()) + ds.last().spec_svg()
    }
}

/// An insertion-ordered collection of decorations, serialised in insertion
/// order.
#[derive(Debug)]
pub struct DecorationSet {
    /// The stored decorations, in insertion order.
    pub decorations: Vec<Decoration>,
}

impl DecorationSet {
    /// Everything stored is well-formed.
    pub open spec fn wf(self) -> bool {
        forall|i: int| 0 <= i < self.decorations@.len() ==> (#[trigger] self.decorations@[i]).wf()
    }

    pub fn new() -> (r: DecorationSet)
        ensures
            r.decorations@.len() == 0,
            r.wf(),
    {
        DecorationSet { decorations: Vec::new() }
    }

    /// Append a decoration; the stored prefix is kept as it was.
    pub fn insert(&mut self, decoration: Decoration)
        requires
            old(self).wf(),
            decoration.wf(),
        ensures
            final (self).wf(),
            final (self).decorations@ == old(self).decorations@.push(decoration),
    {
        self.decorations.push(decoration);
    }

    pub fn len(&self) -> (r: usize)
        ensures
            r == self.decorations@.len(),
    {
        self.decorations.len()
    }

    pub fn is_empty(&self) -> (r: bool)
        ensures
            r == (self.decorations@.len() == 0),
    {
        self.decorations.len() == 0
    }

    /// The decoration at `i`, in insertion order.
    pub fn index(&self, i: usize) -> (r: &Decoration)
        requires
            i < self.decorations@.len(),
        ensures
            *r == self.decorations@[i as int],
    {
        &self.decorations[i]
    }

    /// The stored decorations, in insertion order.
    pub fn iter(&self) -> (r: &Vec<Decoration>)
        ensures
            r@ == self.decorations@,
    {
        &self.decorations
    }

    /// Serialise every decoration, in insertion order.
    pub fn to_svg(&self) -> (r: String)
        requires
            self.wf(),
        ensures
            r@ == spec_decorations_svg(self.decorations@),
    {
        let mut s = String::new();
        let mut k: usize = 0;
        while k < self.decorations.len()
            invariant
                self.wf(),
                k <= self.decorations@.len(),
                s@ == spec_decorations_svg(self.decorations@.take(k as int)),
            decreases self.decorations@.len() - k,
        {
            let t = self.decorations[k].to_svg();
            s.append(t.as_str());
            proof {
                assert(self.decorations@.take(k as int + 1).drop_last() =~= self.decorations@.take(
                    k as int,
                ));
                assert(self.decorations@.take(k as int + 1).last() == self.decorations@[k as int]);
            }
            k = k + 1;
        }
        proof {
            assert(self.decorations@.take(self.decorations@.len() as int) =~= self.decorations@);
        }
        s
    }
}

} // verus!
