//! The line finder and the decoration finder.
//!
//! The line finder walks the grid in a fixed order of passes — vertical
//! runs, short circuit stubs, horizontal runs, the two diagonal families,
//! curved corners, underscore runs — consuming matched cells through the
//! grid's used-mask.  The order is deliberate greedy matching: later passes
//! depend on cells already claimed, and ambiguous glyphs (corner vertices)
//! resolve to whichever family claims them first.  The decoration finder
//! runs strictly afterwards and converts the remaining glyphs into
//! decorations.

use vstd::prelude::*;
use crate::chars::{
    is_ascii_alphanumeric, spec_is_ascii_alphanumeric, spec_gray_level, spec_tri_angle,
    is_ascii_letter, is_bottom_vertex, is_double_v_line, is_gray, is_jump, is_point,
    is_solid_b_line, is_solid_d_line, is_solid_h_line, is_solid_v_line, is_top_vertex,
    is_top_vertex_or_decoration, is_tri, is_vertex, is_vertex_or_left_decoration,
    is_vertex_or_right_decoration, spec_is_ascii_letter, spec_is_bottom_vertex,
    spec_is_double_h_line, spec_is_double_v_line, spec_is_gray, spec_is_jump, spec_is_point,
    spec_is_solid_b_line, spec_is_solid_d_line, spec_is_solid_h_line, spec_is_solid_v_line,
    spec_is_squiggle_h_line, spec_is_top_vertex, spec_is_top_vertex_or_decoration, spec_is_tri,
    spec_is_vertex, spec_is_vertex_or_left_decoration, spec_is_vertex_or_right_decoration,
    is_double_h_line, is_squiggle_h_line,
};
use crate::decoration::{
    arrow_angle_back_diagonal_down, arrow_angle_back_diagonal_up, arrow_angle_diagonal_down,
    arrow_angle_diagonal_up, Decoration, DecorationSet, DecorationType, ARROW_DOWN, ARROW_LEFT,
    ARROW_RIGHT, ARROW_UP, DIAGONAL_ANGLE,
};
use crate::grid::Grid;
use crate::path::{
    spec_from_grid, spec_from_grid_frac, spec_grid_aligned, Path, PathSet, PathStyle, Vec2,
};

verus! {

/// Bound on the cell coordinates the predicate queries accept; grids never
/// exceed it, and neighbour lookups stay far from integer limits.
pub const XY_LIMIT: i32 = 1000000;

/// The vertical-stroke glyph of the chosen weight.
pub open spec fn spec_v_glyph(c: char, dbl: bool) -> bool {
    if dbl {
        spec_is_double_v_line(c)
    } else {
        spec_is_solid_v_line(c)
    }
}

/// Box-drawing glyphs that let a vertical run of the chosen weight stretch
/// upward into them.
pub open spec fn spec_v_box_top(c: char, dbl: bool) -> bool {
    if dbl {
        c == '\u{2565}' || c == '\u{2566}'
    } else {
        c == '\u{2564}'
    }
}

/// Box-drawing glyphs that let a vertical run of the chosen weight stretch
/// downward into them.
pub open spec fn spec_v_box_bottom(c: char, dbl: bool) -> bool {
    if dbl {
        c == '\u{2568}' || c == '\u{2569}'
    } else {
        c == '\u{2567}'
    }
}

/// Does a vertical run of the given weight pass through `(x, y)`?  A
/// stroke glyph continues if a line-like glyph, vertex, jump, point, or
/// diagonal underscore adjoins it; a vertex, arrowhead, or point belongs to
/// the run when a stroke adjoins it on the proper side.
pub open spec fn spec_v_line_at(g: Grid, x: int, y: int, dbl: bool) -> bool {
    let c = g.char_at(x, y);
    let up = g.char_at(x, y - 1);
    let dn = g.char_at(x, y + 1);
    let uprt = g.char_at(x + 1, y - 1);
    let uplt = g.char_at(x - 1, y - 1);
    if spec_v_glyph(c, dbl) {
        spec_is_top_vertex_or_decoration(up) || spec_v_glyph(up, dbl) || spec_is_jump(up)
            || spec_is_bottom_vertex(dn) || dn == 'v' || dn == 'V' || spec_v_glyph(dn, dbl)
            || spec_is_jump(dn) || spec_is_point(up) || spec_is_point(dn) || up == '_' || uplt
            == '_' || uprt == '_' || ((spec_is_top_vertex(uplt) || spec_is_top_vertex(uprt)) && (
        spec_is_bottom_vertex(g.char_at(x - 1, y + 1)) || spec_is_bottom_vertex(
            g.char_at(x + 1, y + 1),
        )))
    } else if spec_is_top_vertex(c) || c == '^' {
        spec_v_glyph(dn, dbl) || (spec_is_jump(dn) && c != '.')
    } else if spec_is_bottom_vertex(c) || c == 'v' || c == 'V' {
        spec_v_glyph(up, dbl) || (spec_is_jump(up) && c != '\'')
    } else if spec_is_point(c) {
        spec_v_glyph(up, dbl) || spec_v_glyph(dn, dbl)
    } else {
        false
    }
}

/// One predicate serves both line weights, keyed by `dbl`, so the two
/// variants cannot drift apart.
fn v_line_at(grid: &Grid, x: i32, y: i32, dbl: bool) -> (r: bool)
    requires
        grid.wf(),
        -XY_LIMIT <= x <= XY_LIMIT,
        -XY_LIMIT <= y <= XY_LIMIT,
    ensures
        r == spec_v_line_at(*grid, x as int, y as int, dbl),
{
    let c = grid.get(x, y);
    let up = grid.get(x, y - 1);
    let dn = grid.get(x, y + 1);
    let uprt = grid.get(x + 1, y - 1);
    let uplt = grid.get(x - 1, y - 1);
    let v_glyph = |ch: char| -> (b: bool)
        ensures
            b == spec_v_glyph(ch, dbl),
        {
            if dbl {
                is_double_v_line(ch)
            } else {
                is_solid_v_line(ch)
            }
        };
    if v_glyph(c) {
        is_top_vertex_or_decoration(up) || v_glyph(up) || is_jump(up) || is_bottom_vertex(dn) || dn
            == 'v' || dn == 'V' || v_glyph(dn) || is_jump(dn) || is_point(up) || is_point(dn) || up
            == '_' || uplt == '_' || uprt == '_' || ((is_top_vertex(uplt) || is_top_vertex(uprt))
            && (is_bottom_vertex(grid.get(x - 1, y + 1)) || is_bottom_vertex(
            grid.get(x + 1, y + 1),
        )))
    } else if is_top_vertex(c) || c == '^' {
        v_glyph(dn) || (is_jump(dn) && c != '.')
    } else if is_bottom_vertex(c) || c == 'v' || c == 'V' {
        v_glyph(up) || (is_jump(up) && c != '\'')
    } else if is_point(c) {
        v_glyph(up) || v_glyph(dn)
    } else {
        false
    }
}

/// Does a solid vertical run pass through `(x, y)`?
pub fn is_solid_v_line_at(grid: &Grid, x: i32, y: i32) -> (r: bool)
    requires
        grid.wf(),
        -XY_LIMIT <= x <= XY_LIMIT,
        -XY_LIMIT <= y <= XY_LIMIT,
    ensures
        r == spec_v_line_at(*grid, x as int, y as int, false),
{
    v_line_at(grid, x, y, false)
}

/// Does a double-weight vertical run pass through `(x, y)`?
pub fn is_double_v_line_at(grid: &Grid, x: i32, y: i32) -> (r: bool)
    requires
        grid.wf(),
        -XY_LIMIT <= x <= XY_LIMIT,
        -XY_LIMIT <= y <= XY_LIMIT,
    ensures
        r == spec_v_line_at(*grid, x as int, y as int, true),
{
    v_line_at(grid, x, y, true)
}

/// Where the endpoints of the vertical run `x, [start_y, end_y]` land after
/// stretching, in twentieths of a cell: each end extends half a cell toward
/// an adjoining horizontal line, underscore, box glyph, jump, or run of the
/// other weight, and a whole cell when bridging two stacked vertices.
pub open spec fn spec_stretch_v(g: Grid, x: int, sy: int, ey: int, dbl: bool) -> (int, int) {
    let up = g.char_at(x, sy);
    let upup = g.char_at(x, sy - 1);
    let dn = g.char_at(x, ey);
    let dndn = g.char_at(x, ey + 1);
    let has_underscore_above = g.char_at(x - 1, sy - 1) == '_' || g.char_at(x + 1, sy - 1) == '_';
    let has_underscore_at_end = g.char_at(x - 1, ey) == '_' || g.char_at(x + 1, ey) == '_';
    let alt_above = spec_v_line_at(g, x, sy - 1, !dbl);
    let alt_below = spec_v_line_at(g, x, ey + 1, !dbl);
    let stretch_up = (!spec_is_vertex(up) && (upup == '-' || upup == '_' || spec_v_box_top(
        upup,
        dbl,
    ) || has_underscore_above || spec_is_bottom_vertex(upup))) || spec_is_jump(upup) || (alt_above
        && !spec_is_vertex(upup));
    let a = if stretch_up {
        if spec_is_vertex(upup) && spec_v_line_at(g, x, sy - 2, !dbl) && !spec_is_top_vertex(up)
            && up != '^' {
            sy * 20 - 20
        } else {
            sy * 20 - 10
        }
    } else {
        sy * 20
    };
    let stretch_down = (!spec_is_vertex(dn) && (dndn == '-' || spec_v_box_bottom(dndn, dbl)
        || spec_is_top_vertex(dndn))) || spec_is_jump(dndn) || has_underscore_at_end || (alt_below
        && !spec_is_vertex(dn));
    let b = if stretch_down {
        ey * 20 + 10
    } else {
        ey * 20
    };
    (a, b)
}

/// Stretch the endpoints of a found vertical run; first-match-wins over the
/// glyphs just past each end.
fn stretch_v_line_endpoints(grid: &Grid, x: i32, start_y: i32, end_y: i32, is_double: bool) -> (r: (
    i64,
    i64,
))
    requires
        grid.wf(),
        -900000 <= x <= 900000,
        -900000 <= start_y <= 900000,
        -900000 <= end_y <= 900000,
    ensures
        (r.0 as int, r.1 as int) == spec_stretch_v(
            *grid,
            x as int,
            start_y as int,
            end_y as int,
            is_double,
        ),
{
    let mut a: i64 = start_y as i64 * 20;
    let mut b: i64 = end_y as i64 * 20;
    let up = grid.get(x, start_y);
    let upup = grid.get(x, start_y - 1);
    let dn = grid.get(x, end_y);
    let dndn = grid.get(x, end_y + 1);
    let box_top = |c: char| -> (t: bool)
        ensures
            t == spec_v_box_top(c, is_double),
        {
            if is_double {
                c == '\u{2565}' || c == '\u{2566}'
            } else {
                c == '\u{2564}'
            }
        };
    let box_bottom = |c: char| -> (t: bool)
        ensures
            t == spec_v_box_bottom(c, is_double),
        {
            if is_double {
                c == '\u{2568}' || c == '\u{2569}'
            } else {
                c == '\u{2567}'
            }
        };
    let has_underscore_above = grid.get(x - 1, start_y - 1) == '_' || grid.get(x + 1, start_y - 1)
        == '_';
    let has_underscore_at_end = grid.get(x - 1, end_y) == '_' || grid.get(x + 1, end_y) == '_';
    let alt_above = v_line_at(grid, x, start_y - 1, !is_double);
    let alt_below = v_line_at(grid, x, end_y + 1, !is_double);
    let stretch_up = (!is_vertex(up) && (upup == '-' || upup == '_' || box_top(upup)
        || has_underscore_above || is_bottom_vertex(upup))) || is_jump(upup) || (alt_above
        && !is_vertex(upup));
    if stretch_up {
        let alt_above_2 = v_line_at(grid, x, start_y - 2, !is_double);
        if is_vertex(upup) && alt_above_2 && !is_top_vertex(up) && up != '^' {
            a = a - 20;
        } else {
            a = a - 10;
        }
    }
    let stretch_down = (!is_vertex(dn) && (dndn == '-' || box_bottom(dndn) || is_top_vertex(dndn)))
        || is_jump(dndn) || has_underscore_at_end || (alt_below && !is_vertex(dn));
    if stretch_down {
        b = b + 10;
    }
    (a, b)
}

/// The run predicates read glyphs only, so grids with the same cells
/// agree on them, whatever their used-masks say.
pub proof fn lemma_v_line_at_same_cells(a: Grid, b: Grid, x: int, y: int, dbl: bool)
    requires
        a.same_cells(b),
    ensures
        spec_v_line_at(a, x, y, dbl) == spec_v_line_at(b, x, y, dbl),
{
    assert forall|p: int, q: int| a.char_at(p, q) == #[trigger] b.char_at(p, q) by {}
}

/// The horizontal run predicate reads glyphs only, so grids with the same
/// cells agree on it.
pub proof fn lemma_h_line_at_same_cells(a: Grid, b: Grid, x: int, y: int, kind: HLineType)
    requires
        a.same_cells(b),
    ensures
        spec_h_line_at(a, x, y, kind) == spec_h_line_at(b, x, y, kind),
{
    assert forall|p: int, q: int| a.char_at(p, q) == #[trigger] b.char_at(p, q) by {}
}

/// The first row at or after `y` where a vertical run of the given weight
/// stops: the bottom edge, or the first cell the run predicate rejects.
pub open spec fn spec_v_stop(g: Grid, x: int, y: int, dbl: bool) -> int
    decreases g.height - y,
{
    if y >= g.height || !spec_v_line_at(g, x, y, dbl) {
        y
    } else {
        spec_v_stop(g, x, y + 1, dbl)
    }
}

/// The stop of a run lies between its start and the bottom edge.
pub proof fn lemma_v_stop_bounds(g: Grid, x: int, y: int, dbl: bool)
    requires
        y <= g.height,
    ensures
        y <= spec_v_stop(g, x, y, dbl) <= g.height,
    decreases g.height - y,
{
    if !(y >= g.height || !spec_v_line_at(g, x, y, dbl)) {
        lemma_v_stop_bounds(g, x, y + 1, dbl);
    }
}

/// The stop is the first row where the run predicate fails.
pub proof fn lemma_v_stop_val(g: Grid, x: int, s: int, y: int, dbl: bool)
    requires
        s <= y,
        forall|q: int| s <= q < y ==> spec_v_line_at(g, x, q, dbl),
        y >= g.height || !spec_v_line_at(g, x, y, dbl),
    ensures
        spec_v_stop(g, x, s, dbl) == y,
    decreases y - s,
{
    if s < y {
        assert(spec_v_line_at(g, x, s, dbl));
        if s >= g.height {
            assert(g.char_at(x, s) == ' ');
            assert(g.char_at(x, s - 1) == ' ' || true);
            assert(!spec_v_line_at(g, x, s, dbl));
        }
        lemma_v_stop_val(g, x, s + 1, y, dbl);
    }
}

/// The stop reads glyphs only, so grids with the same cells agree on it.
pub proof fn lemma_v_stop_same_cells(a: Grid, b: Grid, x: int, y: int, dbl: bool)
    requires
        a.same_cells(b),
    ensures
        spec_v_stop(a, x, y, dbl) == spec_v_stop(b, x, y, dbl),
    decreases a.height - y,
{
    lemma_v_line_at_same_cells(a, b, x, y, dbl);
    if !(y >= a.height || !spec_v_line_at(a, x, y, dbl)) {
        lemma_v_stop_same_cells(a, b, x, y + 1, dbl);
    }
}

/// The stretch decision table reads glyphs only, so grids with the same
/// cells agree on it.
pub proof fn lemma_stretch_v_same_cells(a: Grid, b: Grid, x: int, sy: int, ey: int, dbl: bool)
    requires
        a.same_cells(b),
    ensures
        spec_stretch_v(a, x, sy, ey, dbl) == spec_stretch_v(b, x, sy, ey, dbl),
{
    assert forall|p: int, q: int| a.char_at(p, q) == #[trigger] b.char_at(p, q) by {}
    lemma_v_line_at_same_cells(a, b, x, sy - 1, !dbl);
    lemma_v_line_at_same_cells(a, b, x, sy - 2, !dbl);
    lemma_v_line_at_same_cells(a, b, x, ey + 1, !dbl);
}

/// The vertical segment one consumed run stores: the run's column between
/// its stretched ends, carrying the weight's style — or nothing, when the
/// stretched ends coincide.
pub open spec fn spec_vline_result(g: Grid, x: int, y0: int, dbl: bool) -> Seq<Path> {
    let stop = spec_v_stop(g, x, y0 + 1, dbl);
    let r = spec_stretch_v(g, x, y0, stop - 1, dbl);
    if r.0 != r.1 {
        seq![
            Path {
                a: spec_from_grid_frac(20 * x, r.0),
                b: spec_from_grid_frac(20 * x, r.1),
                c: None,
                d: None,
                style: PathStyle { dashed: false, double: dbl, squiggle: false },
            },
        ]
    } else {
        Seq::<Path>::empty()
    }
}

/// The run result reads glyphs only, so grids with the same cells agree.
pub proof fn lemma_vline_result_same_cells(a: Grid, b: Grid, x: int, y0: int, dbl: bool)
    requires
        a.same_cells(b),
    ensures
        spec_vline_result(a, x, y0, dbl) == spec_vline_result(b, x, y0, dbl),
{
    lemma_v_stop_same_cells(a, b, x, y0 + 1, dbl);
    lemma_stretch_v_same_cells(a, b, x, y0, spec_v_stop(a, x, y0 + 1, dbl) - 1, dbl);
}

/// Nothing of the stored prefix moved; anything further was appended.
pub open spec fn spec_paths_extended(before: Seq<Path>, after: Seq<Path>) -> bool {
    before.len() <= after.len() && after.take(before.len() as int) =~= before
}

/// Appending paths in two steps appends them in one, and every stored
/// path keeps its place.
pub proof fn lemma_paths_extended_trans(a: Seq<Path>, b: Seq<Path>, c: Seq<Path>)
    requires
        spec_paths_extended(a, b),
        spec_paths_extended(b, c),
    ensures
        spec_paths_extended(a, c),
        forall|i: int| 0 <= i < b.len() ==> c[i] == b[i],
        forall|i: int| 0 <= i < a.len() ==> b[i] == a[i],
{
    assert forall|i: int| 0 <= i < b.len() implies c[i] == b[i] by {
        assert(c.take(b.len() as int)[i] == c[i]);
    }
    assert forall|i: int| 0 <= i < a.len() implies b[i] == a[i] by {
        assert(b.take(a.len() as int)[i] == b[i]);
    }
    assert(c.take(a.len() as int) =~= a);
}

/// Try to consume a vertical run of the given weight starting at
/// `(x, *y)`.  On a match the run's cells are marked used, `y` lands past
/// the run, and the stretched run is stored unless it is degenerate.
fn try_vline(grid: &mut Grid, paths: &mut PathSet, x: i32, y: &mut i32, is_double: bool) -> (found:
    bool)
    requires
        old(grid).wf(),
        old(paths).wf(),
        old(grid).width <= crate::grid::MAX_DIM,
        0 <= x < old(grid).width,
        0 <= *old(y) < old(grid).height,
    ensures
        final (grid).wf(),
        old(grid).same_cells(*final (grid)),
        old(grid).used_leq(*final (grid)),
        final (paths).wf(),
        spec_paths_extended(old(paths).paths@, final (paths).paths@),
        forall|i: int|
            old(paths).paths@.len() <= i < final (paths).paths@.len()
                ==> (#[trigger] final (paths).paths@[i]).spec_vertical()
                && spec_grid_aligned(final (paths).paths@[i]),
        found == (spec_v_line_at(*old(grid), x as int, *old(y) as int, is_double) && !old(
            grid,
        ).used_at(x as int, *old(y) as int)),
        found ==> *old(y) < *final (y) <= old(grid).height,
        found ==> *final (y) == spec_v_stop(*old(grid), x as int, *old(y) + 1, is_double),
        found ==> final (paths).paths@ == old(paths).paths@ + spec_vline_result(
            *old(grid),
            x as int,
            *old(y) as int,
            is_double,
        ),
        forall|p: int, q: int|
            #![trigger final (grid).used_at(p, q)]
            final (grid).used_at(p, q) == (old(grid).used_at(p, q) || (found && p == x && *old(y)
                <= q < *final (y))),
        !found ==> *final (y) == *old(y) && *final (grid) == *old(grid) && *final (paths) == *old(
            paths,
        ),
{
    if !v_line_at(grid, x, *y, is_double) || grid.is_used(x, *y) {
        return false;
    }
    let start_y: i32 = *y;
    let height: i32 = grid.height as i32;
    loop
        invariant_except_break
            grid.wf(),
            old(grid).same_cells(*grid),
            old(grid).used_leq(*grid),
            *paths == *old(paths),
            0 <= start_y <= *y < height,
            start_y == *old(y),
            height == grid.height,
            grid.height <= crate::grid::MAX_DIM,
            0 <= x < grid.width,
            spec_v_line_at(*old(grid), x as int, *y as int, is_double),
            forall|q: int| start_y <= q < *y ==> spec_v_line_at(*old(grid), x as int, q, is_double),
            forall|p: int, q: int|
                #![trigger grid.used_at(p, q)]
                grid.used_at(p, q) == (old(grid).used_at(p, q) || (p == x && start_y <= q < *y)),
        ensures
            grid.wf(),
            old(grid).same_cells(*grid),
            old(grid).used_leq(*grid),
            *paths == *old(paths),
            start_y == *old(y),
            height == grid.height,
            start_y < *y <= height,
            forall|q: int| start_y <= q < *y ==> spec_v_line_at(*old(grid), x as int, q, is_double),
            *y >= height || !spec_v_line_at(*old(grid), x as int, *y as int, is_double),
            forall|p: int, q: int|
                #![trigger grid.used_at(p, q)]
                grid.used_at(p, q) == (old(grid).used_at(p, q) || (p == x && start_y <= q < *y)),
        decreases height - *y,
    {
        grid.set_used(x, *y);
        *y = *y + 1;
        if *y >= height {
            break ;
        }
        let cont = v_line_at(grid, x, *y, is_double);
        proof {
            lemma_v_line_at_same_cells(*old(grid), *grid, x as int, *y as int, is_double);
        }
        if !cont {
            break ;
        }
    }
    proof {
        lemma_v_stop_val(
            *old(grid),
            x as int,
            start_y + 1,
            *y as int,
            is_double,
        );
    }
    let end_y: i32 = *y - 1;
    let (adj_a, adj_b) = stretch_v_line_endpoints(grid, x, start_y, end_y, is_double);
    proof {
        lemma_stretch_v_same_cells(
            *old(grid),
            *grid,
            x as int,
            start_y as int,
            end_y as int,
            is_double,
        );
    }
    if adj_a != adj_b {
        let gx: i64 = x as i64 * 20;
        let mut path = Path::line(
            Vec2::from_grid_frac(gx, adj_a),
            Vec2::from_grid_frac(gx, adj_b),
        );
        if is_double {
            path = path.with_double(true);
        }
        proof {
            assert(path.spec_vertical());
            assert(spec_grid_aligned(path)) by {
                let dy = path.b.y - path.a.y;
                assert(dy == (adj_b - adj_a) * 80000);
                if adj_b > adj_a {
                    assert(dy >= 80000) by (nonlinear_arith)
                        requires
                            dy == (adj_b - adj_a) * 80000 && adj_b - adj_a >= 1,
                    ;
                } else if adj_b < adj_a {
                    assert(dy <= -80000) by (nonlinear_arith)
                        requires
                            dy == (adj_b - adj_a) * 80000 && adj_b - adj_a <= -1,
                    ;
                }
            }
            assert(!path.spec_degenerate());
        }
        paths.insert(path);
        proof {
            assert(paths.paths@ =~= old(paths).paths@ + spec_vline_result(
                *old(grid),
                x as int,
                start_y as int,
                is_double,
            ));
        }
    } else {
        proof {
            assert(spec_vline_result(*old(grid), x as int, start_y as int, is_double)
                =~= Seq::<Path>::empty());
            assert(paths.paths@ =~= old(paths).paths@ + spec_vline_result(
                *old(grid),
                x as int,
                start_y as int,
                is_double,
            ));
        }
    }
    true
}

/// Everything the vertical scan stores while walking one column from row
/// `y` down, against the used-mask the pass started with: each unused cell
/// that opens a run of a weight (solid tried first) consumes the run and
/// stores its stretched segment; every other cell is stepped over.
pub open spec fn spec_vcol(g: Grid, x: int, y: int) -> Seq<Path>
    decreases g.height - y
        via spec_vcol_decreases
{
    if y < 0 || y >= g.height {
        Seq::<Path>::empty()
    } else if spec_v_line_at(g, x, y, false) && !g.used_at(x, y) {
        spec_vline_result(g, x, y, false) + spec_vcol(g, x, spec_v_stop(g, x, y + 1, false))
    } else if spec_v_line_at(g, x, y, true) && !g.used_at(x, y) {
        spec_vline_result(g, x, y, true) + spec_vcol(g, x, spec_v_stop(g, x, y + 1, true))
    } else {
        spec_vcol(g, x, y + 1)
    }
}

#[via_fn]
proof fn spec_vcol_decreases(g: Grid, x: int, y: int) {
    if 0 <= y < g.height {
        lemma_v_stop_bounds(g, x, y + 1, false);
        lemma_v_stop_bounds(g, x, y + 1, true);
    }
}

/// Everything the vertical scan stores over the first `x` columns, in
/// scan order.
pub open spec fn spec_vcols(g: Grid, x: int) -> Seq<Path>
    decreases x,
{
    if x <= 0 {
        Seq::<Path>::empty()
    } else {
        spec_vcols(g, x - 1) + spec_vcol(g, x - 1, 0)
    }
}

/// Scan every column for vertical runs, trying the solid weight first and
/// the double weight next at each cell, so two runs of different weight can
/// share a column.
pub fn find_vertical_lines(grid: &mut Grid, paths: &mut PathSet)
    requires
        old(grid).wf(),
        old(paths).wf(),
    ensures
        final (grid).wf(),
        old(grid).same_cells(*final (grid)),
        old(grid).used_leq(*final (grid)),
        final (paths).wf(),
        spec_paths_extended(old(paths).paths@, final (paths).paths@),
        forall|i: int|
            old(paths).paths@.len() <= i < final (paths).paths@.len()
                ==> (#[trigger] final (paths).paths@[i]).spec_vertical()
                && spec_grid_aligned(final (paths).paths@[i]),
        forall|p: int, q: int|
            #![trigger final (grid).used_at(p, q)]
            final (grid).in_range(p, q) && (spec_v_line_at(*old(grid), p, q, false)
                || spec_v_line_at(*old(grid), p, q, true)) ==> final (grid).used_at(p, q),
        final (paths).paths@ == old(paths).paths@ + spec_vcols(
            *old(grid),
            old(grid).width as int,
        ),
{
    let width: i32 = grid.width as i32;
    let mut x: i32 = 0;
    while x < width
        invariant
            grid.wf(),
            old(grid).same_cells(*grid),
            old(grid).used_leq(*grid),
            paths.wf(),
            spec_paths_extended(old(paths).paths@, paths.paths@),
            forall|i: int|
                old(paths).paths@.len() <= i < paths.paths@.len() ==> (
                #[trigger] paths.paths@[i]).spec_vertical() && spec_grid_aligned(paths.paths@[i]),
            forall|p: int, q: int|
                #![trigger grid.used_at(p, q)]
                grid.in_range(p, q) && p < x && (spec_v_line_at(*old(grid), p, q, false)
                    || spec_v_line_at(*old(grid), p, q, true)) ==> grid.used_at(p, q),
            paths.paths@ == old(paths).paths@ + spec_vcols(*old(grid), x as int),
            forall|p: int, q: int|
                #![trigger grid.used_at(p, q)]
                p >= x ==> grid.used_at(p, q) == old(grid).used_at(p, q),
            width == grid.width,
            0 <= x <= width,
        decreases width - x,
    {
        let height: i32 = grid.height as i32;
        let mut y: i32 = 0;
        while y < height
            invariant
                grid.wf(),
                old(grid).same_cells(*grid),
                old(grid).used_leq(*grid),
                paths.wf(),
                spec_paths_extended(old(paths).paths@, paths.paths@),
                forall|i: int|
                    old(paths).paths@.len() <= i < paths.paths@.len() ==> (
                    #[trigger] paths.paths@[i]).spec_vertical() && spec_grid_aligned(
                        paths.paths@[i],
                    ),
                forall|p: int, q: int|
                    #![trigger grid.used_at(p, q)]
                    grid.in_range(p, q) && (p < x || (p == x && q < y)) && (spec_v_line_at(
                        *old(grid),
                        p,
                        q,
                        false,
                    ) || spec_v_line_at(*old(grid), p, q, true)) ==> grid.used_at(p, q),
                paths.paths@ + spec_vcol(*old(grid), x as int, y as int) == old(paths).paths@
                    + spec_vcols(*old(grid), x as int) + spec_vcol(*old(grid), x as int, 0),
                forall|p: int, q: int|
                    #![trigger grid.used_at(p, q)]
                    (p > x || (p == x && q >= y)) ==> grid.used_at(p, q) == old(grid).used_at(
                        p,
                        q,
                    ),
                width == grid.width,
                height == grid.height,
                0 <= x < width,
                0 <= y <= height,
            decreases height - y,
        {
            let ghost prev = paths.paths@;
            let ghost g1 = *grid;
            let ghost y1 = y as int;
            let found = try_vline(grid, paths, x, &mut y, false);
            let ghost mid = paths.paths@;
            let ghost g2 = *grid;
            let ghost y2 = y as int;
            proof {
                lemma_paths_extended_trans(old(paths).paths@, prev, mid);
                lemma_v_line_at_same_cells(*old(grid), g1, x as int, y1, false);
                if found {
                    lemma_vline_result_same_cells(*old(grid), g1, x as int, y1, false);
                    lemma_v_stop_same_cells(*old(grid), g1, x as int, y1 + 1, false);
                }
            }
            let found2 = if found {
                false
            } else {
                try_vline(grid, paths, x, &mut y, true)
            };
            proof {
                lemma_paths_extended_trans(old(paths).paths@, mid, paths.paths@);
                lemma_v_line_at_same_cells(*old(grid), g2, x as int, y2, true);
                if found2 {
                    lemma_vline_result_same_cells(*old(grid), g2, x as int, y1, true);
                    lemma_v_stop_same_cells(*old(grid), g2, x as int, y1 + 1, true);
                }
                if found || found2 {
                    assert forall|p: int, q: int|
                        #![trigger grid.used_at(p, q)]
                        grid.in_range(p, q) && (p < x || (p == x && q < y)) && (spec_v_line_at(
                            *old(grid),
                            p,
                            q,
                            false,
                        ) || spec_v_line_at(*old(grid), p, q, true)) implies grid.used_at(p, q) by {
                        if p == x as int && y1 <= q < y {
                            if found {
                                assert(g2.used_at(p, q));
                            }
                        } else if p < x as int || (p == x as int && q < y1) {
                            assert(g1.used_at(p, q));
                        }
                    }
                    if found {
                        assert(spec_vcol(*old(grid), x as int, y1) == spec_vline_result(
                            *old(grid),
                            x as int,
                            y1,
                            false,
                        ) + spec_vcol(*old(grid), x as int, y as int));
                        assert(paths.paths@ + spec_vcol(*old(grid), x as int, y as int)
                            =~= old(paths).paths@ + spec_vcols(*old(grid), x as int) + spec_vcol(
                            *old(grid),
                            x as int,
                            0,
                        ));
                    } else {
                        assert(!(spec_v_line_at(*old(grid), x as int, y1, false) && !old(
                            grid,
                        ).used_at(x as int, y1)));
                        assert(spec_vcol(*old(grid), x as int, y1) == spec_vline_result(
                            *old(grid),
                            x as int,
                            y1,
                            true,
                        ) + spec_vcol(*old(grid), x as int, y as int));
                        assert(paths.paths@ + spec_vcol(*old(grid), x as int, y as int)
                            =~= old(paths).paths@ + spec_vcols(*old(grid), x as int) + spec_vcol(
                            *old(grid),
                            x as int,
                            0,
                        ));
                    }
                } else {
                    assert(g2 == g1);
                    assert(!(spec_v_line_at(*old(grid), x as int, y1, false) && !old(grid).used_at(
                        x as int,
                        y1,
                    )));
                    assert(!(spec_v_line_at(*old(grid), x as int, y1, true) && !old(grid).used_at(
                        x as int,
                        y1,
                    )));
                    assert(spec_vcol(*old(grid), x as int, y1) == spec_vcol(
                        *old(grid),
                        x as int,
                        y1 + 1,
                    ));
                }
            }
            if !found && !found2 {
                y = y + 1;
            }
        }
        proof {
            assert(spec_vcol(*old(grid), x as int, height as int) == Seq::<Path>::empty());
            assert(spec_vcols(*old(grid), x as int + 1) == spec_vcols(*old(grid), x as int)
                + spec_vcol(*old(grid), x as int, 0));
            assert(paths.paths@ =~= old(paths).paths@ + spec_vcols(*old(grid), x as int + 1));
        }
        x = x + 1;
    }
    proof {
        assert(final (paths).paths@ =~= old(paths).paths@ + spec_vcols(
            *old(grid),
            old(grid).width as int,
        ));
    }
}

/// A glyph a vertical stroke, a jump, or a point: the things a curve or a
/// horizontal run may butt against.
pub open spec fn spec_svjp(c: char) -> bool {
    spec_is_solid_v_line(c) || spec_is_jump(c) || spec_is_point(c)
}

/// Is `c` a solid vertical stroke, a jump glyph, or a point glyph?
pub fn is_solid_v_line_or_jump_or_point(c: char) -> (r: bool)
    ensures
        r == spec_svjp(c),
{
    is_solid_v_line(c) || is_jump(c) || is_point(c)
}

/// Some stored path runs between these two points.
pub open spec fn spec_has_segment(ps: Seq<Path>, a: Vec2, b: Vec2) -> bool {
    exists|i: int| 0 <= i < ps.len() && (#[trigger] ps[i]).a == a && ps[i].b == b
}

/// A stored segment stays stored when the collection only grows.
pub proof fn lemma_has_segment_extended(before: Seq<Path>, after: Seq<Path>, a: Vec2, b: Vec2)
    requires
        spec_paths_extended(before, after),
        spec_has_segment(before, a, b),
    ensures
        spec_has_segment(after, a, b),
{
    let i = choose|i: int| 0 <= i < before.len() && (#[trigger] before[i]).a == a && before[i].b
        == b;
    assert(after.take(before.len() as int)[i] == after[i]);
    assert(after[i].a == a && after[i].b == b);
}

/// A quote or backtick with a dash on one side and an underscore on the
/// diagonal above the other: the rising half-cell stub of a circuit shape.
pub open spec fn spec_stub_quote_at(g: Grid, x: int, y: int) -> bool {
    g.char_at(x, y) == '\'' && ((g.char_at(x - 1, y) == '-' && g.char_at(x + 1, y - 1) == '_'
        && !spec_svjp(g.char_at(x - 1, y - 1))) || (g.char_at(x - 1, y - 1) == '_' && g.char_at(
        x + 1,
        y,
    ) == '-' && !spec_svjp(g.char_at(x + 1, y - 1))))
}

/// A period between a dash and an underscore: the falling half-cell stub.
pub open spec fn spec_stub_period_at(g: Grid, x: int, y: int) -> bool {
    g.char_at(x, y) == '.' && ((g.char_at(x - 1, y) == '_' && g.char_at(x + 1, y) == '-'
        && !spec_svjp(g.char_at(x + 1, y + 1))) || (g.char_at(x - 1, y) == '-' && g.char_at(
        x + 1,
        y,
    ) == '_' && !spec_svjp(g.char_at(x - 1, y + 1))))
}

/// What the circuit-stub scan appends at one cell: a rising half-cell
/// stub at an accepted quote, a falling one at an accepted period, or a
/// half-cell diagonal stub beside a diagonal-stroke glyph.
pub open spec fn spec_stub_cell(g: Grid, x: int, y: int) -> Seq<Path> {
    let c = g.char_at(x, y);
    if c == '\'' {
        if spec_stub_quote_at(g, x, y) {
            seq![
                Path {
                    a: spec_from_grid_frac(20 * x, 20 * y - 10),
                    b: spec_from_grid(x, y),
                    c: None,
                    d: None,
                    style: PathStyle { dashed: false, double: false, squiggle: false },
                },
            ]
        } else {
            Seq::<Path>::empty()
        }
    } else if c == '.' {
        if spec_stub_period_at(g, x, y) {
            seq![
                Path {
                    a: spec_from_grid(x, y),
                    b: spec_from_grid_frac(20 * x, 20 * y + 10),
                    c: None,
                    d: None,
                    style: PathStyle { dashed: false, double: false, squiggle: false },
                },
            ]
        } else if g.char_at(x - 1, y) == '-' && g.char_at(x + 1, y) == '\u{2571}' {
            seq![
                Path {
                    a: spec_from_grid(x, y),
                    b: spec_from_grid_frac(20 * x + 10, 20 * y + 10),
                    c: None,
                    d: None,
                    style: PathStyle { dashed: false, double: false, squiggle: false },
                },
            ]
        } else {
            Seq::<Path>::empty()
        }
    } else {
        Seq::<Path>::empty()
    }
}

/// Everything the circuit-stub scan appends: the scan walks columns left
/// to right, each column top to bottom.
pub open spec fn spec_stub_paths(g: Grid) -> Seq<Path> {
    spec_scan_rows(
        |a: int, b: int| spec_stub_cell(g, b, a),
        g.height as int,
        g.width as int,
    )
}

/// Find the fixed one- and two-glyph stub patterns of circuit diagrams:
/// a quote or period beside dash-and-underscore combinations yields a
/// half-cell vertical stub, and a dash beside a diagonal stroke yields a
/// half-cell diagonal stub.
pub fn find_circuit_diagram_short_lines(grid: &Grid, paths: &mut PathSet)
    requires
        grid.wf(),
        old(paths).wf(),
    ensures
        final (paths).wf(),
        spec_paths_extended(old(paths).paths@, final (paths).paths@),
        forall|i: int|
            old(paths).paths@.len() <= i < final (paths).paths@.len()
                ==> ((#[trigger] final (paths).paths@[i]).spec_vertical()
                || final (paths).paths@[i].spec_back_diagonal())
                && spec_grid_aligned(final (paths).paths@[i]),
        forall|p: int, q: int|
            grid.in_range(p, q) && #[trigger] spec_stub_quote_at(*grid, p, q)
                ==> spec_has_segment(
                final (paths).paths@,
                spec_from_grid_frac(20 * p, 20 * q - 10),
                spec_from_grid(p, q),
            ),
        forall|p: int, q: int|
            grid.in_range(p, q) && #[trigger] spec_stub_period_at(*grid, p, q)
                ==> spec_has_segment(
                final (paths).paths@,
                spec_from_grid(p, q),
                spec_from_grid_frac(20 * p, 20 * q + 10),
            ),
        final (paths).paths@ == old(paths).paths@ + spec_stub_paths(*grid),
{
    let width: i32 = grid.width as i32;
    let height: i32 = grid.height as i32;
    let ghost cf = |a: int, b: int| spec_stub_cell(*grid, b, a);
    let mut x: i32 = 0;
    while x < width
        invariant
            grid.wf(),
            paths.wf(),
            spec_paths_extended(old(paths).paths@, paths.paths@),
            forall|i: int|
                old(paths).paths@.len() <= i < paths.paths@.len()
                    ==> ((#[trigger] paths.paths@[i]).spec_vertical()
                    || paths.paths@[i].spec_back_diagonal())
                    && spec_grid_aligned(paths.paths@[i]),
            forall|p: int, q: int|
                grid.in_range(p, q) && p < x && #[trigger] spec_stub_quote_at(*grid, p, q)
                    ==> spec_has_segment(
                    paths.paths@,
                    spec_from_grid_frac(20 * p, 20 * q - 10),
                    spec_from_grid(p, q),
                ),
            forall|p: int, q: int|
                grid.in_range(p, q) && p < x && #[trigger] spec_stub_period_at(*grid, p, q)
                    ==> spec_has_segment(
                    paths.paths@,
                    spec_from_grid(p, q),
                    spec_from_grid_frac(20 * p, 20 * q + 10),
                ),
            cf == (|a: int, b: int| spec_stub_cell(*grid, b, a)),
            paths.paths@ == old(paths).paths@ + spec_scan_rows(cf, height as int, x as int),
            width == grid.width,
            height == grid.height,
            0 <= x <= width,
        decreases width - x,
    {
        let mut y: i32 = 0;
        while y < height
            invariant
                grid.wf(),
                paths.wf(),
                spec_paths_extended(old(paths).paths@, paths.paths@),
                forall|i: int|
                    old(paths).paths@.len() <= i < paths.paths@.len()
                        ==> ((#[trigger] paths.paths@[i]).spec_vertical()
                        || paths.paths@[i].spec_back_diagonal())
                        && spec_grid_aligned(paths.paths@[i]),
                forall|p: int, q: int|
                    grid.in_range(p, q) && (p < x || (p == x && q < y))
                        && #[trigger] spec_stub_quote_at(*grid, p, q) ==> spec_has_segment(
                        paths.paths@,
                        spec_from_grid_frac(20 * p, 20 * q - 10),
                        spec_from_grid(p, q),
                    ),
                forall|p: int, q: int|
                    grid.in_range(p, q) && (p < x || (p == x && q < y))
                        && #[trigger] spec_stub_period_at(*grid, p, q) ==> spec_has_segment(
                        paths.paths@,
                        spec_from_grid(p, q),
                        spec_from_grid_frac(20 * p, 20 * q + 10),
                    ),
                cf == (|a: int, b: int| spec_stub_cell(*grid, b, a)),
                paths.paths@ == old(paths).paths@ + spec_scan_rows(cf, height as int, x as int)
                    + spec_scan_row(cf, x as int, y as int),
                width == grid.width,
                height == grid.height,
                0 <= x < width,
                0 <= y <= height,
            decreases height - y,
        {
            let c = grid.get(x, y);
            let ghost prev = paths.paths@;
            if c == '\'' {
                let lt = grid.get(x - 1, y);
                let rt = grid.get(x + 1, y);
                let uplt = grid.get(x - 1, y - 1);
                let uprt = grid.get(x + 1, y - 1);
                if (lt == '-' && uprt == '_' && !is_solid_v_line_or_jump_or_point(uplt)) || (uplt
                    == '_' && rt == '-' && !is_solid_v_line_or_jump_or_point(uprt)) {
                    let p = Path::line(
                        Vec2::from_grid_frac(x as i64 * 20, y as i64 * 20 - 10),
                        Vec2::from_grid(x, y),
                    );
                    proof {
                        assert(!p.spec_degenerate());
                    }
                    paths.insert(p);
                    proof {
                        assert(paths.paths@[prev.len() as int] == p);
                        assert(spec_has_segment(paths.paths@, p.a, p.b));
                    }
                }
            } else if c == '.' {
                let lt = grid.get(x - 1, y);
                let rt = grid.get(x + 1, y);
                let dnlt = grid.get(x - 1, y + 1);
                let dnrt = grid.get(x + 1, y + 1);
                if (lt == '_' && rt == '-' && !is_solid_v_line_or_jump_or_point(dnrt)) || (lt == '-'
                    && rt == '_' && !is_solid_v_line_or_jump_or_point(dnlt)) {
                    let p = Path::line(
                        Vec2::from_grid(x, y),
                        Vec2::from_grid_frac(x as i64 * 20, y as i64 * 20 + 10),
                    );
                    proof {
                        assert(!p.spec_degenerate());
                    }
                    paths.insert(p);
                    proof {
                        assert(paths.paths@[prev.len() as int] == p);
                        assert(spec_has_segment(paths.paths@, p.a, p.b));
                    }
                } else if lt == '-' && rt == '\u{2571}' {
                    let p = Path::line(
                        Vec2::from_grid(x, y),
                        Vec2::from_grid_frac(x as i64 * 20 + 10, y as i64 * 20 + 10),
                    );
                    proof {
                        assert(!p.spec_degenerate());
                    }
                    paths.insert(p);
                }
            } else if c == '\'' && grid.get(x + 1, y) == '-' && grid.get(x - 1, y) == '\u{2571}' {
                let p = Path::line(
                    Vec2::from_grid(x, y),
                    Vec2::from_grid_frac(x as i64 * 20 - 10, y as i64 * 20 - 10),
                );
                paths.insert(p);
            }
            proof {
                lemma_paths_extended_trans(old(paths).paths@, prev, paths.paths@);
                assert(cf(y as int, x as int) == spec_stub_cell(*grid, x as int, y as int));
                assert(paths.paths@ =~= prev + spec_stub_cell(*grid, x as int, y as int));
                assert(spec_scan_row(cf, x as int, y as int + 1) == spec_scan_row(
                    cf,
                    x as int,
                    y as int,
                ) + cf(y as int, x as int));
                assert(paths.paths@ =~= old(paths).paths@ + spec_scan_rows(
                    cf,
                    height as int,
                    x as int,
                ) + spec_scan_row(cf, x as int, y as int + 1));
                assert forall|p: int, q: int|
                    grid.in_range(p, q) && (p < x || (p == x && q < y + 1))
                        && #[trigger] spec_stub_quote_at(*grid, p, q) implies spec_has_segment(
                    paths.paths@,
                    spec_from_grid_frac(20 * p, 20 * q - 10),
                    spec_from_grid(p, q),
                ) by {
                    if p == x as int && q == y as int {
                        assert(spec_has_segment(
                            paths.paths@,
                            spec_from_grid_frac(20 * p, 20 * q - 10),
                            spec_from_grid(p, q),
                        ));
                    } else {
                        lemma_has_segment_extended(
                            prev,
                            paths.paths@,
                            spec_from_grid_frac(20 * p, 20 * q - 10),
                            spec_from_grid(p, q),
                        );
                    }
                }
                assert forall|p: int, q: int|
                    grid.in_range(p, q) && (p < x || (p == x && q < y + 1))
                        && #[trigger] spec_stub_period_at(*grid, p, q) implies spec_has_segment(
                    paths.paths@,
                    spec_from_grid(p, q),
                    spec_from_grid_frac(20 * p, 20 * q + 10),
                ) by {
                    if p == x as int && q == y as int {
                        assert(spec_has_segment(
                            paths.paths@,
                            spec_from_grid(p, q),
                            spec_from_grid_frac(20 * p, 20 * q + 10),
                        ));
                    } else {
                        lemma_has_segment_extended(
                            prev,
                            paths.paths@,
                            spec_from_grid(p, q),
                            spec_from_grid_frac(20 * p, 20 * q + 10),
                        );
                    }
                }
            }
            y = y + 1;
        }
        proof {
            assert(spec_scan_rows(cf, height as int, x as int + 1) == spec_scan_rows(
                cf,
                height as int,
                x as int,
            ) + spec_scan_row(cf, x as int, height as int));
            assert(paths.paths@ =~= old(paths).paths@ + spec_scan_rows(
                cf,
                height as int,
                x as int + 1,
            ));
        }
        x = x + 1;
    }
    proof {
        assert(final (paths).paths@ =~= old(paths).paths@ + spec_stub_paths(*grid));
    }
}

/// The three horizontal line weights, tried in this order at each cell.
#[derive(Debug, Clone, Copy, PartialEq, Eq, Structural)]
pub enum HLineType {
    /// Plain dashes.
    Solid,
    /// Wavy tildes.
    Squiggle,
    /// Double strokes.
    Double,
}

/// The horizontal-stroke glyph of the chosen weight.
pub open spec fn spec_h_glyph(c: char, kind: HLineType) -> bool {
    match kind {
        HLineType::Solid => spec_is_solid_h_line(c),
        HLineType::Squiggle => spec_is_squiggle_h_line(c),
        HLineType::Double => spec_is_double_h_line(c),
    }
}

/// May `c` itself head a horizontal run of the chosen weight?
pub open spec fn spec_h_head(c: char, kind: HLineType) -> bool {
    match kind {
        HLineType::Solid => spec_is_solid_h_line(c),
        HLineType::Squiggle => spec_is_squiggle_h_line(c) && c != '+',
        HLineType::Double => spec_is_double_h_line(c) && c != '+' && c != '(' && c != ')',
    }
}

/// Does a horizontal run of the given weight pass through `(x, y)`?  A run
/// needs three glyphs in a row; arrowheads and vertices belong to it when
/// enough stroke glyphs adjoin them.
pub open spec fn spec_h_line_at(g: Grid, x: int, y: int, kind: HLineType) -> bool {
    let c = g.char_at(x, y);
    let lt = g.char_at(x - 1, y);
    let ltlt = g.char_at(x - 2, y);
    let rt = g.char_at(x + 1, y);
    let rtrt = g.char_at(x + 2, y);
    if spec_h_head(c, kind) || (spec_h_glyph(lt, kind) && spec_is_jump(c)) {
        if spec_h_glyph(lt, kind) {
            spec_h_glyph(rt, kind) || spec_is_vertex_or_right_decoration(rt) || spec_h_glyph(
                ltlt,
                kind,
            ) || spec_is_vertex_or_left_decoration(ltlt)
        } else if spec_is_vertex_or_left_decoration(lt) {
            spec_h_glyph(rt, kind)
        } else {
            spec_h_glyph(rt, kind) && (spec_h_glyph(rtrt, kind) || spec_is_vertex_or_right_decoration(
                rtrt,
            ))
        }
    } else if c == '<' {
        spec_h_glyph(rt, kind) && spec_h_glyph(rtrt, kind)
    } else if c == '>' {
        spec_h_glyph(lt, kind) && spec_h_glyph(ltlt, kind)
    } else if spec_is_vertex(c) {
        (spec_h_glyph(lt, kind) && spec_h_glyph(ltlt, kind)) || (spec_h_glyph(rt, kind)
            && spec_h_glyph(rtrt, kind))
    } else {
        false
    }
}

/// One predicate serves all three weights, keyed by `kind`, so the
/// variants cannot drift apart.
fn h_line_at(grid: &Grid, x: i32, y: i32, kind: HLineType) -> (r: bool)
    requires
        grid.wf(),
        -XY_LIMIT <= x <= XY_LIMIT,
        -XY_LIMIT <= y <= XY_LIMIT,
    ensures
        r == spec_h_line_at(*grid, x as int, y as int, kind),
{
    let c = grid.get(x, y);
    let lt = grid.get(x - 1, y);
    let ltlt = grid.get(x - 2, y);
    let rt = grid.get(x + 1, y);
    let rtrt = grid.get(x + 2, y);
    let h_glyph = |ch: char| -> (b: bool)
        ensures
            b == spec_h_glyph(ch, kind),
        {
            match kind {
                HLineType::Solid => is_solid_h_line(ch),
                HLineType::Squiggle => is_squiggle_h_line(ch),
                HLineType::Double => is_double_h_line(ch),
            }
        };
    let head = match kind {
        HLineType::Solid => is_solid_h_line(c),
        HLineType::Squiggle => is_squiggle_h_line(c) && c != '+',
        HLineType::Double => is_double_h_line(c) && c != '+' && c != '(' && c != ')',
    };
    if head || (h_glyph(lt) && is_jump(c)) {
        if h_glyph(lt) {
            h_glyph(rt) || is_vertex_or_right_decoration(rt) || h_glyph(ltlt)
                || is_vertex_or_left_decoration(ltlt)
        } else if is_vertex_or_left_decoration(lt) {
            h_glyph(rt)
        } else {
            h_glyph(rt) && (h_glyph(rtrt) || is_vertex_or_right_decoration(rtrt))
        }
    } else if c == '<' {
        h_glyph(rt) && h_glyph(rtrt)
    } else if c == '>' {
        h_glyph(lt) && h_glyph(ltlt)
    } else if is_vertex(c) {
        (h_glyph(lt) && h_glyph(ltlt)) || (h_glyph(rt) && h_glyph(rtrt))
    } else {
        false
    }
}

/// Does a solid horizontal run pass through `(x, y)`?
pub fn is_solid_h_line_at(grid: &Grid, x: i32, y: i32) -> (r: bool)
    requires
        grid.wf(),
        -XY_LIMIT <= x <= XY_LIMIT,
        -XY_LIMIT <= y <= XY_LIMIT,
    ensures
        r == spec_h_line_at(*grid, x as int, y as int, HLineType::Solid),
{
    h_line_at(grid, x, y, HLineType::Solid)
}

/// Does a squiggle horizontal run pass through `(x, y)`?
pub fn is_squiggle_h_line_at(grid: &Grid, x: i32, y: i32) -> (r: bool)
    requires
        grid.wf(),
        -XY_LIMIT <= x <= XY_LIMIT,
        -XY_LIMIT <= y <= XY_LIMIT,
    ensures
        r == spec_h_line_at(*grid, x as int, y as int, HLineType::Squiggle),
{
    h_line_at(grid, x, y, HLineType::Squiggle)
}

/// Does a double horizontal run pass through `(x, y)`?
pub fn is_double_h_line_at(grid: &Grid, x: i32, y: i32) -> (r: bool)
    requires
        grid.wf(),
        -XY_LIMIT <= x <= XY_LIMIT,
        -XY_LIMIT <= y <= XY_LIMIT,
    ensures
        r == spec_h_line_at(*grid, x as int, y as int, HLineType::Double),
{
    h_line_at(grid, x, y, HLineType::Double)
}

/// Does a horizontal run of any weight pass through `(x, y)`?
pub open spec fn spec_any_h_line_at(g: Grid, x: int, y: int) -> bool {
    spec_h_line_at(g, x, y, HLineType::Solid) || spec_h_line_at(g, x, y, HLineType::Squiggle)
        || spec_h_line_at(g, x, y, HLineType::Double)
}

/// Does a horizontal run of any weight pass through `(x, y)`?
pub fn is_any_h_line_at(grid: &Grid, x: i32, y: i32) -> (r: bool)
    requires
        grid.wf(),
        -XY_LIMIT <= x <= XY_LIMIT,
        -XY_LIMIT <= y <= XY_LIMIT,
    ensures
        r == spec_any_h_line_at(*grid, x as int, y as int),
{
    h_line_at(grid, x, y, HLineType::Solid) || h_line_at(grid, x, y, HLineType::Squiggle)
        || h_line_at(grid, x, y, HLineType::Double)
}

/// The first column at or after `x` where a horizontal run of the given
/// weight stops: the right edge, or the first cell the run predicate
/// rejects.
pub open spec fn spec_h_stop(g: Grid, x: int, y: int, kind: HLineType) -> int
    decreases g.width - x,
{
    if x >= g.width || !spec_h_line_at(g, x, y, kind) {
        x
    } else {
        spec_h_stop(g, x + 1, y, kind)
    }
}

/// The stop of a run lies between its start and the right edge.
pub proof fn lemma_h_stop_bounds(g: Grid, x: int, y: int, kind: HLineType)
    requires
        x <= g.width,
    ensures
        x <= spec_h_stop(g, x, y, kind) <= g.width,
    decreases g.width - x,
{
    if !(x >= g.width || !spec_h_line_at(g, x, y, kind)) {
        lemma_h_stop_bounds(g, x + 1, y, kind);
    }
}

/// The stop is the first column where the run predicate fails.
pub proof fn lemma_h_stop_val(g: Grid, s: int, x: int, y: int, kind: HLineType)
    requires
        s <= x,
        forall|p: int| s <= p < x ==> spec_h_line_at(g, p, y, kind),
        x >= g.width || !spec_h_line_at(g, x, y, kind),
    ensures
        spec_h_stop(g, s, y, kind) == x,
    decreases x - s,
{
    if s < x {
        assert(spec_h_line_at(g, s, y, kind));
        if s >= g.width {
            assert(g.char_at(s, y) == ' ');
            assert(!spec_h_line_at(g, s, y, kind));
        }
        lemma_h_stop_val(g, s + 1, x, y, kind);
    }
}

/// The stop reads glyphs only, so grids with the same cells agree on it.
pub proof fn lemma_h_stop_same_cells(a: Grid, b: Grid, x: int, y: int, kind: HLineType)
    requires
        a.same_cells(b),
    ensures
        spec_h_stop(a, x, y, kind) == spec_h_stop(b, x, y, kind),
    decreases a.width - x,
{
    lemma_h_line_at_same_cells(a, b, x, y, kind);
    if !(x >= a.width || !spec_h_line_at(a, x, y, kind)) {
        lemma_h_stop_same_cells(a, b, x + 1, y, kind);
    }
}

/// Where the endpoints of the horizontal run `[start_x, end_x], y` land
/// after stretching, in twentieths of a cell: box glyphs extend either end
/// unconditionally, then a first-match-wins chain per side shortens the run
/// away from a curve vertex or extends it toward an adjoining run.
pub open spec fn spec_stretch_h(g: Grid, sx: int, ex: int, y: int) -> (int, int) {
    let start_char = g.char_at(sx, y);
    let end_char = g.char_at(ex, y);
    let left_of_start = g.char_at(sx - 1, y);
    let right_of_end = g.char_at(ex + 1, y);
    let b0 = if right_of_end == '\u{252b}' {
        ex * 20 + 10
    } else {
        ex * 20
    };
    let a0 = if left_of_start == '\u{2523}' {
        sx * 20 - 10
    } else {
        sx * 20
    };
    let a = if !spec_is_vertex(left_of_start) && ((spec_is_top_vertex(start_char) && spec_svjp(
        g.char_at(sx - 1, y + 1),
    )) || (spec_is_bottom_vertex(start_char) && spec_svjp(g.char_at(sx - 1, y - 1)))) {
        a0 + 20
    } else if !spec_is_vertex_or_left_decoration(start_char) && spec_is_vertex(left_of_start)
        && spec_any_h_line_at(g, sx - 2, y) {
        a0 - 20
    } else if spec_any_h_line_at(g, sx - 1, y) && !spec_is_vertex_or_right_decoration(
        left_of_start,
    ) && !spec_is_vertex(start_char) {
        a0 - 10
    } else {
        a0
    };
    let b = if !spec_is_vertex(right_of_end) && ((spec_is_top_vertex(end_char) && spec_svjp(
        g.char_at(ex + 1, y + 1),
    )) || (spec_is_bottom_vertex(end_char) && spec_svjp(g.char_at(ex + 1, y - 1)))) {
        b0 - 20
    } else if spec_any_h_line_at(g, ex + 1, y) && !spec_is_vertex_or_left_decoration(right_of_end)
        && !spec_is_vertex(end_char) {
        b0 + 10
    } else {
        b0
    };
    (a, b)
}

/// Stretch the endpoints of a found horizontal run.
fn stretch_h_line_endpoints(grid: &Grid, start_x: i32, end_x: i32, y: i32) -> (r: (i64, i64))
    requires
        grid.wf(),
        -900000 <= start_x <= 900000,
        -900000 <= end_x <= 900000,
        -900000 <= y <= 900000,
    ensures
        (r.0 as int, r.1 as int) == spec_stretch_h(*grid, start_x as int, end_x as int, y as int),
{
    let mut a: i64 = start_x as i64 * 20;
    let mut b: i64 = end_x as i64 * 20;
    let start_char = grid.get(start_x, y);
    let end_char = grid.get(end_x, y);
    let left_of_start = grid.get(start_x - 1, y);
    let right_of_end = grid.get(end_x + 1, y);
    if right_of_end == '\u{252b}' {
        b = b + 10;
    }
    if left_of_start == '\u{2523}' {
        a = a - 10;
    }
    if !is_vertex(left_of_start) && ((is_top_vertex(start_char) && is_solid_v_line_or_jump_or_point(
        grid.get(start_x - 1, y + 1),
    )) || (is_bottom_vertex(start_char) && is_solid_v_line_or_jump_or_point(
        grid.get(start_x - 1, y - 1),
    ))) {
        a = a + 20;
    } else if !is_vertex_or_left_decoration(start_char) && is_vertex(left_of_start)
        && is_any_h_line_at(grid, start_x - 2, y) {
        a = a - 20;
    } else if is_any_h_line_at(grid, start_x - 1, y) && !is_vertex_or_right_decoration(
        left_of_start,
    ) && !is_vertex(start_char) {
        a = a - 10;
    }
    if !is_vertex(right_of_end) && ((is_top_vertex(end_char) && is_solid_v_line_or_jump_or_point(
        grid.get(end_x + 1, y + 1),
    )) || (is_bottom_vertex(end_char) && is_solid_v_line_or_jump_or_point(
        grid.get(end_x + 1, y - 1),
    ))) {
        b = b - 20;
    } else if is_any_h_line_at(grid, end_x + 1, y) && !is_vertex_or_left_decoration(right_of_end)
        && !is_vertex(end_char) {
        b = b + 10;
    }
    (a, b)
}

/// The stretch decision table reads glyphs only, so grids with the same
/// cells agree on it.
pub proof fn lemma_stretch_h_same_cells(a: Grid, b: Grid, sx: int, ex: int, y: int)
    requires
        a.same_cells(b),
    ensures
        spec_stretch_h(a, sx, ex, y) == spec_stretch_h(b, sx, ex, y),
{
    assert forall|p: int, q: int| a.char_at(p, q) == #[trigger] b.char_at(p, q) by {}
    lemma_h_line_at_same_cells(a, b, sx - 2, y, HLineType::Solid);
    lemma_h_line_at_same_cells(a, b, sx - 2, y, HLineType::Squiggle);
    lemma_h_line_at_same_cells(a, b, sx - 2, y, HLineType::Double);
    lemma_h_line_at_same_cells(a, b, sx - 1, y, HLineType::Solid);
    lemma_h_line_at_same_cells(a, b, sx - 1, y, HLineType::Squiggle);
    lemma_h_line_at_same_cells(a, b, sx - 1, y, HLineType::Double);
    lemma_h_line_at_same_cells(a, b, ex + 1, y, HLineType::Solid);
    lemma_h_line_at_same_cells(a, b, ex + 1, y, HLineType::Squiggle);
    lemma_h_line_at_same_cells(a, b, ex + 1, y, HLineType::Double);
}

/// The horizontal segment one consumed run stores: the run's row between
/// its stretched ends, carrying the weight's style — or nothing, when the
/// stretched ends coincide.
pub open spec fn spec_hline_result(g: Grid, x0: int, y: int, kind: HLineType) -> Seq<Path> {
    let stop = spec_h_stop(g, x0 + 1, y, kind);
    let r = spec_stretch_h(g, x0, stop - 1, y);
    if r.0 != r.1 {
        seq![
            Path {
                a: spec_from_grid_frac(r.0, 20 * y),
                b: spec_from_grid_frac(r.1, 20 * y),
                c: None,
                d: None,
                style: PathStyle {
                    dashed: false,
                    double: kind == HLineType::Double,
                    squiggle: kind == HLineType::Squiggle,
                },
            },
        ]
    } else {
        Seq::<Path>::empty()
    }
}

/// The run result reads glyphs only, so grids with the same cells agree.
pub proof fn lemma_hline_result_same_cells(a: Grid, b: Grid, x0: int, y: int, kind: HLineType)
    requires
        a.same_cells(b),
    ensures
        spec_hline_result(a, x0, y, kind) == spec_hline_result(b, x0, y, kind),
{
    lemma_h_stop_same_cells(a, b, x0 + 1, y, kind);
    lemma_stretch_h_same_cells(a, b, x0, spec_h_stop(a, x0 + 1, y, kind) - 1, y);
}

/// Try to consume a horizontal run of the given weight starting at
/// `(*x, y)`.  On a match the run's cells are marked used, `x` lands past
/// the run, and the stretched run is stored unless it is degenerate.
fn try_hline(grid: &mut Grid, paths: &mut PathSet, x: &mut i32, y: i32, kind: HLineType) -> (found:
    bool)
    requires
        old(grid).wf(),
        old(paths).wf(),
        0 <= *old(x) < old(grid).width,
        0 <= y < old(grid).height,
    ensures
        final (grid).wf(),
        old(grid).same_cells(*final (grid)),
        old(grid).used_leq(*final (grid)),
        final (paths).wf(),
        spec_paths_extended(old(paths).paths@, final (paths).paths@),
        forall|i: int|
            old(paths).paths@.len() <= i < final (paths).paths@.len()
                ==> (#[trigger] final (paths).paths@[i]).spec_horizontal()
                && spec_grid_aligned(final (paths).paths@[i]),
        found == spec_h_line_at(*old(grid), *old(x) as int, y as int, kind),
        found ==> *old(x) < *final (x) <= old(grid).width,
        found ==> *final (x) == spec_h_stop(*old(grid), *old(x) + 1, y as int, kind),
        found ==> final (paths).paths@ == old(paths).paths@ + spec_hline_result(
            *old(grid),
            *old(x) as int,
            y as int,
            kind,
        ),
        forall|p: int, q: int|
            #![trigger final (grid).used_at(p, q)]
            final (grid).used_at(p, q) == (old(grid).used_at(p, q) || (found && q == y && *old(x)
                <= p < *final (x))),
        !found ==> *final (x) == *old(x) && *final (grid) == *old(grid) && *final (paths) == *old(
            paths,
        ),
{
    if !h_line_at(grid, *x, y, kind) {
        return false;
    }
    let start_x: i32 = *x;
    let width: i32 = grid.width as i32;
    loop
        invariant_except_break
            grid.wf(),
            old(grid).same_cells(*grid),
            old(grid).used_leq(*grid),
            *paths == *old(paths),
            0 <= start_x <= *x < width,
            start_x == *old(x),
            width == grid.width,
            0 <= y < grid.height,
            spec_h_line_at(*old(grid), *x as int, y as int, kind),
            forall|p: int| start_x <= p < *x ==> spec_h_line_at(*old(grid), p, y as int, kind),
            forall|p: int, q: int|
                #![trigger grid.used_at(p, q)]
                grid.used_at(p, q) == (old(grid).used_at(p, q) || (q == y && start_x <= p < *x)),
        ensures
            grid.wf(),
            old(grid).same_cells(*grid),
            old(grid).used_leq(*grid),
            *paths == *old(paths),
            start_x == *old(x),
            width == grid.width,
            start_x < *x <= width,
            forall|p: int| start_x <= p < *x ==> spec_h_line_at(*old(grid), p, y as int, kind),
            *x >= width || !spec_h_line_at(*old(grid), *x as int, y as int, kind),
            forall|p: int, q: int|
                #![trigger grid.used_at(p, q)]
                grid.used_at(p, q) == (old(grid).used_at(p, q) || (q == y && start_x <= p < *x)),
        decreases width - *x,
    {
        grid.set_used(*x, y);
        *x = *x + 1;
        if *x >= width {
            break ;
        }
        let cont = h_line_at(grid, *x, y, kind);
        proof {
            lemma_h_line_at_same_cells(*old(grid), *grid, *x as int, y as int, kind);
        }
        if !cont {
            break ;
        }
    }
    proof {
        lemma_h_stop_val(*old(grid), start_x + 1, *x as int, y as int, kind);
    }
    let end_x: i32 = *x - 1;
    let (adj_a, adj_b) = stretch_h_line_endpoints(grid, start_x, end_x, y);
    proof {
        lemma_stretch_h_same_cells(
            *old(grid),
            *grid,
            start_x as int,
            end_x as int,
            y as int,
        );
    }
    if adj_a != adj_b {
        let gy: i64 = y as i64 * 20;
        let mut path = Path::line(
            Vec2::from_grid_frac(adj_a, gy),
            Vec2::from_grid_frac(adj_b, gy),
        );
        match kind {
            HLineType::Solid => {},
            HLineType::Squiggle => {
                path = path.with_squiggle(true);
            },
            HLineType::Double => {
                path = path.with_double(true);
            },
        }
        proof {
            assert(path.spec_horizontal());
            assert(spec_grid_aligned(path)) by {
                let dx = path.b.x - path.a.x;
                assert(dx == (adj_b - adj_a) * 40000);
                if adj_b > adj_a {
                    assert(dx >= 40000) by (nonlinear_arith)
                        requires
                            dx == (adj_b - adj_a) * 40000 && adj_b - adj_a >= 1,
                    ;
                } else if adj_b < adj_a {
                    assert(dx <= -40000) by (nonlinear_arith)
                        requires
                            dx == (adj_b - adj_a) * 40000 && adj_b - adj_a <= -1,
                    ;
                }
            }
            assert(!path.spec_degenerate());
        }
        paths.insert(path);
        proof {
            assert(paths.paths@ =~= old(paths).paths@ + spec_hline_result(
                *old(grid),
                start_x as int,
                y as int,
                kind,
            ));
        }
    } else {
        proof {
            assert(spec_hline_result(*old(grid), start_x as int, y as int, kind)
                =~= Seq::<Path>::empty());
            assert(paths.paths@ =~= old(paths).paths@ + spec_hline_result(
                *old(grid),
                start_x as int,
                y as int,
                kind,
            ));
        }
    }
    true
}

/// Everything the horizontal scan stores while walking one row from
/// column `x` right, solid weight tried first, then squiggle, then
/// double: each cell that opens a run of a weight consumes the run and
/// stores its stretched segment; every other cell is stepped over.
pub open spec fn spec_hrow(g: Grid, y: int, x: int) -> Seq<Path>
    decreases g.width - x
        via spec_hrow_decreases
{
    if x < 0 || x >= g.width {
        Seq::<Path>::empty()
    } else if spec_h_line_at(g, x, y, HLineType::Solid) {
        spec_hline_result(g, x, y, HLineType::Solid) + spec_hrow(
            g,
            y,
            spec_h_stop(g, x + 1, y, HLineType::Solid),
        )
    } else if spec_h_line_at(g, x, y, HLineType::Squiggle) {
        spec_hline_result(g, x, y, HLineType::Squiggle) + spec_hrow(
            g,
            y,
            spec_h_stop(g, x + 1, y, HLineType::Squiggle),
        )
    } else if spec_h_line_at(g, x, y, HLineType::Double) {
        spec_hline_result(g, x, y, HLineType::Double) + spec_hrow(
            g,
            y,
            spec_h_stop(g, x + 1, y, HLineType::Double),
        )
    } else {
        spec_hrow(g, y, x + 1)
    }
}

#[via_fn]
proof fn spec_hrow_decreases(g: Grid, y: int, x: int) {
    if 0 <= x < g.width {
        lemma_h_stop_bounds(g, x + 1, y, HLineType::Solid);
        lemma_h_stop_bounds(g, x + 1, y, HLineType::Squiggle);
        lemma_h_stop_bounds(g, x + 1, y, HLineType::Double);
    }
}

/// Everything the horizontal scan stores over the first `y` rows, in scan
/// order.
pub open spec fn spec_hrows(g: Grid, y: int) -> Seq<Path>
    decreases y,
{
    if y <= 0 {
        Seq::<Path>::empty()
    } else {
        spec_hrows(g, y - 1) + spec_hrow(g, y - 1, 0)
    }
}

/// Scan every row for horizontal runs, trying solid, then squiggle, then
/// double weight at each cell.
pub fn find_horizontal_lines(grid: &mut Grid, paths: &mut PathSet)
    requires
        old(grid).wf(),
        old(paths).wf(),
    ensures
        final (grid).wf(),
        old(grid).same_cells(*final (grid)),
        old(grid).used_leq(*final (grid)),
        final (paths).wf(),
        spec_paths_extended(old(paths).paths@, final (paths).paths@),
        forall|i: int|
            old(paths).paths@.len() <= i < final (paths).paths@.len()
                ==> (#[trigger] final (paths).paths@[i]).spec_horizontal()
                && spec_grid_aligned(final (paths).paths@[i]),
        forall|p: int, q: int|
            #![trigger final (grid).used_at(p, q)]
            final (grid).in_range(p, q) && (spec_h_line_at(*old(grid), p, q, HLineType::Solid)
                || spec_h_line_at(*old(grid), p, q, HLineType::Squiggle) || spec_h_line_at(
                *old(grid),
                p,
                q,
                HLineType::Double,
            )) ==> final (grid).used_at(p, q),
        final (paths).paths@ == old(paths).paths@ + spec_hrows(
            *old(grid),
            old(grid).height as int,
        ),
{
    let height: i32 = grid.height as i32;
    let mut y: i32 = 0;
    while y < height
        invariant
            grid.wf(),
            old(grid).same_cells(*grid),
            old(grid).used_leq(*grid),
            paths.wf(),
            spec_paths_extended(old(paths).paths@, paths.paths@),
            forall|i: int|
                old(paths).paths@.len() <= i < paths.paths@.len()
                    ==> (#[trigger] paths.paths@[i]).spec_horizontal()
                    && spec_grid_aligned(paths.paths@[i]),
            forall|p: int, q: int|
                #![trigger grid.used_at(p, q)]
                grid.in_range(p, q) && q < y && (spec_h_line_at(*old(grid), p, q, HLineType::Solid)
                    || spec_h_line_at(*old(grid), p, q, HLineType::Squiggle) || spec_h_line_at(
                    *old(grid),
                    p,
                    q,
                    HLineType::Double,
                )) ==> grid.used_at(p, q),
            paths.paths@ == old(paths).paths@ + spec_hrows(*old(grid), y as int),
            height == grid.height,
            0 <= y <= height,
        decreases height - y,
    {
        let width: i32 = grid.width as i32;
        let mut x: i32 = 0;
        while x < width
            invariant
                grid.wf(),
                old(grid).same_cells(*grid),
                old(grid).used_leq(*grid),
                paths.wf(),
                spec_paths_extended(old(paths).paths@, paths.paths@),
                forall|i: int|
                    old(paths).paths@.len() <= i < paths.paths@.len()
                        ==> (#[trigger] paths.paths@[i]).spec_horizontal()
                        && spec_grid_aligned(paths.paths@[i]),
                forall|p: int, q: int|
                    #![trigger grid.used_at(p, q)]
                    grid.in_range(p, q) && (q < y || (q == y && p < x)) && (spec_h_line_at(
                        *old(grid),
                        p,
                        q,
                        HLineType::Solid,
                    ) || spec_h_line_at(*old(grid), p, q, HLineType::Squiggle) || spec_h_line_at(
                        *old(grid),
                        p,
                        q,
                        HLineType::Double,
                    )) ==> grid.used_at(p, q),
                paths.paths@ + spec_hrow(*old(grid), y as int, x as int) == old(paths).paths@
                    + spec_hrows(*old(grid), y as int) + spec_hrow(*old(grid), y as int, 0),
                height == grid.height,
                width == grid.width,
                0 <= y < height,
                0 <= x <= width,
            decreases width - x,
        {
            let ghost prev = paths.paths@;
            let ghost g1 = *grid;
            let ghost x1 = x as int;
            let f1 = try_hline(grid, paths, &mut x, y, HLineType::Solid);
            let ghost mid1 = paths.paths@;
            proof {
                lemma_paths_extended_trans(old(paths).paths@, prev, mid1);
                lemma_h_line_at_same_cells(*old(grid), g1, x1, y as int, HLineType::Solid);
                if f1 {
                    lemma_hline_result_same_cells(*old(grid), g1, x1, y as int, HLineType::Solid);
                    lemma_h_stop_same_cells(*old(grid), g1, x1 + 1, y as int, HLineType::Solid);
                }
            }
            let ghost g2 = *grid;
            let ghost x2 = x as int;
            let f2 = if f1 {
                false
            } else {
                try_hline(grid, paths, &mut x, y, HLineType::Squiggle)
            };
            let ghost mid2 = paths.paths@;
            proof {
                lemma_paths_extended_trans(old(paths).paths@, mid1, mid2);
                lemma_h_line_at_same_cells(*old(grid), g2, x2, y as int, HLineType::Squiggle);
                if f2 {
                    lemma_hline_result_same_cells(
                        *old(grid),
                        g2,
                        x1,
                        y as int,
                        HLineType::Squiggle,
                    );
                    lemma_h_stop_same_cells(*old(grid), g2, x1 + 1, y as int, HLineType::Squiggle);
                }
            }
            let ghost g3 = *grid;
            let ghost x3 = x as int;
            let f3 = if f1 || f2 {
                false
            } else {
                try_hline(grid, paths, &mut x, y, HLineType::Double)
            };
            proof {
                lemma_paths_extended_trans(old(paths).paths@, mid2, paths.paths@);
                lemma_h_line_at_same_cells(*old(grid), g3, x3, y as int, HLineType::Double);
                if f3 {
                    lemma_hline_result_same_cells(*old(grid), g3, x1, y as int, HLineType::Double);
                    lemma_h_stop_same_cells(*old(grid), g3, x1 + 1, y as int, HLineType::Double);
                }
                if f1 || f2 || f3 {
                    assert forall|p: int, q: int|
                        #![trigger grid.used_at(p, q)]
                        grid.in_range(p, q) && (q < y || (q == y && p < x)) && (spec_h_line_at(
                            *old(grid),
                            p,
                            q,
                            HLineType::Solid,
                        ) || spec_h_line_at(*old(grid), p, q, HLineType::Squiggle)
                            || spec_h_line_at(
                            *old(grid),
                            p,
                            q,
                            HLineType::Double,
                        )) implies grid.used_at(p, q) by {
                        if q == y as int && x1 <= p < x {
                            if f1 {
                                assert(g2.used_at(p, q));
                            } else if f2 {
                                assert(g3.used_at(p, q));
                            }
                        } else if q < y as int || (q == y as int && p < x1) {
                            assert(g1.used_at(p, q));
                        }
                    }
                    if f1 {
                        assert(spec_hrow(*old(grid), y as int, x1) == spec_hline_result(
                            *old(grid),
                            x1,
                            y as int,
                            HLineType::Solid,
                        ) + spec_hrow(*old(grid), y as int, x as int));
                    } else if f2 {
                        assert(!spec_h_line_at(*old(grid), x1, y as int, HLineType::Solid));
                        assert(spec_hrow(*old(grid), y as int, x1) == spec_hline_result(
                            *old(grid),
                            x1,
                            y as int,
                            HLineType::Squiggle,
                        ) + spec_hrow(*old(grid), y as int, x as int));
                    } else {
                        assert(!spec_h_line_at(*old(grid), x1, y as int, HLineType::Solid));
                        assert(!spec_h_line_at(*old(grid), x1, y as int, HLineType::Squiggle));
                        assert(spec_hrow(*old(grid), y as int, x1) == spec_hline_result(
                            *old(grid),
                            x1,
                            y as int,
                            HLineType::Double,
                        ) + spec_hrow(*old(grid), y as int, x as int));
                    }
                    assert(paths.paths@ + spec_hrow(*old(grid), y as int, x as int) =~= old(
                        paths,
                    ).paths@ + spec_hrows(*old(grid), y as int) + spec_hrow(
                        *old(grid),
                        y as int,
                        0,
                    ));
                } else {
                    assert(g3 == g1 && g2 == g1);
                    assert(!spec_h_line_at(*old(grid), x1, y as int, HLineType::Solid));
                    assert(!spec_h_line_at(*old(grid), x1, y as int, HLineType::Squiggle));
                    assert(!spec_h_line_at(*old(grid), x1, y as int, HLineType::Double));
                    assert(spec_hrow(*old(grid), y as int, x1) == spec_hrow(
                        *old(grid),
                        y as int,
                        x1 + 1,
                    ));
                }
            }
            if !f1 && !f2 && !f3 {
                x = x + 1;
            }
        }
        proof {
            assert(spec_hrow(*old(grid), y as int, width as int) == Seq::<Path>::empty());
            assert(spec_hrows(*old(grid), y as int + 1) == spec_hrows(*old(grid), y as int)
                + spec_hrow(*old(grid), y as int, 0));
            assert(paths.paths@ =~= old(paths).paths@ + spec_hrows(*old(grid), y as int + 1));
        }
        y = y + 1;
    }
    proof {
        assert(final (paths).paths@ =~= old(paths).paths@ + spec_hrows(
            *old(grid),
            old(grid).height as int,
        ));
    }
}

/// Does a back-diagonal run pass through `(x, y)`?  A backslash continues
/// into line glyphs, vertices, points, arrowheads, or underscores on its
/// diagonal neighbours, and into a slash directly above or below (a hexagon
/// corner); a vertex, point, or pipe belongs to the run when a backslash
/// adjoins it diagonally.
pub open spec fn spec_b_line_at(g: Grid, x: int, y: int) -> bool {
    let c = g.char_at(x, y);
    let lt = g.char_at(x - 1, y - 1);
    let rt = g.char_at(x + 1, y + 1);
    if spec_is_solid_b_line(c) {
        spec_is_solid_b_line(rt) || spec_is_bottom_vertex(rt) || spec_is_point(rt) || rt == 'v'
            || rt == 'V' || spec_is_solid_b_line(lt) || spec_is_top_vertex(lt) || spec_is_point(lt)
            || lt == '^' || g.char_at(x, y - 1) == '/' || g.char_at(x, y + 1) == '/' || rt == '_'
            || lt == '_'
    } else if spec_is_vertex(c) || spec_is_point(c) || c == '|' {
        spec_is_solid_b_line(lt) || spec_is_solid_b_line(rt)
    } else {
        false
    }
}

/// Does a back-diagonal run pass through `(x, y)`?
pub fn is_solid_b_line_at(grid: &Grid, x: i32, y: i32) -> (r: bool)
    requires
        grid.wf(),
        -XY_LIMIT <= x <= XY_LIMIT,
        -XY_LIMIT <= y <= XY_LIMIT,
    ensures
        r == spec_b_line_at(*grid, x as int, y as int),
{
    let c = grid.get(x, y);
    let lt = grid.get(x - 1, y - 1);
    let rt = grid.get(x + 1, y + 1);
    if is_solid_b_line(c) {
        is_solid_b_line(rt) || is_bottom_vertex(rt) || is_point(rt) || rt == 'v' || rt == 'V'
            || is_solid_b_line(lt) || is_top_vertex(lt) || is_point(lt) || lt == '^' || grid.get(
            x,
            y - 1,
        ) == '/' || grid.get(x, y + 1) == '/' || rt == '_' || lt == '_'
    } else if is_vertex(c) || is_point(c) || c == '|' {
        is_solid_b_line(lt) || is_solid_b_line(rt)
    } else {
        false
    }
}

/// Does a forward-diagonal run pass through `(x, y)`?
pub open spec fn spec_d_line_at(g: Grid, x: int, y: int) -> bool {
    let c = g.char_at(x, y);
    let lt = g.char_at(x - 1, y + 1);
    let rt = g.char_at(x + 1, y - 1);
    if spec_is_solid_d_line(c) {
        if g.char_at(x, y - 1) == '\\' || g.char_at(x, y + 1) == '\\' {
            true
        } else {
            spec_is_solid_d_line(rt) || spec_is_top_vertex(rt) || spec_is_point(rt) || rt == '^'
                || rt == '_' || spec_is_solid_d_line(lt) || spec_is_bottom_vertex(lt)
                || spec_is_point(lt) || lt == 'v' || lt == 'V' || lt == '_'
        }
    } else if spec_is_vertex(c) || spec_is_point(c) || c == '|' {
        spec_is_solid_d_line(lt) || spec_is_solid_d_line(rt)
    } else {
        false
    }
}

/// Does a forward-diagonal run pass through `(x, y)`?
pub fn is_solid_d_line_at(grid: &Grid, x: i32, y: i32) -> (r: bool)
    requires
        grid.wf(),
        -XY_LIMIT <= x <= XY_LIMIT,
        -XY_LIMIT <= y <= XY_LIMIT,
    ensures
        r == spec_d_line_at(*grid, x as int, y as int),
{
    let c = grid.get(x, y);
    let lt = grid.get(x - 1, y + 1);
    let rt = grid.get(x + 1, y - 1);
    if is_solid_d_line(c) {
        if grid.get(x, y - 1) == '\\' || grid.get(x, y + 1) == '\\' {
            true
        } else {
            is_solid_d_line(rt) || is_top_vertex(rt) || is_point(rt) || rt == '^' || rt == '_'
                || is_solid_d_line(lt) || is_bottom_vertex(lt) || is_point(lt) || lt == 'v' || lt
                == 'V' || lt == '_'
        }
    } else if is_vertex(c) || is_point(c) || c == '|' {
        is_solid_d_line(lt) || is_solid_d_line(rt)
    } else {
        false
    }
}

/// The diagonal run predicates read glyphs only, so grids with the same
/// cells agree on them.
pub proof fn lemma_b_line_at_same_cells(a: Grid, b: Grid, x: int, y: int)
    requires
        a.same_cells(b),
    ensures
        spec_b_line_at(a, x, y) == spec_b_line_at(b, x, y),
{
    assert forall|p: int, q: int| a.char_at(p, q) == #[trigger] b.char_at(p, q) by {}
}

/// The diagonal run predicates read glyphs only, so grids with the same
/// cells agree on them.
pub proof fn lemma_d_line_at_same_cells(a: Grid, b: Grid, x: int, y: int)
    requires
        a.same_cells(b),
    ensures
        spec_d_line_at(a, x, y) == spec_d_line_at(b, x, y),
{
    assert forall|p: int, q: int| a.char_at(p, q) == #[trigger] b.char_at(p, q) by {}
}

/// The first position at or after `(x, y)` along its anti-diagonal where
/// a back-diagonal run stops: an edge, or the first cell the run
/// predicate rejects.  The position is named by its column; the row moves
/// with it.
pub open spec fn spec_b_stop(g: Grid, x: int, y: int) -> int
    decreases g.width - x,
{
    if x >= g.width || y >= g.height || !spec_b_line_at(g, x, y) {
        x
    } else {
        spec_b_stop(g, x + 1, y + 1)
    }
}

/// The stop of a run lies between its start and the edges.
pub proof fn lemma_b_stop_bounds(g: Grid, x: int, y: int)
    requires
        x <= g.width,
    ensures
        x <= spec_b_stop(g, x, y) <= g.width,
    decreases g.width - x,
{
    if !(x >= g.width || y >= g.height || !spec_b_line_at(g, x, y)) {
        lemma_b_stop_bounds(g, x + 1, y + 1);
    }
}

/// The stop is the first failing position along the diagonal.
pub proof fn lemma_b_stop_val(g: Grid, sx: int, sy: int, x: int, y: int)
    requires
        sx <= x,
        x - sx == y - sy,
        forall|p: int, q: int|
            #![trigger spec_b_line_at(g, p, q)]
            sx <= p < x && p - q == sx - sy ==> spec_b_line_at(g, p, q),
        x >= g.width || y >= g.height || !spec_b_line_at(g, x, y),
    ensures
        spec_b_stop(g, sx, sy) == x,
    decreases x - sx,
{
    if sx < x {
        assert(spec_b_line_at(g, sx, sy));
        if sx >= g.width || sy >= g.height {
            assert(g.char_at(sx, sy) == ' ');
        }
        lemma_b_stop_val(g, sx + 1, sy + 1, x, y);
    }
}

/// Does the run from `(x, y)` through column `ex` hold a literal
/// backslash?
pub open spec fn spec_b_has(g: Grid, x: int, y: int, ex: int) -> bool {
    exists|p: int, q: int|
        x <= p <= ex && p - q == x - y && #[trigger] g.char_at(p, q) == '\\'
}

/// The back-diagonal segment one consumed run stores, when the run holds a
/// literal backslash: the run between its stretched ends — or nothing,
/// for a slash-free run or one whose stretched ends coincide.
pub open spec fn spec_bdiag_result(g: Grid, x: int, y: int) -> Seq<Path> {
    let stop = spec_b_stop(g, x + 1, y + 1);
    let ex = stop - 1;
    let ey = y + (ex - x);
    if spec_b_has(g, x, y, ex) {
        let top = g.char_at(x, y);
        let up = g.char_at(x, y - 1);
        let uplt = g.char_at(x - 1, y - 1);
        let sa: int = if up == '/' || uplt == '_' || up == '_' || (!spec_is_vertex(top) && (
        spec_is_solid_h_line(uplt) || spec_is_solid_v_line(uplt))) {
            10
        } else if spec_is_point(uplt) {
            5
        } else if top == '\\' && spec_d_line_at(g, x - 1, y) {
            10
        } else {
            0
        };
        let bottom = g.char_at(ex, ey);
        let dn = g.char_at(ex, ey + 1);
        let dnrt = g.char_at(ex + 1, ey + 1);
        let rt = g.char_at(ex + 1, ey);
        let lt = g.char_at(ex - 1, ey);
        let sb: int = if dn == '/' || rt == '_' || lt == '_' || (!spec_is_vertex(bottom) && (
        spec_is_solid_h_line(dnrt) || spec_is_solid_v_line(dnrt))) {
            10
        } else if spec_is_point(dnrt) {
            5
        } else if bottom == '\\' && spec_d_line_at(g, ex + 1, ey) {
            10
        } else {
            0
        };
        if 20 * x - sa != 20 * ex + sb {
            seq![
                Path {
                    a: spec_from_grid_frac(20 * x - sa, 20 * y - sa),
                    b: spec_from_grid_frac(20 * ex + sb, 20 * ey + sb),
                    c: None,
                    d: None,
                    style: PathStyle { dashed: false, double: false, squiggle: false },
                },
            ]
        } else {
            Seq::<Path>::empty()
        }
    } else {
        Seq::<Path>::empty()
    }
}

/// Everything the back-diagonal scan stores while walking one
/// anti-diagonal from `(x, y)` toward the lower right.
pub open spec fn spec_bdiag(g: Grid, x: int, y: int) -> Seq<Path>
    decreases g.width - x
        via spec_bdiag_decreases
{
    if x < 0 || y < 0 || x >= g.width || y >= g.height {
        Seq::<Path>::empty()
    } else if spec_b_line_at(g, x, y) {
        spec_bdiag_result(g, x, y) + spec_bdiag(
            g,
            spec_b_stop(g, x + 1, y + 1),
            y + (spec_b_stop(g, x + 1, y + 1) - x),
        )
    } else {
        spec_bdiag(g, x + 1, y + 1)
    }
}

#[via_fn]
proof fn spec_bdiag_decreases(g: Grid, x: int, y: int) {
    if 0 <= x < g.width && 0 <= y < g.height {
        lemma_b_stop_bounds(g, x + 1, y + 1);
    }
}

/// Everything the back-diagonal scan stores over its first `n`
/// anti-diagonals: one from each cell of the top edge, then one from each
/// cell of the left edge below the corner.
pub open spec fn spec_bdiags(g: Grid, n: int) -> Seq<Path>
    decreases n,
{
    if n <= 0 {
        Seq::<Path>::empty()
    } else if n - 1 < g.width {
        spec_bdiags(g, n - 1) + spec_bdiag(g, n - 1, 0)
    } else {
        spec_bdiags(g, n - 1) + spec_bdiag(g, 0, n - g.width)
    }
}

/// The anti-diagonal a cell belongs to, in the order the back-diagonal
/// scan walks them: first by starting column along the top edge, then by
/// starting row down the left edge.
pub open spec fn spec_bdiag_index(w: int, p: int, q: int) -> int {
    if p >= q {
        p - q
    } else {
        w - 1 + (q - p)
    }
}

/// Scan anti-diagonals from the top and left edges for back-diagonal runs.
/// A run is accepted only if it holds at least one literal backslash, so a
/// run of vertices alone never becomes a diagonal and the two diagonal
/// families can share vertices.  This pass deliberately skips the used-mask
/// check before matching, for the same sharing reason.
#[verifier::rlimit(100)]
pub fn find_backslash_diagonals(grid: &mut Grid, paths: &mut PathSet)
    requires
        old(grid).wf(),
        old(paths).wf(),
    ensures
        final (grid).wf(),
        old(grid).same_cells(*final (grid)),
        old(grid).used_leq(*final (grid)),
        final (paths).wf(),
        spec_paths_extended(old(paths).paths@, final (paths).paths@),
        forall|i: int|
            old(paths).paths@.len() <= i < final (paths).paths@.len()
                ==> (#[trigger] final (paths).paths@[i]).spec_back_diagonal()
                && spec_grid_aligned(final (paths).paths@[i]),
        (forall|p: int, q: int| old(grid).char_at(p, q) != '\\') ==> final (paths).paths@ == old(
            paths,
        ).paths@,
        (forall|p: int, q: int| old(grid).char_at(p, q) != '\\') ==> forall|p: int, q: int|
            #![trigger final (grid).used_at(p, q)]
            final (grid).used_at(p, q) == old(grid).used_at(p, q),
        forall|p: int, q: int|
            #![trigger final (grid).used_at(p, q)]
            final (grid).in_range(p, q) && old(grid).char_at(p, q) == '\\' && spec_b_line_at(
                *old(grid),
                p,
                q,
            ) ==> final (grid).used_at(p, q),
        final (paths).paths@ == old(paths).paths@ + spec_bdiags(
            *old(grid),
            old(grid).width + old(grid).height - 1,
        ),
{
    let width: i32 = grid.width as i32;
    let height: i32 = grid.height as i32;
    let mut start: i32 = 0;
    while start < width + height - 1
        invariant
            grid.wf(),
            old(grid).same_cells(*grid),
            old(grid).used_leq(*grid),
            paths.wf(),
            spec_paths_extended(old(paths).paths@, paths.paths@),
            forall|i: int|
                old(paths).paths@.len() <= i < paths.paths@.len()
                    ==> (#[trigger] paths.paths@[i]).spec_back_diagonal()
                    && spec_grid_aligned(paths.paths@[i]),
            (forall|p: int, q: int| old(grid).char_at(p, q) != '\\') ==> paths.paths@ == old(
                paths,
            ).paths@,
            (forall|p: int, q: int| old(grid).char_at(p, q) != '\\') ==> forall|p: int, q: int|
                #![trigger grid.used_at(p, q)]
                grid.used_at(p, q) == old(grid).used_at(p, q),
            forall|p: int, q: int|
                #![trigger grid.used_at(p, q)]
                grid.in_range(p, q) && spec_bdiag_index(grid.width as int, p, q) < start && old(
                    grid,
                ).char_at(p, q) == '\\' && spec_b_line_at(*old(grid), p, q) ==> grid.used_at(
                    p,
                    q,
                ),
            paths.paths@ == old(paths).paths@ + spec_bdiags(*old(grid), start as int),
            width == grid.width,
            height == grid.height,
            0 <= start <= width + height,
        decreases width + height - start,
    {
        let (start_x, start_y): (i32, i32) = if start < width {
            (start, 0)
        } else {
            (0, start - width + 1)
        };
        let mut x: i32 = start_x;
        let mut y: i32 = start_y;
        while x < width && y < height
            invariant
                grid.wf(),
                old(grid).same_cells(*grid),
                old(grid).used_leq(*grid),
                paths.wf(),
                spec_paths_extended(old(paths).paths@, paths.paths@),
                forall|i: int|
                    old(paths).paths@.len() <= i < paths.paths@.len()
                        ==> (#[trigger] paths.paths@[i]).spec_back_diagonal()
                        && spec_grid_aligned(paths.paths@[i]),
                (forall|p: int, q: int| old(grid).char_at(p, q) != '\\') ==> paths.paths@ == old(
                    paths,
                ).paths@,
                (forall|p: int, q: int| old(grid).char_at(p, q) != '\\') ==> forall|
                    p: int,
                    q: int,
                |
                    #![trigger grid.used_at(p, q)]
                    grid.used_at(p, q) == old(grid).used_at(p, q),
                forall|p: int, q: int|
                    #![trigger grid.used_at(p, q)]
                    grid.in_range(p, q) && spec_bdiag_index(grid.width as int, p, q) < start && old(
                        grid,
                    ).char_at(p, q) == '\\' && spec_b_line_at(*old(grid), p, q)
                        ==> grid.used_at(p, q),
                forall|p: int, q: int|
                    #![trigger grid.used_at(p, q)]
                    grid.in_range(p, q) && p - q == start_x - start_y && q < y && old(
                        grid,
                    ).char_at(p, q) == '\\' && spec_b_line_at(*old(grid), p, q)
                        ==> grid.used_at(p, q),
                paths.paths@ + spec_bdiag(*old(grid), x as int, y as int) == old(paths).paths@
                    + spec_bdiags(*old(grid), start as int) + spec_bdiag(
                    *old(grid),
                    start_x as int,
                    start_y as int,
                ),
                x - y == start_x - start_y,
                (start_x == start && start_y == 0 && start < width) || (start_x == 0 && start_y
                    == start - width + 1 && start >= width),
                width == grid.width,
                height == grid.height,
                0 <= x <= width,
                0 <= y <= height,
            decreases width - x,
        {
            let ghost gtop = *grid;
            let ghost ytop = y as int;
            let pred_here = is_solid_b_line_at(grid, x, y);
            proof {
                lemma_b_line_at_same_cells(*old(grid), *grid, x as int, y as int);
            }
            if pred_here {
                let line_start_x: i32 = x;
                let line_start_y: i32 = y;
                loop
                    invariant_except_break
                        grid.wf(),
                        old(grid).same_cells(*grid),
                        width == grid.width,
                        height == grid.height,
                        line_start_x <= x < width,
                        line_start_y <= y < height,
                        x - line_start_x == y - line_start_y,
                        0 <= line_start_x,
                        0 <= line_start_y,
                        spec_b_line_at(*old(grid), x as int, y as int),
                        forall|p: int, q: int|
                            #![trigger spec_b_line_at(*old(grid), p, q)]
                            line_start_x <= p < x && p - q == line_start_x - line_start_y
                                ==> spec_b_line_at(*old(grid), p, q),
                    ensures
                        grid.wf(),
                        old(grid).same_cells(*grid),
                        width == grid.width,
                        height == grid.height,
                        line_start_x < x <= width,
                        line_start_y < y <= height,
                        x - line_start_x == y - line_start_y,
                        forall|p: int, q: int|
                            #![trigger spec_b_line_at(*old(grid), p, q)]
                            line_start_x <= p < x && p - q == line_start_x - line_start_y
                                ==> spec_b_line_at(*old(grid), p, q),
                        x >= width || y >= height || !spec_b_line_at(
                            *old(grid),
                            x as int,
                            y as int,
                        ),
                    decreases width - x,
                {
                    x = x + 1;
                    y = y + 1;
                    if x >= width || y >= height {
                        break ;
                    }
                    let cont = is_solid_b_line_at(grid, x, y);
                    proof {
                        lemma_b_line_at_same_cells(*old(grid), *grid, x as int, y as int);
                    }
                    if !cont {
                        break ;
                    }
                }
                proof {
                    lemma_b_stop_val(
                        *old(grid),
                        line_start_x + 1,
                        line_start_y + 1,
                        x as int,
                        y as int,
                    );
                }
                let line_end_x: i32 = x - 1;
                let line_end_y: i32 = y - 1;
                let mut has_backslash: bool = false;
                let ghost mut wx: int = 0;
                let ghost mut wy: int = 0;
                let mut j: i32 = line_start_x;
                while j <= line_end_x && !has_backslash
                    invariant
                        grid.wf(),
                        old(grid).same_cells(*grid),
                        line_start_x <= j <= line_end_x + 1,
                        line_end_x - line_start_x == line_end_y - line_start_y,
                        0 <= line_start_x,
                        0 <= line_start_y,
                        line_end_x < width == grid.width,
                        line_end_y < height == grid.height,
                        has_backslash ==> old(grid).char_at(wx, wy) == '\\' && line_start_x <= wx
                            <= line_end_x && wx - wy == line_start_x - line_start_y,
                        !has_backslash ==> forall|p: int, q: int|
                            #![trigger old(grid).char_at(p, q)]
                            line_start_x <= p < j && p - q == line_start_x - line_start_y ==> old(
                                grid,
                            ).char_at(p, q) != '\\',
                    decreases line_end_x + 1 - j + (if has_backslash {
                        0int
                    } else {
                        1int
                    }),
                {
                    if grid.get(j, line_start_y + (j - line_start_x)) == '\\' {
                        has_backslash = true;
                        proof {
                            wx = j as int;
                            wy = line_start_y + (j - line_start_x);
                        }
                    } else {
                        j = j + 1;
                    }
                }
                proof {
                    if has_backslash {
                        assert(spec_b_has(
                            *old(grid),
                            line_start_x as int,
                            line_start_y as int,
                            line_end_x as int,
                        ));
                    } else {
                        assert(!spec_b_has(
                            *old(grid),
                            line_start_x as int,
                            line_start_y as int,
                            line_end_x as int,
                        )) by {
                            if spec_b_has(
                                *old(grid),
                                line_start_x as int,
                                line_start_y as int,
                                line_end_x as int,
                            ) {
                                let (p, q) = choose|p: int, q: int|
                                    line_start_x <= p <= line_end_x && p - q == line_start_x
                                        - line_start_y && #[trigger] old(grid).char_at(p, q)
                                        == '\\';
                                assert(old(grid).char_at(p, q) != '\\');
                            }
                        }
                    }
                }
                if has_backslash {
                    let mut j2: i32 = line_start_x;
                    while j2 <= line_end_x
                        invariant
                            grid.wf(),
                            old(grid).same_cells(*grid),
                            old(grid).used_leq(*grid),
                            gtop.used_leq(*grid),
                            gtop.same_cells(*grid),
                            line_start_x <= j2 <= line_end_x + 1,
                            line_end_x - line_start_x == line_end_y - line_start_y,
                            0 <= line_start_x,
                            0 <= line_start_y,
                            line_end_x < width == grid.width,
                            line_end_y < height == grid.height,
                            forall|p: int, q: int|
                                #![trigger grid.used_at(p, q)]
                                line_start_x <= p < j2 && p - q == line_start_x - line_start_y
                                    ==> grid.used_at(p, q),
                        decreases line_end_x + 1 - j2,
                    {
                        grid.set_used(j2, line_start_y + (j2 - line_start_x));
                        j2 = j2 + 1;
                    }
                    let mut adj_sx: i64 = line_start_x as i64 * 20;
                    let mut adj_sy: i64 = line_start_y as i64 * 20;
                    let mut adj_ex: i64 = line_end_x as i64 * 20;
                    let mut adj_ey: i64 = line_end_y as i64 * 20;
                    let top = grid.get(line_start_x, line_start_y);
                    let up = grid.get(line_start_x, line_start_y - 1);
                    let uplt = grid.get(line_start_x - 1, line_start_y - 1);
                    let d_before = is_solid_d_line_at(grid, line_start_x - 1, line_start_y);
                    proof {
                        lemma_d_line_at_same_cells(
                            *old(grid),
                            *grid,
                            line_start_x as int - 1,
                            line_start_y as int,
                        );
                    }
                    if up == '/' || uplt == '_' || up == '_' || (!is_vertex(top) && (
                    is_solid_h_line(uplt) || is_solid_v_line(uplt))) {
                        adj_sx = adj_sx - 10;
                        adj_sy = adj_sy - 10;
                    } else if is_point(uplt) {
                        adj_sx = adj_sx - 5;
                        adj_sy = adj_sy - 5;
                    } else if top == '\\' && d_before {
                        adj_sx = adj_sx - 10;
                        adj_sy = adj_sy - 10;
                    }
                    let bottom = grid.get(line_end_x, line_end_y);
                    let dn = grid.get(line_end_x, line_end_y + 1);
                    let dnrt = grid.get(line_end_x + 1, line_end_y + 1);
                    let rt = grid.get(line_end_x + 1, line_end_y);
                    let lt = grid.get(line_end_x - 1, line_end_y);
                    let d_after = is_solid_d_line_at(grid, line_end_x + 1, line_end_y);
                    proof {
                        lemma_d_line_at_same_cells(
                            *old(grid),
                            *grid,
                            line_end_x as int + 1,
                            line_end_y as int,
                        );
                    }
                    if dn == '/' || rt == '_' || lt == '_' || (!is_vertex(bottom) && (
                    is_solid_h_line(dnrt) || is_solid_v_line(dnrt))) {
                        adj_ex = adj_ex + 10;
                        adj_ey = adj_ey + 10;
                    } else if is_point(dnrt) {
                        adj_ex = adj_ex + 5;
                        adj_ey = adj_ey + 5;
                    } else if bottom == '\\' && d_after {
                        adj_ex = adj_ex + 10;
                        adj_ey = adj_ey + 10;
                    }
                    let path = Path::line(
                        Vec2::from_grid_frac(adj_sx, adj_sy),
                        Vec2::from_grid_frac(adj_ex, adj_ey),
                    );
                    proof {
                        assert forall|p: int, q: int| old(grid).char_at(p, q)
                            == #[trigger] grid.char_at(p, q) by {}
                        assert(adj_ex - adj_sx == adj_ey - adj_sy);
                        assert(adj_ex >= adj_sx);
                        if adj_ex > adj_sx {
                            assert(path.b.x - path.a.x >= 40000 && path.b.y - path.a.y >= 80000)
                                by (nonlinear_arith)
                                requires
                                    path.b.x - path.a.x == (adj_ex - adj_sx) * 40000 && path.b.y
                                        - path.a.y == (adj_ey - adj_sy) * 80000 && adj_ex - adj_sx
                                        >= 1 && adj_ey - adj_sy >= 1,
                            ;
                            assert(path.spec_back_diagonal());
                        } else {
                            assert(path.spec_degenerate());
                        }
                        assert(spec_grid_aligned(path));
                    }
                    let ghost prev = paths.paths@;
                    paths.insert(path);
                    proof {
                        lemma_paths_extended_trans(old(paths).paths@, prev, paths.paths@);
                        if forall|p: int, q: int| old(grid).char_at(p, q) != '\\' {
                            assert(old(grid).char_at(wx, wy) == '\\');
                            assert(false);
                        }
                        assert(paths.paths@ =~= prev + spec_bdiag_result(
                            *old(grid),
                            line_start_x as int,
                            line_start_y as int,
                        ));
                    }
                } else {
                    proof {
                        assert(spec_bdiag_result(
                            *old(grid),
                            line_start_x as int,
                            line_start_y as int,
                        ) =~= Seq::<Path>::empty());
                    }
                }
                proof {
                    assert(spec_bdiag(*old(grid), line_start_x as int, line_start_y as int)
                        == spec_bdiag_result(*old(grid), line_start_x as int, line_start_y as int)
                        + spec_bdiag(*old(grid), x as int, y as int));
                    assert(paths.paths@ + spec_bdiag(*old(grid), x as int, y as int) =~= old(
                        paths,
                    ).paths@ + spec_bdiags(*old(grid), start as int) + spec_bdiag(
                        *old(grid),
                        start_x as int,
                        start_y as int,
                    ));
                    assert forall|p: int, q: int|
                        #![trigger grid.used_at(p, q)]
                        grid.in_range(p, q) && p - q == start_x - start_y && q < y && old(
                            grid,
                        ).char_at(p, q) == '\\' && spec_b_line_at(*old(grid), p, q) implies
                        grid.used_at(p, q) by {
                        if q < ytop {
                            assert(gtop.used_at(p, q));
                        } else {
                            assert(line_start_x <= p <= line_end_x);
                            assert(p - q == line_start_x - line_start_y);
                            if has_backslash {
                                assert(grid.used_at(p, q));
                            } else {
                                assert(old(grid).char_at(p, q) != '\\');
                            }
                        }
                    }
                    assert forall|p: int, q: int|
                        #![trigger grid.used_at(p, q)]
                        grid.in_range(p, q) && spec_bdiag_index(grid.width as int, p, q) < start
                            && old(grid).char_at(p, q) == '\\' && spec_b_line_at(
                            *old(grid),
                            p,
                            q,
                        ) implies grid.used_at(p, q) by {
                        assert(gtop.used_at(p, q));
                    }
                }
            } else {
                proof {
                    assert(spec_bdiag(*old(grid), x as int, y as int) == spec_bdiag(
                        *old(grid),
                        x as int + 1,
                        y as int + 1,
                    ));
                }
                x = x + 1;
                y = y + 1;
            }
        }
        proof {
            assert(spec_bdiag(*old(grid), x as int, y as int) == Seq::<Path>::empty());
            if start < width {
                assert(spec_bdiags(*old(grid), start as int + 1) == spec_bdiags(
                    *old(grid),
                    start as int,
                ) + spec_bdiag(*old(grid), start as int, 0));
            } else {
                assert(spec_bdiags(*old(grid), start as int + 1) == spec_bdiags(
                    *old(grid),
                    start as int,
                ) + spec_bdiag(*old(grid), 0, start + 1 - width));
            }
            assert(paths.paths@ =~= old(paths).paths@ + spec_bdiags(
                *old(grid),
                start as int + 1,
            ));
            assert forall|p: int, q: int|
                #![trigger grid.used_at(p, q)]
                grid.in_range(p, q) && spec_bdiag_index(grid.width as int, p, q) < start + 1 && old(
                    grid,
                ).char_at(p, q) == '\\' && spec_b_line_at(*old(grid), p, q) implies grid.used_at(
                p,
                q,
            ) by {
                if spec_bdiag_index(grid.width as int, p, q) == start {
                    assert(p - q == start_x - start_y);
                    assert(q < y);
                }
            }
        }
        start = start + 1;
    }
    proof {
        if width + height - 1 <= 0 {
            assert(spec_bdiags(*old(grid), old(grid).width + old(grid).height - 1)
                == Seq::<Path>::empty());
        }
        assert(final (paths).paths@ =~= old(paths).paths@ + spec_bdiags(
            *old(grid),
            old(grid).width + old(grid).height - 1,
        ));
    }
}


/// The first position at or after `(x, y)` along its diagonal (up and to
/// the right) where a forward-diagonal run stops: an edge, or the first
/// cell the run predicate rejects.  The position is named by its column.
pub open spec fn spec_d_stop(g: Grid, x: int, y: int) -> int
    decreases g.width - x,
{
    if x >= g.width || y < 0 || !spec_d_line_at(g, x, y) {
        x
    } else {
        spec_d_stop(g, x + 1, y - 1)
    }
}

/// The stop of a run lies between its start and the right edge.
pub proof fn lemma_d_stop_bounds(g: Grid, x: int, y: int)
    requires
        x <= g.width,
    ensures
        x <= spec_d_stop(g, x, y) <= g.width,
        y >= -1 ==> spec_d_stop(g, x, y) - x <= y + 1,
    decreases g.width - x,
{
    if !(x >= g.width || y < 0 || !spec_d_line_at(g, x, y)) {
        lemma_d_stop_bounds(g, x + 1, y - 1);
    }
}

/// The stop is the first failing position along the diagonal.
pub proof fn lemma_d_stop_val(g: Grid, sx: int, sy: int, x: int, y: int)
    requires
        sx <= x,
        x - sx == sy - y,
        forall|p: int, q: int|
            #![trigger spec_d_line_at(g, p, q)]
            sx <= p < x && p + q == sx + sy ==> spec_d_line_at(g, p, q),
        x >= g.width || y < 0 || !spec_d_line_at(g, x, y),
    ensures
        spec_d_stop(g, sx, sy) == x,
    decreases x - sx,
{
    if sx < x {
        assert(spec_d_line_at(g, sx, sy));
        if sx >= g.width || sy < 0 {
            assert(g.char_at(sx, sy) == ' ');
        }
        lemma_d_stop_val(g, sx + 1, sy - 1, x, y);
    }
}

/// Does the run from `(x, y)` through column `ex` hold a literal slash?
pub open spec fn spec_d_has(g: Grid, x: int, y: int, ex: int) -> bool {
    exists|p: int, q: int| x <= p <= ex && p + q == x + y && #[trigger] g.char_at(p, q) == '/'
}

/// The forward-diagonal segment one consumed run stores, when the run
/// holds a literal slash: the run between its stretched ends, from the
/// lower-left end to the upper-right end — or nothing otherwise.
pub open spec fn spec_ddiag_result(g: Grid, x: int, y: int) -> Seq<Path> {
    let stop = spec_d_stop(g, x + 1, y - 1);
    let ex = stop - 1;
    let ey = y - (ex - x);
    if spec_d_has(g, x, y, ex) {
        let up = g.char_at(ex, ey - 1);
        let uprt = g.char_at(ex + 1, ey - 1);
        let bottom_b = g.char_at(ex, ey);
        let sb1: int = if up == '\\' || up == '_' || uprt == '_' || (!spec_is_vertex(
            g.char_at(ex, ey),
        ) && (spec_is_solid_h_line(uprt) || spec_is_solid_v_line(uprt))) {
            10
        } else if spec_is_point(uprt) {
            5
        } else {
            0
        };
        let sb: int = if bottom_b == '/' && spec_b_line_at(g, ex + 1, ey) {
            sb1 + 10
        } else {
            sb1
        };
        let dn = g.char_at(x, y + 1);
        let dnlt = g.char_at(x - 1, y + 1);
        let lt = g.char_at(x - 1, y);
        let rt = g.char_at(x + 1, y);
        let top_a = g.char_at(x, y);
        let sa: int = if dn == '\\' || lt == '_' || rt == '_' || (!spec_is_vertex(g.char_at(x, y))
            && (spec_is_solid_h_line(dnlt) || spec_is_solid_v_line(dnlt))) {
            10
        } else if spec_is_point(dnlt) {
            5
        } else if top_a == '/' && spec_b_line_at(g, x - 1, y) {
            10
        } else {
            0
        };
        if 20 * x - sa != 20 * ex + sb {
            seq![
                Path {
                    a: spec_from_grid_frac(20 * x - sa, 20 * y + sa),
                    b: spec_from_grid_frac(20 * ex + sb, 20 * ey - sb),
                    c: None,
                    d: None,
                    style: PathStyle { dashed: false, double: false, squiggle: false },
                },
            ]
        } else {
            Seq::<Path>::empty()
        }
    } else {
        Seq::<Path>::empty()
    }
}

/// Everything the forward-diagonal scan stores while walking one diagonal
/// from `(x, y)` toward the upper right.
pub open spec fn spec_ddiag(g: Grid, x: int, y: int) -> Seq<Path>
    decreases y + 1
        via spec_ddiag_decreases
{
    if y < 0 {
        Seq::<Path>::empty()
    } else if 0 <= x < g.width && y < g.height && spec_d_line_at(g, x, y) {
        spec_ddiag_result(g, x, y) + spec_ddiag(
            g,
            spec_d_stop(g, x + 1, y - 1),
            y - (spec_d_stop(g, x + 1, y - 1) - x),
        )
    } else {
        spec_ddiag(g, x + 1, y - 1)
    }
}

#[via_fn]
proof fn spec_ddiag_decreases(g: Grid, x: int, y: int) {
    if y >= 0 && 0 <= x < g.width && y < g.height {
        lemma_d_stop_bounds(g, x + 1, y - 1);
    }
}

/// Everything the forward-diagonal scan stores over its first `n`
/// diagonals, each started at the bottom row.
pub open spec fn spec_ddiags(g: Grid, n: int) -> Seq<Path>
    decreases n,
{
    if n <= 0 {
        Seq::<Path>::empty()
    } else {
        spec_ddiags(g, n - 1) + spec_ddiag(g, n - 1 - g.height, g.height - 1)
    }
}

/// Scan anti-diagonals from the bottom-left toward the top-right for
/// forward-diagonal runs; the mirror of the backslash scan, with the same
/// literal-slash acceptance rule and no used-mask check before matching.
#[verifier::rlimit(100)]
pub fn find_forward_slash_diagonals(grid: &mut Grid, paths: &mut PathSet)
    requires
        old(grid).wf(),
        old(paths).wf(),
    ensures
        final (grid).wf(),
        old(grid).same_cells(*final (grid)),
        old(grid).used_leq(*final (grid)),
        final (paths).wf(),
        spec_paths_extended(old(paths).paths@, final (paths).paths@),
        forall|i: int|
            old(paths).paths@.len() <= i < final (paths).paths@.len()
                ==> (#[trigger] final (paths).paths@[i]).spec_diagonal()
                && spec_grid_aligned(final (paths).paths@[i]),
        (forall|p: int, q: int| old(grid).char_at(p, q) != '/') ==> final (paths).paths@ == old(
            paths,
        ).paths@,
        (forall|p: int, q: int| old(grid).char_at(p, q) != '/') ==> forall|p: int, q: int|
            #![trigger final (grid).used_at(p, q)]
            final (grid).used_at(p, q) == old(grid).used_at(p, q),
        forall|p: int, q: int|
            #![trigger final (grid).used_at(p, q)]
            final (grid).in_range(p, q) && old(grid).char_at(p, q) == '/' && spec_d_line_at(
                *old(grid),
                p,
                q,
            ) ==> final (grid).used_at(p, q),
        final (paths).paths@ == old(paths).paths@ + spec_ddiags(
            *old(grid),
            old(grid).width + old(grid).height,
        ),
{
    let width: i32 = grid.width as i32;
    let height: i32 = grid.height as i32;
    let mut i0: i32 = -height;
    while i0 < width
        invariant
            grid.wf(),
            old(grid).same_cells(*grid),
            old(grid).used_leq(*grid),
            paths.wf(),
            spec_paths_extended(old(paths).paths@, paths.paths@),
            forall|i: int|
                old(paths).paths@.len() <= i < paths.paths@.len()
                    ==> (#[trigger] paths.paths@[i]).spec_diagonal()
                    && spec_grid_aligned(paths.paths@[i]),
            (forall|p: int, q: int| old(grid).char_at(p, q) != '/') ==> paths.paths@ == old(
                paths,
            ).paths@,
            (forall|p: int, q: int| old(grid).char_at(p, q) != '/') ==> forall|p: int, q: int|
                #![trigger grid.used_at(p, q)]
                grid.used_at(p, q) == old(grid).used_at(p, q),
            forall|p: int, q: int|
                #![trigger grid.used_at(p, q)]
                grid.in_range(p, q) && p + q < i0 + height - 1 && old(grid).char_at(p, q) == '/'
                    && spec_d_line_at(*old(grid), p, q) ==> grid.used_at(p, q),
            paths.paths@ == old(paths).paths@ + spec_ddiags(*old(grid), i0 + height),
            width == grid.width,
            height == grid.height,
            -height <= i0 <= width,
        decreases width - i0,
    {
        let mut x: i32 = i0;
        let mut y: i32 = height - 1;
        while y >= 0
            invariant
                grid.wf(),
                old(grid).same_cells(*grid),
                old(grid).used_leq(*grid),
                paths.wf(),
                spec_paths_extended(old(paths).paths@, paths.paths@),
                forall|i: int|
                    old(paths).paths@.len() <= i < paths.paths@.len()
                        ==> (#[trigger] paths.paths@[i]).spec_diagonal()
                        && spec_grid_aligned(paths.paths@[i]),
                (forall|p: int, q: int| old(grid).char_at(p, q) != '/') ==> paths.paths@ == old(
                    paths,
                ).paths@,
                (forall|p: int, q: int| old(grid).char_at(p, q) != '/') ==> forall|
                    p: int,
                    q: int,
                |
                    #![trigger grid.used_at(p, q)]
                    grid.used_at(p, q) == old(grid).used_at(p, q),
                forall|p: int, q: int|
                    #![trigger grid.used_at(p, q)]
                    grid.in_range(p, q) && p + q < i0 + height - 1 && old(grid).char_at(p, q) == '/'
                        && spec_d_line_at(*old(grid), p, q) ==> grid.used_at(p, q),
                forall|p: int, q: int|
                    #![trigger grid.used_at(p, q)]
                    grid.in_range(p, q) && p + q == i0 + height - 1 && q > y && old(grid).char_at(
                        p,
                        q,
                    ) == '/' && spec_d_line_at(*old(grid), p, q) ==> grid.used_at(p, q),
                paths.paths@ + spec_ddiag(*old(grid), x as int, y as int) == old(paths).paths@
                    + spec_ddiags(*old(grid), i0 + height) + spec_ddiag(
                    *old(grid),
                    i0 as int,
                    height as int - 1,
                ),
                width == grid.width,
                height == grid.height,
                -height <= i0 < width,
                x + y == i0 + height - 1,
                -height <= x <= width + height,
                -1 <= y < height,
            decreases y + 1,
        {
            let ghost gtop = *grid;
            let ghost ytop = y as int;
            let pred_here = if x >= 0 && x < width {
                let r = is_solid_d_line_at(grid, x, y);
                proof {
                    lemma_d_line_at_same_cells(*old(grid), *grid, x as int, y as int);
                }
                r
            } else {
                false
            };
            if pred_here {
                let a_x: i32 = x;
                let a_y: i32 = y;
                loop
                    invariant_except_break
                        grid.wf(),
                        old(grid).same_cells(*grid),
                        width == grid.width,
                        height == grid.height,
                        a_x <= x < width,
                        0 <= y <= a_y,
                        x - a_x == a_y - y,
                        0 <= a_x,
                        a_y < height,
                        spec_d_line_at(*old(grid), x as int, y as int),
                        forall|p: int, q: int|
                            #![trigger spec_d_line_at(*old(grid), p, q)]
                            a_x <= p < x && p + q == a_x + a_y ==> spec_d_line_at(*old(grid), p, q),
                    ensures
                        grid.wf(),
                        old(grid).same_cells(*grid),
                        width == grid.width,
                        height == grid.height,
                        a_x < x <= width,
                        -1 <= y < a_y,
                        x - a_x == a_y - y,
                        forall|p: int, q: int|
                            #![trigger spec_d_line_at(*old(grid), p, q)]
                            a_x <= p < x && p + q == a_x + a_y ==> spec_d_line_at(*old(grid), p, q),
                        x >= width || y < 0 || !spec_d_line_at(*old(grid), x as int, y as int),
                    decreases y + 1,
                {
                    x = x + 1;
                    y = y - 1;
                    if x >= width || y < 0 {
                        break ;
                    }
                    let cont = is_solid_d_line_at(grid, x, y);
                    proof {
                        lemma_d_line_at_same_cells(*old(grid), *grid, x as int, y as int);
                    }
                    if !cont {
                        break ;
                    }
                }
                proof {
                    lemma_d_stop_val(*old(grid), a_x + 1, a_y - 1, x as int, y as int);
                }
                let b_x: i32 = x - 1;
                let b_y: i32 = y + 1;
                let mut has_slash: bool = false;
                let ghost mut wx: int = 0;
                let ghost mut wy: int = 0;
                let mut j: i32 = a_x;
                while j <= b_x && !has_slash
                    invariant
                        grid.wf(),
                        old(grid).same_cells(*grid),
                        a_x <= j <= b_x + 1,
                        b_x - a_x == a_y - b_y,
                        0 <= a_x,
                        0 <= b_y,
                        b_x < width == grid.width,
                        a_y < height == grid.height,
                        has_slash ==> old(grid).char_at(wx, wy) == '/' && a_x <= wx <= b_x && wx
                            + wy == a_x + a_y,
                        !has_slash ==> forall|p: int, q: int|
                            #![trigger old(grid).char_at(p, q)]
                            a_x <= p < j && p + q == a_x + a_y ==> old(grid).char_at(p, q) != '/',
                    decreases b_x + 1 - j + (if has_slash {
                        0int
                    } else {
                        1int
                    }),
                {
                    if grid.get(j, a_y - (j - a_x)) == '/' {
                        has_slash = true;
                        proof {
                            wx = j as int;
                            wy = a_y - (j - a_x);
                        }
                    } else {
                        j = j + 1;
                    }
                }
                proof {
                    if has_slash {
                        assert(spec_d_has(*old(grid), a_x as int, a_y as int, b_x as int));
                    } else {
                        assert(!spec_d_has(*old(grid), a_x as int, a_y as int, b_x as int)) by {
                            if spec_d_has(*old(grid), a_x as int, a_y as int, b_x as int) {
                                let (p, q) = choose|p: int, q: int|
                                    a_x <= p <= b_x && p + q == a_x + a_y && #[trigger] old(
                                        grid,
                                    ).char_at(p, q) == '/';
                                assert(old(grid).char_at(p, q) != '/');
                            }
                        }
                    }
                }
                if has_slash {
                    let mut j2: i32 = a_x;
                    while j2 <= b_x
                        invariant
                            grid.wf(),
                            old(grid).same_cells(*grid),
                            old(grid).used_leq(*grid),
                            gtop.used_leq(*grid),
                            gtop.same_cells(*grid),
                            a_x <= j2 <= b_x + 1,
                            b_x - a_x == a_y - b_y,
                            0 <= a_x,
                            0 <= b_y,
                            b_x < width == grid.width,
                            a_y < height == grid.height,
                            forall|p: int, q: int|
                                #![trigger grid.used_at(p, q)]
                                a_x <= p < j2 && p + q == a_x + a_y ==> grid.used_at(p, q),
                        decreases b_x + 1 - j2,
                    {
                        grid.set_used(j2, a_y - (j2 - a_x));
                        j2 = j2 + 1;
                    }
                    let mut adj_ax: i64 = a_x as i64 * 20;
                    let mut adj_ay: i64 = a_y as i64 * 20;
                    let mut adj_bx: i64 = b_x as i64 * 20;
                    let mut adj_by: i64 = b_y as i64 * 20;
                    let up = grid.get(b_x, b_y - 1);
                    let uprt = grid.get(b_x + 1, b_y - 1);
                    let bottom_b = grid.get(b_x, b_y);
                    let cap_b = is_solid_b_line_at(grid, b_x + 1, b_y);
                    proof {
                        lemma_b_line_at_same_cells(
                            *old(grid),
                            *grid,
                            b_x as int + 1,
                            b_y as int,
                        );
                    }
                    if up == '\\' || up == '_' || uprt == '_' || (!is_vertex(grid.get(b_x, b_y))
                        && (is_solid_h_line(uprt) || is_solid_v_line(uprt))) {
                        adj_bx = adj_bx + 10;
                        adj_by = adj_by - 10;
                    } else if is_point(uprt) {
                        adj_bx = adj_bx + 5;
                        adj_by = adj_by - 5;
                    }
                    if bottom_b == '/' && cap_b {
                        adj_bx = adj_bx + 10;
                        adj_by = adj_by - 10;
                    }
                    let dn = grid.get(a_x, a_y + 1);
                    let dnlt = grid.get(a_x - 1, a_y + 1);
                    let lt = grid.get(a_x - 1, a_y);
                    let rt = grid.get(a_x + 1, a_y);
                    let top_a = grid.get(a_x, a_y);
                    let cap_a = is_solid_b_line_at(grid, a_x - 1, a_y);
                    proof {
                        lemma_b_line_at_same_cells(
                            *old(grid),
                            *grid,
                            a_x as int - 1,
                            a_y as int,
                        );
                    }
                    if dn == '\\' || lt == '_' || rt == '_' || (!is_vertex(grid.get(a_x, a_y)) && (
                    is_solid_h_line(dnlt) || is_solid_v_line(dnlt))) {
                        adj_ax = adj_ax - 10;
                        adj_ay = adj_ay + 10;
                    } else if is_point(dnlt) {
                        adj_ax = adj_ax - 5;
                        adj_ay = adj_ay + 5;
                    } else if top_a == '/' && cap_a {
                        adj_ax = adj_ax - 10;
                        adj_ay = adj_ay + 10;
                    }
                    let path = Path::line(
                        Vec2::from_grid_frac(adj_ax, adj_ay),
                        Vec2::from_grid_frac(adj_bx, adj_by),
                    );
                    proof {
                        assert forall|p: int, q: int| old(grid).char_at(p, q)
                            == #[trigger] grid.char_at(p, q) by {}
                        assert(adj_bx - adj_ax == adj_ay - adj_by);
                        assert(adj_bx >= adj_ax);
                        if adj_bx > adj_ax {
                            assert(path.b.x - path.a.x >= 40000 && path.a.y - path.b.y >= 80000)
                                by (nonlinear_arith)
                                requires
                                    path.b.x - path.a.x == (adj_bx - adj_ax) * 40000 && path.a.y
                                        - path.b.y == (adj_ay - adj_by) * 80000 && adj_bx - adj_ax
                                        >= 1 && adj_ay - adj_by >= 1,
                            ;
                            assert(path.spec_diagonal());
                        } else {
                            assert(path.spec_degenerate());
                        }
                        assert(spec_grid_aligned(path));
                    }
                    let ghost prev = paths.paths@;
                    paths.insert(path);
                    proof {
                        lemma_paths_extended_trans(old(paths).paths@, prev, paths.paths@);
                        if forall|p: int, q: int| old(grid).char_at(p, q) != '/' {
                            assert(old(grid).char_at(wx, wy) == '/');
                            assert(false);
                        }
                        assert(paths.paths@ =~= prev + spec_ddiag_result(
                            *old(grid),
                            a_x as int,
                            a_y as int,
                        ));
                    }
                } else {
                    proof {
                        assert(spec_ddiag_result(*old(grid), a_x as int, a_y as int)
                            =~= Seq::<Path>::empty());
                    }
                }
                proof {
                    assert(spec_ddiag(*old(grid), a_x as int, a_y as int) == spec_ddiag_result(
                        *old(grid),
                        a_x as int,
                        a_y as int,
                    ) + spec_ddiag(*old(grid), x as int, y as int));
                    assert(paths.paths@ + spec_ddiag(*old(grid), x as int, y as int) =~= old(
                        paths,
                    ).paths@ + spec_ddiags(*old(grid), i0 + height) + spec_ddiag(
                        *old(grid),
                        i0 as int,
                        height as int - 1,
                    ));
                    assert forall|p: int, q: int|
                        #![trigger grid.used_at(p, q)]
                        grid.in_range(p, q) && p + q == i0 + height - 1 && q > y && old(
                            grid,
                        ).char_at(p, q) == '/' && spec_d_line_at(*old(grid), p, q) implies
                        grid.used_at(p, q) by {
                        if q > ytop {
                            assert(gtop.used_at(p, q));
                        } else {
                            assert(a_x <= p <= b_x);
                            assert(p + q == a_x + a_y);
                            if has_slash {
                                assert(grid.used_at(p, q));
                            } else {
                                assert(old(grid).char_at(p, q) != '/');
                            }
                        }
                    }
                    assert forall|p: int, q: int|
                        #![trigger grid.used_at(p, q)]
                        grid.in_range(p, q) && p + q < i0 + height - 1 && old(grid).char_at(p, q)
                            == '/' && spec_d_line_at(*old(grid), p, q) implies grid.used_at(
                        p,
                        q,
                    ) by {
                        assert(gtop.used_at(p, q));
                    }
                }
            } else {
                proof {
                    if 0 <= x < width {
                        assert(spec_ddiag(*old(grid), x as int, y as int) == spec_ddiag(
                            *old(grid),
                            x as int + 1,
                            y as int - 1,
                        ));
                    } else {
                        assert(spec_ddiag(*old(grid), x as int, y as int) == spec_ddiag(
                            *old(grid),
                            x as int + 1,
                            y as int - 1,
                        ));
                    }
                }
                x = x + 1;
                y = y - 1;
            }
        }
        proof {
            assert(spec_ddiag(*old(grid), x as int, y as int) == Seq::<Path>::empty());
            assert(spec_ddiags(*old(grid), i0 + height + 1) == spec_ddiags(
                *old(grid),
                i0 + height,
            ) + spec_ddiag(*old(grid), i0 as int, height as int - 1));
            assert(paths.paths@ =~= old(paths).paths@ + spec_ddiags(
                *old(grid),
                i0 + height + 1,
            ));
        }
        i0 = i0 + 1;
    }
    proof {
        assert(final (paths).paths@ =~= old(paths).paths@ + spec_ddiags(
            *old(grid),
            old(grid).width + old(grid).height,
        ));
    }
}


/// The control-point pull of a quarter-circle corner: the Bezier circle
/// constant scaled by one cell height, at the output resolution.
pub const CURVE_PULL: i64 = 883064;

/// Does one of the fixed corner shapes sit at `(x, y)`: a top or bottom
/// vertex beside a horizontal stroke with a vertical stroke diagonally
/// past it, or a parenthesis or point bracketed by a period above and a
/// quote below?
pub open spec fn spec_corner_at(g: Grid, x: int, y: int) -> bool {
    let c = g.char_at(x, y);
    (spec_is_top_vertex(c) && ((spec_is_solid_h_line(g.char_at(x - 1, y)) && spec_is_solid_v_line(
        g.char_at(x + 1, y + 1),
    )) || (spec_is_solid_h_line(g.char_at(x + 1, y)) && spec_is_solid_v_line(
        g.char_at(x - 1, y + 1),
    )))) || ((c == ')' || spec_is_point(c)) && g.char_at(x - 1, y - 1) == '.' && g.char_at(
        x - 1,
        y + 1,
    ) == '\'') || ((c == '(' || spec_is_point(c)) && g.char_at(x + 1, y - 1) == '.' && g.char_at(
        x + 1,
        y + 1,
    ) == '\'') || (spec_is_bottom_vertex(c) && ((spec_is_solid_h_line(g.char_at(x - 1, y))
        && spec_is_solid_v_line(g.char_at(x + 1, y - 1))) || (spec_is_solid_h_line(
        g.char_at(x + 1, y),
    ) && spec_is_solid_v_line(g.char_at(x - 1, y - 1)))))
}

/// A top vertex with a horizontal stroke on its left and a vertical
/// stroke below right: the corner curve toward the lower right.
pub open spec fn spec_cnr_tl(g: Grid, x: int, y: int) -> bool {
    spec_is_top_vertex(g.char_at(x, y)) && spec_is_solid_h_line(g.char_at(x - 1, y))
        && spec_is_solid_v_line(g.char_at(x + 1, y + 1))
}

/// A top vertex opening toward the lower left.
pub open spec fn spec_cnr_tr(g: Grid, x: int, y: int) -> bool {
    spec_is_top_vertex(g.char_at(x, y)) && spec_is_solid_h_line(g.char_at(x + 1, y))
        && spec_is_solid_v_line(g.char_at(x - 1, y + 1))
}

/// A closing parenthesis or point bracketed by a period and a quote on
/// its left: the right side of a round box.
pub open spec fn spec_cnr_rr(g: Grid, x: int, y: int) -> bool {
    (g.char_at(x, y) == ')' || spec_is_point(g.char_at(x, y))) && g.char_at(x - 1, y - 1) == '.'
        && g.char_at(x - 1, y + 1) == '\''
}

/// An opening parenthesis or point bracketed on its right: the left side
/// of a round box.
pub open spec fn spec_cnr_rl(g: Grid, x: int, y: int) -> bool {
    (g.char_at(x, y) == '(' || spec_is_point(g.char_at(x, y))) && g.char_at(x + 1, y - 1) == '.'
        && g.char_at(x + 1, y + 1) == '\''
}

/// A bottom vertex closing from the upper right.
pub open spec fn spec_cnr_bl(g: Grid, x: int, y: int) -> bool {
    spec_is_bottom_vertex(g.char_at(x, y)) && spec_is_solid_h_line(g.char_at(x - 1, y))
        && spec_is_solid_v_line(g.char_at(x + 1, y - 1))
}

/// A bottom vertex closing from the upper left.
pub open spec fn spec_cnr_br(g: Grid, x: int, y: int) -> bool {
    spec_is_bottom_vertex(g.char_at(x, y)) && spec_is_solid_h_line(g.char_at(x + 1, y))
        && spec_is_solid_v_line(g.char_at(x - 1, y - 1))
}

/// Is the cell `(p, q)` one of the two or three glyphs some matched corner
/// shape consumes — as a centre vertex, or as the flanking stroke of a
/// pattern centred on a neighbour?
pub open spec fn spec_corner_marks(g: Grid, p: int, q: int) -> bool {
    ||| spec_cnr_tl(g, p, q)
    ||| spec_cnr_tr(g, p, q)
    ||| spec_cnr_rr(g, p, q)
    ||| spec_cnr_rl(g, p, q)
    ||| spec_cnr_bl(g, p, q)
    ||| spec_cnr_br(g, p, q)
    ||| spec_cnr_tl(g, p + 1, q)
    ||| spec_cnr_tl(g, p - 1, q - 1)
    ||| spec_cnr_tr(g, p - 1, q)
    ||| spec_cnr_tr(g, p + 1, q - 1)
    ||| spec_cnr_rr(g, p + 1, q + 1)
    ||| spec_cnr_rr(g, p + 1, q - 1)
    ||| spec_cnr_rl(g, p - 1, q + 1)
    ||| spec_cnr_rl(g, p - 1, q - 1)
    ||| spec_cnr_bl(g, p + 1, q)
    ||| spec_cnr_bl(g, p - 1, q + 1)
    ||| spec_cnr_br(g, p + 1, q + 1)
    ||| spec_cnr_br(g, p - 1, q)
}

/// The scan processes centres in row-major order; is `(cx, cy)` before
/// the cursor `(X, Y)`?
pub open spec fn spec_cell_before(cx: int, cy: int, xx: int, yy: int) -> bool {
    cy < yy || (cy == yy && cx < xx)
}

/// `spec_corner_marks`, restricted to patterns whose centre the scan has
/// already processed.
pub open spec fn spec_corner_marks_upto(g: Grid, p: int, q: int, xx: int, yy: int) -> bool {
    ||| (spec_cnr_tl(g, p, q) && spec_cell_before(p, q, xx, yy))
    ||| (spec_cnr_tr(g, p, q) && spec_cell_before(p, q, xx, yy))
    ||| (spec_cnr_rr(g, p, q) && spec_cell_before(p, q, xx, yy))
    ||| (spec_cnr_rl(g, p, q) && spec_cell_before(p, q, xx, yy))
    ||| (spec_cnr_bl(g, p, q) && spec_cell_before(p, q, xx, yy))
    ||| (spec_cnr_br(g, p, q) && spec_cell_before(p, q, xx, yy))
    ||| (spec_cnr_tl(g, p + 1, q) && spec_cell_before(p + 1, q, xx, yy))
    ||| (spec_cnr_tl(g, p - 1, q - 1) && spec_cell_before(p - 1, q - 1, xx, yy))
    ||| (spec_cnr_tr(g, p - 1, q) && spec_cell_before(p - 1, q, xx, yy))
    ||| (spec_cnr_tr(g, p + 1, q - 1) && spec_cell_before(p + 1, q - 1, xx, yy))
    ||| (spec_cnr_rr(g, p + 1, q + 1) && spec_cell_before(p + 1, q + 1, xx, yy))
    ||| (spec_cnr_rr(g, p + 1, q - 1) && spec_cell_before(p + 1, q - 1, xx, yy))
    ||| (spec_cnr_rl(g, p - 1, q + 1) && spec_cell_before(p - 1, q + 1, xx, yy))
    ||| (spec_cnr_rl(g, p - 1, q - 1) && spec_cell_before(p - 1, q - 1, xx, yy))
    ||| (spec_cnr_bl(g, p + 1, q) && spec_cell_before(p + 1, q, xx, yy))
    ||| (spec_cnr_bl(g, p - 1, q + 1) && spec_cell_before(p - 1, q + 1, xx, yy))
    ||| (spec_cnr_br(g, p + 1, q + 1) && spec_cell_before(p + 1, q + 1, xx, yy))
    ||| (spec_cnr_br(g, p - 1, q) && spec_cell_before(p - 1, q, xx, yy))
}

/// The cubic of a corner opening at a top vertex toward a line below
/// right (`lr` set) or below left, or closing at a bottom vertex toward a
/// line above right or above left.
pub open spec fn spec_corner_curve(x: int, y: int, dx: int, dy: int) -> Path {
    let start = spec_from_grid(x - dx, y);
    let end = spec_from_grid(x + dx, y + dy);
    Path {
        a: start,
        b: end,
        c: Some(Vec2 { x: (start.x + dx * CURVE_PULL) as i64, y: start.y }),
        d: Some(Vec2 { x: end.x, y: (end.y - dy * CURVE_PULL) as i64 }),
        style: PathStyle { dashed: false, double: false, squiggle: false },
    }
}

/// The cubic of a round-box side bracketing `(x, y)`: a half circle from
/// the cell above to the cell below, two columns toward `side`, bowed
/// three-fifths of a cell past the bracket glyph.
pub open spec fn spec_round_curve(x: int, y: int, side: int) -> Path {
    Path {
        a: spec_from_grid(x + 2 * side, y - 1),
        b: spec_from_grid(x + 2 * side, y + 1),
        c: Some(spec_from_grid_frac(20 * x - 12 * side, 20 * (y - 1))),
        d: Some(spec_from_grid_frac(20 * x - 12 * side, 20 * (y + 1))),
        style: PathStyle { dashed: false, double: false, squiggle: false },
    }
}

/// What the corner scan appends at one cell, in the order the patterns
/// are tried.
pub open spec fn spec_corner_cell(g: Grid, x: int, y: int) -> Seq<Path> {
    let c = g.char_at(x, y);
    (if spec_is_top_vertex(c) && spec_is_solid_h_line(g.char_at(x - 1, y)) && spec_is_solid_v_line(
        g.char_at(x + 1, y + 1),
    ) {
        seq![spec_corner_curve(x, y, 1, 1)]
    } else {
        Seq::<Path>::empty()
    }) + (if spec_is_top_vertex(c) && spec_is_solid_h_line(g.char_at(x + 1, y))
        && spec_is_solid_v_line(g.char_at(x - 1, y + 1)) {
        seq![spec_corner_curve(x, y, -1, 1)]
    } else {
        Seq::<Path>::empty()
    }) + (if (c == ')' || spec_is_point(c)) && g.char_at(x - 1, y - 1) == '.' && g.char_at(
        x - 1,
        y + 1,
    ) == '\'' {
        seq![spec_round_curve(x, y, -1)]
    } else {
        Seq::<Path>::empty()
    }) + (if (c == '(' || spec_is_point(c)) && g.char_at(x + 1, y - 1) == '.' && g.char_at(
        x + 1,
        y + 1,
    ) == '\'' {
        seq![spec_round_curve(x, y, 1)]
    } else {
        Seq::<Path>::empty()
    }) + (if spec_is_bottom_vertex(c) && spec_is_solid_h_line(g.char_at(x - 1, y))
        && spec_is_solid_v_line(g.char_at(x + 1, y - 1)) {
        seq![spec_corner_curve(x, y, 1, -1)]
    } else {
        Seq::<Path>::empty()
    }) + (if spec_is_bottom_vertex(c) && spec_is_solid_h_line(g.char_at(x + 1, y))
        && spec_is_solid_v_line(g.char_at(x - 1, y - 1)) {
        seq![spec_corner_curve(x, y, -1, -1)]
    } else {
        Seq::<Path>::empty()
    })
}

/// Everything the corner scan appends, in scan order.
pub open spec fn spec_corner_paths(g: Grid) -> Seq<Path> {
    spec_scan_rows(|p: int, q: int| spec_corner_cell(g, p, q), g.width as int, g.height as int)
}

/// Recognise fixed two- and three-glyph corner shapes — a vertex beside a
/// straight run, or a vertex pair bracketing a parenthesis or point — and
/// emit a cubic curve for each, consuming the matched glyphs.
#[verifier::rlimit(100)]
pub fn find_curved_corners(grid: &mut Grid, paths: &mut PathSet)
    requires
        old(grid).wf(),
        old(paths).wf(),
    ensures
        final (grid).wf(),
        old(grid).same_cells(*final (grid)),
        old(grid).used_leq(*final (grid)),
        final (paths).wf(),
        spec_paths_extended(old(paths).paths@, final (paths).paths@),
        forall|i: int|
            old(paths).paths@.len() <= i < final (paths).paths@.len()
                ==> (#[trigger] final (paths).paths@[i]).spec_curved()
                && spec_grid_aligned(final (paths).paths@[i]),
        forall|p: int, q: int|
            #![trigger final (grid).used_at(p, q)]
            final (grid).in_range(p, q) && spec_corner_at(*old(grid), p, q)
                ==> final (grid).used_at(p, q),
        forall|p: int, q: int|
            #![trigger final (grid).used_at(p, q)]
            final (grid).used_at(p, q) == (old(grid).used_at(p, q) || (final (grid).in_range(p, q)
                && spec_corner_marks(*old(grid), p, q))),
        final (paths).paths@ == old(paths).paths@ + spec_corner_paths(*old(grid)),
{
    let width: i32 = grid.width as i32;
    let height: i32 = grid.height as i32;
    let ghost cf = |p: int, q: int| spec_corner_cell(*old(grid), p, q);
    let mut y: i32 = 0;
    while y < height
        invariant
            grid.wf(),
            old(grid).same_cells(*grid),
            old(grid).used_leq(*grid),
            paths.wf(),
            spec_paths_extended(old(paths).paths@, paths.paths@),
            forall|i: int|
                old(paths).paths@.len() <= i < paths.paths@.len()
                    ==> (#[trigger] paths.paths@[i]).spec_curved()
                    && spec_grid_aligned(paths.paths@[i]),
            forall|p: int, q: int|
                #![trigger grid.used_at(p, q)]
                grid.in_range(p, q) && q < y && spec_corner_at(*old(grid), p, q) ==> grid.used_at(
                    p,
                    q,
                ),
            forall|p: int, q: int|
                #![trigger grid.used_at(p, q)]
                grid.used_at(p, q) == (old(grid).used_at(p, q) || (grid.in_range(p, q)
                    && spec_corner_marks_upto(*old(grid), p, q, 0, y as int))),
            cf == (|p: int, q: int| spec_corner_cell(*old(grid), p, q)),
            paths.paths@ == old(paths).paths@ + spec_scan_rows(cf, width as int, y as int),
            width == grid.width,
            height == grid.height,
            0 <= y <= height,
        decreases height - y,
    {
        let mut x: i32 = 0;
        while x < width
            invariant
                grid.wf(),
                old(grid).same_cells(*grid),
                old(grid).used_leq(*grid),
                paths.wf(),
                spec_paths_extended(old(paths).paths@, paths.paths@),
                forall|i: int|
                    old(paths).paths@.len() <= i < paths.paths@.len()
                        ==> (#[trigger] paths.paths@[i]).spec_curved()
                        && spec_grid_aligned(paths.paths@[i]),
                forall|p: int, q: int|
                    #![trigger grid.used_at(p, q)]
                    grid.in_range(p, q) && (q < y || (q == y && p < x)) && spec_corner_at(
                        *old(grid),
                        p,
                        q,
                    ) ==> grid.used_at(p, q),
                forall|p: int, q: int|
                    #![trigger grid.used_at(p, q)]
                    grid.used_at(p, q) == (old(grid).used_at(p, q) || (grid.in_range(p, q)
                        && spec_corner_marks_upto(*old(grid), p, q, x as int, y as int))),
                cf == (|p: int, q: int| spec_corner_cell(*old(grid), p, q)),
                paths.paths@ == old(paths).paths@ + spec_scan_rows(cf, width as int, y as int)
                    + spec_scan_row(cf, y as int, x as int),
                width == grid.width,
                height == grid.height,
                0 <= y < height,
                0 <= x <= width,
            decreases width - x,
        {
            let c = grid.get(x, y);
            let ghost entry = paths.paths@;
            let ghost gcell = *grid;
            proof {
                assert(old(grid).char_at(x as int, y as int) == gcell.char_at(x as int, y as int));
                assert(old(grid).char_at(x as int - 1, y as int) == gcell.char_at(
                    x as int - 1,
                    y as int,
                ));
                assert(old(grid).char_at(x as int + 1, y as int) == gcell.char_at(
                    x as int + 1,
                    y as int,
                ));
                assert(old(grid).char_at(x as int - 1, y as int - 1) == gcell.char_at(
                    x as int - 1,
                    y as int - 1,
                ));
                assert(old(grid).char_at(x as int + 1, y as int - 1) == gcell.char_at(
                    x as int + 1,
                    y as int - 1,
                ));
                assert(old(grid).char_at(x as int - 1, y as int + 1) == gcell.char_at(
                    x as int - 1,
                    y as int + 1,
                ));
                assert(old(grid).char_at(x as int + 1, y as int + 1) == gcell.char_at(
                    x as int + 1,
                    y as int + 1,
                ));
            }
            if is_top_vertex(c) {
                if is_solid_h_line(grid.get(x - 1, y)) && is_solid_v_line(grid.get(x + 1, y + 1)) {
                    grid.set_used(x - 1, y);
                    grid.set_used(x, y);
                    grid.set_used(x + 1, y + 1);
                    let start = Vec2::from_grid(x - 1, y);
                    let end = Vec2::from_grid(x + 1, y + 1);
                    let ctrl1 = Vec2::new(start.x + CURVE_PULL, start.y);
                    let ctrl2 = Vec2::new(end.x, end.y - CURVE_PULL);
                    let ghost prev = paths.paths@;
                    let curve = Path::curve(start, end, ctrl1, ctrl2);
                    proof {
                        assert(!curve.spec_degenerate());
                        assert(curve == spec_corner_curve(x as int, y as int, 1, 1));
                    }
                    paths.insert(curve);
                    proof {
                        lemma_paths_extended_trans(old(paths).paths@, prev, paths.paths@);
                    }
                }
                if is_solid_h_line(grid.get(x + 1, y)) && is_solid_v_line(grid.get(x - 1, y + 1)) {
                    grid.set_used(x - 1, y + 1);
                    grid.set_used(x, y);
                    grid.set_used(x + 1, y);
                    let start = Vec2::from_grid(x + 1, y);
                    let end = Vec2::from_grid(x - 1, y + 1);
                    let ctrl1 = Vec2::new(start.x - CURVE_PULL, start.y);
                    let ctrl2 = Vec2::new(end.x, end.y - CURVE_PULL);
                    let ghost prev = paths.paths@;
                    let curve = Path::curve(start, end, ctrl1, ctrl2);
                    proof {
                        assert(!curve.spec_degenerate());
                        assert(curve == spec_corner_curve(x as int, y as int, -1, 1));
                    }
                    paths.insert(curve);
                    proof {
                        lemma_paths_extended_trans(old(paths).paths@, prev, paths.paths@);
                    }
                }
            }
            if (c == ')' || is_point(c)) && grid.get(x - 1, y - 1) == '.' && grid.get(x - 1, y + 1)
                == '\'' {
                grid.set_used(x, y);
                grid.set_used(x - 1, y - 1);
                grid.set_used(x - 1, y + 1);
                let start = Vec2::from_grid(x - 2, y - 1);
                let end = Vec2::from_grid(x - 2, y + 1);
                let ctrl1 = Vec2::from_grid_frac(x as i64 * 20 + 12, y as i64 * 20 - 20);
                let ctrl2 = Vec2::from_grid_frac(x as i64 * 20 + 12, y as i64 * 20 + 20);
                let ghost prev = paths.paths@;
                let curve = Path::curve(start, end, ctrl1, ctrl2);
                proof {
                    assert(!curve.spec_degenerate());
                    assert(curve == spec_round_curve(x as int, y as int, -1));
                }
                paths.insert(curve);
                proof {
                    lemma_paths_extended_trans(old(paths).paths@, prev, paths.paths@);
                }
            }
            if (c == '(' || is_point(c)) && grid.get(x + 1, y - 1) == '.' && grid.get(x + 1, y + 1)
                == '\'' {
                grid.set_used(x, y);
                grid.set_used(x + 1, y - 1);
                grid.set_used(x + 1, y + 1);
                let start = Vec2::from_grid(x + 2, y - 1);
                let end = Vec2::from_grid(x + 2, y + 1);
                let ctrl1 = Vec2::from_grid_frac(x as i64 * 20 - 12, y as i64 * 20 - 20);
                let ctrl2 = Vec2::from_grid_frac(x as i64 * 20 - 12, y as i64 * 20 + 20);
                let ghost prev = paths.paths@;
                let curve = Path::curve(start, end, ctrl1, ctrl2);
                proof {
                    assert(!curve.spec_degenerate());
                    assert(curve == spec_round_curve(x as int, y as int, 1));
                }
                paths.insert(curve);
                proof {
                    lemma_paths_extended_trans(old(paths).paths@, prev, paths.paths@);
                }
            }
            if is_bottom_vertex(c) {
                if is_solid_h_line(grid.get(x - 1, y)) && is_solid_v_line(grid.get(x + 1, y - 1)) {
                    grid.set_used(x - 1, y);
                    grid.set_used(x, y);
                    grid.set_used(x + 1, y - 1);
                    let start = Vec2::from_grid(x - 1, y);
                    let end = Vec2::from_grid(x + 1, y - 1);
                    let ctrl1 = Vec2::new(start.x + CURVE_PULL, start.y);
                    let ctrl2 = Vec2::new(end.x, end.y + CURVE_PULL);
                    let ghost prev = paths.paths@;
                    let curve = Path::curve(start, end, ctrl1, ctrl2);
                    proof {
                        assert(!curve.spec_degenerate());
                        assert(curve == spec_corner_curve(x as int, y as int, 1, -1));
                    }
                    paths.insert(curve);
                    proof {
                        lemma_paths_extended_trans(old(paths).paths@, prev, paths.paths@);
                    }
                }
                if is_solid_h_line(grid.get(x + 1, y)) && is_solid_v_line(grid.get(x - 1, y - 1)) {
                    grid.set_used(x - 1, y - 1);
                    grid.set_used(x, y);
                    grid.set_used(x + 1, y);
                    let start = Vec2::from_grid(x + 1, y);
                    let end = Vec2::from_grid(x - 1, y - 1);
                    let ctrl1 = Vec2::new(start.x - CURVE_PULL, start.y);
                    let ctrl2 = Vec2::new(end.x, end.y + CURVE_PULL);
                    let ghost prev = paths.paths@;
                    let curve = Path::curve(start, end, ctrl1, ctrl2);
                    proof {
                        assert(!curve.spec_degenerate());
                        assert(curve == spec_corner_curve(x as int, y as int, -1, -1));
                    }
                    paths.insert(curve);
                    proof {
                        lemma_paths_extended_trans(old(paths).paths@, prev, paths.paths@);
                    }
                }
            }
            proof {
                lemma_paths_extended_trans(old(paths).paths@, entry, paths.paths@);
                assert(cf(x as int, y as int) == spec_corner_cell(*old(grid), x as int, y as int));
                assert(paths.paths@ =~= entry + spec_corner_cell(*old(grid), x as int, y as int));
                assert(spec_scan_row(cf, y as int, x as int + 1) == spec_scan_row(
                    cf,
                    y as int,
                    x as int,
                ) + cf(x as int, y as int));
                assert(paths.paths@ =~= old(paths).paths@ + spec_scan_rows(
                    cf,
                    width as int,
                    y as int,
                ) + spec_scan_row(cf, y as int, x as int + 1));
                assert forall|p: int, q: int|
                    #![trigger grid.used_at(p, q)]
                    grid.in_range(p, q) && (q < y || (q == y && p < x + 1)) && spec_corner_at(
                        *old(grid),
                        p,
                        q,
                    ) implies grid.used_at(p, q) by {
                    if p == x as int && q == y as int {
                        assert(grid.char_at(p, q) == old(grid).char_at(p, q));
                        assert(grid.char_at(p - 1, q) == old(grid).char_at(p - 1, q));
                        assert(grid.char_at(p + 1, q) == old(grid).char_at(p + 1, q));
                        assert(grid.char_at(p - 1, q - 1) == old(grid).char_at(p - 1, q - 1));
                        assert(grid.char_at(p + 1, q - 1) == old(grid).char_at(p + 1, q - 1));
                        assert(grid.char_at(p - 1, q + 1) == old(grid).char_at(p - 1, q + 1));
                        assert(grid.char_at(p + 1, q + 1) == old(grid).char_at(p + 1, q + 1));
                    } else {
                        assert(gcell.used_at(p, q));
                    }
                }
                assert forall|p: int, q: int|
                    #![trigger grid.used_at(p, q)]
                    grid.used_at(p, q) == (old(grid).used_at(p, q) || (grid.in_range(p, q)
                        && spec_corner_marks_upto(
                        *old(grid),
                        p,
                        q,
                        x as int + 1,
                        y as int,
                    ))) by {
                    if p < x - 1 || p > x + 1 || q < y - 1 || q > y + 1 {
                        assert(grid.used_at(p, q) == gcell.used_at(p, q));
                    }
                }
            }
            x = x + 1;
        }
        proof {
            assert(spec_scan_rows(cf, width as int, y as int + 1) == spec_scan_rows(
                cf,
                width as int,
                y as int,
            ) + spec_scan_row(cf, y as int, width as int));
            assert(paths.paths@ =~= old(paths).paths@ + spec_scan_rows(
                cf,
                width as int,
                y as int + 1,
            ));
        }
        y = y + 1;
    }
    proof {
        assert(final (paths).paths@ =~= old(paths).paths@ + spec_corner_paths(*old(grid)));
    }
}

/// Does a run of underscores open at `(x, y)`: two in a row, not flanked
/// by letters on exactly one side (which would make it identifier text)?
pub open spec fn spec_underscore_run_at(g: Grid, x: int, y: int) -> bool {
    g.char_at(x, y) == '_' && g.char_at(x + 1, y) == '_' && (!spec_is_ascii_letter(
        g.char_at(x + 2, y),
    ) || g.char_at(x - 1, y) == '_') && (!spec_is_ascii_letter(g.char_at(x - 1, y)) || g.char_at(
        x + 2,
        y,
    ) == '_')
}

/// The first column at or after `x` that is not an underscore in row `y`
/// (or the right edge).
pub open spec fn spec_u_stop(g: Grid, x: int, y: int) -> int
    decreases g.width - x,
{
    if x >= g.width || g.char_at(x, y) != '_' {
        x
    } else {
        spec_u_stop(g, x + 1, y)
    }
}

/// The stop of an underscore run lies between its start and the right
/// edge, strictly past the start when the start is an underscore.
pub proof fn lemma_u_stop_bounds(g: Grid, x: int, y: int)
    requires
        x <= g.width,
    ensures
        x <= spec_u_stop(g, x, y) <= g.width,
        g.char_at(x, y) == '_' && x < g.width ==> spec_u_stop(g, x, y) > x,
    decreases g.width - x,
{
    if !(x >= g.width || g.char_at(x, y) != '_') {
        lemma_u_stop_bounds(g, x + 1, y);
    }
}

/// The stop is the first non-underscore column.
pub proof fn lemma_u_stop_val(g: Grid, s: int, x: int, y: int)
    requires
        s <= x,
        forall|p: int| #![trigger g.char_at(p, y)] s <= p < x ==> g.char_at(p, y) == '_',
        x >= g.width || g.char_at(x, y) != '_',
    ensures
        spec_u_stop(g, s, y) == x,
    decreases x - s,
{
    if s < x {
        assert(g.char_at(s, y) == '_');
        if s >= g.width {
            assert(g.char_at(s, y) == ' ');
        }
        lemma_u_stop_val(g, s + 1, x, y);
    }
}

/// The low segment one consumed underscore run stores: anchored half a
/// cell below the row, with the boundary extensions the neighbouring
/// glyphs ask for — or nothing, when the stretched ends coincide.
pub open spec fn spec_under_result(g: Grid, x0: int, y: int) -> Seq<Path> {
    let stop = spec_u_stop(g, x0, y);
    let lt = g.char_at(x0 - 1, y);
    let ltlt = g.char_at(x0 - 2, y);
    let a0 = if lt == '|' || g.char_at(x0 - 1, y + 1) == '|' || lt == '.' || g.char_at(
        x0 - 1,
        y + 1,
    ) == '\'' {
        if lt == '.' && (ltlt == '-' || ltlt == '.') && g.char_at(x0 - 2, y + 1) == '(' {
            20 * x0 - 30
        } else {
            20 * x0 - 20
        }
    } else if lt == '/' {
        20 * x0 - 30
    } else {
        20 * x0 - 10
    };
    let a = if lt == '(' && ltlt == '(' && g.char_at(x0, y + 1) == '\'' && g.char_at(x0, y - 1)
        == '.' {
        a0 + 10
    } else {
        a0
    };
    let rt = g.char_at(stop, y);
    let rt1 = g.char_at(stop + 1, y);
    let dn = g.char_at(stop, y + 1);
    let b0 = if rt == '|' || dn == '|' || rt == '.' || dn == '\'' {
        if rt == '.' && (rt1 == '-' || rt1 == '.') && g.char_at(stop + 1, y + 1) == ')' {
            20 * stop + 10
        } else {
            20 * stop
        }
    } else if rt == '\\' {
        20 * stop + 10
    } else {
        20 * stop - 10
    };
    let b = if rt == ')' && rt1 == ')' && g.char_at(stop - 1, y + 1) == '\'' && g.char_at(
        stop - 1,
        y - 1,
    ) == '.' {
        b0 - 10
    } else {
        b0
    };
    if a != b {
        seq![
            Path {
                a: spec_from_grid_frac(a, 20 * y + 10),
                b: spec_from_grid_frac(b, 20 * y + 10),
                c: None,
                d: None,
                style: PathStyle { dashed: false, double: false, squiggle: false },
            },
        ]
    } else {
        Seq::<Path>::empty()
    }
}

/// Is column `p` of row `y` consumed by some underscore run the scan
/// opens at or after column `x`?
pub open spec fn spec_under_marks_from(g: Grid, y: int, x: int, p: int) -> bool
    decreases g.width - x
        via spec_under_marks_from_decreases
{
    if x < 0 || x >= g.width - 2 {
        false
    } else if spec_underscore_run_at(g, x, y) {
        (x <= p < spec_u_stop(g, x, y)) || spec_under_marks_from(g, y, spec_u_stop(g, x, y), p)
    } else {
        spec_under_marks_from(g, y, x + 1, p)
    }
}

#[via_fn]
proof fn spec_under_marks_from_decreases(g: Grid, y: int, x: int, p: int) {
    if 0 <= x < g.width - 2 {
        lemma_u_stop_bounds(g, x, y);
    }
}

/// Is column `p` of row `y` consumed by some underscore run of that row?
pub open spec fn spec_under_marks(g: Grid, y: int, p: int) -> bool {
    spec_under_marks_from(g, y, 0, p)
}

/// Everything the underscore scan stores while walking one row from
/// column `x` right: each qualifying pair opens a run, the run is consumed
/// to its last underscore, and its low segment is stored.
pub open spec fn spec_under_row(g: Grid, y: int, x: int) -> Seq<Path>
    decreases g.width - x
        via spec_under_row_decreases
{
    if x < 0 || x >= g.width - 2 {
        Seq::<Path>::empty()
    } else if spec_underscore_run_at(g, x, y) {
        spec_under_result(g, x, y) + spec_under_row(g, y, spec_u_stop(g, x, y))
    } else {
        spec_under_row(g, y, x + 1)
    }
}

#[via_fn]
proof fn spec_under_row_decreases(g: Grid, y: int, x: int) {
    if 0 <= x < g.width - 2 {
        lemma_u_stop_bounds(g, x, y);
    }
}

/// Everything the underscore scan stores over the first `y` rows, in scan
/// order.
pub open spec fn spec_under_rows(g: Grid, y: int) -> Seq<Path>
    decreases y,
{
    if y <= 0 {
        Seq::<Path>::empty()
    } else {
        spec_under_rows(g, y - 1) + spec_under_row(g, y - 1, 0)
    }
}

/// Merge runs of two or more underscores into one low horizontal line at
/// the bottom of the cell row; a lone underscore beside a letter is left
/// alone, so identifier underscores never become lines.  Boundary glyphs
/// extend the run, with corrections where it would overrun a tight double
/// curve.
#[verifier::rlimit(100)]
pub fn find_underscore_lines(grid: &mut Grid, paths: &mut PathSet)
    requires
        old(grid).wf(),
        old(paths).wf(),
    ensures
        final (grid).wf(),
        old(grid).same_cells(*final (grid)),
        old(grid).used_leq(*final (grid)),
        final (paths).wf(),
        spec_paths_extended(old(paths).paths@, final (paths).paths@),
        forall|i: int|
            old(paths).paths@.len() <= i < final (paths).paths@.len()
                ==> (#[trigger] final (paths).paths@[i]).spec_horizontal()
                && spec_grid_aligned(final (paths).paths@[i]),
        forall|p: int, q: int|
            #![trigger final (grid).used_at(p, q)]
            final (grid).in_range(p, q) && p < final (grid).width - 2 && spec_underscore_run_at(
                *old(grid),
                p,
                q,
            ) ==> final (grid).used_at(p, q),
        forall|p: int, q: int|
            #![trigger final (grid).used_at(p, q)]
            final (grid).used_at(p, q) == (old(grid).used_at(p, q) || (final (grid).in_range(p, q)
                && spec_under_marks(*old(grid), q, p))),
        final (paths).paths@ == old(paths).paths@ + spec_under_rows(
            *old(grid),
            old(grid).height as int,
        ),
{
    let width: i32 = grid.width as i32;
    let height: i32 = grid.height as i32;
    let mut y: i32 = 0;
    while y < height
        invariant
            grid.wf(),
            old(grid).same_cells(*grid),
            old(grid).used_leq(*grid),
            paths.wf(),
            spec_paths_extended(old(paths).paths@, paths.paths@),
            forall|i: int|
                old(paths).paths@.len() <= i < paths.paths@.len()
                    ==> (#[trigger] paths.paths@[i]).spec_horizontal()
                    && spec_grid_aligned(paths.paths@[i]),
            forall|p: int, q: int|
                #![trigger grid.used_at(p, q)]
                grid.in_range(p, q) && p < grid.width - 2 && q < y && spec_underscore_run_at(
                    *old(grid),
                    p,
                    q,
                ) ==> grid.used_at(p, q),
            forall|p: int, q: int|
                #![trigger grid.used_at(p, q)]
                grid.used_at(p, q) == (old(grid).used_at(p, q) || (grid.in_range(p, q) && q < y
                    && spec_under_marks(*old(grid), q, p))),
            paths.paths@ == old(paths).paths@ + spec_under_rows(*old(grid), y as int),
            width == grid.width,
            height == grid.height,
            0 <= y <= height,
        decreases height - y,
    {
        let mut x: i32 = 0;
        let ghost mut marked: Set<int> = Set::empty();
        while x < width - 2
            invariant
                grid.wf(),
                old(grid).same_cells(*grid),
                old(grid).used_leq(*grid),
                paths.wf(),
                spec_paths_extended(old(paths).paths@, paths.paths@),
                forall|i: int|
                    old(paths).paths@.len() <= i < paths.paths@.len()
                        ==> (#[trigger] paths.paths@[i]).spec_horizontal()
                        && spec_grid_aligned(paths.paths@[i]),
                forall|p: int, q: int|
                    #![trigger grid.used_at(p, q)]
                    grid.in_range(p, q) && p < grid.width - 2 && (q < y || (q == y && p < x))
                        && spec_underscore_run_at(*old(grid), p, q) ==> grid.used_at(p, q),
                forall|p: int|
                    #![trigger spec_under_marks_from(*old(grid), y as int, 0, p)]
                    spec_under_marks_from(*old(grid), y as int, 0, p) == (marked.contains(p)
                        || spec_under_marks_from(*old(grid), y as int, x as int, p)),
                forall|p: int, q: int|
                    #![trigger grid.used_at(p, q)]
                    grid.used_at(p, q) == (old(grid).used_at(p, q) || (grid.in_range(p, q) && ((q
                        < y && spec_under_marks(*old(grid), q, p)) || (q == y && marked.contains(
                        p,
                    ))))),
                forall|p: int| marked.contains(p) ==> 0 <= p < grid.width,
                paths.paths@ + spec_under_row(*old(grid), y as int, x as int) == old(paths).paths@
                    + spec_under_rows(*old(grid), y as int) + spec_under_row(
                    *old(grid),
                    y as int,
                    0,
                ),
                width == grid.width,
                height == grid.height,
                0 <= y < height,
                0 <= x <= width,
            decreases width - x,
    {
            let lt = grid.get(x - 1, y);
            let c = grid.get(x, y);
            let c1 = grid.get(x + 1, y);
            let c2 = grid.get(x + 2, y);
            proof {
                assert forall|p: int, q: int| old(grid).char_at(p, q) == #[trigger] grid.char_at(
                    p,
                    q,
                ) by {}
            }
            if c == '_' && c1 == '_' && (!is_ascii_letter(c2) || lt == '_') && (!is_ascii_letter(lt)
                || c2 == '_') {
                let ltlt = grid.get(x - 2, y);
                let mut a: i64 = x as i64 * 20 - 10;
                if lt == '|' || grid.get(x - 1, y + 1) == '|' || lt == '.' || grid.get(x - 1, y + 1)
                    == '\'' {
                    a = a - 10;
                    if lt == '.' && (ltlt == '-' || ltlt == '.') && grid.get(x - 2, y + 1) == '(' {
                        a = a - 10;
                    }
                } else if lt == '/' {
                    a = a - 20;
                }
                if lt == '(' && ltlt == '(' && grid.get(x, y + 1) == '\'' && grid.get(x, y - 1)
                    == '.' {
                    a = a + 10;
                }
                let ghost x0 = x as int;
                let ghost gpre = *grid;
                grid.set_used(x, y);
                x = x + 1;
                while x < width && grid.get(x, y) == '_'
                    invariant
                        grid.wf(),
                        old(grid).same_cells(*grid),
                        old(grid).used_leq(*grid),
                        gpre.used_leq(*grid),
                        gpre.same_cells(*grid),
                        width == grid.width,
                        height == grid.height,
                        0 <= y < height,
                        0 <= x0 < x <= width,
                        forall|p: int|
                            #![trigger old(grid).char_at(p, y as int)]
                            x0 <= p < x ==> old(grid).char_at(p, y as int) == '_',
                        forall|p: int| x0 <= p < x ==> grid.used_at(p, y as int),
                        forall|p: int, q: int|
                            #![trigger grid.used_at(p, q)]
                            grid.used_at(p, q) == (gpre.used_at(p, q) || (q == y && x0 <= p < x)),
                    decreases width - x,
                {
                    proof {
                        assert(old(grid).char_at(x as int, y as int) == grid.char_at(
                            x as int,
                            y as int,
                        ));
                    }
                    grid.set_used(x, y);
                    x = x + 1;
                }
                proof {
                    assert(old(grid).char_at(x as int, y as int) == grid.char_at(
                        x as int,
                        y as int,
                    ));
                    lemma_u_stop_val(*old(grid), x0, x as int, y as int);
                    let ghost prior = marked;
                    marked = marked.union(Set::new(|p: int| x0 <= p < x));
                    assert(spec_under_marks_from(*old(grid), y as int, x0, 0) == spec_under_marks_from(
                        *old(grid),
                        y as int,
                        x0,
                        0,
                    ));
                    assert forall|p: int|
                        #![trigger spec_under_marks_from(*old(grid), y as int, 0, p)]
                        spec_under_marks_from(*old(grid), y as int, 0, p) == (marked.contains(p)
                            || spec_under_marks_from(*old(grid), y as int, x as int, p)) by {
                        assert(spec_under_marks_from(*old(grid), y as int, x0, p) == ((x0 <= p
                            < x) || spec_under_marks_from(*old(grid), y as int, x as int, p)));
                        assert(marked.contains(p) == (prior.contains(p) || (x0 <= p < x)));
                    }
                    assert forall|p: int, q: int|
                        #![trigger grid.used_at(p, q)]
                        grid.used_at(p, q) == (old(grid).used_at(p, q) || (grid.in_range(p, q) && (
                        (q < y && spec_under_marks(*old(grid), q, p)) || (q == y
                            && marked.contains(p))))) by {
                        assert(grid.used_at(p, q) == (gpre.used_at(p, q) || (q == y && x0 <= p
                            < x)));
                        assert(marked.contains(p) == (prior.contains(p) || (x0 <= p < x)));
                    }
                }
                let mut b: i64 = x as i64 * 20 - 10;
                let rt = grid.get(x, y);
                let rt1 = grid.get(x + 1, y);
                let dn = grid.get(x, y + 1);
                if rt == '|' || dn == '|' || rt == '.' || dn == '\'' {
                    b = b + 10;
                    if rt == '.' && (rt1 == '-' || rt1 == '.') && grid.get(x + 1, y + 1) == ')' {
                        b = b + 10;
                    }
                } else if rt == '\\' {
                    b = b + 20;
                }
                if rt == ')' && rt1 == ')' && grid.get(x - 1, y + 1) == '\'' && grid.get(x - 1, y - 1)
                    == '.' {
                    b = b - 10;
                }
                let gy: i64 = y as i64 * 20 + 10;
                let path = Path::line(
                    Vec2::from_grid_frac(a, gy),
                    Vec2::from_grid_frac(b, gy),
                );
                proof {
                    assert forall|p: int, q: int| old(grid).char_at(p, q)
                        == #[trigger] grid.char_at(p, q) by {}
                    assert(path.spec_horizontal());
                    assert(spec_grid_aligned(path)) by {
                        let dx = path.b.x - path.a.x;
                        assert(dx == (b - a) * 40000);
                        if b > a {
                            assert(dx >= 40000) by (nonlinear_arith)
                                requires
                                    dx == (b - a) * 40000 && b - a >= 1,
                            ;
                        } else if b < a {
                            assert(dx <= -40000) by (nonlinear_arith)
                                requires
                                    dx == (b - a) * 40000 && b - a <= -1,
                            ;
                        }
                    }
                    if a != b {
                        assert(!path.spec_degenerate());
                    }
                }
                let ghost prev = paths.paths@;
                paths.insert(path);
                proof {
                    lemma_paths_extended_trans(old(paths).paths@, prev, paths.paths@);
                    assert(paths.paths@ =~= prev + spec_under_result(*old(grid), x0, y as int));
                    assert(spec_under_row(*old(grid), y as int, x0) == spec_under_result(
                        *old(grid),
                        x0,
                        y as int,
                    ) + spec_under_row(*old(grid), y as int, x as int));
                    assert(paths.paths@ + spec_under_row(*old(grid), y as int, x as int) =~= old(
                        paths,
                    ).paths@ + spec_under_rows(*old(grid), y as int) + spec_under_row(
                        *old(grid),
                        y as int,
                        0,
                    ));
                    assert forall|p: int, q: int|
                        #![trigger grid.used_at(p, q)]
                        grid.in_range(p, q) && p < grid.width - 2 && (q < y || (q == y && p < x))
                            && spec_underscore_run_at(*old(grid), p, q) implies grid.used_at(
                        p,
                        q,
                    ) by {
                        if q == y as int && x0 <= p < x {
                        } else {
                            assert(gpre.used_at(p, q));
                        }
                    }
                }
            } else {
                proof {
                    assert(spec_under_row(*old(grid), y as int, x as int) == spec_under_row(
                        *old(grid),
                        y as int,
                        x as int + 1,
                    ));
                    assert forall|p: int|
                        #![trigger spec_under_marks_from(*old(grid), y as int, 0, p)]
                        spec_under_marks_from(*old(grid), y as int, 0, p) == (marked.contains(p)
                            || spec_under_marks_from(*old(grid), y as int, x as int + 1, p)) by {
                        assert(spec_under_marks_from(*old(grid), y as int, x as int, p)
                            == spec_under_marks_from(*old(grid), y as int, x as int + 1, p));
                    }
                }
                x = x + 1;
            }
        }
        proof {
            assert(spec_under_row(*old(grid), y as int, x as int) == Seq::<Path>::empty());
            assert forall|p: int, q: int|
                #![trigger grid.used_at(p, q)]
                grid.used_at(p, q) == (old(grid).used_at(p, q) || (grid.in_range(p, q) && q < y + 1
                    && spec_under_marks(*old(grid), q, p))) by {
                assert(spec_under_marks_from(*old(grid), y as int, x as int, p) == false);
                assert(spec_under_marks_from(*old(grid), y as int, 0, p) == marked.contains(p));
            }
            assert(spec_under_rows(*old(grid), y as int + 1) == spec_under_rows(
                *old(grid),
                y as int,
            ) + spec_under_row(*old(grid), y as int, 0));
            assert(paths.paths@ =~= old(paths).paths@ + spec_under_rows(
                *old(grid),
                y as int + 1,
            ));
        }
        y = y + 1;
    }
    proof {
        assert(final (paths).paths@ =~= old(paths).paths@ + spec_under_rows(
            *old(grid),
            old(grid).height as int,
        ));
    }
}


/// The corner and underscore patterns read glyphs only, so grids with the
/// same cells agree on them.
pub proof fn lemma_patterns_same_cells(a: Grid, b: Grid, x: int, y: int)
    requires
        a.same_cells(b),
    ensures
        spec_corner_at(a, x, y) == spec_corner_at(b, x, y),
        spec_underscore_run_at(a, x, y) == spec_underscore_run_at(b, x, y),
{
    assert forall|p: int, q: int| a.char_at(p, q) == #[trigger] b.char_at(p, q) by {}
}

/// The whole-pass results read glyphs only (and, for the vertical scan,
/// the used-mask it started with), so grids with the same cells agree on
/// them.
pub proof fn lemma_hrow_same_cells(a: Grid, b: Grid, y: int, x: int)
    requires
        a.same_cells(b),
    ensures
        spec_hrow(a, y, x) == spec_hrow(b, y, x),
    decreases a.width - x,
{
    lemma_h_line_at_same_cells(a, b, x, y, HLineType::Solid);
    lemma_h_line_at_same_cells(a, b, x, y, HLineType::Squiggle);
    lemma_h_line_at_same_cells(a, b, x, y, HLineType::Double);
    if 0 <= x < a.width {
        if spec_h_line_at(a, x, y, HLineType::Solid) {
            lemma_hline_result_same_cells(a, b, x, y, HLineType::Solid);
            lemma_h_stop_same_cells(a, b, x + 1, y, HLineType::Solid);
            lemma_h_stop_bounds(a, x + 1, y, HLineType::Solid);
            lemma_hrow_same_cells(a, b, y, spec_h_stop(a, x + 1, y, HLineType::Solid));
        } else if spec_h_line_at(a, x, y, HLineType::Squiggle) {
            lemma_hline_result_same_cells(a, b, x, y, HLineType::Squiggle);
            lemma_h_stop_same_cells(a, b, x + 1, y, HLineType::Squiggle);
            lemma_h_stop_bounds(a, x + 1, y, HLineType::Squiggle);
            lemma_hrow_same_cells(a, b, y, spec_h_stop(a, x + 1, y, HLineType::Squiggle));
        } else if spec_h_line_at(a, x, y, HLineType::Double) {
            lemma_hline_result_same_cells(a, b, x, y, HLineType::Double);
            lemma_h_stop_same_cells(a, b, x + 1, y, HLineType::Double);
            lemma_h_stop_bounds(a, x + 1, y, HLineType::Double);
            lemma_hrow_same_cells(a, b, y, spec_h_stop(a, x + 1, y, HLineType::Double));
        } else {
            lemma_hrow_same_cells(a, b, y, x + 1);
        }
    }
}

/// See `lemma_hrow_same_cells`.
pub proof fn lemma_hrows_same_cells(a: Grid, b: Grid, y: int)
    requires
        a.same_cells(b),
    ensures
        spec_hrows(a, y) == spec_hrows(b, y),
    decreases y,
{
    if y > 0 {
        lemma_hrows_same_cells(a, b, y - 1);
        lemma_hrow_same_cells(a, b, y - 1, 0);
    }
}

/// See `lemma_hrow_same_cells`.
pub proof fn lemma_bdiag_result_same_cells(a: Grid, b: Grid, x: int, y: int)
    requires
        a.same_cells(b),
    ensures
        spec_bdiag_result(a, x, y) == spec_bdiag_result(b, x, y),
{
    assert forall|p: int, q: int| a.char_at(p, q) == #[trigger] b.char_at(p, q) by {}
    lemma_b_stop_same_cells(a, b, x + 1, y + 1);
    let stop = spec_b_stop(a, x + 1, y + 1);
    let ex = stop - 1;
    let ey = y + (ex - x);
    assert(spec_b_has(a, x, y, ex) == spec_b_has(b, x, y, ex)) by {
        if spec_b_has(a, x, y, ex) {
            let (p, q) = choose|p: int, q: int|
                x <= p <= ex && p - q == x - y && #[trigger] a.char_at(p, q) == '\\';
            assert(b.char_at(p, q) == '\\');
        }
        if spec_b_has(b, x, y, ex) {
            let (p, q) = choose|p: int, q: int|
                x <= p <= ex && p - q == x - y && #[trigger] b.char_at(p, q) == '\\';
            assert(a.char_at(p, q) == '\\');
        }
    }
    lemma_d_line_at_same_cells(a, b, x - 1, y);
    lemma_d_line_at_same_cells(a, b, ex + 1, ey);
    lemma_v_line_at_same_cells(a, b, x, y, false);
}

/// See `lemma_hrow_same_cells`.
pub proof fn lemma_b_stop_same_cells(a: Grid, b: Grid, x: int, y: int)
    requires
        a.same_cells(b),
    ensures
        spec_b_stop(a, x, y) == spec_b_stop(b, x, y),
    decreases a.width - x,
{
    lemma_b_line_at_same_cells(a, b, x, y);
    if !(x >= a.width || y >= a.height || !spec_b_line_at(a, x, y)) {
        lemma_b_stop_same_cells(a, b, x + 1, y + 1);
    }
}

/// See `lemma_hrow_same_cells`.
pub proof fn lemma_bdiag_same_cells(a: Grid, b: Grid, x: int, y: int)
    requires
        a.same_cells(b),
    ensures
        spec_bdiag(a, x, y) == spec_bdiag(b, x, y),
    decreases a.width - x,
{
    lemma_b_line_at_same_cells(a, b, x, y);
    if !(x < 0 || y < 0 || x >= a.width || y >= a.height) {
        if spec_b_line_at(a, x, y) {
            lemma_bdiag_result_same_cells(a, b, x, y);
            lemma_b_stop_same_cells(a, b, x + 1, y + 1);
            lemma_b_stop_bounds(a, x + 1, y + 1);
            lemma_bdiag_same_cells(
                a,
                b,
                spec_b_stop(a, x + 1, y + 1),
                y + (spec_b_stop(a, x + 1, y + 1) - x),
            );
        } else {
            lemma_bdiag_same_cells(a, b, x + 1, y + 1);
        }
    }
}

/// See `lemma_hrow_same_cells`.
pub proof fn lemma_bdiags_same_cells(a: Grid, b: Grid, n: int)
    requires
        a.same_cells(b),
    ensures
        spec_bdiags(a, n) == spec_bdiags(b, n),
    decreases n,
{
    if n > 0 {
        lemma_bdiags_same_cells(a, b, n - 1);
        if n - 1 < a.width {
            lemma_bdiag_same_cells(a, b, n - 1, 0);
        } else {
            lemma_bdiag_same_cells(a, b, 0, n - a.width);
        }
    }
}

/// See `lemma_hrow_same_cells`.
pub proof fn lemma_d_stop_same_cells(a: Grid, b: Grid, x: int, y: int)
    requires
        a.same_cells(b),
    ensures
        spec_d_stop(a, x, y) == spec_d_stop(b, x, y),
    decreases a.width - x,
{
    lemma_d_line_at_same_cells(a, b, x, y);
    if !(x >= a.width || y < 0 || !spec_d_line_at(a, x, y)) {
        lemma_d_stop_same_cells(a, b, x + 1, y - 1);
    }
}

/// See `lemma_hrow_same_cells`.
pub proof fn lemma_ddiag_result_same_cells(a: Grid, b: Grid, x: int, y: int)
    requires
        a.same_cells(b),
    ensures
        spec_ddiag_result(a, x, y) == spec_ddiag_result(b, x, y),
{
    assert forall|p: int, q: int| a.char_at(p, q) == #[trigger] b.char_at(p, q) by {}
    lemma_d_stop_same_cells(a, b, x + 1, y - 1);
    let stop = spec_d_stop(a, x + 1, y - 1);
    let ex = stop - 1;
    let ey = y - (ex - x);
    assert(spec_d_has(a, x, y, ex) == spec_d_has(b, x, y, ex)) by {
        if spec_d_has(a, x, y, ex) {
            let (p, q) = choose|p: int, q: int|
                x <= p <= ex && p + q == x + y && #[trigger] a.char_at(p, q) == '/';
            assert(b.char_at(p, q) == '/');
        }
        if spec_d_has(b, x, y, ex) {
            let (p, q) = choose|p: int, q: int|
                x <= p <= ex && p + q == x + y && #[trigger] b.char_at(p, q) == '/';
            assert(a.char_at(p, q) == '/');
        }
    }
    lemma_b_line_at_same_cells(a, b, ex + 1, ey);
    lemma_b_line_at_same_cells(a, b, x - 1, y);
}

/// See `lemma_hrow_same_cells`.
pub proof fn lemma_ddiag_same_cells(a: Grid, b: Grid, x: int, y: int)
    requires
        a.same_cells(b),
    ensures
        spec_ddiag(a, x, y) == spec_ddiag(b, x, y),
    decreases y + 1,
{
    lemma_d_line_at_same_cells(a, b, x, y);
    if y >= 0 {
        if 0 <= x < a.width && y < a.height && spec_d_line_at(a, x, y) {
            lemma_ddiag_result_same_cells(a, b, x, y);
            lemma_d_stop_same_cells(a, b, x + 1, y - 1);
            lemma_d_stop_bounds(a, x + 1, y - 1);
            lemma_ddiag_same_cells(
                a,
                b,
                spec_d_stop(a, x + 1, y - 1),
                y - (spec_d_stop(a, x + 1, y - 1) - x),
            );
        } else {
            lemma_ddiag_same_cells(a, b, x + 1, y - 1);
        }
    }
}

/// See `lemma_hrow_same_cells`.
pub proof fn lemma_ddiags_same_cells(a: Grid, b: Grid, n: int)
    requires
        a.same_cells(b),
    ensures
        spec_ddiags(a, n) == spec_ddiags(b, n),
    decreases n,
{
    if n > 0 {
        lemma_ddiags_same_cells(a, b, n - 1);
        lemma_ddiag_same_cells(a, b, n - 1 - a.height, a.height - 1);
    }
}

/// See `lemma_hrow_same_cells`.
pub proof fn lemma_u_stop_same_cells(a: Grid, b: Grid, x: int, y: int)
    requires
        a.same_cells(b),
    ensures
        spec_u_stop(a, x, y) == spec_u_stop(b, x, y),
    decreases a.width - x,
{
    assert(a.char_at(x, y) == b.char_at(x, y));
    if !(x >= a.width || a.char_at(x, y) != '_') {
        lemma_u_stop_same_cells(a, b, x + 1, y);
    }
}

/// See `lemma_hrow_same_cells`.
pub proof fn lemma_under_row_same_cells(a: Grid, b: Grid, y: int, x: int)
    requires
        a.same_cells(b),
    ensures
        spec_under_row(a, y, x) == spec_under_row(b, y, x),
    decreases a.width - x,
{
    assert forall|p: int, q: int| a.char_at(p, q) == #[trigger] b.char_at(p, q) by {}
    if !(x < 0 || x >= a.width - 2) {
        if spec_underscore_run_at(a, x, y) {
            lemma_u_stop_same_cells(a, b, x, y);
            lemma_u_stop_bounds(a, x, y);
            lemma_under_row_same_cells(a, b, y, spec_u_stop(a, x, y));
        } else {
            lemma_under_row_same_cells(a, b, y, x + 1);
        }
    }
}

/// See `lemma_hrow_same_cells`.
pub proof fn lemma_under_rows_same_cells(a: Grid, b: Grid, y: int)
    requires
        a.same_cells(b),
    ensures
        spec_under_rows(a, y) == spec_under_rows(b, y),
    decreases y,
{
    if y > 0 {
        lemma_under_rows_same_cells(a, b, y - 1);
        lemma_under_row_same_cells(a, b, y - 1, 0);
    }
}

/// See `lemma_hrow_same_cells`.
pub proof fn lemma_stub_paths_same_cells(a: Grid, b: Grid)
    requires
        a.same_cells(b),
    ensures
        spec_stub_paths(a) == spec_stub_paths(b),
{
    assert forall|p: int, q: int|
        spec_stub_cell(a, q, p) == #[trigger] spec_stub_cell(b, q, p) by {
        assert forall|p2: int, q2: int| a.char_at(p2, q2) == #[trigger] b.char_at(p2, q2) by {}
    }
    lemma_scan_rows_congruent(
        |a2: int, b2: int| spec_stub_cell(a, b2, a2),
        |a2: int, b2: int| spec_stub_cell(b, b2, a2),
        a.height as int,
        a.width as int,
    );
}

/// See `lemma_hrow_same_cells`.
pub proof fn lemma_corner_paths_same_cells(a: Grid, b: Grid)
    requires
        a.same_cells(b),
    ensures
        spec_corner_paths(a) == spec_corner_paths(b),
{
    assert forall|p: int, q: int|
        spec_corner_cell(a, p, q) == #[trigger] spec_corner_cell(b, p, q) by {
        assert forall|p2: int, q2: int| a.char_at(p2, q2) == #[trigger] b.char_at(p2, q2) by {}
    }
    lemma_scan_rows_congruent(
        |p2: int, q2: int| spec_corner_cell(a, p2, q2),
        |p2: int, q2: int| spec_corner_cell(b, p2, q2),
        a.width as int,
        a.height as int,
    );
}

/// Every path the line finder stores belongs to one of its families.
pub open spec fn spec_finder_path(p: Path) -> bool {
    p.spec_curved() || p.spec_vertical() || p.spec_horizontal() || p.spec_diagonal()
        || p.spec_back_diagonal()
}

/// Find every line-like path in the grid: vertical runs (solid then
/// double), circuit stubs, horizontal runs (solid, squiggle, double),
/// back diagonals, forward diagonals, curved corners, then underscore
/// runs — in that fixed order, because later passes depend on cells the
/// earlier ones consumed.
///
/// The glyphs are never changed, the used-mask only grows, previously
/// stored paths stay untouched, and every stored path is grid-aligned and
/// falls in one of the finder's families.  A grid without a literal
/// backslash gains no back diagonal, and one without a literal slash gains
/// no forward diagonal.
pub fn find_paths(grid: &mut Grid, paths: &mut PathSet)
    requires
        old(grid).wf(),
        old(paths).wf(),
    ensures
        final (grid).wf(),
        old(grid).same_cells(*final (grid)),
        old(grid).used_leq(*final (grid)),
        final (paths).wf(),
        spec_paths_extended(old(paths).paths@, final (paths).paths@),
        forall|i: int|
            old(paths).paths@.len() <= i < final (paths).paths@.len() ==> spec_finder_path(
                #[trigger] final (paths).paths@[i],
            ) && spec_grid_aligned(final (paths).paths@[i]),
        forall|p: int, q: int|
            #![trigger final (grid).used_at(p, q)]
            final (grid).in_range(p, q) && (spec_v_line_at(*old(grid), p, q, false)
                || spec_v_line_at(*old(grid), p, q, true) || spec_h_line_at(
                *old(grid),
                p,
                q,
                HLineType::Solid,
            ) || spec_h_line_at(*old(grid), p, q, HLineType::Squiggle) || spec_h_line_at(
                *old(grid),
                p,
                q,
                HLineType::Double,
            ) || (old(grid).char_at(p, q) == '\\' && spec_b_line_at(*old(grid), p, q)) || (old(
                grid,
            ).char_at(p, q) == '/' && spec_d_line_at(*old(grid), p, q)) || spec_corner_at(
                *old(grid),
                p,
                q,
            ) || (p < old(grid).width - 2 && spec_underscore_run_at(*old(grid), p, q)))
                ==> final (grid).used_at(p, q),
        final (paths).paths@ == old(paths).paths@ + spec_vcols(*old(grid), old(grid).width as int)
            + spec_stub_paths(*old(grid)) + spec_hrows(*old(grid), old(grid).height as int)
            + spec_bdiags(*old(grid), old(grid).width + old(grid).height - 1) + spec_ddiags(
            *old(grid),
            old(grid).width + old(grid).height,
        ) + spec_corner_paths(*old(grid)) + spec_under_rows(
            *old(grid),
            old(grid).height as int,
        ),
{
    let ghost p0 = paths.paths@;
    find_vertical_lines(grid, paths);
    let ghost gv = *grid;
    let ghost p1 = paths.paths@;
    find_circuit_diagram_short_lines(grid, paths);
    let ghost p2 = paths.paths@;
    proof {
        lemma_paths_extended_trans(p0, p1, p2);
        assert forall|i: int|
            p0.len() <= i < p2.len() implies spec_finder_path(#[trigger] p2[i])
            && spec_grid_aligned(p2[i]) by {
            if i < p1.len() {
                assert(p2[i] == p1[i]);
            }
        }
    }
    find_horizontal_lines(grid, paths);
    let ghost gh = *grid;
    let ghost p3 = paths.paths@;
    proof {
        lemma_paths_extended_trans(p0, p2, p3);
        assert forall|i: int|
            p0.len() <= i < p3.len() implies spec_finder_path(#[trigger] p3[i])
            && spec_grid_aligned(p3[i]) by {
            if i < p2.len() {
                assert(p3[i] == p2[i]);
            }
        }
    }
    find_backslash_diagonals(grid, paths);
    let ghost gb = *grid;
    let ghost p4 = paths.paths@;
    proof {
        lemma_paths_extended_trans(p0, p3, p4);
        assert forall|i: int|
            p0.len() <= i < p4.len() implies spec_finder_path(#[trigger] p4[i])
            && spec_grid_aligned(p4[i]) by {
            if i < p3.len() {
                assert(p4[i] == p3[i]);
            }
        }
    }
    find_forward_slash_diagonals(grid, paths);
    let ghost gf = *grid;
    let ghost p5 = paths.paths@;
    proof {
        lemma_paths_extended_trans(p0, p4, p5);
        assert forall|i: int|
            p0.len() <= i < p5.len() implies spec_finder_path(#[trigger] p5[i])
            && spec_grid_aligned(p5[i]) by {
            if i < p4.len() {
                assert(p5[i] == p4[i]);
            }
        }
    }
    find_curved_corners(grid, paths);
    let ghost gc = *grid;
    let ghost p6 = paths.paths@;
    proof {
        lemma_paths_extended_trans(p0, p5, p6);
        assert forall|i: int|
            p0.len() <= i < p6.len() implies spec_finder_path(#[trigger] p6[i])
            && spec_grid_aligned(p6[i]) by {
            if i < p5.len() {
                assert(p6[i] == p5[i]);
            }
        }
    }
    find_underscore_lines(grid, paths);
    let ghost p7 = paths.paths@;
    proof {
        lemma_paths_extended_trans(p0, p6, p7);
        assert forall|i: int|
            p0.len() <= i < p7.len() implies spec_finder_path(#[trigger] p7[i])
            && spec_grid_aligned(p7[i]) by {
            if i < p6.len() {
                assert(p7[i] == p6[i]);
            }
        }
        assert forall|p: int, q: int|
            #![trigger grid.used_at(p, q)]
            grid.in_range(p, q) && (spec_v_line_at(*old(grid), p, q, false) || spec_v_line_at(
                *old(grid),
                p,
                q,
                true,
            ) || spec_h_line_at(*old(grid), p, q, HLineType::Solid) || spec_h_line_at(
                *old(grid),
                p,
                q,
                HLineType::Squiggle,
            ) || spec_h_line_at(*old(grid), p, q, HLineType::Double) || (old(grid).char_at(p, q)
                == '\\' && spec_b_line_at(*old(grid), p, q)) || (old(grid).char_at(p, q) == '/'
                && spec_d_line_at(*old(grid), p, q)) || spec_corner_at(*old(grid), p, q) || (p < old(
                grid,
            ).width - 2 && spec_underscore_run_at(*old(grid), p, q))) implies grid.used_at(
            p,
            q,
        ) by {
            lemma_h_line_at_same_cells(*old(grid), gv, p, q, HLineType::Solid);
            lemma_h_line_at_same_cells(*old(grid), gv, p, q, HLineType::Squiggle);
            lemma_h_line_at_same_cells(*old(grid), gv, p, q, HLineType::Double);
            lemma_b_line_at_same_cells(*old(grid), gh, p, q);
            lemma_d_line_at_same_cells(*old(grid), gb, p, q);
            lemma_patterns_same_cells(*old(grid), gf, p, q);
            lemma_patterns_same_cells(*old(grid), gc, p, q);
            assert(old(grid).char_at(p, q) == gh.char_at(p, q) && old(grid).char_at(p, q)
                == gb.char_at(p, q));
            assert(gh.used_at(p, q) ==> gb.used_at(p, q));
            assert(gb.used_at(p, q) ==> gf.used_at(p, q));
            assert(gf.used_at(p, q) ==> gc.used_at(p, q));
            assert(gc.used_at(p, q) ==> grid.used_at(p, q));
        }
        lemma_stub_paths_same_cells(*old(grid), gv);
        lemma_hrows_same_cells(*old(grid), gv, old(grid).height as int);
        lemma_bdiags_same_cells(*old(grid), gh, old(grid).width + old(grid).height - 1);
        lemma_ddiags_same_cells(*old(grid), gb, old(grid).width + old(grid).height);
        lemma_corner_paths_same_cells(*old(grid), gf);
        lemma_under_rows_same_cells(*old(grid), gc, old(grid).height as int);
        assert(paths.paths@ =~= old(paths).paths@ + spec_vcols(
            *old(grid),
            old(grid).width as int,
        ) + spec_stub_paths(*old(grid)) + spec_hrows(*old(grid), old(grid).height as int)
            + spec_bdiags(*old(grid), old(grid).width + old(grid).height - 1) + spec_ddiags(
            *old(grid),
            old(grid).width + old(grid).height,
        ) + spec_corner_paths(*old(grid)) + spec_under_rows(
            *old(grid),
            old(grid).height as int,
        ));
    }
}

/// No stored path is degenerate: both endpoints of everything the finder
/// keeps differ by more than the tolerance.
pub proof fn lemma_no_degenerate_paths(ps: PathSet)
    requires
        ps.wf(),
    ensures
        forall|i: int| 0 <= i < ps.paths@.len() ==> !(#[trigger] ps.paths@[i]).spec_degenerate(),
{
}

/// Orientation is well-defined on the finder's output: a straight stored
/// path is vertical, horizontal, forward-diagonal, or back-diagonal, and
/// exactly one of those; a curved path is none of them.
pub proof fn lemma_straight_orientation(p: Path)
    requires
        !p.spec_degenerate(),
        spec_finder_path(p),
        spec_grid_aligned(p),
    ensures
        p.spec_curved() ==> !p.spec_vertical() && !p.spec_horizontal() && !p.spec_diagonal()
            && !p.spec_back_diagonal(),
        !p.spec_curved() ==> p.spec_vertical() || p.spec_horizontal() || p.spec_diagonal()
            || p.spec_back_diagonal(),
        !(p.spec_vertical() && p.spec_horizontal()),
        !(p.spec_vertical() && p.spec_diagonal()),
        !(p.spec_vertical() && p.spec_back_diagonal()),
        !(p.spec_horizontal() && p.spec_diagonal()),
        !(p.spec_horizontal() && p.spec_back_diagonal()),
        !(p.spec_diagonal() && p.spec_back_diagonal()),
{
}

/// Nothing of the stored prefix moved; anything further was appended.
pub open spec fn spec_decs_extended(before: Seq<Decoration>, after: Seq<Decoration>) -> bool {
    before.len() <= after.len() && after.take(before.len() as int) =~= before
}

/// Appending decorations in two steps appends them in one, and every
/// stored decoration keeps its place.
pub proof fn lemma_decs_extended_trans(a: Seq<Decoration>, b: Seq<Decoration>, c: Seq<Decoration>)
    requires
        spec_decs_extended(a, b),
        spec_decs_extended(b, c),
    ensures
        spec_decs_extended(a, c),
        forall|i: int| 0 <= i < b.len() ==> c[i] == b[i],
        forall|i: int| 0 <= i < a.len() ==> b[i] == a[i],
{
    assert forall|i: int| 0 <= i < b.len() implies c[i] == b[i] by {
        assert(c.take(b.len() as int)[i] == c[i]);
    }
    assert forall|i: int| 0 <= i < a.len() implies b[i] == a[i] by {
        assert(b.take(a.len() as int)[i] == b[i]);
    }
    assert(c.take(a.len() as int) =~= a);
}

/// The items a cell-by-cell scan appends while crossing row `y`, up to
/// (and excluding) column `x`: the concatenation of what each cell yields.
pub open spec fn spec_scan_row<T>(f: spec_fn(int, int) -> Seq<T>, y: int, x: int) -> Seq<T>
    decreases x,
{
    if x <= 0 {
        Seq::<T>::empty()
    } else {
        spec_scan_row(f, y, x - 1) + f(x - 1, y)
    }
}

/// The items a cell-by-cell scan appends over the first `y` rows of `w`
/// cells each, in row-major order.
pub open spec fn spec_scan_rows<T>(f: spec_fn(int, int) -> Seq<T>, w: int, y: int) -> Seq<T>
    decreases y,
{
    if y <= 0 {
        Seq::<T>::empty()
    } else {
        spec_scan_rows(f, w, y - 1) + spec_scan_row(f, y - 1, w)
    }
}

/// Scans agree when their per-cell functions agree.
pub proof fn lemma_scan_row_congruent<T>(
    f1: spec_fn(int, int) -> Seq<T>,
    f2: spec_fn(int, int) -> Seq<T>,
    y: int,
    x: int,
)
    requires
        forall|p: int, q: int| #[trigger] f1(p, q) == f2(p, q),
    ensures
        spec_scan_row(f1, y, x) == spec_scan_row(f2, y, x),
    decreases x,
{
    if x > 0 {
        lemma_scan_row_congruent(f1, f2, y, x - 1);
    }
}

/// Scans agree when their per-cell functions agree.
pub proof fn lemma_scan_rows_congruent<T>(
    f1: spec_fn(int, int) -> Seq<T>,
    f2: spec_fn(int, int) -> Seq<T>,
    w: int,
    y: int,
)
    requires
        forall|p: int, q: int| #[trigger] f1(p, q) == f2(p, q),
    ensures
        spec_scan_rows(f1, w, y) == spec_scan_rows(f2, w, y),
    decreases y,
{
    if y > 0 {
        lemma_scan_rows_congruent(f1, f2, w, y - 1);
        lemma_scan_row_congruent(f1, f2, y - 1, w);
    }
}

/// What the gray-fill scan appends at one cell: a gray fill when the glyph
/// is a shading glyph, nothing otherwise.
pub open spec fn spec_gray_cell(g: Grid, x: int, y: int) -> Seq<Decoration> {
    if spec_is_gray(g.char_at(x, y)) {
        seq![
            Decoration {
                pos: spec_from_grid(x, y),
                kind: DecorationType::Gray(spec_gray_level(g.char_at(x, y))),
                angle: 0,
                jump_from: None,
                jump_to: None,
            },
        ]
    } else {
        Seq::<Decoration>::empty()
    }
}

/// Everything the gray-fill scan appends, in scan order.
pub open spec fn spec_gray_decs(g: Grid) -> Seq<Decoration> {
    spec_scan_rows(|p: int, q: int| spec_gray_cell(g, p, q), g.width as int, g.height as int)
}

/// What the triangle scan appends at one cell.
pub open spec fn spec_tri_cell(g: Grid, x: int, y: int) -> Seq<Decoration> {
    if spec_is_tri(g.char_at(x, y)) {
        seq![
            Decoration {
                pos: spec_from_grid(x, y),
                kind: DecorationType::Triangle,
                angle: spec_tri_angle(g.char_at(x, y)),
                jump_from: None,
                jump_to: None,
            },
        ]
    } else {
        Seq::<Decoration>::empty()
    }
}

/// Everything the triangle scan appends, in scan order.
pub open spec fn spec_tri_decs(g: Grid) -> Seq<Decoration> {
    spec_scan_rows(|p: int, q: int| spec_tri_cell(g, p, q), g.width as int, g.height as int)
}

/// The rotations an arrowhead can take: the four axis directions and the
/// complements of the diagonal slope angle for the four diagonal ends.
pub open spec fn spec_arrow_angle(a: i64) -> bool {
    a == ARROW_RIGHT || a == ARROW_DOWN || a == ARROW_LEFT || a == ARROW_UP || a == 36000000
        - DIAGONAL_ANGLE || a == 18000000 + DIAGONAL_ANGLE || a == 18000000 - DIAGONAL_ANGLE || a
        == 36000000 + DIAGONAL_ANGLE
}

/// Does the arrowhead rule accept `(x, y)`: an arrow glyph with a path
/// ending at, or passing through, the adjacent cell in the implied
/// direction, straight or diagonal?
pub open spec fn spec_arrow_accepts(g: Grid, ps: Seq<Path>, x: int, y: int) -> bool {
    let c = g.char_at(x, y);
    ||| (c == '>' && ((exists|i: int|
        0 <= i < ps.len() && (#[trigger] ps[i]).spec_left_ends_at(x, y)) || (exists|i: int|
        0 <= i < ps.len() && (#[trigger] ps[i]).spec_horizontal_passes_through(x - 1, y)) || (
    exists|i: int|
        0 <= i < ps.len() && (#[trigger] ps[i]).spec_diagonal_up_ends_at(x, y)) || (exists|i: int|
        0 <= i < ps.len() && (#[trigger] ps[i]).spec_back_diagonal_down_ends_at(x, y))))
    ||| (c == '<' && ((exists|i: int|
        0 <= i < ps.len() && (#[trigger] ps[i]).spec_right_ends_at(x, y)) || (exists|i: int|
        0 <= i < ps.len() && (#[trigger] ps[i]).spec_horizontal_passes_through(x + 1, y)) || (
    exists|i: int|
        0 <= i < ps.len() && (#[trigger] ps[i]).spec_diagonal_down_ends_at(x, y)) || (exists|i: int|
        0 <= i < ps.len() && (#[trigger] ps[i]).spec_back_diagonal_up_ends_at(x, y))))
    ||| (c == '^' && ((exists|i: int|
        0 <= i < ps.len() && (#[trigger] ps[i]).spec_down_ends_at(x, y)) || (exists|i: int|
        0 <= i < ps.len() && (#[trigger] ps[i]).spec_vertical_passes_through(x, y + 1))
        || spec_is_solid_v_line(g.char_at(x, y + 1)) || spec_is_double_v_line(g.char_at(x, y + 1))))
    ||| ((c == 'v' || c == 'V') && ((exists|i: int|
        0 <= i < ps.len() && (#[trigger] ps[i]).spec_up_ends_at(x, y)) || (exists|i: int|
        0 <= i < ps.len() && (#[trigger] ps[i]).spec_vertical_passes_through(x, y - 1))
        || spec_is_solid_v_line(g.char_at(x, y - 1)) || spec_is_double_v_line(g.char_at(x, y - 1))))
}

/// One arrowhead decoration at `(x, y)` with the given rotation.
pub open spec fn spec_arrow_dec(x: int, y: int, angle: int) -> Decoration {
    Decoration {
        pos: spec_from_grid(x, y),
        kind: DecorationType::Arrow,
        angle: angle as i64,
        jump_from: None,
        jump_to: None,
    }
}

/// What the arrowhead scan appends at one cell: one arrow whose rotation
/// comes from the first matching direction rule, or nothing.
pub open spec fn spec_arrow_cell(g: Grid, ps: Seq<Path>, x: int, y: int) -> Seq<Decoration> {
    let c = g.char_at(x, y);
    if c == '>' {
        if (exists|i: int| 0 <= i < ps.len() && (#[trigger] ps[i]).spec_left_ends_at(x, y)) || (
        exists|i: int|
            0 <= i < ps.len() && (#[trigger] ps[i]).spec_horizontal_passes_through(x - 1, y)) {
            seq![spec_arrow_dec(x, y, ARROW_RIGHT as int)]
        } else if exists|i: int|
            0 <= i < ps.len() && (#[trigger] ps[i]).spec_diagonal_up_ends_at(x, y) {
            seq![spec_arrow_dec(x, y, 36000000 - DIAGONAL_ANGLE)]
        } else if exists|i: int|
            0 <= i < ps.len() && (#[trigger] ps[i]).spec_back_diagonal_down_ends_at(x, y) {
            seq![spec_arrow_dec(x, y, 18000000 - DIAGONAL_ANGLE)]
        } else {
            Seq::<Decoration>::empty()
        }
    } else if c == '<' {
        if (exists|i: int| 0 <= i < ps.len() && (#[trigger] ps[i]).spec_right_ends_at(x, y)) || (
        exists|i: int|
            0 <= i < ps.len() && (#[trigger] ps[i]).spec_horizontal_passes_through(x + 1, y)) {
            seq![spec_arrow_dec(x, y, ARROW_LEFT as int)]
        } else if exists|i: int|
            0 <= i < ps.len() && (#[trigger] ps[i]).spec_diagonal_down_ends_at(x, y) {
            seq![spec_arrow_dec(x, y, DIAGONAL_ANGLE + 18000000)]
        } else if exists|i: int|
            0 <= i < ps.len() && (#[trigger] ps[i]).spec_back_diagonal_up_ends_at(x, y) {
            seq![spec_arrow_dec(x, y, 36000000 + DIAGONAL_ANGLE)]
        } else {
            Seq::<Decoration>::empty()
        }
    } else if c == '^' {
        if (exists|i: int| 0 <= i < ps.len() && (#[trigger] ps[i]).spec_down_ends_at(x, y)) || (
        exists|i: int|
            0 <= i < ps.len() && (#[trigger] ps[i]).spec_vertical_passes_through(x, y + 1))
            || spec_is_solid_v_line(g.char_at(x, y + 1)) || spec_is_double_v_line(
            g.char_at(x, y + 1),
        ) {
            seq![spec_arrow_dec(x, y, ARROW_UP as int)]
        } else {
            Seq::<Decoration>::empty()
        }
    } else if c == 'v' || c == 'V' {
        if (exists|i: int| 0 <= i < ps.len() && (#[trigger] ps[i]).spec_up_ends_at(x, y)) || (
        exists|i: int|
            0 <= i < ps.len() && (#[trigger] ps[i]).spec_vertical_passes_through(x, y - 1))
            || spec_is_solid_v_line(g.char_at(x, y - 1)) || spec_is_double_v_line(
            g.char_at(x, y - 1),
        ) {
            seq![spec_arrow_dec(x, y, ARROW_DOWN as int)]
        } else {
            Seq::<Decoration>::empty()
        }
    } else {
        Seq::<Decoration>::empty()
    }
}

/// Everything the arrowhead scan appends, in scan order.
pub open spec fn spec_arrow_decs(g: Grid, ps: Seq<Path>) -> Seq<Decoration> {
    spec_scan_rows(|p: int, q: int| spec_arrow_cell(g, ps, p, q), g.width as int, g.height as int)
}

/// Accept an arrowhead glyph when a path ends at, or passes through, the
/// adjacent cell in the implied direction, straight or diagonal; its
/// rotation comes from the fixed set.
#[verifier::rlimit(90)]
pub fn find_arrow_heads(grid: &mut Grid, paths: &PathSet, decorations: &mut DecorationSet)
    requires
        old(grid).wf(),
        old(decorations).wf(),
    ensures
        final (grid).wf(),
        old(grid).same_cells(*final (grid)),
        old(grid).used_leq(*final (grid)),
        final (decorations).wf(),
        spec_decs_extended(old(decorations).decorations@, final (decorations).decorations@),
        forall|i: int|
            old(decorations).decorations@.len() <= i < final (decorations).decorations@.len()
                ==> (#[trigger] final (decorations).decorations@[i]).kind == DecorationType::Arrow
                && spec_arrow_angle(final (decorations).decorations@[i].angle),
        forall|p: int, q: int|
            #![trigger final (grid).used_at(p, q)]
            final (grid).in_range(p, q) && spec_arrow_accepts(*old(grid), paths.paths@, p, q)
                ==> final (grid).used_at(p, q),
        forall|p: int, q: int|
            #![trigger final (grid).used_at(p, q)]
            final (grid).used_at(p, q) == (old(grid).used_at(p, q) || (final (grid).in_range(p, q)
                && spec_arrow_accepts(*old(grid), paths.paths@, p, q))),
        final (decorations).decorations@ == old(decorations).decorations@ + spec_arrow_decs(
            *old(grid),
            paths.paths@,
        ),
{
    let width: i32 = grid.width as i32;
    let height: i32 = grid.height as i32;
    let ghost cf = |p: int, q: int| spec_arrow_cell(*old(grid), paths.paths@, p, q);
    let mut y: i32 = 0;
    while y < height
        invariant
            grid.wf(),
            old(grid).same_cells(*grid),
            old(grid).used_leq(*grid),
            decorations.wf(),
            spec_decs_extended(old(decorations).decorations@, decorations.decorations@),
            forall|i: int|
                old(decorations).decorations@.len() <= i < decorations.decorations@.len()
                    ==> (#[trigger] decorations.decorations@[i]).kind == DecorationType::Arrow
                    && spec_arrow_angle(decorations.decorations@[i].angle),
            forall|p: int, q: int|
                #![trigger grid.used_at(p, q)]
                grid.in_range(p, q) && q < y && spec_arrow_accepts(*old(grid), paths.paths@, p, q)
                    ==> grid.used_at(p, q),
            forall|p: int, q: int|
                #![trigger grid.used_at(p, q)]
                grid.used_at(p, q) == (old(grid).used_at(p, q) || (grid.in_range(p, q) && q < y
                    && spec_arrow_accepts(*old(grid), paths.paths@, p, q))),
            cf == (|p: int, q: int| spec_arrow_cell(*old(grid), paths.paths@, p, q)),
            decorations.decorations@ == old(decorations).decorations@ + spec_scan_rows(
                cf,
                width as int,
                y as int,
            ),
            width == grid.width,
            height == grid.height,
            0 <= y <= height,
        decreases height - y,
    {
        let mut x: i32 = 0;
        while x < width
            invariant
                grid.wf(),
                old(grid).same_cells(*grid),
                old(grid).used_leq(*grid),
                decorations.wf(),
                spec_decs_extended(old(decorations).decorations@, decorations.decorations@),
                forall|i: int|
                    old(decorations).decorations@.len() <= i < decorations.decorations@.len()
                        ==> (#[trigger] decorations.decorations@[i]).kind == DecorationType::Arrow
                        && spec_arrow_angle(decorations.decorations@[i].angle),
                forall|p: int, q: int|
                    #![trigger grid.used_at(p, q)]
                    grid.in_range(p, q) && (q < y || (q == y && p < x)) && spec_arrow_accepts(
                        *old(grid),
                        paths.paths@,
                        p,
                        q,
                    ) ==> grid.used_at(p, q),
                forall|p: int, q: int|
                    #![trigger grid.used_at(p, q)]
                    grid.used_at(p, q) == (old(grid).used_at(p, q) || (grid.in_range(p, q) && (q
                        < y || (q == y && p < x)) && spec_arrow_accepts(
                        *old(grid),
                        paths.paths@,
                        p,
                        q,
                    ))),
                cf == (|p: int, q: int| spec_arrow_cell(*old(grid), paths.paths@, p, q)),
                decorations.decorations@ == old(decorations).decorations@ + spec_scan_rows(
                    cf,
                    width as int,
                    y as int,
                ) + spec_scan_row(cf, y as int, x as int),
                width == grid.width,
                height == grid.height,
                0 <= y < height,
                0 <= x <= width,
            decreases width - x,
        {
            let c = grid.get(x, y);
            let ghost prev = decorations.decorations@;
            let ghost g0 = *grid;
            if c == '>' {
                if paths.left_ends_at(x, y) || paths.horizontal_passes_through(x - 1, y) {
                    decorations.insert(Decoration::arrow(x, y, ARROW_RIGHT));
                    grid.set_used(x, y);
                } else if paths.diagonal_up_ends_at(x, y) {
                    decorations.insert(Decoration::arrow(x, y, arrow_angle_diagonal_up()));
                    grid.set_used(x, y);
                } else if paths.back_diagonal_down_ends_at(x, y) {
                    decorations.insert(Decoration::arrow(x, y, arrow_angle_back_diagonal_down()));
                    grid.set_used(x, y);
                }
            } else if c == '<' {
                if paths.right_ends_at(x, y) || paths.horizontal_passes_through(x + 1, y) {
                    decorations.insert(Decoration::arrow(x, y, ARROW_LEFT));
                    grid.set_used(x, y);
                } else if paths.diagonal_down_ends_at(x, y) {
                    decorations.insert(
                        Decoration::arrow(x, y, arrow_angle_diagonal_down() + 18000000),
                    );
                    grid.set_used(x, y);
                } else if paths.back_diagonal_up_ends_at(x, y) {
                    decorations.insert(
                        Decoration::arrow(x, y, arrow_angle_back_diagonal_up() + 18000000),
                    );
                    grid.set_used(x, y);
                }
            } else if c == '^' {
                if paths.down_ends_at(x, y) || paths.vertical_passes_through(x, y + 1)
                    || is_solid_v_line(grid.get(x, y + 1)) || is_double_v_line(grid.get(x, y + 1)) {
                    decorations.insert(Decoration::arrow(x, y, ARROW_UP));
                    grid.set_used(x, y);
                }
            } else if c == 'v' || c == 'V' {
                if paths.up_ends_at(x, y) || paths.vertical_passes_through(x, y - 1)
                    || is_solid_v_line(grid.get(x, y - 1)) || is_double_v_line(grid.get(x, y - 1)) {
                    decorations.insert(Decoration::arrow(x, y, ARROW_DOWN));
                    grid.set_used(x, y);
                }
            }
            proof {
                lemma_decs_extended_trans(
                    old(decorations).decorations@,
                    prev,
                    decorations.decorations@,
                );
                assert forall|p: int, q: int|
                    #![trigger grid.used_at(p, q)]
                    grid.in_range(p, q) && (q < y || (q == y && p < x + 1)) && spec_arrow_accepts(
                        *old(grid),
                        paths.paths@,
                        p,
                        q,
                    ) implies grid.used_at(p, q) by {
                    assert(g0.char_at(p, q) == grid.char_at(p, q));
                    assert(g0.char_at(p, q - 1) == grid.char_at(p, q - 1));
                    assert(g0.char_at(p, q + 1) == grid.char_at(p, q + 1));
                    assert(old(grid).char_at(p, q) == g0.char_at(p, q));
                    assert(old(grid).char_at(p, q - 1) == g0.char_at(p, q - 1));
                    assert(old(grid).char_at(p, q + 1) == g0.char_at(p, q + 1));
                    if p == x as int && q == y as int {
                    } else {
                        assert(g0.used_at(p, q));
                    }
                }
                assert forall|p: int, q: int|
                    #![trigger grid.used_at(p, q)]
                    grid.used_at(p, q) == (old(grid).used_at(p, q) || (grid.in_range(p, q) && (q
                        < y || (q == y && p < x + 1)) && spec_arrow_accepts(
                        *old(grid),
                        paths.paths@,
                        p,
                        q,
                    ))) by {
                    if !(p == x as int && q == y as int) {
                        assert(grid.used_at(p, q) == g0.used_at(p, q));
                    } else {
                        assert(old(grid).char_at(p, q) == g0.char_at(p, q));
                        assert(old(grid).char_at(p, q - 1) == g0.char_at(p, q - 1));
                        assert(old(grid).char_at(p, q + 1) == g0.char_at(p, q + 1));
                    }
                }
                assert(old(grid).char_at(x as int, y as int) == c);
                assert(old(grid).char_at(x as int, y as int - 1) == g0.char_at(
                    x as int,
                    y as int - 1,
                ));
                assert(old(grid).char_at(x as int, y as int + 1) == g0.char_at(
                    x as int,
                    y as int + 1,
                ));
                assert(cf(x as int, y as int) == spec_arrow_cell(
                    *old(grid),
                    paths.paths@,
                    x as int,
                    y as int,
                ));
                assert(spec_scan_row(cf, y as int, x as int + 1) == spec_scan_row(
                    cf,
                    y as int,
                    x as int,
                ) + cf(x as int, y as int));
                assert(decorations.decorations@ =~= old(decorations).decorations@ + spec_scan_rows(
                    cf,
                    width as int,
                    y as int,
                ) + spec_scan_row(cf, y as int, x as int + 1));
            }
            x = x + 1;
        }
        proof {
            assert(spec_scan_rows(cf, width as int, y as int + 1) == spec_scan_rows(
                cf,
                width as int,
                y as int,
            ) + spec_scan_row(cf, y as int, width as int));
            assert(decorations.decorations@ =~= old(decorations).decorations@ + spec_scan_rows(
                cf,
                width as int,
                y as int + 1,
            ));
        }
        y = y + 1;
    }
    proof {
        assert(final (decorations).decorations@ =~= old(decorations).decorations@
            + spec_arrow_decs(*old(grid), paths.paths@));
    }
}

/// Is `c` blank or a non-text glyph, as point detection counts them?
pub open spec fn spec_is_empty_or_vertex(c: char) -> bool {
    c == ' ' || !spec_is_ascii_alphanumeric(c) || c == 'o' || c == 'v'
}

/// Is `c` blank or a non-text glyph, as point detection counts them?
pub fn is_empty_or_vertex(c: char) -> (r: bool)
    ensures
        r == spec_is_empty_or_vertex(c),
{
    c == ' ' || !is_ascii_alphanumeric(c) || c == 'o' || c == 'v'
}

/// Is the cell structurally on a line: all four neighbours blank or
/// non-text (points allowed above and below)?
pub open spec fn spec_on_line(g: Grid, x: int, y: int) -> bool {
    let up = g.char_at(x, y - 1);
    let dn = g.char_at(x, y + 1);
    let lt = g.char_at(x - 1, y);
    let rt = g.char_at(x + 1, y);
    (spec_is_empty_or_vertex(dn) || spec_is_point(dn)) && (spec_is_empty_or_vertex(up)
        || spec_is_point(up)) && spec_is_empty_or_vertex(rt) && spec_is_empty_or_vertex(lt)
}

/// Is the cell structurally on a line: all four neighbours blank or
/// non-text (points allowed above and below)?
pub fn on_line(grid: &Grid, x: i32, y: i32) -> (r: bool)
    requires
        grid.wf(),
        -XY_LIMIT <= x <= XY_LIMIT,
        -XY_LIMIT <= y <= XY_LIMIT,
    ensures
        r == spec_on_line(*grid, x as int, y as int),
{
    let up = grid.get(x, y - 1);
    let dn = grid.get(x, y + 1);
    let lt = grid.get(x - 1, y);
    let rt = grid.get(x + 1, y);
    (is_empty_or_vertex(dn) || is_point(dn)) && (is_empty_or_vertex(up) || is_point(up))
        && is_empty_or_vertex(rt) && is_empty_or_vertex(lt)
}

/// The distinct Unicode point glyphs, which the point finder accepts
/// unconditionally.
pub open spec fn spec_is_marker_point(c: char) -> bool {
    c == '\u{25cb}' || c == '\u{25cc}' || c == '\u{25cd}' || c == '\u{25cf}' || c == '\u{2295}'
}

/// Is `(x, y)` a spot a point marker may sit on: beside a line glyph, at a
/// path endpoint, or structurally on a line?
pub open spec fn spec_point_site(g: Grid, ps: Seq<Path>, x: int, y: int) -> bool {
    spec_is_solid_h_line(g.char_at(x - 1, y)) || spec_is_solid_h_line(g.char_at(x + 1, y))
        || spec_is_solid_v_line(g.char_at(x, y - 1)) || spec_is_solid_v_line(g.char_at(x, y + 1))
        || spec_is_solid_d_line(g.char_at(x - 1, y + 1)) || spec_is_solid_d_line(
        g.char_at(x + 1, y - 1),
    ) || spec_is_solid_b_line(g.char_at(x - 1, y - 1)) || spec_is_solid_b_line(
        g.char_at(x + 1, y + 1),
    ) || (exists|i: int|
        0 <= i < ps.len() && (#[trigger] ps[i]).spec_right_ends_at(x - 1, y)) || (exists|i: int|
        0 <= i < ps.len() && (#[trigger] ps[i]).spec_left_ends_at(x + 1, y)) || (exists|i: int|
        0 <= i < ps.len() && (#[trigger] ps[i]).spec_down_ends_at(x, y - 1)) || (exists|i: int|
        0 <= i < ps.len() && (#[trigger] ps[i]).spec_up_ends_at(x, y + 1)) || (exists|i: int|
        0 <= i < ps.len() && (#[trigger] ps[i]).spec_up_ends_at(x, y)) || (exists|i: int|
        0 <= i < ps.len() && (#[trigger] ps[i]).spec_down_ends_at(x, y)) || spec_on_line(g, x, y)
}

/// Does the point rule accept the ASCII point at `(x, y)`: a star or an
/// `o` beside a line glyph, at a path endpoint, or structurally on a line?
pub open spec fn spec_ascii_point_accepts(g: Grid, ps: Seq<Path>, x: int, y: int) -> bool {
    &&& (g.char_at(x, y) == '*' || g.char_at(x, y) == 'o')
    &&& spec_point_site(g, ps, x, y)
}

/// One point decoration of the given kind at `(x, y)`.
pub open spec fn spec_point_dec(x: int, y: int, kind: DecorationType) -> Decoration {
    Decoration { pos: spec_from_grid(x, y), kind, angle: 0, jump_from: None, jump_to: None }
}

/// What the point scan appends at one cell: the ASCII point glyphs when
/// the cell is accepted as a point site, the distinct Unicode point glyphs
/// unconditionally, each mapped to its kind.
pub open spec fn spec_point_cell(g: Grid, ps: Seq<Path>, x: int, y: int) -> Seq<Decoration> {
    let c = g.char_at(x, y);
    if c == '*' {
        if spec_point_site(g, ps, x, y) {
            seq![spec_point_dec(x, y, DecorationType::ClosedPoint)]
        } else {
            Seq::<Decoration>::empty()
        }
    } else if c == 'o' {
        if spec_point_site(g, ps, x, y) {
            seq![spec_point_dec(x, y, DecorationType::OpenPoint)]
        } else {
            Seq::<Decoration>::empty()
        }
    } else if c == '\u{25cc}' {
        seq![spec_point_dec(x, y, DecorationType::DottedPoint)]
    } else if c == '\u{25cb}' {
        seq![spec_point_dec(x, y, DecorationType::OpenPoint)]
    } else if c == '\u{25cd}' {
        seq![spec_point_dec(x, y, DecorationType::ShadedPoint)]
    } else if c == '\u{25cf}' {
        seq![spec_point_dec(x, y, DecorationType::ClosedPoint)]
    } else if c == '\u{2295}' {
        seq![spec_point_dec(x, y, DecorationType::XorPoint)]
    } else {
        Seq::<Decoration>::empty()
    }
}

/// Everything the point scan appends, in scan order.
pub open spec fn spec_point_decs(g: Grid, ps: Seq<Path>) -> Seq<Decoration> {
    spec_scan_rows(|p: int, q: int| spec_point_cell(g, ps, p, q), g.width as int, g.height as int)
}

/// The decoration kinds a point glyph can become.
pub open spec fn spec_point_kind(k: DecorationType) -> bool {
    k == DecorationType::ClosedPoint || k == DecorationType::OpenPoint || k
        == DecorationType::DottedPoint || k == DecorationType::ShadedPoint || k
        == DecorationType::XorPoint
}

/// Does the point rule accept `(x, y)` at all: an ASCII point on an
/// accepted site, or one of the unconditional Unicode point glyphs?
pub open spec fn spec_point_accepts(g: Grid, ps: Seq<Path>, x: int, y: int) -> bool {
    spec_ascii_point_accepts(g, ps, x, y) || spec_is_marker_point(g.char_at(x, y))
}

/// Accept the ASCII point glyphs when they adjoin a line glyph, a path
/// endpoint, or sit structurally on a line; the distinct Unicode point
/// glyphs are accepted unconditionally.
#[verifier::rlimit(90)]
pub fn find_points(grid: &mut Grid, paths: &PathSet, decorations: &mut DecorationSet)
    requires
        old(grid).wf(),
        old(decorations).wf(),
    ensures
        final (grid).wf(),
        old(grid).same_cells(*final (grid)),
        old(grid).used_leq(*final (grid)),
        final (decorations).wf(),
        spec_decs_extended(old(decorations).decorations@, final (decorations).decorations@),
        forall|i: int|
            old(decorations).decorations@.len() <= i < final (decorations).decorations@.len()
                ==> spec_point_kind((#[trigger] final (decorations).decorations@[i]).kind)
                && final (decorations).decorations@[i].angle == 0,
        forall|p: int, q: int|
            #![trigger final (grid).used_at(p, q)]
            final (grid).in_range(p, q) && spec_is_marker_point(final (grid).char_at(p, q))
                ==> final (grid).used_at(p, q),
        forall|p: int, q: int|
            #![trigger final (grid).used_at(p, q)]
            final (grid).in_range(p, q) && spec_ascii_point_accepts(*old(grid), paths.paths@, p, q)
                ==> final (grid).used_at(p, q),
        forall|p: int, q: int|
            #![trigger final (grid).used_at(p, q)]
            final (grid).used_at(p, q) == (old(grid).used_at(p, q) || (final (grid).in_range(p, q)
                && spec_point_accepts(*old(grid), paths.paths@, p, q))),
        final (decorations).decorations@ == old(decorations).decorations@ + spec_point_decs(
            *old(grid),
            paths.paths@,
        ),
{
    let width: i32 = grid.width as i32;
    let height: i32 = grid.height as i32;
    let ghost cf = |p: int, q: int| spec_point_cell(*old(grid), paths.paths@, p, q);
    let mut y: i32 = 0;
    while y < height
        invariant
            grid.wf(),
            old(grid).same_cells(*grid),
            old(grid).used_leq(*grid),
            decorations.wf(),
            spec_decs_extended(old(decorations).decorations@, decorations.decorations@),
            forall|i: int|
                old(decorations).decorations@.len() <= i < decorations.decorations@.len()
                    ==> spec_point_kind((#[trigger] decorations.decorations@[i]).kind)
                    && decorations.decorations@[i].angle == 0,
            forall|p: int, q: int|
                #![trigger grid.used_at(p, q)]
                grid.in_range(p, q) && q < y && spec_is_marker_point(grid.char_at(p, q))
                    ==> grid.used_at(p, q),
            forall|p: int, q: int|
                #![trigger grid.used_at(p, q)]
                grid.in_range(p, q) && q < y && spec_ascii_point_accepts(
                    *old(grid),
                    paths.paths@,
                    p,
                    q,
                ) ==> grid.used_at(p, q),
            forall|p: int, q: int|
                #![trigger grid.used_at(p, q)]
                grid.used_at(p, q) == (old(grid).used_at(p, q) || (grid.in_range(p, q) && q < y
                    && spec_point_accepts(*old(grid), paths.paths@, p, q))),
            cf == (|p: int, q: int| spec_point_cell(*old(grid), paths.paths@, p, q)),
            decorations.decorations@ == old(decorations).decorations@ + spec_scan_rows(
                cf,
                width as int,
                y as int,
            ),
            width == grid.width,
            height == grid.height,
            0 <= y <= height,
        decreases height - y,
    {
        let mut x: i32 = 0;
        while x < width
            invariant
                grid.wf(),
                old(grid).same_cells(*grid),
                old(grid).used_leq(*grid),
                decorations.wf(),
                spec_decs_extended(old(decorations).decorations@, decorations.decorations@),
                forall|i: int|
                    old(decorations).decorations@.len() <= i < decorations.decorations@.len()
                        ==> spec_point_kind((#[trigger] decorations.decorations@[i]).kind)
                        && decorations.decorations@[i].angle == 0,
                forall|p: int, q: int|
                    #![trigger grid.used_at(p, q)]
                    grid.in_range(p, q) && (q < y || (q == y && p < x)) && spec_is_marker_point(
                        grid.char_at(p, q),
                    ) ==> grid.used_at(p, q),
                forall|p: int, q: int|
                    #![trigger grid.used_at(p, q)]
                    grid.in_range(p, q) && (q < y || (q == y && p < x))
                        && spec_ascii_point_accepts(*old(grid), paths.paths@, p, q)
                        ==> grid.used_at(p, q),
                forall|p: int, q: int|
                    #![trigger grid.used_at(p, q)]
                    grid.used_at(p, q) == (old(grid).used_at(p, q) || (grid.in_range(p, q) && (q
                        < y || (q == y && p < x)) && spec_point_accepts(
                        *old(grid),
                        paths.paths@,
                        p,
                        q,
                    ))),
                cf == (|p: int, q: int| spec_point_cell(*old(grid), paths.paths@, p, q)),
                decorations.decorations@ == old(decorations).decorations@ + spec_scan_rows(
                    cf,
                    width as int,
                    y as int,
                ) + spec_scan_row(cf, y as int, x as int),
                width == grid.width,
                height == grid.height,
                0 <= y < height,
                0 <= x <= width,
            decreases width - x,
        {
            let c = grid.get(x, y);
            let ghost prev = decorations.decorations@;
            let ghost g0 = *grid;
            let adjacent_to_line = is_solid_h_line(grid.get(x - 1, y)) || is_solid_h_line(
                grid.get(x + 1, y),
            ) || is_solid_v_line(grid.get(x, y - 1)) || is_solid_v_line(grid.get(x, y + 1))
                || is_solid_d_line(grid.get(x - 1, y + 1)) || is_solid_d_line(grid.get(x + 1, y - 1))
                || is_solid_b_line(grid.get(x - 1, y - 1)) || is_solid_b_line(
                grid.get(x + 1, y + 1),
            );
            let path_ends_here = paths.right_ends_at(x - 1, y) || paths.left_ends_at(x + 1, y)
                || paths.down_ends_at(x, y - 1) || paths.up_ends_at(x, y + 1) || paths.up_ends_at(
                x,
                y,
            ) || paths.down_ends_at(x, y);
            let is_on_line = on_line(grid, x, y);
            if c == '*' {
                if adjacent_to_line || path_ends_here || is_on_line {
                    decorations.insert(Decoration::closed_point(x, y));
                    grid.set_used(x, y);
                }
            } else if c == 'o' {
                if adjacent_to_line || path_ends_here || is_on_line {
                    decorations.insert(Decoration::open_point(x, y));
                    grid.set_used(x, y);
                }
            } else if c == '\u{25cc}' {
                decorations.insert(Decoration::dotted_point(x, y));
                grid.set_used(x, y);
            } else if c == '\u{25cb}' {
                decorations.insert(Decoration::open_point(x, y));
                grid.set_used(x, y);
            } else if c == '\u{25cd}' {
                decorations.insert(Decoration::shaded_point(x, y));
                grid.set_used(x, y);
            } else if c == '\u{25cf}' {
                decorations.insert(Decoration::closed_point(x, y));
                grid.set_used(x, y);
            } else if c == '\u{2295}' {
                decorations.insert(Decoration::xor_point(x, y));
                grid.set_used(x, y);
            }
            proof {
                lemma_decs_extended_trans(
                    old(decorations).decorations@,
                    prev,
                    decorations.decorations@,
                );
                assert forall|p: int, q: int|
                    #![trigger grid.used_at(p, q)]
                    grid.in_range(p, q) && (q < y || (q == y && p < x + 1)) && spec_is_marker_point(
                        grid.char_at(p, q),
                    ) implies grid.used_at(p, q) by {
                    assert(g0.char_at(p, q) == grid.char_at(p, q));
                    if p == x as int && q == y as int {
                        assert(spec_is_marker_point(c));
                    } else {
                        assert(g0.used_at(p, q));
                    }
                }
                assert forall|p: int, q: int|
                    #![trigger grid.used_at(p, q)]
                    grid.in_range(p, q) && (q < y || (q == y && p < x + 1))
                        && spec_ascii_point_accepts(*old(grid), paths.paths@, p, q) implies
                    grid.used_at(p, q) by {
                    assert(old(grid).char_at(p, q) == grid.char_at(p, q));
                    assert(old(grid).char_at(p - 1, q) == grid.char_at(p - 1, q));
                    assert(old(grid).char_at(p + 1, q) == grid.char_at(p + 1, q));
                    assert(old(grid).char_at(p, q - 1) == grid.char_at(p, q - 1));
                    assert(old(grid).char_at(p, q + 1) == grid.char_at(p, q + 1));
                    assert(old(grid).char_at(p - 1, q - 1) == grid.char_at(p - 1, q - 1));
                    assert(old(grid).char_at(p + 1, q - 1) == grid.char_at(p + 1, q - 1));
                    assert(old(grid).char_at(p - 1, q + 1) == grid.char_at(p - 1, q + 1));
                    assert(old(grid).char_at(p + 1, q + 1) == grid.char_at(p + 1, q + 1));
                    assert(g0.char_at(p, q) == grid.char_at(p, q));
                    assert(g0.char_at(p - 1, q) == grid.char_at(p - 1, q));
                    assert(g0.char_at(p + 1, q) == grid.char_at(p + 1, q));
                    assert(g0.char_at(p, q - 1) == grid.char_at(p, q - 1));
                    assert(g0.char_at(p, q + 1) == grid.char_at(p, q + 1));
                    if p == x as int && q == y as int {
                    } else {
                        assert(g0.used_at(p, q));
                    }
                }
                assert(old(grid).char_at(x as int, y as int) == c);
                assert(old(grid).char_at(x as int - 1, y as int) == g0.char_at(
                    x as int - 1,
                    y as int,
                ));
                assert(old(grid).char_at(x as int + 1, y as int) == g0.char_at(
                    x as int + 1,
                    y as int,
                ));
                assert(old(grid).char_at(x as int, y as int - 1) == g0.char_at(
                    x as int,
                    y as int - 1,
                ));
                assert(old(grid).char_at(x as int, y as int + 1) == g0.char_at(
                    x as int,
                    y as int + 1,
                ));
                assert(old(grid).char_at(x as int - 1, y as int - 1) == g0.char_at(
                    x as int - 1,
                    y as int - 1,
                ));
                assert(old(grid).char_at(x as int + 1, y as int - 1) == g0.char_at(
                    x as int + 1,
                    y as int - 1,
                ));
                assert(old(grid).char_at(x as int - 1, y as int + 1) == g0.char_at(
                    x as int - 1,
                    y as int + 1,
                ));
                assert(old(grid).char_at(x as int + 1, y as int + 1) == g0.char_at(
                    x as int + 1,
                    y as int + 1,
                ));
                assert(spec_point_site(*old(grid), paths.paths@, x as int, y as int)
                    == (adjacent_to_line || path_ends_here || is_on_line));
                assert forall|p: int, q: int|
                    #![trigger grid.used_at(p, q)]
                    grid.used_at(p, q) == (old(grid).used_at(p, q) || (grid.in_range(p, q) && (q
                        < y || (q == y && p < x + 1)) && spec_point_accepts(
                        *old(grid),
                        paths.paths@,
                        p,
                        q,
                    ))) by {
                    if !(p == x as int && q == y as int) {
                        assert(grid.used_at(p, q) == g0.used_at(p, q));
                    } else {
                        assert(old(grid).char_at(p, q) == g0.char_at(p, q));
                    }
                }
                assert(cf(x as int, y as int) == spec_point_cell(
                    *old(grid),
                    paths.paths@,
                    x as int,
                    y as int,
                ));
                assert(spec_scan_row(cf, y as int, x as int + 1) == spec_scan_row(
                    cf,
                    y as int,
                    x as int,
                ) + cf(x as int, y as int));
                assert(decorations.decorations@ =~= old(decorations).decorations@ + spec_scan_rows(
                    cf,
                    width as int,
                    y as int,
                ) + spec_scan_row(cf, y as int, x as int + 1));
            }
            x = x + 1;
        }
        proof {
            assert(spec_scan_rows(cf, width as int, y as int + 1) == spec_scan_rows(
                cf,
                width as int,
                y as int,
            ) + spec_scan_row(cf, y as int, width as int));
            assert(decorations.decorations@ =~= old(decorations).decorations@ + spec_scan_rows(
                cf,
                width as int,
                y as int + 1,
            ));
        }
        y = y + 1;
    }
    proof {
        assert(final (decorations).decorations@ =~= old(decorations).decorations@
            + spec_point_decs(*old(grid), paths.paths@));
    }
}

/// Does the jump rule accept `(x, y)`: a parenthesis with a vertical line
/// coming from above and continuing below, each seen either through the
/// stored paths or directly in the glyphs?
pub open spec fn spec_jump_accepts(g: Grid, ps: Seq<Path>, x: int, y: int) -> bool {
    &&& (g.char_at(x, y) == '(' || g.char_at(x, y) == ')')
    &&& ((exists|i: int| 0 <= i < ps.len() && (#[trigger] ps[i]).spec_down_ends_at(x, y))
        || spec_is_solid_v_line(g.char_at(x, y - 1)) || spec_is_double_v_line(g.char_at(x, y - 1)))
    &&& ((exists|i: int| 0 <= i < ps.len() && (#[trigger] ps[i]).spec_up_ends_at(x, y))
        || spec_is_solid_v_line(g.char_at(x, y + 1)) || spec_is_double_v_line(g.char_at(x, y + 1)))
}

/// What the jump scan appends at one cell: one jump decoration carrying
/// the parenthesis when the jump rule accepts the cell.
pub open spec fn spec_jump_cell(g: Grid, ps: Seq<Path>, x: int, y: int) -> Seq<Decoration> {
    if spec_jump_accepts(g, ps, x, y) {
        seq![
            Decoration {
                pos: spec_from_grid(x, y),
                kind: DecorationType::Jump(g.char_at(x, y)),
                angle: 0,
                jump_from: None,
                jump_to: None,
            },
        ]
    } else {
        Seq::<Decoration>::empty()
    }
}

/// Everything the jump scan appends, in scan order.
pub open spec fn spec_jump_decs(g: Grid, ps: Seq<Path>) -> Seq<Decoration> {
    spec_scan_rows(|p: int, q: int| spec_jump_cell(g, ps, p, q), g.width as int, g.height as int)
}

/// Accept a parenthesis as a jump bridge only when a vertical line both
/// comes from above and continues below it.
#[verifier::rlimit(90)]
pub fn find_jumps(grid: &mut Grid, paths: &PathSet, decorations: &mut DecorationSet)
    requires
        old(grid).wf(),
        old(decorations).wf(),
    ensures
        final (grid).wf(),
        old(grid).same_cells(*final (grid)),
        old(grid).used_leq(*final (grid)),
        final (decorations).wf(),
        spec_decs_extended(old(decorations).decorations@, final (decorations).decorations@),
        forall|i: int|
            old(decorations).decorations@.len() <= i < final (decorations).decorations@.len()
                ==> (#[trigger] final (decorations).decorations@[i]).kind == DecorationType::Jump(
                '(',
            ) || final (decorations).decorations@[i].kind == DecorationType::Jump(')'),
        forall|p: int, q: int|
            #![trigger final (grid).used_at(p, q)]
            final (grid).in_range(p, q) && spec_jump_accepts(*old(grid), paths.paths@, p, q)
                ==> final (grid).used_at(p, q),
        forall|p: int, q: int|
            #![trigger final (grid).used_at(p, q)]
            final (grid).used_at(p, q) == (old(grid).used_at(p, q) || (final (grid).in_range(p, q)
                && spec_jump_accepts(*old(grid), paths.paths@, p, q))),
        final (decorations).decorations@ == old(decorations).decorations@ + spec_jump_decs(
            *old(grid),
            paths.paths@,
        ),
{
    let width: i32 = grid.width as i32;
    let height: i32 = grid.height as i32;
    let ghost cf = |p: int, q: int| spec_jump_cell(*old(grid), paths.paths@, p, q);
    let mut y: i32 = 0;
    while y < height
        invariant
            grid.wf(),
            old(grid).same_cells(*grid),
            old(grid).used_leq(*grid),
            decorations.wf(),
            spec_decs_extended(old(decorations).decorations@, decorations.decorations@),
            forall|i: int|
                old(decorations).decorations@.len() <= i < decorations.decorations@.len()
                    ==> (#[trigger] decorations.decorations@[i]).kind == DecorationType::Jump('(')
                    || decorations.decorations@[i].kind == DecorationType::Jump(')'),
            forall|p: int, q: int|
                #![trigger grid.used_at(p, q)]
                grid.in_range(p, q) && q < y && spec_jump_accepts(*old(grid), paths.paths@, p, q)
                    ==> grid.used_at(p, q),
            forall|p: int, q: int|
                #![trigger grid.used_at(p, q)]
                grid.used_at(p, q) == (old(grid).used_at(p, q) || (grid.in_range(p, q) && q < y
                    && spec_jump_accepts(*old(grid), paths.paths@, p, q))),
            cf == (|p: int, q: int| spec_jump_cell(*old(grid), paths.paths@, p, q)),
            decorations.decorations@ == old(decorations).decorations@ + spec_scan_rows(
                cf,
                width as int,
                y as int,
            ),
            width == grid.width,
            height == grid.height,
            0 <= y <= height,
        decreases height - y,
    {
        let mut x: i32 = 0;
        while x < width
            invariant
                grid.wf(),
                old(grid).same_cells(*grid),
                old(grid).used_leq(*grid),
                decorations.wf(),
                spec_decs_extended(old(decorations).decorations@, decorations.decorations@),
                forall|i: int|
                    old(decorations).decorations@.len() <= i < decorations.decorations@.len()
                        ==> (#[trigger] decorations.decorations@[i]).kind == DecorationType::Jump(
                        '(',
                    ) || decorations.decorations@[i].kind == DecorationType::Jump(')'),
                forall|p: int, q: int|
                    #![trigger grid.used_at(p, q)]
                    grid.in_range(p, q) && (q < y || (q == y && p < x)) && spec_jump_accepts(
                        *old(grid),
                        paths.paths@,
                        p,
                        q,
                    ) ==> grid.used_at(p, q),
                forall|p: int, q: int|
                    #![trigger grid.used_at(p, q)]
                    grid.used_at(p, q) == (old(grid).used_at(p, q) || (grid.in_range(p, q) && (q
                        < y || (q == y && p < x)) && spec_jump_accepts(
                        *old(grid),
                        paths.paths@,
                        p,
                        q,
                    ))),
                cf == (|p: int, q: int| spec_jump_cell(*old(grid), paths.paths@, p, q)),
                decorations.decorations@ == old(decorations).decorations@ + spec_scan_rows(
                    cf,
                    width as int,
                    y as int,
                ) + spec_scan_row(cf, y as int, x as int),
                width == grid.width,
                height == grid.height,
                0 <= y < height,
                0 <= x <= width,
            decreases width - x,
        {
            let c = grid.get(x, y);
            let ghost prev = decorations.decorations@;
            let ghost g0 = *grid;
            if c == '(' || c == ')' {
                let has_line_above = paths.down_ends_at(x, y) || is_solid_v_line(
                    grid.get(x, y - 1),
                ) || is_double_v_line(grid.get(x, y - 1));
                let has_line_below = paths.up_ends_at(x, y) || is_solid_v_line(grid.get(x, y + 1))
                    || is_double_v_line(grid.get(x, y + 1));
                if has_line_above && has_line_below {
                    decorations.insert(Decoration::jump(x, y, c));
                    grid.set_used(x, y);
                }
            }
            proof {
                lemma_decs_extended_trans(
                    old(decorations).decorations@,
                    prev,
                    decorations.decorations@,
                );
                assert forall|p: int, q: int|
                    #![trigger grid.used_at(p, q)]
                    grid.in_range(p, q) && (q < y || (q == y && p < x + 1)) && spec_jump_accepts(
                        *old(grid),
                        paths.paths@,
                        p,
                        q,
                    ) implies grid.used_at(p, q) by {
                    assert(g0.char_at(p, q) == grid.char_at(p, q));
                    assert(g0.char_at(p, q - 1) == grid.char_at(p, q - 1));
                    assert(g0.char_at(p, q + 1) == grid.char_at(p, q + 1));
                    assert(old(grid).char_at(p, q) == g0.char_at(p, q));
                    assert(old(grid).char_at(p, q - 1) == g0.char_at(p, q - 1));
                    assert(old(grid).char_at(p, q + 1) == g0.char_at(p, q + 1));
                    if p == x as int && q == y as int {
                    } else {
                        assert(g0.used_at(p, q));
                    }
                }
                assert forall|p: int, q: int|
                    #![trigger grid.used_at(p, q)]
                    grid.used_at(p, q) == (old(grid).used_at(p, q) || (grid.in_range(p, q) && (q
                        < y || (q == y && p < x + 1)) && spec_jump_accepts(
                        *old(grid),
                        paths.paths@,
                        p,
                        q,
                    ))) by {
                    if !(p == x as int && q == y as int) {
                        assert(grid.used_at(p, q) == g0.used_at(p, q));
                    } else {
                        assert(old(grid).char_at(p, q) == g0.char_at(p, q));
                        assert(old(grid).char_at(p, q - 1) == g0.char_at(p, q - 1));
                        assert(old(grid).char_at(p, q + 1) == g0.char_at(p, q + 1));
                    }
                }
                assert(old(grid).char_at(x as int, y as int) == c);
                assert(old(grid).char_at(x as int, y as int - 1) == g0.char_at(
                    x as int,
                    y as int - 1,
                ));
                assert(old(grid).char_at(x as int, y as int + 1) == g0.char_at(
                    x as int,
                    y as int + 1,
                ));
                assert(cf(x as int, y as int) == spec_jump_cell(
                    *old(grid),
                    paths.paths@,
                    x as int,
                    y as int,
                ));
                assert(spec_scan_row(cf, y as int, x as int + 1) == spec_scan_row(
                    cf,
                    y as int,
                    x as int,
                ) + cf(x as int, y as int));
                assert(decorations.decorations@ =~= old(decorations).decorations@ + spec_scan_rows(
                    cf,
                    width as int,
                    y as int,
                ) + spec_scan_row(cf, y as int, x as int + 1));
            }
            x = x + 1;
        }
        proof {
            assert(spec_scan_rows(cf, width as int, y as int + 1) == spec_scan_rows(
                cf,
                width as int,
                y as int,
            ) + spec_scan_row(cf, y as int, width as int));
            assert(decorations.decorations@ =~= old(decorations).decorations@ + spec_scan_rows(
                cf,
                width as int,
                y as int + 1,
            ));
        }
        y = y + 1;
    }
    proof {
        assert(final (decorations).decorations@ =~= old(decorations).decorations@ + spec_jump_decs(
            *old(grid),
            paths.paths@,
        ));
    }
}

/// Turn every shading glyph into a gray fill covering its cell.
pub fn find_gray_fills(grid: &mut Grid, decorations: &mut DecorationSet)
    requires
        old(grid).wf(),
        old(decorations).wf(),
    ensures
        final (grid).wf(),
        old(grid).same_cells(*final (grid)),
        old(grid).used_leq(*final (grid)),
        final (decorations).wf(),
        spec_decs_extended(old(decorations).decorations@, final (decorations).decorations@),
        forall|i: int|
            old(decorations).decorations@.len() <= i < final (decorations).decorations@.len()
                ==> (#[trigger] final (decorations).decorations@[i]).kind is Gray,
        forall|p: int, q: int|
            final (grid).in_range(p, q) && spec_is_gray(#[trigger] final (grid).char_at(p, q))
                ==> final (grid).used_at(p, q),
        forall|p: int, q: int|
            #![trigger final (grid).used_at(p, q)]
            final (grid).used_at(p, q) == (old(grid).used_at(p, q) || (final (grid).in_range(p, q)
                && spec_is_gray(final (grid).char_at(p, q)))),
        final (decorations).decorations@ == old(decorations).decorations@ + spec_gray_decs(
            *old(grid),
        ),
{
    let width: i32 = grid.width as i32;
    let height: i32 = grid.height as i32;
    let ghost cf = |p: int, q: int| spec_gray_cell(*old(grid), p, q);
    let mut y: i32 = 0;
    while y < height
        invariant
            grid.wf(),
            old(grid).same_cells(*grid),
            old(grid).used_leq(*grid),
            decorations.wf(),
            spec_decs_extended(old(decorations).decorations@, decorations.decorations@),
            forall|i: int|
                old(decorations).decorations@.len() <= i < decorations.decorations@.len()
                    ==> (#[trigger] decorations.decorations@[i]).kind is Gray,
            forall|p: int, q: int|
                grid.in_range(p, q) && q < y && spec_is_gray(#[trigger] grid.char_at(p, q))
                    ==> grid.used_at(p, q),
            forall|p: int, q: int|
                #![trigger grid.used_at(p, q)]
                grid.used_at(p, q) == (old(grid).used_at(p, q) || (grid.in_range(p, q) && q < y
                    && spec_is_gray(grid.char_at(p, q)))),
            cf == (|p: int, q: int| spec_gray_cell(*old(grid), p, q)),
            decorations.decorations@ == old(decorations).decorations@ + spec_scan_rows(
                cf,
                width as int,
                y as int,
            ),
            width == grid.width,
            height == grid.height,
            0 <= y <= height,
        decreases height - y,
    {
        let mut x: i32 = 0;
        while x < width
            invariant
                grid.wf(),
                old(grid).same_cells(*grid),
                old(grid).used_leq(*grid),
                decorations.wf(),
                spec_decs_extended(old(decorations).decorations@, decorations.decorations@),
                forall|i: int|
                    old(decorations).decorations@.len() <= i < decorations.decorations@.len()
                        ==> (#[trigger] decorations.decorations@[i]).kind is Gray,
                forall|p: int, q: int|
                    grid.in_range(p, q) && (q < y || (q == y && p < x)) && spec_is_gray(
                        #[trigger] grid.char_at(p, q),
                    ) ==> grid.used_at(p, q),
                forall|p: int, q: int|
                    #![trigger grid.used_at(p, q)]
                    grid.used_at(p, q) == (old(grid).used_at(p, q) || (grid.in_range(p, q) && (q
                        < y || (q == y && p < x)) && spec_is_gray(grid.char_at(p, q)))),
                cf == (|p: int, q: int| spec_gray_cell(*old(grid), p, q)),
                decorations.decorations@ == old(decorations).decorations@ + spec_scan_rows(
                    cf,
                    width as int,
                    y as int,
                ) + spec_scan_row(cf, y as int, x as int),
                width == grid.width,
                height == grid.height,
                0 <= y < height,
                0 <= x <= width,
            decreases width - x,
        {
            let c = grid.get(x, y);
            let ghost prev = decorations.decorations@;
            let ghost g0 = *grid;
            if is_gray(c) {
                decorations.insert(Decoration::gray(x, y, c));
                grid.set_used(x, y);
            }
            proof {
                lemma_decs_extended_trans(
                    old(decorations).decorations@,
                    prev,
                    decorations.decorations@,
                );
                assert forall|p: int, q: int|
                    grid.in_range(p, q) && (q < y || (q == y && p < x + 1)) && spec_is_gray(
                        #[trigger] grid.char_at(p, q),
                    ) implies grid.used_at(p, q) by {
                    assert(g0.char_at(p, q) == grid.char_at(p, q));
                    if p == x as int && q == y as int {
                        assert(spec_is_gray(c));
                    } else {
                        assert(g0.used_at(p, q));
                    }
                }
                assert forall|p: int, q: int|
                    #![trigger grid.used_at(p, q)]
                    grid.used_at(p, q) == (old(grid).used_at(p, q) || (grid.in_range(p, q) && (q
                        < y || (q == y && p < x + 1)) && spec_is_gray(grid.char_at(p, q)))) by {
                    assert(g0.char_at(p, q) == grid.char_at(p, q));
                    if !(p == x as int && q == y as int) {
                        assert(grid.used_at(p, q) == g0.used_at(p, q));
                    }
                }
                assert(old(grid).char_at(x as int, y as int) == c);
                assert(cf(x as int, y as int) == spec_gray_cell(*old(grid), x as int, y as int));
                assert(spec_scan_row(cf, y as int, x as int + 1) == spec_scan_row(
                    cf,
                    y as int,
                    x as int,
                ) + cf(x as int, y as int));
                assert(decorations.decorations@ =~= old(decorations).decorations@ + spec_scan_rows(
                    cf,
                    width as int,
                    y as int,
                ) + spec_scan_row(cf, y as int, x as int + 1));
            }
            x = x + 1;
        }
        proof {
            assert(spec_scan_rows(cf, width as int, y as int + 1) == spec_scan_rows(
                cf,
                width as int,
                y as int,
            ) + spec_scan_row(cf, y as int, width as int));
            assert(decorations.decorations@ =~= old(decorations).decorations@ + spec_scan_rows(
                cf,
                width as int,
                y as int + 1,
            ));
        }
        y = y + 1;
    }
    proof {
        assert(final (decorations).decorations@ =~= old(decorations).decorations@ + spec_gray_decs(
            *old(grid),
        ));
    }
}

/// Turn every triangle glyph into a rotated triangle.
pub fn find_triangles(grid: &mut Grid, decorations: &mut DecorationSet)
    requires
        old(grid).wf(),
        old(decorations).wf(),
    ensures
        final (grid).wf(),
        old(grid).same_cells(*final (grid)),
        old(grid).used_leq(*final (grid)),
        final (decorations).wf(),
        spec_decs_extended(old(decorations).decorations@, final (decorations).decorations@),
        forall|i: int|
            old(decorations).decorations@.len() <= i < final (decorations).decorations@.len()
                ==> (#[trigger] final (decorations).decorations@[i]).kind
                == DecorationType::Triangle,
        forall|p: int, q: int|
            final (grid).in_range(p, q) && spec_is_tri(#[trigger] final (grid).char_at(p, q))
                ==> final (grid).used_at(p, q),
        forall|p: int, q: int|
            #![trigger final (grid).used_at(p, q)]
            final (grid).used_at(p, q) == (old(grid).used_at(p, q) || (final (grid).in_range(p, q)
                && spec_is_tri(final (grid).char_at(p, q)))),
        final (decorations).decorations@ == old(decorations).decorations@ + spec_tri_decs(
            *old(grid),
        ),
{
    let width: i32 = grid.width as i32;
    let height: i32 = grid.height as i32;
    let ghost cf = |p: int, q: int| spec_tri_cell(*old(grid), p, q);
    let mut y: i32 = 0;
    while y < height
        invariant
            grid.wf(),
            old(grid).same_cells(*grid),
            old(grid).used_leq(*grid),
            decorations.wf(),
            spec_decs_extended(old(decorations).decorations@, decorations.decorations@),
            forall|i: int|
                old(decorations).decorations@.len() <= i < decorations.decorations@.len()
                    ==> (#[trigger] decorations.decorations@[i]).kind == DecorationType::Triangle,
            forall|p: int, q: int|
                grid.in_range(p, q) && q < y && spec_is_tri(#[trigger] grid.char_at(p, q))
                    ==> grid.used_at(p, q),
            forall|p: int, q: int|
                #![trigger grid.used_at(p, q)]
                grid.used_at(p, q) == (old(grid).used_at(p, q) || (grid.in_range(p, q) && q < y
                    && spec_is_tri(grid.char_at(p, q)))),
            cf == (|p: int, q: int| spec_tri_cell(*old(grid), p, q)),
            decorations.decorations@ == old(decorations).decorations@ + spec_scan_rows(
                cf,
                width as int,
                y as int,
            ),
            width == grid.width,
            height == grid.height,
            0 <= y <= height,
        decreases height - y,
    {
        let mut x: i32 = 0;
        while x < width
            invariant
                grid.wf(),
                old(grid).same_cells(*grid),
                old(grid).used_leq(*grid),
                decorations.wf(),
                spec_decs_extended(old(decorations).decorations@, decorations.decorations@),
                forall|i: int|
                    old(decorations).decorations@.len() <= i < decorations.decorations@.len()
                        ==> (#[trigger] decorations.decorations@[i]).kind
                        == DecorationType::Triangle,
                forall|p: int, q: int|
                    grid.in_range(p, q) && (q < y || (q == y && p < x)) && spec_is_tri(
                        #[trigger] grid.char_at(p, q),
                    ) ==> grid.used_at(p, q),
                forall|p: int, q: int|
                    #![trigger grid.used_at(p, q)]
                    grid.used_at(p, q) == (old(grid).used_at(p, q) || (grid.in_range(p, q) && (q
                        < y || (q == y && p < x)) && spec_is_tri(grid.char_at(p, q)))),
                cf == (|p: int, q: int| spec_tri_cell(*old(grid), p, q)),
                decorations.decorations@ == old(decorations).decorations@ + spec_scan_rows(
                    cf,
                    width as int,
                    y as int,
                ) + spec_scan_row(cf, y as int, x as int),
                width == grid.width,
                height == grid.height,
                0 <= y < height,
                0 <= x <= width,
            decreases width - x,
        {
            let c = grid.get(x, y);
            let ghost prev = decorations.decorations@;
            let ghost g0 = *grid;
            if is_tri(c) {
                decorations.insert(Decoration::triangle(x, y, c));
                grid.set_used(x, y);
            }
            proof {
                lemma_decs_extended_trans(
                    old(decorations).decorations@,
                    prev,
                    decorations.decorations@,
                );
                assert forall|p: int, q: int|
                    grid.in_range(p, q) && (q < y || (q == y && p < x + 1)) && spec_is_tri(
                        #[trigger] grid.char_at(p, q),
                    ) implies grid.used_at(p, q) by {
                    assert(g0.char_at(p, q) == grid.char_at(p, q));
                    if p == x as int && q == y as int {
                        assert(spec_is_tri(c));
                    } else {
                        assert(g0.used_at(p, q));
                    }
                }
                assert forall|p: int, q: int|
                    #![trigger grid.used_at(p, q)]
                    grid.used_at(p, q) == (old(grid).used_at(p, q) || (grid.in_range(p, q) && (q
                        < y || (q == y && p < x + 1)) && spec_is_tri(grid.char_at(p, q)))) by {
                    assert(g0.char_at(p, q) == grid.char_at(p, q));
                    if !(p == x as int && q == y as int) {
                        assert(grid.used_at(p, q) == g0.used_at(p, q));
                    }
                }
                assert(old(grid).char_at(x as int, y as int) == c);
                assert(cf(x as int, y as int) == spec_tri_cell(*old(grid), x as int, y as int));
                assert(spec_scan_row(cf, y as int, x as int + 1) == spec_scan_row(
                    cf,
                    y as int,
                    x as int,
                ) + cf(x as int, y as int));
                assert(decorations.decorations@ =~= old(decorations).decorations@ + spec_scan_rows(
                    cf,
                    width as int,
                    y as int,
                ) + spec_scan_row(cf, y as int, x as int + 1));
            }
            x = x + 1;
        }
        proof {
            assert(spec_scan_rows(cf, width as int, y as int + 1) == spec_scan_rows(
                cf,
                width as int,
                y as int,
            ) + spec_scan_row(cf, y as int, width as int));
            assert(decorations.decorations@ =~= old(decorations).decorations@ + spec_scan_rows(
                cf,
                width as int,
                y as int + 1,
            ));
        }
        y = y + 1;
    }
    proof {
        assert(final (decorations).decorations@ =~= old(decorations).decorations@ + spec_tri_decs(
            *old(grid),
        ));
    }
}

/// The acceptance rules read glyphs and the finished paths only, so grids
/// with the same cells agree on them.
pub proof fn lemma_accepts_same_cells(a: Grid, b: Grid, ps: Seq<Path>, x: int, y: int)
    requires
        a.same_cells(b),
    ensures
        spec_arrow_accepts(a, ps, x, y) == spec_arrow_accepts(b, ps, x, y),
        spec_ascii_point_accepts(a, ps, x, y) == spec_ascii_point_accepts(b, ps, x, y),
        spec_jump_accepts(a, ps, x, y) == spec_jump_accepts(b, ps, x, y),
{
    assert forall|p: int, q: int| a.char_at(p, q) == #[trigger] b.char_at(p, q) by {}
}

/// A decoration kind the decoration finder can produce.
pub open spec fn spec_finder_decoration(d: Decoration) -> bool {
    d.kind is Arrow || spec_point_kind(d.kind) || d.kind is Jump || d.kind is Gray || d.kind
        is Triangle
}

/// Find every decoration among the glyphs the line finder left: arrowheads
/// first, then point markers, jump bridges, gray fills, and triangles.
/// Runs strictly after the line finder; it consults the finished paths and
/// only grows the used-mask.
pub fn find_decorations(grid: &mut Grid, paths: &PathSet, decorations: &mut DecorationSet)
    requires
        old(grid).wf(),
        old(decorations).wf(),
    ensures
        final (grid).wf(),
        old(grid).same_cells(*final (grid)),
        old(grid).used_leq(*final (grid)),
        final (decorations).wf(),
        spec_decs_extended(old(decorations).decorations@, final (decorations).decorations@),
        forall|i: int|
            old(decorations).decorations@.len() <= i < final (decorations).decorations@.len()
                ==> spec_finder_decoration(#[trigger] final (decorations).decorations@[i]),
        forall|p: int, q: int|
            #![trigger final (grid).used_at(p, q)]
            final (grid).in_range(p, q) && (spec_is_gray(final (grid).char_at(p, q))
                || spec_is_tri(final (grid).char_at(p, q)) || spec_is_marker_point(
                final (grid).char_at(p, q),
            )) ==> final (grid).used_at(p, q),
        forall|p: int, q: int|
            #![trigger final (grid).used_at(p, q)]
            final (grid).in_range(p, q) && (spec_arrow_accepts(*old(grid), paths.paths@, p, q)
                || spec_ascii_point_accepts(*old(grid), paths.paths@, p, q) || spec_jump_accepts(
                *old(grid),
                paths.paths@,
                p,
                q,
            )) ==> final (grid).used_at(p, q),
        forall|p: int, q: int|
            #![trigger final (grid).used_at(p, q)]
            final (grid).used_at(p, q) == (old(grid).used_at(p, q) || (final (grid).in_range(p, q)
                && (spec_arrow_accepts(*old(grid), paths.paths@, p, q) || spec_point_accepts(
                *old(grid),
                paths.paths@,
                p,
                q,
            ) || spec_jump_accepts(*old(grid), paths.paths@, p, q) || spec_is_gray(
                final (grid).char_at(p, q),
            ) || spec_is_tri(final (grid).char_at(p, q))))),
        final (decorations).decorations@ == old(decorations).decorations@ + spec_arrow_decs(
            *old(grid),
            paths.paths@,
        ) + spec_point_decs(*old(grid), paths.paths@) + spec_jump_decs(*old(grid), paths.paths@)
            + spec_gray_decs(*old(grid)) + spec_tri_decs(*old(grid)),
{
    let ghost d0 = decorations.decorations@;
    find_arrow_heads(grid, paths, decorations);
    let ghost ga = *grid;
    let ghost d1 = decorations.decorations@;
    find_points(grid, paths, decorations);
    let ghost gp = *grid;
    let ghost d2 = decorations.decorations@;
    proof {
        lemma_decs_extended_trans(d0, d1, d2);
        assert forall|i: int|
            d0.len() <= i < d2.len() implies spec_finder_decoration(#[trigger] d2[i]) by {
            if i < d1.len() {
                assert(d2[i] == d1[i]);
            }
        }
    }
    find_jumps(grid, paths, decorations);
    let ghost gj = *grid;
    let ghost d3 = decorations.decorations@;
    proof {
        lemma_decs_extended_trans(d0, d2, d3);
        assert forall|i: int|
            d0.len() <= i < d3.len() implies spec_finder_decoration(#[trigger] d3[i]) by {
            if i < d2.len() {
                assert(d3[i] == d2[i]);
            }
        }
    }
    find_gray_fills(grid, decorations);
    let ghost gg = *grid;
    let ghost d4 = decorations.decorations@;
    proof {
        lemma_decs_extended_trans(d0, d3, d4);
        assert forall|i: int|
            d0.len() <= i < d4.len() implies spec_finder_decoration(#[trigger] d4[i]) by {
            if i < d3.len() {
                assert(d4[i] == d3[i]);
            }
        }
    }
    find_triangles(grid, decorations);
    let ghost d5 = decorations.decorations@;
    proof {
        lemma_decs_extended_trans(d0, d4, d5);
        assert forall|i: int|
            d0.len() <= i < d5.len() implies spec_finder_decoration(#[trigger] d5[i]) by {
            if i < d4.len() {
                assert(d5[i] == d4[i]);
            }
        }
        assert forall|p: int, q: int|
            #![trigger grid.used_at(p, q)]
            grid.in_range(p, q) && (spec_is_gray(grid.char_at(p, q)) || spec_is_tri(
                grid.char_at(p, q),
            ) || spec_is_marker_point(grid.char_at(p, q))) implies grid.used_at(p, q) by {
            assert(gg.char_at(p, q) == grid.char_at(p, q));
            assert(gp.char_at(p, q) == grid.char_at(p, q));
            if spec_is_gray(grid.char_at(p, q)) {
                assert(gg.used_at(p, q));
            } else if spec_is_marker_point(grid.char_at(p, q)) {
                assert(gp.used_at(p, q));
                assert(gg.used_at(p, q));
            }
        }
        assert forall|p: int, q: int|
            #![trigger grid.used_at(p, q)]
            grid.in_range(p, q) && (spec_arrow_accepts(*old(grid), paths.paths@, p, q)
                || spec_ascii_point_accepts(*old(grid), paths.paths@, p, q) || spec_jump_accepts(
                *old(grid),
                paths.paths@,
                p,
                q,
            )) implies grid.used_at(p, q) by {
            lemma_accepts_same_cells(*old(grid), ga, paths.paths@, p, q);
            lemma_accepts_same_cells(*old(grid), gp, paths.paths@, p, q);
            if spec_arrow_accepts(*old(grid), paths.paths@, p, q) {
                assert(ga.used_at(p, q));
                assert(gp.used_at(p, q));
            } else if spec_ascii_point_accepts(*old(grid), paths.paths@, p, q) {
                assert(gp.used_at(p, q));
            } else {
                assert(gj.used_at(p, q));
            }
            assert(gj.used_at(p, q));
            assert(gg.used_at(p, q));
        }
        assert forall|p: int, q: int|
            #![trigger grid.used_at(p, q)]
            grid.used_at(p, q) == (old(grid).used_at(p, q) || (grid.in_range(p, q) && (
            spec_arrow_accepts(*old(grid), paths.paths@, p, q) || spec_point_accepts(
                *old(grid),
                paths.paths@,
                p,
                q,
            ) || spec_jump_accepts(*old(grid), paths.paths@, p, q) || spec_is_gray(
                grid.char_at(p, q),
            ) || spec_is_tri(grid.char_at(p, q))))) by {
            lemma_accepts_same_cells(*old(grid), ga, paths.paths@, p, q);
            lemma_accepts_same_cells(*old(grid), gp, paths.paths@, p, q);
            assert(ga.char_at(p, q) == grid.char_at(p, q));
            assert(gp.char_at(p, q) == grid.char_at(p, q));
            assert(gj.char_at(p, q) == grid.char_at(p, q));
            assert(gg.char_at(p, q) == grid.char_at(p, q));
        }
        assert forall|p: int, q: int|
            spec_point_cell(ga, paths.paths@, p, q) == #[trigger] spec_point_cell(
                *old(grid), paths.paths@,
                p,
                q,
            ) by {
            assert forall|dx: int, dy: int| ga.char_at(p + dx, q + dy) == #[trigger] old(
                grid,
            ).char_at(p + dx, q + dy) by {}
        }
        lemma_scan_rows_congruent(
            |p2: int, q2: int| spec_point_cell(ga, paths.paths@, p2, q2),
            |p2: int, q2: int| spec_point_cell(*old(grid), paths.paths@, p2, q2),
            ga.width as int,
            ga.height as int,
        );
        assert(spec_point_decs(ga, paths.paths@) == spec_point_decs(*old(grid), paths.paths@));
        assert forall|p: int, q: int|
            spec_jump_cell(gp, paths.paths@, p, q) == #[trigger] spec_jump_cell(
                *old(grid), paths.paths@,
                p,
                q,
            ) by {
            assert forall|dx: int, dy: int| gp.char_at(p + dx, q + dy) == #[trigger] old(
                grid,
            ).char_at(p + dx, q + dy) by {}
        }
        lemma_scan_rows_congruent(
            |p2: int, q2: int| spec_jump_cell(gp, paths.paths@, p2, q2),
            |p2: int, q2: int| spec_jump_cell(*old(grid), paths.paths@, p2, q2),
            gp.width as int,
            gp.height as int,
        );
        assert(spec_jump_decs(gp, paths.paths@) == spec_jump_decs(*old(grid), paths.paths@));
        assert forall|p: int, q: int|
            spec_gray_cell(gj, p, q) == #[trigger] spec_gray_cell(
                *old(grid),
                p,
                q,
            ) by {
            assert(gj.char_at(p, q) == old(grid).char_at(p, q));
        }
        lemma_scan_rows_congruent(
            |p2: int, q2: int| spec_gray_cell(gj, p2, q2),
            |p2: int, q2: int| spec_gray_cell(*old(grid), p2, q2),
            gj.width as int,
            gj.height as int,
        );
        assert(spec_gray_decs(gj) == spec_gray_decs(*old(grid)));
        assert forall|p: int, q: int|
            spec_tri_cell(gg, p, q) == #[trigger] spec_tri_cell(
                *old(grid),
                p,
                q,
            ) by {
            assert(gg.char_at(p, q) == old(grid).char_at(p, q));
        }
        lemma_scan_rows_congruent(
            |p2: int, q2: int| spec_tri_cell(gg, p2, q2),
            |p2: int, q2: int| spec_tri_cell(*old(grid), p2, q2),
            gg.width as int,
            gg.height as int,
        );
        assert(spec_tri_decs(gg) == spec_tri_decs(*old(grid)));
        assert(decorations.decorations@ =~= old(decorations).decorations@ + spec_arrow_decs(
            *old(grid),
            paths.paths@,
        ) + spec_point_decs(*old(grid), paths.paths@) + spec_jump_decs(*old(grid), paths.paths@)
            + spec_gray_decs(*old(grid)) + spec_tri_decs(*old(grid)));
    }
}

} // verus!
