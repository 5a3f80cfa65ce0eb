//! Recognises ASCII-art diagrams (boxes, lines, arrows, curves) and turns
//! them into vector drawing primitives, serialised as SVG path data.
//!
//! The engine walks a character grid in a fixed order of passes (vertical
//! lines, short stubs, horizontal lines, the two diagonal families, curved
//! corners, underscore runs), consuming matched cells through a shared
//! used-mask, then a second stage converts the remaining glyphs into
//! decorations (arrowheads, point markers, jump bridges, fills, triangles).
//!
//! All geometry is exact: output-space coordinates are held in fixed-point
//! units of one hundred-thousandth of a pixel, which is precisely the
//! resolution of the serialised output (five decimal digits).

pub mod chars;
pub mod decoration;
pub mod finder;
pub mod grid;
pub mod numfmt;
pub mod path;
pub mod svg;

pub use decoration::{Decoration, DecorationSet, DecorationType};
pub use grid::Grid;
pub use path::{Path, PathSet, PathStyle, Vec2};
pub use svg::RenderOptions;

use vstd::prelude::*;

verus! {

/// The head every rendered document starts with: the `<svg>` element for
/// the grid's canvas, the stylesheet, and the backdrop when one was asked
/// for.
pub open spec fn spec_doc_prefix(text: Seq<char>, backdrop: bool) -> Seq<char> {
    let lines = grid::spec_lines(text);
    let h = if lines.len() > grid::MAX_DIM {
        grid::MAX_DIM as int
    } else {
        lines.len() as int
    };
    let w = {
        let m = grid::spec_max_len(lines.take(h));
        if m > grid::MAX_DIM {
            grid::MAX_DIM as int
        } else {
            m as int
        }
    };
    svg::spec_svg_header(((w + 1) * 8) as nat, ((h + 1) * 16) as nat) + svg::spec_css() + (
    if backdrop {
        svg::spec_backdrop(((w + 1) * 8) as nat, ((h + 1) * 16) as nat)
    } else {
        Seq::<char>::empty()
    })
}

/// Everything the line finder stores on a grid it starts fresh, in pass
/// order: vertical runs, circuit stubs, horizontal runs, the two diagonal
/// families, curved corners, underscore runs.
pub open spec fn spec_found_paths(g: grid::Grid) -> Seq<path::Path> {
    finder::spec_vcols(g, g.width as int) + finder::spec_stub_paths(g) + finder::spec_hrows(
        g,
        g.height as int,
    ) + finder::spec_bdiags(g, g.width + g.height - 1) + finder::spec_ddiags(
        g,
        g.width + g.height,
    ) + finder::spec_corner_paths(g) + finder::spec_under_rows(g, g.height as int)
}

/// Everything the decoration finder stores afterwards, in pass order:
/// arrowheads, point markers, jump bridges, gray fills, triangles.
pub open spec fn spec_found_decorations(g: grid::Grid, ps: Seq<path::Path>) -> Seq<
    decoration::Decoration,
> {
    finder::spec_arrow_decs(g, ps) + finder::spec_point_decs(g, ps) + finder::spec_jump_decs(
        g,
        ps,
    ) + finder::spec_gray_decs(g) + finder::spec_tri_decs(g)
}

/// The grid the renderer parses `text` into: the padded lines, dimensions
/// capped, nothing used yet.
pub open spec fn spec_parsed_grid(text: Seq<char>, g: grid::Grid) -> bool {
    &&& g.wf()
    &&& g.height == if grid::spec_lines(text).len() > grid::MAX_DIM {
        grid::MAX_DIM as int
    } else {
        grid::spec_lines(text).len() as int
    }
    &&& g.width == {
        let m = grid::spec_max_len(grid::spec_lines(text).take(g.height as int));
        if m > grid::MAX_DIM {
            grid::MAX_DIM as int
        } else {
            m as int
        }
    }
    &&& forall|x: int, y: int|
        g.in_range(x, y) ==> #[trigger] g.char_at(x, y) == {
            let line = grid::spec_lines(text)[y];
            if x < line.len() {
                line[x]
            } else {
                ' '
            }
        }
    &&& forall|x: int, y: int| !#[trigger] g.used_at(x, y)
}

/// Render a block of ASCII-art text to a complete SVG document, with the
/// given options.  The grid is scanned by the line finder and then the
/// decoration finder; the document frames everything they recognised — the
/// serialised paths, then the serialised decorations — and the remaining
/// glyphs become text elements unless text is disabled.
#[verifier::rlimit(100)]
pub fn render_with_options(text: &str, options: &svg::RenderOptions) -> (r: String)
    ensures
        r@.len() >= spec_doc_prefix(text@, options.backdrop).len() + 6,
        r@.take(spec_doc_prefix(text@, options.backdrop).len() as int) == spec_doc_prefix(
            text@,
            options.backdrop,
        ),
        r@.skip(r@.len() - 6) == "</svg>"@,
        exists|g: grid::Grid|
            #![trigger spec_found_paths(g)]
            spec_parsed_grid(text@, g) && (options.disable_text ==> r@ == spec_doc_prefix(
                text@,
                options.backdrop,
            ) + path::spec_paths_svg(spec_found_paths(g)) + decoration::spec_decorations_svg(
                spec_found_decorations(g, spec_found_paths(g)),
            ) + "</svg>"@) && (!options.disable_text ==> exists|t: Seq<char>|
                r@ == spec_doc_prefix(text@, options.backdrop) + path::spec_paths_svg(
                    spec_found_paths(g),
                ) + decoration::spec_decorations_svg(
                    spec_found_decorations(g, spec_found_paths(g)),
                ) + t + "</svg>"@),
{
    let mut g = grid::Grid::new(text);
    let ghost g_fresh = g;
    let mut paths = path::PathSet::new();
    let mut decorations = decoration::DecorationSet::new();
    finder::find_paths(&mut g, &mut paths);
    let ghost g_lined = g;
    finder::find_decorations(&mut g, &paths, &mut decorations);
    let r = svg::generate_svg(&g, &paths, &decorations, options);
    proof {
        reveal_strlit("</svg>");
        let head = svg::spec_doc_head(g, *options);
        assert(head == spec_doc_prefix(text@, options.backdrop));
        assert(paths.paths@ =~= spec_found_paths(g_fresh));
        assert forall|p: int, q: int|
            finder::spec_arrow_cell(g_lined, paths.paths@, p, q)
                == #[trigger] finder::spec_arrow_cell(g_fresh, paths.paths@, p, q) by {
            assert forall|p2: int, q2: int| g_lined.char_at(p2, q2) == #[trigger] g_fresh.char_at(
                p2,
                q2,
            ) by {}
        }
        finder::lemma_scan_rows_congruent(
            |p: int, q: int| finder::spec_arrow_cell(g_lined, paths.paths@, p, q),
            |p: int, q: int| finder::spec_arrow_cell(g_fresh, paths.paths@, p, q),
            g_lined.width as int,
            g_lined.height as int,
        );
        assert forall|p: int, q: int|
            finder::spec_point_cell(g_lined, paths.paths@, p, q)
                == #[trigger] finder::spec_point_cell(g_fresh, paths.paths@, p, q) by {
            assert forall|p2: int, q2: int| g_lined.char_at(p2, q2) == #[trigger] g_fresh.char_at(
                p2,
                q2,
            ) by {}
        }
        finder::lemma_scan_rows_congruent(
            |p: int, q: int| finder::spec_point_cell(g_lined, paths.paths@, p, q),
            |p: int, q: int| finder::spec_point_cell(g_fresh, paths.paths@, p, q),
            g_lined.width as int,
            g_lined.height as int,
        );
        assert forall|p: int, q: int|
            finder::spec_jump_cell(g_lined, paths.paths@, p, q)
                == #[trigger] finder::spec_jump_cell(g_fresh, paths.paths@, p, q) by {
            assert forall|p2: int, q2: int| g_lined.char_at(p2, q2) == #[trigger] g_fresh.char_at(
                p2,
                q2,
            ) by {}
        }
        finder::lemma_scan_rows_congruent(
            |p: int, q: int| finder::spec_jump_cell(g_lined, paths.paths@, p, q),
            |p: int, q: int| finder::spec_jump_cell(g_fresh, paths.paths@, p, q),
            g_lined.width as int,
            g_lined.height as int,
        );
        assert forall|p: int, q: int|
            finder::spec_gray_cell(g_lined, p, q) == #[trigger] finder::spec_gray_cell(
                g_fresh,
                p,
                q,
            ) by {
            assert(g_lined.char_at(p, q) == g_fresh.char_at(p, q));
        }
        finder::lemma_scan_rows_congruent(
            |p: int, q: int| finder::spec_gray_cell(g_lined, p, q),
            |p: int, q: int| finder::spec_gray_cell(g_fresh, p, q),
            g_lined.width as int,
            g_lined.height as int,
        );
        assert forall|p: int, q: int|
            finder::spec_tri_cell(g_lined, p, q) == #[trigger] finder::spec_tri_cell(
                g_fresh,
                p,
                q,
            ) by {
            assert(g_lined.char_at(p, q) == g_fresh.char_at(p, q));
        }
        finder::lemma_scan_rows_congruent(
            |p: int, q: int| finder::spec_tri_cell(g_lined, p, q),
            |p: int, q: int| finder::spec_tri_cell(g_fresh, p, q),
            g_lined.width as int,
            g_lined.height as int,
        );
        assert(decorations.decorations@ =~= spec_found_decorations(
            g_fresh,
            spec_found_paths(g_fresh),
        ));
        assert(spec_parsed_grid(text@, g_fresh));
        if options.disable_text {
            assert(r@ =~= spec_doc_prefix(text@, options.backdrop) + path::spec_paths_svg(
                spec_found_paths(g_fresh),
            ) + decoration::spec_decorations_svg(
                spec_found_decorations(g_fresh, spec_found_paths(g_fresh)),
            ) + "</svg>"@);
            assert(r@.take(head.len() as int) =~= head);
            assert(r@.skip(r@.len() - 6) =~= "</svg>"@);
        } else {
            let t = choose|t: Seq<char>|
                r@ == svg::spec_doc_head(g, *options) + path::spec_paths_svg(paths.paths@)
                    + decoration::spec_decorations_svg(decorations.decorations@) + t + "</svg>"@;
            assert(r@ =~= spec_doc_prefix(text@, options.backdrop) + path::spec_paths_svg(
                spec_found_paths(g_fresh),
            ) + decoration::spec_decorations_svg(
                spec_found_decorations(g_fresh, spec_found_paths(g_fresh)),
            ) + t + "</svg>"@);
            assert(r@.take(head.len() as int) =~= head);
            assert(r@.skip(r@.len() - 6) =~= "</svg>"@);
        }
    }
    r
}

/// Render a block of ASCII-art text to SVG with the default options.
pub fn render(text: &str) -> (r: String)
    ensures
        r@.len() >= spec_doc_prefix(text@, false).len() + 6,
        r@.take(spec_doc_prefix(text@, false).len() as int) == spec_doc_prefix(text@, false),
        r@.skip(r@.len() - 6) == "</svg>"@,
        exists|g: grid::Grid|
            #![trigger spec_found_paths(g)]
            spec_parsed_grid(text@, g) && exists|t: Seq<char>|
                r@ == spec_doc_prefix(text@, false) + path::spec_paths_svg(spec_found_paths(g))
                    + decoration::spec_decorations_svg(
                    spec_found_decorations(g, spec_found_paths(g)),
                ) + t + "</svg>"@,
{
    let options = svg::RenderOptions::new();
    render_with_options(text, &options)
}

} // verus!
