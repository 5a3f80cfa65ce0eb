//! SVG document assembly: the header, the stylesheet for light and dark
//! modes, the two serialised collections, and the residual-text elements.

use vstd::prelude::*;
use vstd::string::StringExecFns;
use crate::decoration::{spec_decorations_svg, DecorationSet};
use crate::grid::{
    lemma_run_len_bounds, lemma_text_start_bounds, spec_run_len, spec_run_text, spec_text_start,
    text_chars, Grid,
};
use crate::numfmt::{push_char, spec_dec_digits, u64_to_dec};
use crate::path::{spec_paths_svg, PathSet};

verus! {

/// The stylesheet: colours come from CSS variables with a dark-mode
/// override, so the output adapts to the page.
pub open spec fn spec_css() -> Seq<char> {
    "<style>\n  :root {\n    --aasvg-stroke: #000;\n    --aasvg-fill: #000;\n    --aasvg-bg: #fff;\n    --aasvg-text: #000;\n  }\n  @media (prefers-color-scheme: dark) {\n    :root {\n      --aasvg-stroke: #fff;\n      --aasvg-fill: #fff;\n      --aasvg-bg: #1a1a1a;\n      --aasvg-text: #fff;\n    }\n  }\n</style>\n"@
}

fn css_variables() -> (r: &'static str)
    ensures
        r@ == spec_css(),
{
    "<style>\n  :root {\n    --aasvg-stroke: #000;\n    --aasvg-fill: #000;\n    --aasvg-bg: #fff;\n    --aasvg-text: #000;\n  }\n  @media (prefers-color-scheme: dark) {\n    :root {\n      --aasvg-stroke: #fff;\n      --aasvg-fill: #fff;\n      --aasvg-bg: #1a1a1a;\n      --aasvg-text: #fff;\n    }\n  }\n</style>\n"
}

/// The opening `<svg>` element for a canvas of the given pixel size.
pub open spec fn spec_svg_header(w: nat, h: nat) -> Seq<char> {
    "<svg xmlns=\"http://www.w3.org/2000/svg\" version=\"1.1\" width=\""@ + spec_dec_digits(w)
        + "\" height=\""@ + spec_dec_digits(h) + "\" viewBox=\"0 0 "@ + spec_dec_digits(w) + " "@
        + spec_dec_digits(h)
        + "\" class=\"diagram\" text-anchor=\"middle\" font-family=\"monospace\" font-size=\"13px\" stroke-linecap=\"round\">\n"@
}

/// The backdrop rectangle behind the whole canvas.
pub open spec fn spec_backdrop(w: nat, h: nat) -> Seq<char> {
    "<rect x=\"0\" y=\"0\" width=\""@ + spec_dec_digits(w) + "\" height=\""@ + spec_dec_digits(h)
        + "\" fill=\"var(--aasvg-bg)\"/>\n"@
}

/// Options for rendering a diagram to SVG.
#[derive(Debug, Clone)]
pub struct RenderOptions {
    /// Add a backdrop rectangle behind the diagram, for pages whose
    /// background is not white.
    pub backdrop: bool,
    /// Skip text rendering entirely: only lines and decorations remain.
    pub disable_text: bool,
    /// Minimum consecutive spaces that end a text run; zero renders each
    /// character separately.
    pub spaces: u32,
    /// Stretch text to fit its cells exactly, through the `textLength`
    /// attribute.
    pub stretch: bool,
}

impl RenderOptions {
    /// The defaults: no backdrop, text kept, runs end at two spaces, no
    /// stretching.
    pub fn new() -> (r: RenderOptions)
        ensures
            r == (RenderOptions { backdrop: false, disable_text: false, spaces: 2u32, stretch: false }),
    {
        RenderOptions { backdrop: false, disable_text: false, spaces: 2, stretch: false }
    }

    pub fn with_backdrop(self, backdrop: bool) -> (r: RenderOptions)
        ensures
            r == (RenderOptions { backdrop, ..self }),
    {
        let mut o = self;
        o.backdrop = backdrop;
        o
    }

    pub fn with_disable_text(self, disable_text: bool) -> (r: RenderOptions)
        ensures
            r == (RenderOptions { disable_text, ..self }),
    {
        let mut o = self;
        o.disable_text = disable_text;
        o
    }

    pub fn with_spaces(self, spaces: u32) -> (r: RenderOptions)
        ensures
            r == (RenderOptions { spaces, ..self }),
    {
        let mut o = self;
        o.spaces = spaces;
        o
    }

    pub fn with_stretch(self, stretch: bool) -> (r: RenderOptions)
        ensures
            r == (RenderOptions { stretch, ..self }),
    {
        let mut o = self;
        o.stretch = stretch;
        o
    }
}

/// The replacement for one character in XML text.
pub open spec fn spec_escape_char(c: char) -> Seq<char> {
    if c == '&' {
        "&amp;"@
    } else if c == '<' {
        "&lt;"@
    } else if c == '>' {
        "&gt;"@
    } else if c == '"' {
        "&quot;"@
    } else if c == '\'' {
        "&#39;"@
    } else {
        seq![c]
    }
}

/// The XML-escaped form of a string.
pub open spec fn spec_escape_xml(s: Seq<char>) -> Seq<char>
    decreases s.len(),
{
    if s.len() == 0 {
        Seq::<char>::empty()
    } else {
        spec_escape_xml(s.drop_last()) + spec_escape_char(s.last())
    }
}

/// Escape the five XML-special characters; everything else is kept.
pub fn escape_xml(s: &str) -> (r: String)
    ensures
        r@ == spec_escape_xml(s@),
{
    let cs = text_chars(s);
    let mut out = String::new();
    let mut i: usize = 0;
    while i < cs.len()
        invariant
            i <= cs@.len(),
            cs@ == s@,
            out@ == spec_escape_xml(s@.take(i as int)),
        decreases cs@.len() - i,
    {
        let c = cs[i];
        if c == '&' {
            out.append("&amp;");
        } else if c == '<' {
            out.append("&lt;");
        } else if c == '>' {
            out.append("&gt;");
        } else if c == '"' {
            out.append("&quot;");
        } else if c == '\'' {
            out.append("&#39;");
        } else {
            push_char(&mut out, c);
        }
        proof {
            assert(s@.take(i as int + 1).drop_last() =~= s@.take(i as int));
            assert(s@.take(i as int + 1).last() == s@[i as int]);
            assert(out@ =~= spec_escape_xml(s@.take(i as int + 1)));
        }
        i = i + 1;
    }
    proof {
        assert(s@.take(s@.len() as int) =~= s@);
    }
    out
}

/// One `<text>` element: the run starting at the text cell `sx` of row
/// `y`, XML-escaped, centred over its cells, and — with `stretch` —
/// forced to their exact width through `textLength`.
pub open spec fn spec_text_element(
    g: Grid,
    sx: int,
    y: int,
    spaces: int,
    stretch: bool,
) -> Seq<char> {
    let n = spec_run_len(g, sx, y, spaces);
    let px = (sx + 1) * 800000 + (n - 1) * 400000;
    let py = (y + 1) * 1600000 + 400000;
    "<text x=\""@ + crate::numfmt::spec_format_coord(px) + "\" y=\""@
        + crate::numfmt::spec_format_coord(py) + (if stretch {
        "\" textLength=\""@ + crate::numfmt::spec_format_coord(n * 800000)
            + "\" lengthAdjust=\"spacingAndGlyphs\">"@
    } else {
        "\">"@
    }) + spec_escape_xml(spec_run_text(g, sx, y, spaces)) + "</text>\n"@
}

/// The `<text>` elements of row `y` from column `x` on: one per text run,
/// in order.
pub open spec fn spec_text_row(g: Grid, y: int, x: int, spaces: int, stretch: bool) -> Seq<char>
    decreases g.width - x
        via spec_text_row_decreases
{
    if x < 0 {
        Seq::<char>::empty()
    } else {
        let sx = spec_text_start(g, x, y);
        if sx >= g.width {
            Seq::<char>::empty()
        } else {
            spec_text_element(g, sx, y, spaces, stretch) + spec_text_row(
                g,
                y,
                sx + spec_run_len(g, sx, y, spaces),
                spaces,
                stretch,
            )
        }
    }
}

#[via_fn]
proof fn spec_text_row_decreases(g: Grid, y: int, x: int, spaces: int, stretch: bool) {
    if x >= 0 && x <= g.width {
        lemma_text_start_bounds(g, x, y);
        let sx = spec_text_start(g, x, y);
        if sx < g.width {
            lemma_run_len_bounds(g, sx, y, spaces);
        }
    } else if x >= 0 {
        lemma_text_start_bounds(g, g.width as int, y);
    }
}

/// The `<text>` elements of the first `y` rows, in row order.
pub open spec fn spec_text_rows(g: Grid, spaces: int, stretch: bool, y: int) -> Seq<char>
    decreases y,
{
    if y <= 0 {
        Seq::<char>::empty()
    } else {
        spec_text_rows(g, spaces, stretch, y - 1) + spec_text_row(g, y - 1, 0, spaces, stretch)
    }
}

/// The whole residual-text block: every row's `<text>` elements under one
/// `<g>` that colours them.
pub open spec fn spec_extract_text(g: Grid, spaces: int, stretch: bool) -> Seq<char> {
    "<g fill=\"var(--aasvg-text)\">\n"@ + spec_text_rows(g, spaces, stretch, g.height as int)
        + "</g>\n"@
}

/// Emit `<text>` elements for every run of glyphs that no shape claimed,
/// grouped under one `<g>` that colours them.  Each run is centred over
/// its cells; with `stretch` it is also forced to their exact width.
pub fn extract_text(grid: &Grid, spaces: u32, stretch: bool) -> (r: String)
    requires
        grid.wf(),
    ensures
        r@ == spec_extract_text(*grid, spaces as int, stretch),
{
    let mut body = String::new();
    let height: i32 = grid.height as i32;
    let width: i32 = grid.width as i32;
    let ghost sp = spaces as int;
    let mut y: i32 = 0;
    while y < height
        invariant
            grid.wf(),
            width == grid.width,
            height == grid.height,
            0 <= y <= height,
            body@ == spec_text_rows(*grid, sp, stretch, y as int),
            sp == spaces as int,
        decreases height - y,
    {
        let mut x: i32 = 0;
        let mut row_done: bool = false;
        while !row_done
            invariant
                grid.wf(),
                width == grid.width,
                height == grid.height,
                0 <= y < height,
                0 <= x <= width,
                sp == spaces as int,
                body@ + spec_text_row(*grid, y as int, x as int, sp, stretch) == spec_text_rows(
                    *grid,
                    sp,
                    stretch,
                    y as int,
                ) + spec_text_row(*grid, y as int, 0, sp, stretch),
                row_done ==> spec_text_row(*grid, y as int, x as int, sp, stretch)
                    == Seq::<char>::empty(),
            decreases width - x + (if row_done {
                0int
            } else {
                1int
            }),
        {
            match grid.text_start(x, y) {
                Some(sx) => {
                    let (txt, n) = grid.extract_text(sx, y, spaces);
                    let px: i64 = (sx as i64 + 1) * 800000 + (n as i64 - 1) * 400000;
                    let py: i64 = (y as i64 + 1) * 1600000 + 400000;
                    let escaped = escape_xml(txt.as_str());
                    let ghost before = body@;
                    body.append("<text x=\"");
                    let t = crate::numfmt::format_coord(px);
                    body.append(t.as_str());
                    body.append("\" y=\"");
                    let t = crate::numfmt::format_coord(py);
                    body.append(t.as_str());
                    if stretch {
                        body.append("\" textLength=\"");
                        let t = crate::numfmt::format_coord(n as i64 * 800000);
                        body.append(t.as_str());
                        body.append("\" lengthAdjust=\"spacingAndGlyphs\">");
                    } else {
                        body.append("\">");
                    }
                    body.append(escaped.as_str());
                    body.append("</text>\n");
                    proof {
                        assert(1 <= n <= width - sx);
                        assert(body@ =~= before + spec_text_element(
                            *grid,
                            sx as int,
                            y as int,
                            sp,
                            stretch,
                        ));
                        assert(spec_text_row(*grid, y as int, x as int, sp, stretch)
                            == spec_text_element(*grid, sx as int, y as int, sp, stretch)
                            + spec_text_row(
                            *grid,
                            y as int,
                            sx + spec_run_len(*grid, sx as int, y as int, sp),
                            sp,
                            stretch,
                        ));
                        assert(body@ + spec_text_row(
                            *grid,
                            y as int,
                            sx as int + n as int,
                            sp,
                            stretch,
                        ) =~= spec_text_rows(*grid, sp, stretch, y as int) + spec_text_row(
                            *grid,
                            y as int,
                            0,
                            sp,
                            stretch,
                        ));
                    }
                    x = sx + n as i32;
                },
                None => {
                    proof {
                        assert(spec_text_row(*grid, y as int, x as int, sp, stretch)
                            == Seq::<char>::empty());
                    }
                    row_done = true;
                },
            }
        }
        proof {
            assert(spec_text_rows(*grid, sp, stretch, y as int + 1) == spec_text_rows(
                *grid,
                sp,
                stretch,
                y as int,
            ) + spec_text_row(*grid, y as int, 0, sp, stretch));
            assert(body@ =~= spec_text_rows(*grid, sp, stretch, y as int + 1));
        }
        y = y + 1;
    }
    let mut out = String::new();
    out.append("<g fill=\"var(--aasvg-text)\">\n");
    out.append(body.as_str());
    out.append("</g>\n");
    proof {
        assert(out@ =~= spec_extract_text(*grid, sp, stretch));
    }
    out
}

/// The document up to the end of the optional backdrop.
pub open spec fn spec_doc_head(g: Grid, options: RenderOptions) -> Seq<char> {
    let w = ((g.width + 1) * 8) as nat;
    let h = ((g.height + 1) * 16) as nat;
    spec_svg_header(w, h) + spec_css() + (if options.backdrop {
        spec_backdrop(w, h)
    } else {
        Seq::<char>::empty()
    })
}

/// Assemble the complete SVG document: header, stylesheet, optional
/// backdrop, every path, every decoration, then the residual text unless
/// it is disabled.
pub fn generate_svg(
    grid: &Grid,
    paths: &PathSet,
    decorations: &DecorationSet,
    options: &RenderOptions,
) -> (r: String)
    requires
        grid.wf(),
        paths.wf(),
        decorations.wf(),
    ensures
        r@ == spec_doc_head(*grid, *options) + spec_paths_svg(paths.paths@)
            + spec_decorations_svg(decorations.decorations@) + (if options.disable_text {
            Seq::<char>::empty()
        } else {
            spec_extract_text(*grid, options.spaces as int, options.stretch)
        }) + "</svg>"@,
{
    let w64: u64 = (grid.width as u64 + 1) * 8;
    let h64: u64 = (grid.height as u64 + 1) * 16;
    let mut svg = String::new();
    svg.append("<svg xmlns=\"http://www.w3.org/2000/svg\" version=\"1.1\" width=\"");
    let t = u64_to_dec(w64);
    svg.append(t.as_str());
    svg.append("\" height=\"");
    let t = u64_to_dec(h64);
    svg.append(t.as_str());
    svg.append("\" viewBox=\"0 0 ");
    let t = u64_to_dec(w64);
    svg.append(t.as_str());
    svg.append(" ");
    let t = u64_to_dec(h64);
    svg.append(t.as_str());
    svg.append(
        "\" class=\"diagram\" text-anchor=\"middle\" font-family=\"monospace\" font-size=\"13px\" stroke-linecap=\"round\">\n",
    );
    svg.append(css_variables());
    if options.backdrop {
        svg.append("<rect x=\"0\" y=\"0\" width=\"");
        let t = u64_to_dec(w64);
        svg.append(t.as_str());
        svg.append("\" height=\"");
        let t = u64_to_dec(h64);
        svg.append(t.as_str());
        svg.append("\" fill=\"var(--aasvg-bg)\"/>\n");
    }
    proof {
        assert(svg@ =~= spec_doc_head(*grid, *options));
    }
    let t = paths.to_svg();
    svg.append(t.as_str());
    let t = decorations.to_svg();
    svg.append(t.as_str());
    let ghost with_shapes = svg@;
    if !options.disable_text {
        let t = extract_text(grid, options.spaces, options.stretch);
        svg.append(t.as_str());
        proof {
            assert(svg@ =~= with_shapes + t@);
        }
    }
    svg.append("</svg>");
    proof {
        assert(svg@ =~= spec_doc_head(*grid, *options) + spec_paths_svg(paths.paths@)
            + spec_decorations_svg(decorations.decorations@) + (if options.disable_text {
            Seq::<char>::empty()
        } else {
            spec_extract_text(*grid, options.spaces as int, options.stretch)
        }) + "</svg>"@);
    }
    svg
}

} // verus!
