//! Document assembly and text extraction.

use aasvg::decoration::DecorationSet;
use aasvg::finder::{find_decorations, find_paths};
use aasvg::grid::Grid;
use aasvg::path::PathSet;
use aasvg::svg::{escape_xml, generate_svg, RenderOptions};
use aasvg::{render, render_with_options};

#[test]
fn test_svg_generation() {
    let mut grid = Grid::new("+--+\n|  |\n+--+");
    let mut paths = PathSet::new();
    let mut decorations = DecorationSet::new();

    find_paths(&mut grid, &mut paths);
    find_decorations(&mut grid, &paths, &mut decorations);

    let options = RenderOptions::new();
    let svg = generate_svg(&grid, &paths, &decorations, &options);

    assert!(svg.starts_with("<svg"));
    assert!(svg.ends_with("</svg>"));
    assert!(svg.contains("--aasvg-stroke"));
    assert!(svg.contains("prefers-color-scheme: dark"));
}

#[test]
fn test_svg_with_backdrop() {
    let mut grid = Grid::new("--");
    let mut paths = PathSet::new();
    let decorations = DecorationSet::new();

    find_paths(&mut grid, &mut paths);

    let options = RenderOptions::new().with_backdrop(true);
    let svg = generate_svg(&grid, &paths, &decorations, &options);

    assert!(svg.contains(r#"fill="var(--aasvg-bg)"#));
}

#[test]
fn test_escape_xml() {
    assert_eq!(escape_xml("a<b>c"), "a&lt;b&gt;c");
    assert_eq!(escape_xml("a&b"), "a&amp;b");
    assert_eq!(escape_xml("\"test\""), "&quot;test&quot;");
}

#[test]
fn escape_xml_keeps_plain_text() {
    assert_eq!(escape_xml(""), "");
    assert_eq!(escape_xml("plain text_1"), "plain text_1");
    assert_eq!(escape_xml("'"), "&#39;");
}

#[test]
fn header_carries_canvas_size() {
    let svg = render("---");
    // three cells plus the margin: 32 pixels wide, 32 tall
    assert!(svg.contains("width=\"32\" height=\"32\" viewBox=\"0 0 32 32\""));
}

#[test]
fn residual_text_is_rendered_centred() {
    let svg = render("hi");
    assert!(svg.contains("<text x=\"12\" y=\"20\">hi</text>"));
}

#[test]
fn disable_text_drops_text_elements() {
    let options = RenderOptions::new().with_disable_text(true);
    let svg = render_with_options("hi", &options);
    assert!(!svg.contains("<text"));
}

#[test]
fn stretch_adds_text_length() {
    let options = RenderOptions::new().with_stretch(true);
    let svg = render_with_options("hi", &options);
    assert!(svg.contains("textLength=\"16\" lengthAdjust=\"spacingAndGlyphs\">hi</text>"));
}

#[test]
fn rendered_arrow_has_polygon_and_path() {
    let svg = render("-->");
    assert!(svg.contains("<path d=\"M 8,16 L 24,16\""));
    assert!(svg.contains("<polygon"));
    assert!(svg.contains("rotate(0)"));
}

#[test]
fn dashed_style_is_emitted() {
    let mut paths = PathSet::new();
    paths.insert(aasvg::path::Path::line_from_grid(0, 0, 2, 0).with_dashed(true));
    let grid = Grid::new("---");
    let decorations = DecorationSet::new();
    let options = RenderOptions::new();
    let svg = generate_svg(&grid, &paths, &decorations, &options);
    assert!(svg.contains("stroke-dasharray=\"4,2\""));
}

#[test]
fn render_of_empty_input_is_a_document() {
    let svg = render("");
    assert!(svg.starts_with("<svg"));
    assert!(svg.ends_with("</svg>"));
}

#[test]
fn text_runs_split_at_two_spaces() {
    let svg = render("ab  cd");
    // two runs, each its own element
    assert!(svg.contains(">ab</text>"));
    assert!(svg.contains(">cd</text>"));
}

#[test]
fn box_glyphs_are_fully_consumed() {
    // every box glyph is claimed by a path, so nothing is left for text
    let svg = render("+--+\n|  |\n+--+");
    assert!(!svg.contains("<text"));
}

#[test]
fn unaccepted_arrow_glyph_stays_text() {
    let svg = render("a>");
    assert!(svg.contains("<text x=\"12\" y=\"20\">a&gt;</text>"));
    assert!(!svg.contains("<polygon"));
}

#[test]
fn rejected_point_glyph_remains_text() {
    // a star between letters is rejected by the point rule and its cell
    // stays unused, so the whole run renders as text
    let svg = render("a*b");
    assert!(svg.contains(">a*b</text>"));
    assert!(!svg.contains("<circle"));
}

#[test]
fn corner_consumes_all_matched_glyphs() {
    // the corner claims the vertex and both flanking strokes, and the
    // horizontal pass the dashes, so nothing is left for text
    let svg = render("--.\n   |");
    assert!(!svg.contains("<text"));
}

#[test]
fn underscore_run_is_fully_consumed() {
    let svg = render("___");
    assert!(!svg.contains("<text"));
}
