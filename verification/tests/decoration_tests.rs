//! Decorations: construction, the ordered collection, and serialisation.

use aasvg::decoration::{Decoration, DecorationSet, DecorationType, ARROW_RIGHT, DEG};

#[test]
fn test_arrow_creation() {
    let arrow = Decoration::arrow(0, 0, ARROW_RIGHT);
    assert_eq!(arrow.kind, DecorationType::Arrow);
    assert_eq!(arrow.angle, 0);
}

#[test]
fn test_point_creation() {
    let closed = Decoration::closed_point(1, 1);
    assert_eq!(closed.kind, DecorationType::ClosedPoint);

    let open = Decoration::open_point(2, 2);
    assert_eq!(open.kind, DecorationType::OpenPoint);
}

#[test]
fn test_decoration_set() {
    let mut set = DecorationSet::new();
    set.insert(Decoration::arrow(0, 0, 0));
    set.insert(Decoration::closed_point(1, 1));
    assert_eq!(set.len(), 2);
}

#[test]
fn test_arrow_svg_output() {
    let arrow = Decoration::arrow(0, 0, ARROW_RIGHT);
    let svg = arrow.to_svg();
    assert!(svg.contains("polygon"));
    assert!(svg.contains("var(--aasvg-fill)"));
}

#[test]
fn arrow_svg_carries_position_and_rotation() {
    let arrow = Decoration::arrow(1, 0, 90 * DEG);
    let svg = arrow.to_svg();
    assert!(svg.contains("translate(16,16) rotate(90)"));
}

#[test]
fn point_svgs_differ_by_fill() {
    assert!(Decoration::closed_point(0, 0).to_svg().contains("fill=\"var(--aasvg-fill)\""));
    assert!(Decoration::open_point(0, 0).to_svg().contains("fill=\"var(--aasvg-bg)\""));
    assert!(Decoration::shaded_point(0, 0).to_svg().contains("fill=\"#888\""));
    assert!(Decoration::dotted_point(0, 0).to_svg().contains("stroke-dasharray=\"2,2\""));
    let xor = Decoration::xor_point(0, 0).to_svg();
    assert!(xor.contains("<circle") && xor.contains("<line"));
}

#[test]
fn jump_svg_draws_two_stacked_curves() {
    let svg = Decoration::jump(0, 0, ')').to_svg();
    assert_eq!(
        svg,
        "<path d=\"M 8,24 C 14,24 14,8 8,8\" fill=\"none\" stroke=\"var(--aasvg-bg)\" stroke-width=\"3\"/>\n<path d=\"M 8,24 C 14,24 14,8 8,8\" fill=\"none\" stroke=\"var(--aasvg-stroke)\"/>\n"
    );
    let svg = Decoration::jump(0, 0, '(').to_svg();
    assert!(svg.contains("M 8,24 C 2,24 2,8 8,8"));
}

#[test]
fn gray_fill_maps_glyph_to_intensity() {
    let svg = Decoration::gray(0, 0, '\u{2591}').to_svg();
    assert!(svg.contains("rgb(192,192,192)"));
    let svg = Decoration::gray(0, 0, '\u{2588}').to_svg();
    assert!(svg.contains("rgb(0,0,0)"));
}

#[test]
fn triangle_maps_glyph_to_rotation() {
    let down = Decoration::triangle(0, 0, '\u{25bc}');
    assert_eq!(down.angle, 90 * DEG);
    let svg = down.to_svg();
    assert!(svg.contains("rotate(90)"));
    let up = Decoration::triangle(0, 0, '\u{25b2}');
    assert_eq!(up.angle, 270 * DEG);
}

#[test]
fn decoration_set_serialises_in_insertion_order() {
    let mut set = DecorationSet::new();
    set.insert(Decoration::closed_point(0, 0));
    set.insert(Decoration::open_point(1, 0));
    let svg = set.to_svg();
    let first = svg.find("var(--aasvg-fill)").unwrap();
    let second = svg.find("var(--aasvg-bg)").unwrap();
    assert!(first < second);
    assert!(!set.is_empty());
}
