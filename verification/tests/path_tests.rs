//! Geometry model: points, paths, orientation queries, serialisation.

use aasvg::numfmt::{format_coord, FP};
use aasvg::path::{Path, PathSet, Vec2, CELL_X, CELL_Y};

#[test]
fn test_vec2_from_grid() {
    let v = Vec2::from_grid(0, 0);
    assert_eq!(v.x, CELL_X);
    assert_eq!(v.y, CELL_Y);

    let v = Vec2::from_grid(1, 1);
    assert_eq!(v.x, 2 * CELL_X);
    assert_eq!(v.y, 2 * CELL_Y);
}

#[test]
fn test_path_direction() {
    // Vertical line
    let v = Path::line_from_grid(0, 0, 0, 2);
    assert!(v.is_vertical());
    assert!(!v.is_horizontal());

    // Horizontal line
    let h = Path::line_from_grid(0, 0, 2, 0);
    assert!(h.is_horizontal());
    assert!(!h.is_vertical());
}

#[test]
fn test_path_svg() {
    let p = Path::line(Vec2::new(10 * FP, 20 * FP), Vec2::new(30 * FP, 40 * FP));
    assert_eq!(p.to_svg_paths(), vec!["M 10,20 L 30,40"]);
}

#[test]
fn format_coord_whole_number_drops_fraction() {
    assert_eq!(format_coord(8 * FP), "8");
    assert_eq!(format_coord(0), "0");
    assert_eq!(format_coord(-16 * FP), "-16");
}

#[test]
fn format_coord_keeps_significant_fraction() {
    assert_eq!(format_coord(850000), "8.5");
    assert_eq!(format_coord(1241532), "12.41532");
    assert_eq!(format_coord(-850000), "-8.5");
    assert_eq!(format_coord(100), "0.001");
    assert_eq!(format_coord(1), "0.00001");
}

#[test]
fn format_coord_never_ends_in_point_or_stripped_zero() {
    let samples: Vec<i64> = vec![0, 1, 10, 100, 50000, 99999, 100000, 123450, -123450, 800000];
    for v in samples {
        let s = format_coord(v);
        assert!(!s.ends_with('.'));
        if s.contains('.') {
            assert!(!s.ends_with('0'));
        }
    }
}

#[test]
fn degenerate_lines_are_not_stored() {
    let mut set = PathSet::new();
    set.insert(Path::line(Vec2::new(FP, FP), Vec2::new(FP, FP)));
    assert!(set.is_empty());
    set.insert(Path::line(Vec2::new(FP, FP), Vec2::new(FP, 2 * FP)));
    assert_eq!(set.len(), 1);
}

#[test]
fn path_style_builders_set_flags() {
    let p = Path::line_from_grid(0, 0, 2, 0)
        .with_dashed(true)
        .with_double(true)
        .with_squiggle(true);
    assert!(p.style.dashed);
    assert!(p.style.double);
    assert!(p.style.squiggle);
}

#[test]
fn double_line_renders_two_offset_strokes() {
    let p = Path::line_from_grid(0, 0, 2, 0).with_double(true);
    let strokes = p.to_svg_paths();
    assert_eq!(strokes, vec!["M 8,14 L 24,14", "M 8,18 L 24,18"]);
}

#[test]
fn squiggle_line_renders_waves() {
    let p = Path::line_from_grid(0, 0, 2, 0).with_squiggle(true);
    let strokes = p.to_svg_paths();
    assert_eq!(
        strokes,
        vec!["M 8,16 Q 10,12.8 12,16 Q 14,19.2 16,16 Q 18,12.8 20,16 Q 22,19.2 24,16 "]
    );
}

#[test]
fn curve_serialises_with_control_points() {
    let p = Path::curve(
        Vec2::from_grid(0, 0),
        Vec2::from_grid(2, 1),
        Vec2::new(CELL_X + 883064, CELL_Y),
        Vec2::new(3 * CELL_X, 2 * CELL_Y - 883064),
    );
    assert!(p.is_curved());
    assert!(!p.is_vertical() && !p.is_horizontal() && !p.is_diagonal() && !p.is_back_diagonal());
    assert_eq!(
        p.to_svg_paths(),
        vec!["M 8,16 C 16.83064,16 24,23.16936 24,32"]
    );
}

#[test]
fn proximity_queries_see_endpoints() {
    let mut set = PathSet::new();
    set.insert(Path::line_from_grid(1, 1, 1, 3));
    assert!(set.vertical_passes_through(1, 2));
    assert!(!set.vertical_passes_through(2, 2));
    set.insert(Path::line_from_grid(1, 1, 4, 1));
    assert!(set.horizontal_passes_through(2, 1));
    assert!(!set.horizontal_passes_through(2, 3));
}

#[test]
fn passes_through_is_inclusive_at_the_tolerance() {
    // a path lying exactly half a cell to the side still counts as passing
    // through the cell, while the endpoint queries stay strictly inside
    let mut set = PathSet::new();
    set.insert(Path::line(
        Vec2::new(CELL_X + CELL_X / 2, CELL_Y),
        Vec2::new(CELL_X + CELL_X / 2, 3 * CELL_Y),
    ));
    assert!(set.vertical_passes_through(1, 1));
    let mut set = PathSet::new();
    set.insert(Path::line(
        Vec2::new(CELL_X, 2 * CELL_Y - CELL_Y / 4),
        Vec2::new(3 * CELL_X, 2 * CELL_Y - CELL_Y / 4),
    ));
    assert!(set.horizontal_passes_through(1, 1));
}
