//! The public glyph and run predicates on small grids.

use aasvg::chars::{
    gray_level, is_bottom_vertex, is_jump, is_point, is_solid_h_line, is_solid_v_line,
    is_top_vertex, is_vertex, tri_angle,
};
use aasvg::finder::{
    find_paths, is_any_h_line_at, is_double_h_line_at, is_double_v_line_at, is_empty_or_vertex,
    is_solid_b_line_at, is_solid_d_line_at, is_solid_h_line_at, is_solid_v_line_at,
    is_solid_v_line_or_jump_or_point, is_squiggle_h_line_at, on_line,
};
use aasvg::grid::Grid;
use aasvg::path::PathSet;

#[test]
fn glyph_classes() {
    assert!(is_solid_h_line('-') && is_solid_h_line('+'));
    assert!(!is_solid_h_line('|'));
    assert!(is_solid_v_line('|') && is_solid_v_line('+'));
    assert!(is_top_vertex('.') && is_top_vertex(','));
    assert!(is_bottom_vertex('\'') && is_bottom_vertex('`'));
    assert!(is_vertex('+') && !is_top_vertex('+') && !is_bottom_vertex('+'));
    assert!(is_point('*') && is_point('o'));
    assert!(is_jump('(') && is_jump(')'));
    assert!(is_solid_v_line_or_jump_or_point('(') && is_solid_v_line_or_jump_or_point('*'));
    assert_eq!(gray_level('\u{2592}'), 128);
    assert_eq!(tri_angle('\u{25c0}'), 18000000);
}

#[test]
fn run_predicates_on_a_grid() {
    let g = Grid::new("---\n|  \n~~~\n===");
    assert!(is_solid_h_line_at(&g, 1, 0));
    assert!(!is_solid_h_line_at(&g, 1, 1));
    assert!(is_squiggle_h_line_at(&g, 1, 2));
    assert!(is_double_h_line_at(&g, 1, 3));
    assert!(is_any_h_line_at(&g, 1, 0));
    assert!(is_any_h_line_at(&g, 1, 2));
    assert!(!is_any_h_line_at(&g, 1, 1));
    assert!(!is_double_v_line_at(&g, 0, 1));
}

#[test]
fn vertical_run_predicate_needs_continuation() {
    let g = Grid::new("|\n|");
    assert!(is_solid_v_line_at(&g, 0, 0));
    assert!(is_solid_v_line_at(&g, 0, 1));
    let lone = Grid::new("|");
    assert!(!is_solid_v_line_at(&lone, 0, 0));
}

#[test]
fn diagonal_run_predicates() {
    let g = Grid::new("\\ \n \\");
    assert!(is_solid_b_line_at(&g, 0, 0));
    assert!(is_solid_b_line_at(&g, 1, 1));
    let f = Grid::new(" /\n/ ");
    assert!(is_solid_d_line_at(&f, 1, 0));
    assert!(is_solid_d_line_at(&f, 0, 1));
}

#[test]
fn on_line_sees_surrounding_blanks() {
    let g = Grid::new("   \n * \n   ");
    assert!(on_line(&g, 1, 1));
    let h = Grid::new(" a \na*a\n a ");
    assert!(!on_line(&h, 1, 1));
    assert!(is_empty_or_vertex(' '));
    assert!(is_empty_or_vertex('o'));
    assert!(!is_empty_or_vertex('a'));
}

#[test]
fn squiggle_run_keeps_its_style() {
    let mut grid = Grid::new("~~~");
    let mut paths = PathSet::new();
    find_paths(&mut grid, &mut paths);
    assert_eq!(paths.len(), 1);
    assert!(paths.index(0).style.squiggle);
    assert!(paths.index(0).is_horizontal());
}

#[test]
fn double_run_keeps_its_style() {
    let mut grid = Grid::new("===");
    let mut paths = PathSet::new();
    find_paths(&mut grid, &mut paths);
    assert_eq!(paths.len(), 1);
    assert!(paths.index(0).style.double);
    assert!(paths.index(0).is_horizontal());
}

#[test]
fn vertical_stretches_toward_a_dash_above() {
    // the dash above the run pulls the top endpoint half a cell upward
    let mut grid = Grid::new("-  \n|  \n|  ");
    let mut paths = PathSet::new();
    find_paths(&mut grid, &mut paths);
    let mut found = false;
    for i in 0..paths.len() {
        let p = paths.index(i);
        if p.is_vertical() {
            let top = if p.a.y < p.b.y { p.a } else { p.b };
            // cell row 1 starts at 32; half a cell up is 24
            assert_eq!(top.y, 2400000);
            found = true;
        }
    }
    assert!(found);
}
