//! The line and decoration finders on small grids.

use aasvg::decoration::{DecorationSet, DecorationType};
use aasvg::finder::{find_decorations, find_paths};
use aasvg::grid::Grid;
use aasvg::path::{PathSet, CELL_X, CELL_Y};

#[test]
fn test_find_horizontal_line() {
    let mut grid = Grid::new("---");
    let mut paths = PathSet::new();
    find_paths(&mut grid, &mut paths);
    assert_eq!(paths.len(), 1);
}

#[test]
fn test_find_vertical_line() {
    let mut grid = Grid::new("|\n|\n|");
    let mut paths = PathSet::new();
    find_paths(&mut grid, &mut paths);
    assert_eq!(paths.len(), 1);
}

#[test]
fn test_find_box() {
    let mut grid = Grid::new("+--+\n|  |\n+--+");
    let mut paths = PathSet::new();
    find_paths(&mut grid, &mut paths);
    // Should find 2 horizontal lines and 2 vertical lines
    assert!(paths.len() >= 4);
}

#[test]
fn test_find_arrow() {
    let mut grid = Grid::new("-->");
    let mut paths = PathSet::new();
    let mut decorations = DecorationSet::new();
    find_paths(&mut grid, &mut paths);
    find_decorations(&mut grid, &paths, &mut decorations);
    assert_eq!(decorations.len(), 1);
}

#[test]
fn test_find_diagonal() {
    let mut grid = Grid::new("\\\n \\");
    let mut paths = PathSet::new();
    find_paths(&mut grid, &mut paths);
    assert!(paths.len() >= 1);
}

#[test]
fn three_dashes_span_the_outer_cells() {
    let mut grid = Grid::new("---");
    let mut paths = PathSet::new();
    find_paths(&mut grid, &mut paths);
    assert_eq!(paths.len(), 1);
    let p = paths.index(0);
    assert!(p.is_horizontal());
    assert_eq!((p.a.x, p.a.y), (CELL_X, CELL_Y));
    assert_eq!((p.b.x, p.b.y), (3 * CELL_X, CELL_Y));
}

#[test]
fn two_dashes_are_rejected() {
    let mut grid = Grid::new("--");
    let mut paths = PathSet::new();
    find_paths(&mut grid, &mut paths);
    assert_eq!(paths.len(), 0);
}

#[test]
fn box_corners_coincide() {
    let mut grid = Grid::new("+--+\n|  |\n+--+");
    let mut paths = PathSet::new();
    find_paths(&mut grid, &mut paths);
    assert!(paths.len() >= 4);
    let mut horizontals: usize = 0;
    let mut verticals: usize = 0;
    for i in 0..paths.len() {
        let p = paths.index(i);
        if p.is_horizontal() {
            horizontals += 1;
        }
        if p.is_vertical() {
            verticals += 1;
        }
    }
    assert!(horizontals >= 2 && verticals >= 2);
    // every corner has both a horizontal and a vertical path ending on it
    for &(cx, cy) in &[(0, 0), (3, 0), (0, 2), (3, 2)] {
        let mut h_end = false;
        let mut v_end = false;
        for i in 0..paths.len() {
            let p = paths.index(i);
            if p.ends_at(cx, cy) {
                if p.is_horizontal() {
                    h_end = true;
                }
                if p.is_vertical() {
                    v_end = true;
                }
            }
        }
        assert!(h_end && v_end);
    }
}

#[test]
fn arrow_line_gets_one_path_and_one_arrow() {
    let mut grid = Grid::new("-->");
    let mut paths = PathSet::new();
    let mut decorations = DecorationSet::new();
    find_paths(&mut grid, &mut paths);
    find_decorations(&mut grid, &paths, &mut decorations);
    assert_eq!(paths.len(), 1);
    assert!(paths.index(0).is_horizontal());
    assert_eq!(decorations.len(), 1);
    let d = decorations.index(0);
    assert_eq!(d.kind, DecorationType::Arrow);
    assert_eq!(d.angle, 0);
    assert_eq!((d.pos.x, d.pos.y), (3 * CELL_X, CELL_Y));
}

#[test]
fn jump_breaks_the_vertical_run() {
    let mut grid = Grid::new("|\n(\n|");
    let mut paths = PathSet::new();
    let mut decorations = DecorationSet::new();
    find_paths(&mut grid, &mut paths);
    find_decorations(&mut grid, &paths, &mut decorations);
    assert_eq!(decorations.len(), 1);
    let d = decorations.index(0);
    assert_eq!(d.kind, DecorationType::Jump('('));
    assert_eq!((d.pos.x, d.pos.y), (CELL_X, 2 * CELL_Y));
    // no single path spans continuously through the jump cell
    assert!(!paths.vertical_passes_through(0, 1));
}

#[test]
fn vertex_only_runs_make_no_diagonal() {
    let mut grid = Grid::new("+  \n + \n  +");
    let mut paths = PathSet::new();
    find_paths(&mut grid, &mut paths);
    for i in 0..paths.len() {
        let p = paths.index(i);
        assert!(!p.is_diagonal() && !p.is_back_diagonal());
    }
}

#[test]
fn diagonal_needs_a_literal_stroke() {
    let mut grid = Grid::new("\\  \n \\ \n  \\");
    let mut paths = PathSet::new();
    find_paths(&mut grid, &mut paths);
    assert_eq!(paths.len(), 1);
    assert!(paths.index(0).is_back_diagonal());
}

#[test]
fn forward_diagonal_is_oriented_up_right() {
    let mut grid = Grid::new("  /\n / \n/  ");
    let mut paths = PathSet::new();
    find_paths(&mut grid, &mut paths);
    assert_eq!(paths.len(), 1);
    assert!(paths.index(0).is_diagonal());
}

#[test]
fn curved_corner_becomes_a_cubic() {
    let mut grid = Grid::new("--.\n   |");
    let mut paths = PathSet::new();
    find_paths(&mut grid, &mut paths);
    let mut curves: usize = 0;
    for i in 0..paths.len() {
        if paths.index(i).is_curved() {
            curves += 1;
        }
    }
    assert!(curves >= 1);
}

#[test]
fn underscore_run_sits_low() {
    let mut grid = Grid::new("___");
    let mut paths = PathSet::new();
    find_paths(&mut grid, &mut paths);
    assert_eq!(paths.len(), 1);
    let p = paths.index(0);
    assert!(p.is_horizontal());
    // anchored at the bottom of the cell row
    assert_eq!(p.a.y, CELL_Y + CELL_Y / 2);
}

#[test]
fn lone_underscore_beside_letters_is_text() {
    let mut grid = Grid::new("a_b");
    let mut paths = PathSet::new();
    find_paths(&mut grid, &mut paths);
    assert_eq!(paths.len(), 0);
}

#[test]
fn double_vertical_keeps_double_style() {
    let mut grid = Grid::new("\u{2551}\n\u{2551}\n\u{2551}");
    let mut paths = PathSet::new();
    find_paths(&mut grid, &mut paths);
    assert_eq!(paths.len(), 1);
    let p = paths.index(0);
    assert!(p.is_vertical());
    assert!(p.style.double);
}

#[test]
fn empty_input_finds_nothing() {
    let mut grid = Grid::new("");
    let mut paths = PathSet::new();
    let mut decorations = DecorationSet::new();
    find_paths(&mut grid, &mut paths);
    find_decorations(&mut grid, &paths, &mut decorations);
    assert!(paths.is_empty());
    assert!(decorations.is_empty());
}

#[test]
fn gray_and_triangle_glyphs_become_decorations() {
    let mut grid = Grid::new("\u{2591}\u{25b6}");
    let mut paths = PathSet::new();
    let mut decorations = DecorationSet::new();
    find_paths(&mut grid, &mut paths);
    find_decorations(&mut grid, &paths, &mut decorations);
    assert_eq!(decorations.len(), 2);
    assert_eq!(decorations.index(0).kind, DecorationType::Gray(192));
    assert_eq!(decorations.index(1).kind, DecorationType::Triangle);
}

#[test]
fn isolated_point_glyph_needs_a_line() {
    let mut grid = Grid::new("a*b");
    let mut paths = PathSet::new();
    let mut decorations = DecorationSet::new();
    find_paths(&mut grid, &mut paths);
    find_decorations(&mut grid, &paths, &mut decorations);
    assert!(decorations.is_empty());

    let mut grid = Grid::new("--*");
    let mut paths = PathSet::new();
    let mut decorations = DecorationSet::new();
    find_paths(&mut grid, &mut paths);
    find_decorations(&mut grid, &paths, &mut decorations);
    let mut found = false;
    for i in 0..decorations.len() {
        if decorations.index(i).kind == DecorationType::ClosedPoint {
            found = true;
        }
    }
    assert!(found);
}
