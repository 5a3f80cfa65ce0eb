//! Grid storage: parsing, padding, the sentinel, and the used-mask.

use aasvg::grid::Grid;

#[test]
fn grid_pads_ragged_rows() {
    let g = Grid::new("ab\ncdef\ng");
    assert_eq!(g.width, 4);
    assert_eq!(g.height, 3);
    assert_eq!(g.get(0, 0), 'a');
    assert_eq!(g.get(3, 1), 'f');
    assert_eq!(g.get(1, 2), ' ');
    assert_eq!(g.get(3, 0), ' ');
}

#[test]
fn out_of_range_reads_the_sentinel() {
    let g = Grid::new("x");
    assert_eq!(g.get(-1, 0), ' ');
    assert_eq!(g.get(0, -1), ' ');
    assert_eq!(g.get(1, 0), ' ');
    assert_eq!(g.get(0, 1), ' ');
}

#[test]
fn used_mask_starts_clear_and_sticks() {
    let mut g = Grid::new("ab");
    assert!(!g.is_used(0, 0));
    g.set_used(0, 0);
    assert!(g.is_used(0, 0));
    assert!(!g.is_used(1, 0));
    // marking outside the grid is a no-op
    g.set_used(-1, 5);
    assert!(!g.is_used(-1, 5));
}

#[test]
fn empty_text_is_an_empty_grid() {
    let g = Grid::new("");
    assert_eq!(g.width, 0);
    assert_eq!(g.height, 1);
}

#[test]
fn text_runs_are_found_and_extracted() {
    let g = Grid::new(" one  two");
    let start = g.text_start(0, 0);
    assert_eq!(start, Some(1));
    let (txt, n) = g.extract_text(1, 0, 2);
    assert_eq!(txt, "one");
    assert_eq!(n, 3);
    let start = g.text_start(1 + n as i32, 0);
    assert_eq!(start, Some(6));
    let (txt, _) = g.extract_text(6, 0, 2);
    assert_eq!(txt, "two");
}

#[test]
fn used_cells_are_not_text() {
    let mut g = Grid::new("abc");
    g.set_used(0, 0);
    assert_eq!(g.text_start(0, 0), Some(1));
    let (txt, _) = g.extract_text(1, 0, 2);
    assert_eq!(txt, "bc");
}
