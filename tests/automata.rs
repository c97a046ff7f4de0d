use color_art::Color;
use lifelike::board::{add_and_cast, contains_u8, contains_usize, moore_offset, Unsupported};
use lifelike::color::bool_to_color;
use lifelike::lifelike::LifeLikeAutomaton;
use lifelike::lifelikecolor::{Cell, LifeLikeColorAutomaton};

fn board_from(rows: usize, cols: usize, live: &[(usize, usize)]) -> Vec<bool> {
    let mut cells = vec![false; rows * cols];
    for &(r, c) in live {
        cells[r * cols + c] = true;
    }
    cells
}

fn conway(rows: usize, cols: usize, live: &[(usize, usize)]) -> LifeLikeAutomaton {
    LifeLikeAutomaton::new(cols, rows, vec![3], vec![2, 3], board_from(rows, cols, live))
}

fn live_positions(a: &LifeLikeAutomaton) -> Vec<(usize, usize)> {
    a.colors().into_iter().map(|(p, _)| p).collect()
}

fn hue(name: &str) -> Color {
    Color::from_name(name).unwrap()
}

#[test]
fn corner_neighbor_count() {
    let mut a = conway(4, 4, &[]);
    assert_eq!(a.count_live(0, 0), 0);
    a.draw(0, 1);
    assert_eq!(a.count_live(0, 0), 1);
    a.draw(1, 0);
    a.draw(1, 1);
    assert_eq!(a.count_live(0, 0), 3);
    a.draw(3, 3);
    a.draw(2, 2);
    assert_eq!(a.count_live(0, 0), 3);
}

#[test]
fn neighbor_count_at_far_corner_and_edge() {
    let a = conway(3, 3, &[(0, 0), (0, 1), (0, 2), (1, 0), (1, 2), (2, 0), (2, 1), (2, 2)]);
    assert_eq!(a.count_live(1, 1), 8);
    assert_eq!(a.count_live(2, 2), 2);
    assert_eq!(a.count_live(0, 1), 4);
}

#[test]
fn stasis_block() {
    let block = vec![(1, 1), (1, 2), (2, 1), (2, 2)];
    let mut a = conway(4, 4, &block);
    assert_eq!(live_positions(&a), block);
    a.step();
    assert_eq!(live_positions(&a), block);
    a.step();
    assert_eq!(live_positions(&a), block);
}

#[test]
fn glider_translation() {
    let glider = [(0, 1), (1, 2), (2, 0), (2, 1), (2, 2)];
    let mut a = conway(8, 8, &glider);
    for _ in 0..4 {
        a.step();
    }
    let moved: Vec<(usize, usize)> = glider.iter().map(|&(r, c)| (r + 1, c + 1)).collect();
    let mut expected = moved.clone();
    expected.sort();
    assert_eq!(live_positions(&a), expected);
}

#[test]
fn blinker_oscillates() {
    let mut a = conway(5, 5, &[(2, 1), (2, 2), (2, 3)]);
    a.step();
    assert_eq!(live_positions(&a), vec![(1, 2), (2, 2), (3, 2)]);
    a.step();
    assert_eq!(live_positions(&a), vec![(2, 1), (2, 2), (2, 3)]);
}

#[test]
fn lone_cell_dies() {
    let mut a = conway(3, 3, &[(1, 1)]);
    a.step();
    assert!(live_positions(&a).is_empty());
}

#[test]
fn draw_out_of_range_changes_nothing() {
    let mut a = conway(3, 4, &[(0, 0), (2, 3)]);
    let before = live_positions(&a);
    a.draw(3, 0);
    a.draw(0, 4);
    a.draw(usize::MAX, usize::MAX);
    assert_eq!(live_positions(&a), before);
    assert_eq!(a.size(), (3, 4));
}

#[test]
fn draw_forces_cell_alive() {
    let mut a = conway(3, 3, &[(1, 1)]);
    a.draw(1, 1);
    assert_eq!(live_positions(&a), vec![(1, 1)]);
    a.draw(0, 2);
    assert_eq!(live_positions(&a), vec![(0, 2), (1, 1)]);
    a.draw(0, 2);
    assert_eq!(live_positions(&a), vec![(0, 2), (1, 1)]);
}

#[test]
fn identical_runs_agree() {
    let cells = board_from(6, 7, &[(0, 0), (1, 2), (2, 2), (3, 3), (3, 4), (5, 6), (4, 1)]);
    let mut a = LifeLikeAutomaton::new(7, 6, vec![3, 6], vec![2, 3], cells.clone());
    let mut b = LifeLikeAutomaton::new(7, 6, vec![3, 6], vec![2, 3], cells);
    for _ in 0..10 {
        a.step();
        b.step();
        assert_eq!(live_positions(&a), live_positions(&b));
    }
}

#[test]
fn size_is_rows_then_cols() {
    let a = LifeLikeAutomaton::new(5, 2, vec![3], vec![2, 3], vec![false; 10]);
    assert_eq!(a.size(), (2, 5));
    let empty = LifeLikeAutomaton::new(0, 0, vec![3], vec![2, 3], vec![]);
    assert_eq!(empty.size(), (0, 0));
    let flat = LifeLikeAutomaton::new(4, 0, vec![3], vec![2, 3], vec![]);
    assert_eq!(flat.size(), (0, 0));
}

#[test]
fn new_reads_cells_row_by_row() {
    let a = LifeLikeAutomaton::new(3, 2, vec![3], vec![2, 3], vec![true, false, false, false, false, true]);
    assert_eq!(live_positions(&a), vec![(0, 0), (1, 2)]);
}

#[test]
fn resize_is_unsupported() {
    let mut a = conway(2, 2, &[(0, 0)]);
    assert_eq!(a.resize(), Err(Unsupported::Resize));
    assert_eq!(a.size(), (2, 2));
    assert_eq!(live_positions(&a), vec![(0, 0)]);
}

#[test]
fn live_cells_are_white() {
    let a = conway(2, 2, &[(0, 1), (1, 0)]);
    let colors = a.colors();
    assert_eq!(colors.len(), 2);
    for (_, c) in colors {
        assert_eq!(c, hue("white"));
    }
}

#[test]
fn bool_to_color_names() {
    assert_eq!(bool_to_color(true), hue("white"));
    assert_eq!(bool_to_color(false), hue("black"));
    assert_ne!(bool_to_color(true), bool_to_color(false));
}

#[test]
fn add_and_cast_bounds() {
    assert_eq!(add_and_cast(0, -1), None);
    assert_eq!(add_and_cast(5, -1), Some(4));
    assert_eq!(add_and_cast(5, 1), Some(6));
    assert_eq!(add_and_cast(usize::MAX, 1), None);
    assert_eq!(add_and_cast(usize::MAX, 0), Some(usize::MAX));
    assert_eq!(add_and_cast(200, -128), Some(72));
}

#[test]
fn moore_offsets_cover_neighborhood() {
    let offsets: Vec<(i8, i8)> = (0..8).map(moore_offset).collect();
    assert_eq!(offsets, vec![(-1, -1), (-1, 0), (-1, 1), (0, -1), (0, 1), (1, -1), (1, 0), (1, 1)]);
}

#[test]
fn rule_lists_membership() {
    assert!(contains_u8(&vec![2, 3], 3));
    assert!(!contains_u8(&vec![2, 3], 4));
    assert!(!contains_u8(&vec![], 0));
    assert!(contains_usize(&vec![0, 8], 8));
    assert!(!contains_usize(&vec![1], 2));
}

fn colored(rows: usize, cols: usize, birth: Vec<usize>, live: &[((usize, usize), Color)]) -> LifeLikeColorAutomaton {
    let mut cells = vec![Cell::Dead; rows * cols];
    for &((r, c), color) in live {
        cells[r * cols + c] = Cell::Alive(color);
    }
    LifeLikeColorAutomaton::new(cols, rows, birth, vec![2, 3], cells)
}

#[test]
fn colored_birth_mixes_live_parents() {
    let mut a = colored(3, 3, vec![3], &[((0, 0), hue("red")), ((0, 1), hue("lime")), ((0, 2), hue("blue"))]);
    let parents = vec![hue("red"), hue("lime"), hue("blue")];
    a.step(|v: Vec<Color>| {
        assert_eq!(v, parents);
        hue("white")
    });
    let colors = a.colors();
    assert_eq!(colors, vec![((0, 1), hue("lime")), ((1, 1), hue("white"))]);
}

#[test]
fn colored_survivor_keeps_color() {
    let block = [((0, 0), hue("red")), ((0, 1), hue("lime")), ((1, 0), hue("blue")), ((1, 1), hue("yellow"))];
    let mut a = colored(3, 3, vec![3], &block);
    a.step(|_: Vec<Color>| panic!("no cell is born next to a still block"));
    assert_eq!(a.colors(), block.to_vec());
}

#[test]
fn colored_zero_neighbor_birth_is_red() {
    let mut a = colored(2, 2, vec![0], &[]);
    a.step(|_: Vec<Color>| panic!("the mixer is never handed an empty set"));
    let red = hue("red");
    assert_eq!(a.colors(), vec![((0, 0), red), ((0, 1), red), ((1, 0), red), ((1, 1), red)]);
    assert_eq!(a.size(), (2, 2));
}

#[test]
fn colored_and_binary_live_sets_agree_with_zero_birth() {
    let mut a = colored(3, 3, vec![0, 3], &[((0, 0), hue("blue"))]);
    let mut b = LifeLikeAutomaton::new(3, 3, vec![0, 3], vec![2, 3], board_from(3, 3, &[(0, 0)]));
    for _ in 0..3 {
        a.step(|v: Vec<Color>| v[0]);
        b.step();
        let colored_live: Vec<(usize, usize)> = a.colors().into_iter().map(|(p, _)| p).collect();
        assert_eq!(colored_live, live_positions(&b));
    }
}

#[test]
fn colored_runs_agree() {
    let start = [((0, 1), hue("red")), ((1, 2), hue("lime")), ((2, 0), hue("blue")), ((2, 1), hue("yellow")), ((2, 2), hue("white"))];
    let mut a = colored(6, 6, vec![3], &start);
    let mut b = colored(6, 6, vec![3], &start);
    for _ in 0..6 {
        a.step(|v: Vec<Color>| v[v.len() - 1]);
        b.step(|v: Vec<Color>| v[v.len() - 1]);
        assert_eq!(a.colors(), b.colors());
    }
}

#[test]
fn colored_neighbors_in_offset_order() {
    let a = colored(3, 3, vec![3], &[((0, 0), hue("red")), ((2, 2), hue("blue"))]);
    let n = a.get_neighbors(1, 1);
    assert_eq!(n.len(), 8);
    assert!(matches!(n[0], Cell::Alive(c) if c == hue("red")));
    assert!(matches!(n[7], Cell::Alive(c) if c == hue("blue")));
    assert!(n[1..7].iter().all(|c| matches!(c, Cell::Dead)));
    let corner = a.get_neighbors(0, 0);
    assert_eq!(corner.len(), 3);
    assert!(corner.iter().all(|c| matches!(c, Cell::Dead)));
    let edge = a.get_neighbors(2, 1);
    assert_eq!(edge.len(), 5);
    assert!(matches!(edge[4], Cell::Alive(c) if c == hue("blue")));
}

#[test]
fn neighbors_of_positions_off_the_board() {
    let a = colored(3, 3, vec![3], &[((2, 2), hue("blue"))]);
    let below = a.get_neighbors(3, 3);
    assert_eq!(below.len(), 1);
    assert!(matches!(below[0], Cell::Alive(c) if c == hue("blue")));
    assert!(a.get_neighbors(usize::MAX, usize::MAX).is_empty());
    assert!(a.get_neighbors(10, 0).is_empty());
    let b = conway(3, 3, &[(2, 2), (2, 1)]);
    assert_eq!(b.count_live(3, 3), 1);
    assert_eq!(b.count_live(3, 2), 2);
    assert_eq!(b.count_live(usize::MAX, 0), 0);
}

#[test]
fn cell_zero_neighbor_birth() {
    let born = Cell::Dead.from_neighbors(vec![Cell::Dead, Cell::Dead, Cell::Dead], &vec![2, 3], &vec![0], &|_: Vec<Color>| {
        panic!("the mixer is never handed an empty set")
    });
    assert!(matches!(born, Cell::Alive(c) if c == hue("red")));
    let stays = Cell::Dead.from_neighbors(vec![], &vec![2, 3], &vec![3], &|_: Vec<Color>| hue("white"));
    assert!(matches!(stays, Cell::Dead));
}

#[test]
fn colored_draw_and_bounds() {
    let mut a = colored(2, 3, vec![3], &[((1, 2), hue("red"))]);
    a.draw(0, 0, hue("blue"));
    a.draw(1, 2, hue("lime"));
    a.draw(2, 0, hue("white"));
    a.draw(0, 3, hue("white"));
    assert_eq!(a.colors(), vec![((0, 0), hue("blue")), ((1, 2), hue("lime"))]);
    assert_eq!(a.resize(), Err(Unsupported::Resize));
    assert_eq!(a.size(), (2, 3));
}

#[test]
fn cell_from_neighbors_rules() {
    let red = hue("red");
    let three = vec![Cell::Alive(red), Cell::Alive(red), Cell::Dead, Cell::Alive(red)];
    let born = Cell::Dead.from_neighbors(three.clone(), &vec![2, 3], &vec![3], &|v: Vec<Color>| {
        assert_eq!(v.len(), 3);
        hue("black")
    });
    assert!(matches!(born, Cell::Alive(c) if c == hue("black")));
    let kept = Cell::Alive(hue("blue")).from_neighbors(three.clone(), &vec![3], &vec![3], &|_: Vec<Color>| hue("white"));
    assert!(matches!(kept, Cell::Alive(c) if c == hue("blue")));
    let died = Cell::Alive(red).from_neighbors(three, &vec![2], &vec![3], &|_: Vec<Color>| hue("white"));
    assert!(matches!(died, Cell::Dead));
}
