use std::collections::VecDeque;

use maze3d::maze::{Cell, Maze, MazeError};
use maze3d::point::Point;

fn open_cells(m: &Maze) -> Vec<(usize, usize)> {
    let mut out = Vec::new();
    for y in 0..m.height() {
        for x in 0..m.width() {
            if m.cell(x, y) == Cell::Open {
                out.push((x, y));
            }
        }
    }
    out
}

fn reachable_from_start(m: &Maze) -> usize {
    let s = m.get_start();
    let mut seen = vec![false; m.width() * m.height()];
    let mut queue = VecDeque::new();
    seen[s.y * m.width() + s.x] = true;
    queue.push_back((s.x, s.y));
    let mut count = 0;
    while let Some((x, y)) = queue.pop_front() {
        count += 1;
        let mut next = Vec::new();
        if x > 0 {
            next.push((x - 1, y));
        }
        if y > 0 {
            next.push((x, y - 1));
        }
        next.push((x + 1, y));
        next.push((x, y + 1));
        for (nx, ny) in next {
            if m.is_open_at(nx, ny) && !seen[ny * m.width() + nx] {
                seen[ny * m.width() + nx] = true;
                queue.push_back((nx, ny));
            }
        }
    }
    count
}

fn logical_and_passages(m: &Maze) -> (usize, usize) {
    let mut logical = 0;
    let mut passages = 0;
    for (x, y) in open_cells(m) {
        if x % 2 == 1 && y % 2 == 1 {
            logical += 1;
        } else {
            passages += 1;
        }
    }
    (logical, passages)
}

#[test]
fn width_below_minimum_is_rejected() {
    assert_eq!(Maze::generate(2, 5, 42), Err(MazeError::InvalidDimensions));
}

#[test]
fn height_below_minimum_is_rejected() {
    assert_eq!(Maze::generate(5, 1, 42), Err(MazeError::InvalidDimensions));
    assert_eq!(Maze::generate(0, 0, 42), Err(MazeError::InvalidDimensions));
}

#[test]
fn even_dimensions_are_rejected() {
    assert_eq!(Maze::generate(6, 5, 7), Err(MazeError::InvalidDimensions));
    assert_eq!(Maze::generate(5, 8, 7), Err(MazeError::InvalidDimensions));
}

#[test]
fn grid_too_large_to_address_is_rejected() {
    assert_eq!(Maze::generate(usize::MAX, 3, 7), Err(MazeError::InvalidDimensions));
}

#[test]
fn smallest_maze_is_a_single_cell() {
    let m = Maze::generate(3, 3, 0).unwrap();
    assert_eq!(open_cells(&m), vec![(1, 1)]);
    assert_eq!(m.get_start(), Point::new(1, 1));
}

#[test]
fn five_by_five_seed_42_is_connected() {
    let m = Maze::generate(5, 5, 42).unwrap();
    assert_eq!((m.width(), m.height()), (5, 5));
    let open = open_cells(&m);
    // four logical cells joined by three passages
    assert_eq!(open.len(), 7);
    assert_eq!(reachable_from_start(&m), open.len());
    assert_eq!(logical_and_passages(&m), (4, 3));
}

#[test]
fn every_open_cell_is_reachable() {
    for seed in 0..20u64 {
        for (w, h) in [(5, 5), (7, 3), (9, 11), (21, 15)] {
            let m = Maze::generate(w, h, seed).unwrap();
            assert_eq!(reachable_from_start(&m), open_cells(&m).len());
        }
    }
}

#[test]
fn passages_are_one_fewer_than_logical_cells() {
    for seed in [1u64, 2, 3, 42, 1000] {
        let m = Maze::generate(15, 9, seed).unwrap();
        let (logical, passages) = logical_and_passages(&m);
        assert_eq!(passages + 1, logical);
        // the carving visits every logical cell of the grid
        assert_eq!(logical, 7 * 4);
    }
}

#[test]
fn same_seed_gives_same_maze() {
    let a = Maze::generate(11, 9, 12345).unwrap();
    let b = Maze::generate(11, 9, 12345).unwrap();
    assert_eq!(a, b);
    let c = Maze::generate(11, 9, 54321).unwrap();
    assert_eq!(c.width(), 11);
}

#[test]
fn border_and_pillars_stay_walls() {
    let m = Maze::generate(13, 7, 99).unwrap();
    for y in 0..m.height() {
        for x in 0..m.width() {
            let border = x == 0 || y == 0 || x == m.width() - 1 || y == m.height() - 1;
            if border || (x % 2 == 0 && y % 2 == 0) {
                assert_eq!(m.cell(x, y), Cell::Wall, "({}, {})", x, y);
            }
        }
    }
    assert!(!m.is_open_at(13, 1));
    assert!(!m.is_open_at(1, 7));
    assert!(m.is_open_at(1, 1));
}
