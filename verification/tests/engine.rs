use game_of_life::{Cell, Universe};

/// A `w` by `h` all-Dead universe.
fn blank(w: u32, h: u32) -> Universe {
    let mut u = Universe::new();
    u.set_width(w);
    u.set_height(h);
    u
}

#[test]
fn new_is_64_by_64_with_seeded_pattern() {
    let u = Universe::new();
    assert_eq!(u.width(), 64);
    assert_eq!(u.height(), 64);
    let cells = u.get_cells();
    assert_eq!(cells.len(), 64 * 64);
    for i in 0..cells.len() {
        let expected = if i % 2 == 0 || i % 7 == 0 {
            Cell::Alive
        } else {
            Cell::Dead
        };
        assert_eq!(cells[i], expected);
    }
}

#[test]
fn neighbor_count_is_at_most_eight() {
    let mut u = blank(3, 3);
    let all: Vec<(u32, u32)> = (0..3u32)
        .flat_map(|r| (0..3u32).map(move |c| (r, c)))
        .collect();
    u.set_cells(&all);
    assert_eq!(u.live_neighbor_count(1, 1), 8);
    assert_eq!(u.live_neighbor_count(0, 0), 8);
}

#[test]
fn neighbor_count_ignores_cells_outside_the_neighborhood() {
    let mut near = blank(5, 5);
    near.set_cells(&[(0, 1), (2, 2)]);
    let base = near.live_neighbor_count(1, 1);
    assert_eq!(base, 2);
    // a far-away live cell changes nothing
    near.set_cells(&[(4, 4)]);
    assert_eq!(near.live_neighbor_count(1, 1), base);
}

#[test]
fn corner_neighbor_count_wraps_to_opposite_corner() {
    let mut u = blank(6, 4);
    u.set_cells(&[(3, 5)]);
    assert_eq!(u.live_neighbor_count(0, 0), 1);
}

#[test]
fn edge_neighbor_counts_wrap_on_each_axis() {
    let mut u = blank(6, 4);
    u.set_cells(&[(3, 0)]);
    assert_eq!(u.live_neighbor_count(0, 0), 1);
    let mut v = blank(6, 4);
    v.set_cells(&[(0, 5)]);
    assert_eq!(v.live_neighbor_count(0, 0), 1);
}

#[test]
fn toggle_cell_flips_only_the_target() {
    let mut u = blank(4, 4);
    u.toggle_cell(2, 1);
    let cells = u.get_cells();
    for r in 0..4u32 {
        for c in 0..4u32 {
            let expected = if (r, c) == (2, 1) { Cell::Alive } else { Cell::Dead };
            assert_eq!(cells[(r * 4 + c) as usize], expected);
        }
    }
    u.toggle_cell(2, 1);
    assert!(u.get_cells().iter().all(|&c| c == Cell::Dead));
}

#[test]
fn set_cells_round_trip() {
    let mut u = blank(8, 8);
    u.set_cells(&[(3, 4)]);
    let cells = u.get_cells();
    for r in 0..8u32 {
        for c in 0..8u32 {
            let expected = if (r, c) == (3, 4) { Cell::Alive } else { Cell::Dead };
            assert_eq!(cells[(r * 8 + c) as usize], expected);
        }
    }
}

#[test]
fn set_cells_duplicates_are_harmless() {
    let mut u = blank(4, 4);
    u.set_cells(&[(1, 1), (1, 1), (1, 1)]);
    let alive = u.get_cells().iter().filter(|&&c| c == Cell::Alive).count();
    assert_eq!(alive, 1);
}

#[test]
fn set_width_resets_all_cells_dead() {
    let mut u = Universe::new();
    u.set_width(10);
    assert_eq!(u.width(), 10);
    assert_eq!(u.height(), 64);
    let cells = u.get_cells();
    assert_eq!(cells.len(), 10 * 64);
    assert!(cells.iter().all(|&c| c == Cell::Dead));
}

#[test]
fn set_height_resets_all_cells_dead() {
    let mut u = Universe::new();
    u.set_height(5);
    assert_eq!(u.width(), 64);
    assert_eq!(u.height(), 5);
    let cells = u.get_cells();
    assert_eq!(cells.len(), 64 * 5);
    assert!(cells.iter().all(|&c| c == Cell::Dead));
}

#[test]
fn clean_kills_everything_and_keeps_dimensions() {
    let mut u = Universe::new();
    u.clean();
    assert_eq!(u.width(), 64);
    assert_eq!(u.height(), 64);
    assert_eq!(u.get_cells().len(), 64 * 64);
    assert!(u.get_cells().iter().all(|&c| c == Cell::Dead));
}

#[test]
fn cells_view_matches_get_cells() {
    let mut u = blank(3, 3);
    u.set_cells(&[(0, 2), (2, 0)]);
    assert_eq!(u.cells(), u.get_cells());
    assert_eq!(u.cells().len(), 9);
}

#[test]
fn lone_cell_dies_of_underpopulation() {
    let mut u = blank(5, 5);
    u.set_cells(&[(2, 2)]);
    u.tick();
    assert!(u.get_cells().iter().all(|&c| c == Cell::Dead));
}

#[test]
fn full_grid_dies_of_overpopulation() {
    let mut u = blank(3, 3);
    let all: Vec<(u32, u32)> = (0..3u32)
        .flat_map(|r| (0..3u32).map(move |c| (r, c)))
        .collect();
    u.set_cells(&all);
    u.tick();
    assert!(u.get_cells().iter().all(|&c| c == Cell::Dead));
}

#[test]
fn dead_cell_with_three_neighbors_is_born() {
    let mut u = blank(5, 5);
    u.set_cells(&[(1, 1), (1, 3), (3, 2)]);
    u.tick();
    let cells = u.get_cells();
    assert_eq!(cells[(2 * 5 + 2) as usize], Cell::Alive);
}

#[test]
fn smallest_grid_single_cell_dies() {
    let mut u = blank(1, 1);
    u.set_cells(&[(0, 0)]);
    u.tick();
    assert_eq!(u.get_cells()[0], Cell::Dead);
}
