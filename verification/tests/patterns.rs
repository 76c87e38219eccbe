use game_of_life::{Cell, Universe};

/// A `w` by `h` all-Dead universe.
fn blank(w: u32, h: u32) -> Universe {
    let mut u = Universe::new();
    u.set_width(w);
    u.set_height(h);
    u
}

/// The set of live coordinates of `u`, as `(row, col)` pairs.
fn live_cells(u: &Universe) -> Vec<(u32, u32)> {
    let w = u.width();
    let h = u.height();
    let cells = u.get_cells();
    let mut live = Vec::new();
    for r in 0..h {
        for c in 0..w {
            if cells[(r * w + c) as usize] == Cell::Alive {
                live.push((r, c));
            }
        }
    }
    live
}

#[test]
fn glider_stamps_five_cells_at_documented_offsets() {
    let mut u = blank(10, 10);
    u.create_glider(5, 5);
    let mut live = live_cells(&u);
    live.sort();
    let mut expected = vec![(4, 4), (4, 5), (5, 5), (5, 6), (6, 4)];
    expected.sort();
    assert_eq!(live, expected);
}

#[test]
fn glider_at_the_corner_wraps_on_both_axes() {
    let mut u = blank(10, 10);
    u.create_glider(0, 0);
    let mut live = live_cells(&u);
    live.sort();
    let mut expected = vec![(9, 9), (9, 0), (0, 0), (0, 1), (1, 9)];
    expected.sort();
    assert_eq!(live, expected);
}

#[test]
fn spaceship_stamps_nine_cells_at_documented_offsets() {
    let mut u = blank(10, 10);
    u.create_spaceship(5, 5);
    let mut live = live_cells(&u);
    live.sort();
    let mut expected = vec![
        (3, 4),
        (3, 5),
        (3, 6),
        (3, 7),
        (4, 3),
        (4, 7),
        (5, 7),
        (6, 3),
        (6, 6),
    ];
    expected.sort();
    assert_eq!(live, expected);
}

#[test]
fn spaceship_near_the_corner_wraps_on_both_axes() {
    let mut u = blank(10, 10);
    u.create_spaceship(1, 1);
    let mut live = live_cells(&u);
    live.sort();
    let mut expected = vec![
        (9, 0),
        (9, 1),
        (9, 2),
        (9, 3),
        (0, 9),
        (0, 3),
        (1, 3),
        (2, 9),
        (2, 2),
    ];
    expected.sort();
    assert_eq!(live, expected);
}

#[test]
fn block_is_a_still_life() {
    let mut u = blank(5, 5);
    u.set_cells(&[(1, 1), (1, 2), (2, 1), (2, 2)]);
    let before = u.get_cells().to_vec();
    for _ in 0..4 {
        u.tick();
        assert_eq!(u.get_cells(), &before[..]);
    }
}

#[test]
fn blinker_oscillates_with_period_two() {
    let mut u = blank(5, 5);
    u.set_cells(&[(2, 1), (2, 2), (2, 3)]);
    let horizontal = u.get_cells().to_vec();
    u.tick();
    let mut live = live_cells(&u);
    live.sort();
    assert_eq!(live, vec![(1, 2), (2, 2), (3, 2)]);
    u.tick();
    assert_eq!(u.get_cells(), &horizontal[..]);
}

#[test]
fn tick_reads_only_the_old_generation() {
    // A naive in-place update would let the blinker's first rewritten
    // cells corrupt its neighbors' counts; the synchronous rule turns
    // the horizontal line into the vertical one exactly.
    let mut u = blank(5, 5);
    u.set_cells(&[(2, 1), (2, 2), (2, 3)]);
    u.tick();
    let cells = u.get_cells();
    for r in 0..5u32 {
        for c in 0..5u32 {
            let expected = if c == 2 && (1..=3).contains(&r) {
                Cell::Alive
            } else {
                Cell::Dead
            };
            assert_eq!(cells[(r * 5 + c) as usize], expected);
        }
    }
}

#[test]
fn render_draws_one_glyph_per_cell_and_one_line_per_row() {
    let mut u = blank(2, 2);
    u.set_cells(&[(0, 0)]);
    let text = u.render();
    assert_eq!(text, "\u{25fc}\u{25fb}\n\u{25fb}\u{25fb}\n");
}

#[test]
fn render_is_row_major_on_an_asymmetric_grid() {
    let mut u = blank(3, 2);
    u.set_cells(&[(1, 0)]);
    let text = u.render();
    assert_eq!(
        text,
        "\u{25fb}\u{25fb}\u{25fb}\n\u{25fc}\u{25fb}\u{25fb}\n"
    );
}

#[test]
fn render_of_new_universe_has_one_line_per_row() {
    let u = Universe::new();
    let text = u.render();
    let lines: Vec<&str> = text.lines().collect();
    assert_eq!(lines.len(), 64);
    for line in lines {
        assert_eq!(line.chars().count(), 64);
    }
}
