use game_of_life::{Cell, Universe};

/// A universe of the given shape with every cell dead.
fn cleared(width: u32, height: u32) -> Universe {
    let mut u = Universe::new(width, height);
    u.die();
    u
}

/// The coordinates of the live cells, in row-major order.
fn alive_coords(u: &Universe) -> Vec<(u32, u32)> {
    let w = u.width();
    let mut out = Vec::new();
    for (i, &c) in u.get_cells().iter().enumerate() {
        if c == Cell::Alive {
            out.push((i as u32 / w, i as u32 % w));
        }
    }
    out
}

fn count_alive(u: &Universe) -> usize {
    u.get_cells().iter().filter(|&&c| c == Cell::Alive).count()
}

#[test]
fn new_has_requested_shape() {
    let u = Universe::new(5, 4);
    assert_eq!(u.width(), 5);
    assert_eq!(u.height(), 4);
    assert_eq!(u.get_cells().len(), 20);
    assert_eq!(u.cells().len(), 20);
}

#[test]
fn clear_makes_all_dead() {
    let mut u = Universe::new(8, 8);
    u.die();
    assert_eq!(u.get_cells().len(), 64);
    assert!(u.get_cells().iter().all(|&c| c == Cell::Dead));
}

#[test]
fn randomize_is_roughly_half_alive() {
    let mut u = Universe::new(1000, 1000);
    let first = count_alive(&u);
    assert!(
        480_000 <= first && first <= 520_000,
        "fraction alive after construction is far from one half: {first}"
    );
    u.reset();
    let second = count_alive(&u);
    assert!(
        480_000 <= second && second <= 520_000,
        "fraction alive after reset is far from one half: {second}"
    );
}

#[test]
fn toggle_flips_exactly_one_cell() {
    let mut u = cleared(4, 4);
    u.toggle_cell(1, 2);
    assert_eq!(alive_coords(&u), vec![(1, 2)]);
    u.toggle_cell(1, 2);
    assert_eq!(alive_coords(&u), vec![]);
}

#[test]
fn toggle_leaves_other_cells_untouched() {
    let mut u = cleared(3, 3);
    u.set_cells(&[(0, 0), (2, 2)]);
    u.toggle_cell(1, 1);
    assert_eq!(alive_coords(&u), vec![(0, 0), (1, 1), (2, 2)]);
}

#[test]
fn golden_spaceship_tick() {
    let mut u = Universe::new(6, 6);
    u.set_width(6);
    u.set_height(6);
    u.set_cells(&[(1, 2), (2, 3), (3, 1), (3, 2), (3, 3)]);
    u.tick(1);
    assert_eq!(alive_coords(&u), vec![(2, 1), (2, 3), (3, 2), (3, 3), (4, 2)]);
}

#[test]
fn multi_step_tick_matches_two_single_steps() {
    let pattern = [(1u32, 2u32), (2, 3), (3, 1), (3, 2), (3, 3)];
    let mut a = cleared(6, 6);
    a.set_cells(&pattern);
    let mut b = cleared(6, 6);
    b.set_cells(&pattern);
    a.tick(2);
    b.tick(1);
    b.tick(1);
    assert_eq!(a.get_cells(), b.get_cells());
}

#[test]
fn tick_is_deterministic() {
    let pattern = [(0u32, 1u32), (1, 2), (2, 0), (2, 1), (2, 2)];
    let mut a = cleared(7, 5);
    a.set_cells(&pattern);
    let mut b = cleared(7, 5);
    b.set_cells(&pattern);
    a.tick(3);
    b.tick(3);
    assert_eq!(a.get_cells(), b.get_cells());
}

#[test]
fn corner_cell_sees_neighbors_across_the_edges() {
    // (0,0), (0,3) and (3,0) are all toroidal neighbors of (3,3) on a
    // 4-by-4 grid, so the dead corner has exactly three live neighbors
    // and is born.
    let mut u = cleared(4, 4);
    u.set_cells(&[(0, 0), (0, 3), (3, 0)]);
    u.tick(1);
    let alive = alive_coords(&u);
    assert!(alive.contains(&(3, 3)), "corner was not born: {alive:?}");
}

#[test]
fn resize_width_clears_to_new_size() {
    let mut u = Universe::new(5, 5);
    u.set_width(3);
    assert_eq!(u.width(), 3);
    assert_eq!(u.height(), 5);
    assert_eq!(u.get_cells().len(), 15);
    assert_eq!(u.render_text(), "...\n...\n...\n...\n...\n");
}

#[test]
fn resize_height_clears_to_new_size() {
    let mut u = Universe::new(3, 4);
    u.set_cells(&[(0, 0), (2, 2)]);
    u.set_height(2);
    assert_eq!(u.width(), 3);
    assert_eq!(u.height(), 2);
    assert_eq!(u.get_cells().len(), 6);
    assert!(u.get_cells().iter().all(|&c| c == Cell::Dead));
}

#[test]
fn render_text_shows_grid() {
    let mut u = cleared(2, 2);
    u.set_cells(&[(0, 1)]);
    assert_eq!(u.render_text(), ".#\n..\n");
}

#[test]
fn dead_grid_stays_dead() {
    let mut u = cleared(5, 5);
    u.tick(3);
    assert!(u.get_cells().iter().all(|&c| c == Cell::Dead));
}

#[test]
fn block_is_stable() {
    let block = [(1u32, 1u32), (1, 2), (2, 1), (2, 2)];
    let mut u = cleared(4, 4);
    u.set_cells(&block);
    u.tick(1);
    assert_eq!(alive_coords(&u), block.to_vec());
}

#[test]
fn lone_cell_dies_of_underpopulation() {
    let mut u = cleared(5, 5);
    u.set_cells(&[(2, 2)]);
    u.tick(1);
    assert_eq!(alive_coords(&u), vec![]);
}

#[test]
fn blinker_oscillates() {
    let mut u = cleared(5, 5);
    u.set_cells(&[(2, 1), (2, 2), (2, 3)]);
    u.tick(1);
    assert_eq!(alive_coords(&u), vec![(1, 2), (2, 2), (3, 2)]);
    u.tick(1);
    assert_eq!(alive_coords(&u), vec![(2, 1), (2, 2), (2, 3)]);
}

#[test]
fn crowded_center_dies_of_overpopulation() {
    let mut u = cleared(5, 5);
    u.set_cells(&[(1, 2), (2, 1), (2, 2), (2, 3), (3, 2)]);
    u.tick(1);
    assert_eq!(
        alive_coords(&u),
        vec![(1, 1), (1, 2), (1, 3), (2, 1), (2, 3), (3, 1), (3, 2), (3, 3)]
    );
}
