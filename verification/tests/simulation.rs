use game_of_life::cell::Cell;
use game_of_life::changes::ChangeListUniverse;
use game_of_life::diagnostic::DiagnosticUniverse;
use game_of_life::grid::{live_neighbor_count, next_cell_value};
use game_of_life::universe::Universe;

fn seeded_alive(i: u32) -> bool {
    i % 2 == 0 || i % 7 == 0
}

#[test]
fn seeding_matches_parity_rule() {
    let universe = Universe::new(8);
    assert_eq!(universe.width(), 8);
    assert_eq!(universe.height(), 8);
    assert_eq!(universe.cell(0), Cell::Alive);
    assert_eq!(universe.cell(7), Cell::Alive);
    assert_eq!(universe.cell(9), Cell::Dead);
    for i in 0u32..64 {
        let expected = if seeded_alive(i) { Cell::Alive } else { Cell::Dead };
        assert_eq!(universe.cell(i as usize), expected);
    }
}

#[test]
fn default_universe_is_64_by_64() {
    let universe = Universe::default();
    assert_eq!(universe.width(), 64);
    assert_eq!(universe.height(), 64);
}

#[test]
fn corner_cell_is_neighbor_across_the_edge() {
    // A 3x3 grid with a single Alive cell in the top-left corner: on a torus
    // every other cell, the opposite corner included, sees it as a neighbor.
    let mut cells = vec![Cell::Dead; 9];
    cells[0] = Cell::Alive;
    assert_eq!(live_neighbor_count(&cells, 3, 3, 2, 2), 1);
    assert_eq!(live_neighbor_count(&cells, 3, 3, 0, 2), 1);
    assert_eq!(live_neighbor_count(&cells, 3, 3, 2, 0), 1);
    assert_eq!(live_neighbor_count(&cells, 3, 3, 1, 1), 1);
    // The corner itself is not its own neighbor.
    assert_eq!(live_neighbor_count(&cells, 3, 3, 0, 0), 0);
}

#[test]
fn wraparound_on_larger_grid() {
    // One Alive cell on the bottom row of a 4x5 grid; the top row directly
    // above-the-wrap counts it.
    let mut cells = vec![Cell::Dead; 20];
    cells[4 * 4 + 2] = Cell::Alive;
    assert_eq!(live_neighbor_count(&cells, 4, 5, 0, 2), 1);
    assert_eq!(live_neighbor_count(&cells, 4, 5, 0, 1), 1);
    assert_eq!(live_neighbor_count(&cells, 4, 5, 0, 3), 1);
    assert_eq!(live_neighbor_count(&cells, 4, 5, 1, 2), 0);
}

#[test]
fn transition_rule_table() {
    for neighbors in 0u8..=8 {
        let from_alive = next_cell_value(Cell::Alive, neighbors);
        let from_dead = next_cell_value(Cell::Dead, neighbors);
        if neighbors < 2 {
            assert_eq!(from_alive, Cell::Dead);
        } else if neighbors <= 3 {
            assert_eq!(from_alive, Cell::Alive);
        } else {
            assert_eq!(from_alive, Cell::Dead);
        }
        if neighbors == 3 {
            assert_eq!(from_dead, Cell::Alive);
        } else {
            assert_eq!(from_dead, Cell::Dead);
        }
    }
}

#[test]
fn block_still_life_unchanged() {
    let mut universe = DiagnosticUniverse::new(6);
    universe.set_width(6);
    let block = vec![(2, 2), (2, 3), (3, 2), (3, 3)];
    universe.set_cells(&block);
    let before = universe.get_cells().clone();
    universe.tick_many(5);
    assert_eq!(universe.get_cells(), &before);
}

#[test]
fn block_straddling_edges_unchanged() {
    // The 2x2 block with its top-left corner at the grid's bottom-right
    // corner wraps onto both opposite edges; on the torus it is still a
    // still life.
    let mut universe = DiagnosticUniverse::new(6);
    universe.set_width(6);
    let block = vec![(5, 5), (5, 0), (0, 5), (0, 0)];
    universe.set_cells(&block);
    let before = universe.get_cells().clone();
    universe.tick_many(4);
    assert_eq!(universe.get_cells(), &before);
}

#[test]
fn tick_reports_exact_flips() {
    // On a seeded 3x3 torus every cell has six Alive among its eight
    // neighbors minus itself, so every Alive cell dies and no Dead cell is
    // born: the change list is exactly the previously Alive coordinates.
    let mut universe = ChangeListUniverse::new(3);
    let mut before = Vec::new();
    for i in 0..9 {
        before.push(universe.cell(i));
    }
    let changes = universe.tick();
    let mut expected = Vec::new();
    for i in 0u32..9 {
        let after = universe.cell(i as usize);
        if before[i as usize] != after {
            expected.push((i / 3, i % 3));
        }
    }
    assert_eq!(changes, expected);
    assert_eq!(
        changes,
        vec![(0, 0), (0, 2), (1, 1), (2, 0), (2, 1), (2, 2)]
    );
    for i in 0..9 {
        assert_eq!(universe.cell(i), Cell::Dead);
    }
    // A tick of an all-Dead grid flips nothing.
    assert_eq!(universe.tick(), vec![]);
}

fn cleared_change_list_universe(size: u32) -> ChangeListUniverse {
    let mut universe = ChangeListUniverse::new(size);
    for i in 0..size * size {
        if seeded_alive(i) {
            universe.toggle_cell(i / size, i % size);
        }
    }
    universe
}

#[test]
fn flip_and_flip_back_counted_once() {
    // A blinker oscillates with period two: the four cells that flip on the
    // first tick flip back on the second, and each appears exactly once.
    let mut universe = cleared_change_list_universe(5);
    universe.toggle_cell(2, 1);
    universe.toggle_cell(2, 2);
    universe.toggle_cell(2, 3);
    let touched = universe.tick_many(2);
    assert_eq!(touched, vec![(1, 2), (2, 1), (2, 3), (3, 2)]);
    // After the two ticks the blinker is back in its starting phase.
    for (i, expected) in [
        ((2u32, 1u32), Cell::Alive),
        ((2, 2), Cell::Alive),
        ((2, 3), Cell::Alive),
        ((1, 2), Cell::Dead),
        ((3, 2), Cell::Dead),
    ] {
        let index = universe.get_index(i.0, i.1);
        assert_eq!(universe.cell(index), expected);
    }
}

#[test]
fn tick_many_zero_is_noop() {
    let mut universe = ChangeListUniverse::new(4);
    let mut before = Vec::new();
    for i in 0..16 {
        before.push(universe.cell(i));
    }
    let touched = universe.tick_many(0);
    assert_eq!(touched, vec![]);
    for i in 0..16 {
        assert_eq!(universe.cell(i), before[i]);
    }
}

#[test]
fn alive_set_matches_buffer_after_ticks() {
    let mut universe = Universe::new(8);
    for ticks_so_far in 0..5 {
        let alive: Vec<(u32, u32)> = universe.alive_cells().clone();
        for row in 0..8u32 {
            for column in 0..8u32 {
                let index = universe.get_index(row, column);
                let is_alive = universe.cell(index) == Cell::Alive;
                assert_eq!(
                    alive.contains(&(row, column)),
                    is_alive,
                    "desynchronized at ({row}, {column}) after {ticks_so_far} ticks"
                );
            }
        }
        universe.tick();
    }
}

#[test]
fn alive_set_survives_tick_many() {
    let mut universe = Universe::new(6);
    universe.tick_many(3);
    let alive = universe.alive_cells();
    for row in 0..6u32 {
        for column in 0..6u32 {
            let index = universe.get_index(row, column);
            assert_eq!(
                alive.contains(&(row, column)),
                universe.cell(index) == Cell::Alive
            );
        }
    }
}

#[test]
fn tick_many_zero_keeps_alive_list() {
    let mut universe = Universe::new(8);
    // Desynchronize the alive list first: a toggle is not tracked.
    universe.toggle_cell(0, 0);
    let alive_before = universe.alive_cells().clone();
    let mut cells_before = Vec::new();
    for i in 0..64 {
        cells_before.push(universe.cell(i));
    }
    universe.tick_many(0);
    assert_eq!(universe.alive_cells(), &alive_before);
    for i in 0..64 {
        assert_eq!(universe.cell(i), cells_before[i]);
    }
}

#[test]
fn tick_many_matches_successive_ticks() {
    // Also from a desynchronized start: tick_many must carry the stale
    // tracking forward exactly as separate tick calls do.
    let mut batched = Universe::new(8);
    let mut stepped = Universe::new(8);
    batched.toggle_cell(2, 5);
    stepped.toggle_cell(2, 5);
    batched.tick_many(3);
    stepped.tick();
    stepped.tick();
    stepped.tick();
    for i in 0..64 {
        assert_eq!(batched.cell(i), stepped.cell(i));
    }
    assert_eq!(batched.alive_cells(), stepped.alive_cells());
}

#[test]
fn toggle_flips_only_target() {
    let mut toggled = Universe::new(8);
    let fresh = Universe::new(8);
    toggled.toggle_cell(3, 4);
    assert_eq!(toggled.width(), fresh.width());
    assert_eq!(toggled.height(), fresh.height());
    for i in 0..64usize {
        if i == 3 * 8 + 4 {
            assert_ne!(toggled.cell(i), fresh.cell(i));
        } else {
            assert_eq!(toggled.cell(i), fresh.cell(i));
        }
    }
    // The alive list is not updated by a toggle.
    assert_eq!(toggled.alive_cells(), fresh.alive_cells());
}

#[test]
fn toggle_twice_restores_cell() {
    let mut universe = Universe::new(4);
    let index = universe.get_index(1, 2);
    let before = universe.cell(index);
    universe.toggle_cell(1, 2);
    assert_ne!(universe.cell(index), before);
    universe.toggle_cell(1, 2);
    assert_eq!(universe.cell(index), before);
}

#[test]
fn resize_reallocates_all_dead() {
    let mut universe = DiagnosticUniverse::new(4);
    universe.set_width(7);
    assert_eq!(universe.width(), 7);
    assert_eq!(universe.height(), 4);
    for i in 0..28 {
        assert_eq!(universe.cell(i), Cell::Dead);
    }
    universe.set_cells(&vec![(0, 0), (3, 6)]);
    universe.set_height(3);
    assert_eq!(universe.width(), 7);
    assert_eq!(universe.height(), 3);
    for i in 0..21 {
        assert_eq!(universe.cell(i), Cell::Dead);
    }
}

#[test]
fn set_cells_forces_listed_alive() {
    let mut universe = DiagnosticUniverse::new(4);
    universe.set_width(4);
    universe.set_cells(&vec![(1, 1), (2, 3)]);
    for row in 0..4u32 {
        for column in 0..4u32 {
            let index = universe.get_index(row, column);
            let expected = if (row, column) == (1, 1) || (row, column) == (2, 3) {
                Cell::Alive
            } else {
                Cell::Dead
            };
            assert_eq!(universe.cell(index), expected);
        }
    }
    // Forcing again does not clear what is already Alive.
    universe.set_cells(&vec![(0, 0)]);
    let index = universe.get_index(1, 1);
    assert_eq!(universe.cell(index), Cell::Alive);
}

#[test]
fn diagnostic_tick_matches_rule() {
    // A blinker in the diagnostic variant: vertical after one tick,
    // horizontal again after two.
    let mut universe = DiagnosticUniverse::new(5);
    universe.set_width(5);
    universe.set_cells(&vec![(2, 1), (2, 2), (2, 3)]);
    universe.tick();
    for row in 0..5u32 {
        for column in 0..5u32 {
            let index = universe.get_index(row, column);
            let expected = if column == 2 && (1..=3).contains(&row) {
                Cell::Alive
            } else {
                Cell::Dead
            };
            assert_eq!(universe.cell(index), expected);
        }
    }
    universe.tick();
    for row in 0..5u32 {
        for column in 0..5u32 {
            let index = universe.get_index(row, column);
            let expected = if row == 2 && (1..=3).contains(&column) {
                Cell::Alive
            } else {
                Cell::Dead
            };
            assert_eq!(universe.cell(index), expected);
        }
    }
}

#[test]
fn cell_toggle_flips_value() {
    let mut cell = Cell::Dead;
    cell.toggle();
    assert_eq!(cell, Cell::Alive);
    cell.toggle();
    assert_eq!(cell, Cell::Dead);
}
