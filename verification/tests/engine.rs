use game_of_life::engine::{Cell, DoubleBuffer, World};

fn cells(world: &World) -> Vec<Cell> {
    let mut out = Vec::new();
    for y in 0..world.height() {
        for x in 0..world.width() {
            out.push(world.cell_at(x, y));
        }
    }
    out
}

#[test]
fn new_world_is_all_dead() {
    let world = World::new(4, 5);
    assert_eq!(world.width(), 4);
    assert_eq!(world.height(), 5);
    for y in 0..5 {
        for x in 0..4 {
            assert_eq!(world.cell_at(x, y), Cell::Dead);
        }
    }
}

#[test]
fn set_cell_then_cell_at() {
    let mut world = World::new(3, 3);
    world.set_cell(2, 1, Cell::Alive);
    assert_eq!(world.cell_at(2, 1), Cell::Alive);
    world.set_cell(2, 1, Cell::Dead);
    assert_eq!(world.cell_at(2, 1), Cell::Dead);
}

#[test]
fn set_cell_leaves_other_cells_alone() {
    let mut world = World::new(3, 2);
    world.set_cell(1, 1, Cell::Alive);
    for y in 0..2 {
        for x in 0..3 {
            if (x, y) == (1, 1) {
                assert_eq!(world.cell_at(x, y), Cell::Alive);
            } else {
                assert_eq!(world.cell_at(x, y), Cell::Dead);
            }
        }
    }
}

#[test]
fn empty_world_stays_dead_after_one_generation() {
    let mut world = World::new(3, 3);
    world.next_gen();
    for y in 0..3 {
        for x in 0..3 {
            assert_eq!(world.cell_at(x, y), Cell::Dead);
        }
    }
}

#[test]
fn empty_world_stays_dead_after_many_generations() {
    let mut world = World::new(4, 4);
    for _ in 0..25 {
        world.next_gen();
        for y in 0..4 {
            for x in 0..4 {
                assert_eq!(world.cell_at(x, y), Cell::Dead);
            }
        }
    }
}

#[test]
fn isolated_cell_dies_of_underpopulation() {
    let mut world = World::new(5, 5);
    world.set_cell(2, 2, Cell::Alive);
    assert_eq!(world.neighbour_count(2, 2), 0);
    world.next_gen();
    assert_eq!(world.cell_at(2, 2), Cell::Dead);
}

#[test]
fn crowded_centre_dies_of_overpopulation() {
    let mut world = World::new(3, 3);
    for y in 0..3 {
        for x in 0..3 {
            world.set_cell(x, y, Cell::Alive);
        }
    }
    assert_eq!(world.neighbour_count(1, 1), 8);
    world.next_gen();
    assert_eq!(world.cell_at(1, 1), Cell::Dead);
    // The corners keep exactly three neighbours and survive.
    assert_eq!(world.cell_at(0, 0), Cell::Alive);
    assert_eq!(world.cell_at(2, 0), Cell::Alive);
    assert_eq!(world.cell_at(0, 2), Cell::Alive);
    assert_eq!(world.cell_at(2, 2), Cell::Alive);
}

#[test]
fn blinker_oscillates_with_period_two() {
    let mut world = World::new(3, 3);
    // Three alive cells in the middle column: (1,0), (1,1), (1,2).
    world.set_cell(1, 0, Cell::Alive);
    world.set_cell(1, 1, Cell::Alive);
    world.set_cell(1, 2, Cell::Alive);
    let start = cells(&world);

    world.next_gen();
    // After one generation: the middle row (0,1), (1,1), (2,1).
    for y in 0..3 {
        for x in 0..3 {
            let expected = if y == 1 { Cell::Alive } else { Cell::Dead };
            assert_eq!(world.cell_at(x, y), expected);
        }
    }

    world.next_gen();
    // After two generations the starting column is back.
    assert_eq!(cells(&world), start);
}

#[test]
fn smallest_world_cell_dies_alone() {
    let mut world = World::new(1, 1);
    assert_eq!(world.width(), 1);
    assert_eq!(world.height(), 1);
    world.set_cell(0, 0, Cell::Alive);
    assert_eq!(world.neighbour_count(0, 0), 0);
    world.next_gen();
    assert_eq!(world.cell_at(0, 0), Cell::Dead);
}

#[test]
fn neighbour_count_stays_between_zero_and_eight() {
    let mut world = World::new(4, 4);
    for y in 0..4 {
        for x in 0..4 {
            world.set_cell(x, y, Cell::Alive);
        }
    }
    for y in 0..4 {
        for x in 0..4 {
            let n = world.neighbour_count(x, y);
            assert!(n >= 0 && n <= 8);
        }
    }
    assert_eq!(world.neighbour_count(1, 1), 8);
    assert_eq!(world.neighbour_count(0, 0), 3);
    assert_eq!(world.neighbour_count(1, 0), 5);
}

#[test]
fn neighbour_count_does_not_wrap_at_the_right_edge() {
    // An alive cell at the start of a row is not a neighbour of the cell at
    // the end of the row above: the boundary is open on all four edges.
    let mut world = World::new(3, 3);
    world.set_cell(0, 1, Cell::Alive);
    assert_eq!(world.neighbour_count(2, 0), 0);
    assert_eq!(world.neighbour_count(1, 1), 1);
}

#[test]
fn advancing_equal_worlds_is_deterministic() {
    let mut first = World::new(4, 4);
    let mut second = World::new(4, 4);
    for (x, y) in [(0, 1), (1, 1), (2, 1), (2, 2), (3, 0)] {
        first.set_cell(x, y, Cell::Alive);
        second.set_cell(x, y, Cell::Alive);
    }
    first.next_gen();
    first.next_gen();
    second.next_gen();
    second.next_gen();
    assert_eq!(cells(&first), cells(&second));
}

#[test]
fn world_clone_is_an_independent_copy() {
    let mut world = World::new(3, 3);
    world.set_cell(0, 0, Cell::Alive);
    let copy = world.clone();
    world.set_cell(1, 1, Cell::Alive);
    assert_eq!(copy.cell_at(0, 0), Cell::Alive);
    assert_eq!(copy.cell_at(1, 1), Cell::Dead);
    assert_eq!(world.cell_at(1, 1), Cell::Alive);
}

#[test]
fn double_buffer_swap_exchanges_the_roles() {
    let mut buffer = DoubleBuffer::new(4);
    assert_eq!(buffer.front_ref().len(), 4);
    buffer.front_mut()[2] = Cell::Alive;
    assert_eq!(buffer.front_ref()[2], Cell::Alive);
    buffer.swap();
    // The old front, with its alive cell, is now the back.
    assert_eq!(buffer.front_ref()[2], Cell::Dead);
    buffer.back_mut()[0] = Cell::Alive;
    buffer.swap();
    assert_eq!(buffer.front_ref()[0], Cell::Alive);
    assert_eq!(buffer.front_ref()[2], Cell::Alive);
}
