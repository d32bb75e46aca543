use game_of_life::engine::{Cell, World};
use game_of_life::game::{Config, State};
use game_of_life::ui::Point;

fn session(width: i32, height: i32) -> State {
    let world = World::new(width, height);
    State::new(world, Config { update_interval: 60 })
}

#[test]
fn mouse_down_paints_and_enters_painting_mode() {
    let mut state = session(4, 4);
    assert!(!state.is_mouse_down());
    state.on_mouse_down(Point { x: 1, y: 2 });
    assert!(state.is_mouse_down());
    assert_eq!(state.alive_cells(), vec![Point { x: 1, y: 2 }]);
}

#[test]
fn mouse_move_paints_only_while_painting() {
    let mut state = session(4, 4);
    state.on_mouse_move(Point { x: 0, y: 0 });
    assert_eq!(state.alive_cells(), vec![]);

    state.on_mouse_down(Point { x: 1, y: 1 });
    state.on_mouse_move(Point { x: 2, y: 1 });
    state.on_mouse_up();
    assert!(!state.is_mouse_down());
    state.on_mouse_move(Point { x: 3, y: 3 });
    assert_eq!(
        state.alive_cells(),
        vec![Point { x: 1, y: 1 }, Point { x: 2, y: 1 }]
    );
}

#[test]
fn tick_advances_one_generation() {
    let mut state = session(3, 3);
    state.on_mouse_down(Point { x: 1, y: 0 });
    state.on_mouse_move(Point { x: 1, y: 1 });
    state.on_mouse_move(Point { x: 1, y: 2 });
    state.on_mouse_up();
    state.tick();
    assert_eq!(
        state.alive_cells(),
        vec![Point { x: 0, y: 1 }, Point { x: 1, y: 1 }, Point { x: 2, y: 1 }]
    );
}

#[test]
fn alive_cells_lists_points_in_row_major_order() {
    let mut state = session(3, 2);
    state.on_mouse_down(Point { x: 2, y: 1 });
    state.on_mouse_move(Point { x: 0, y: 0 });
    state.on_mouse_move(Point { x: 1, y: 1 });
    state.on_mouse_up();
    assert_eq!(
        state.alive_cells(),
        vec![Point { x: 0, y: 0 }, Point { x: 1, y: 1 }, Point { x: 2, y: 1 }]
    );
}

#[test]
fn clone_copies_the_session_without_sharing() {
    let mut state = session(3, 3);
    state.on_mouse_down(Point { x: 0, y: 0 });
    let copy = state.clone();
    assert!(copy.is_mouse_down());
    state.on_mouse_move(Point { x: 2, y: 2 });
    assert_eq!(copy.alive_cells(), vec![Point { x: 0, y: 0 }]);
    assert_eq!(
        state.alive_cells(),
        vec![Point { x: 0, y: 0 }, Point { x: 2, y: 2 }]
    );
}

#[test]
fn empty_session_stays_empty_under_ticks() {
    let mut state = session(5, 4);
    for _ in 0..10 {
        state.tick();
    }
    assert_eq!(state.alive_cells(), vec![]);
}
