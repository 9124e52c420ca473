use dodger::geometry::{Action, Position};
use dodger::session::{handle_input, outcome, Finished, Input, Response, EXIT_ID, RESTART_ID};
use dodger::world::World;

#[test]
fn dialog_buttons_have_their_ids() {
    assert_eq!(RESTART_ID, 1);
    assert_eq!(EXIT_ID, 2);
}

#[test]
fn closing_the_dialog_exits() {
    assert_eq!(outcome(Response::Closed), Finished::Exit);
}

#[test]
fn exit_button_exits() {
    assert_eq!(outcome(Response::Button(2)), Finished::Exit);
}

#[test]
fn restart_button_restarts() {
    assert_eq!(outcome(Response::Button(1)), Finished::Restart);
}

#[test]
fn unknown_button_is_an_error() {
    assert_eq!(outcome(Response::Button(0)), Finished::Error);
    assert_eq!(outcome(Response::Button(3)), Finished::Error);
    assert_eq!(outcome(Response::Button(-1)), Finished::Error);
    assert_eq!(outcome(Response::Button(i32::MAX)), Finished::Error);
}

#[test]
fn failed_dialog_is_an_error() {
    assert_eq!(outcome(Response::Failed), Finished::Error);
}

#[test]
fn quit_stops_the_session_and_leaves_the_world_alone() {
    let mut world = World::with_player(rand::thread_rng(), 10, 10);
    assert!(handle_input(&mut world, Input::Quit));
    assert!(world.tick());
    assert_eq!(world.player().position, Position { x: 10, y: 10 });
}

#[test]
fn other_input_is_ignored() {
    let mut world = World::with_player(rand::thread_rng(), 10, 10);
    assert!(!handle_input(&mut world, Input::Other));
    assert!(world.tick());
    assert_eq!(world.player().position, Position { x: 10, y: 10 });
}

#[test]
fn directional_input_moves_the_player_on_the_next_tick() {
    let mut world = World::with_player(rand::thread_rng(), 10, 10);
    assert!(!handle_input(&mut world, Input::Move(Action::Down)));
    assert_eq!(world.player().position, Position { x: 10, y: 10 });
    assert!(world.tick());
    assert_eq!(world.player().position, Position { x: 10, y: 11 });
}

#[test]
fn last_directional_input_before_a_tick_counts() {
    let mut world = World::with_player(rand::thread_rng(), 10, 10);
    assert!(!handle_input(&mut world, Input::Move(Action::Left)));
    assert!(!handle_input(&mut world, Input::Move(Action::Up)));
    assert!(!handle_input(&mut world, Input::Other));
    assert!(!handle_input(&mut world, Input::Move(Action::Right)));
    assert!(!handle_input(&mut world, Input::Other));
    assert!(world.tick());
    assert_eq!(world.player().position, Position { x: 11, y: 10 });
}
