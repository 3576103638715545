use sokoban::coord::{Direction, Pos};
use sokoban::level::{Level, RawLevel};
use sokoban::session::{first_level_index, step_fits, Command, Session, UndoHistory};
use sokoban::state::GameState;

fn level(lines: &[&str]) -> Level {
    RawLevel { name: None, lines: lines.iter().map(|s| s.to_string()).collect() }.to_level().unwrap()
}

fn levels() -> Vec<Level> {
    vec![level(&["#####", "#@$.#", "#####"]), level(&["######", "#@ $.#", "######"])]
}

#[test]
fn start_level_is_clamped() {
    assert_eq!(first_level_index(0, 3), 0);
    assert_eq!(first_level_index(1, 3), 0);
    assert_eq!(first_level_index(3, 3), 2);
    assert_eq!(first_level_index(9, 3), 2);
}

#[test]
fn undo_brings_back_the_state_before_a_move() {
    let levels = levels();
    let mut s = Session::new(&levels, 2);
    assert_eq!(s.level_index, 1);
    let out = s.apply(&levels, Command::Move(Direction::Right));
    assert!(out.redraw && !out.won && !out.quit);
    assert_eq!(s.state.player, Pos::new(2, 1));
    assert_eq!(s.history.len(), 1);
    let out = s.apply(&levels, Command::Move(Direction::Right));
    assert!(out.won);
    assert_eq!(s.state.pushes, 1);
    let out = s.apply(&levels, Command::Undo);
    assert!(out.redraw);
    assert_eq!(s.state.player, Pos::new(2, 1));
    assert_eq!(s.state.moves, 1);
    assert_eq!(s.state.pushes, 0);
    assert!(s.state.boxes.contains(&Pos::new(3, 1)));
    s.apply(&levels, Command::Undo);
    assert_eq!(s.state.player, Pos::new(1, 1));
    let out = s.apply(&levels, Command::Undo);
    assert!(!out.redraw);
}

#[test]
fn blocked_moves_are_not_recorded() {
    let levels = levels();
    let mut s = Session::new(&levels, 1);
    let out = s.apply(&levels, Command::Move(Direction::Up));
    assert!(!out.redraw);
    assert_eq!(s.history.len(), 0);
}

#[test]
fn level_navigation_wraps_and_resets() {
    let levels = levels();
    let mut s = Session::new(&levels, 1);
    s.apply(&levels, Command::Move(Direction::Right));
    s.apply(&levels, Command::NextLevel);
    assert_eq!(s.level_index, 1);
    assert_eq!(s.state.moves, 0);
    assert_eq!(s.history.len(), 0);
    s.apply(&levels, Command::NextLevel);
    assert_eq!(s.level_index, 0);
    s.apply(&levels, Command::PreviousLevel);
    assert_eq!(s.level_index, 1);
    s.apply(&levels, Command::Move(Direction::Right));
    s.apply(&levels, Command::Restart);
    assert_eq!(s.state.player, Pos::new(1, 1));
    assert!(s.apply(&levels, Command::Quit).quit);
}

#[test]
fn history_keeps_at_most_the_limit() {
    let l = level(&["#@$.#"]);
    let mut h = UndoHistory::new();
    let st = GameState::from_level(&l);
    for _ in 0..10_005 {
        h.record(st.clone());
    }
    assert_eq!(h.len(), 10_000);
    h.clear();
    assert_eq!(h.len(), 0);
    assert!(h.undo().is_none());
}

#[test]
fn step_fits_checks_counters() {
    let l = level(&["#@$.#"]);
    let mut st = GameState::from_level(&l);
    assert!(step_fits(&st, &l, Direction::Right));
    st.moves = u32::MAX;
    assert!(!step_fits(&st, &l, Direction::Right));
    assert!(step_fits(&st, &l, Direction::Left));
}

#[test]
fn a_push_moves_the_box_and_counts() {
    let levels = levels();
    let mut s = Session::new(&levels, 2);
    s.apply(&levels, Command::Move(Direction::Right));
    assert_eq!((s.state.moves, s.state.pushes), (1, 0));
    assert_eq!(s.state.boxes.len(), 1);
    assert!(s.state.boxes.contains(&Pos::new(3, 1)));
    s.apply(&levels, Command::Move(Direction::Right));
    assert_eq!((s.state.moves, s.state.pushes), (2, 1));
    assert_eq!(s.state.boxes.len(), 1);
    assert!(s.state.boxes.contains(&Pos::new(4, 1)));
    assert!(!s.state.boxes.contains(&Pos::new(3, 1)));
}
