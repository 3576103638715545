use sokoban::coord::{Direction, Pos};
use sokoban::level::Level;
use sokoban::pos_set::PosSet;
use sokoban::rules::try_step;
use sokoban::state::GameState;

fn level_with(walls: &[Pos], goals: &[Pos], player: Pos, boxes: &[Pos]) -> (Level, GameState) {
    let level = Level {
        width: 5,
        height: 5,
        walls: PosSet::from_slice(walls),
        goals: PosSet::from_slice(goals),
        start_player: player,
        start_boxes: PosSet::from_slice(boxes),
        name: Some("test".to_string()),
    };
    let state = GameState::from_level(&level);
    (level, state)
}

#[test]
fn blocked_by_wall_is_noop() {
    let (level, mut state) = level_with(&[Pos::new(2, 1)], &[], Pos::new(1, 1), &[]);

    let result = try_step(&mut state, &level, Direction::Right);

    assert!(!result.moved);
    assert!(!result.pushed);
    assert!(!result.won);
    assert_eq!(state.player, Pos::new(1, 1));
    assert_eq!(state.moves, 0);
    assert_eq!(state.pushes, 0);
}

#[test]
fn pushes_single_box_when_space_is_free() {
    let (level, mut state) = level_with(&[], &[Pos::new(3, 1)], Pos::new(1, 1), &[Pos::new(2, 1)]);

    let result = try_step(&mut state, &level, Direction::Right);

    assert!(result.moved);
    assert!(result.pushed);
    assert!(result.won);
    assert_eq!(state.player, Pos::new(2, 1));
    assert!(state.boxes.contains(&Pos::new(3, 1)));
    assert_eq!(state.moves, 1);
    assert_eq!(state.pushes, 1);
}

#[test]
fn push_blocked_by_wall_is_noop() {
    let (level, mut state) = level_with(&[Pos::new(3, 1)], &[], Pos::new(1, 1), &[Pos::new(2, 1)]);

    let result = try_step(&mut state, &level, Direction::Right);

    assert!(!result.moved);
    assert!(!result.pushed);
    assert!(!result.won);
    assert_eq!(state.player, Pos::new(1, 1));
    assert!(state.boxes.contains(&Pos::new(2, 1)));
    assert_eq!(state.moves, 0);
    assert_eq!(state.pushes, 0);
}

#[test]
fn push_blocked_by_box_is_noop() {
    let (level, mut state) = level_with(&[], &[], Pos::new(1, 1), &[Pos::new(2, 1), Pos::new(3, 1)]);

    let result = try_step(&mut state, &level, Direction::Right);

    assert!(!result.moved);
    assert!(!result.pushed);
    assert!(!result.won);
    assert_eq!(state.player, Pos::new(1, 1));
    assert!(state.boxes.contains(&Pos::new(2, 1)));
    assert!(state.boxes.contains(&Pos::new(3, 1)));
    assert_eq!(state.moves, 0);
    assert_eq!(state.pushes, 0);
}

#[test]
fn non_goal_box_configuration_is_not_won() {
    let (level, mut state) = level_with(&[], &[Pos::new(4, 4)], Pos::new(1, 1), &[Pos::new(2, 1)]);

    let result = try_step(&mut state, &level, Direction::Right);

    assert!(result.moved);
    assert!(result.pushed);
    assert!(!result.won);
}

#[test]
fn plain_move_in_each_direction() {
    let (level, mut state) = level_with(&[], &[], Pos::new(2, 2), &[Pos::new(0, 0)]);
    let r = try_step(&mut state, &level, Direction::Up);
    assert!(r.moved && !r.pushed && !r.won);
    assert_eq!(state.player, Pos::new(2, 1));
    try_step(&mut state, &level, Direction::Left);
    assert_eq!(state.player, Pos::new(1, 1));
    try_step(&mut state, &level, Direction::Down);
    assert_eq!(state.player, Pos::new(1, 2));
    try_step(&mut state, &level, Direction::Right);
    assert_eq!(state.player, Pos::new(2, 2));
    assert_eq!(state.moves, 4);
    assert_eq!(state.pushes, 0);
}

#[test]
fn push_keeps_box_count_and_moves_box_out_of_target() {
    let (level, mut state) = level_with(&[], &[], Pos::new(1, 3), &[Pos::new(1, 2), Pos::new(3, 3)]);
    let r = try_step(&mut state, &level, Direction::Up);
    assert!(r.pushed);
    assert_eq!(state.boxes.len(), 2);
    assert!(!state.boxes.contains(&Pos::new(1, 2)));
    assert!(state.boxes.contains(&Pos::new(1, 1)));
    assert!(state.boxes.contains(&Pos::new(3, 3)));
}
