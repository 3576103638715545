use sokoban::coord::Pos;
use sokoban::level::Level;
use sokoban::pos_set::PosSet;
use sokoban::state::{GameState, StepResult};

fn sample_level(goals: &[Pos], boxes: &[Pos], player: Pos) -> Level {
    Level {
        width: 6,
        height: 6,
        walls: PosSet::new(),
        goals: PosSet::from_slice(goals),
        start_player: player,
        start_boxes: PosSet::from_slice(boxes),
        name: Some("state-test".to_string()),
    }
}

#[test]
fn from_level_copies_start_positions_and_resets_counters() {
    let level = sample_level(&[Pos::new(1, 1)], &[Pos::new(2, 2)], Pos::new(0, 0));

    let state = GameState::from_level(&level);

    assert_eq!(state.player, Pos::new(0, 0));
    assert!(state.boxes.contains(&Pos::new(2, 2)));
    assert_eq!(state.moves, 0);
    assert_eq!(state.pushes, 0);
}

#[test]
fn is_won_when_all_boxes_are_on_goals() {
    let level = sample_level(&[Pos::new(1, 1), Pos::new(2, 2)], &[Pos::new(1, 1)], Pos::new(0, 0));
    let state = GameState::from_level(&level);

    assert!(state.is_won(&level));
}

#[test]
fn is_not_won_when_any_box_is_off_goal() {
    let level = sample_level(&[Pos::new(1, 1)], &[Pos::new(2, 2)], Pos::new(0, 0));
    let state = GameState::from_level(&level);

    assert!(!state.is_won(&level));
}

#[test]
fn step_result_default_is_all_false() {
    let r = StepResult::default();
    assert_eq!(r, StepResult { moved: false, pushed: false, won: false });
}

#[test]
fn pos_set_insert_remove_subset() {
    let mut s = PosSet::new();
    assert!(s.is_empty());
    assert!(s.insert(Pos::new(1, 2)));
    assert!(!s.insert(Pos::new(1, 2)));
    assert!(s.insert(Pos::new(-3, 4)));
    assert_eq!(s.len(), 2);
    let t = PosSet::from_slice(&[Pos::new(1, 2), Pos::new(-3, 4), Pos::new(1, 2), Pos::new(0, 0)]);
    assert_eq!(t.len(), 3);
    assert!(s.is_subset(&t));
    assert!(!t.is_subset(&s));
    assert!(t.clone().is_subset(&t));
    assert!(s.remove(&Pos::new(1, 2)));
    assert!(!s.remove(&Pos::new(1, 2)));
    assert_eq!(s.to_vec(), vec![Pos::new(-3, 4)]);
}
