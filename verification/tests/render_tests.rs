use sokoban::coord::Pos;
use sokoban::level::Level;
use sokoban::pos_set::PosSet;
use sokoban::render::render;
use sokoban::state::GameState;

fn level_with(walls: &[Pos], goals: &[Pos], player: Pos, boxes: &[Pos], name: Option<&str>) -> Level {
    Level {
        width: 4,
        height: 3,
        walls: PosSet::from_slice(walls),
        goals: PosSet::from_slice(goals),
        start_player: player,
        start_boxes: PosSet::from_slice(boxes),
        name: name.map(str::to_string),
    }
}

#[test]
fn renders_board_with_header_and_footer() {
    let level = level_with(
        &[Pos::new(0, 0), Pos::new(3, 2)],
        &[Pos::new(2, 0), Pos::new(2, 1)],
        Pos::new(1, 1),
        &[Pos::new(2, 1), Pos::new(0, 2)],
        Some("Demo"),
    );
    let mut state = GameState::from_level(&level);
    state.moves = 7;
    state.pushes = 3;

    let rendered = render(&level, &state);

    let expected = "\
Level: Demo | Moves: 7 | Pushes: 3
# . 
 @* 
$  #
WASD/arrows move | R restart | U undo | N/P level | Q quit";
    assert_eq!(rendered, expected);
}

#[test]
fn renders_player_and_box_on_goals_with_plus_and_star() {
    let level = level_with(&[], &[Pos::new(1, 1), Pos::new(2, 1)], Pos::new(1, 1), &[Pos::new(2, 1)], None);
    let state = GameState {
        player: level.start_player,
        boxes: level.start_boxes.clone(),
        moves: 0,
        pushes: 0,
    };

    let rendered = render(&level, &state);

    let expected = "\
Level: (unnamed) | Moves: 0 | Pushes: 0
    
 +* 
    
WASD/arrows move | R restart | U undo | N/P level | Q quit";
    assert_eq!(rendered, expected);
}

#[test]
fn renders_multi_digit_counters() {
    let level = level_with(&[], &[], Pos::new(0, 0), &[], Some("X"));
    let mut state = GameState::from_level(&level);
    state.moves = 1050;
    state.pushes = 4294967295;
    let rendered = render(&level, &state);
    assert!(rendered.starts_with("Level: X | Moves: 1050 | Pushes: 4294967295\n@   \n"));
}
