use sokoban::editor::{validate_canvas_size, Cell, EditorError, EditorMap, EditorTile, SimpleWarning};
use sokoban::editor_model::NameError;

#[test]
fn raw_round_trip_preserves_map_shape_and_content() {
    let raw = vec!["#####".to_string(), "#@$.#".to_string(), "#-*.#".to_string(), "#####".to_string()];
    let map = EditorMap::from_raw_lines(Some("A"), &raw).expect("parse should work");
    let serialized = map.to_raw_lines();
    assert_eq!(serialized, raw);
}

#[test]
fn resize_up_enforces_wall_border_and_new_interior_floor() {
    let raw = vec!["###".to_string(), "#@#".to_string(), "###".to_string()];
    let mut map = EditorMap::from_raw_lines(Some("A"), &raw).expect("parse should work");
    map.resize(5, 4).expect("resize should work");

    assert_eq!(map.width, 5);
    assert_eq!(map.height, 4);
    for x in 0..map.width {
        assert_eq!(map.get(x, 0), Some(Cell::Wall));
        assert_eq!(map.get(x, map.height - 1), Some(Cell::Wall));
    }
    for y in 0..map.height {
        assert_eq!(map.get(0, y), Some(Cell::Wall));
        assert_eq!(map.get(map.width - 1, y), Some(Cell::Wall));
    }

    // This coordinate did not exist before and is interior after growth.
    assert_eq!(map.get(3, 2), Some(Cell::Floor));
}

#[test]
fn resize_up_keeps_existing_border_cells_unchanged() {
    let raw = vec!["---@".to_string(), "----".to_string(), "----".to_string()];
    let mut map = EditorMap::from_raw_lines(Some("A"), &raw).expect("parse should work");
    map.resize(6, 5).expect("resize should work");

    // Existing cell that was on old border remains as it was.
    assert_eq!(map.get(0, 0), Some(Cell::Floor));
    assert_eq!(map.get(3, 0), Some(Cell::Player));

    // Newly added border cells become walls.
    assert_eq!(map.get(5, 0), Some(Cell::Wall));
    assert_eq!(map.get(5, 4), Some(Cell::Wall));
    assert_eq!(map.get(0, 4), Some(Cell::Wall));

    // Newly added interior stays floor.
    assert_eq!(map.get(4, 2), Some(Cell::Floor));
}

#[test]
fn resize_down_truncates() {
    let raw = vec!["#####".to_string(), "#@$.#".to_string(), "#..*#".to_string(), "#####".to_string()];
    let mut map = EditorMap::from_raw_lines(Some("A"), &raw).expect("parse should work");
    map.resize(3, 2).expect("resize should work");
    assert_eq!(map.width, 3);
    assert_eq!(map.height, 2);
    assert_eq!(map.to_raw_lines(), vec!["###".to_string(), "#@$".to_string()]);
}

#[test]
fn resize_rejects_area_below_three() {
    let raw = vec!["###".to_string(), "#@#".to_string(), "###".to_string()];
    let mut map = EditorMap::from_raw_lines(Some("A"), &raw).expect("parse should work");
    let err = map.resize(1, 2).expect_err("should reject small area");
    assert!(err.message().contains("at least 3"));
}

#[test]
fn painting_player_enforces_uniqueness() {
    let raw = vec!["#####".to_string(), "#@--#".to_string(), "#---#".to_string(), "#####".to_string()];
    let mut map = EditorMap::from_raw_lines(Some("A"), &raw).expect("parse should work");
    map.paint(2, 2, EditorTile::Player).expect("paint should work");

    let mut players = 0usize;
    for cell in &map.cells {
        if matches!(*cell, Cell::Player | Cell::PlayerOnGoal) {
            players += 1;
        }
    }
    assert_eq!(players, 1);
    assert_eq!(map.get(2, 2), Some(Cell::Player));
}

#[test]
fn simple_warning_detects_basic_invalid_states() {
    let no_box = EditorMap::from_raw_lines(Some("A"), &["#####".to_string(), "#@..#".to_string(), "#####".to_string()])
        .expect("parse should work");
    assert_eq!(no_box.simple_warning(), Some(SimpleWarning::MissingBoxes));
}

#[test]
fn simple_warning_boxes_more_than_goals() {
    let map = EditorMap::from_raw_lines(
        Some("A"),
        &["#####".to_string(), "#@$$#".to_string(), "#--.#".to_string(), "#####".to_string()],
    )
    .expect("parse should work");
    assert_eq!(map.simple_warning(), Some(SimpleWarning::BoxesMoreThanGoals { boxes: 2, goals: 1 }));
}

#[test]
fn simple_warning_missing_player() {
    let map = EditorMap::from_raw_lines(Some("A"), &["#####".to_string(), "#$..#".to_string(), "#####".to_string()])
        .expect("parse should work");
    assert_eq!(map.simple_warning(), Some(SimpleWarning::MissingPlayer));
}

#[test]
fn simple_warning_already_solved_when_all_boxes_are_on_goals() {
    let map = EditorMap::from_raw_lines(Some("A"), &["#####".to_string(), "#@*.#".to_string(), "#####".to_string()])
        .expect("parse should work");
    assert_eq!(map.simple_warning(), Some(SimpleWarning::AlreadySolved));
}

#[test]
fn simple_warning_none_for_playable_map() {
    let map = EditorMap::from_raw_lines(Some("A"), &["#####".to_string(), "#@$.#".to_string(), "#####".to_string()])
        .expect("parse should work");
    assert_eq!(map.simple_warning(), None);
}

#[test]
fn from_raw_lines_errors() {
    let empty: Vec<String> = vec![];
    assert!(matches!(EditorMap::from_raw_lines(None, &empty), Err(EditorError::NoRows)));
    assert!(matches!(EditorMap::from_raw_lines(None, &["".to_string()]), Err(EditorError::NoColumns)));
    let err = EditorMap::from_raw_lines(None, &["#x#".to_string(), "#y#".to_string()]).unwrap_err();
    assert_eq!(err, EditorError::InvalidChar { ch: 'x' });
    assert_eq!(err.message(), "invalid map char 'x'");
    let err = EditorMap::from_raw_lines(Some("   "), &["#@#".to_string()]).unwrap();
    assert_eq!(err.map_name, "Map");
    let long = "n".repeat(65);
    let err = EditorMap::from_raw_lines(Some(&long), &["#@#".to_string()]).unwrap_err();
    assert_eq!(err, EditorError::Name(NameError::TooLong { max: 64 }));
    assert_eq!(err.message(), "name cannot exceed 64 characters");
}

#[test]
fn from_raw_lines_pads_short_rows_and_keeps_first_player() {
    let map = EditorMap::from_raw_lines(Some(" Name "), &["#@".to_string(), "+#@#".to_string()]).unwrap();
    assert_eq!(map.map_name, "Name");
    assert_eq!(map.width, 4);
    assert_eq!(map.height, 2);
    assert_eq!(map.to_raw_lines(), vec!["#@--".to_string(), ".#-#".to_string()]);
}

#[test]
fn paint_out_of_bounds_and_rename() {
    let mut map = EditorMap::from_raw_lines(Some("A"), &["#@#".to_string()]).unwrap();
    let err = map.paint(3, 0, EditorTile::Wall).unwrap_err();
    assert_eq!(err, EditorError::OutOfBounds);
    assert_eq!(err.message(), "position out of bounds");
    map.paint(0, 0, EditorTile::BoxOnGoal).unwrap();
    assert_eq!(map.get(0, 0), Some(Cell::BoxOnGoal));
    assert_eq!(map.get(0, 1), None);
    assert!(map.in_bounds(2, 0));
    assert!(!map.in_bounds(0, 1));
    assert_eq!(map.rename_map("\tB \n"), Ok(()));
    assert_eq!(map.map_name, "B");
    assert_eq!(map.rename_map(" "), Err(NameError::Empty));
    assert_eq!(map.rename_map("a\u{7}b"), Err(NameError::ControlChars));
    assert_eq!(map.map_name, "B");
}

#[test]
fn canvas_size_rules() {
    assert_eq!(validate_canvas_size(0, 4), Err(EditorError::SizeNotPositive));
    assert_eq!(validate_canvas_size(1, 2), Err(EditorError::AreaTooSmall));
    assert_eq!(validate_canvas_size(3, 1), Ok(()));
    assert_eq!(EditorError::SizeNotPositive.message(), "size must be positive");
}

#[test]
fn resize_removes_extra_players_and_rejects_zero() {
    let mut map = EditorMap::from_raw_lines(Some("A"), &["#@#".to_string(), "###".to_string()]).unwrap();
    assert_eq!(map.resize(0, 3), Err(EditorError::SizeNotPositive));
    assert_eq!(map.width, 3);
    map.resize(2, 2).unwrap();
    assert_eq!(map.to_raw_lines(), vec!["#@".to_string(), "##".to_string()]);
}

#[test]
fn cells_past_the_canvas_are_kept_and_not_shown() {
    let mut map = EditorMap::from_raw_lines(Some("M"), &["#@#".to_string()]).unwrap();
    map.cells.push(Cell::Wall);
    assert_eq!(map.get(2, 0), Some(Cell::Wall));
    assert_eq!(map.get(3, 0), None);
    assert_eq!(map.to_raw_lines(), vec!["#@#".to_string()]);
    map.paint(1, 0, EditorTile::Box).unwrap();
    assert_eq!(map.cells.len(), 4);
    assert_eq!(map.get(1, 0), Some(Cell::Box));
    map.resize(2, 2).unwrap();
    assert_eq!(map.cells.len(), 4);
    assert_eq!(map.to_raw_lines(), vec!["#$".to_string(), "##".to_string()]);
}
