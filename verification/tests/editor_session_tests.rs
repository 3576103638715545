use sokoban::coord::Pos;
use sokoban::editor::{Cell, EditorError, EditorMap, EditorTile};
use sokoban::editor_model::NameError;
use sokoban::editor_session::{move_entry, playtest_level, same_map, EditorSession};
use sokoban::level::LevelError;
use sokoban::menu::{clamp_selection, move_selected_map};
use sokoban::coord::Direction;

fn map(lines: &[&str]) -> EditorMap {
    let raw: Vec<String> = lines.iter().map(|s| s.to_string()).collect();
    EditorMap::from_raw_lines(Some("A"), &raw).unwrap()
}

#[test]
fn paint_then_undo_restores_and_clears_dirty() {
    let mut s = EditorSession::new(map(&["#####", "#@$.#", "#####"]));
    assert!(!s.dirty);
    s.select_brush(EditorTile::Wall);
    assert!(s.paint_at(2, 1));
    assert!(s.dirty);
    assert_eq!(s.working.get(2, 1), Some(Cell::Wall));
    // the same cell is not painted twice in one stroke
    assert!(!s.paint_at(2, 1));
    assert_eq!(s.undo_stack.len(), 1);
    s.release();
    assert!(s.paint_at(2, 1));
    assert_eq!(s.undo_stack.len(), 2);
    assert!(s.undo());
    assert!(s.dirty);
    assert!(s.undo());
    assert_eq!(s.working.get(2, 1), Some(Cell::Box));
    assert!(!s.dirty);
    assert!(!s.undo());
    assert!(!s.paint_at(9, 9));
}

#[test]
fn rename_resize_and_save() {
    let mut s = EditorSession::new(map(&["#####", "#@$.#", "#####"]));
    assert_eq!(s.rename(" "), Err(NameError::Empty));
    assert!(!s.dirty);
    s.rename("B").unwrap();
    assert_eq!(s.working.map_name, "B");
    assert_eq!(s.resize(1, 1), Err(EditorError::AreaTooSmall));
    s.resize(6, 3).unwrap();
    assert_eq!(s.working.width, 6);
    s.mark_saved();
    assert!(!s.dirty);
    assert!(same_map(&s.working, &s.baseline));
    assert!(s.undo());
    assert_eq!(s.working.width, 5);
    assert!(s.dirty);
    assert!(!same_map(&s.working, &s.baseline));
}

#[test]
fn playtest_reads_map_as_level() {
    let level = playtest_level(&map(&["#####", "#@$.#", "#####"])).unwrap();
    assert_eq!(level.start_player, Pos::new(1, 1));
    assert_eq!(level.name.as_deref(), Some("A"));
    let err = playtest_level(&map(&["#####", "#@..#", "#####"])).unwrap_err();
    assert_eq!(err, LevelError::NoBoxes);
}

#[test]
fn moving_entries_and_selection() {
    let mut v = vec![0, 1, 2, 3, 4];
    move_entry(&mut v, 0, 3);
    assert_eq!(v, vec![1, 2, 3, 0, 4]);
    let mut maps = vec!['a', 'b', 'c', 'd', 'e'];
    let sel = move_selected_map(&mut maps, 1, 3, Direction::Down);
    assert_eq!(sel, 4);
    assert_eq!(maps, vec!['a', 'c', 'd', 'e', 'b']);
    let sel = move_selected_map(&mut maps, 0, 3, Direction::Left);
    assert_eq!(sel, 0);
    assert_eq!(maps, vec!['a', 'c', 'd', 'e', 'b']);
    assert_eq!(clamp_selection(7, 3), 2);
    assert_eq!(clamp_selection(1, 3), 1);
    assert_eq!(clamp_selection(1, 0), 0);
}
