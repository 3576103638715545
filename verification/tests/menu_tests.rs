use sokoban::menu::{collection_menu_step, MenuAction, MenuKey};
use sokoban::coord::Direction;
use sokoban::editor::SimpleWarning;
use sokoban::menu::{
    capped_collection_display_name, default_new_map_lines, import_candidate_name, import_stem,
    map_editor_subtitle, map_editor_warning_message, map_list_move_target, parse_canvas_size_input,
    suggested_export_file_name, truncate_chars, visible_range,
};

#[test]
fn visible_range_centres_selection() {
    assert_eq!(visible_range(2, 3, 5), (0, 3));
    assert_eq!(visible_range(0, 10, 3), (0, 3));
    assert_eq!(visible_range(5, 10, 3), (4, 7));
    assert_eq!(visible_range(9, 10, 3), (7, 10));
}

#[test]
fn move_target_in_grid() {
    assert_eq!(map_list_move_target(0, 3, 0, Direction::Right), None);
    assert_eq!(map_list_move_target(0, 3, 5, Direction::Left), None);
    assert_eq!(map_list_move_target(1, 3, 5, Direction::Left), Some(0));
    assert_eq!(map_list_move_target(4, 3, 5, Direction::Right), None);
    assert_eq!(map_list_move_target(4, 3, 5, Direction::Up), Some(1));
    assert_eq!(map_list_move_target(1, 3, 5, Direction::Down), Some(4));
    // from the row above a shorter last row, down lands on the last map
    assert_eq!(map_list_move_target(2, 3, 5, Direction::Down), Some(4));
    assert_eq!(map_list_move_target(4, 3, 5, Direction::Down), None);
    assert_eq!(map_list_move_target(0, 3, 8, Direction::Down), Some(3));
    assert_eq!(map_list_move_target(0, 2, 8, Direction::Down), Some(2));
    assert_eq!(map_list_move_target(2, 2, 7, Direction::Down), Some(4));
    assert_eq!(map_list_move_target(1, 2, 7, Direction::Down), Some(3));
}

#[test]
fn canvas_size_parsing() {
    assert_eq!(parse_canvas_size_input(" 5x4 "), Some((5, 4)));
    assert_eq!(parse_canvas_size_input("5 X 4"), Some((5, 4)));
    assert_eq!(parse_canvas_size_input("+7x2"), Some((7, 2)));
    assert_eq!(parse_canvas_size_input("0x4"), None);
    assert_eq!(parse_canvas_size_input("5x"), None);
    assert_eq!(parse_canvas_size_input("5*4"), None);
    assert_eq!(parse_canvas_size_input("-5x4"), None);
    assert_eq!(parse_canvas_size_input("99999999999999999999999x4"), None);
    assert_eq!(parse_canvas_size_input("3x4x5"), None);
}

#[test]
fn names_and_labels() {
    assert_eq!(truncate_chars("héllo", 2), "hé");
    assert_eq!(truncate_chars("hi", 5), "hi");
    assert_eq!(suggested_export_file_name(Some("pack.txt"), "x"), "pack.txt");
    assert_eq!(suggested_export_file_name(Some(" "), "My/Pack?"), "My_Pack_.txt");
    assert_eq!(suggested_export_file_name(None, "  "), "collection.txt");
    assert_eq!(import_stem(Some(" a:b ")), "a_b");
    assert_eq!(import_stem(None), "collection");
    assert_eq!(import_candidate_name("pack", 0), "pack.txt");
    assert_eq!(import_candidate_name("pack", 12), "pack (12).txt");
    let long = "a".repeat(64);
    assert_eq!(import_candidate_name(&long, 1), format!("{} (1).txt", "a".repeat(60)));
    assert_eq!(capped_collection_display_name("Pack.TXT"), "Pack");
    assert_eq!(capped_collection_display_name("Pack.Txt"), "Pack.Txt");
    assert_eq!(map_editor_warning_message(None), "");
    assert_eq!(
        map_editor_warning_message(Some(SimpleWarning::BoxesMoreThanGoals { boxes: 3, goals: 1 })),
        "Warning: boxes (3) exceed goals (1)"
    );
    assert_eq!(map_editor_warning_message(Some(SimpleWarning::MissingPlayer)), "Warning: map has no player");
    assert_eq!(map_editor_subtitle("Map", 5, 4, true), "Map (5x4)*");
    assert_eq!(map_editor_subtitle("Map", 5, 4, false), "Map (5x4)");
    assert_eq!(default_new_map_lines(), vec!["#####".to_string(), "#@$.#".to_string(), "#####".to_string()]);
}

#[test]
fn collection_menu_wraps_and_protects_builtin() {
    assert_eq!(collection_menu_step(0, 3, Some(0), MenuKey::Up), (2, MenuAction::Nothing));
    assert_eq!(collection_menu_step(2, 3, Some(0), MenuKey::Down), (0, MenuAction::Nothing));
    assert_eq!(collection_menu_step(9, 3, Some(0), MenuKey::Delete), (2, MenuAction::StartDelete(2)));
    assert_eq!(collection_menu_step(0, 3, Some(0), MenuKey::Rename), (0, MenuAction::RenameRefused));
    assert_eq!(collection_menu_step(0, 3, Some(0), MenuKey::Delete), (0, MenuAction::DeleteRefused));
    assert_eq!(collection_menu_step(1, 3, Some(0), MenuKey::Rename), (1, MenuAction::StartRename(1)));
    assert_eq!(collection_menu_step(1, 3, None, MenuKey::Play), (1, MenuAction::Play(1)));
    assert_eq!(collection_menu_step(1, 3, None, MenuKey::Edit), (1, MenuAction::Edit(1)));
    assert_eq!(collection_menu_step(4, 0, None, MenuKey::Down), (4, MenuAction::Nothing));
    assert_eq!(collection_menu_step(4, 0, None, MenuKey::Back), (4, MenuAction::BackToMainMenu));
    assert_eq!(collection_menu_step(4, 0, None, MenuKey::New), (4, MenuAction::CreateCollection));
    assert_eq!(collection_menu_step(4, 0, None, MenuKey::Import), (4, MenuAction::ImportCollection));
}
