use sokoban::editor_model::{
    default_name, normalize_collection_file_name, normalize_map_name, normalized_existing_map_name,
    parse_collection_name, CollectionError, EditableCollection, NameError,
};

fn collection(text: &str) -> EditableCollection {
    EditableCollection::from_text("pack.txt".to_string(), Some("pack"), text)
}

#[test]
fn loads_collection_and_map_names() {
    let c = EditableCollection::from_text(
        "numbers.txt".to_string(),
        Some("numbers"),
        "\
Collection: Numbers

####
#@.#
#$ #
####
Title: One

####
# @#
#$.#
####
Title: Two
",
    );
    assert_eq!(c.collection_name, "Numbers");
    assert_eq!(c.maps.len(), 2);
    assert_eq!(c.maps[0].name, "One");
    assert_eq!(c.maps[1].name, "Two");
    assert_eq!(c.maps[0].raw_lines[0], "####");
}

#[test]
fn add_rename_delete_map_persists() {
    let mut c = collection("Collection: Pack A\n\n");
    let lines = vec!["#####".to_string(), "#@$.#".to_string(), "#####".to_string()];
    assert_eq!(c.add_map("Map 1", lines.clone()).expect("add map 1 should work"), 0);
    assert_eq!(c.add_map("Map 2", lines.clone()).expect("add map 2 should work"), 1);
    c.rename_map(0, "Map One").expect("rename should work");
    c.delete_map(1).expect("delete should work");
    let text = c.save().expect("save should work");

    let reloaded = collection(&text);
    assert_eq!(reloaded.maps.len(), 1);
    assert_eq!(reloaded.maps[0].name, "Map One");
    assert_eq!(reloaded.maps[0].raw_lines, lines);
    assert_eq!(reloaded.collection_name, "Pack A");
}

#[test]
fn save_replaces_previous_content() {
    let mut c = collection(
        "\
Collection: Old Name

####
#@.#
#$ #
####
Title: Old Map
",
    );
    c.rename_collection("New Name").expect("rename collection should work");
    c.rename_map(0, "New Map").expect("rename map should work");
    let text = c.save().expect("save should work");
    assert!(text.contains("Collection: New Name"));
    assert!(text.contains("Title: New Map"));
    assert!(!text.contains("Collection: Old Name"));
    assert!(!text.contains("Title: Old Map"));
    assert_eq!(text, "Collection: New Name\n\n####\n#@.#\n#$ #\n####\nTitle: New Map\n\n");
}

#[test]
fn map_names_must_be_unique_ignoring_case() {
    let mut c = collection("Collection: P\n\n");
    c.add_map("Alpha", vec!["#@$.#".to_string()]).unwrap();
    let err = c.add_map(" ALPHA ", vec![]).unwrap_err();
    assert!(matches!(err, CollectionError::Name(NameError::AlreadyExists)));
    assert_eq!(err.message(), "name already exists");
    c.add_map("Beta", vec![]).unwrap();
    assert!(matches!(c.rename_map(1, "alpha"), Err(CollectionError::Name(NameError::AlreadyExists))));
    assert!(c.rename_map(0, "ALPHA").is_ok());
    assert_eq!(c.maps[0].name, "ALPHA");
    assert!(matches!(c.rename_map(5, "x"), Err(CollectionError::IndexOutOfBounds)));
    assert!(matches!(c.delete_map(2), Err(CollectionError::IndexOutOfBounds)));
    assert_eq!(CollectionError::IndexOutOfBounds.message(), "map index out of bounds");
    let removed = c.delete_map(0).unwrap();
    assert_eq!(removed.name, "ALPHA");
    assert_eq!(c.maps.len(), 1);
}

#[test]
fn save_reports_duplicates_and_bad_names() {
    let mut c = collection("Collection: P\n\n");
    c.add_map("One", vec!["#@$.#".to_string()]).unwrap();
    c.add_map("Two", vec!["#@$.#".to_string()]).unwrap();
    c.maps[1].name = " one".to_string();
    match c.save() {
        Err(CollectionError::DuplicateMapName { name }) => assert_eq!(name, " one"),
        other => panic!("unexpected {:?}", other),
    }
    c.maps[1].name = "  ".to_string();
    assert!(matches!(c.save(), Err(CollectionError::Name(NameError::Empty))));
    assert_eq!(
        CollectionError::DuplicateMapName { name: "x".to_string() }.message(),
        "duplicate map name 'x'"
    );
}

#[test]
fn collection_file_names() {
    assert_eq!(normalize_collection_file_name("My Collection"), Ok("My Collection.txt".to_string()));
    assert_eq!(normalize_collection_file_name(" pack.TXT "), Ok("pack.txt".to_string()));
    assert_eq!(normalize_collection_file_name("  "), Err(NameError::Empty));
    assert_eq!(normalize_collection_file_name(".txt"), Err(NameError::Empty));
    assert_eq!(normalize_collection_file_name("a/b"), Err(NameError::InvalidFileNameChars));
    assert_eq!(normalize_collection_file_name("Default"), Err(NameError::Reserved));
    assert_eq!(normalize_collection_file_name("DEFAULT.txt"), Err(NameError::Reserved));
    assert_eq!(normalize_collection_file_name(&"c".repeat(65)), Err(NameError::TooLong { max: 64 }));
    assert_eq!(NameError::Reserved.message(), "name 'default' is reserved");
}

#[test]
fn map_name_rules() {
    assert_eq!(normalize_map_name("  Level 1\t"), Ok("Level 1".to_string()));
    assert_eq!(normalize_map_name("\u{3000}"), Err(NameError::Empty));
    assert_eq!(normalize_map_name(&"é".repeat(64)), Ok("é".repeat(64)));
    assert_eq!(normalize_map_name("a\u{9f}"), Err(NameError::ControlChars));
    assert_eq!(normalized_existing_map_name(Some("  ok ".to_string()), 0), "ok");
    assert_eq!(normalized_existing_map_name(Some(" ".to_string()), 9), "Map 10");
    assert_eq!(normalized_existing_map_name(None, 2), "Map 3");
}

#[test]
fn collection_names_from_text_or_file() {
    assert_eq!(parse_collection_name("x\n  Collection:   \nCollection: Foo \n"), Some("Foo".to_string()));
    assert_eq!(parse_collection_name("no name here"), None);
    assert_eq!(default_name(Some(" stem ")), "stem");
    assert_eq!(default_name(Some("  ")), "Collection");
    assert_eq!(default_name(None), "Collection");
    let c = EditableCollection::from_text("a.txt".to_string(), Some("a"), "#@$.#\n");
    assert_eq!(c.collection_name, "a");
    assert_eq!(c.maps[0].name, "Map 1");
}

#[test]
fn rename_collection_drops_txt() {
    let mut c = collection("");
    c.rename_collection(" Fancy.txt ").unwrap();
    assert_eq!(c.collection_name, "Fancy");
    assert_eq!(c.rename_collection(".TXT"), Err(NameError::Empty));
    assert_eq!(c.collection_name, "Fancy");
}
