use sokoban::coord::Pos;
use sokoban::level::{is_grid_line, parse_title_line, LevelError, LevelPack, RawLevel};

fn pack(text: &str) -> LevelPack {
    LevelPack::from_text("pack.txt".to_string(), text)
}

#[test]
fn loads_drfogh_style_levels_with_title_after_grid() {
    let text = "\
Collection: Numbers

-####
-#-.#
-#-$#
-#-@#
-####
Title: One
Date: 2016-06-21

-####
-#-.#
-#-$#
-#-@#
-####
Title: Two
";
    let pack = pack(text);

    assert_eq!(pack.levels.len(), 2);
    assert_eq!(pack.levels[0].name.as_deref(), Some("One"));
    assert_eq!(pack.levels[1].name.as_deref(), Some("Two"));
}

#[test]
fn parses_dash_as_floor_in_runtime_level() {
    let text = "\
-####
-#-.#
-#-$#
-#-@#
-####
Title: Dash Floor
";
    let pack = pack(text);
    let levels = pack.parse_levels().expect("parse levels should succeed");
    let level = &levels[0];

    assert_eq!(level.name.as_deref(), Some("Dash Floor"));
    assert!(level.goals.contains(&Pos::new(3, 1)));
    assert!(level.start_boxes.contains(&Pos::new(3, 2)));
    assert_eq!(level.start_player, Pos::new(3, 3));
}

#[test]
fn parse_levels_rejects_missing_player() {
    let text = "\
####
# .#
# $#
####
Title: Missing Player
";
    let err = pack(text).parse_levels().expect_err("parse should fail");
    assert!(err.message().contains("missing player"));
}

#[test]
fn parse_levels_rejects_duplicate_player() {
    let text = "\
#####
#@+ #
#$ .#
#####
Title: Duplicate Player
";
    let err = pack(text).parse_levels().expect_err("parse should fail");
    assert!(err.message().contains("more than one player"));
    assert_eq!(
        err.message(),
        "failed to parse level 1: level has more than one player (duplicate at line 2, column 3)"
    );
}

#[test]
fn parse_levels_rejects_more_boxes_than_goals() {
    let text = "\
######
#@$$ #
# .  #
######
Title: Too Many Boxes
";
    let err = pack(text).parse_levels().expect_err("parse should fail");
    assert!(err.message().contains("number of goals"));
    assert_eq!(err.level, 1);
    assert_eq!(err.error, LevelError::TooFewGoals { goals: 1, boxes: 2 });
}

#[test]
fn comments_name_levels_and_other_lines_split_them() {
    let text = "; name: First\r\n#@$.#\r\n\nTitle: Early\n#@$.#\nnot a grid\n#@*#\n";
    let pack = pack(text);
    assert_eq!(pack.levels.len(), 3);
    assert_eq!(pack.levels[0].name.as_deref(), Some("First"));
    assert_eq!(pack.levels[0].lines, vec!["#@$.#".to_string()]);
    assert_eq!(pack.levels[1].name.as_deref(), Some("Early"));
    assert_eq!(pack.levels[2].name, None);
    assert_eq!(pack.source, "pack.txt");
    assert!(pack.fits());
}

#[test]
fn to_level_reports_each_error() {
    let raw = |lines: &[&str]| RawLevel { name: None, lines: lines.iter().map(|s| s.to_string()).collect() };
    assert_eq!(raw(&[]).to_level().unwrap_err(), LevelError::NoGridLines);
    assert_eq!(
        raw(&["#@#", "#x$"]).to_level().unwrap_err(),
        LevelError::InvalidChar { ch: 'x', line: 2, column: 2 }
    );
    assert_eq!(raw(&["#@.#"]).to_level().unwrap_err(), LevelError::NoBoxes);
    assert_eq!(raw(&["#$.#"]).to_level().unwrap_err(), LevelError::MissingPlayer);
    assert_eq!(LevelError::NoBoxes.message(), "level must include at least one box ($ or *)");
    assert_eq!(
        LevelError::InvalidChar { ch: 'x', line: 2, column: 12 }.message(),
        "invalid grid character 'x' at line 2, column 12"
    );
    let level = raw(&["#+*", "#"]).to_level().unwrap();
    assert_eq!(level.width, 3);
    assert_eq!(level.height, 2);
    assert_eq!(level.start_player, Pos::new(1, 0));
    assert!(level.is_goal(Pos::new(1, 0)));
    assert!(level.is_goal(Pos::new(2, 0)));
    assert!(level.is_wall(Pos::new(0, 1)));
    assert!(!level.is_wall(Pos::new(1, 1)));
    assert_eq!(level.start_boxes.len(), 1);
}

#[test]
fn title_and_grid_line_helpers() {
    assert_eq!(parse_title_line("Title:  Hello "), Some("Hello".to_string()));
    assert_eq!(parse_title_line("Title:   "), None);
    assert_eq!(parse_title_line("title: x"), None);
    assert!(is_grid_line(" #-.@+$*"));
    assert!(is_grid_line(""));
    assert!(!is_grid_line("#a#"));
}
