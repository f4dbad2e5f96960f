use sokoban::grid::Position;
use sokoban::level::Level;
use sokoban::loader::{load_levels, load_lines, next_level_number, previous_level_number};
use sokoban::text::split_tile_lines;
use sokoban::tile::Tile;

#[test]
fn two_levels_separated_by_a_blank_line() {
    let levels = load_levels("#####\n#@ .#\n#####\n\n####\n#@$#\n#. #\n####\n").unwrap();
    assert_eq!(levels.len(), 2);
    assert_eq!(levels[0], Level::from_lines(vec!["#####", "#@ .#", "#####"]).unwrap());
    assert_eq!(levels[1], Level::from_lines(vec!["####", "#@$#", "#. #", "####"]).unwrap());
    assert_eq!((levels[0].width, levels[0].height), (5, 3));
    assert_eq!((levels[1].width, levels[1].height), (4, 4));
    assert_eq!(levels[1].start_state.player.position, Position::new(1, 1));
}

#[test]
fn last_level_needs_no_blank_line_after_it() {
    let levels = load_levels("@.\n\n.@").unwrap();
    assert_eq!(levels.len(), 2);
    assert_eq!(levels[1].start_state.player.position, Position::new(1, 0));
}

#[test]
fn empty_text_holds_no_level() {
    assert_eq!(load_levels("").unwrap().len(), 0);
    assert_eq!(load_levels("\n\n\n").unwrap().len(), 0);
    assert_eq!(load_levels("; only a comment\n   \n").unwrap().len(), 0);
}

#[test]
fn several_blank_lines_separate_once() {
    let levels = load_levels("\n\n@.\n\n\n\n.@\n\n\n").unwrap();
    assert_eq!(levels.len(), 2);
}

#[test]
fn comments_are_stripped() {
    let levels = load_levels("; first level\n####; top\n#@.#;middle\n####\n; done\n").unwrap();
    assert_eq!(levels.len(), 1);
    assert_eq!(levels[0], Level::from_lines(vec!["####", "#@.#", "####"]).unwrap());
}

#[test]
fn a_comment_line_separates_levels() {
    let levels = load_levels("@.\n; between\n.@\n").unwrap();
    assert_eq!(levels.len(), 2);
}

#[test]
fn trailing_white_space_is_trimmed() {
    let levels = load_levels("####   \n#@.#\t \r\n####\u{a0}\u{3000}\n").unwrap();
    assert_eq!(levels.len(), 1);
    assert_eq!(levels[0].width, 4);
    assert_eq!(levels[0], Level::from_lines(vec!["####", "#@.#", "####"]).unwrap());
}

#[test]
fn a_line_of_white_space_separates_levels() {
    let levels = load_levels("@.\n  \t \n.@\n").unwrap();
    assert_eq!(levels.len(), 2);
}

#[test]
fn carriage_returns_end_lines_too() {
    let levels = load_levels("@.\r\n\r\n.@\r\n").unwrap();
    assert_eq!(levels.len(), 2);
    assert_eq!(levels[0].width, 2);
}

#[test]
fn leading_white_space_is_floor() {
    let levels = load_levels("  ###\n  #@#\n  ###\n").unwrap();
    assert_eq!(levels[0].width, 5);
    assert_eq!(levels[0].start_state.player.position, Position::new(3, 1));
    assert_eq!(levels[0].map[1][0], Tile::OutsideFloor);
}

#[test]
fn white_space_before_a_comment_goes_with_it() {
    let levels = load_levels("#@  ; no floor here\n").unwrap();
    assert_eq!(levels[0].width, 2);
    let levels = load_levels("#@# ; c\n\n").unwrap();
    assert_eq!(levels.len(), 1);
    assert_eq!(levels[0].width, 3);
    assert_eq!(levels[0], Level::from_lines(vec!["#@#"]).unwrap());
}

#[test]
fn white_space_inside_a_row_stays() {
    let levels = load_levels("#@  # ; floor between walls\n").unwrap();
    assert_eq!(levels[0].width, 5);
}

#[test]
fn an_indented_comment_line_separates_levels() {
    let levels = load_levels("@.\n  ; between\n.@\n").unwrap();
    assert_eq!(levels.len(), 2);
    assert_eq!(levels[0], Level::from_lines(vec!["@."]).unwrap());
    assert_eq!(levels[1], Level::from_lines(vec![".@"]).unwrap());
}

#[test]
fn white_space_is_what_unicode_says() {
    let listed = |c: char| {
        let code = c as u32;
        (0x09..=0x0D).contains(&code)
            || (0x2000..=0x200A).contains(&code)
            || [0x20, 0x85, 0xA0, 0x1680, 0x2028, 0x2029, 0x202F, 0x205F, 0x3000].contains(&code)
    };
    let mut count = 0;
    for code in 0..=0x10FFFFu32 {
        let c = match char::from_u32(code) {
            Some(c) => c,
            None => continue,
        };
        if c == '\n' || c == ';' {
            continue;
        }
        let text = format!("#{}", c);
        let lines = split_tile_lines(&text);
        assert_eq!(lines.len(), 1);
        if listed(c) {
            count += 1;
            assert_eq!(lines[0], "#");
        } else {
            assert_eq!(lines[0], text);
        }
    }
    assert_eq!(count, 24);
    assert_eq!(split_tile_lines("# \n"), vec!["#", ""]);
}

#[test]
fn lines_of_tiles_are_grouped_into_levels() {
    use_lines(vec!["", "@.", "", "", ".@", "#$"], 2);
    use_lines(vec!["@."], 1);
    use_lines(vec!["", ""], 0);
    use_lines(Vec::new(), 0);
    let levels = load_lines(vec!["#@#", "###", "", " @"]).unwrap();
    assert_eq!(levels[0], Level::from_lines(vec!["#@#", "###"]).unwrap());
    assert_eq!(levels[1], Level::from_lines(vec![" @"]).unwrap());
    assert_eq!(load_lines(vec!["@", "", "#", "", "?"]).unwrap_err(), "Invalid level: Level has no starting position");
    assert_eq!(load_lines(vec!["@", "", "#?"]).unwrap_err(), "'?' is an invalid tile");
    assert_eq!(load_lines(vec!["@ ;"]).unwrap_err(), "';' is an invalid tile");
}

fn use_lines(lines: Vec<&str>, expected: usize) {
    assert_eq!(load_lines(lines).unwrap().len(), expected);
}

#[test]
fn first_bad_level_fails_the_load() {
    assert_eq!(load_levels("@.\n\n#x#\n\n#y#\n").unwrap_err(), "'x' is an invalid tile");
    assert_eq!(
        load_levels("@.\n\n###\n\n#y#\n").unwrap_err(),
        "Invalid level: Level has no starting position"
    );
    assert_eq!(load_levels("@.\n\n.@\n\n#?").unwrap_err(), "'?' is an invalid tile");
    assert_eq!(load_levels("@\u{e9}").unwrap_err(), "'\u{e9}' is an invalid tile");
}

#[test]
fn tab_inside_a_row_is_an_invalid_tile() {
    assert_eq!(load_levels("#\t@#").unwrap_err(), "'\t' is an invalid tile");
}

#[test]
fn lines_are_split_and_cleaned() {
    assert_eq!(split_tile_lines("ab \ncd;x\n\n e; f ;g"), vec!["ab", "cd", "", " e"]);
    assert_eq!(split_tile_lines(""), vec![""]);
    assert_eq!(split_tile_lines("a\n"), vec!["a", ""]);
    assert_eq!(split_tile_lines(";"), vec![""]);
    assert_eq!(split_tile_lines("é#\t\nü ;ö"), vec!["é#", "ü"]);
    assert_eq!(split_tile_lines(" # ; a ; b \n;\n  ;"), vec![" #", "", ""]);
    assert_eq!(split_tile_lines(" \u{2003}\n\r\n"), vec!["", "", ""]);
}

#[test]
fn level_numbers_wrap_around() {
    assert_eq!(next_level_number(0, 3), 1);
    assert_eq!(next_level_number(1, 3), 2);
    assert_eq!(next_level_number(2, 3), 0);
    assert_eq!(next_level_number(0, 1), 0);
    assert_eq!(previous_level_number(0, 3), 2);
    assert_eq!(previous_level_number(2, 3), 1);
    assert_eq!(previous_level_number(1, 3), 0);
    assert_eq!(previous_level_number(0, 1), 0);
}
