use sokoban::grid::{Direction, Position};
use sokoban::level::Level;
use sokoban::state::{Goal, Star};
use sokoban::tile::Tile;

const W: Tile = Tile::Wall;
const I: Tile = Tile::InsideFloor;
const O: Tile = Tile::OutsideFloor;

#[test]
fn legend_maps_each_character() {
    assert_eq!(Tile::from_char('#'), Ok(Tile::Wall));
    assert_eq!(Tile::from_char('@'), Ok(Tile::Player));
    assert_eq!(Tile::from_char('+'), Ok(Tile::PlayerOnGoal));
    assert_eq!(Tile::from_char('$'), Ok(Tile::Star));
    assert_eq!(Tile::from_char('*'), Ok(Tile::StarOnGoal));
    assert_eq!(Tile::from_char('.'), Ok(Tile::Goal));
    assert_eq!(Tile::from_char(' '), Ok(Tile::OutsideFloor));
}

#[test]
fn legend_is_case_sensitive_and_names_the_offender() {
    assert_eq!(Tile::from_char('x'), Err("'x' is an invalid tile".to_string()));
    assert_eq!(Tile::from_char('\t'), Err("'\t' is an invalid tile".to_string()));
    assert_eq!(Tile::from_char('é'), Err("'é' is an invalid tile".to_string()));
    assert_eq!(Tile::from_char('\''), Err("''' is an invalid tile".to_string()));
}

#[test]
fn parse_small_level() {
    let level = Level::from_lines(vec!["#####", "#@ .#", "#####"]).unwrap();
    assert_eq!(level.width, 5);
    assert_eq!(level.height, 3);
    assert_eq!(level.start_state.player.position, Position::new(1, 1));
    assert_eq!(level.start_state.player.direction, Direction::Right);
    assert_eq!(level.start_state.goals, vec![Goal::new(Position::new(3, 1))]);
    assert!(level.start_state.stars.is_empty());
    assert_eq!(level.start_state.steps, 0);
    assert_eq!(level.map, vec![vec![W, W, W, W, W], vec![W, I, I, I, W], vec![W, W, W, W, W]]);
}

#[test]
fn empty_level_is_rejected() {
    let r = Level::from_lines(Vec::new());
    assert_eq!(r.unwrap_err(), "Invalid level: Level is empty");
}

#[test]
fn level_without_player_is_rejected() {
    let r = Level::from_lines(vec!["###", "#.#", "###"]);
    assert_eq!(r.unwrap_err(), "Invalid level: Level has no starting position");
}

#[test]
fn first_invalid_character_is_reported() {
    let r = Level::from_lines(vec!["#####", "#@ q#", "#z###"]);
    assert_eq!(r.unwrap_err(), "'q' is an invalid tile");
}

#[test]
fn invalid_character_wins_over_missing_player() {
    let r = Level::from_lines(vec!["#B#"]);
    assert_eq!(r.unwrap_err(), "'B' is an invalid tile");
}

#[test]
fn short_rows_are_padded_with_floor() {
    let level = Level::from_lines(vec!["#######", "#@", "###"]).unwrap();
    assert_eq!(level.width, 7);
    assert_eq!(level.height, 3);
    for row in &level.map {
        assert_eq!(row.len(), 7);
    }
    assert_eq!(level.map[1], vec![W, I, I, I, I, I, I]);
    assert_eq!(level.map[2], vec![W, W, W, I, I, I, I]);
}

#[test]
fn trailing_spaces_and_omitted_cells_give_the_same_map() {
    let padded = Level::from_lines(vec!["####", "#@  ", "####"]).unwrap();
    let short = Level::from_lines(vec!["####", "#@", "####"]).unwrap();
    assert_eq!(padded, short);
}

#[test]
fn on_goal_markers_record_a_goal() {
    let level = Level::from_lines(vec!["######", "#+*.$#", "######"]).unwrap();
    assert_eq!(level.start_state.player.position, Position::new(1, 1));
    assert_eq!(
        level.start_state.stars,
        vec![Star::new(Position::new(2, 1)), Star::new(Position::new(4, 1))]
    );
    assert_eq!(
        level.start_state.goals,
        vec![
            Goal::new(Position::new(1, 1)),
            Goal::new(Position::new(2, 1)),
            Goal::new(Position::new(3, 1)),
        ]
    );
    assert_eq!(level.map[1], vec![W, I, I, I, I, W]);
}

#[test]
fn entities_come_in_reading_order() {
    let level = Level::from_lines(vec!["$ .", ".$@", "$. "]).unwrap();
    assert_eq!(
        level.start_state.stars,
        vec![
            Star::new(Position::new(0, 0)),
            Star::new(Position::new(1, 1)),
            Star::new(Position::new(0, 2)),
        ]
    );
    assert_eq!(
        level.start_state.goals,
        vec![
            Goal::new(Position::new(2, 0)),
            Goal::new(Position::new(0, 1)),
            Goal::new(Position::new(1, 2)),
        ]
    );
}

#[test]
fn level_with_several_players_is_rejected() {
    let r = Level::from_lines(vec!["@ @", " . "]);
    assert_eq!(r.unwrap_err(), "Invalid level: Level has more than one starting position");
    let r = Level::from_lines(vec!["#@#", "#+#"]);
    assert_eq!(r.unwrap_err(), "Invalid level: Level has more than one starting position");
}

#[test]
fn invalid_character_wins_over_several_players() {
    let r = Level::from_lines(vec!["@@", " ?"]);
    assert_eq!(r.unwrap_err(), "'?' is an invalid tile");
}

#[test]
fn well_formed_levels_are_told_from_others() {
    let level = Level::from_lines(vec!["#####", "#@$.#", "#####"]).unwrap();
    assert!(level.is_well_formed());
    let mut ragged = level.clone();
    ragged.map[1].pop();
    assert!(!ragged.is_well_formed());
    let mut marked = level.clone();
    marked.map[1][2] = Tile::Star;
    assert!(!marked.is_well_formed());
    let mut stacked = level.clone();
    stacked.start_state.stars.push(Star::new(Position::new(2, 1)));
    assert!(!stacked.is_well_formed());
    let mut outside = level.clone();
    outside.start_state.goals.push(Goal::new(Position::new(5, 1)));
    assert!(!outside.is_well_formed());
    let mut walled = level.clone();
    walled.start_state.player.position = Position::new(0, 0);
    assert!(!walled.is_well_formed());
    let mut stepped = level.clone();
    stepped.start_state.steps = 1;
    assert!(!stepped.is_well_formed());
    let mut taller = level.clone();
    taller.height = 4;
    assert!(!taller.is_well_formed());
}

#[test]
fn floor_outside_the_room_stays_exterior() {
    let level = Level::from_lines(vec!["  ####", "  #@ #", "  ####", " "]).unwrap();
    assert_eq!(level.width, 6);
    assert_eq!(
        level.map,
        vec![
            vec![O, O, W, W, W, W],
            vec![O, O, W, I, I, W],
            vec![O, O, W, W, W, W],
            vec![O, O, O, O, O, O],
        ]
    );
}

#[test]
fn interior_does_not_cross_diagonals() {
    let level = Level::from_lines(vec!["@#", "# "]).unwrap();
    assert_eq!(level.map, vec![vec![I, W], vec![W, O]]);
}

#[test]
fn map_holds_only_static_tiles() {
    let level = Level::from_lines(vec!["#######", "#+$.* #", "#######"]).unwrap();
    for row in &level.map {
        for tile in row {
            assert!(matches!(tile, Tile::Wall | Tile::InsideFloor | Tile::OutsideFloor));
        }
    }
}

#[test]
fn boxes_start_on_distinct_cells() {
    let level = Level::from_lines(vec!["$$$", "$@$", "***"]).unwrap();
    let stars = &level.start_state.stars;
    assert_eq!(stars.len(), 8);
    for i in 0..stars.len() {
        for j in 0..i {
            assert_ne!(stars[i], stars[j]);
        }
    }
}

#[test]
fn is_wall_inside_the_grid() {
    let level = Level::from_lines(vec!["#####", "#@ .#", "#####"]).unwrap();
    assert!(level.is_wall(0, 0));
    assert!(level.is_wall(4, 2));
    assert!(level.is_wall(4, 1));
    assert!(!level.is_wall(1, 1));
    assert!(!level.is_wall(3, 1));
}

#[test]
fn is_wall_is_false_outside_the_grid() {
    let wide = Level::from_lines(vec!["#######", "#@    #", "#######"]).unwrap();
    assert!(wide.is_wall(6, 1));
    assert!(wide.is_wall(5, 0));
    assert!(!wide.is_wall(7, 1));
    assert!(!wide.is_wall(-1, 1));
    assert!(!wide.is_wall(3, 3));
    assert!(!wide.is_wall(3, -1));
    assert!(!wide.is_wall(i32::MAX, i32::MAX));
    assert!(!wide.is_wall(i32::MIN, i32::MIN));
    let tall = Level::from_lines(vec!["##", "#@", "##", "##", "##"]).unwrap();
    assert!(tall.is_wall(1, 4));
    assert!(!tall.is_wall(2, 4));
    assert!(!tall.is_wall(3, 0));
    assert!(!tall.is_wall(4, 0));
    assert!(!tall.is_wall(5, 0));
    assert!(!tall.is_wall(1, 5));
}

#[test]
fn clone_of_a_level_is_equal() {
    let level = Level::from_lines(vec!["#####", "#@$.#", "#####"]).unwrap();
    assert_eq!(level.clone(), level);
}

#[test]
fn level_has_the_shape_of_its_text() {
    let lines = vec!["##", "#@   #", "", "####"];
    let level = Level::from_lines(lines.clone()).unwrap();
    assert_eq!(level.height, lines.len());
    assert_eq!(level.map.len(), lines.len());
    assert_eq!(level.width, lines.iter().map(|l| l.chars().count()).max().unwrap());
    assert_eq!(level.width, 6);
    for row in &level.map {
        assert_eq!(row.len(), level.width);
    }
}

#[test]
fn checked_reader_reads_what_fits() {
    let read = Level::try_from_lines(vec!["#####", "#@ .#", "#####"]).unwrap();
    assert_eq!(read, Level::from_lines(vec!["#####", "#@ .#", "#####"]));
    let read = Level::try_from_lines(vec!["###"]).unwrap();
    assert_eq!(read.unwrap_err(), "Invalid level: Level has no starting position");
    let read = Level::try_from_lines(Vec::new()).unwrap();
    assert_eq!(read.unwrap_err(), "Invalid level: Level is empty");
}
