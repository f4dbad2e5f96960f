use sokoban::game::Game;
use sokoban::grid::{Direction, Position};
use sokoban::level::Level;
use sokoban::sprites::{Blit, SpriteRect};
use sokoban::state::Player;
use sokoban::tile::Tile;

const WALL: SpriteRect = SpriteRect { x: 448, y: 64, w: 64, h: 64 };
const FLOOR: SpriteRect = SpriteRect { x: 192, y: 528, w: 64, h: 64 };
const STAR: SpriteRect = SpriteRect { x: 384, y: 0, w: 64, h: 64 };
const GOAL: SpriteRect = SpriteRect { x: 60, y: 576, w: 20, h: 20 };

fn tile(sprite: SpriteRect, x: i32, y: i32) -> Blit {
    Blit { sprite, x, y, w: 64, h: 64, centered: false }
}

#[test]
fn sprites_of_the_tiles() {
    assert_eq!(Tile::Wall.spritesheet_rect(), WALL);
    assert_eq!(Tile::InsideFloor.spritesheet_rect(), FLOOR);
    assert_eq!(Tile::Star.spritesheet_rect(), STAR);
    assert_eq!(Tile::Goal.spritesheet_rect(), GOAL);
    assert_eq!(Tile::StarOnGoal.spritesheet_rect(), GOAL);
    assert_eq!(Tile::PlayerOnGoal.spritesheet_rect(), GOAL);
}

#[test]
fn sprites_of_the_player() {
    let at = Position::new(0, 0);
    assert_eq!(
        Player::new(at, Direction::Down).spritesheet_rect(),
        SpriteRect { x: 554, y: 208, w: 42, h: 50 }
    );
    assert_eq!(
        Player::new(at, Direction::Left).spritesheet_rect(),
        SpriteRect { x: 543, y: 440, w: 45, h: 50 }
    );
    assert_eq!(
        Player::new(at, Direction::Right).spritesheet_rect(),
        SpriteRect { x: 512, y: 108, w: 45, h: 50 }
    );
    assert_eq!(
        Player::new(at, Direction::Up).spritesheet_rect(),
        SpriteRect { x: 554, y: 158, w: 42, h: 50 }
    );
}

#[test]
fn picture_is_as_large_as_the_level() {
    let game = Game::from_level(Level::from_lines(vec!["#####", "#@ .#", "#####"]).unwrap());
    assert_eq!(game.picture_size(), (320, 192));
}

#[test]
fn scene_is_drawn_map_goals_boxes_player() {
    let game = Game::from_level(Level::from_lines(vec![" ###", " #.#", "##$#", "#@ #", "####"]).unwrap());
    let expected = vec![
        tile(WALL, 64, 0),
        tile(WALL, 128, 0),
        tile(WALL, 192, 0),
        tile(WALL, 64, 64),
        tile(FLOOR, 128, 64),
        tile(WALL, 192, 64),
        tile(WALL, 0, 128),
        tile(WALL, 64, 128),
        tile(FLOOR, 128, 128),
        tile(WALL, 192, 128),
        tile(WALL, 0, 192),
        tile(FLOOR, 64, 192),
        tile(FLOOR, 128, 192),
        tile(WALL, 192, 192),
        tile(WALL, 0, 256),
        tile(WALL, 64, 256),
        tile(WALL, 128, 256),
        tile(WALL, 192, 256),
        Blit { sprite: GOAL, x: 128 + 22, y: 64 + 22, w: 20, h: 20, centered: false },
        tile(STAR, 128, 128),
        Blit {
            sprite: SpriteRect { x: 512, y: 108, w: 45, h: 50 },
            x: 64 + 32,
            y: 192 + 32,
            w: 45,
            h: 50,
            centered: true,
        },
    ];
    assert_eq!(game.draw_list(), expected);
}

#[test]
fn scene_follows_the_state() {
    let mut game = Game::from_level(Level::from_lines(vec!["@$."]).unwrap());
    game.make_move(Direction::Right);
    game.make_move(Direction::Up);
    let expected = vec![
        tile(FLOOR, 0, 0),
        tile(FLOOR, 64, 0),
        tile(FLOOR, 128, 0),
        Blit { sprite: GOAL, x: 150, y: 22, w: 20, h: 20, centered: false },
        tile(STAR, 128, 0),
        Blit {
            sprite: SpriteRect { x: 554, y: 158, w: 42, h: 50 },
            x: 96,
            y: -32,
            w: 42,
            h: 50,
            centered: true,
        },
    ];
    assert_eq!(game.draw_list(), expected);
}

#[test]
fn far_positions_cannot_be_drawn() {
    let mut game = Game::from_level(Level::from_lines(vec!["@$."]).unwrap());
    assert!(game.can_draw());
    game.state.player.position = Position::new(i32::MAX / 64, 0);
    assert!(!game.can_draw());
    game.state.player.position = Position::new((i32::MAX - 64) / 64, i32::MIN / 64);
    assert!(game.can_draw());
    game.state.stars[0].position = Position::new(0, i32::MIN / 64 - 1);
    assert!(!game.can_draw());
    game.state.stars[0].position = Position::new(0, 0);
    game.state.goals[0].position = Position::new(i32::MAX, 0);
    assert!(!game.can_draw());
}
