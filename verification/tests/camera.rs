use sokoban::camera::Camera;
use sokoban::game::Game;
use sokoban::level::Level;

#[test]
fn camera_holds_what_it_is_given() {
    let c = Camera::new(1, -2, 30, 40, 5);
    assert_eq!(c.x_offset, 1);
    assert_eq!(c.y_offset, -2);
    assert_eq!(c.max_x_pan, 30);
    assert_eq!(c.max_y_pan, 40);
    assert_eq!(c.speed, 5);
}

#[test]
fn camera_pans_by_its_speed() {
    let mut c = Camera::new(0, 0, 30, 40, 5);
    c.move_up();
    assert_eq!(c, Camera::new(0, 5, 30, 40, 5));
    c.move_down();
    c.move_down();
    assert_eq!(c, Camera::new(0, -5, 30, 40, 5));
    c.move_left();
    assert_eq!(c, Camera::new(5, -5, 30, 40, 5));
    c.move_right();
    c.move_right();
    assert_eq!(c, Camera::new(-5, -5, 30, 40, 5));
}

#[test]
fn camera_stops_once_at_or_past_its_limit() {
    let mut c = Camera::new(0, 0, 12, 7, 5);
    for _ in 0..10 {
        c.move_left();
    }
    assert_eq!(c.x_offset, 15);
    for _ in 0..10 {
        c.move_right();
    }
    assert_eq!(c.x_offset, -15);
    for _ in 0..10 {
        c.move_up();
    }
    assert_eq!(c.y_offset, 10);
    for _ in 0..10 {
        c.move_down();
    }
    assert_eq!(c.y_offset, -10);
}

#[test]
fn camera_at_its_limit_stays() {
    let mut c = Camera::new(10, -10, 10, 10, 5);
    c.move_left();
    assert_eq!(c.x_offset, 10);
    c.move_down();
    assert_eq!(c.y_offset, -10);
}

#[test]
fn pan_limits_follow_the_size_of_the_level() {
    let small = Game::from_level(Level::from_lines(vec!["#####", "#@ .#", "#####"]).unwrap());
    assert_eq!(small.camera, Camera::new(0, 0, 337 - 1 + 64, 450 - 2 + 64, 5));
    let row = "@".to_string() + &" ".repeat(999);
    let wide = Game::from_level(Level::from_lines(vec![row.as_str()]).unwrap());
    assert_eq!(wide.camera, Camera::new(0, 0, 337 + 64, 500 - 450 + 64, 5));
    let mut rows = vec![" "; 700];
    rows[0] = "@";
    let tall = Game::from_level(Level::from_lines(rows).unwrap());
    assert_eq!(tall.camera, Camera::new(0, 0, 350 - 337 + 64, 450 + 64, 5));
}

#[test]
fn well_formed_cameras_are_told_from_others() {
    assert!(Camera::new(0, 0, 30, 40, 5).is_well_formed());
    assert!(Camera::new(35, -45, 30, 40, 5).is_well_formed());
    assert!(!Camera::new(36, 0, 30, 40, 5).is_well_formed());
    assert!(!Camera::new(0, -46, 30, 40, 5).is_well_formed());
    assert!(!Camera::new(0, 0, 30, 40, -1).is_well_formed());
    assert!(!Camera::new(0, 0, -1, 40, 5).is_well_formed());
    assert!(!Camera::new(0, 0, 30, -1, 5).is_well_formed());
    assert!(!Camera::new(0, 0, i32::MAX, 40, 5).is_well_formed());
    assert!(Camera::new(0, 0, i32::MAX - 5, 40, 5).is_well_formed());
}
