use sokoban::tile::Tile;
use sokoban::topology::floodfill;

const W: Tile = Tile::Wall;
const I: Tile = Tile::InsideFloor;
const O: Tile = Tile::OutsideFloor;

#[test]
fn fill_relabels_the_connected_region() {
    let mut map = vec![
        vec![O, O, W, O, O],
        vec![O, W, W, O, W],
        vec![O, O, W, W, O],
    ];
    floodfill(&mut map, O, I, 0, 0);
    assert_eq!(
        map,
        vec![
            vec![I, I, W, O, O],
            vec![I, W, W, O, W],
            vec![I, I, W, W, O],
        ]
    );
}

#[test]
fn fill_from_a_corner_region() {
    let mut map = vec![
        vec![O, O, W, O, O],
        vec![O, W, W, O, W],
        vec![O, O, W, W, O],
    ];
    floodfill(&mut map, O, I, 4, 0);
    assert_eq!(
        map,
        vec![
            vec![O, O, W, I, I],
            vec![O, W, W, I, W],
            vec![O, O, W, W, O],
        ]
    );
}

#[test]
fn fill_of_a_single_cell() {
    let mut map = vec![vec![O]];
    floodfill(&mut map, O, I, 0, 0);
    assert_eq!(map, vec![vec![I]]);
}

#[test]
fn fill_with_equal_tiles_changes_nothing() {
    let mut map = vec![vec![O, O], vec![W, O]];
    floodfill(&mut map, O, O, 0, 0);
    assert_eq!(map, vec![vec![O, O], vec![W, O]]);
}

#[test]
fn fill_from_a_wall_reaches_its_floor_neighbours() {
    let mut map = vec![vec![O, W, O], vec![W, W, W], vec![O, W, O]];
    floodfill(&mut map, O, I, 1, 0);
    assert_eq!(map, vec![vec![I, W, I], vec![W, W, W], vec![O, W, O]]);
}

#[test]
fn fill_leaves_other_tiles_alone() {
    let mut map = vec![vec![W, W, W], vec![W, O, W], vec![W, W, W]];
    floodfill(&mut map, I, O, 1, 1);
    assert_eq!(map, vec![vec![W, W, W], vec![W, O, W], vec![W, W, W]]);
}

#[test]
fn fill_walks_a_long_corridor() {
    let n = 20_000;
    let mut map = vec![vec![O; n]];
    floodfill(&mut map, O, I, 0, 0);
    assert!(map[0].iter().all(|t| *t == I));
}

#[test]
fn fill_winds_through_a_spiral() {
    let mut map = vec![
        vec![O, O, O, O, O],
        vec![W, W, W, W, O],
        vec![O, O, O, W, O],
        vec![O, W, W, W, O],
        vec![O, O, O, O, O],
    ];
    floodfill(&mut map, O, I, 0, 0);
    assert_eq!(
        map,
        vec![
            vec![I, I, I, I, I],
            vec![W, W, W, W, I],
            vec![I, I, I, W, I],
            vec![I, W, W, W, I],
            vec![I, I, I, I, I],
        ]
    );
}
