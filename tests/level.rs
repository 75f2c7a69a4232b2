use retro_fps::level::Level;
use retro_fps::sprite::Sprite;

#[test]
fn new_level_is_empty() {
    let level = Level::new(3, 2);
    assert_eq!(level.width(), 3);
    assert_eq!(level.height(), 2);
    assert_eq!(level.level_data_bytes(), &[0u8; 6][..]);
    assert_eq!(level.spawnx(), 0.0f64.to_bits());
    assert_eq!(level.spawny(), 0.0f64.to_bits());
    assert!(level.sprites().is_empty());
}

#[test]
fn tiles_are_stored_row_after_row() {
    let mut level = Level::new(3, 2);
    level.set_tile(2, 1, 7);
    level.set_tile(1, 0, 4);
    assert_eq!(level.get_tile(2, 1), 7);
    assert_eq!(level.get_tile(1, 0), 4);
    assert_eq!(level.get_tile(0, 0), 0);
    assert_eq!(level.level_data_bytes(), &[0u8, 4, 0, 0, 0, 7][..]);
}

#[test]
fn border_reads_empty() {
    let mut level = Level::new(3, 2);
    for y in 0..2 {
        for x in 0..3 {
            level.set_tile(x, y, 9);
        }
    }
    assert_eq!(level.get_tile(-1, 0), 0);
    assert_eq!(level.get_tile(3, 0), 0);
    assert_eq!(level.get_tile(0, -1), 0);
    assert_eq!(level.get_tile(0, 2), 0);
}

#[test]
fn writes_outside_change_nothing() {
    let mut level = Level::new(3, 2);
    level.set_tile(1, 1, 5);
    let before = level.level_data_bytes().to_vec();
    level.set_tile(-1, 0, 8);
    level.set_tile(3, 0, 8);
    level.set_tile(0, -1, 8);
    level.set_tile(0, 2, 8);
    level.set_tile(isize::MIN, isize::MAX, 8);
    assert_eq!(level.level_data_bytes(), &before[..]);
    assert_eq!(level.width(), 3);
    assert_eq!(level.height(), 2);
}

#[test]
fn bounds_test() {
    let level = Level::new(3, 2);
    assert!(!level.out_of_bounds(0, 0));
    assert!(!level.out_of_bounds(2, 1));
    assert!(level.out_of_bounds(3, 1));
    assert!(level.out_of_bounds(2, 2));
    assert!(level.out_of_bounds(-1, 0));
    assert!(level.out_of_bounds(0, -1));
}

#[test]
fn empty_grid_has_no_cells() {
    let level = Level::new(0, 5);
    assert_eq!(level.level_data_bytes().len(), 0);
    assert_eq!(level.get_tile(0, 0), 0);
}

#[test]
fn sprites_keep_their_order() {
    let mut level = Level::new(4, 4);
    let a = Sprite::new(1.5f64.to_bits(), 1.5f64.to_bits(), 1);
    let b = Sprite::new(2.5f64.to_bits(), 0.5f64.to_bits(), 2);
    let c = Sprite::new(3.5f64.to_bits(), 3.5f64.to_bits(), 3);
    level.place_sprite(a);
    level.place_sprite(b);
    level.place_sprite(c);
    assert_eq!(level.sprites(), &vec![a, b, c]);
    level.remove_sprite(1);
    assert_eq!(level.sprites(), &vec![a, c]);
}

#[test]
fn spawn_moves() {
    let mut level = Level::new(4, 4);
    level.set_spawn(2.5f64.to_bits(), 3.5f64.to_bits());
    assert_eq!(f64::from_bits(level.spawnx()), 2.5);
    assert_eq!(f64::from_bits(level.spawny()), 3.5);
}
