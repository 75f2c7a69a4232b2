use retro_fps::level::Level;
use retro_fps::level_file::{decode_level, encode_level, LevelFileError};
use retro_fps::sprite::Sprite;

fn sample_level() -> Level {
    let mut level = Level::new(2, 1);
    level.set_tile(1, 0, 5);
    level.set_spawn(1.5f64.to_bits(), 0.5f64.to_bits());
    level.place_sprite(Sprite::new(0.5f64.to_bits(), 0.25f64.to_bits(), 3));
    level
}

#[test]
fn encoding_is_big_endian() {
    let bytes = encode_level(&sample_level());
    let mut expected: Vec<u8> = Vec::new();
    expected.extend_from_slice(&2u32.to_be_bytes());
    expected.extend_from_slice(&1u32.to_be_bytes());
    expected.extend_from_slice(&1.5f64.to_be_bytes());
    expected.extend_from_slice(&0.5f64.to_be_bytes());
    expected.extend_from_slice(&[0, 5]);
    expected.extend_from_slice(&1u32.to_be_bytes());
    expected.extend_from_slice(&0.5f64.to_be_bytes());
    expected.extend_from_slice(&0.25f64.to_be_bytes());
    expected.push(3);
    assert_eq!(bytes, expected);
    assert_eq!(bytes.len(), 24 + 2 + 4 + 17);
}

#[test]
fn round_trip_keeps_everything() {
    let mut level = Level::new(4, 3);
    for (i, t) in [1u8, 0, 2, 3, 0, 0, 4, 5, 6, 0, 7, 8].iter().enumerate() {
        level.set_tile((i % 4) as isize, (i / 4) as isize, *t);
    }
    level.set_spawn(2.5f64.to_bits(), 1.5f64.to_bits());
    let sprites = vec![
        Sprite::new(3.5f64.to_bits(), 0.5f64.to_bits(), 1),
        Sprite::new(0.0f64.to_bits(), 2.999f64.to_bits(), 2),
        Sprite::new(1.25f64.to_bits(), 1.75f64.to_bits(), 8),
    ];
    for s in &sprites {
        level.place_sprite(*s);
    }
    let back = decode_level(&encode_level(&level)).unwrap();
    assert_eq!(back.width(), 4);
    assert_eq!(back.height(), 3);
    assert_eq!(back.level_data_bytes(), level.level_data_bytes());
    assert_eq!(back.spawnx(), level.spawnx());
    assert_eq!(back.spawny(), level.spawny());
    assert_eq!(back.sprites(), &sprites);
}

#[test]
fn sprites_outside_the_grid_are_dropped() {
    let mut level = Level::new(2, 2);
    let inside = Sprite::new(1.5f64.to_bits(), 1.5f64.to_bits(), 1);
    level.place_sprite(Sprite::new(2.0f64.to_bits(), 0.5f64.to_bits(), 2));
    level.place_sprite(inside);
    level.place_sprite(Sprite::new((-0.5f64).to_bits(), 0.5f64.to_bits(), 3));
    level.place_sprite(Sprite::new(0.5f64.to_bits(), 2.5f64.to_bits(), 4));
    level.place_sprite(Sprite::new(f64::NAN.to_bits(), 0.5f64.to_bits(), 5));
    level.place_sprite(Sprite::new(0.5f64.to_bits(), f64::INFINITY.to_bits(), 6));
    let back = decode_level(&encode_level(&level)).unwrap();
    assert_eq!(back.sprites(), &vec![inside]);
}

#[test]
fn short_files_are_errors() {
    let bytes = encode_level(&sample_level());
    for cut in [0usize, 3, 23, 24, 25, 29, 30, 46] {
        assert_eq!(
            decode_level(&bytes[..cut]).err(),
            Some(LevelFileError::UnexpectedEnd)
        );
    }
    assert!(decode_level(&bytes).is_ok());
}

#[test]
fn huge_dimensions_are_an_error() {
    let mut bytes: Vec<u8> = Vec::new();
    bytes.extend_from_slice(&u32::MAX.to_be_bytes());
    bytes.extend_from_slice(&u32::MAX.to_be_bytes());
    bytes.extend_from_slice(&[0u8; 20]);
    assert_eq!(decode_level(&bytes).err(), Some(LevelFileError::UnexpectedEnd));
}

#[test]
fn trailing_bytes_are_ignored() {
    let mut bytes = encode_level(&sample_level());
    bytes.extend_from_slice(&[1, 2, 3]);
    let back = decode_level(&bytes).unwrap();
    assert_eq!(back.level_data_bytes(), &[0u8, 5][..]);
    assert_eq!(back.sprites().len(), 1);
}

#[test]
fn empty_grid_round_trips() {
    let level = Level::new(0, 0);
    let bytes = encode_level(&level);
    assert_eq!(bytes.len(), 28);
    let back = decode_level(&bytes).unwrap();
    assert_eq!(back.width(), 0);
    assert_eq!(back.height(), 0);
    assert!(back.sprites().is_empty());
}

#[test]
fn error_message() {
    assert_eq!(LevelFileError::UnexpectedEnd.message(), "failed to fill whole buffer");
}
