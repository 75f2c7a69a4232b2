use vstd::prelude::*;

verus! {

/// A point of the world in tile units. Each coordinate is kept as the
/// IEEE-754 binary64 encoding of the number, so that a position read from
/// a level file is written back bit for bit.
#[derive(Clone, Copy, Debug, PartialEq, Eq, Structural)]
pub struct Position {
    pub x: u64,
    pub y: u64,
}

/// A billboard placed in a level: where it stands and which image it
/// shows (a 1-based index into the sprite images).
#[derive(Clone, Copy, Debug, PartialEq, Eq, Structural)]
pub struct Sprite {
    pub pos: Position,
    pub sprite_type: u8,
}

impl Sprite {
    pub open spec fn new_spec(x: u64, y: u64, spr_type: u8) -> Sprite {
        Sprite { pos: Position { x, y }, sprite_type: spr_type }
    }

    /// A sprite at the position whose coordinates have the encodings `x`
    /// and `y`.
    pub fn new(x: u64, y: u64, spr_type: u8) -> (r: Sprite)
        ensures
            r == Sprite::new_spec(x, y, spr_type),
    {
        Sprite { pos: Position { x, y }, sprite_type: spr_type }
    }
}

} // verus!
