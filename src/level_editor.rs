use vstd::prelude::*;
use crate::coord::{is_tile_center, numbers_equal, same_number, tile_center};
use crate::input::{ButtonState, InputState, InputView, MouseButton};
use crate::level::{Level, LevelView};
use crate::level_editor_menu::EditorMode;
use crate::sprite::Sprite;

verus! {

/// Width and height of a grid cell on the editor's screen, in pixels.
pub const CELL_PIXELS: i32 = 16;

/// Toggles a grid cell for the editor: an empty cell takes the selected
/// tile, any other cell is cleared.
pub fn invert_tile(current: u8, selected: u8) -> (r: u8)
    ensures
        r == (if current == 0 { selected } else { 0 }),
{
    if current == 0 {
        selected
    } else {
        0
    }
}

/// The sprite stands at the position with encodings `(x, y)`, comparing
/// numbers as IEEE-754 does.
pub open spec fn sprite_at(s: Sprite, x: u64, y: u64) -> bool {
    same_number(s.pos.x, x) && same_number(s.pos.y, y)
}

/// `i` is the first index of a sprite standing at `(x, y)`.
pub open spec fn first_sprite_at(sprites: Seq<Sprite>, x: u64, y: u64, i: int) -> bool {
    0 <= i < sprites.len() && sprite_at(sprites[i], x, y) && forall|j: int|
        0 <= j < i ==> !sprite_at(#[trigger] sprites[j], x, y)
}

/// The sprites after a click at `(x, y)`: the first sprite standing
/// there is taken out; if there is none, `s` is added last.
pub open spec fn toggled_sprites(sprites: Seq<Sprite>, x: u64, y: u64, s: Sprite) -> Seq<Sprite> {
    if exists|i: int| first_sprite_at(sprites, x, y, i) {
        sprites.remove(choose|i: int| first_sprite_at(sprites, x, y, i))
    } else {
        sprites.push(s)
    }
}

/// The tile under a pixel coordinate: the coordinate divided by the cell
/// size, rounded toward zero.
pub open spec fn cell_of(p: i32) -> int {
    let q = p as int;
    if q >= 0 {
        q / (CELL_PIXELS as int)
    } else {
        -((-q) / (CELL_PIXELS as int))
    }
}

/// Index of the first sprite that stands at the position with encodings
/// `(x, y)`, if any.
pub fn search_for_sprite_at_positon(level: &Level, x: u64, y: u64) -> (r: Option<usize>)
    ensures
        match r {
            Some(i) => first_sprite_at(level@.sprites, x, y, i as int),
            None => forall|j: int|
                0 <= j < level@.sprites.len() ==> !sprite_at(#[trigger] level@.sprites[j], x, y),
        },
{
    let sprites: &Vec<Sprite> = level.sprites();
    let mut i: usize = 0;
    while i < sprites.len()
        invariant
            i <= sprites@.len(),
            sprites@ == level@.sprites,
            forall|j: int| 0 <= j < i ==> !sprite_at(#[trigger] sprites@[j], x, y),
        decreases sprites@.len() - i,
    {
        let s: Sprite = sprites[i];
        if numbers_equal(s.pos.x, x) && numbers_equal(s.pos.y, y) {
            return Some(i);
        }
        i = i + 1;
    }
    None
}

/// A click in sprite mode on the tile whose centre has the encodings
/// `(cx, cy)`: takes out the sprite standing there, or places one of type
/// `selected` there.
fn handle_mouse_sprite_mode(level: &mut Level, cx: u64, cy: u64, selected: u8)
    ensures
        final(level)@ == (LevelView {
            sprites: toggled_sprites(old(level)@.sprites, cx, cy, Sprite::new_spec(cx, cy, selected)),
            ..old(level)@
        }),
{
    let spr_index: Option<usize> = search_for_sprite_at_positon(level, cx, cy);
    match spr_index {
        Some(i) => {
            level.remove_sprite(i);
            proof {
                let s = old(level)@.sprites;
                assert(first_sprite_at(s, cx, cy, i as int));
                let k = choose|k: int| first_sprite_at(s, cx, cy, k);
                if k < i {
                    assert(!sprite_at(s[k], cx, cy));
                } else if k > i {
                    assert(!sprite_at(s[i as int], cx, cy));
                }
            }
        },
        None => {
            level.place_sprite(Sprite::new(cx, cy, selected));
        },
    }
}

fn cell_index(p: i32) -> (r: i32)
    ensures
        r == cell_of(p),
{
    if p >= 0 {
        p / CELL_PIXELS
    } else {
        let q: i32 = (-(p as i64) / (CELL_PIXELS as i64)) as i32;
        -q
    }
}

/// The level after a left click on tile `(tx, ty)`, whose centre has the
/// encodings `(cx, cy)`.
pub open spec fn after_left_click(
    v: LevelView,
    mode: EditorMode,
    tx: int,
    ty: int,
    cx: u64,
    cy: u64,
    selected: u8,
) -> LevelView {
    match mode {
        EditorMode::Tiles => v.with_tile(
            tx,
            ty,
            if v.tile(tx, ty) == 0 {
                selected
            } else {
                0
            },
        ),
        EditorMode::Sprites => LevelView {
            sprites: toggled_sprites(v.sprites, cx, cy, Sprite::new_spec(cx, cy, selected)),
            ..v
        },
    }
}

/// The level after the clicks of one frame, the pointer being over the
/// tile whose centre has the encodings `(cx, cy)`.
pub open spec fn after_clicks(
    v: LevelView,
    input: InputView,
    mode: EditorMode,
    selected: u8,
    cx: u64,
    cy: u64,
) -> LevelView {
    let left = if input.button(MouseButton::Left) == ButtonState::Clicked {
        after_left_click(v, mode, cell_of(input.mousex), cell_of(input.mousey), cx, cy, selected)
    } else {
        v
    };
    if input.button(MouseButton::Right) == ButtonState::Clicked {
        LevelView { spawnx: cx, spawny: cy, ..left }
    } else {
        left
    }
}

/// Applies the editor's mouse clicks of the latest frame to the level.
/// A left click on a grid cell toggles its tile (tile mode) or the sprite
/// at its centre (sprite mode); a right click moves the spawn point to the
/// cell's centre.
pub fn handle_mouse_input_editor(
    level: &mut Level,
    input_state: &InputState,
    selected: u8,
    editor_mode: &EditorMode,
)
    requires
        old(level)@.wf(),
        input_state@.wf(),
    ensures
        final(level)@.wf(),
        exists|cx: u64, cy: u64|
            is_tile_center(cx, cell_of(input_state@.mousex)) && is_tile_center(
                cy,
                cell_of(input_state@.mousey),
            ) && final(level)@ == #[trigger] after_clicks(
                old(level)@,
                input_state@,
                *editor_mode,
                selected,
                cx,
                cy,
            ),
{
    let (mousex, mousey) = input_state.mouse_pos();
    let tx: i32 = cell_index(mousex);
    let ty: i32 = cell_index(mousey);
    let cx: u64 = tile_center(tx);
    let cy: u64 = tile_center(ty);
    if input_state.mouse_button_is_clicked(MouseButton::Left) {
        match editor_mode {
            EditorMode::Tiles => {
                let t: u8 = invert_tile(level.get_tile(tx as isize, ty as isize), selected);
                level.set_tile(tx as isize, ty as isize, t);
            },
            EditorMode::Sprites => {
                handle_mouse_sprite_mode(level, cx, cy, selected);
            },
        }
    }
    if input_state.mouse_button_is_clicked(MouseButton::Right) {
        level.set_spawn(cx, cy);
    }
    assert(level@ == after_clicks(old(level)@, input_state@, *editor_mode, selected, cx, cy));
}

} // verus!
