use vstd::prelude::*;
use crate::input::{ButtonState, InputState, MouseButton};
use crate::menu::{
    clamp_position,
    clamp_size,
    Color,
    MenuElement,
    Point,
    Rect,
    RectView,
    Text,
    MAX_INT_VALUE,
    MIN_INT_VALUE,
};

verus! {

/// What a click on the editor's grid places: tiles or sprites.
#[derive(Clone, Copy, Debug, PartialEq, Eq, Structural)]
pub enum EditorMode {
    Tiles,
    Sprites,
}

/// The editor's side panel: its buttons, the palette of tile or sprite
/// icons, and which icon is selected (1-based).
pub struct LevelEditorMenu {
    pub menu: MenuElement,
    pub selected: u8,
    pub icon_sz: u32,
    pub editor_mode: EditorMode,
}

/// A button of the panel: centred on `(x, y)` relative to the panel, with
/// its id and one line of white text.
pub open spec fn is_button(e: MenuElement, id: Seq<char>, x: int, y: int, w: int, h: int) -> bool {
    &&& e.id is Some
    &&& e.id->0@ == id
    &&& e.bounding_rect@ == (RectView { x: x - w / 2, y: y - h / 2, w, h })
    &&& e.text@.len() == 1
    &&& e.children@.len() == 0
}

fn button(
    x: i32,
    y: i32,
    w: u32,
    h: u32,
    normal: Color,
    hover: Color,
    id: &str,
    label: &str,
) -> (r: MenuElement)
    requires
        0 <= x <= 1000,
        0 <= y <= 1000,
        1 <= w <= 1000,
        1 <= h <= 1000,
    ensures
        is_button(r, id@, x as int, y as int, w as int, h as int),
        r.normal_color == normal,
        r.hover_color == hover,
        r.text@[0].text@ == label@,
{
    let mut b = MenuElement::new(x, y, w, h, normal, hover);
    b.set_id(id);
    b.text.push(Text::new(label.to_owned(), Color::white(), 8, 6, 10));
    b
}

/// Top-left corner of icon `i` of the palette, relative to the panel: the
/// icons run in rows from `(16, 96)`, and a row ends once the next icon
/// would start at or past the panel's width less one icon.
pub open spec fn icon_corner(i: nat, icon_sz: int, panel_w: int) -> (int, int)
    decreases i,
{
    if i == 0 {
        (16, 96)
    } else {
        let (x, y) = icon_corner((i - 1) as nat, icon_sz, panel_w);
        if x + icon_sz >= panel_w - icon_sz {
            (16, y + icon_sz)
        } else {
            (x + icon_sz, y)
        }
    }
}

/// The square of icon `i` on the screen.
pub open spec fn icon_square(m: LevelEditorMenu, i: nat) -> RectView {
    let (x, y) = icon_corner(i, m.icon_sz as int, m.menu.bounding_rect@.w);
    RectView {
        x: clamp_position(x + m.menu.bounding_rect@.x),
        y: clamp_position(y + m.menu.bounding_rect@.y),
        w: clamp_size(m.icon_sz as int),
        h: clamp_size(m.icon_sz as int),
    }
}

proof fn lemma_icon_corner_bounds(i: nat, icon_sz: int, panel_w: int)
    requires
        0 <= icon_sz,
    ensures
        16 <= icon_corner(i, icon_sz, panel_w).0 <= 16 + i * icon_sz,
        96 <= icon_corner(i, icon_sz, panel_w).1 <= 96 + i * icon_sz,
    decreases i,
{
    if i > 0 {
        lemma_icon_corner_bounds((i - 1) as nat, icon_sz, panel_w);
        assert((i - 1) * icon_sz + icon_sz == i * icon_sz) by (nonlinear_arith);
    }
}

impl LevelEditorMenu {
    /// The panel at the right of the screen with the play, save, load,
    /// tiles and sprites buttons; tile 1 selected, tile mode.
    pub fn new() -> (r: LevelEditorMenu)
        ensures
            r.menu.bounding_rect@ == (RectView { x: 640, y: 0, w: 320, h: 640 }),
            r.menu.id is None,
            r.menu.text@.len() == 1,
            r.menu.children@.len() == 5,
            is_button(r.menu.children@[0], "play_button"@, 76, 608, 120, 32),
            is_button(r.menu.children@[1], "save_button"@, 76, 568, 120, 32),
            is_button(r.menu.children@[2], "load_button"@, 212, 568, 120, 32),
            is_button(r.menu.children@[3], "tile_button"@, 56, 64, 80, 32),
            is_button(r.menu.children@[4], "sprite_button"@, 160, 64, 96, 32),
            r.selected == 1,
            r.icon_sz == 32,
            r.editor_mode == EditorMode::Tiles,
    {
        let panel = Color::rgb(32, 32, 32);
        let mut level_editor_menu = MenuElement::new(800, 320, 320, 640, panel, panel);
        let lit = Color::rgb(48, 48, 48);
        let bright = Color::rgb(64, 64, 64);
        // Play level, save level and load level, at the bottom.
        level_editor_menu.children.push(
            button(16 + 60, 640 - 16 - 16, 120, 32, panel, lit, "play_button", "Play Level"),
        );
        level_editor_menu.children.push(
            button(16 + 60, 640 - 16 - 16 - 24 - 16, 120, 32, panel, lit, "save_button", "Save Level"),
        );
        level_editor_menu.children.push(
            button(
                16 + 60 + 120 + 16,
                640 - 16 - 16 - 24 - 16,
                120,
                32,
                panel,
                lit,
                "load_button",
                "Load Level",
            ),
        );
        // Tile and sprite palettes, at the top.
        level_editor_menu.children.push(
            button(16 + 40, 16 + 48, 80, 32, lit, bright, "tile_button", "Tiles"),
        );
        level_editor_menu.children.push(
            button(16 + 80 + 16 + 48, 16 + 48, 96, 32, lit, bright, "sprite_button", "Sprites"),
        );
        level_editor_menu.text.push(
            Text::new("Level Editor".to_owned(), Color::white(), 16, 16, 12),
        );
        LevelEditorMenu {
            menu: level_editor_menu,
            selected: 1,
            icon_sz: 32,
            editor_mode: EditorMode::Tiles,
        }
    }
}

fn clamp_wide(v: i64) -> (r: i32)
    ensures
        r == clamp_position(v as int),
{
    if v > MAX_INT_VALUE as i64 {
        MAX_INT_VALUE
    } else if v < MIN_INT_VALUE as i64 {
        MIN_INT_VALUE
    } else {
        v as i32
    }
}

/// An icon of the palette as it is drawn: its square, whether it is the
/// selected one and whether the pointer lies over it.
pub struct PaletteIcon {
    pub rect: Rect,
    pub selected: bool,
    pub hovered: bool,
}

impl LevelEditorMenu {
    /// The icons fit in the panel's width, as the palette layout needs.
    pub open spec fn layout_ok(self) -> bool {
        self.icon_sz <= self.menu.bounding_rect@.w
    }

    /// The square of the icon whose corner, relative to the panel, is
    /// `(x, y)`.
    fn place_icon(&self, x: i64, y: i64) -> (r: Rect)
        requires
            -0x1_0000_0000_0000 <= x <= 0x1_0000_0000_0000,
            -0x1_0000_0000_0000 <= y <= 0x1_0000_0000_0000,
        ensures
            r@ == (RectView {
                x: clamp_position(x + self.menu.bounding_rect@.x),
                y: clamp_position(y + self.menu.bounding_rect@.y),
                w: clamp_size(self.icon_sz as int),
                h: clamp_size(self.icon_sz as int),
            }),
    {
        let px: i32 = clamp_wide(x + self.menu.x() as i64);
        let py: i32 = clamp_wide(y + self.menu.y() as i64);
        Rect::new(px, py, self.icon_sz, self.icon_sz)
    }

    /// A left click on icon `i` of the first `tile_count` selects tile
    /// `i + 1`; the first icon under the pointer wins.
    pub fn handle_mouse_input(&mut self, input_state: &InputState, tile_count: u8)
        requires
            input_state@.wf(),
            old(self).layout_ok(),
        ensures
            final(self).menu == old(self).menu,
            final(self).icon_sz == old(self).icon_sz,
            final(self).editor_mode == old(self).editor_mode,
            ({
                let px = clamp_position(input_state@.mousex as int);
                let py = clamp_position(input_state@.mousey as int);
                if input_state@.button(MouseButton::Left) == ButtonState::Clicked && exists|i: nat|
                    i < tile_count && (#[trigger] icon_square(*old(self), i)).contains(px, py) {
                    let k = final(self).selected - 1;
                    &&& 0 <= k < tile_count
                    &&& icon_square(*old(self), k as nat).contains(px, py)
                    &&& forall|j: nat|
                        j < k ==> !(#[trigger] icon_square(*old(self), j)).contains(px, py)
                } else {
                    final(self).selected == old(self).selected
                }
            }),
    {
        let ghost px = clamp_position(input_state@.mousex as int);
        let ghost py = clamp_position(input_state@.mousey as int);
        let ghost panel_w = self.menu.bounding_rect@.w;
        let s: u32 = self.icon_sz;
        let mut x: i64 = 16;
        let mut y: i64 = 96;
        let (mousex, mousey) = input_state.mouse_pos();
        let row_end: i64 = (self.menu.width() - s) as i64;
        let mut tile: u8 = 0;
        while tile < tile_count
            invariant
                tile <= tile_count,
                self.icon_sz == s,
                s <= panel_w <= MAX_INT_VALUE,
                panel_w == self.menu.bounding_rect@.w,
                row_end == panel_w - s,
                (x as int, y as int) == icon_corner(tile as nat, s as int, panel_w),
                *self == *old(self),
                px == clamp_position(input_state@.mousex as int),
                py == clamp_position(input_state@.mousey as int),
                mousex == input_state@.mousex,
                mousey == input_state@.mousey,
                input_state@.wf(),
                forall|j: nat|
                    j < tile ==> !((#[trigger] icon_square(*old(self), j)).contains(px, py)
                        && input_state@.button(MouseButton::Left) == ButtonState::Clicked),
            decreases tile_count - tile,
        {
            proof {
                lemma_layout_bounds(tile, s as int, panel_w);
            }
            let icon_rect = self.place_icon(x, y);
            assert(icon_rect@ == icon_square(*old(self), tile as nat));
            if icon_rect.contains_point(Point::new(mousex, mousey))
                && input_state.mouse_button_is_clicked(MouseButton::Left) {
                self.selected = tile + 1;
                return;
            }
            x = x + s as i64;
            if x >= row_end {
                y = y + s as i64;
                x = 16;
            }
            tile = tile + 1;
        }
        assert forall|i: nat| i < tile_count implies !((#[trigger] icon_square(
            *old(self),
            i,
        )).contains(px, py) && input_state@.button(MouseButton::Left) == ButtonState::Clicked) by {}
    }

    /// The first `count` icons of the palette, in order, as they are drawn:
    /// icon `i` is the selected one when `selected` is `i + 1`.
    pub fn palette_icons(&self, count: u8, input_state: &InputState) -> (r: Vec<PaletteIcon>)
        requires
            self.layout_ok(),
        ensures
            r@.len() == count,
            forall|i: int|
                0 <= i < count ==> {
                    &&& (#[trigger] r@[i]).rect@ == icon_square(*self, i as nat)
                    &&& r@[i].selected == (i + 1 == self.selected)
                    &&& r@[i].hovered == icon_square(*self, i as nat).contains(
                        clamp_position(input_state@.mousex as int),
                        clamp_position(input_state@.mousey as int),
                    )
                },
    {
        let ghost panel_w = self.menu.bounding_rect@.w;
        let s: u32 = self.icon_sz;
        let mut x: i64 = 16;
        let mut y: i64 = 96;
        let (mousex, mousey) = input_state.mouse_pos();
        let row_end: i64 = (self.menu.width() - s) as i64;
        let mut icons: Vec<PaletteIcon> = Vec::new();
        let mut tile: u8 = 0;
        while tile < count
            invariant
                tile <= count,
                self.icon_sz == s,
                s <= panel_w <= MAX_INT_VALUE,
                panel_w == self.menu.bounding_rect@.w,
                row_end == panel_w - s,
                (x as int, y as int) == icon_corner(tile as nat, s as int, panel_w),
                mousex == input_state@.mousex,
                mousey == input_state@.mousey,
                icons@.len() == tile,
                forall|i: int|
                    0 <= i < tile ==> {
                        &&& (#[trigger] icons@[i]).rect@ == icon_square(*self, i as nat)
                        &&& icons@[i].selected == (i + 1 == self.selected)
                        &&& icons@[i].hovered == icon_square(*self, i as nat).contains(
                            clamp_position(mousex as int),
                            clamp_position(mousey as int),
                        )
                    },
            decreases count - tile,
        {
            proof {
                lemma_layout_bounds(tile, s as int, panel_w);
            }
            let rect = self.place_icon(x, y);
            let hovered = rect.contains_point(Point::new(mousex, mousey));
            let selected = tile as u16 + 1 == self.selected as u16;
            icons.push(PaletteIcon { rect, selected, hovered });
            x = x + s as i64;
            if x >= row_end {
                y = y + s as i64;
                x = 16;
            }
            tile = tile + 1;
        }
        icons
    }
}

proof fn lemma_layout_bounds(tile: u8, s: int, panel_w: int)
    requires
        0 <= s <= MAX_INT_VALUE,
    ensures
        16 <= icon_corner(tile as nat, s, panel_w).0 <= 0x1_0000_0000_0000,
        96 <= icon_corner(tile as nat, s, panel_w).1 <= 0x1_0000_0000_0000,
        icon_corner(tile as nat, s, panel_w).0 + s <= 0x1_0000_0000_0000,
        icon_corner(tile as nat, s, panel_w).1 + s <= 0x1_0000_0000_0000,
{
    lemma_icon_corner_bounds(tile as nat, s, panel_w);
    assert((tile + 1) * s <= 256 * 0x4000_0000) by (nonlinear_arith)
        requires
            tile <= 255,
            0 <= s <= 0x4000_0000,
    ;
    assert(tile * s + s == (tile + 1) * s) by (nonlinear_arith);
}

} // verus!
