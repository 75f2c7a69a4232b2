use vstd::prelude::*;
use vstd::utf8::encode_utf8;
use vstd::string::StringSliceAdditionalSpecFns;
use crate::input::{InputState, MouseButton, ButtonState};

verus! {

/// Largest coordinate or size that a rectangle or point holds; larger
/// values are clamped to it, so that `x + w` never overflows.
pub const MAX_INT_VALUE: i32 = 1073741823;

/// Smallest coordinate that a rectangle or point holds.
pub const MIN_INT_VALUE: i32 = -1073741824;

pub open spec fn clamp_position(v: int) -> int {
    if v > MAX_INT_VALUE {
        MAX_INT_VALUE as int
    } else if v < MIN_INT_VALUE {
        MIN_INT_VALUE as int
    } else {
        v
    }
}

/// Sizes are at least 1 and at most `MAX_INT_VALUE`.
pub open spec fn clamp_size(v: int) -> int {
    if v == 0 {
        1
    } else if v > MAX_INT_VALUE {
        MAX_INT_VALUE as int
    } else {
        v
    }
}

pub open spec fn position_ok(v: int) -> bool {
    MIN_INT_VALUE <= v <= MAX_INT_VALUE
}

fn clamp_pos(v: i32) -> (r: i32)
    ensures
        r == clamp_position(v as int),
{
    if v > MAX_INT_VALUE {
        MAX_INT_VALUE
    } else if v < MIN_INT_VALUE {
        MIN_INT_VALUE
    } else {
        v
    }
}

fn clamp_sz(v: u32) -> (r: u32)
    ensures
        r == clamp_size(v as int),
{
    if v == 0 {
        1
    } else if v > MAX_INT_VALUE as u32 {
        MAX_INT_VALUE as u32
    } else {
        v
    }
}

/// A point on the screen, in pixels.
#[derive(Clone, Copy, Debug, PartialEq, Eq, Structural)]
pub struct Point {
    pub x: i32,
    pub y: i32,
}

impl Point {
    pub open spec fn wf(self) -> bool {
        position_ok(self.x as int) && position_ok(self.y as int)
    }

    /// A point with each coordinate clamped to the usable range.
    pub fn new(x: i32, y: i32) -> (r: Point)
        ensures
            r.wf(),
            r.x == clamp_position(x as int),
            r.y == clamp_position(y as int),
    {
        Point { x: clamp_pos(x), y: clamp_pos(y) }
    }
}

pub struct RectView {
    pub x: int,
    pub y: int,
    pub w: int,
    pub h: int,
}

impl RectView {
    pub open spec fn contains(self, px: int, py: int) -> bool {
        self.x <= px < self.x + self.w && self.y <= py < self.y + self.h
    }
}

/// A rectangle on the screen: its top-left corner and its size, never
/// empty.
pub struct Rect {
    x: i32,
    y: i32,
    w: u32,
    h: u32,
}

impl View for Rect {
    type V = RectView;

    closed spec fn view(&self) -> RectView {
        RectView { x: self.x as int, y: self.y as int, w: self.w as int, h: self.h as int }
    }
}

impl Rect {
    #[verifier::type_invariant]
    spec fn inv(self) -> bool {
        position_ok(self.x as int) && position_ok(self.y as int) && 1 <= self.w <= MAX_INT_VALUE && 1
            <= self.h <= MAX_INT_VALUE
    }

    /// A rectangle from its top-left corner and size, each clamped.
    pub fn new(x: i32, y: i32, width: u32, height: u32) -> (r: Rect)
        ensures
            r@ == (RectView {
                x: clamp_position(x as int),
                y: clamp_position(y as int),
                w: clamp_size(width as int),
                h: clamp_size(height as int),
            }),
    {
        Rect { x: clamp_pos(x), y: clamp_pos(y), w: clamp_sz(width), h: clamp_sz(height) }
    }

    /// A rectangle of the given size centred on `center`: its corner is
    /// the centre less half the size, rounded toward zero, then clamped.
    pub fn from_center(center: Point, width: u32, height: u32) -> (r: Rect)
        ensures
            r@ == (RectView {
                x: clamp_position(clamp_position(center.x as int) - clamp_size(width as int) / 2),
                y: clamp_position(clamp_position(center.y as int) - clamp_size(height as int) / 2),
                w: clamp_size(width as int),
                h: clamp_size(height as int),
            }),
    {
        let w: u32 = clamp_sz(width);
        let h: u32 = clamp_sz(height);
        let x: i32 = clamp_pos(clamp_pos(center.x) - (w / 2) as i32);
        let y: i32 = clamp_pos(clamp_pos(center.y) - (h / 2) as i32);
        Rect { x, y, w, h }
    }

    pub fn x(&self) -> (r: i32)
        ensures
            r == self@.x,
            position_ok(r as int),
    {
        proof {
            use_type_invariant(self);
        }
        self.x
    }

    pub fn y(&self) -> (r: i32)
        ensures
            r == self@.y,
            position_ok(r as int),
    {
        proof {
            use_type_invariant(self);
        }
        self.y
    }

    pub fn width(&self) -> (r: u32)
        ensures
            r == self@.w,
            1 <= r <= MAX_INT_VALUE,
    {
        proof {
            use_type_invariant(self);
        }
        self.w
    }

    pub fn height(&self) -> (r: u32)
        ensures
            r == self@.h,
            1 <= r <= MAX_INT_VALUE,
    {
        proof {
            use_type_invariant(self);
        }
        self.h
    }

    /// The point lies inside: left and top edges included, right and
    /// bottom edges excluded.
    pub fn contains_point(&self, p: Point) -> (r: bool)
        ensures
            r == self@.contains(p.x as int, p.y as int),
    {
        proof {
            use_type_invariant(self);
        }
        let right: i32 = self.x + self.w as i32;
        let bottom: i32 = self.y + self.h as i32;
        p.x >= self.x && p.x < right && p.y >= self.y && p.y < bottom
    }
}

/// An RGBA colour.
#[derive(Clone, Copy, Debug, PartialEq, Eq, Structural)]
pub struct Color {
    pub r: u8,
    pub g: u8,
    pub b: u8,
    pub a: u8,
}

impl Color {
    /// An opaque colour.
    pub fn rgb(r: u8, g: u8, b: u8) -> (c: Color)
        ensures
            c == (Color { r, g, b, a: 255 }),
    {
        Color { r, g, b, a: 255 }
    }

    pub fn white() -> (c: Color)
        ensures
            c == (Color { r: 255, g: 255, b: 255, a: 255 }),
    {
        Color::rgb(255, 255, 255)
    }

    pub fn yellow() -> (c: Color)
        ensures
            c == (Color { r: 255, g: 255, b: 0, a: 255 }),
    {
        Color::rgb(255, 255, 0)
    }

    pub fn black() -> (c: Color)
        ensures
            c == (Color { r: 0, g: 0, b: 0, a: 255 }),
    {
        Color::rgb(0, 0, 0)
    }
}

/// A line of text drawn at `(x, y)`, each character `char_size` pixels wide
/// and twice that high.
pub struct Text {
    pub text: String,
    pub color: Color,
    pub x: i32,
    pub y: i32,
    pub char_size: u32,
}

impl Text {
    pub fn new(text_str: String, text_color: Color, posx: i32, posy: i32, ch_sz: u32) -> (r: Text)
        ensures
            r.text == text_str,
            r.color == text_color,
            r.x == posx,
            r.y == posy,
            r.char_size == ch_sz,
    {
        Text { text: text_str, color: text_color, x: posx, y: posy, char_size: ch_sz }
    }

    /// Width of the text in pixels: one `char_size` per byte.
    pub fn width(&self) -> (r: u32)
        requires
            self.char_size * encode_utf8(self.text@).len() <= u32::MAX,
        ensures
            r == self.char_size * encode_utf8(self.text@).len(),
    {
        if self.char_size == 0 {
            return 0;
        }
        let s: &str = self.text.as_str();
        let ghost len = encode_utf8(self.text@).len();
        assert(s.spec_bytes() == encode_utf8(self.text@));
        assert(len <= self.char_size * len) by (nonlinear_arith)
            requires
                self.char_size >= 1,
        ;
        let n: usize = s.len();
        assert(n == len);
        self.char_size * (n as u32)
    }
}

/// A monochrome image, one byte per pixel.
pub struct Bitmap {
    image_data: Vec<u8>,
    width: usize,
    height: usize,
}

/// A rectangular menu widget, with text and child widgets placed relative
/// to its corner.
pub struct MenuElement {
    pub bounding_rect: Rect,
    pub id: Option<String>,
    pub normal_color: Color,
    pub hover_color: Color,
    pub text: Vec<Text>,
    pub children: Vec<MenuElement>,
}

/// The widget's rectangle moved by `off`, as the hover test places it.
pub open spec fn placed_rect(e: MenuElement, off: Point) -> RectView {
    RectView {
        x: clamp_position(e.bounding_rect@.x + off.x),
        y: clamp_position(e.bounding_rect@.y + off.y),
        w: e.bounding_rect@.w,
        h: e.bounding_rect@.h,
    }
}

/// The pointer at `(mx, my)` lies over the widget moved by `off`.
pub open spec fn hovered_at(e: MenuElement, off: Point, mx: i32, my: i32) -> bool {
    placed_rect(e, off).contains(clamp_position(mx as int), clamp_position(my as int))
}

/// Where the children of a widget placed at `off` are placed.
pub open spec fn children_offset(e: MenuElement, off: Point) -> Point {
    Point {
        x: clamp_position(e.bounding_rect@.x + off.x) as i32,
        y: clamp_position(e.bounding_rect@.y + off.y) as i32,
    }
}

/// Of two outcomes in visiting order, the later one if there is one.
pub open spec fn later(a: Option<Option<String>>, b: Option<Option<String>>) -> Option<
    Option<String>,
> {
    if b is Some {
        b
    } else {
        a
    }
}

/// The id of the last widget under the pointer, when the tree under `e`
/// placed at `off` is visited from a stack: a widget first, then the
/// subtrees of its children from the last child to the first. `None`
/// when no widget lies under the pointer; `Some(None)` when the last one
/// has no id.
pub open spec fn last_hovered(e: MenuElement, off: Point, mx: i32, my: i32) -> Option<
    Option<String>,
>
    decreases e, 0nat,
{
    let here = if hovered_at(e, off, mx, my) {
        Some(e.id)
    } else {
        None
    };
    later(
        here,
        children_last_hovered(e.children@, e.children@.len(), children_offset(e, off), mx, my),
    )
}

/// `last_hovered` over the subtrees of the first `k` children, visited
/// from child `k - 1` down to child 0.
pub open spec fn children_last_hovered(
    cs: Seq<MenuElement>,
    k: nat,
    off: Point,
    mx: i32,
    my: i32,
) -> Option<Option<String>>
    decreases cs, k,
{
    if k == 0 || k > cs.len() {
        None
    } else {
        later(
            last_hovered(cs[k - 1], off, mx, my),
            children_last_hovered(cs, (k - 1) as nat, off, mx, my),
        )
    }
}

/// Number of widgets in the tree under `e`.
pub open spec fn tree_size(e: MenuElement) -> nat
    decreases e, 0nat,
{
    1 + forest_size(e.children@, e.children@.len())
}

/// Number of widgets in the subtrees of the first `k` of `cs`.
pub open spec fn forest_size(cs: Seq<MenuElement>, k: nat) -> nat
    decreases cs, k,
{
    if k == 0 || k > cs.len() {
        0
    } else {
        tree_size(cs[k - 1]) + forest_size(cs, (k - 1) as nat)
    }
}

/// Number of widgets left to visit from a stack.
pub open spec fn stack_size(nodes: Seq<MenuElement>) -> nat
    decreases nodes.len(),
{
    if nodes.len() == 0 {
        0
    } else {
        tree_size(nodes.last()) + stack_size(nodes.drop_last())
    }
}

/// `last_hovered` over what is left to visit from a stack of widgets and
/// their offsets; the top of the stack is its last entry.
pub open spec fn stack_last_hovered(nodes: Seq<MenuElement>, offs: Seq<Point>, mx: i32, my: i32) -> Option<
    Option<String>,
>
    decreases nodes.len(),
{
    if nodes.len() == 0 || offs.len() != nodes.len() {
        None
    } else {
        later(
            last_hovered(nodes.last(), offs.last(), mx, my),
            stack_last_hovered(nodes.drop_last(), offs.drop_last(), mx, my),
        )
    }
}

pub open spec fn derefs(s: Seq<&MenuElement>) -> Seq<MenuElement> {
    s.map_values(|r: &MenuElement| *r)
}

/// The id that a visit leaves behind.
pub open spec fn found_id(f: Option<Option<String>>) -> Option<String> {
    match f {
        Some(id) => id,
        None => None,
    }
}

proof fn lemma_later_assoc(
    a: Option<Option<String>>,
    b: Option<Option<String>>,
    c: Option<Option<String>>,
)
    ensures
        later(a, later(b, c)) == later(later(a, b), c),
{
}

impl MenuElement {
    /// A widget of size `w` by `h` centred on `(x, y)`, with no id, text or
    /// children.
    pub fn new(x: i32, y: i32, w: u32, h: u32, normal: Color, hover: Color) -> (r: MenuElement)
        ensures
            r.bounding_rect@ == (RectView {
                x: clamp_position(clamp_position(x as int) - clamp_size(w as int) / 2),
                y: clamp_position(clamp_position(y as int) - clamp_size(h as int) / 2),
                w: clamp_size(w as int),
                h: clamp_size(h as int),
            }),
            r.id is None,
            r.normal_color == normal,
            r.hover_color == hover,
            r.text@.len() == 0,
            r.children@.len() == 0,
    {
        MenuElement {
            bounding_rect: Rect::from_center(Point::new(x, y), w, h),
            normal_color: normal,
            hover_color: hover,
            text: Vec::new(),
            children: Vec::new(),
            id: None,
        }
    }

    pub fn set_id(&mut self, id: &str)
        ensures
            final(self).id is Some,
            final(self).id->0@ == id@,
            final(self).bounding_rect@ == old(self).bounding_rect@,
            final(self).normal_color == old(self).normal_color,
            final(self).hover_color == old(self).hover_color,
            final(self).text@ == old(self).text@,
            final(self).children@ == old(self).children@,
    {
        self.id = Some(id.to_owned());
    }

    pub fn x(&self) -> (r: i32)
        ensures
            r == self.bounding_rect@.x,
            position_ok(r as int),
    {
        self.bounding_rect.x()
    }

    pub fn y(&self) -> (r: i32)
        ensures
            r == self.bounding_rect@.y,
            position_ok(r as int),
    {
        self.bounding_rect.y()
    }

    pub fn width(&self) -> (r: u32)
        ensures
            r == self.bounding_rect@.w,
            1 <= r <= MAX_INT_VALUE,
    {
        self.bounding_rect.width()
    }

    /// The widget's top-left corner.
    pub fn xy(&self) -> (r: Point)
        ensures
            r == (Point { x: self.bounding_rect@.x as i32, y: self.bounding_rect@.y as i32 }),
            r.wf(),
    {
        Point::new(self.x(), self.y())
    }

    /// The pointer lies over the widget where it stands.
    pub fn mouse_hovering(&self, input_state: &InputState) -> (r: bool)
        ensures
            r == self.bounding_rect@.contains(
                clamp_position(input_state@.mousex as int),
                clamp_position(input_state@.mousey as int),
            ),
    {
        let (mousex, mousey) = input_state.mouse_pos();
        self.bounding_rect.contains_point(Point::new(mousex, mousey))
    }

    /// The pointer lies over the widget moved by `offset`.
    pub fn mouse_hovering_with_offset(&self, input_state: &InputState, offset: &Point) -> (r: bool)
        requires
            offset.wf(),
        ensures
            r == hovered_at(*self, *offset, input_state@.mousex, input_state@.mousey),
    {
        let (mousex, mousey) = input_state.mouse_pos();
        let bounding_rect = Rect::new(
            self.x() + offset.x,
            self.y() + offset.y,
            self.bounding_rect.width(),
            self.bounding_rect.height(),
        );
        bounding_rect.contains_point(Point::new(mousex, mousey))
    }
}

impl MenuElement {
    /// The id of the widget clicked with `button` in the latest frame: of
    /// all widgets of the tree under the pointer, the one visited last,
    /// where a widget is visited before its children and the children from
    /// the last to the first. `None` when the button was not clicked or no
    /// widget lies under the pointer.
    pub fn get_clicked(&self, input_state: &InputState, button: MouseButton) -> (r: Option<String>)
        requires
            input_state@.wf(),
        ensures
            r == (if input_state@.button(button) == ButtonState::Clicked {
                found_id(
                    last_hovered(
                        *self,
                        Point { x: 0, y: 0 },
                        input_state@.mousex,
                        input_state@.mousey,
                    ),
                )
            } else {
                None
            }),
    {
        if !input_state.mouse_button_is_clicked(button) {
            return None;
        }
        let ghost mx = input_state@.mousex;
        let ghost my = input_state@.mousey;
        let ghost target = last_hovered(*self, Point { x: 0, y: 0 }, mx, my);
        let mut all_children: Vec<&MenuElement> = vec![self];
        let mut child_offset: Vec<Point> = vec![Point::new(0, 0)];
        let mut id: Option<String> = None;
        let ghost mut found: Option<Option<String>> = None;
        proof {
            let nodes = derefs(all_children@);
            assert(nodes.drop_last() =~= Seq::<MenuElement>::empty());
            assert(child_offset@.drop_last() =~= Seq::<Point>::empty());
            assert(nodes.len() == 1);
            assert(nodes.last() == *self);
            assert(child_offset@.last() == Point { x: 0, y: 0 });
            assert(stack_last_hovered(nodes, child_offset@, mx, my) == later(
                target,
                stack_last_hovered(nodes.drop_last(), child_offset@.drop_last(), mx, my),
            ));
        }
        while all_children.len() > 0
            invariant
                all_children@.len() == child_offset@.len(),
                forall|i: int| 0 <= i < child_offset@.len() ==> (#[trigger] child_offset@[i]).wf(),
                later(found, stack_last_hovered(derefs(all_children@), child_offset@, mx, my))
                    == target,
                id == found_id(found),
                mx == input_state@.mousex,
                my == input_state@.mousey,
            decreases stack_size(derefs(all_children@)),
        {
            let ghost nodes0 = derefs(all_children@);
            let ghost offs0 = child_offset@;
            let top: &MenuElement = all_children[all_children.len() - 1];
            all_children.pop();
            let offset: Point = child_offset[child_offset.len() - 1];
            child_offset.pop();
            let ghost rest = derefs(all_children@);
            let ghost rest_offs = child_offset@;
            assert(rest =~= nodes0.drop_last());
            assert(rest_offs =~= offs0.drop_last());
            let ghost found0 = found;
            if top.mouse_hovering_with_offset(input_state, &offset) {
                id = match &top.id {
                    Some(s) => Some(s.clone()),
                    None => None,
                };
                proof {
                    found = Some(top.id);
                }
            }
            let ghost here = if hovered_at(*top, offset, mx, my) {
                Some(top.id)
            } else {
                None
            };
            assert(found == later(found0, here));
            let next: Point = Point::new(top.x() + offset.x, top.y() + offset.y);
            assert(next == children_offset(*top, offset));
            let ghost cs = top.children@;
            let mut j: usize = 0;
            while j < top.children.len()
                invariant
                    j <= cs.len(),
                    cs == top.children@,
                    next.wf(),
                    all_children@.len() == child_offset@.len(),
                    forall|i: int|
                        0 <= i < child_offset@.len() ==> (#[trigger] child_offset@[i]).wf(),
                    derefs(all_children@) == rest + cs.subrange(0, j as int),
                    stack_last_hovered(derefs(all_children@), child_offset@, mx, my) == later(
                        children_last_hovered(cs, j as nat, next, mx, my),
                        stack_last_hovered(rest, rest_offs, mx, my),
                    ),
                    stack_size(derefs(all_children@)) == stack_size(rest) + forest_size(
                        cs,
                        j as nat,
                    ),
                decreases cs.len() - j,
            {
                let ghost before = derefs(all_children@);
                let ghost before_offs = child_offset@;
                all_children.push(&top.children[j]);
                child_offset.push(next);
                proof {
                    let after = derefs(all_children@);
                    assert(after =~= before.push(cs[j as int]));
                    assert(after.drop_last() =~= before);
                    assert(child_offset@.drop_last() =~= before_offs);
                    assert(rest + cs.subrange(0, j + 1) =~= after);
                    lemma_later_assoc(
                        last_hovered(cs[j as int], next, mx, my),
                        children_last_hovered(cs, j as nat, next, mx, my),
                        stack_last_hovered(rest, rest_offs, mx, my),
                    );
                }
                j = j + 1;
            }
            proof {
                assert(cs.subrange(0, cs.len() as int) =~= cs);
                lemma_later_assoc(
                    here,
                    children_last_hovered(cs, cs.len(), next, mx, my),
                    stack_last_hovered(rest, rest_offs, mx, my),
                );
                lemma_later_assoc(
                    found0,
                    here,
                    later(
                        children_last_hovered(cs, cs.len(), next, mx, my),
                        stack_last_hovered(rest, rest_offs, mx, my),
                    ),
                );
            }
        }
        id
    }
}

/// The colour a widget placed at `off` is filled with: its hover colour
/// when the pointer at `(mx, my)` lies over it.
pub open spec fn fill_color(e: MenuElement, off: Point, mx: i32, my: i32) -> Color {
    if hovered_at(e, off, mx, my) {
        e.hover_color
    } else {
        e.normal_color
    }
}

/// The rectangles to fill for the tree under `e` placed at `off`, in the
/// order a stack visits it: the widget first, then the subtrees of its
/// children from the last child to the first.
pub open spec fn fills(e: MenuElement, off: Point, mx: i32, my: i32) -> Seq<(RectView, Color)>
    decreases e, 0nat,
{
    seq![(placed_rect(e, off), fill_color(e, off, mx, my))] + children_fills(
        e.children@,
        e.children@.len(),
        children_offset(e, off),
        mx,
        my,
    )
}

/// `fills` of the subtrees of the first `k` children, from child `k - 1`
/// down to child 0.
pub open spec fn children_fills(cs: Seq<MenuElement>, k: nat, off: Point, mx: i32, my: i32) -> Seq<
    (RectView, Color),
>
    decreases cs, k,
{
    if k == 0 || k > cs.len() {
        Seq::empty()
    } else {
        fills(cs[k - 1], off, mx, my) + children_fills(cs, (k - 1) as nat, off, mx, my)
    }
}

/// `fills` of what is left to visit from a stack of widgets and offsets.
pub open spec fn stack_fills(nodes: Seq<MenuElement>, offs: Seq<Point>, mx: i32, my: i32) -> Seq<
    (RectView, Color),
>
    decreases nodes.len(),
{
    if nodes.len() == 0 || offs.len() != nodes.len() {
        Seq::empty()
    } else {
        fills(nodes.last(), offs.last(), mx, my) + stack_fills(
            nodes.drop_last(),
            offs.drop_last(),
            mx,
            my,
        )
    }
}

pub open spec fn fill_views(s: Seq<(Rect, Color)>) -> Seq<(RectView, Color)> {
    s.map_values(|p: (Rect, Color)| (p.0@, p.1))
}

impl MenuElement {
    /// The rectangles to fill to draw the tree, each with its colour, in
    /// drawing order: a widget before its children, the children from the
    /// last to the first, each child placed relative to its parent's corner.
    pub fn fill_list(&self, input_state: &InputState) -> (r: Vec<(Rect, Color)>)
        ensures
            fill_views(r@) == fills(
                *self,
                Point { x: 0, y: 0 },
                input_state@.mousex,
                input_state@.mousey,
            ),
    {
        let ghost mx = input_state@.mousex;
        let ghost my = input_state@.mousey;
        let ghost target = fills(*self, Point { x: 0, y: 0 }, mx, my);
        let mut all_children: Vec<&MenuElement> = vec![self];
        let mut child_offset: Vec<Point> = vec![Point::new(0, 0)];
        let mut out: Vec<(Rect, Color)> = Vec::new();
        proof {
            let nodes = derefs(all_children@);
            assert(nodes.drop_last() =~= Seq::<MenuElement>::empty());
            assert(child_offset@.drop_last() =~= Seq::<Point>::empty());
            assert(nodes.len() == 1);
            assert(nodes.last() == *self);
            assert(child_offset@.last() == Point { x: 0, y: 0 });
            assert(stack_fills(nodes, child_offset@, mx, my) =~= target + stack_fills(
                nodes.drop_last(),
                child_offset@.drop_last(),
                mx,
                my,
            ));
            assert(fill_views(out@) + stack_fills(nodes, child_offset@, mx, my) =~= target);
        }
        while all_children.len() > 0
            invariant
                all_children@.len() == child_offset@.len(),
                forall|i: int| 0 <= i < child_offset@.len() ==> (#[trigger] child_offset@[i]).wf(),
                fill_views(out@) + stack_fills(derefs(all_children@), child_offset@, mx, my)
                    == target,
                mx == input_state@.mousex,
                my == input_state@.mousey,
            decreases stack_size(derefs(all_children@)),
        {
            let ghost nodes0 = derefs(all_children@);
            let ghost offs0 = child_offset@;
            let ghost out0 = fill_views(out@);
            let top: &MenuElement = all_children[all_children.len() - 1];
            all_children.pop();
            let offset: Point = child_offset[child_offset.len() - 1];
            child_offset.pop();
            let ghost rest = derefs(all_children@);
            let ghost rest_offs = child_offset@;
            assert(rest =~= nodes0.drop_last());
            assert(rest_offs =~= offs0.drop_last());
            let color: Color = if top.mouse_hovering_with_offset(input_state, &offset) {
                top.hover_color
            } else {
                top.normal_color
            };
            let placed = Rect::new(
                top.x() + offset.x,
                top.y() + offset.y,
                top.bounding_rect.width(),
                top.bounding_rect.height(),
            );
            out.push((placed, color));
            let ghost entry = (placed_rect(*top, offset), fill_color(*top, offset, mx, my));
            assert(fill_views(out@) =~= out0.push(entry));
            let next: Point = Point::new(top.x() + offset.x, top.y() + offset.y);
            assert(next == children_offset(*top, offset));
            let ghost cs = top.children@;
            let mut j: usize = 0;
            while j < top.children.len()
                invariant
                    j <= cs.len(),
                    cs == top.children@,
                    next.wf(),
                    all_children@.len() == child_offset@.len(),
                    forall|i: int|
                        0 <= i < child_offset@.len() ==> (#[trigger] child_offset@[i]).wf(),
                    derefs(all_children@) == rest + cs.subrange(0, j as int),
                    stack_fills(derefs(all_children@), child_offset@, mx, my) == children_fills(
                        cs,
                        j as nat,
                        next,
                        mx,
                        my,
                    ) + stack_fills(rest, rest_offs, mx, my),
                    stack_size(derefs(all_children@)) == stack_size(rest) + forest_size(
                        cs,
                        j as nat,
                    ),
                decreases cs.len() - j,
            {
                let ghost before = derefs(all_children@);
                let ghost before_offs = child_offset@;
                all_children.push(&top.children[j]);
                child_offset.push(next);
                proof {
                    let after = derefs(all_children@);
                    assert(after =~= before.push(cs[j as int]));
                    assert(after.drop_last() =~= before);
                    assert(child_offset@.drop_last() =~= before_offs);
                    assert(rest + cs.subrange(0, j + 1) =~= after);
                    assert(stack_fills(after, child_offset@, mx, my) =~= children_fills(
                        cs,
                        (j + 1) as nat,
                        next,
                        mx,
                        my,
                    ) + stack_fills(rest, rest_offs, mx, my));
                }
                j = j + 1;
            }
            proof {
                assert(cs.subrange(0, cs.len() as int) =~= cs);
                assert(fills(*top, offset, mx, my) =~= seq![entry] + children_fills(
                    cs,
                    cs.len(),
                    next,
                    mx,
                    my,
                ));
                assert(fill_views(out@) + stack_fills(derefs(all_children@), child_offset@, mx, my)
                    =~= out0 + stack_fills(nodes0, offs0, mx, my));
            }
        }
        out
    }
}

/// Where a child's text is placed when its parent's text is at `off`: the
/// parent's place moved by the child's corner.
pub open spec fn text_place(c: MenuElement, off: Point) -> Point {
    Point {
        x: clamp_position(off.x + c.bounding_rect@.x) as i32,
        y: clamp_position(off.y + c.bounding_rect@.y) as i32,
    }
}

/// Each of the widget's lines of text, placed at `off`.
pub open spec fn own_texts(e: MenuElement, off: Point) -> Seq<(Text, Point)> {
    e.text@.map_values(|t: Text| (t, off))
}

/// The lines of text of the tree under `e`, whose own text is placed at
/// `off`, in the order a stack visits it: the widget's lines first, then
/// the subtrees of its children from the last child to the first.
pub open spec fn texts(e: MenuElement, off: Point) -> Seq<(Text, Point)>
    decreases e, 0nat,
{
    own_texts(e, off) + children_texts(e.children@, e.children@.len(), off)
}

/// `texts` of the subtrees of the first `k` children of a widget whose
/// text is at `off`, from child `k - 1` down to child 0.
pub open spec fn children_texts(cs: Seq<MenuElement>, k: nat, off: Point) -> Seq<(Text, Point)>
    decreases cs, k,
{
    if k == 0 || k > cs.len() {
        Seq::empty()
    } else {
        texts(cs[k - 1], text_place(cs[k - 1], off)) + children_texts(cs, (k - 1) as nat, off)
    }
}

/// `texts` of what is left to visit from a stack of widgets and offsets.
pub open spec fn stack_texts(nodes: Seq<MenuElement>, offs: Seq<Point>) -> Seq<(Text, Point)>
    decreases nodes.len(),
{
    if nodes.len() == 0 || offs.len() != nodes.len() {
        Seq::empty()
    } else {
        texts(nodes.last(), offs.last()) + stack_texts(nodes.drop_last(), offs.drop_last())
    }
}

pub open spec fn text_views(s: Seq<(&Text, Point)>) -> Seq<(Text, Point)> {
    s.map_values(|p: (&Text, Point)| (*p.0, p.1))
}

impl MenuElement {
    /// The lines of text to draw for the tree, each with the point its
    /// position is relative to, in drawing order: a widget's lines before
    /// its children's, the children from the last to the first. The root's
    /// lines are relative to its corner, and each child's to its parent's
    /// point moved by the child's corner.
    pub fn text_list(&self) -> (r: Vec<(&Text, Point)>)
        ensures
            text_views(r@) == texts(
                *self,
                Point { x: self.bounding_rect@.x as i32, y: self.bounding_rect@.y as i32 },
            ),
    {
        let root: Point = self.xy();
        let ghost target = texts(*self, root);
        let mut all_children: Vec<&MenuElement> = vec![self];
        let mut child_offset: Vec<Point> = vec![root];
        let mut out: Vec<(&Text, Point)> = Vec::new();
        proof {
            let nodes = derefs(all_children@);
            assert(nodes.drop_last() =~= Seq::<MenuElement>::empty());
            assert(child_offset@.drop_last() =~= Seq::<Point>::empty());
            assert(nodes.len() == 1);
            assert(nodes.last() == *self);
            assert(stack_texts(nodes, child_offset@) =~= target + stack_texts(
                nodes.drop_last(),
                child_offset@.drop_last(),
            ));
            assert(text_views(out@) + stack_texts(nodes, child_offset@) =~= target);
        }
        while all_children.len() > 0
            invariant
                all_children@.len() == child_offset@.len(),
                forall|i: int| 0 <= i < child_offset@.len() ==> (#[trigger] child_offset@[i]).wf(),
                text_views(out@) + stack_texts(derefs(all_children@), child_offset@) == target,
            decreases stack_size(derefs(all_children@)),
        {
            let ghost nodes0 = derefs(all_children@);
            let ghost offs0 = child_offset@;
            let ghost out0 = text_views(out@);
            let top: &MenuElement = all_children[all_children.len() - 1];
            all_children.pop();
            let offset: Point = child_offset[child_offset.len() - 1];
            child_offset.pop();
            let ghost rest = derefs(all_children@);
            let ghost rest_offs = child_offset@;
            assert(rest =~= nodes0.drop_last());
            assert(rest_offs =~= offs0.drop_last());
            let mut i: usize = 0;
            while i < top.text.len()
                invariant
                    i <= top.text@.len(),
                    text_views(out@) == out0 + own_texts(*top, offset).subrange(0, i as int),
                decreases top.text@.len() - i,
            {
                let ghost before = text_views(out@);
                out.push((&top.text[i], offset));
                assert(text_views(out@) =~= before.push((top.text@[i as int], offset)));
                assert(own_texts(*top, offset).subrange(0, i + 1) =~= own_texts(
                    *top,
                    offset,
                ).subrange(0, i as int).push((top.text@[i as int], offset)));
                i = i + 1;
            }
            assert(own_texts(*top, offset).subrange(0, top.text@.len() as int) =~= own_texts(
                *top,
                offset,
            ));
            let ghost out1 = text_views(out@);
            let ghost cs = top.children@;
            let mut j: usize = 0;
            while j < top.children.len()
                invariant
                    j <= cs.len(),
                    cs == top.children@,
                    offset.wf(),
                    text_views(out@) == out1,
                    all_children@.len() == child_offset@.len(),
                    forall|i: int|
                        0 <= i < child_offset@.len() ==> (#[trigger] child_offset@[i]).wf(),
                    derefs(all_children@) == rest + cs.subrange(0, j as int),
                    stack_texts(derefs(all_children@), child_offset@) == children_texts(
                        cs,
                        j as nat,
                        offset,
                    ) + stack_texts(rest, rest_offs),
                    stack_size(derefs(all_children@)) == stack_size(rest) + forest_size(
                        cs,
                        j as nat,
                    ),
                decreases cs.len() - j,
            {
                let ghost before = derefs(all_children@);
                let ghost before_offs = child_offset@;
                let child: &MenuElement = &top.children[j];
                let place: Point = Point::new(offset.x + child.x(), offset.y + child.y());
                assert(place == text_place(*child, offset));
                all_children.push(child);
                child_offset.push(place);
                proof {
                    let after = derefs(all_children@);
                    assert(after =~= before.push(cs[j as int]));
                    assert(after.drop_last() =~= before);
                    assert(child_offset@.drop_last() =~= before_offs);
                    assert(rest + cs.subrange(0, j + 1) =~= after);
                    assert(stack_texts(after, child_offset@) =~= children_texts(
                        cs,
                        (j + 1) as nat,
                        offset,
                    ) + stack_texts(rest, rest_offs));
                }
                j = j + 1;
            }
            proof {
                assert(cs.subrange(0, cs.len() as int) =~= cs);
                assert(text_views(out@) + stack_texts(derefs(all_children@), child_offset@)
                    =~= out0 + stack_texts(nodes0, offs0));
            }
        }
        out
    }
}

} // verus!
