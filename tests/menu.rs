use retro_fps::input::{InputState, MouseButton};
use retro_fps::menu::{Color, MenuElement, Point, Rect, Text, MAX_INT_VALUE, MIN_INT_VALUE};

fn clicked_at(x: i32, y: i32) -> InputState {
    let mut input = InputState::new();
    input.update(&[], &[MouseButton::Left], x, y);
    input
}

fn element(x: i32, y: i32, w: u32, h: u32, id: Option<&str>) -> MenuElement {
    let c = Color::rgb(1, 2, 3);
    let mut e = MenuElement::new(x, y, w, h, c, c);
    if let Some(id) = id {
        e.set_id(id);
    }
    e
}

#[test]
fn rect_clamps_like_sdl() {
    let r = Rect::new(i32::MAX, i32::MIN, 0, u32::MAX);
    assert_eq!(r.x(), MAX_INT_VALUE);
    assert_eq!(r.y(), MIN_INT_VALUE);
    assert_eq!(r.width(), 1);
    assert_eq!(r.height(), MAX_INT_VALUE as u32);
    let p = Point::new(i32::MIN, 5);
    assert_eq!(p, Point { x: MIN_INT_VALUE, y: 5 });
}

#[test]
fn rect_from_center() {
    let r = Rect::from_center(Point::new(800, 320), 320, 640);
    assert_eq!((r.x(), r.y(), r.width(), r.height()), (640, 0, 320, 640));
    let odd = Rect::from_center(Point::new(10, 10), 5, 3);
    assert_eq!((odd.x(), odd.y()), (8, 9));
}

#[test]
fn contains_point_edges() {
    let r = Rect::new(10, 20, 5, 4);
    assert!(r.contains_point(Point::new(10, 20)));
    assert!(r.contains_point(Point::new(14, 23)));
    assert!(!r.contains_point(Point::new(15, 23)));
    assert!(!r.contains_point(Point::new(14, 24)));
    assert!(!r.contains_point(Point::new(9, 20)));
}

#[test]
fn text_width_counts_bytes() {
    let t = Text::new("Play Level".to_string(), Color::white(), 8, 6, 10);
    assert_eq!(t.width(), 100);
    let u = Text::new("é".to_string(), Color::white(), 0, 0, 3);
    assert_eq!(u.width(), 6);
}

#[test]
fn element_position() {
    let e = element(76, 608, 120, 32, Some("play_button"));
    assert_eq!(e.x(), 16);
    assert_eq!(e.y(), 592);
    assert_eq!(e.width(), 120);
    assert_eq!(e.xy(), Point { x: 16, y: 592 });
    assert_eq!(e.id.as_deref(), Some("play_button"));
}

#[test]
fn hovering_with_and_without_offset() {
    let e = element(15, 15, 10, 10, None);
    let mut input = InputState::new();
    input.update(&[], &[], 12, 19);
    assert!(e.mouse_hovering(&input));
    assert!(!e.mouse_hovering_with_offset(&input, &Point::new(5, 0)));
    input.update(&[], &[], 17, 19);
    assert!(e.mouse_hovering_with_offset(&input, &Point::new(5, 0)));
}

#[test]
fn click_picks_the_child_over_its_parent() {
    let mut root = element(50, 50, 100, 100, Some("root"));
    // The child sits at (10, 10)-(30, 30) relative to the root's corner (0, 0).
    root.children.push(element(20, 20, 20, 20, Some("child")));
    assert_eq!(root.get_clicked(&clicked_at(15, 15), MouseButton::Left), Some("child".to_string()));
    assert_eq!(root.get_clicked(&clicked_at(80, 80), MouseButton::Left), Some("root".to_string()));
    assert_eq!(root.get_clicked(&clicked_at(500, 500), MouseButton::Left), None);
}

#[test]
fn click_needs_the_button_clicked_this_frame() {
    let mut root = element(50, 50, 100, 100, Some("root"));
    root.children.push(element(20, 20, 20, 20, Some("child")));
    let input = clicked_at(15, 15);
    assert_eq!(root.get_clicked(&input, MouseButton::Right), None);
    let mut held = clicked_at(15, 15);
    held.update(&[], &[MouseButton::Left], 15, 15);
    assert_eq!(root.get_clicked(&held, MouseButton::Left), None);
}

#[test]
fn overlapping_siblings_first_child_wins() {
    let mut root = element(50, 50, 100, 100, Some("root"));
    root.children.push(element(20, 20, 20, 20, Some("first")));
    root.children.push(element(25, 25, 20, 20, Some("second")));
    assert_eq!(root.get_clicked(&clicked_at(20, 20), MouseButton::Left), Some("first".to_string()));
    assert_eq!(root.get_clicked(&clicked_at(33, 33), MouseButton::Left), Some("second".to_string()));
}

#[test]
fn last_widget_without_id_clears_the_result() {
    let mut root = element(50, 50, 100, 100, Some("root"));
    root.children.push(element(20, 20, 20, 20, None));
    assert_eq!(root.get_clicked(&clicked_at(15, 15), MouseButton::Left), None);
}

#[test]
fn offsets_add_up_through_the_tree() {
    // Root corner (100, 100); child corner (10, 10) relative; grandchild corner (5, 5).
    let mut root = element(150, 150, 100, 100, None);
    let mut child = element(30, 30, 40, 40, None);
    child.children.push(element(10, 10, 10, 10, Some("leaf")));
    root.children.push(child);
    assert_eq!(root.get_clicked(&clicked_at(117, 117), MouseButton::Left), Some("leaf".to_string()));
    assert_eq!(root.get_clicked(&clicked_at(114, 114), MouseButton::Left), None);
}

#[test]
fn fill_list_order_and_colours() {
    let normal = Color::rgb(1, 1, 1);
    let hover = Color::rgb(9, 9, 9);
    let mut root = MenuElement::new(50, 50, 100, 100, normal, hover);
    root.children.push(MenuElement::new(20, 20, 20, 20, normal, hover));
    let mut second = MenuElement::new(70, 70, 20, 20, normal, hover);
    second.children.push(MenuElement::new(5, 5, 4, 4, normal, hover));
    root.children.push(second);
    let mut input = InputState::new();
    input.update(&[], &[], 15, 15);
    let fills = root.fill_list(&input);
    let seen: Vec<(i32, i32, u32, Color)> =
        fills.iter().map(|(r, c)| (r.x(), r.y(), r.width(), *c)).collect();
    assert_eq!(
        seen,
        vec![
            (0, 0, 100, hover),
            (60, 60, 20, normal),
            (63, 63, 4, normal),
            (10, 10, 20, hover),
        ]
    );
}

#[test]
fn text_list_offsets() {
    let c = Color::rgb(1, 1, 1);
    let mut root = MenuElement::new(150, 150, 100, 100, c, c);
    root.text.push(Text::new("root".to_string(), c, 1, 2, 8));
    let mut child = MenuElement::new(30, 30, 40, 40, c, c);
    child.text.push(Text::new("a".to_string(), c, 0, 0, 8));
    child.text.push(Text::new("b".to_string(), c, 0, 0, 8));
    root.children.push(child);
    let list = root.text_list();
    let seen: Vec<(String, Point)> = list.iter().map(|(t, p)| (t.text.clone(), *p)).collect();
    assert_eq!(
        seen,
        vec![
            ("root".to_string(), Point { x: 100, y: 100 }),
            ("a".to_string(), Point { x: 110, y: 110 }),
            ("b".to_string(), Point { x: 110, y: 110 }),
        ]
    );
}
