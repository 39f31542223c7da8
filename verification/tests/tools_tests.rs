use rust_physics_sim::sandbox::tools::{
    body_color, get_nearest_body, ActiveTool, ButtonInput, DragGesture, DragSelection,
    GestureActions,
};

const PRESS: ButtonInput = ButtonInput { pressed: true, down: true, released: false };
const HOLD: ButtonInput = ButtonInput { pressed: false, down: true, released: false };
const RELEASE: ButtonInput = ButtonInput { pressed: false, down: false, released: true };
const IDLE: ButtonInput = ButtonInput { pressed: false, down: false, released: false };

#[test]
fn nearest_of_none_is_none() {
    assert_eq!(get_nearest_body(&[]), None);
}

fn keys(v: &[u32]) -> Vec<Option<u32>> {
    v.iter().map(|&k| Some(k)).collect()
}

#[test]
fn nearest_of_one_is_it() {
    assert_eq!(get_nearest_body(&keys(&[42])), Some(0));
}

#[test]
fn nearest_picks_least_key() {
    assert_eq!(get_nearest_body(&keys(&[9, 4, 7, 5])), Some(1));
    assert_eq!(get_nearest_body(&keys(&[9, 8, 7, 3])), Some(3));
}

#[test]
fn nearest_tie_goes_to_first() {
    assert_eq!(get_nearest_body(&keys(&[5, 2, 9, 2, 2])), Some(1));
    assert_eq!(get_nearest_body(&keys(&[1, 1])), Some(0));
}

#[test]
fn nearest_skips_unordered_distances() {
    assert_eq!(get_nearest_body(&[Some(5), None, Some(3), None]), Some(2));
}

#[test]
fn nearest_stays_on_first_when_it_is_unordered() {
    // Nothing compares less than a distance that is not a number.
    assert_eq!(get_nearest_body(&[None, Some(1), Some(0)]), Some(0));
}

#[test]
fn nearest_keys_from_float_distances() {
    // Non-negative floats order as their bit patterns do.
    let distances: [f32; 5] = [3.5, 0.25, 10.0, f32::NAN, 0.5];
    let keys: Vec<Option<u32>> = distances
        .iter()
        .map(|d| if d.is_nan() { None } else { Some(d.to_bits()) })
        .collect();
    assert_eq!(get_nearest_body(&keys), Some(1));
}

#[test]
fn drag_press_grabs_nearest_and_pulls() {
    let mut sel = DragSelection::new();
    let pull = sel.update(PRESS, &keys(&[30, 10, 20]));
    assert_eq!(pull, Some(1));
    assert_eq!(sel, DragSelection { selected: Some(1), draw_line: true });
}

#[test]
fn drag_hold_keeps_pulling_grabbed_body() {
    let mut sel = DragSelection::new();
    sel.update(PRESS, &keys(&[30, 10, 20]));
    // Keys are not read without a press.
    let pull = sel.update(HOLD, &[]);
    assert_eq!(pull, Some(1));
    assert_eq!(sel.selected, Some(1));
    assert!(sel.draw_line);
}

#[test]
fn drag_release_lets_go() {
    let mut sel = DragSelection { selected: Some(2), draw_line: true };
    let pull = sel.update(RELEASE, &[]);
    assert_eq!(pull, None);
    assert_eq!(sel, DragSelection { selected: None, draw_line: false });
}

#[test]
fn drag_press_on_empty_world_grabs_nothing() {
    let mut sel = DragSelection::new();
    let pull = sel.update(PRESS, &[]);
    assert_eq!(pull, None);
    assert_eq!(sel, DragSelection { selected: None, draw_line: false });
}

#[test]
fn drag_idle_frame_changes_nothing() {
    let mut sel = DragSelection { selected: Some(0), draw_line: true };
    assert_eq!(sel.update(IDLE, &[]), None);
    assert_eq!(sel, DragSelection { selected: Some(0), draw_line: true });
}

#[test]
fn drag_click_within_one_frame() {
    // Pressed and released in the same frame while held: pulls once, then lets go.
    let click = ButtonInput { pressed: true, down: true, released: true };
    let mut sel = DragSelection::new();
    assert_eq!(sel.update(click, &keys(&[7, 3])), Some(1));
    assert_eq!(sel, DragSelection { selected: None, draw_line: false });
}

#[test]
fn gesture_press_hold_release_creates_shape() {
    let mut g: DragGesture<(i32, i32)> = DragGesture::new();
    let a = g.update((1, 2), PRESS);
    assert_eq!(a, GestureActions { preview: Some(((1, 2), (1, 2))), create: None });
    assert_eq!(g.drag_start, Some((1, 2)));
    let a = g.update((5, 6), HOLD);
    assert_eq!(a, GestureActions { preview: Some(((1, 2), (5, 6))), create: None });
    let a = g.update((8, 9), RELEASE);
    assert_eq!(a, GestureActions { preview: None, create: Some(((1, 2), (8, 9))) });
    assert_eq!(g.drag_start, None);
}

#[test]
fn gesture_release_without_start_creates_nothing() {
    let mut g: DragGesture<(i32, i32)> = DragGesture::new();
    let a = g.update((3, 3), RELEASE);
    assert_eq!(a, GestureActions { preview: None, create: None });
    assert_eq!(g.drag_start, None);
}

#[test]
fn gesture_hold_without_start_outlines_nothing() {
    let mut g: DragGesture<(i32, i32)> = DragGesture::new();
    let a = g.update((3, 3), HOLD);
    assert_eq!(a, GestureActions { preview: None, create: None });
}

#[test]
fn gesture_new_press_restarts_drag() {
    let mut g = DragGesture { drag_start: Some((0, 0)) };
    g.update((4, 4), PRESS);
    assert_eq!(g.drag_start, Some((4, 4)));
}

#[test]
fn color_fixed_when_random_off() {
    let palette = [1u8, 2, 3];
    assert_eq!(body_color(false, 9u8, &palette), 9);
}

#[test]
fn color_from_palette_when_random_on() {
    let palette = [1u8, 2, 3, 4, 5];
    for _ in 0..50 {
        let c = body_color(true, 9u8, &palette);
        assert!(palette.contains(&c));
    }
    assert_eq!(body_color(true, 9u8, &[7u8]), 7);
}

#[test]
fn active_tool_compares_by_variant() {
    assert_eq!(ActiveTool::Drag, ActiveTool::Drag);
    assert_ne!(ActiveTool::Drag, ActiveTool::Circle);
}
