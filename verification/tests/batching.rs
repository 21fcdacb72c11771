use macroquad::quad_gl::{DrawCallBatcher, DrawCommand, DrawTarget};

fn filled(b: &DrawCallBatcher<u8, &str>, i: usize) -> (Vec<u8>, Vec<u16>) {
    let c = b.draw_call(i);
    (c.vertices[..c.vertices_count].to_vec(), c.indices[..c.indices_count].to_vec())
}

#[test]
fn geometry_with_the_same_state_shares_a_draw_call() {
    let mut b: DrawCallBatcher<u8, &str> = DrawCallBatcher::new(8, 8, 0);
    assert_eq!(b.draw_calls_count(), 0);
    b.geometry(&[1, 2, 3], &[0, 1, 2], "red", false);
    assert_eq!(b.draw_calls_count(), 1);
    assert_eq!(b.plan(2, 3, true), (false, 3));
    b.geometry(&[4, 5], &[0, 1, 1], "red", true);
    assert_eq!(b.draw_calls_count(), 1);
    // the second batch's indices are offset by the three vertices before it
    assert_eq!(filled(&b, 0), (vec![1, 2, 3, 4, 5], vec![0, 1, 2, 3, 4, 4]));
    assert_eq!(*b.draw_call_state(0), "red");
}

#[test]
fn a_new_state_or_a_full_buffer_starts_a_new_draw_call() {
    let mut b: DrawCallBatcher<u8, &str> = DrawCallBatcher::new(4, 4, 0);
    b.geometry(&[1, 2], &[0, 1], "a", false);
    b.geometry(&[3], &[0], "b", false);
    assert_eq!(b.draw_calls_count(), 2);
    assert_eq!(*b.draw_call_state(1), "b");
    // 1 vertex in the call: 1 >= 4 - 3 leaves no room for 3 more
    b.geometry(&[4, 5, 6], &[0], "b", true);
    assert_eq!(b.draw_calls_count(), 3);
    assert_eq!(filled(&b, 2), (vec![4, 5, 6], vec![0]));
}

#[test]
fn oversized_geometry_is_clamped() {
    let mut b: DrawCallBatcher<u8, &str> = DrawCallBatcher::new(2, 3, 0);
    b.geometry(&[1, 2, 3, 4], &[0, 1, 0, 1, 0], "a", false);
    assert_eq!(filled(&b, 0), (vec![1, 2], vec![0, 1, 0]));
}

#[test]
fn broken_batching_and_cleared_frames_reuse_draw_calls() {
    let mut b: DrawCallBatcher<u8, &str> = DrawCallBatcher::new(8, 8, 0);
    b.geometry(&[1], &[0], "a", false);
    b.break_batching();
    b.geometry(&[2], &[0], "a", true);
    assert_eq!(b.draw_calls_count(), 2);
    b.clear_draw_calls();
    assert_eq!(b.draw_calls_count(), 0);
    b.geometry(&[9], &[0], "c", true);
    assert_eq!(b.draw_calls_count(), 1);
    assert_eq!(filled(&b, 0), (vec![9], vec![0]));
    assert_eq!(*b.draw_call_state(0), "c");
}

#[test]
fn draw_plan_submits_calls_in_order_with_flipped_scissor() {
    let mut b: DrawCallBatcher<u8, &str> = DrawCallBatcher::new(8, 8, 0);
    b.geometry(&[1, 2, 3], &[0, 1, 2], "a", false);
    b.geometry(&[4, 5], &[0, 1], "b", false);
    let targets = vec![
        DrawTarget { viewport: None, clip: Some((10, 20, 30, 40)), size: (800, 600), capture: false },
        DrawTarget { viewport: Some((1, 2, 3, 4)), clip: None, size: (64, 32), capture: true },
    ];
    let cmds = b.draw_plan(&targets);
    assert_eq!(
        cmds,
        vec![
            DrawCommand { call: 0, viewport: (0, 0, 800, 600), scissor: (10, 540, 30, 40), indices_count: 3, track: false },
            DrawCommand { call: 1, viewport: (1, 2, 3, 4), scissor: (0, 0, 64, 32), indices_count: 2, track: true },
        ]
    );
    b.clear_draw_calls();
    assert_eq!(b.draw_calls_count(), 0);
}
