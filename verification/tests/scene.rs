use macroquad::compat::{init_compat_mode, next_frame, CompatContext};
use macroquad::experimental::animation::{Animation, AnimationCursor};
use macroquad::file::{asset_path, set_pc_assets_folder, FileContext};
use macroquad::gizmos::{draw_gizmos, gizmos_add_line, init_gizmos};
use macroquad::input::{end_frame_touches, phase_after_frame, Touch, TouchPhase};
use macroquad::racey_cell::RacyCell;
use macroquad::scene::{ShadowCaster, ShadowSplit, Transform, AABB};
use macroquad::scene_graph::{CameraHandle, Model, ModelHandle, Node};
use macroquad::sprite_layer::Axis;

#[test]
fn gizmo_lines_drawn_once_unless_they_persist() {
    let mut g = init_gizmos();
    gizmos_add_line(&mut g, false, (0, 0), (1, 1));
    gizmos_add_line(&mut g, true, (2, 2), (3, 3));
    assert_eq!(draw_gizmos(&mut g), vec![((0, 0), (1, 1)), ((2, 2), (3, 3))]);
    assert_eq!(draw_gizmos(&mut g), vec![((2, 2), (3, 3))]);
    assert_eq!(draw_gizmos(&mut g), vec![((2, 2), (3, 3))]);
}

#[test]
fn next_frame_shares_the_wakers_of_the_compat_layer() {
    let mut state: Option<CompatContext<std::rc::Rc<u8>>> = None;
    init_compat_mode(&mut state, std::rc::Rc::new(4));
    let f = next_frame(&state);
    let w = f.frame_wakers.unwrap();
    assert_eq!(*w, 4);
    assert!(std::rc::Rc::ptr_eq(&w, &state.as_ref().unwrap().frame_wakers));
}

#[test]
fn assets_folder_prefixes_paths() {
    let mut ctx = FileContext::new();
    assert_eq!(asset_path(&ctx, "a.png"), "a.png");
    set_pc_assets_folder(&mut ctx, "assets");
    assert_eq!(asset_path(&ctx, "a.png"), "assets/a.png");
    set_pc_assets_folder(&mut ctx, "x");
    assert_eq!(asset_path(&ctx, "é/b"), "x/é/b");
}

#[test]
fn touches_end_their_frame() {
    assert_eq!(phase_after_frame(TouchPhase::Started), Some(TouchPhase::Stationary));
    assert_eq!(phase_after_frame(TouchPhase::Moved), Some(TouchPhase::Stationary));
    assert_eq!(phase_after_frame(TouchPhase::Stationary), Some(TouchPhase::Stationary));
    assert_eq!(phase_after_frame(TouchPhase::Ended), None);
    assert_eq!(phase_after_frame(TouchPhase::Cancelled), None);
    let mut touches = vec![
        Touch { id: 1, phase: TouchPhase::Started, position: 'a' },
        Touch { id: 2, phase: TouchPhase::Ended, position: 'b' },
        Touch { id: 3, phase: TouchPhase::Moved, position: 'c' },
        Touch { id: 4, phase: TouchPhase::Cancelled, position: 'd' },
    ];
    end_frame_touches(&mut touches);
    let left: Vec<(u64, TouchPhase, char)> = touches.iter().map(|t| (t.id, t.phase, t.position)).collect();
    assert_eq!(left, vec![(1, TouchPhase::Stationary, 'a'), (3, TouchPhase::Stationary, 'c')]);
}

#[test]
fn racy_cell_reads_what_was_written() {
    let mut c = RacyCell::new(1);
    assert_eq!(*c.get_ref(), 1);
    *c.get_ref_mut() = 5;
    assert_eq!(*c.get_ref(), 5);
}

fn model(names: &[&str]) -> Model<i32> {
    Model { nodes: names.iter().map(|n| Node { name: n.to_string(), transform: 0 }).collect() }
}

#[test]
fn model_handles_update_their_model_only() {
    let mut models = vec![(model(&["arm", "leg", "arm"]), 1), (model(&["arm"]), 2)];
    let h = ModelHandle(0);
    h.update(&mut models, |t| t + 10);
    assert_eq!((models[0].1, models[1].1), (11, 2));
    h.update_child(&mut models, "arm", |t| t - 1);
    let t: Vec<i32> = models[0].0.nodes.iter().map(|n| n.transform).collect();
    assert_eq!(t, vec![-1, 0, -1]);
    assert_eq!(models[1].0.nodes[0].transform, 0);

    let mut placed = vec![((), Transform { translation: (1, 2), scale: (1, 1), rotation: 7 })];
    assert_eq!(ModelHandle(0).translation(&placed), (1, 2));
    assert_eq!(ModelHandle(0).rotation(&placed), 7);
    ModelHandle(0).update(&mut placed, |mut t: Transform<(i32, i32), i32>| {
        t.rotation = 8;
        t
    });
    assert_eq!(ModelHandle(0).rotation(&placed), 8);

    let mut cameras = vec![1, 2, 3];
    CameraHandle(1).update(&mut cameras, |c| c * 100);
    assert_eq!(cameras, vec![1, 200, 3]);
}

#[test]
fn animation_frames_wrap_around() {
    let anims = vec![
        Animation { name: "idle".to_string(), row: 0, frames: 3, fps: 10 },
        Animation { name: "run".to_string(), row: 1, frames: 2, fps: 10 },
    ];
    let mut c = AnimationCursor::new(anims, true);
    c.update(true);
    c.update(true);
    assert_eq!(c.frame, 2);
    c.update(false);
    assert_eq!(c.frame, 2);
    c.update(true);
    assert_eq!(c.frame, 0);
    c.set_frame(5);
    c.set_animation(1);
    assert_eq!((c.current_animation(), c.frame), (1, 1));
    c.playing = false;
    c.update(true);
    assert_eq!(c.frame, 1);
}

#[test]
fn scene_values() {
    let b = AABB { min: (0, 0, 0), max: (1, 1, 1) };
    let copy = b;
    assert_eq!(copy.max, (1, 1, 1));
    let caster = ShadowCaster { direction: (0, -1, 0), split: ShadowSplit::PSSM2 };
    assert_eq!(caster.split, ShadowSplit::PSSM2);
    assert_ne!(Axis::X, Axis::Z);
}
