use macroquad::camera::{pop_camera_state, push_camera_state, set_camera, set_default_camera, CameraContext};
use macroquad::coroutines;
use macroquad::exec::{take_loaded, Executor, FrameFuture};
use macroquad::experimental::coroutines::{
    start_coroutine, stop_all_coroutines, stop_coroutine, Coroutine, CoroutinesContext, Retrieved,
};
use macroquad::telemetry::{
    begin_gpu_query, begin_zone, capture_frame, disable, drawcalls, enable, end_gpu_query, end_zone, frame,
    gpu_queries, log_string, record_drawcall, reset, sample_gpu_queries, set_gpu_query_value, strings, Profiler,
    ZoneGuard,
};
use macroquad::ui::{StyleStack, TabSelector};

#[test]
fn executor_runs_spawned_futures_in_order() {
    let mut e: Executor<u32, ()> = Executor::new(());
    assert!(e.is_empty());
    e.spawn(1);
    e.spawn(2);
    let seen = std::cell::RefCell::new(vec![]);
    // the first is pending and parks with waker id 0, the second finishes
    assert!(e.tick(|id, f| {
        assert_eq!(id, 0);
        if f == 1 { Some(f) } else { None }
    }));
    assert!(e.tick(|id, f| {
        seen.borrow_mut().push((id, f));
        None
    }));
    assert_eq!(*seen.borrow(), vec![(1, 2)]);
    assert!(!e.tick(|_, f| Some(f)));
    assert!(!e.is_empty());
    // waking id 0 puts its future back in the run queue
    e.wake(0);
    assert!(e.tick(|id, f| {
        assert_eq!((id, f), (2, 1));
        None
    }));
    assert!(e.is_empty());
}

#[test]
fn frame_future_hands_out_wakers_once() {
    let mut f = FrameFuture { frame_wakers: Some(5u8) };
    assert_eq!(f.poll_wakers(), Some(5));
    assert_eq!(f.poll_wakers(), None);
    let mut loaded = Some(3);
    assert_eq!(take_loaded(&mut loaded), Some(3));
    assert_eq!(take_loaded::<i32>(&mut loaded), None);
}

#[test]
fn frame_coroutines_are_polled_until_done() {
    let mut ctx = coroutines::CoroutinesContext::new();
    let a = coroutines::start_coroutine(&mut ctx, 2u32);
    let b = coroutines::start_coroutine(&mut ctx, 0u32);
    ctx.update(|n| if n == 0 { None } else { Some(n - 1) });
    assert!(!a.is_done(&ctx));
    assert!(b.is_done(&ctx));
    ctx.update(|n| if n == 0 { None } else { Some(n - 1) });
    ctx.update(|n| if n == 0 { None } else { Some(n - 1) });
    assert!(a.is_done(&ctx));
    let c = coroutines::start_coroutine(&mut ctx, 9u32);
    coroutines::stop_coroutine(&mut ctx, c);
    assert!(c.is_done(&ctx));
    coroutines::stop_all_coroutines(&mut ctx);
    // ids are handed out from the start again
    let d = coroutines::start_coroutine(&mut ctx, 9u32);
    assert!(!d.is_done(&ctx));
}

#[test]
fn coroutine_values_are_retrieved_once() {
    let mut ctx: CoroutinesContext<u32, u64, String> = CoroutinesContext::new();
    let c: Coroutine<String> = start_coroutine(&mut ctx, 1, true);
    assert_eq!(ctx.active_coroutines_count(), 1);
    assert!(!c.is_done(&ctx));
    assert_eq!(c.retrieve(&mut ctx), None);
    ctx.update(|n| if n == 0 { Ok("done".to_string()) } else { Err(n - 1) });
    assert!(!c.is_done(&ctx));
    ctx.update(|n| if n == 0 { Ok("done".to_string()) } else { Err(n - 1) });
    assert!(c.is_done(&ctx));
    assert_eq!(c.retrieve(&mut ctx), Some(Retrieved::Value("done".to_string())));
    assert_eq!(c.retrieve(&mut ctx), None);
    assert!(c.is_done(&ctx));
    assert_eq!(ctx.active_coroutines_count(), 0);
}

#[test]
fn finished_unit_coroutine_retrieves_unit_every_time() {
    let mut ctx: CoroutinesContext<u32, u64, ()> = CoroutinesContext::new();
    let c: Coroutine<()> = start_coroutine(&mut ctx, 0, false);
    assert_eq!(c.retrieve(&mut ctx), None);
    ctx.update(|_| Ok(()));
    assert!(c.is_done(&ctx));
    // its memory is freed at once, yet every call hands out the unit value
    assert_eq!(ctx.active_coroutines_count(), 0);
    assert_eq!(c.retrieve(&mut ctx), Some(Retrieved::Unit));
    assert_eq!(c.retrieve(&mut ctx), Some(Retrieved::Unit));
}

#[test]
fn manual_poll_drives_a_coroutine_to_completion() {
    let mut ctx: CoroutinesContext<u32, u64, u32> = CoroutinesContext::new();
    let mut c: Coroutine<u32> = start_coroutine(&mut ctx, 2, true);
    c.set_manual_poll(&mut ctx, 0);
    let step = |n: u32| if n == 0 { Ok(42) } else { Err(n - 1) };
    ctx.update(step);
    assert!(!c.is_done(&ctx));
    c.poll(&mut ctx, 10, step);
    assert!(!c.is_done(&ctx));
    c.poll(&mut ctx, 20, step);
    c.poll(&mut ctx, 30, step);
    assert!(c.is_done(&ctx));
    // polling a finished coroutine changes nothing
    c.poll(&mut ctx, 40, step);
    assert_eq!(c.retrieve(&mut ctx), Some(Retrieved::Value(42)));
    assert_eq!(c.retrieve(&mut ctx), None);
}

#[test]
fn coroutines_stopped_all_at_once_stay_done() {
    let mut ctx: CoroutinesContext<u32, u64, u32> = CoroutinesContext::new();
    let a: Coroutine<u32> = start_coroutine(&mut ctx, 5, true);
    let b: Coroutine<u32> = start_coroutine(&mut ctx, 5, true);
    stop_all_coroutines(&mut ctx);
    assert_eq!(ctx.active_coroutines_count(), 0);
    assert!(a.is_done(&ctx) && b.is_done(&ctx));
    let c: Coroutine<u32> = start_coroutine(&mut ctx, 0, true);
    let d: Coroutine<u32> = start_coroutine(&mut ctx, 0, true);
    assert!(a.is_done(&ctx) && b.is_done(&ctx));
    assert!(!c.is_done(&ctx) && !d.is_done(&ctx));
    assert_eq!(a.retrieve(&mut ctx), None);
    // the old handles do not reach the new coroutines
    stop_coroutine(&mut ctx, a);
    assert_eq!(ctx.active_coroutines_count(), 2);
    ctx.update(|n| if n == 0 { Ok(7) } else { Err(n - 1) });
    assert_eq!(c.retrieve(&mut ctx), Some(Retrieved::Value(7)));
}

#[test]
fn stopping_leaves_other_coroutines_running() {
    let mut ctx: CoroutinesContext<u32, u64, ()> = CoroutinesContext::new();
    let a: Coroutine<()> = start_coroutine(&mut ctx, 5, false);
    let b: Coroutine<()> = start_coroutine(&mut ctx, 5, false);
    stop_coroutine(&mut ctx, a);
    assert!(a.is_done(&ctx));
    assert!(!b.is_done(&ctx));
    assert_eq!(ctx.active_coroutines_count(), 1);
    // stopping it again, or stopping a finished one, is a no-op
    stop_coroutine(&mut ctx, a);
    assert_eq!(ctx.active_coroutines_count(), 1);
    let c: Coroutine<()> = start_coroutine(&mut ctx, 5, false);
    let d: Coroutine<()> = start_coroutine(&mut ctx, 5, false);
    assert!(!c.is_done(&ctx) && !d.is_done(&ctx) && !b.is_done(&ctx));
    assert!(a.is_done(&ctx));
    assert_eq!(ctx.active_coroutines_count(), 3);
}

#[test]
fn manually_polled_coroutines_are_skipped_by_update() {
    let mut ctx: CoroutinesContext<u32, u64, ()> = CoroutinesContext::new();
    let mut c: Coroutine<()> = start_coroutine(&mut ctx, 0, false);
    c.set_manual_poll(&mut ctx, 0);
    ctx.update(|_| Ok(()));
    assert!(!c.is_done(&ctx));
    let d: Coroutine<()> = start_coroutine(&mut ctx, 0, false);
    stop_coroutine(&mut ctx, d);
    assert!(d.is_done(&ctx));
    stop_all_coroutines(&mut ctx);
    assert_eq!(ctx.active_coroutines_count(), 0);
}

#[test]
fn zones_nest_and_close_in_order() {
    let mut p: Profiler<u64, u32> = Profiler::new(0);
    enable(&mut p);
    reset(&mut p, 0);
    begin_zone(&mut p, "outer", 10);
    begin_zone(&mut p, "inner", 12);
    end_zone(&mut p, |start| 20 - start);
    end_zone(&mut p, |start| 30 - start);
    reset(&mut p, 33);
    let f = frame(&p);
    assert_eq!(f.full_frame_time, 33);
    assert_eq!(f.zones.len(), 2);
    assert_eq!((f.zones[0].name.as_str(), f.zones[0].start_time, f.zones[0].duration, f.zones[0].parent), ("outer", 10, 20, None));
    assert_eq!((f.zones[1].name.as_str(), f.zones[1].start_time, f.zones[1].duration, f.zones[1].parent), ("inner", 12, 8, Some(0)));
}

#[test]
fn enable_waits_for_the_next_reset_across_zones() {
    let mut p: Profiler<u64, u32> = Profiler::new(0);
    enable(&mut p);
    // not yet enabled: zones record nothing and closing one does not panic
    begin_zone(&mut p, "early", 1);
    end_zone(&mut p, |s| s);
    reset(&mut p, 2);
    assert_eq!(frame(&p).zones.len(), 0);
    // the request survived the zone pair, so this frame records
    begin_zone(&mut p, "a", 3);
    begin_zone(&mut p, "b", 4);
    end_zone(&mut p, |s| 6 - s);
    end_zone(&mut p, |s| 9 - s);
    reset(&mut p, 10);
    let f = frame(&p);
    assert_eq!(f.zones.len(), 2);
    assert_eq!((f.zones[0].name.as_str(), f.zones[0].parent), ("a", None));
    assert_eq!((f.zones[1].name.as_str(), f.zones[1].parent), ("b", Some(0)));
}

#[test]
fn zone_guard_closes_its_zone() {
    let mut p: Profiler<u64, u32> = Profiler::new(0);
    enable(&mut p);
    reset(&mut p, 0);
    let g = ZoneGuard::new(&mut p, "guarded", 5);
    g.end(&mut p, |start| 7 - start);
    reset(&mut p, 9);
    let f = frame(&p);
    assert_eq!(f.zones.len(), 1);
    assert_eq!(f.zones[0].duration, 2);
}

#[test]
fn disabled_profiler_records_no_zone() {
    let mut p: Profiler<u64, u32> = Profiler::new(0);
    disable(&mut p);
    reset(&mut p, 0);
    begin_zone(&mut p, "ignored", 1);
    end_zone(&mut p, |s| s);
    reset(&mut p, 2);
    assert_eq!(frame(&p).zones.len(), 0);
}

#[test]
fn gpu_queries_and_strings_and_capture() {
    let mut p: Profiler<u64, u32> = Profiler::new(0);
    let start = begin_gpu_query(&mut p, "shadow");
    let _ = start;
    let (name, _) = end_gpu_query(&mut p);
    assert_eq!(name, "shadow");
    set_gpu_query_value(&mut p, "shadow", 42);
    sample_gpu_queries(&mut p);
    assert!(gpu_queries(&p).iter().any(|(n, _)| n == "shadow"));
    log_string(&mut p, "hello");
    assert_eq!(strings(&p), vec!["hello".to_string()]);
    capture_frame(&mut p);
    let switch = reset(&mut p, 0);
    assert!(switch.start && !switch.stop);
    record_drawcall(&mut p, 7);
    assert_eq!(drawcalls(&p), vec![7]);
    let switch = reset(&mut p, 0);
    assert!(switch.stop && !switch.start);
}

#[test]
fn camera_states_are_saved_and_restored() {
    let mut c: CameraContext<u8, u16> = CameraContext::new();
    assert!(!c.has_saved_state());
    let flush = set_camera(&mut c, Some(1), None, true, 5);
    // what was batched under the default camera is flushed under it
    assert_eq!((flush.render_pass, flush.depth_test, flush.matrix), (None, false, None));
    push_camera_state(&mut c);
    assert!(c.has_saved_state());
    let flush = set_default_camera(&mut c);
    assert_eq!((flush.render_pass, flush.depth_test, flush.matrix), (Some(1), true, Some(5)));
    assert_eq!((c.render_pass, c.depth_test, c.camera_matrix), (None, false, None));
    let flush = pop_camera_state(&mut c).unwrap();
    assert_eq!((flush.render_pass, flush.depth_test, flush.matrix), (None, false, None));
    assert_eq!((c.render_pass, c.depth_test, c.camera_matrix), (Some(1), true, Some(5)));
    assert!(pop_camera_state(&mut c).is_none());
}

#[test]
fn style_stack_top_is_the_last_pushed_skin() {
    let mut s = StyleStack::new(0u8);
    assert_eq!(*s.top(), 0);
    s.push_skin(1);
    s.push_skin(2);
    assert_eq!(*s.top(), 2);
    s.pop_skin();
    assert_eq!(*s.top(), 1);
    s.pop_skin();
    s.pop_skin();
    assert_eq!(*s.top(), 0);
}

#[test]
fn tab_selector_starts_with_nothing_selected() {
    let mut t = TabSelector::new();
    t.new_frame();
    assert!(!t.register_selectable_widget(false, &[]));
}
