use ready_paint::frame::fps_from_window;
use ready_paint::frame::FrameLoop;
use ready_paint::frame::Time;
use ready_paint::frame::FRAME_TIME_US;
use ready_paint::frame::MAX_DELTA_US;

#[test]
fn fixed_interval_is_sixty_per_second() {
    assert_eq!(FRAME_TIME_US, 16_666);
    assert_eq!(MAX_DELTA_US, 100_000);
}

#[test]
fn three_forty_ms_ticks_coalesce_to_three_paints() {
    // 40 ms covers at least one fixed interval, so every tick is due —
    // and due exactly once, with the raw delta handed through
    let mut fl = FrameLoop::new(0);
    let mut paints: u32 = 0;
    for now in [40_000u64, 80_000, 120_000] {
        let (due, dt) = fl.update_func(now);
        assert!(due);
        assert_eq!(dt, 40_000);
        if due {
            paints += 1;
        }
    }
    assert_eq!(paints, 3);
    assert_eq!(fl.frames_this_window(), 3);
}

#[test]
fn short_ticks_accumulate_until_due() {
    let mut fl = FrameLoop::new(0);
    let (due, dt) = fl.update_func(10_000);
    assert!(!due);
    assert_eq!(dt, 10_000);
    // 10 ms + 10 ms crosses the 16.666 ms interval: one paint, raw delta
    let (due, dt) = fl.update_func(20_000);
    assert!(due);
    assert_eq!(dt, 10_000);
}

#[test]
fn exact_interval_is_due() {
    let mut fl = FrameLoop::new(0);
    let (due, dt) = fl.update_func(FRAME_TIME_US);
    assert!(due);
    assert_eq!(dt, FRAME_TIME_US);
}

#[test]
fn stalled_tick_is_clamped() {
    // a five-second stall hands the scene at most 100 ms
    let mut fl = FrameLoop::new(0);
    let (due, dt) = fl.update_func(5_000_000);
    assert!(due);
    assert_eq!(dt, 100_000);
}

#[test]
fn clamp_boundary() {
    let mut fl = FrameLoop::new(0);
    let (_, dt) = fl.update_func(100_000);
    assert_eq!(dt, 100_000);
    let mut fl2 = FrameLoop::new(0);
    let (_, dt2) = fl2.update_func(100_001);
    assert_eq!(dt2, 100_000);
}

#[test]
fn sixty_frames_over_one_second_is_sixty_fps() {
    assert_eq!(fps_from_window(60, 1_000_000), 60_000);
}

#[test]
fn fps_window_rolls_at_exactly_one_second() {
    let mut fl = FrameLoop::new(0);
    // a single due tick landing exactly one second after the window
    // opened: the full window reports and rolls over
    let (due, _) = fl.update_func(1_000_000);
    assert!(due);
    // one frame over exactly one second reads as 1000 millihertz
    assert_eq!(fl.fps(), 1000);
    assert_eq!(fl.frames_this_window(), 0);
    // the next short tick opens a fresh window and changes nothing
    let (due, _) = fl.update_func(1_000_001);
    assert!(!due);
    assert_eq!(fl.fps(), 1000);
    assert_eq!(fl.frames_this_window(), 0);
}

#[test]
fn sixty_frames_in_a_full_window_report_sixty() {
    // 59 due ticks at the fixed interval, then a sixtieth landing
    // exactly at the one-second mark: reported FPS is exactly 60
    let mut fl = FrameLoop::new(0);
    for i in 1..60u64 {
        let (due, _) = fl.update_func(i * FRAME_TIME_US);
        assert!(due);
    }
    assert_eq!(fl.frames_this_window(), 59);
    let (due, _) = fl.update_func(1_000_000);
    assert!(due);
    assert_eq!(fl.fps(), 60_000);
    assert_eq!(fl.frames_this_window(), 0);
}

#[test]
fn steady_run_reports_its_rate() {
    // a due tick every 20 ms: the 50th lands exactly at one second,
    // closing the window with 50 frames = exactly 50 frames per second
    let mut fl = FrameLoop::new(0);
    let mut now: u64 = 0;
    for _ in 0..51 {
        now += 20_000;
        let (due, _) = fl.update_func(now);
        assert!(due);
    }
    assert_eq!(fl.fps(), 50_000);
    // the 51st tick opened the next window with one frame in it
    assert_eq!(fl.frames_this_window(), 1);
}

#[test]
fn fresh_time_is_zeroed() {
    let t = Time::new();
    assert_eq!(t.delta_us, 0);
    assert_eq!(t.elapsed_us, 0);
    assert_eq!(t.fps_millis, 0);
    assert_eq!(t.frame_count, 0);
    assert_eq!(t.last_frame_time_us, 0);
}

#[test]
fn smooth_fps_of_young_run_repeats_last_rate() {
    let mut t = Time::new();
    t.fps_millis = 42_000;
    t.elapsed_us = 500_000;
    t.frame_count = 100;
    assert_eq!(t.smooth_fps(), 42_000);
    t.elapsed_us = 2_000_000;
    t.frame_count = 5;
    assert_eq!(t.smooth_fps(), 42_000);
}

#[test]
fn smooth_fps_averages_the_whole_run() {
    let mut t = Time::new();
    t.elapsed_us = 2_000_000;
    t.frame_count = 120;
    assert_eq!(t.smooth_fps(), 60_000);
}
