use customaio::service::{frame_actions, next_wake, FrameActions};

#[test]
fn frame_with_a_cooler_that_takes_it() {
    assert_eq!(
        frame_actions(true, true, true),
        FrameActions { save_png: true, send_lcd: true, log_tick: true, clear_last_error: true }
    );
}

#[test]
fn frame_the_cooler_refused_is_not_logged() {
    assert_eq!(
        frame_actions(false, true, false),
        FrameActions { save_png: false, send_lcd: true, log_tick: false, clear_last_error: false }
    );
}

#[test]
fn png_only_service_logs_every_frame() {
    // `lcd = false`: no cooler, the frame only goes to the PNG.
    assert_eq!(
        frame_actions(true, false, false),
        FrameActions { save_png: true, send_lcd: false, log_tick: true, clear_last_error: false }
    );
}

#[test]
fn next_frame_is_one_interval_after_the_last_deadline() {
    assert_eq!(next_wake(1_000, 500, 1_200), (1_500, 300));
    assert_eq!(next_wake(0, 1_000_000_000, 0), (1_000_000_000, 1_000_000_000));
}

#[test]
fn a_late_frame_restarts_the_schedule_from_now() {
    assert_eq!(next_wake(1_000, 500, 1_500), (1_500, 0));
    assert_eq!(next_wake(1_000, 500, 9_000), (9_000, 0));
}
