//! The display service's decisions: what each frame does and when the next
//! one is due. The caller samples the sensors, draws, writes and sleeps.

use vstd::prelude::*;

verus! {

/// What one frame of the service does once it is drawn.
#[derive(Clone, Copy, Debug, PartialEq, Eq, Structural)]
pub struct FrameActions {
    /// Write the frame to the preview PNG.
    pub save_png: bool,
    /// Send the frame to the cooler's LCD.
    pub send_lcd: bool,
    /// Log the readings of this frame.
    pub log_tick: bool,
    /// Forget the last logged error, so that it is logged again if it recurs.
    pub clear_last_error: bool,
}

/// The actions of one frame. `lcd_open` says whether a cooler is driven (with
/// `lcd = false` there is none and the service only renders to PNG), and
/// `lcd_ok` whether sending the frame to it succeeded. A frame is logged when
/// there is no cooler or the cooler took it; a frame the cooler took clears
/// the last error.
pub fn frame_actions(save_png: bool, lcd_open: bool, lcd_ok: bool) -> (a: FrameActions)
    ensures
        a.save_png == save_png,
        a.send_lcd == lcd_open,
        a.log_tick == (!lcd_open || lcd_ok),
        a.clear_last_error == (lcd_open && lcd_ok),
{
    FrameActions {
        save_png,
        send_lcd: lcd_open,
        log_tick: !lcd_open || lcd_ok,
        clear_last_error: lcd_open && lcd_ok,
    }
}

/// The deadline of the next frame and how long to sleep until it, all in
/// nanoseconds on one clock. Frames are scheduled on absolute deadlines, one
/// interval apart, so a slow frame does not make the period drift; when the
/// next deadline has already passed, the schedule restarts from now rather
/// than trying to catch up.
pub open spec fn spec_next_wake(next_ns: int, interval_ns: int, now_ns: int) -> (int, int) {
    let due = next_ns + interval_ns;
    if due > now_ns {
        (due, due - now_ns)
    } else {
        (now_ns, 0)
    }
}

/// The next deadline and the time to sleep until it (see `spec_next_wake`).
pub fn next_wake(next_ns: u128, interval_ns: u128, now_ns: u128) -> (r: (u128, u128))
    requires
        next_ns + interval_ns <= u128::MAX,
    ensures
        r.0 == (if next_ns + interval_ns > now_ns { next_ns + interval_ns } else { now_ns as int }),
        r.1 == r.0 - now_ns,
        (r.0 as int, r.1 as int) == spec_next_wake(next_ns as int, interval_ns as int, now_ns as int),
{
    let due = next_ns + interval_ns;
    if due > now_ns {
        (due, due - now_ns)
    } else {
        (now_ns, 0)
    }
}

/// Law: the service never sleeps past its deadline and never schedules a
/// frame in the past: the next deadline is at least now, the sleep ends
/// exactly on it, and while the service keeps up the deadlines are exactly
/// one interval apart.
pub proof fn lemma_next_wake_on_schedule(next_ns: int, interval_ns: int, now_ns: int)
    requires
        interval_ns >= 0,
    ensures
        spec_next_wake(next_ns, interval_ns, now_ns).0 >= now_ns,
        spec_next_wake(next_ns, interval_ns, now_ns).1 >= 0,
        now_ns + spec_next_wake(next_ns, interval_ns, now_ns).1 == spec_next_wake(next_ns, interval_ns, now_ns).0,
        next_ns + interval_ns > now_ns ==> spec_next_wake(next_ns, interval_ns, now_ns).0 == next_ns + interval_ns,
        next_ns + interval_ns <= now_ns ==> spec_next_wake(next_ns, interval_ns, now_ns).1 == 0,
{
}

} // verus!
