//! The geometry and timing of the native splash window shown while the dashboard
//! starts. Creating and painting the window is left to the application.
use vstd::prelude::*;

verus! {

/// The splash window's width.
pub const WIN_W: i32 = 1000;
/// The splash window's height.
pub const WIN_H: i32 = 680;
/// The progress bar's width.
pub const PBAR_W: i32 = 400;
/// The progress bar's height.
pub const PBAR_H: i32 = 4;
/// How long the progress bar takes to fill, in milliseconds.
pub const PBAR_DURATION_MS: u32 = 500;
/// The interval of the splash window's timer, in milliseconds.
pub const TICK_MS: u32 = 16;

/// Integer division by two rounded toward zero, as Rust's `/` does.
pub open spec fn half_toward_zero(d: int) -> int {
    if d >= 0 {
        d / 2
    } else {
        -((-d) / 2)
    }
}

/// The top-left corner that centres the splash window on a screen of the given size.
pub fn centered_pos(screen_w: i32, screen_h: i32) -> (r: (i32, i32))
    requires
        screen_w >= i32::MIN + WIN_W,
        screen_h >= i32::MIN + WIN_H,
    ensures
        r.0 == half_toward_zero(screen_w - WIN_W),
        r.1 == half_toward_zero(screen_h - WIN_H),
{
    let dx = screen_w - WIN_W;
    let dy = screen_h - WIN_H;
    (half(dx), half(dy))
}

fn half(d: i32) -> (r: i32)
    ensures
        r == half_toward_zero(d as int),
{
    if d >= 0 {
        d / 2
    } else if d == i32::MIN {
        -1073741824
    } else {
        -((-d) / 2)
    }
}

/// The progress bar's top-left corner inside the splash window.
pub fn progress_bar_origin() -> (r: (i32, i32))
    ensures
        r.0 == 300 && r.1 == 338,
{
    ((WIN_W - PBAR_W) / 2, (WIN_H - PBAR_H) / 2)
}

/// The elapsed time after one timer tick: it advances by `TICK_MS` until the bar's
/// duration is reached, then stays.
pub fn advance(elapsed_ms: u32) -> (r: u32)
    ensures
        r == (if elapsed_ms < PBAR_DURATION_MS {
            elapsed_ms + TICK_MS
        } else {
            elapsed_ms as int
        }),
{
    if elapsed_ms < PBAR_DURATION_MS {
        elapsed_ms + TICK_MS
    } else {
        elapsed_ms
    }
}

} // verus!
