//! The screen-centre toast: the message waiting for the toast window, the window's width
//! and where it is centred.
use vstd::prelude::*;
use crate::text::{chars_of, trim, trim_str, is_blank};
use crate::windows::{WorkArea, in_i32};

verus! {

pub const OVERLAY_TOAST_LABEL: &'static str = "overlay-toast";
pub const OVERLAY_TOAST_MIN_WIDTH: u32 = 320;
pub const OVERLAY_TOAST_MAX_WIDTH: u32 = 1100;
pub const OVERLAY_TOAST_HEIGHT: u32 = 56;
pub const TOAST_VISIBLE_MS: u64 = 1800;
pub const TOAST_VISIBLE_FIRST_MS: u64 = 2800;

/// What the toast window shows.
pub struct OverlayToastPayload {
    pub message: String,
}

/// Remember `message` for the toast window.
pub fn set_pending(pending: &mut Option<String>, message: &str)
    ensures
        *final(pending) matches Some(m) && m@ == message@,
{
    *pending = Some(String::from_str(message));
}

/// The waiting message, which is then gone.
pub fn take_pending(pending: &mut Option<String>) -> (r: Option<String>)
    ensures
        r == *old(pending),
        *final(pending) is None,
{
    let r = match pending {
        Some(m) => Some(m.clone()),
        None => None,
    };
    *pending = None;
    r
}

/// The message a toast shows: trimmed; a blank one shows no toast.
pub fn toast_message(message: &str) -> (r: Option<String>)
    ensures
        trim(message@).len() == 0 ==> r is None,
        trim(message@).len() != 0 ==> (r matches Some(m) && m@ == trim(message@)),
{
    if is_blank(message) {
        None
    } else {
        Some(trim_str(message))
    }
}

/// The first step of showing a toast: the message is trimmed; a blank one shows nothing and
/// leaves the waiting message alone, another becomes the waiting message and is returned to
/// be shown.
pub fn schedule_show(pending: &mut Option<String>, message: &str) -> (r: Option<String>)
    ensures
        trim(message@).len() == 0 ==> r is None && *final(pending) == *old(pending),
        trim(message@).len() != 0 ==> (r matches Some(m) && m@ == trim(message@)) && (
        *final(pending) matches Some(p) && p@ == trim(message@)),
{
    match toast_message(message) {
        None => None,
        Some(m) => {
            set_pending(pending, m.as_str());
            Some(m)
        },
    }
}

/// The toast width in logical pixels: about 15 per character plus 64 of padding, kept within
/// 320..1100.
pub fn toast_window_width(message: &str) -> (r: u32)
    ensures
        r == ({
            let w: int = message@.len() as int * 15 + 64;
            if w < OVERLAY_TOAST_MIN_WIDTH {
                OVERLAY_TOAST_MIN_WIDTH as int
            } else if w > OVERLAY_TOAST_MAX_WIDTH {
                OVERLAY_TOAST_MAX_WIDTH as int
            } else {
                w
            }
        }),
{
    let n = chars_of(message).len();
    if n >= 70 {
        return OVERLAY_TOAST_MAX_WIDTH;
    }
    let w: u32 = (n as u32) * 15 + 64;
    if w < OVERLAY_TOAST_MIN_WIDTH {
        OVERLAY_TOAST_MIN_WIDTH
    } else if w > OVERLAY_TOAST_MAX_WIDTH {
        OVERLAY_TOAST_MAX_WIDTH
    } else {
        w
    }
}

/// Integer division rounding toward zero, as `/` does on `i32`.
pub open spec fn div_trunc(a: int, b: int) -> int {
    if a >= 0 {
        a / b
    } else {
        -((-a) / b)
    }
}

/// Where a toast of `toast_w` x `toast_h` physical pixels goes in `work`: its width kept at
/// most the work width less 24 (saturating), centred.
pub open spec fn toast_origin_of(work: WorkArea, toast_w: i32, toast_h: i32) -> (int, int) {
    let m = work.width - 24;
    let cap = if m < i32::MIN {
        i32::MIN as int
    } else {
        m
    };
    let w = if toast_w < cap {
        toast_w as int
    } else {
        cap
    };
    (work.x + div_trunc(work.width - w, 2), work.y + div_trunc(work.height - toast_h, 2))
}

pub open spec fn toast_ok(work: WorkArea, toast_w: i32, toast_h: i32) -> bool {
    let o = toast_origin_of(work, toast_w, toast_h);
    let m = work.width - 24;
    let cap = if m < i32::MIN {
        i32::MIN as int
    } else {
        m
    };
    let w = if toast_w < cap {
        toast_w as int
    } else {
        cap
    };
    &&& in_i32(work.width - w)
    &&& in_i32(work.height - toast_h)
    &&& in_i32(o.0) && in_i32(o.1)
}

fn half_trunc(a: i32) -> (r: i32)
    ensures
        r == div_trunc(a as int, 2),
{
    if a >= 0 {
        a / 2
    } else if a == i32::MIN {
        -0x4000_0000
    } else {
        -((-a) / 2)
    }
}

pub fn toast_center_origin(work: WorkArea, toast_w: i32, toast_h: i32) -> (r: (i32, i32))
    requires
        toast_ok(work, toast_w, toast_h),
    ensures
        r.0 == toast_origin_of(work, toast_w, toast_h).0,
        r.1 == toast_origin_of(work, toast_w, toast_h).1,
{
    let cap: i32 = if work.width < i32::MIN + 24 {
        i32::MIN
    } else {
        work.width - 24
    };
    let w = if toast_w < cap {
        toast_w
    } else {
        cap
    };
    (work.x + half_trunc(work.width - w), work.y + half_trunc(work.height - toast_h))
}

} // verus!
