//! Decisions of the main window and tray: the extended window style of
//! fixed mode, the tray icon's single and double clicks, and which windows
//! are notification windows.
use vstd::prelude::*;

verus! {

/// A tool window: kept off the taskbar and out of "show desktop".
pub const WS_EX_TOOLWINDOW: u32 = 0x0000_0080;
/// A window that the taskbar shows.
pub const WS_EX_APPWINDOW: u32 = 0x0004_0000;

/// Two clicks closer than this many milliseconds make a double click.
pub const DOUBLE_CLICK_THRESHOLD_MS: u64 = 500;

/// The extended style of the main window in or out of fixed mode: fixed
/// makes it a tool window and not an app window, unfixed the reverse;
/// every other style bit is kept.
pub fn fixed_mode_style(ex_style: u32, fixed: bool) -> (r: u32)
    ensures
        (r & WS_EX_TOOLWINDOW != 0) == fixed,
        (r & WS_EX_APPWINDOW != 0) == !fixed,
        r & !(WS_EX_TOOLWINDOW | WS_EX_APPWINDOW) == ex_style & !(WS_EX_TOOLWINDOW
            | WS_EX_APPWINDOW),
{
    if fixed {
        let r = (ex_style | 0x80u32) & !0x0004_0000u32;
        assert(r & 0x80u32 != 0) by (bit_vector)
            requires
                r == (ex_style | 0x80u32) & !0x0004_0000u32,
        ;
        assert(r & 0x0004_0000u32 == 0) by (bit_vector)
            requires
                r == (ex_style | 0x80u32) & !0x0004_0000u32,
        ;
        assert(r & !(0x80u32 | 0x0004_0000u32) == ex_style & !(0x80u32 | 0x0004_0000u32))
            by (bit_vector)
            requires
                r == (ex_style | 0x80u32) & !0x0004_0000u32,
        ;
        r
    } else {
        let r = (ex_style & !0x80u32) | 0x0004_0000u32;
        assert(r & 0x80u32 == 0) by (bit_vector)
            requires
                r == (ex_style & !0x80u32) | 0x0004_0000u32,
        ;
        assert(r & 0x0004_0000u32 != 0) by (bit_vector)
            requires
                r == (ex_style & !0x80u32) | 0x0004_0000u32,
        ;
        assert(r & !(0x80u32 | 0x0004_0000u32) == ex_style & !(0x80u32 | 0x0004_0000u32))
            by (bit_vector)
            requires
                r == (ex_style & !0x80u32) | 0x0004_0000u32,
        ;
        r
    }
}

/// What a left click on the tray icon does.
#[derive(Debug, Clone, Copy, PartialEq, Eq, Structural)]
pub enum TrayAction {
    /// Show and focus the main window.
    ShowMainWindow,
    /// Open the form for a new task.
    AddTodo,
}

/// A click at `now_ms` completes a double click begun at `last_ms`.
pub open spec fn is_double_click(now_ms: u64, last_ms: u64) -> bool {
    last_ms <= now_ms && now_ms - last_ms < DOUBLE_CLICK_THRESHOLD_MS
}

/// The time of the tray icon's last single click, in milliseconds; 0 after
/// a double click, so that a third click starts afresh.
#[derive(Debug, Clone, Copy, PartialEq, Eq, Structural)]
pub struct TrayClicks {
    pub last_click_ms: u64,
}

impl TrayClicks {
    pub fn new() -> (r: TrayClicks)
        ensures
            r.last_click_ms == 0,
    {
        TrayClicks { last_click_ms: 0 }
    }

    /// A left click at `now_ms`: the second of two quick clicks adds a
    /// task, any other click shows the main window.
    pub fn click(&mut self, now_ms: u64) -> (r: TrayAction)
        ensures
            r == if is_double_click(now_ms, old(self).last_click_ms) {
                TrayAction::AddTodo
            } else {
                TrayAction::ShowMainWindow
            },
            final(self).last_click_ms == if is_double_click(now_ms, old(self).last_click_ms) {
                0
            } else {
                now_ms
            },
    {
        let last = self.last_click_ms;
        if last <= now_ms && now_ms - last < DOUBLE_CLICK_THRESHOLD_MS {
            self.last_click_ms = 0;
            TrayAction::AddTodo
        } else {
            self.last_click_ms = now_ms;
            TrayAction::ShowMainWindow
        }
    }
}

/// The label prefix of the notification windows.
pub open spec fn is_notification_label_spec(label: Seq<char>) -> bool {
    label.len() >= 13 && label.subrange(0, 13) == "notification_"@
}

/// Whether a window label names a notification window.
pub fn is_notification_label(label: &str) -> (r: bool)
    ensures
        r == is_notification_label_spec(label@),
{
    let prefix = "notification_";
    proof {
        reveal_strlit("notification_");
    }
    let n = label.unicode_len();
    if n < 13 {
        return false;
    }
    let mut i: usize = 0;
    while i < 13
        invariant
            i <= 13,
            n == label@.len(),
            n >= 13,
            prefix@ == "notification_"@,
            prefix@.len() == 13,
            label@.subrange(0, i as int) == prefix@.subrange(0, i as int),
        decreases 13 - i,
    {
        if label.get_char(i) != prefix.get_char(i) {
            proof {
                assert(label@.subrange(0, 13)[i as int] != prefix@[i as int]);
            }
            return false;
        }
        proof {
            assert(label@.subrange(0, i + 1) =~= label@.subrange(0, i as int).push(label@[i as int]));
            assert(prefix@.subrange(0, i + 1) =~= prefix@.subrange(0, i as int).push(prefix@[i as int]));
        }
        i = i + 1;
    }
    proof {
        assert(prefix@.subrange(0, 13) =~= prefix@);
    }
    true
}

} // verus!
