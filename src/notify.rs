//! The application's own notification windows: where each new window
//! stacks, its label, and the page address it opens.
use vstd::prelude::*;
use crate::text::{decimal, push_decimal};

verus! {

pub const NOTIFICATION_WIDTH: u32 = 320;
pub const NOTIFICATION_HEIGHT: u32 = 120;
pub const NOTIFICATION_MARGIN: u32 = 20;
pub const NOTIFICATION_SPACING: u32 = 10;

/// The screen size assumed when the primary monitor cannot be read.
pub const FALLBACK_SCREEN_WIDTH: u32 = 1920;
pub const FALLBACK_SCREEN_HEIGHT: u32 = 1080;

/// A byte that URL encoding keeps as it is: an ASCII letter or digit, or
/// one of `-`, `_`, `.`, `~`.
pub open spec fn url_unreserved(b: u8) -> bool {
    (0x30 <= b <= 0x39) || (0x41 <= b <= 0x5a) || (0x61 <= b <= 0x7a) || b == 0x2d || b == 0x5f
        || b == 0x2e || b == 0x7e
}

/// An upper-case hexadecimal digit.
pub open spec fn hex_digit(d: u8) -> char {
    if d < 10 {
        ((0x30 + d) as u8) as char
    } else {
        ((0x41 - 10 + d) as u8) as char
    }
}

/// Bytes percent-encoded: a kept byte as its character, any other as `%`
/// and two upper-case hexadecimal digits.
pub open spec fn percent_encoded(bytes: Seq<u8>) -> Seq<char>
    decreases bytes.len(),
{
    if bytes.len() == 0 {
        Seq::empty()
    } else {
        let b = bytes[0];
        (if url_unreserved(b) {
            seq![b as char]
        } else {
            seq!['%', hex_digit(b / 16), hex_digit(b % 16)]
        }) + percent_encoded(bytes.drop_first())
    }
}

/// A text percent-encoded for a URL query: the bytes of its UTF-8 form.
pub open spec fn url_encoded(s: Seq<char>) -> Seq<char> {
    percent_encoded(vstd::utf8::encode_utf8(s))
}

/// Relies on `urlencoding::encode`: percent-encodes every byte of the
/// UTF-8 text except ASCII letters, digits and `-`, `_`, `.`, `~`, with
/// upper-case hexadecimal digits.
#[verifier::external_body]
fn url_encode(s: &str) -> (r: String)
    ensures
        r@ == url_encoded(s@),
{
    urlencoding::encode(s).into_owned()
}

/// The page a notification window opens, from already encoded parts.
pub open spec fn notification_url_text(title: Seq<char>, description: Seq<char>, label: Seq<char>) -> Seq<char> {
    "index.html#/notification?title="@ + title + "&description="@ + description + "&label="@ + label
}

/// The label of the notification window numbered `n`.
pub open spec fn window_label_text(n: nat) -> Seq<char> {
    "notification_"@ + decimal(n)
}

/// Where a notification window stands: the bottom-right corner of the
/// screen, raised by one window and a gap for each window already open.
pub open spec fn stacked_x(screen_width: int) -> int {
    screen_width - NOTIFICATION_WIDTH - NOTIFICATION_MARGIN
}

pub open spec fn stacked_y(screen_height: int, open_windows: int) -> int {
    screen_height - NOTIFICATION_HEIGHT - NOTIFICATION_MARGIN - open_windows * (NOTIFICATION_HEIGHT
        + NOTIFICATION_SPACING)
}

/// The page address from encoded parts.
pub fn notification_url_from_encoded(title: &str, description: &str, label: &str) -> (r: String)
    ensures
        r@ == notification_url_text(title@, description@, label@),
{
    let mut s = String::from_str("index.html#/notification?title=");
    s.append(title);
    s.append("&description=");
    s.append(description);
    s.append("&label=");
    s.append(label);
    proof {
        assert(s@ =~= notification_url_text(title@, description@, label@));
    }
    s
}

/// The page address a notification window opens, with each part encoded.
pub fn notification_url(title: &str, description: &str, label: &str) -> (r: String)
    ensures
        r@ == notification_url_text(url_encoded(title@), url_encoded(description@), url_encoded(label@)),
{
    let t = url_encode(title);
    let d = url_encode(description);
    let l = url_encode(label);
    notification_url_from_encoded(t.as_str(), d.as_str(), l.as_str())
}

/// The label of the notification window numbered `n`.
pub fn window_label(n: u32) -> (r: String)
    ensures
        r@ == window_label_text(n as nat),
{
    let mut s = String::from_str("notification_");
    push_decimal(&mut s, n as u64);
    s
}

/// The screen size to lay windows out on: the monitor's when known.
pub fn screen_size_or_fallback(size: Option<(u32, u32)>) -> (r: (u32, u32))
    ensures
        r == match size {
            Some(s) => s,
            None => (FALLBACK_SCREEN_WIDTH, FALLBACK_SCREEN_HEIGHT),
        },
{
    match size {
        Some(s) => s,
        None => (FALLBACK_SCREEN_WIDTH, FALLBACK_SCREEN_HEIGHT),
    }
}

/// A notification window to open.
#[derive(Debug, Clone)]
pub struct WindowPlan {
    pub label: String,
    pub url: String,
    pub x: i64,
    pub y: i64,
    pub width: u32,
    pub height: u32,
}

/// The shared state of the notification windows: the number the next
/// window gets, and how many are open now.
#[derive(Debug, Clone, Copy, PartialEq, Eq, Structural)]
pub struct NotificationService {
    pub next_number: u32,
    pub open_windows: u32,
}

impl NotificationService {
    pub fn new() -> (r: NotificationService)
        ensures
            r.next_number == 0,
            r.open_windows == 0,
    {
        NotificationService { next_number: 0, open_windows: 0 }
    }

    /// Plans the window for a reminder with `title` and `body` on a screen
    /// of the given size: numbered, and stacked above the windows open now.
    /// The window counts as open only once `window_opened` records that it
    /// was built. Numbers wrap around after the largest.
    pub fn open_window(&mut self, title: &str, body: &str, screen_width: u32, screen_height: u32) -> (r: WindowPlan)
        ensures
            final(self).next_number == (old(self).next_number + 1) % 0x1_0000_0000,
            final(self).open_windows == old(self).open_windows,
            r.label@ == window_label_text(old(self).next_number as nat),
            r.url@ == notification_url_text(url_encoded(title@), url_encoded(body@), url_encoded(r.label@)),
            r.x == stacked_x(screen_width as int),
            r.y == stacked_y(screen_height as int, old(self).open_windows as int),
            r.width == NOTIFICATION_WIDTH,
            r.height == NOTIFICATION_HEIGHT,
    {
        let label = window_label(self.next_number);
        let url = notification_url(title, body, label.as_str());
        let x: i64 = screen_width as i64 - NOTIFICATION_WIDTH as i64 - NOTIFICATION_MARGIN as i64;
        let y: i64 = screen_height as i64 - NOTIFICATION_HEIGHT as i64 - NOTIFICATION_MARGIN as i64
            - (self.open_windows as i64) * 130;
        self.next_number = if self.next_number == u32::MAX { 0 } else { self.next_number + 1 };
        WindowPlan {
            label: label,
            url: url,
            x: x,
            y: y,
            width: NOTIFICATION_WIDTH,
            height: NOTIFICATION_HEIGHT,
        }
    }

    /// A planned notification window was built: one more is open.
    pub fn window_opened(&mut self)
        ensures
            final(self).next_number == old(self).next_number,
            final(self).open_windows == if old(self).open_windows == u32::MAX {
                u32::MAX
            } else {
                (old(self).open_windows + 1) as u32
            },
    {
        if self.open_windows < u32::MAX {
            self.open_windows = self.open_windows + 1;
        }
    }

    /// A notification window was closed: one fewer is open.
    pub fn window_closed(&mut self)
        ensures
            final(self).next_number == old(self).next_number,
            final(self).open_windows == if old(self).open_windows == 0 {
                0
            } else {
                old(self).open_windows - 1
            },
    {
        if self.open_windows > 0 {
            self.open_windows = self.open_windows - 1;
        }
    }
}

} // verus!
