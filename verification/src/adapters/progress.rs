//! What the live progress list draws: one line per row, clamped to the
//! terminal width, with a spinner on the active row. The drawing thread and
//! the terminal itself are the caller's.
use vstd::prelude::*;

use crate::ports::RowState;
use crate::text::{chars_of, decimal, push_char, push_decimal, push_str, string_of};

verus! {

pub open spec fn green() -> Seq<char> {
    "\x1b[32m"@
}

pub open spec fn yellow() -> Seq<char> {
    "\x1b[33m"@
}

pub open spec fn red() -> Seq<char> {
    "\x1b[31m"@
}

pub open spec fn cyan() -> Seq<char> {
    "\x1b[36m"@
}

pub open spec fn dim() -> Seq<char> {
    "\x1b[2m"@
}

pub open spec fn reset() -> Seq<char> {
    "\x1b[0m"@
}

/// The spinner's frames: the arms whirl around a fixed hub.
pub open spec fn frame_text(i: int) -> Seq<char> {
    if i == 0 {
        "╲●╱"@
    } else if i == 1 {
        "─●─"@
    } else if i == 2 {
        "╱●╲"@
    } else {
        "│●│"@
    }
}

pub open spec fn glyph_of(state: RowState) -> (Seq<char>, Seq<char>) {
    match state {
        RowState::Pass => (green(), "✓ "@),
        RowState::Warn => (yellow(), "⚠ "@),
        RowState::Fail => (red(), "✗ "@),
        RowState::Skip => (dim(), "· "@),
    }
}

/// Colour and mark for a resolved row.
pub fn glyph(state: RowState) -> (r: (&'static str, &'static str))
    ensures
        (r.0@, r.1@) == glyph_of(state),
{
    match state {
        RowState::Pass => ("\x1b[32m", "✓ "),
        RowState::Warn => ("\x1b[33m", "⚠ "),
        RowState::Fail => ("\x1b[31m", "✗ "),
        RowState::Skip => ("\x1b[2m", "· "),
    }
}

/// `label` cut to `budget` characters, ending in `…` when cut.
pub open spec fn fit_text(label: Seq<char>, budget: Option<usize>) -> Seq<char> {
    match budget {
        Some(b) => if label.len() > b {
            if b == 0 {
                seq![]
            } else {
                label.take(b - 1).push('…')
            }
        } else {
            label
        },
        None => label,
    }
}

/// Truncate `label` so it fits `budget` display columns, appending `…` when
/// cut, so that a row never wraps.
pub fn fit(label: &str, budget: Option<usize>) -> (r: String)
    ensures
        r@ == fit_text(label@, budget),
{
    let v = chars_of(label);
    match budget {
        Some(b) => {
            if v.len() > b {
                if b == 0 {
                    String::new()
                } else {
                    let mut s = string_of(&v, 0, b - 1);
                    assert(v@.subrange(0, b - 1) == label@.take(b - 1));
                    push_char(&mut s, '…');
                    s
                }
            } else {
                label.to_string()
            }
        },
        None => label.to_string(),
    }
}

/// The columns left for a row's label after a prefix of `prefix` columns.
pub fn budget(width: Option<usize>, prefix: usize) -> (r: Option<usize>)
    ensures
        match width {
            Some(w) => r == Some(if w >= prefix { (w - prefix) as usize } else { 0usize }),
            None => r is None,
        },
{
    match width {
        Some(w) => Some(w.saturating_sub(prefix)),
        None => None,
    }
}

/// The text one row is redrawn with: resolved rows show their mark, the
/// active row the spinner frame, pending rows a box.
pub open spec fn row_text(
    label: Seq<char>,
    done: Option<RowState>,
    active: bool,
    frame: int,
    width: Option<usize>,
) -> Seq<char> {
    let clear = "\r\x1b[K"@;
    match done {
        Some(state) => {
            let b = match width {
                Some(w) => Some(if w >= 5 { (w - 5) as usize } else { 0usize }),
                None => None,
            };
            clear + "  "@ + glyph_of(state).0 + glyph_of(state).1 + reset() + " "@ + fit_text(label, b)
                + "\n"@
        },
        None => {
            let b = match width {
                Some(w) => Some(if w >= 6 { (w - 6) as usize } else { 0usize }),
                None => None,
            };
            if active {
                clear + "  "@ + cyan() + frame_text(frame) + reset() + " "@ + fit_text(label, b)
                    + "\n"@
            } else {
                clear + "  "@ + dim() + "☐  "@ + reset() + " "@ + fit_text(label, b) + "\n"@
            }
        },
    }
}

/// One row of the block, as drawn on the given frame.
pub fn render_row(
    label: &str,
    done: Option<RowState>,
    active: bool,
    frame: usize,
    width: Option<usize>,
) -> (r: String)
    requires
        frame < 4,
    ensures
        r@ == row_text(label@, done, active, frame as int, width),
{
    let mut r = String::new();
    push_str(&mut r, "\r\x1b[K");
    push_str(&mut r, "  ");
    match done {
        Some(state) => {
            let (colour, mark) = glyph(state);
            push_str(&mut r, colour);
            push_str(&mut r, mark);
            push_str(&mut r, "\x1b[0m");
            push_str(&mut r, " ");
            let l = fit(label, budget(width, 5));
            push_str(&mut r, l.as_str());
        },
        None => {
            if active {
                push_str(&mut r, "\x1b[36m");
                let f = if frame == 0 {
                    "╲●╱"
                } else if frame == 1 {
                    "─●─"
                } else if frame == 2 {
                    "╱●╲"
                } else {
                    "│●│"
                };
                push_str(&mut r, f);
            } else {
                push_str(&mut r, "\x1b[2m");
                push_str(&mut r, "☐  ");
            }
            push_str(&mut r, "\x1b[0m");
            push_str(&mut r, " ");
            let l = fit(label, budget(width, 6));
            push_str(&mut r, l.as_str());
        },
    }
    push_str(&mut r, "\n");
    r
}

/// The frame after `frame`.
pub fn next_frame(frame: usize) -> (r: usize)
    requires
        frame < 4,
    ensures
        r == (frame + 1) % 4,
        r < 4,
{
    (frame + 1) % 4
}

/// Moves the cursor back to the top of an `n`-line block.
pub fn rewind(n: usize) -> (r: String)
    ensures
        r@ == "\r\x1b["@ + decimal(n as nat) + "A"@,
{
    let mut r = String::new();
    push_str(&mut r, "\r\x1b[");
    push_decimal(&mut r, n as u64);
    push_str(&mut r, "A");
    r
}

/// Moves to the top of an `n`-line block and clears to the end of the screen.
pub fn erase(n: usize) -> (r: String)
    ensures
        r@ == "\r\x1b["@ + decimal(n as nat) + "A\x1b[J"@,
{
    let mut r = rewind(n);
    push_str(&mut r, "\x1b[J");
    proof {
        reveal_strlit("A");
        reveal_strlit("\x1b[J");
        reveal_strlit("A\x1b[J");
        assert("A"@ + "\x1b[J"@ =~= "A\x1b[J"@);
        assert("\r\x1b["@ + decimal(n as nat) + "A"@ + "\x1b[J"@ =~= "\r\x1b["@ + decimal(n as nat) + "A\x1b[J"@);
    }
    r
}

} // verus!
