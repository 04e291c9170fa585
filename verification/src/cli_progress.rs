//! A status line for long operations, drawn on a terminal only.
//!
//! The line is kept here; what has to be drawn is handed back to whoever owns the
//! terminal.

use vstd::prelude::*;
use crate::sizes::{ask, says, takes_sizes};
use crate::text::{dec, occurs_at, push_number};

verus! {

/// Progress is redrawn no more often than this, in milliseconds.
pub const MIN_PROGRESS_REPAINT_MILLIS: u64 = 100;

/// The frames of the spinner.
pub open spec fn frame_text(idx: usize) -> Seq<char> {
    let k = idx % 10;
    if k == 0 {
        "⠋"@
    } else if k == 1 {
        "⠙"@
    } else if k == 2 {
        "⠹"@
    } else if k == 3 {
        "⠸"@
    } else if k == 4 {
        "⠼"@
    } else if k == 5 {
        "⠴"@
    } else if k == 6 {
        "⠦"@
    } else if k == 7 {
        "⠧"@
    } else if k == 8 {
        "⠇"@
    } else {
        "⠏"@
    }
}

fn frame(idx: usize) -> (r: &'static str)
    ensures
        r@ == frame_text(idx),
{
    match idx % 10 {
        0 => "⠋",
        1 => "⠙",
        2 => "⠹",
        3 => "⠸",
        4 => "⠼",
        5 => "⠴",
        6 => "⠦",
        7 => "⠧",
        8 => "⠇",
        _ => "⠏",
    }
}

/// A spinner and its label. It draws nothing where there is no terminal.
#[derive(Debug)]
pub struct Spinner {
    pub enabled: bool,
    pub idx: usize,
    pub label: String,
    pub active: bool,
    /// When progress was last drawn, in milliseconds.
    pub last_progress_paint: Option<u64>,
    /// The most that was shown.
    pub max_progress_bytes: u64,
}

pub struct SpinnerView {
    pub enabled: bool,
    pub idx: usize,
    pub label: Seq<char>,
    pub active: bool,
    pub last_progress_paint: Option<u64>,
    pub max_progress_bytes: u64,
}

impl View for Spinner {
    type V = SpinnerView;

    open spec fn view(&self) -> SpinnerView {
        SpinnerView {
            enabled: self.enabled,
            idx: self.idx,
            label: self.label@,
            active: self.active,
            last_progress_paint: self.last_progress_paint,
            max_progress_bytes: self.max_progress_bytes,
        }
    }
}

pub open spec fn next_idx(idx: usize) -> usize {
    if idx == usize::MAX {
        0
    } else {
        (idx + 1) as usize
    }
}

/// A spinner that was drawn, if it draws at all.
pub open spec fn drawn(s: SpinnerView) -> SpinnerView {
    SpinnerView { active: s.active || s.enabled, ..s }
}

/// What there is to draw.
pub open spec fn drawing(s: SpinnerView) -> Option<Seq<char>> {
    if s.enabled {
        Some(frame_text(s.idx) + " "@ + s.label)
    } else {
        None
    }
}

/// Whether there is a line to erase.
pub open spec fn erasable(s: SpinnerView) -> bool {
    s.enabled && s.active
}

// ---------------------------------------------------------------------------
// Progress
// ---------------------------------------------------------------------------

/// The share that is done, in whole percent: the full hundred only once all is.
pub open spec fn percent(bytes: u64, total: u64) -> nat
    recommends
        total > 0,
{
    if bytes >= total {
        100
    } else {
        (bytes as nat * 100) / (total as nat)
    }
}

pub open spec fn progress_text(
    size: spec_fn(u64) -> Seq<char>,
    prefix: Seq<char>,
    bytes: u64,
    total: Option<u64>,
) -> Seq<char> {
    match total {
        Some(t) => if t > 0 {
            prefix + " "@ + size(bytes) + " / "@ + size(t) + " ("@ + dec(
                percent(bytes, t),
            ) + "%)"@
        } else {
            prefix + " "@ + size(bytes)
        },
        None => prefix + " "@ + size(bytes),
    }
}

/// How far a download is; `size` says how a size reads.
pub fn format_download_progress<F: Fn(u64) -> String>(
    prefix: &str,
    bytes: u64,
    total: Option<u64>,
    size: &F,
) -> (r: String)
    requires
        takes_sizes(*size),
    ensures
        forall|told: spec_fn(u64) -> Seq<char>| #[trigger]
            says(*size, told) ==> r@ == progress_text(told, prefix@, bytes, total),
{
    let mut out = prefix.to_owned();
    out.push_str(" ");
    out.push_str(ask(size, bytes).as_str());
    if let Some(t) = total {
        if t > 0 {
            let done: u128 = if bytes >= t {
                100
            } else {
                bytes as u128 * 100 / (t as u128)
            };
            out.push_str(" / ");
            out.push_str(ask(size, t).as_str());
            out.push_str(" (");
            push_number(&mut out, done);
            out.push_str("%)");
        }
    }
    out
}

/// The count to show: never less than was shown.
pub open spec fn shown_bytes(s: SpinnerView, bytes: u64) -> u64 {
    if bytes > s.max_progress_bytes {
        bytes
    } else {
        s.max_progress_bytes
    }
}

/// Whether progress is drawn now: the first and the last of it always is.
pub open spec fn draws_now(s: SpinnerView, shown: u64, total: Option<u64>, now: u64) -> bool {
    ||| total matches Some(t) && shown >= t
    ||| match s.last_progress_paint {
        None => true,
        Some(last) => now >= last + MIN_PROGRESS_REPAINT_MILLIS,
    }
}

pub open spec fn after_progress(
    size: spec_fn(u64) -> Seq<char>,
    s: SpinnerView,
    prefix: Seq<char>,
    bytes: u64,
    total: Option<u64>,
    now: u64,
) -> SpinnerView {
    let shown = shown_bytes(s, bytes);
    if draws_now(s, shown, total, now) {
        drawn(
            SpinnerView {
                max_progress_bytes: shown,
                last_progress_paint: Some(now),
                idx: next_idx(s.idx),
                label: progress_text(size, prefix, shown, total),
                ..s
            },
        )
    } else {
        SpinnerView { max_progress_bytes: shown, ..s }
    }
}

impl Spinner {
    pub fn new(label: &str, enabled: bool) -> (r: Spinner)
        ensures
            r@ == (SpinnerView {
                enabled,
                idx: 0,
                label: label@,
                active: false,
                last_progress_paint: None,
                max_progress_bytes: 0,
            }),
    {
        Spinner {
            enabled,
            idx: 0,
            label: label.to_owned(),
            active: false,
            last_progress_paint: None,
            max_progress_bytes: 0,
        }
    }

    fn render_current(&mut self) -> (r: Option<String>)
        ensures
            final(self)@ == drawn(old(self)@),
            crate::text::opt_view(r) == drawing(old(self)@),
    {
        if !self.enabled {
            return None;
        }
        let mut line = frame(self.idx).to_owned();
        line.push_str(" ");
        line.push_str(self.label.as_str());
        self.active = true;
        Some(line)
    }

    /// Changes what is said. Hands back what is to be drawn.
    pub fn set_label(&mut self, label: &str) -> (r: Option<String>)
        ensures
            final(self)@ == drawn(SpinnerView { label: label@, ..old(self)@ }),
            crate::text::opt_view(r) == drawing(final(self)@),
    {
        self.label = label.to_owned();
        self.render_current()
    }

    /// Goes on to the next frame. Hands back what is to be drawn.
    pub fn tick(&mut self) -> (r: Option<String>)
        ensures
            final(self)@ == drawn(SpinnerView { idx: next_idx(old(self)@.idx), ..old(self)@ }),
            crate::text::opt_view(r) == drawing(final(self)@),
    {
        self.idx = self.idx.wrapping_add(1);
        self.render_current()
    }

    /// Shows how far a transfer is, `now` being the time in milliseconds. Hands
    /// back what is to be drawn, if it is time to draw.
    pub fn set_progress<F: Fn(u64) -> String>(
        &mut self,
        prefix: &str,
        bytes: u64,
        total: Option<u64>,
        now: u64,
        size: &F,
    ) -> (r: Option<String>)
        requires
            takes_sizes(*size),
        ensures
            forall|told: spec_fn(u64) -> Seq<char>| #[trigger]
                says(*size, told) ==> final(self)@ == after_progress(
                    told,
                    old(self)@,
                    prefix@,
                    bytes,
                    total,
                    now,
                ),
            forall|told: spec_fn(u64) -> Seq<char>|
                final(self)@ == (SpinnerView {
                    label: final(self)@.label,
                    ..#[trigger] after_progress(told, old(self)@, prefix@, bytes, total, now)
                }),
            crate::text::opt_view(r) == if draws_now(
                old(self)@,
                shown_bytes(old(self)@, bytes),
                total,
                now,
            ) {
                drawing(final(self)@)
            } else {
                None
            },
    {
        let shown: u64 = if bytes > self.max_progress_bytes {
            bytes
        } else {
            self.max_progress_bytes
        };
        self.max_progress_bytes = shown;
        let complete = match total {
            Some(t) => shown >= t,
            None => false,
        };
        if !complete {
            if let Some(last) = self.last_progress_paint {
                if now < last || now - last < MIN_PROGRESS_REPAINT_MILLIS {
                    return None;
                }
            }
        }
        self.last_progress_paint = Some(now);
        self.idx = self.idx.wrapping_add(1);
        self.label = format_download_progress(prefix, shown, total, size);
        self.render_current()
    }

    /// Whether there is a line to erase, which there then is no more.
    pub fn clear(&mut self) -> (r: bool)
        ensures
            r == erasable(old(self)@),
            final(self)@ == (SpinnerView {
                active: old(self)@.active && !old(self)@.enabled,
                ..old(self)@
            }),
    {
        if self.enabled && self.active {
            self.active = false;
            return true;
        }
        false
    }
}

// ---------------------------------------------------------------------------
// Laws
// ---------------------------------------------------------------------------

/// The share never exceeds a hundred percent, and is a hundred exactly when
/// nothing is outstanding.
pub proof fn law_complete_means_complete(bytes: u64, total: u64)
    requires
        total > 0,
    ensures
        percent(bytes, total) <= 100,
        percent(bytes, total) == 100 <==> bytes >= total,
{
    if bytes < total {
        let b = bytes as int;
        let t = total as int;
        assert(b * 100 / t < 100) by (nonlinear_arith)
            requires
                0 <= b < t,
        ;
    }
}

/// However a transfer starts over, the count that is shown never falls, and what
/// is drawn shows that count.
pub proof fn law_progress_never_falls(
    size: spec_fn(u64) -> Seq<char>,
    s: SpinnerView,
    prefix: Seq<char>,
    bytes: u64,
    total: Option<u64>,
    now: u64,
)
    ensures
        after_progress(size, s, prefix, bytes, total, now).max_progress_bytes >= s.max_progress_bytes,
        after_progress(size, s, prefix, bytes, total, now).max_progress_bytes >= bytes,
        draws_now(s, shown_bytes(s, bytes), total, now) ==> after_progress(
            size,
            s,
            prefix,
            bytes,
            total,
            now,
        ).label == progress_text(
            size,
            prefix,
            after_progress(size, s, prefix, bytes, total, now).max_progress_bytes,
            total,
        ),
{
}

/// Where there is no terminal nothing is ever drawn, nor erased.
pub proof fn law_no_terminal_no_drawing(
    size: spec_fn(u64) -> Seq<char>,
    s: SpinnerView,
    prefix: Seq<char>,
    bytes: u64,
    total: Option<u64>,
    now: u64,
)
    requires
        !s.enabled,
    ensures
        drawing(s) is None,
        drawing(after_progress(size, s, prefix, bytes, total, now)) is None,
        !erasable(s),
        !erasable(after_progress(size, s, prefix, bytes, total, now)),
{
}

/// The share is the whole number of hundredths that are done: no more than are, and one
/// more would be more than are.
pub proof fn law_the_share_is_rounded_down(bytes: u64, total: u64)
    requires
        bytes < total,
    ensures
        percent(bytes, total) * total <= bytes * 100,
        (percent(bytes, total) + 1) * total > bytes * 100,
{
    let n = bytes as int * 100;
    let t = total as int;
    vstd::arithmetic::div_mod::lemma_fundamental_div_mod(n, t);
    let q = n / t;
    assert(q * t <= n && (q + 1) * t > n) by (nonlinear_arith)
        requires
            n == t * q + n % t,
            0 <= n % t < t,
    ;
}

/// How far a transfer is reads: what it is, how much there is, and, exactly where it is
/// known how much there will be, that and the share.
pub proof fn law_progress_tells_how_much_of_how_much(
    size: spec_fn(u64) -> Seq<char>,
    prefix: Seq<char>,
    bytes: u64,
    total: Option<u64>,
)
    ensures
        ({
            let text = progress_text(size, prefix, bytes, total);
            let so_far = prefix + " "@ + size(bytes);
            &&& occurs_at(text, so_far, 0)
            &&& total is None || total->0 == 0 ==> text.len() == so_far.len()
            &&& total is Some && total->0 > 0 ==> text.subrange(
                so_far.len() as int,
                text.len() as int,
            ) == " / "@ + size(total->0) + " ("@ + dec(percent(bytes, total->0)) + "%)"@
        }),
{
    let text = progress_text(size, prefix, bytes, total);
    let so_far = prefix + " "@ + size(bytes);
    assert(text.subrange(0, so_far.len() as int) =~= so_far);
    if total is Some && total->0 > 0 {
        assert(text.subrange(so_far.len() as int, text.len() as int) =~= " / "@ + size(total->0)
            + " ("@ + dec(percent(bytes, total->0)) + "%)"@);
    }
}

/// Progress is drawn the first time, once a transfer is complete, and otherwise a tenth
/// of a second after it was last drawn and no sooner. Drawing it goes on to the next
/// frame and notes the time; else nothing changes but the count. That is the most that
/// was ever told of.
pub proof fn law_progress_is_drawn_in_time(
    size: spec_fn(u64) -> Seq<char>,
    s: SpinnerView,
    prefix: Seq<char>,
    bytes: u64,
    total: Option<u64>,
    now: u64,
)
    ensures
        ({
            let after = after_progress(size, s, prefix, bytes, total, now);
            let most = if bytes > s.max_progress_bytes {
                bytes
            } else {
                s.max_progress_bytes
            };
            let due = s.last_progress_paint is None || (total is Some && most >= total->0) || now
                >= s.last_progress_paint->0 + 100;
            &&& after.max_progress_bytes == most
            &&& after.enabled == s.enabled
            &&& draws_now(s, most, total, now) <==> due
            &&& !due ==> after == (SpinnerView { max_progress_bytes: most, ..s })
            &&& due ==> after.last_progress_paint == Some(now) && after.label == progress_text(
                size,
                prefix,
                most,
                total,
            ) && (s.idx < usize::MAX ==> after.idx == s.idx + 1) && (s.enabled ==> after.active)
        }),
{
}

/// What is drawn is the frame and the label, exactly where there is a terminal. The
/// frames come round every ten, and no two of the ten look alike.
pub proof fn law_what_is_drawn_is_the_frame_and_the_label(s: SpinnerView, i: usize, j: usize)
    ensures
        drawing(s) is Some <==> s.enabled,
        drawing(s) matches Some(line) ==> line == frame_text(s.idx) + " "@ + s.label,
        frame_text(i).len() == 1,
        frame_text(i) == frame_text(j) <==> i % 10 == j % 10,
{
    reveal_strlit("⠋");
    reveal_strlit("⠙");
    reveal_strlit("⠹");
    reveal_strlit("⠸");
    reveal_strlit("⠼");
    reveal_strlit("⠴");
    reveal_strlit("⠦");
    reveal_strlit("⠧");
    reveal_strlit("⠇");
    reveal_strlit("⠏");
    if frame_text(i) == frame_text(j) {
        assert(frame_text(i)[0] == frame_text(j)[0]);
    }
}

} // verus!
