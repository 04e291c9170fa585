//! The summary of a deployment, the same for every engine.

use vstd::prelude::*;
use crate::failure::Failure;
use crate::text::{
    chars_of, dec, has_text, lemma_has_text, lemma_one_line_concat, lemma_whole_lines_hold,
    lemma_whole_lines_read, lines_of, number, occurs_at, one_line, opt_view, push_spaces, same, spaces, texts, whole_lines, write_lines,
};

verus! {

/// Tokens that came after the first, and the time they took.
#[derive(Debug, Clone, Copy, PartialEq, Eq, Structural)]
pub struct TokenRate {
    pub tokens: u64,
    pub window_nanos: u128,
}

/// What was measured on a server that just started. What could not be measured
/// is not there.
#[derive(Debug, Clone, Copy, PartialEq, Eq, Structural)]
pub struct SmokeMetrics {
    /// From the request to the first token, in nanoseconds.
    pub ttft: Option<u128>,
    pub generation: Option<TokenRate>,
}

impl Default for SmokeMetrics {
    fn default() -> (r: SmokeMetrics)
        ensures
            r.ttft is None,
            r.generation is None,
    {
        SmokeMetrics { ttft: None, generation: None }
    }
}

pub open spec fn since(from: u128, to: u128) -> u128 {
    if to < from {
        0
    } else {
        (to - from) as u128
    }
}

pub open spec fn metrics_of(
    start: u128,
    first: Option<u128>,
    last: Option<u128>,
    chunks: u64,
) -> SmokeMetrics {
    SmokeMetrics {
        ttft: match first {
            Some(f) => Some(since(start, f)),
            None => None,
        },
        generation: match (first, last) {
            (Some(f), Some(l)) => if chunks > 1 && since(f, l) > 0 {
                Some(TokenRate { tokens: (chunks - 1) as u64, window_nanos: since(f, l) })
            } else {
                None
            },
            _ => None,
        },
    }
}

/// What a stream of tokens comes to, from when it was asked for and when the
/// first and the last came. The rate is that of the tokens after the first.
pub fn compute_metrics(
    start: u128,
    first_token: Option<u128>,
    last_token: Option<u128>,
    token_chunks: u64,
) -> (r: SmokeMetrics)
    ensures
        r == metrics_of(start, first_token, last_token, token_chunks),
{
    let ttft = match first_token {
        Some(first) => Some(first.saturating_sub(start)),
        None => None,
    };
    let generation = match (first_token, last_token) {
        (Some(first), Some(last)) => {
            let window: u128 = last.saturating_sub(first);
            if token_chunks > 1 && window > 0 {
                Some(TokenRate { tokens: token_chunks - 1, window_nanos: window })
            } else {
                None
            }
        },
        _ => None,
    };
    SmokeMetrics { ttft, generation }
}

// ---------------------------------------------------------------------------
// The smoke test
// ---------------------------------------------------------------------------

/// What a server that just started is asked. Short, so that the test adds little
/// to the start.
pub const SMOKE_PROMPT: &'static str = "Reply with a short one-sentence greeting.";

/// The most tokens of the answer, so that a model that writes much does not hold
/// up the start.
pub const SMOKE_MAX_TOKENS: u32 = 32;

/// When the first and the last token came, and how many pieces of text.
#[derive(Debug, Clone, Copy, PartialEq, Eq, Structural)]
pub struct SmokeTimes {
    pub first: Option<u128>,
    pub last: Option<u128>,
    pub chunks: u64,
}

/// A piece of a streamed answer and when it came. A piece without text carries
/// no token.
#[derive(Debug)]
pub struct SmokeEvent {
    pub content: String,
    pub at: u128,
}

pub open spec fn times_after(seen: SmokeTimes, content: Seq<char>, now: u128) -> SmokeTimes {
    if content.len() == 0 {
        seen
    } else {
        SmokeTimes {
            first: Some(
                match seen.first {
                    Some(first) => first,
                    None => now,
                },
            ),
            last: Some(now),
            chunks: (seen.chunks + 1) as u64,
        }
    }
}

/// One more piece of the answer. The first that holds text sets when the first
/// token came, each sets when the last did.
pub fn after_event(seen: SmokeTimes, content: &str, now: u128) -> (r: SmokeTimes)
    requires
        seen.chunks < u64::MAX,
    ensures
        r == times_after(seen, content@, now),
{
    if chars_of(content).len() == 0 {
        return seen;
    }
    let first: u128 = match seen.first {
        Some(first) => first,
        None => now,
    };
    SmokeTimes { first: Some(first), last: Some(now), chunks: seen.chunks + 1 }
}

pub open spec fn times_of(events: Seq<SmokeEvent>) -> SmokeTimes
    decreases events.len(),
{
    if events.len() == 0 {
        SmokeTimes { first: None, last: None, chunks: 0 }
    } else {
        times_after(times_of(events.drop_last()), events.last().content@, events.last().at)
    }
}

proof fn lemma_no_more_chunks_than_events(events: Seq<SmokeEvent>)
    requires
        events.len() <= u64::MAX,
    ensures
        times_of(events).chunks <= events.len(),
    decreases events.len(),
{
    if events.len() > 0 {
        lemma_no_more_chunks_than_events(events.drop_last());
    }
}

/// What a test comes to: the pieces in the order in which they came, and whether
/// the answer came to its end. An answer that broke off is not measured.
pub open spec fn smoke_metrics(
    start: u128,
    events: Seq<SmokeEvent>,
    finished: bool,
) -> SmokeMetrics {
    if finished {
        let seen = times_of(events);
        metrics_of(start, seen.first, seen.last, seen.chunks)
    } else {
        SmokeMetrics { ttft: None, generation: None }
    }
}

/// Measures a server by its answer to the smoke prompt. A failure leaves the
/// metrics empty: it is no failure of the launch.
pub fn run_smoke_test(start: u128, events: &Vec<SmokeEvent>, finished: Result<(), Failure>) -> (r:
    SmokeMetrics)
    ensures
        r == smoke_metrics(start, events@, finished is Ok),
{
    match finished {
        Ok(()) => {
            let mut seen = SmokeTimes { first: None, last: None, chunks: 0 };
            let mut i: usize = 0;
            while i < events.len()
                invariant
                    i <= events@.len(),
                    seen == times_of(events@.subrange(0, i as int)),
                decreases events@.len() - i,
            {
                let ghost done = events@.subrange(0, i as int);
                assert(events@.subrange(0, i + 1).drop_last() =~= done);
                proof {
                    lemma_no_more_chunks_than_events(done);
                }
                seen = after_event(seen, events[i].content.as_str(), events[i].at);
                i += 1;
            }
            assert(events@.subrange(0, events@.len() as int) =~= events@);
            compute_metrics(start, seen.first, seen.last, seen.chunks)
        },
        Err(_) => SmokeMetrics::default(),
    }
}

// ---------------------------------------------------------------------------
// The metrics for people
// ---------------------------------------------------------------------------

/// A time to the first token: exact, and as it reads in each unit. Whoever
/// measured it rounds: to whole milliseconds, and to seconds with two digits
/// behind the point.
#[derive(Debug)]
pub struct FirstToken {
    pub nanos: u128,
    pub millis: u64,
    pub seconds: String,
}

pub struct FirstTokenView {
    pub nanos: u128,
    pub millis: u64,
    pub seconds: Seq<char>,
}

impl View for FirstToken {
    type V = FirstTokenView;

    open spec fn view(&self) -> FirstTokenView {
        FirstTokenView { nanos: self.nanos, millis: self.millis, seconds: self.seconds@ }
    }
}

pub open spec fn first_token_view(ttft: Option<FirstToken>) -> Option<FirstTokenView> {
    match ttft {
        Some(t) => Some(t@),
        None => None,
    }
}

/// A time for people: milliseconds below a second, else seconds.
pub open spec fn ttft_text(ttft: Option<FirstTokenView>) -> Seq<char> {
    match ttft {
        None => "n/a"@,
        Some(t) => if t.nanos < 1000000000 {
            dec(t.millis as nat) + " ms"@
        } else {
            t.seconds + " s"@
        },
    }
}

pub fn format_ttft(ttft: &Option<FirstToken>) -> (r: String)
    ensures
        r@ == ttft_text(first_token_view(*ttft)),
{
    match ttft {
        None => "n/a".to_owned(),
        Some(t) => {
            if t.nanos < 1000000000 {
                let mut out = number(t.millis as u128);
                out.push_str(" ms");
                out
            } else {
                let mut out = t.seconds.clone();
                out.push_str(" s");
                out
            }
        },
    }
}

/// A rate for people. Without one to tell it reads `n/a`.
pub open spec fn tps_text(rate: Option<Seq<char>>) -> Seq<char> {
    match rate {
        Some(r) => r + " tok/s"@,
        None => "n/a"@,
    }
}

/// `rate` is the tokens per second as they read, where they were measured.
pub fn format_tps(rate: &Option<String>) -> (r: String)
    ensures
        r@ == tps_text(opt_view(*rate)),
{
    match rate {
        Some(rate) => {
            let mut out = rate.clone();
            out.push_str(" tok/s");
            out
        },
        None => "n/a".to_owned(),
    }
}

/// What the summary tells.
#[derive(Debug)]
pub struct DeploymentSummary {
    pub engine: String,
    /// The model that was asked for.
    pub requested_model: String,
    /// The model as clients name it.
    pub api_model: String,
    pub chat_endpoint: String,
    pub service_id: String,
    pub status: String,
    /// Such a server was there already, and nothing was started.
    pub already_running: bool,
    pub ttft: Option<FirstToken>,
    /// The rate of generation in tokens per second, as it reads.
    pub throughput: Option<String>,
    /// The key of a server that others can reach, told only when it starts.
    pub api_key: Option<String>,
    pub notes: Vec<String>,
}

pub struct SummaryView {
    pub engine: Seq<char>,
    pub requested_model: Seq<char>,
    pub api_model: Seq<char>,
    pub chat_endpoint: Seq<char>,
    pub service_id: Seq<char>,
    pub status: Seq<char>,
    pub already_running: bool,
    pub ttft: Option<FirstTokenView>,
    pub throughput: Option<Seq<char>>,
    pub api_key: Option<Seq<char>>,
    pub notes: Seq<Seq<char>>,
}

impl View for DeploymentSummary {
    type V = SummaryView;

    open spec fn view(&self) -> SummaryView {
        SummaryView {
            engine: self.engine@,
            requested_model: self.requested_model@,
            api_model: self.api_model@,
            chat_endpoint: self.chat_endpoint@,
            service_id: self.service_id@,
            status: self.status@,
            already_running: self.already_running,
            ttft: first_token_view(self.ttft),
            throughput: opt_view(self.throughput),
            api_key: opt_view(self.api_key),
            notes: texts(self.notes@),
        }
    }
}

// ---------------------------------------------------------------------------
// The table
// ---------------------------------------------------------------------------

pub open spec fn heading(s: SummaryView) -> Seq<char> {
    if s.already_running {
        "Deployment summary (already running)"@
    } else if s.status == "ready"@ {
        "Deployment summary"@
    } else {
        "Deployment summary (not ready yet)"@
    }
}

/// The model, or both where another was substituted for the one asked for.
pub open spec fn model_rows(s: SummaryView) -> Seq<(Seq<char>, Seq<char>)> {
    if s.requested_model == s.api_model {
        seq![("model"@, s.api_model)]
    } else {
        seq![("requested model"@, s.requested_model), ("resolved model"@, s.api_model)]
    }
}

pub open spec fn rows_of(s: SummaryView) -> Seq<(Seq<char>, Seq<char>)> {
    seq![("status"@, s.status), ("engine"@, s.engine)] + model_rows(s) + seq![
        ("endpoint"@, s.chat_endpoint),
        ("time to first token"@, ttft_text(s.ttft)),
        ("throughput (approx)"@, tps_text(s.throughput)),
        ("service"@, s.service_id),
        ("stop"@, "rocm services stop "@ + s.service_id),
        ("logs"@, "rocm logs --service "@ + s.service_id),
    ]
}

/// The length of the longest label.
pub open spec fn widest(rows: Seq<(Seq<char>, Seq<char>)>) -> nat
    decreases rows.len(),
{
    if rows.len() == 0 {
        0
    } else {
        let before = widest(rows.drop_last());
        if rows.last().0.len() > before {
            rows.last().0.len()
        } else {
            before
        }
    }
}

/// A row: its label, as wide as the widest, and its value.
pub open spec fn row_line(label: Seq<char>, value: Seq<char>, width: nat) -> Seq<char> {
    row_head(label, width) + value
}

pub open spec fn row_head(label: Seq<char>, width: nat) -> Seq<char> {
    "  "@ + label + spaces(
        if label.len() < width {
            (width - label.len()) as nat
        } else {
            0
        },
    ) + "  "@
}

pub open spec fn table_lines(rows: Seq<(Seq<char>, Seq<char>)>, width: nat) -> Seq<Seq<char>> {
    rows.map_values(|r: (Seq<char>, Seq<char>)| row_line(r.0, r.1, width))
}

pub open spec fn key_lines(key: Option<Seq<char>>) -> Seq<Seq<char>> {
    match key {
        None => seq![],
        Some(k) => seq![
            "  api key: "@ + k,
            "  note: this key is shown only now — clients must send `Authorization: Bearer <key>`"@,
        ],
    }
}

/// Why a server that is not ready is not, where that is to be said.
pub open spec fn unready_lines(s: SummaryView) -> Seq<Seq<char>> {
    if s.status == "ready"@ || s.already_running {
        seq![]
    } else {
        seq![
            "  note: "@ + (if s.status == "running"@ {
                "the server is up and lists the model, but it could not serve a request yet, so no smoke test was run; it is most likely still loading"@
            } else {
                "the server did not report ready before the startup timeout; it may still be loading"@
            }) + " — check `rocm logs --service "@ + s.service_id + "` or `rocm services list`"@,
        ]
    }
}

pub open spec fn note_lines(notes: Seq<Seq<char>>) -> Seq<Seq<char>> {
    notes.map_values(|n: Seq<char>| "  note: "@ + n)
}

/// The summary, line by line.
pub open spec fn summary_lines(s: SummaryView) -> Seq<Seq<char>> {
    seq![heading(s)] + table_lines(rows_of(s), widest(rows_of(s))) + key_lines(s.api_key)
        + unready_lines(s) + note_lines(s.notes)
}

pub open spec fn summary_text(s: SummaryView) -> Seq<char> {
    whole_lines(summary_lines(s))
}

pub open spec fn row_views(rows: Seq<(&'static str, String)>) -> Seq<(Seq<char>, Seq<char>)> {
    rows.map_values(|r: (&'static str, String)| (r.0@, r.1@))
}

fn collect_rows(s: &DeploymentSummary) -> (r: Vec<(&'static str, String)>)
    ensures
        row_views(r@) == rows_of(s@),
{
    let mut rows: Vec<(&'static str, String)> = Vec::new();
    rows.push(("status", s.status.clone()));
    rows.push(("engine", s.engine.clone()));
    if same(s.requested_model.as_str(), s.api_model.as_str()) {
        rows.push(("model", s.api_model.clone()));
    } else {
        rows.push(("requested model", s.requested_model.clone()));
        rows.push(("resolved model", s.api_model.clone()));
    }
    rows.push(("endpoint", s.chat_endpoint.clone()));
    rows.push(("time to first token", format_ttft(&s.ttft)));
    rows.push(("throughput (approx)", format_tps(&s.throughput)));
    rows.push(("service", s.service_id.clone()));
    let mut stop = "rocm services stop ".to_owned();
    stop.push_str(s.service_id.as_str());
    rows.push(("stop", stop));
    let mut logs = "rocm logs --service ".to_owned();
    logs.push_str(s.service_id.as_str());
    rows.push(("logs", logs));
    assert(row_views(rows@) =~= rows_of(s@));
    rows
}

fn find_widest(rows: &Vec<(&'static str, String)>) -> (r: usize)
    ensures
        r == widest(row_views(rows@)),
{
    let ghost all = row_views(rows@);
    let mut width: usize = 0;
    let mut i: usize = 0;
    while i < rows.len()
        invariant
            i <= rows@.len(),
            all == row_views(rows@),
            width == widest(all.subrange(0, i as int)),
        decreases rows@.len() - i,
    {
        assert(all.subrange(0, i + 1).drop_last() =~= all.subrange(0, i as int));
        let len: usize = chars_of(rows[i].0).len();
        if len > width {
            width = len;
        }
        i += 1;
    }
    assert(all.subrange(0, all.len() as int) =~= all);
    width
}

fn show_row(label: &str, value: &str, width: usize) -> (r: String)
    ensures
        r@ == row_line(label@, value@, width as nat),
{
    let len: usize = chars_of(label).len();
    let mut out = "  ".to_owned();
    out.push_str(label);
    push_spaces(
        &mut out,
        if len < width {
            width - len
        } else {
            0
        },
    );
    out.push_str("  ");
    out.push_str(value);
    out
}

fn put_line(list: &mut Vec<String>, line: String)
    ensures
        texts(final(list)@) == texts(old(list)@).push(line@),
{
    let ghost before = texts(list@);
    list.push(line);
    assert(texts(list@) =~= before.push(line@));
}

fn show_unready(service_id: &str, running: bool) -> (r: String)
    ensures
        r@ == "  note: "@ + (if running {
            "the server is up and lists the model, but it could not serve a request yet, so no smoke test was run; it is most likely still loading"@
        } else {
            "the server did not report ready before the startup timeout; it may still be loading"@
        }) + " — check `rocm logs --service "@ + service_id@ + "` or `rocm services list`"@,
{
    let mut line = "  note: ".to_owned();
    if running {
        line.push_str(
            "the server is up and lists the model, but it could not serve a request yet, so no smoke test was run; it is most likely still loading",
        );
    } else {
        line.push_str(
            "the server did not report ready before the startup timeout; it may still be loading",
        );
    }
    line.push_str(" — check `rocm logs --service ");
    line.push_str(service_id);
    line.push_str("` or `rocm services list`");
    line
}

/// Renders the summary. A server that is not ready never reads as a success.
pub fn render_summary(summary: &DeploymentSummary) -> (r: String)
    ensures
        r@ == summary_text(summary@),
{
    let ready = same(summary.status.as_str(), "ready");
    let mut list: Vec<String> = Vec::new();
    assert(texts(list@) =~= seq![]);
    put_line(
        &mut list,
        (if summary.already_running {
            "Deployment summary (already running)"
        } else if ready {
            "Deployment summary"
        } else {
            "Deployment summary (not ready yet)"
        }).to_owned(),
    );
    let ghost first = seq![heading(summary@)];
    assert(texts(list@) =~= first);

    let rows = collect_rows(summary);
    let ghost all = row_views(rows@);
    let width: usize = find_widest(&rows);
    let ghost table = table_lines(all, width as nat);
    let mut i: usize = 0;
    assert(first + table.subrange(0, 0) =~= first);
    while i < rows.len()
        invariant
            i <= rows@.len(),
            all == row_views(rows@),
            table == table_lines(all, width as nat),
            texts(list@) == first + table.subrange(0, i as int),
        decreases rows@.len() - i,
    {
        put_line(&mut list, show_row(rows[i].0, rows[i].1.as_str(), width));
        assert(table[i as int] == row_line(all[i as int].0, all[i as int].1, width as nat));
        assert(texts(list@) =~= first + table.subrange(0, i + 1));
        i += 1;
    }
    assert(table.subrange(0, table.len() as int) =~= table);

    if let Some(key) = &summary.api_key {
        let mut line = "  api key: ".to_owned();
        line.push_str(key.as_str());
        put_line(&mut list, line);
        put_line(
            &mut list,
            "  note: this key is shown only now — clients must send `Authorization: Bearer <key>`".to_owned(),
        );
    }
    assert(texts(list@) =~= first + table + key_lines(summary@.api_key));

    if !ready && !summary.already_running {
        put_line(
            &mut list,
            show_unready(summary.service_id.as_str(), same(summary.status.as_str(), "running")),
        );
    }
    let ghost body = first + table + key_lines(summary@.api_key) + unready_lines(summary@);
    assert(texts(list@) =~= body);

    let ghost notes = note_lines(texts(summary.notes@));
    let mut k: usize = 0;
    assert(body + notes.subrange(0, 0) =~= body);
    while k < summary.notes.len()
        invariant
            k <= summary.notes@.len(),
            notes == note_lines(texts(summary.notes@)),
            texts(list@) == body + notes.subrange(0, k as int),
        decreases summary.notes@.len() - k,
    {
        let mut line = "  note: ".to_owned();
        line.push_str(summary.notes[k].as_str());
        put_line(&mut list, line);
        assert(texts(list@) =~= body + notes.subrange(0, k + 1));
        k += 1;
    }
    assert(notes.subrange(0, notes.len() as int) =~= notes);
    write_lines(&list)
}

// ---------------------------------------------------------------------------
// Running out of memory
// ---------------------------------------------------------------------------

/// Whether a recorded status says that the server failed to come up. One that is
/// `running` is up and still loading.
pub fn serve_failed_to_become_ready(status: &str) -> (r: bool)
    ensures
        r == (status@ == "starting"@),
{
    same(status, "starting")
}

/// The symptom that the note hands on: what the log shows, or the canonical one
/// where that cannot stand between single quotes as one word of a command.
pub open spec fn quoted_symptom(
    symptom: Seq<char>,
    quotable: bool,
    canonical: Seq<char>,
) -> Seq<char> {
    if quotable {
        symptom
    } else {
        canonical
    }
}

pub open spec fn symptom_view(symptom: Option<(&str, bool)>) -> Option<(Seq<char>, bool)> {
    match symptom {
        Some((s, quotable)) => Some((s@, quotable)),
        None => None,
    }
}

pub open spec fn memory_note(
    status: Seq<char>,
    symptom: Option<(Seq<char>, bool)>,
    canonical: Seq<char>,
    hint: Seq<char>,
    hint_already_present: bool,
) -> Option<Seq<char>> {
    if status != "starting"@ {
        None
    } else {
        match symptom {
            None => None,
            Some((s, quotable)) => Some(
                "the serve attempt ran out of GPU memory. "@ + (if hint_already_present {
                    Seq::<char>::empty()
                } else {
                    hint + " "@
                })
                    + "If the model simply does not fit in this GPU's VRAM, lowering the reservation will not help — serve a smaller or quantized model instead (rocm-cli serves one model on a single GPU). To have the tool pick the case-appropriate fix, run `rocm diagnose --symptom '"@
                    + quoted_symptom(s, quotable, canonical) + "'`."@,
            ),
        }
    }
}

/// The note on a server that failed to come up and whose log shows that it ran
/// out of memory: `symptom` is what the log shows, if it shows that, and whether
/// that can stand between single quotes as one word. The shared hint is left out
/// where it was given already.
pub fn oom_memory_note(
    status: &str,
    symptom: Option<(&str, bool)>,
    canonical: &str,
    hint: &str,
    hint_already_present: bool,
) -> (r: Option<String>)
    ensures
        opt_view(r) == memory_note(
            status@,
            symptom_view(symptom),
            canonical@,
            hint@,
            hint_already_present,
        ),
{
    if !serve_failed_to_become_ready(status) {
        return None;
    }
    match symptom {
        None => None,
        Some((s, quotable)) => {
            let quoted = if quotable {
                s
            } else {
                canonical
            };
            let mut out = "the serve attempt ran out of GPU memory. ".to_owned();
            if hint_already_present {
                assert(out@ + Seq::<char>::empty() =~= out@);
            } else {
                let mut part = hint.to_owned();
                part.push_str(" ");
                out.push_str(part.as_str());
            }
            out.push_str(
                "If the model simply does not fit in this GPU's VRAM, lowering the reservation will not help — serve a smaller or quantized model instead (rocm-cli serves one model on a single GPU). To have the tool pick the case-appropriate fix, run `rocm diagnose --symptom '",
            );
            out.push_str(quoted);
            out.push_str("'`.");
            Some(out)
        },
    }
}

// ---------------------------------------------------------------------------
// Laws
// ---------------------------------------------------------------------------

/// The symptom in the command that is printed can be quoted whatever the log
/// holds, by whatever rule that is judged, as long as the canonical one can.
pub proof fn law_a_printed_symptom_stays_quoted(
    quotable: spec_fn(Seq<char>) -> bool,
    symptom: Seq<char>,
    canonical: Seq<char>,
)
    requires
        quotable(canonical),
    ensures
        quotable(quoted_symptom(symptom, quotable(symptom), canonical)),
        quotable(symptom) ==> quoted_symptom(symptom, quotable(symptom), canonical) == symptom,
{
}

/// Pieces without text change no measurement, wherever they come.
pub proof fn law_empty_pieces_are_not_measured(
    start: u128,
    before: Seq<SmokeEvent>,
    empty: SmokeEvent,
    after: Seq<SmokeEvent>,
    finished: bool,
)
    requires
        empty.content@.len() == 0,
    ensures
        smoke_metrics(start, before.push(empty) + after, finished) == smoke_metrics(
            start,
            before + after,
            finished,
        ),
{
    lemma_empty_piece(before, empty, after);
}

proof fn lemma_empty_piece(before: Seq<SmokeEvent>, empty: SmokeEvent, after: Seq<SmokeEvent>)
    requires
        empty.content@.len() == 0,
    ensures
        times_of(before.push(empty) + after) == times_of(before + after),
    decreases after.len(),
{
    let with = before.push(empty) + after;
    let without = before + after;
    if after.len() == 0 {
        assert(with =~= before.push(empty));
        assert(without =~= before);
        assert(with.drop_last() =~= before);
    } else {
        lemma_empty_piece(before, empty, after.drop_last());
        assert(with.drop_last() =~= before.push(empty) + after.drop_last());
        assert(without.drop_last() =~= before + after.drop_last());
        assert(with.last() == after.last());
        assert(without.last() == after.last());
    }
}

/// The labels are the same, in the same order, for every engine, model and
/// measurement; only a substituted model adds one.
pub proof fn law_every_engine_has_the_same_rows(a: SummaryView, b: SummaryView)
    requires
        (a.requested_model == a.api_model) == (b.requested_model == b.api_model),
    ensures
        rows_of(a).len() == rows_of(b).len(),
        forall|i: int|
            0 <= i < rows_of(a).len() ==> (#[trigger] rows_of(a)[i]).0 == rows_of(b)[i].0,
{
    assert(model_rows(a).len() == model_rows(b).len());
    let x = rows_of(a);
    let y = rows_of(b);
    assert(x.len() == y.len());
    assert forall|i: int| 0 <= i < x.len() implies (#[trigger] x[i]).0 == y[i].0 by {
        if 2 <= i < 2 + model_rows(a).len() {
            assert(x[i] == model_rows(a)[i - 2]);
            assert(y[i] == model_rows(b)[i - 2]);
        }
    }
}

/// Whether everything that a summary repeats is one line.
pub open spec fn on_one_line(s: SummaryView) -> bool {
    &&& forall|i: int| 0 <= i < rows_of(s).len() ==> one_line((#[trigger] rows_of(s)[i]).1)
    &&& one_line(s.service_id)
    &&& s.api_key matches Some(k) ==> one_line(k)
    &&& forall|i: int| 0 <= i < s.notes.len() ==> one_line(#[trigger] s.notes[i])
}

proof fn lemma_widest_by_label(
    a: Seq<(Seq<char>, Seq<char>)>,
    b: Seq<(Seq<char>, Seq<char>)>,
)
    requires
        a.len() == b.len(),
        forall|i: int| 0 <= i < a.len() ==> (#[trigger] a[i]).0 == b[i].0,
    ensures
        widest(a) == widest(b),
    decreases a.len(),
{
    if a.len() > 0 {
        assert(a.last() == a[a.len() - 1]);
        assert forall|i: int| 0 <= i < a.drop_last().len() implies (#[trigger] a.drop_last()[i]).0
            == b.drop_last()[i].0 by {
            assert(a.drop_last()[i] == a[i]);
        }
        lemma_widest_by_label(a.drop_last(), b.drop_last());
    }
}

proof fn lemma_labels_on_one_line(s: SummaryView)
    ensures
        forall|i: int| 0 <= i < rows_of(s).len() ==> one_line((#[trigger] rows_of(s)[i]).0),
{
    reveal_strlit("status");
    reveal_strlit("engine");
    reveal_strlit("model");
    reveal_strlit("requested model");
    reveal_strlit("resolved model");
    reveal_strlit("endpoint");
    reveal_strlit("time to first token");
    reveal_strlit("throughput (approx)");
    reveal_strlit("service");
    reveal_strlit("stop");
    reveal_strlit("logs");
    let rows = rows_of(s);
    assert forall|i: int| 0 <= i < rows.len() implies one_line((#[trigger] rows[i]).0) by {
        if 2 <= i < 2 + model_rows(s).len() {
            assert(rows[i] == model_rows(s)[i - 2]);
        }
    }
}

proof fn lemma_row_on_one_line(label: Seq<char>, value: Seq<char>, width: nat)
    requires
        one_line(label),
        one_line(value),
    ensures
        one_line(row_line(label, value, width)),
{
    reveal_strlit("  ");
    let gap = spaces(
        if label.len() < width {
            (width - label.len()) as nat
        } else {
            0
        },
    );
    assert(one_line(gap));
    lemma_one_line_concat("  "@, label);
    lemma_one_line_concat("  "@ + label, gap);
    lemma_one_line_concat("  "@ + label + gap, "  "@);
    lemma_one_line_concat(row_head(label, width), value);
}

proof fn lemma_extras_on_one_line(s: SummaryView)
    requires
        on_one_line(s),
    ensures
        one_line(heading(s)),
        forall|i: int|
            0 <= i < key_lines(s.api_key).len() ==> one_line(#[trigger] key_lines(s.api_key)[i]),
        forall|i: int|
            0 <= i < unready_lines(s).len() ==> one_line(#[trigger] unready_lines(s)[i]),
        forall|i: int|
            0 <= i < note_lines(s.notes).len() ==> one_line(#[trigger] note_lines(s.notes)[i]),
{
    reveal_strlit("Deployment summary (already running)");
    reveal_strlit("Deployment summary");
    reveal_strlit("Deployment summary (not ready yet)");
    reveal_strlit("  api key: ");
    reveal_strlit("  note: ");
    assert(one_line(heading(s)));
    assert(one_line("  note: "@));
    if let Some(k) = s.api_key {
        lemma_one_line_concat("  api key: "@, k);
        reveal_strlit(
            "  note: this key is shown only now — clients must send `Authorization: Bearer <key>`",
        );
    }
    lemma_unready_on_one_line(s);
    let notes = note_lines(s.notes);
    assert forall|i: int| 0 <= i < notes.len() implies one_line(#[trigger] notes[i]) by {
        assert(one_line(s.notes[i]));
        lemma_one_line_concat("  note: "@, s.notes[i]);
    }
}

proof fn lemma_unready_on_one_line(s: SummaryView)
    requires
        one_line(s.service_id),
    ensures
        forall|i: int|
            0 <= i < unready_lines(s).len() ==> one_line(#[trigger] unready_lines(s)[i]),
{
    reveal_strlit("  note: ");
    reveal_strlit(
        "the server is up and lists the model, but it could not serve a request yet, so no smoke test was run; it is most likely still loading",
    );
    reveal_strlit(
        "the server did not report ready before the startup timeout; it may still be loading",
    );
    reveal_strlit(" — check `rocm logs --service ");
    reveal_strlit("` or `rocm services list`");
    if !(s.status == "ready"@ || s.already_running) {
        let why = if s.status == "running"@ {
            "the server is up and lists the model, but it could not serve a request yet, so no smoke test was run; it is most likely still loading"@
        } else {
            "the server did not report ready before the startup timeout; it may still be loading"@
        };
        assert(one_line(why));
        lemma_one_line_concat("  note: "@, why);
        lemma_one_line_concat("  note: "@ + why, " — check `rocm logs --service "@);
        lemma_one_line_concat(
            "  note: "@ + why + " — check `rocm logs --service "@,
            s.service_id,
        );
        lemma_one_line_concat(
            "  note: "@ + why + " — check `rocm logs --service "@ + s.service_id,
            "` or `rocm services list`"@,
        );
    }
}

/// A summary is read back line by line: behind the heading come the rows, in
/// order.
pub proof fn law_a_summary_reads_back_as_its_rows(s: SummaryView)
    requires
        on_one_line(s),
    ensures
        lines_of(summary_text(s)) == summary_lines(s),
        lines_of(summary_text(s))[0] == heading(s),
        forall|i: int|
            0 <= i < rows_of(s).len() ==> lines_of(summary_text(s))[i + 1] == row_line(
                (#[trigger] rows_of(s)[i]).0,
                rows_of(s)[i].1,
                widest(rows_of(s)),
            ),
{
    let rows = rows_of(s);
    let width = widest(rows);
    let table = table_lines(rows, width);
    let all = summary_lines(s);
    lemma_labels_on_one_line(s);
    lemma_extras_on_one_line(s);
    assert forall|i: int| 0 <= i < table.len() implies one_line(#[trigger] table[i]) by {
        assert(one_line(rows[i].0) && one_line(rows[i].1));
        lemma_row_on_one_line(rows[i].0, rows[i].1, width);
    }
    let (k, u) = (key_lines(s.api_key), unready_lines(s));
    assert forall|i: int| 0 <= i < all.len() implies one_line(#[trigger] all[i]) by {
        let at = 1 + table.len();
        if i == 0 {
        } else if i < at {
            assert(all[i] == table[i - 1]);
        } else if i < at + k.len() {
            assert(all[i] == k[i - at]);
        } else if i < at + k.len() + u.len() {
            assert(all[i] == u[i - at - k.len()]);
        } else {
            assert(all[i] == note_lines(s.notes)[i - at - k.len() - u.len()]);
        }
    }
    lemma_whole_lines_read(all);
    assert forall|i: int| 0 <= i < rows.len() implies all[i + 1] == row_line(
        (#[trigger] rows[i]).0,
        rows[i].1,
        width,
    ) by {
        assert(all[i + 1] == table[i]);
    }
}

/// The column of labels reads the same in the summary of every engine, model and
/// measurement, row by row; only a substituted model adds a row.
pub proof fn law_every_summary_shows_the_same_labels(a: SummaryView, b: SummaryView, i: int)
    requires
        on_one_line(a),
        on_one_line(b),
        (a.requested_model == a.api_model) == (b.requested_model == b.api_model),
        0 <= i < rows_of(a).len(),
    ensures
        rows_of(b).len() == rows_of(a).len(),
        ({
            let head = row_head(rows_of(a)[i].0, widest(rows_of(a)));
            &&& occurs_at(lines_of(summary_text(a))[i + 1], head, 0)
            &&& occurs_at(lines_of(summary_text(b))[i + 1], head, 0)
        }),
{
    law_every_engine_has_the_same_rows(a, b);
    law_a_summary_reads_back_as_its_rows(a);
    law_a_summary_reads_back_as_its_rows(b);
    lemma_widest_by_label(rows_of(a), rows_of(b));
    let head = row_head(rows_of(a)[i].0, widest(rows_of(a)));
    let (x, y) = (lines_of(summary_text(a))[i + 1], lines_of(summary_text(b))[i + 1]);
    assert(rows_of(a)[i].0 == rows_of(b)[i].0);
    assert(x == head + rows_of(a)[i].1);
    assert(y == head + rows_of(b)[i].1);
    assert(x.subrange(0, head.len() as int) =~= head);
    assert(y.subrange(0, head.len() as int) =~= head);
}

/// A server that was started and is not ready is never headed as one that is.
pub proof fn law_not_ready_is_not_success(s: SummaryView)
    requires
        s.status != "ready"@,
        !s.already_running,
    ensures
        heading(s) == "Deployment summary (not ready yet)"@,
        heading(s) != "Deployment summary"@,
        unready_lines(s).len() == 1,
{
    reveal_strlit("Deployment summary (not ready yet)");
    reveal_strlit("Deployment summary");
    assert("Deployment summary (not ready yet)"@.len() != "Deployment summary"@.len());
}

proof fn lemma_times(events: Seq<SmokeEvent>)
    requires
        events.len() <= u64::MAX,
    ensures
        ({
            let told = events.filter(|e: SmokeEvent| e.content@.len() > 0);
            let seen = times_of(events);
            &&& seen.chunks == told.len()
            &&& told.len() <= events.len()
            &&& told.len() == 0 ==> seen.first is None && seen.last is None
            &&& told.len() > 0 ==> seen.first == Some(told.first().at) && seen.last == Some(
                told.last().at,
            )
        }),
    decreases events.len(),
{
    reveal(Seq::filter);
    if events.len() > 0 {
        lemma_times(events.drop_last());
    }
}

/// A server is measured by the pieces of its answer that hold text: from the request to
/// the first of them, and by how many came after the first in the time from it to the
/// last. A single one, or several at one instant, give no rate; and an answer that broke
/// off gives nothing.
pub proof fn law_a_server_is_measured_by_its_text(
    start: u128,
    events: Seq<SmokeEvent>,
    finished: bool,
)
    requires
        events.len() <= u64::MAX,
    ensures
        ({
            let told = events.filter(|e: SmokeEvent| e.content@.len() > 0);
            let m = smoke_metrics(start, events, finished);
            let window = told.last().at - told.first().at;
            &&& !finished || told.len() == 0 ==> m.ttft is None && m.generation is None
            &&& finished && told.len() > 0 ==> m.ttft is Some && m.ttft->0 == (if told.first().at
                > start {
                told.first().at - start
            } else {
                0
            })
            &&& finished && told.len() > 1 && window > 0 ==> m.generation is Some
                && m.generation->0.tokens == told.len() - 1 && m.generation->0.window_nanos
                == window
            &&& told.len() <= 1 || window <= 0 ==> m.generation is None
        }),
{
    lemma_times(events);
}

/// A time below a second is told in milliseconds, any other in seconds, and a rate as it
/// reads; what was not measured is told as such.
pub proof fn law_a_measurement_is_told_with_its_unit(t: FirstTokenView, rate: Seq<char>)
    ensures
        t.nanos < 1000000000 ==> ttft_text(Some(t)) == dec(t.millis as nat) + " ms"@,
        t.nanos >= 1000000000 ==> ttft_text(Some(t)) == t.seconds + " s"@,
        ttft_text(None) == "n/a"@,
        tps_text(Some(rate)) == rate + " tok/s"@,
        tps_text(None) == "n/a"@,
{
}

/// Whether a text shows a value behind its label, with a gap between them.
pub open spec fn shows(text: Seq<char>, label: Seq<char>, value: Seq<char>) -> bool {
    exists|gap: nat| gap >= 2 && #[trigger] has_text(text, "  "@ + label + spaces(gap) + value)
}

proof fn lemma_shows(s: SummaryView, k: int)
    requires
        0 <= k < rows_of(s).len(),
    ensures
        shows(summary_text(s), rows_of(s)[k].0, rows_of(s)[k].1),
{
    let rows = rows_of(s);
    let width = widest(rows);
    let (label, value) = rows[k];
    let line = row_line(label, value, width);
    assert(table_lines(rows, width)[k] == line);
    assert(summary_lines(s)[k + 1] == line);
    lemma_whole_lines_hold(summary_lines(s), k + 1);
    let pad: nat = if label.len() < width {
        (width - label.len()) as nat
    } else {
        0
    };
    let gap: nat = pad + 2;
    reveal_strlit("  ");
    assert(spaces(pad) + "  "@ =~= spaces(gap));
    assert(line =~= "  "@ + label + spaces(gap) + value);
    assert(has_text(summary_text(s), "  "@ + label + spaces(gap) + value));
}

/// A summary shows each thing behind its own label: how the server stands, on what
/// engine, where it is reached, what was measured, its name, and the commands that stop
/// it and show its log. The model is shown once, or twice where another took the place
/// of the one asked for.
pub proof fn law_a_summary_shows_each_thing_by_its_label(s: SummaryView)
    ensures
        ({
            let text = summary_text(s);
            &&& shows(text, "status"@, s.status)
            &&& shows(text, "engine"@, s.engine)
            &&& s.requested_model == s.api_model ==> shows(text, "model"@, s.api_model)
            &&& s.requested_model != s.api_model ==> shows(
                text,
                "requested model"@,
                s.requested_model,
            ) && shows(text, "resolved model"@, s.api_model)
            &&& shows(text, "endpoint"@, s.chat_endpoint)
            &&& shows(text, "time to first token"@, ttft_text(s.ttft))
            &&& shows(text, "throughput (approx)"@, tps_text(s.throughput))
            &&& shows(text, "service"@, s.service_id)
            &&& shows(text, "stop"@, "rocm services stop "@ + s.service_id)
            &&& shows(text, "logs"@, "rocm logs --service "@ + s.service_id)
        }),
{
    let n = 2 + model_rows(s).len() as int;
    assert(rows_of(s)[0] == ("status"@, s.status));
    assert(rows_of(s)[2] == model_rows(s)[0]);
    lemma_shows(s, 0);
    lemma_shows(s, 1);
    lemma_shows(s, 2);
    if s.requested_model != s.api_model {
        assert(rows_of(s)[3] == model_rows(s)[1]);
        lemma_shows(s, 3);
    }
    lemma_shows(s, n);
    lemma_shows(s, n + 1);
    lemma_shows(s, n + 2);
    lemma_shows(s, n + 3);
    lemma_shows(s, n + 4);
    lemma_shows(s, n + 5);
}

/// A summary holds its heading, its rows, the key with a word of warning where there is
/// one to tell, why the server is not ready where it is not and was just started, and
/// every note, in that order, and nothing else. Its heading tells a server that was there
/// already, one that is ready, and one that is not.
pub proof fn law_a_summary_tells_what_there_is_to_tell(s: SummaryView, i: int)
    ensures
        ({
            let all = summary_lines(s);
            let rows = if s.requested_model == s.api_model {
                9int
            } else {
                10int
            };
            let keyed = if s.api_key is Some {
                2int
            } else {
                0int
            };
            let waiting = if s.status != "ready"@ && !s.already_running {
                1int
            } else {
                0int
            };
            &&& summary_text(s) == whole_lines(all)
            &&& all.len() == 1 + rows + keyed + waiting + s.notes.len()
            &&& s.already_running ==> all[0] == "Deployment summary (already running)"@
            &&& !s.already_running && s.status == "ready"@ ==> all[0] == "Deployment summary"@
            &&& !s.already_running && s.status != "ready"@ ==> all[0]
                == "Deployment summary (not ready yet)"@
            &&& s.api_key matches Some(key) ==> all[1 + rows] == "  api key: "@ + key
            &&& waiting == 1 ==> has_text(
                all[1 + rows + keyed],
                "`rocm logs --service "@ + s.service_id + "`"@,
            )
            &&& 0 <= i < s.notes.len() ==> all[1 + rows + keyed + waiting + i] == "  note: "@
                + s.notes[i]
        }),
{
    let table = table_lines(rows_of(s), widest(rows_of(s)));
    let (k, u) = (key_lines(s.api_key), unready_lines(s));
    let all = summary_lines(s);
    let at = 1 + table.len() as int;
    if let Some(key) = s.api_key {
        assert(all[at] == k[0]);
    }
    if s.status != "ready"@ && !s.already_running {
        assert(all[at + k.len()] == u[0]);
        let why = if s.status == "running"@ {
            "the server is up and lists the model, but it could not serve a request yet, so no smoke test was run; it is most likely still loading"@
        } else {
            "the server did not report ready before the startup timeout; it may still be loading"@
        };
        reveal_strlit(" — check `rocm logs --service ");
        reveal_strlit("` or `rocm services list`");
        reveal_strlit("`rocm logs --service ");
        reveal_strlit("`");
        let c = " — check `rocm logs --service "@;
        let c0 = c.subrange(0, 9);
        let d = "` or `rocm services list`"@;
        let d1 = d.subrange(1, d.len() as int);
        assert(c =~= c0 + "`rocm logs --service "@);
        assert(d =~= "`"@ + d1);
        let command = "`rocm logs --service "@ + s.service_id + "`"@;
        let lead = "  note: "@ + why + c0;
        assert(u[0] =~= lead + command + d1);
        lemma_has_text(lead, command, d1);
    }
    if 0 <= i < s.notes.len() {
        assert(all[at + k.len() + u.len() + i] == note_lines(s.notes)[i]);
    }
}

proof fn lemma_widest(rows: Seq<(Seq<char>, Seq<char>)>)
    ensures
        forall|i: int| 0 <= i < rows.len() ==> (#[trigger] rows[i]).0.len() <= widest(rows),
        rows.len() > 0 ==> exists|i: int|
            0 <= i < rows.len() && (#[trigger] rows[i]).0.len() == widest(rows),
    decreases rows.len(),
{
    if rows.len() > 0 {
        let front = rows.drop_last();
        let last = rows.len() - 1;
        lemma_widest(front);
        assert forall|i: int| 0 <= i < rows.len() implies (#[trigger] rows[i]).0.len() <= widest(
            rows,
        ) by {
            if i < last {
                assert(front[i] == rows[i]);
            }
        }
        if front.len() > 0 && rows.last().0.len() <= widest(front) {
            let i = choose|i: int| 0 <= i < front.len() && (#[trigger] front[i]).0.len() == widest(
                front,
            );
            assert(rows[i] == front[i]);
        } else {
            assert(rows[last].0.len() == widest(rows));
        }
    }
}

/// The values of a summary stand below each other, two blanks behind the longest label.
pub proof fn law_the_values_stand_in_one_column(s: SummaryView, i: int, j: int)
    requires
        0 <= i < rows_of(s).len(),
        0 <= j < rows_of(s).len(),
    ensures
        row_head(rows_of(s)[i].0, widest(rows_of(s))).len() == row_head(
            rows_of(s)[j].0,
            widest(rows_of(s)),
        ).len(),
        exists|k: int|
            0 <= k < rows_of(s).len() && row_head(
                (#[trigger] rows_of(s)[k]).0,
                widest(rows_of(s)),
            ) == "  "@ + rows_of(s)[k].0 + "  "@,
{
    let rows = rows_of(s);
    let width = widest(rows);
    lemma_widest(rows);
    assert(rows[i].0.len() <= width && rows[j].0.len() <= width);
    let k = choose|k: int| 0 <= k < rows.len() && (#[trigger] rows[k]).0.len() == width;
    assert(row_head(rows[k].0, width) =~= "  "@ + rows[k].0 + "  "@);
}

/// Memory is named as the reason exactly where the server failed to come up and its log
/// shows it. The note hands on a command with what the log shows, or with the canonical
/// words where that cannot be quoted, and gives the hint exactly where it was not given
/// before.
pub proof fn law_memory_is_named_where_the_log_shows_it(
    status: Seq<char>,
    symptom: Seq<char>,
    quotable: bool,
    canonical: Seq<char>,
    hint: Seq<char>,
    other: Seq<char>,
)
    ensures
        memory_note(status, None, canonical, hint, true) is None,
        memory_note(status, None, canonical, hint, false) is None,
        ({
            let with = memory_note(status, Some((symptom, quotable)), canonical, hint, false);
            let without = memory_note(status, Some((symptom, quotable)), canonical, hint, true);
            let command = "`rocm diagnose --symptom '"@ + (if quotable {
                symptom
            } else {
                canonical
            }) + "'`"@;
            &&& status != "starting"@ ==> with is None && without is None
            &&& status == "starting"@ ==> with is Some && without is Some && has_text(
                with->0,
                command,
            ) && has_text(without->0, command) && has_text(with->0, hint) && with->0.len()
                == without->0.len() + hint.len() + 1
            &&& without == memory_note(status, Some((symptom, quotable)), canonical, other, true)
        }),
{
    if status == "starting"@ {
        let with = memory_note(status, Some((symptom, quotable)), canonical, hint, false)->0;
        let without = memory_note(status, Some((symptom, quotable)), canonical, hint, true)->0;
        let a = "the serve attempt ran out of GPU memory. "@;
        let shown = quoted_symptom(symptom, quotable, canonical);
        let e = "'`."@;
        let (b0, dot) = lemma_the_command_stands_at_the_end();
        let b = b0 + "`rocm diagnose --symptom '"@;
        let command = "`rocm diagnose --symptom '"@ + shown + "'`"@;
        assert(a + Seq::<char>::empty() =~= a);
        assert(b + shown + e =~= b0 + command + dot);
        assert(without =~= a + (b + shown + e));
        assert(without =~= (a + b0) + command + dot);
        lemma_has_text(a + b0, command, dot);
        assert(with =~= a + hint + " "@ + (b + shown + e));
        assert(with =~= (a + hint + " "@ + b0) + command + dot);
        lemma_has_text(a + hint + " "@ + b0, command, dot);
        let rest = " "@ + (b + shown + e);
        assert(with =~= a + hint + rest);
        lemma_has_text(a, hint, rest);
        reveal_strlit(" ");
    }
}

proof fn lemma_the_command_stands_at_the_end() -> (r: (Seq<char>, Seq<char>))
    ensures
        "If the model simply does not fit in this GPU's VRAM, lowering the reservation will not help — serve a smaller or quantized model instead (rocm-cli serves one model on a single GPU). To have the tool pick the case-appropriate fix, run `rocm diagnose --symptom '"@
            == r.0 + "`rocm diagnose --symptom '"@,
        "'`."@ == "'`"@ + r.1,
{
    reveal_strlit(
        "If the model simply does not fit in this GPU's VRAM, lowering the reservation will not help — serve a smaller or quantized model instead (rocm-cli serves one model on a single GPU). To have the tool pick the case-appropriate fix, run `rocm diagnose --symptom '",
    );
    reveal_strlit("`rocm diagnose --symptom '");
    reveal_strlit("'`.");
    reveal_strlit("'`");
    let b =
        "If the model simply does not fit in this GPU's VRAM, lowering the reservation will not help — serve a smaller or quantized model instead (rocm-cli serves one model on a single GPU). To have the tool pick the case-appropriate fix, run `rocm diagnose --symptom '"@;
    let n = "`rocm diagnose --symptom '"@.len() as int;
    let b0 = b.subrange(0, b.len() - n);
    assert(b =~= b0 + "`rocm diagnose --symptom '"@);
    let dot = "'`."@.subrange(2, 3);
    assert("'`."@ =~= "'`"@ + dot);
    (b0, dot)
}

} // verus!
