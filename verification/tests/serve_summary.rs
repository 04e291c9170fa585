use std::time::Duration;

use rocm::failure::Failure;
use rocm::serve_summary::{
    after_event, compute_metrics, format_tps, format_ttft, render_summary, run_smoke_test,
    serve_failed_to_become_ready, DeploymentSummary, FirstToken, SmokeEvent, SmokeMetrics,
    SmokeTimes, TokenRate, SMOKE_MAX_TOKENS, SMOKE_PROMPT,
};

const CANONICAL: &str = "vllm: HIP out of memory";
const HINT: &str =
    "On a shared GPU, lower `--gpu-memory-utilization` or pick another with `--gpu <index>`.";

fn nanos(duration: Duration) -> u128 {
    duration.as_nanos()
}

/// A time as it was measured, rounded for people.
fn first_token(duration: Duration) -> FirstToken {
    let seconds = duration.as_secs_f64();
    FirstToken {
        nanos: duration.as_nanos(),
        millis: (seconds * 1000.0).round() as u64,
        seconds: format!("{seconds:.2}"),
    }
}

/// A rate as it reads, where it is one.
fn rate(tps: Option<f64>) -> Option<String> {
    tps.filter(|value| value.is_finite() && *value > 0.0)
        .map(|value| format!("{value:.1}"))
}

/// The note on what a log shows, where nothing that cannot be quoted is shown.
fn oom_memory_note(
    status: &str,
    symptom: Option<&str>,
    canonical: &str,
    hint: &str,
    hinted: bool,
) -> Option<String> {
    let judged = symptom.map(|s| (s, !s.chars().any(|c| c == '\'' || c.is_control())));
    rocm::serve_summary::oom_memory_note(status, judged, canonical, hint, hinted)
}

fn base_summary() -> DeploymentSummary {
    DeploymentSummary {
        engine: "vllm".to_owned(),
        requested_model: "Qwen/Qwen2.5-7B-Instruct".to_owned(),
        api_model: "Qwen/Qwen2.5-7B-Instruct".to_owned(),
        chat_endpoint: "http://127.0.0.1:1337/v1/chat/completions".to_owned(),
        service_id: "vllm-qwen-1720000000".to_owned(),
        status: "ready".to_owned(),
        already_running: false,
        ttft: Some(first_token(Duration::from_millis(180))),
        throughput: rate(Some(42.15)),
        api_key: None,
        notes: Vec::new(),
    }
}

#[test]
fn format_ttft_uses_ms_under_a_second_and_seconds_above() {
    assert_eq!(
        format_ttft(&Some(first_token(Duration::from_millis(180)))),
        "180 ms"
    );
    assert_eq!(
        format_ttft(&Some(first_token(Duration::from_millis(1500)))),
        "1.50 s"
    );
    assert_eq!(format_ttft(&None), "n/a");
}

#[test]
fn a_second_is_where_the_unit_changes() {
    let shown = |n: u64| format_ttft(&Some(first_token(Duration::from_nanos(n))));
    assert_eq!(shown(0), "0 ms");
    assert_eq!(shown(999_999_999), "1000 ms");
    assert_eq!(shown(1_000_000_000), "1.00 s");
    assert_eq!(shown(1_015_000_000), "1.01 s");
    assert_eq!(shown(61_234_567_890), "61.23 s");
}

#[test]
fn format_tps_renders_rate_or_na() {
    assert_eq!(format_tps(&rate(Some(42.15))), "42.1 tok/s");
    assert_eq!(format_tps(&rate(None)), "n/a");
    assert_eq!(format_tps(&rate(Some(0.0))), "n/a");
    assert_eq!(format_tps(&rate(Some(f64::INFINITY))), "n/a");
}

#[test]
fn summary_shows_endpoint_model_and_metrics() {
    let rendered = render_summary(&base_summary());
    assert!(rendered.contains("Deployment summary"));
    assert!(rendered.contains("http://127.0.0.1:1337/v1/chat/completions"));
    assert!(rendered.contains("Qwen/Qwen2.5-7B-Instruct"));
    assert!(rendered.contains("180 ms"));
    assert!(rendered.contains("42.1 tok/s"));
    assert!(rendered.contains("rocm services stop vllm-qwen-1720000000"));
}

#[test]
fn the_table_is_aligned() {
    let rendered = render_summary(&base_summary());
    assert!(
        rendered.starts_with("Deployment summary\n  status               ready\n"),
        "{rendered}"
    );
    assert!(
        rendered.contains("\n  time to first token  180 ms\n"),
        "{rendered}"
    );
}

fn labels(text: &str) -> Vec<String> {
    text.lines()
        .filter(|line| line.starts_with("  ") && !line.starts_with("  note:"))
        .map(|line| {
            line.trim_start()
                .split("  ")
                .next()
                .unwrap_or("")
                .to_owned()
        })
        .collect()
}

#[test]
fn summary_structure_is_identical_across_engines() {
    let vllm = base_summary();
    let mut lemonade = base_summary();
    lemonade.engine = "lemonade".to_owned();
    lemonade.requested_model = "Qwen3-0.6B-GGUF".to_owned();
    lemonade.api_model = "Qwen3-0.6B-GGUF".to_owned();
    lemonade.chat_endpoint = "http://127.0.0.1:8000/v1/chat/completions".to_owned();
    lemonade.ttft = None;
    lemonade.throughput = None;

    assert_eq!(
        labels(&render_summary(&vllm)),
        labels(&render_summary(&lemonade))
    );
    let rendered = render_summary(&lemonade);
    assert!(rendered.contains("time to first token"));
    assert!(rendered.contains("n/a"));
}

#[test]
fn matching_request_and_resolved_show_a_single_model_row() {
    let rendered = render_summary(&base_summary());
    assert!(rendered.contains("  model  "));
    assert!(!rendered.contains("requested model"));
    assert!(!rendered.contains("resolved model"));
}

#[test]
fn divergent_request_and_resolved_are_both_reported() {
    let mut summary = base_summary();
    summary.requested_model = "qwen".to_owned();
    summary.api_model = "Qwen3-4B-Instruct-2507-GGUF".to_owned();
    let rendered = render_summary(&summary);
    let row = |label: &str, value: &str| {
        rendered
            .lines()
            .any(|line| line.trim_start().starts_with(label) && line.trim_end().ends_with(value))
    };
    assert!(row("requested model", "qwen"), "{rendered}");
    assert!(
        row("resolved model", "Qwen3-4B-Instruct-2507-GGUF"),
        "{rendered}"
    );
    assert!(
        !rendered
            .lines()
            .any(|line| line.trim_start().starts_with("model ")),
        "{rendered}"
    );
}

#[test]
fn already_running_is_flagged_in_the_heading() {
    let mut summary = base_summary();
    summary.already_running = true;
    assert!(render_summary(&summary).contains("already running"));
}

#[test]
fn readiness_timeout_does_not_read_as_success() {
    let mut summary = base_summary();
    summary.status = "starting".to_owned();
    let rendered = render_summary(&summary);
    assert!(rendered.contains("not ready yet"), "heading: {rendered}");
    assert!(rendered.contains("did not report ready"));
    assert!(rendered.contains("rocm logs --service"));
}

#[test]
fn a_still_loading_launch_explains_the_missing_smoke_test() {
    let mut summary = base_summary();
    summary.status = "running".to_owned();
    summary.ttft = None;
    summary.throughput = None;
    let rendered = render_summary(&summary);
    assert!(rendered.contains("not ready yet"), "heading: {rendered}");
    assert!(
        rendered.contains("no smoke test was run"),
        "the skipped smoke test must be explained: {rendered}"
    );
    assert!(
        rendered.contains("still loading"),
        "the user needs to know this resolves on its own: {rendered}"
    );
    assert!(rendered.contains("rocm services list"));
}

#[test]
fn throughput_row_is_labelled_approximate() {
    assert!(render_summary(&base_summary()).contains("throughput (approx)"));
}

#[test]
fn notes_are_rendered_when_present() {
    let mut summary = base_summary();
    summary.notes = vec!["selected GPU 0 has low free VRAM".to_owned()];
    assert!(render_summary(&summary).contains("note: selected GPU 0 has low free VRAM"));
}

const SYMPTOM: &str = "vllm: torch.OutOfMemoryError: HIP out of memory. Tried to allocate 7.21 GiB.";

#[test]
fn oom_note_names_both_memory_knobs_on_a_failed_serve() {
    let note = oom_memory_note("starting", Some(SYMPTOM), CANONICAL, HINT, false)
        .expect("an OOM failure must produce a note");
    assert!(note.contains("--gpu-memory-utilization"), "{note}");
    assert!(note.contains("--gpu <index>"), "{note}");
    assert!(note.contains("ran out of GPU memory"), "{note}");
    assert!(
        note.contains("smaller or quantized model"),
        "the note must carry the model-too-large caveat: {note}"
    );
    assert!(
        note.contains("rocm diagnose --symptom"),
        "the note must route the user to the conditional diagnose entry: {note}"
    );
}

#[test]
fn oom_note_is_withheld_for_a_ready_serve_or_a_clean_log() {
    for hinted in [false, true] {
        assert_eq!(
            oom_memory_note("ready", Some(SYMPTOM), CANONICAL, HINT, hinted),
            None
        );
        assert_eq!(
            oom_memory_note("starting", None, CANONICAL, HINT, hinted),
            None
        );
        assert_eq!(
            oom_memory_note("running", Some(SYMPTOM), CANONICAL, HINT, hinted),
            None
        );
    }
    assert!(serve_failed_to_become_ready("starting"));
    assert!(!serve_failed_to_become_ready("running"));
}

fn quoted_symptom_argument(note: &str) -> &str {
    note.split("run `")
        .nth(1)
        .and_then(|rest| rest.split('`').next())
        .expect("the note must print a runnable command")
        .split("--symptom '")
        .nth(1)
        .and_then(|rest| rest.split('\'').next())
        .expect("the command must carry a --symptom value")
}

#[test]
fn the_shared_hint_is_de_duplicated_without_losing_the_rest_of_the_oom_note() {
    let note = oom_memory_note("starting", Some(SYMPTOM), CANONICAL, HINT, true)
        .expect("an OOM failure must still carry a note when the hint was already printed");
    assert!(
        !note.contains(HINT),
        "the shared hint must not be printed a second time: {note}"
    );
    assert!(
        note.contains("ran out of GPU memory"),
        "the note must confirm this attempt really did OOM: {note}"
    );
    assert!(
        note.contains("smaller or quantized model"),
        "the model-too-large branch is absent from the pre-launch hint: {note}"
    );
    assert_eq!(quoted_symptom_argument(&note), SYMPTOM);

    let printed = [HINT.to_owned(), note]
        .iter()
        .filter(|line| line.contains(HINT))
        .count();
    assert_eq!(printed, 1, "the shared hint must appear exactly once");
}

#[test]
fn an_apostrophe_in_the_failing_line_cannot_break_out_of_the_printed_command() {
    let symptom = "vllm: HIP out of memory. GPU 0 can't allocate the model's weights.";
    let note = oom_memory_note("starting", Some(symptom), CANONICAL, HINT, false)
        .expect("an OOM failure must carry a note");
    let command = note
        .split("run `")
        .nth(1)
        .and_then(|rest| rest.split('`').next())
        .expect("the note must print a runnable command");
    assert_eq!(
        command.matches('\'').count(),
        2,
        "the --symptom argument must stay a single balanced quoted word: {command}"
    );
    assert_eq!(quoted_symptom_argument(&note), CANONICAL);
}

#[test]
fn control_bytes_from_the_log_never_reach_the_printed_command() {
    let symptom = "vllm: \u{1b}[31mRuntimeError: HIP out of memory\u{1b}[0m\u{7}";
    let note = oom_memory_note("starting", Some(symptom), CANONICAL, HINT, false)
        .expect("an OOM failure must carry a note");
    assert!(
        !note.chars().any(|c| c.is_control() && c != '\n'),
        "no control byte may survive into the printed note: {note:?}"
    );
    assert_eq!(quoted_symptom_argument(&note), CANONICAL);
}

#[test]
fn the_verdict_on_a_symptom_decides_what_is_quoted() {
    let note = |quotable: bool| {
        rocm::serve_summary::oom_memory_note(
            "starting",
            Some(("shown", quotable)),
            CANONICAL,
            HINT,
            false,
        )
        .unwrap()
    };
    assert_eq!(quoted_symptom_argument(&note(true)), "shown");
    assert_eq!(quoted_symptom_argument(&note(false)), CANONICAL);
}

#[test]
fn oom_note_quotes_a_clean_failing_line_verbatim() {
    let note = oom_memory_note("starting", Some(SYMPTOM), CANONICAL, HINT, false)
        .expect("an OOM failure must carry a note");
    assert_eq!(quoted_symptom_argument(&note), SYMPTOM);
}

#[test]
fn oom_note_renders_in_the_summary_notes() {
    let mut summary = base_summary();
    summary.status = "starting".to_owned();
    if let Some(note) = oom_memory_note(&summary.status, Some(SYMPTOM), CANONICAL, HINT, false) {
        summary.notes.push(note);
    }
    let rendered = render_summary(&summary);
    assert!(rendered.contains("note: the serve attempt ran out of GPU memory"));
    assert!(rendered.contains("--gpu-memory-utilization"));
}

#[test]
fn api_key_client_config_shown_only_when_present() {
    let plain = render_summary(&base_summary());
    assert!(!plain.contains("api key"), "{plain}");

    let mut summary = base_summary();
    summary.api_key = Some("endpoint-secret".to_owned());
    let rendered = render_summary(&summary);
    assert!(rendered.contains("api key: endpoint-secret"), "{rendered}");
    assert!(rendered.contains("shown only now"), "{rendered}");
}

#[test]
fn compute_metrics_derives_ttft_and_throughput() {
    let start = nanos(Duration::from_secs(1));
    let first = start + nanos(Duration::from_millis(200));
    let last = first + nanos(Duration::from_millis(500));
    let metrics = compute_metrics(start, Some(first), Some(last), 11);
    assert_eq!(metrics.ttft, Some(nanos(Duration::from_millis(200))));
    let TokenRate {
        tokens,
        window_nanos,
    } = metrics.generation.expect("throughput present");
    let tps = tokens as f64 / (window_nanos as f64 / 1e9);
    assert!((tps - 20.0).abs() < 0.001, "unexpected tps {tps}");
}

#[test]
fn compute_metrics_without_tokens_is_empty() {
    assert_eq!(compute_metrics(5, None, None, 0), SmokeMetrics::default());
}

#[test]
fn compute_metrics_single_token_has_ttft_but_no_throughput() {
    let first = nanos(Duration::from_millis(120));
    let metrics = compute_metrics(0, Some(first), Some(first), 1);
    assert_eq!(metrics.ttft, Some(nanos(Duration::from_millis(120))));
    assert_eq!(metrics.generation, None);
}

fn event(content: &str, at: u128) -> SmokeEvent {
    SmokeEvent {
        content: content.to_owned(),
        at,
    }
}

#[test]
fn a_piece_without_text_is_no_token() {
    let none = SmokeTimes {
        first: None,
        last: None,
        chunks: 0,
    };
    assert_eq!(after_event(none, "", 5), none);
    let one = after_event(none, "Hel", 7);
    assert_eq!(
        one,
        SmokeTimes {
            first: Some(7),
            last: Some(7),
            chunks: 1
        }
    );
    assert_eq!(after_event(one, "", 8), one);
    assert_eq!(
        after_event(one, "lo", 9),
        SmokeTimes {
            first: Some(7),
            last: Some(9),
            chunks: 2
        }
    );
}

#[test]
fn a_smoke_test_measures_the_pieces_that_hold_text() {
    let events = vec![
        event("", 100),
        event("Hel", 300),
        event("", 310),
        event("lo", 400),
        event("!", 500),
        event("", 900),
    ];
    assert_eq!(
        run_smoke_test(100, &events, Ok(())),
        SmokeMetrics {
            ttft: Some(200),
            generation: Some(TokenRate {
                tokens: 2,
                window_nanos: 200
            }),
        }
    );
    assert_eq!(
        run_smoke_test(100, &vec![], Ok(())),
        SmokeMetrics::default()
    );
}

#[test]
fn a_smoke_test_that_broke_off_measures_nothing() {
    let refused = Err(Failure::new("connection refused".to_owned()));
    assert_eq!(
        run_smoke_test(0, &vec![event("Hel", 3), event("lo", 4)], refused),
        SmokeMetrics::default()
    );
    assert_eq!(SMOKE_PROMPT, "Reply with a short one-sentence greeting.");
    assert_eq!(SMOKE_MAX_TOKENS, 32);
}
