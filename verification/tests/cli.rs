//! The status line, the dashboard, automations, uninstalling and logs.

use rocm::automations::{
    disable, enable, render_disabled, render_enabled, AutomationsConfig, Watcher, WatcherSetting,
};
use rocm::bootstrap::{run_setup, Setup, NON_INTERACTIVE_MESSAGE};
use rocm::cli_progress::{format_download_progress, Spinner};
use rocm::dash::{
    bootstrap_focus, chat_api_key_from_env, demo_session_name, is_demo_session, launcher_route,
    local_socket, model_recipe_summaries, prepare, resolved_args, run, run_bootstrap, run_chat,
    run_focused, run_launcher, runtime_summaries, should_spawn_daemon, ActiveTab, DashConfig,
    DashEnv, Focus, LauncherChoice, LauncherRoute, ModelRecipe, ResolvedArgs,
};
use rocm::dash_seam::{approval_intent, tool_step, ApprovalRequest, ToolStep};
use rocm::endpoint_keys::endpoint_key_file_name;
use rocm::failure::Failure;
use rocm::logging::{prune_old_logs, LOG_FILE_PREFIX, MAX_RETAINED_LOGS};
use rocm::storage::command::NextStep;
use rocm::storage::retention::{InstalledRuntimeManifest, RuntimeConfig};
use rocm::uninstall::{
    after_review, before_removal, removed_line, stop_managed_services_then_remove,
    uninstall_removal_gate, BeforeRemoval, FailedManagedServiceStop, GateWords,
    ManagedServiceStopReport, UninstallEntry,
};

/// Sizes as the program shows them: the largest binary unit that they fill, with
/// one digit behind the point.
fn size(bytes: u64) -> String {
    let units = ["KiB", "MiB", "GiB", "TiB"];
    if bytes < 1024 {
        return format!("{bytes} B");
    }
    let mut value = bytes as f64 / 1024.0;
    let mut unit = 0;
    while value >= 1024.0 && unit + 1 < units.len() {
        value /= 1024.0;
        unit += 1;
    }
    format!("{value:.1} {}", units[unit])
}

// -- the status line -------------------------------------------------------

#[test]
fn format_download_progress_shows_bytes_and_percent_when_total_is_known() {
    let gib = 1024 * 1024 * 1024;
    assert_eq!(
        format_download_progress("Downloading…", gib, Some(4 * gib), &size),
        "Downloading… 1.0 GiB / 4.0 GiB (25%)"
    );
}

#[test]
fn format_download_progress_omits_total_when_unknown() {
    let rendered = format_download_progress("Downloading…", 883_147_264, None, &size);
    assert!(
        !rendered.contains('/') && !rendered.contains('%'),
        "no total means no fraction or percentage: {rendered}"
    );
    assert!(rendered.starts_with("Downloading… "));
}

#[test]
fn format_download_progress_clamps_percent_at_100_when_bytes_exceeds_total() {
    let rendered = format_download_progress("Downloading…", 105, Some(100), &size);
    assert!(
        rendered.contains("(100%)"),
        "a server sending a few bytes past its declared length must not report over 100%: {rendered}"
    );
}

#[test]
fn format_download_progress_does_not_round_up_to_100_before_completion() {
    let rendered = format_download_progress("Downloading…", 995, Some(1000), &size);
    assert!(
        rendered.contains("(99%)"),
        "99.5% must floor to 99%, not round up to a premature 100%: {rendered}"
    );
}

#[test]
fn an_empty_total_has_no_share() {
    assert_eq!(format_download_progress("x", 0, Some(0), &size), "x 0 B");
}

#[test]
fn set_progress_never_displays_fewer_bytes_than_already_shown() {
    let mut spinner = Spinner::new("Downloading…", false);
    spinner.set_progress("Downloading…", 900, Some(1000), 0, &size);
    assert!(spinner.label.contains("900"));
    spinner.set_progress("Downloading…", 100, Some(500), 1, &size);
    assert!(
        spinner.label.contains("900"),
        "progress must not regress after a retry: {}",
        spinner.label
    );
}

#[test]
fn progress_is_drawn_first_last_and_not_too_often_between() {
    let mut spinner = Spinner::new("x", true);
    assert!(spinner.set_progress("x", 1, Some(10), 1000, &size).is_some());
    assert!(spinner.set_progress("x", 2, Some(10), 1099, &size).is_none());
    assert!(spinner.set_progress("x", 3, Some(10), 1100, &size).is_some());
    assert_eq!(
        spinner.set_progress("x", 10, Some(10), 1101, &size).as_deref(),
        Some("⠸ x 10 B / 10 B (100%)")
    );
}

#[test]
fn the_spinner_turns_and_is_cleared() {
    let mut spinner = Spinner::new("Starting", true);
    assert!(!spinner.clear());
    assert_eq!(spinner.tick().as_deref(), Some("⠙ Starting"));
    assert_eq!(spinner.set_label("Running").as_deref(), Some("⠙ Running"));
    assert!(spinner.clear());
    assert!(!spinner.clear());
    spinner.idx = usize::MAX;
    assert_eq!(spinner.tick().as_deref(), Some("⠋ Running"));
    let mut off = Spinner::new("Starting", false);
    assert_eq!(off.tick(), None);
    assert!(!off.clear());
}

#[test]
fn a_size_reads_as_it_is_told() {
    let plain = |bytes: u64| format!("<{bytes}>");
    assert_eq!(
        format_download_progress("x", 3, Some(4), &plain),
        "x <3> / <4> (75%)"
    );
    assert_eq!(format_download_progress("x", 3, None, &plain), "x <3>");
}

// -- the dashboard ---------------------------------------------------------

fn args() -> ResolvedArgs {
    resolved_args(
        &DashConfig {
            connect: "unix:/run/rocm.sock".to_owned(),
            token: None,
            theme: "dark".to_owned(),
            chat_url: None,
            chat_model: Some("m".to_owned()),
            chat_auth_header: None,
        },
        &DashEnv {
            openai_base_url: Some(String::new()),
            chat_api_keys: vec![Some(String::new()), Some("key".to_owned())],
            anthropic_api_key: Err(Failure::new("no store".to_owned())),
        },
        model_recipe_summaries(&recipes()),
        vec![],
        vec![],
        ActiveTab::Home,
    )
}

fn recipes() -> Vec<ModelRecipe> {
    vec![
        ModelRecipe {
            canonical_model_id: "Qwen3".to_owned(),
            aliases: vec!["qwen".to_owned()],
            task: "chat".to_owned(),
            preferred_engines: vec!["vllm".to_owned(), "lemonade".to_owned()],
        },
        ModelRecipe {
            canonical_model_id: "Other".to_owned(),
            aliases: vec![],
            task: "chat".to_owned(),
            preferred_engines: vec![],
        },
    ]
}

#[test]
fn bootstrap_routes_to_focused_setup() {
    assert_eq!(bootstrap_focus(), Focus::Setup);
    let launch = run_bootstrap();
    assert_eq!(launch.focus, Some(Focus::Setup));
    assert_eq!(launch.replay, None);
}

#[test]
fn launcher_route_maps_every_choice() {
    assert_eq!(
        launcher_route(LauncherChoice::SetUp),
        LauncherRoute::Focused(Focus::Setup)
    );
    assert_eq!(
        launcher_route(LauncherChoice::Serve),
        LauncherRoute::Focused(Focus::Serve)
    );
    assert_eq!(
        launcher_route(LauncherChoice::Diagnose),
        LauncherRoute::Focused(Focus::Examine),
    );
    assert_eq!(launcher_route(LauncherChoice::Chat), LauncherRoute::Chat);
    assert_eq!(
        launcher_route(LauncherChoice::OpenDashboard),
        LauncherRoute::Dashboard
    );
}

#[test]
fn the_launcher_opens_what_its_rows_say() {
    assert!(run_launcher(None, true).is_none());
    let chat = run_launcher(Some(LauncherChoice::Chat), true).unwrap();
    assert_eq!(chat.initial_tab, ActiveTab::Chat);
    assert!(chat.chat_mock);
    let serve = run_launcher(Some(LauncherChoice::Serve), true).unwrap();
    assert_eq!(serve.focus, Some(Focus::Serve));
    assert!(!serve.chat_mock);
}

#[test]
fn resolved_args_default_has_no_focus() {
    assert!(args().focus.is_none());
}

#[test]
fn focused_and_replay_suppress_the_embedded_daemon() {
    let mut args = args();
    assert!(should_spawn_daemon(&args), "full dash spawns the daemon");
    args.focus = Some(Focus::Examine);
    assert!(!should_spawn_daemon(&args), "focused host: no daemon");
    args.focus = None;
    args.replay = Some("/tmp/x.ndjson".to_owned());
    assert!(!should_spawn_daemon(&args), "replay: no daemon");
}

#[test]
fn resolved_args_take_connect_and_theme_from_config() {
    let args = args();
    assert_eq!(args.connect, "unix:/run/rocm.sock");
    assert_eq!(args.theme, "dark");
    assert!(!args.chat_mock);
    assert!(args.replay.is_none());
    assert!(
        !args.model_recipes.is_empty(),
        "built-in model recipes flow through to the wizard"
    );
    assert_eq!(args.chat_env_url, None);
    assert_eq!(args.chat_api_key.as_deref(), Some("key"));
    assert_eq!(args.anthropic_api_key, None);
}

#[test]
fn only_a_live_dashboard_can_run_tools() {
    assert!(prepare(args(), run(None, None, false)).with_tools);
    assert!(prepare(args(), run_focused(Focus::Serve)).with_tools);
    assert!(!prepare(args(), run_chat(true)).with_tools);
    let demo = prepare(
        args(),
        run(Some("a".to_owned()), Some("demo".to_owned()), false),
    );
    assert!(!demo.with_tools);
    assert_eq!(demo.replay.as_deref(), Some("demo"));
    assert!(!should_spawn_daemon(&demo));
}

#[test]
fn model_recipe_summaries_carry_id_and_engine() {
    let records = recipes();
    let summaries = model_recipe_summaries(&records);
    assert_eq!(summaries.len(), records.len(), "no recipes dropped");
    assert!(summaries.iter().all(|s| !s.id.is_empty()));
    let first = &records[0];
    let first_summary = &summaries[0];
    assert_eq!(first_summary.id, first.canonical_model_id);
    assert_eq!(first_summary.aliases, first.aliases);
    assert_eq!(first_summary.task, first.task);
    assert_eq!(
        first_summary.preferred_engine.as_ref(),
        first.preferred_engines.first()
    );
    assert_eq!(summaries[1].preferred_engine, None);
}

fn install(key: &str, id: &str) -> InstalledRuntimeManifest {
    InstalledRuntimeManifest {
        runtime_key: key.to_owned(),
        runtime_id: id.to_owned(),
        channel: "release".to_owned(),
        format: "wheel".to_owned(),
        family: "f".to_owned(),
        version: "1".to_owned(),
        install_root: format!("/r/{key}"),
        read_only: false,
        imported_from: None,
        installed_at_unix_ms: 1,
    }
}

fn configured(active: Option<&str>, default_id: Option<&str>) -> RuntimeConfig {
    RuntimeConfig {
        active_runtime_key: active.map(str::to_owned),
        previous_runtime_key: Some("b".to_owned()),
        default_runtime_id: default_id.map(str::to_owned),
    }
}

#[test]
fn an_install_is_in_use_by_key_or_as_the_only_default() {
    let active = |config: &RuntimeConfig, list: Vec<InstalledRuntimeManifest>| -> Vec<String> {
        runtime_summaries(&Ok(list), config)
            .into_iter()
            .filter(|s| s.active)
            .map(|s| s.key)
            .collect()
    };
    let list = || vec![install("a", "x"), install("b", "y"), install("c", "x")];
    assert_eq!(active(&configured(Some("a"), Some("y")), list()), vec!["a"]);
    assert_eq!(active(&configured(None, Some("y")), list()), vec!["b"]);
    assert!(active(&configured(None, Some("x")), list()).is_empty());
    assert!(active(&configured(None, None), list()).is_empty());
    let all = runtime_summaries(&Ok(list()), &configured(None, None));
    assert!(all[1].rollback && !all[0].rollback);
    assert!(runtime_summaries(
        &Err(Failure::new("unreadable".to_owned())),
        &configured(None, None)
    )
    .is_empty());
}

#[test]
fn the_first_key_that_is_set_is_used() {
    assert_eq!(chat_api_key_from_env(&vec![]), None);
    assert_eq!(
        chat_api_key_from_env(&vec![None, Some("b".to_owned()), Some("c".to_owned())]).as_deref(),
        Some("b")
    );
}

#[test]
fn only_a_local_socket_is_managed() {
    assert_eq!(local_socket("unix:/run/x").as_deref(), Some("/run/x"));
    assert_eq!(local_socket("tcp:1.2.3.4"), None);
}

#[test]
fn demo_sessions_are_told_by_their_name() {
    assert_eq!(demo_session_name(7, 99), "session-7-99.ndjson");
    assert!(is_demo_session("session-7-99.ndjson"));
    assert!(!is_demo_session(".ndjson"));
    assert!(!is_demo_session("notes.txt"));
}

#[test]
fn non_interactive_message_advertises_the_install_folder_choice() {
    assert!(NON_INTERACTIVE_MESSAGE.contains("choose an install folder"));
    assert!(NON_INTERACTIVE_MESSAGE.contains("rocm bootstrap setup"));
    assert!(matches!(run_setup(false), Setup::Say(text) if text == NON_INTERACTIVE_MESSAGE));
    assert!(matches!(run_setup(true), Setup::Open(launch) if launch.focus == Some(Focus::Setup)));
}

#[test]
fn a_tool_that_changes_something_has_to_be_approved() {
    assert!(matches!(tool_step(&Ok(()), true), ToolStep::Run));
    assert!(matches!(tool_step(&Ok(()), false), ToolStep::Approve));
    assert!(matches!(
        tool_step(&Err(Failure::new("no such tool".to_owned())), true),
        ToolStep::Refuse(reason) if reason == "no such tool"
    ));
    let intent = approval_intent(&ApprovalRequest {
        pending_title: "Install the SDK".to_owned(),
        command_title: "This will run:".to_owned(),
        display_command: Some("rocm install sdk".to_owned()),
        args: vec!["install".to_owned(), "sdk".to_owned()],
    });
    assert_eq!(intent.body, vec!["This will run:", "rocm install sdk"]);
    assert_eq!(&intent.args[..2], &["install".to_owned(), "sdk".to_owned()]);
}

// -- automations -----------------------------------------------------------

fn watcher(id: &str) -> Option<Watcher> {
    Some(Watcher {
        id: id.to_owned(),
        trigger: "hourly".to_owned(),
        policy: None,
    })
}

fn setting(id: &str, enabled: bool, mode: Option<&str>) -> WatcherSetting {
    WatcherSetting {
        id: id.to_owned(),
        enabled,
        mode: mode.map(str::to_owned),
    }
}

#[test]
fn switching_a_watcher_on_and_off() {
    let mut config = AutomationsConfig {
        watchers: vec![setting("a", false, Some("observe"))],
        daemon_enabled: false,
    };
    enable(&mut config, "a", &watcher("a"), None).unwrap();
    assert!(config.daemon_enabled && config.watchers[0].enabled);
    assert_eq!(config.watchers[0].mode.as_deref(), Some("observe"));
    enable(&mut config, "b", &watcher("b"), Some("contained")).unwrap();
    assert_eq!(config.watchers[1].mode.as_deref(), Some("contained"));

    disable(&mut config, "a", &watcher("a")).unwrap();
    assert!(config.daemon_enabled, "another watcher is still on");
    disable(&mut config, "b", &watcher("b")).unwrap();
    assert!(!config.daemon_enabled);
    assert_eq!(config.watchers.len(), 2);
}

#[test]
fn an_unknown_watcher_changes_nothing() {
    let mut config = AutomationsConfig {
        watchers: vec![],
        daemon_enabled: false,
    };
    assert_eq!(
        enable(&mut config, "x", &None, None).unwrap_err().headline(),
        "unknown watcher: x"
    );
    assert!(disable(&mut config, "x", &None).is_err());
    assert!(config.watchers.is_empty() && !config.daemon_enabled);
}

#[test]
fn what_was_switched_is_told() {
    let on = render_enabled(
        &Watcher {
            id: "a".to_owned(),
            trigger: "hourly".to_owned(),
            policy: Some("asks first".to_owned()),
        },
        "observe",
        "/c/config.toml",
    );
    assert_eq!(
        on,
        "automation watcher enabled\n  watcher: a\n  mode: observe\n  trigger: hourly\n  \
         policy: asks first\n  config: /c/config.toml\n  next step: run \
         `rocmd run --automations-enabled` to start the persistent watcher loop\n"
    );
    assert_eq!(
        render_disabled(&watcher("a").unwrap(), "/c/config.toml"),
        "automation watcher disabled\n  watcher: a\n  config: /c/config.toml\n"
    );
}

// -- uninstalling ----------------------------------------------------------

fn plan() -> Vec<UninstallEntry> {
    vec![UninstallEntry {
        kind: "binary".to_owned(),
        path: "/u/rocm".to_owned(),
    }]
}

/// How a stop report reads.
fn words(report: &Result<ManagedServiceStopReport, Failure>) -> GateWords {
    match report {
        Err(_) => GateWords {
            refusal: String::new(),
            notice: None,
        },
        Ok(report) => GateWords {
            refusal: format!("could not be stopped: {:?}", report.failed),
            notice: if report.stopped.is_empty() {
                None
            } else {
                Some(format!("stopped {}", report.stopped.join(", ")))
            },
        },
    }
}

#[test]
fn a_service_that_cannot_be_stopped_leaves_every_planned_path_in_place() {
    let report = Ok(ManagedServiceStopReport {
        stopped: Vec::new(),
        failed: vec![FailedManagedServiceStop {
            service_id: "svc-stuck".to_owned(),
            reason: "still \"ready\" after the stop attempt".to_owned(),
        }],
    });
    let said = words(&report);
    let error = stop_managed_services_then_remove(plan(), report, said)
    .expect_err("an unconfirmed stop must abort uninstall");
    assert!(
        error.headline().contains("svc-stuck"),
        "the abort names the service: {}",
        error.full()
    );
}

#[test]
fn a_stop_pass_that_cannot_run_leaves_every_planned_path_in_place() {
    let report = Err(Failure::new(
        "failed to read the services directory".to_owned(),
    ));
    let said = words(&report);
    let error = stop_managed_services_then_remove(plan(), report, said)
    .expect_err("a stop pass that cannot run must abort uninstall");
    assert!(
        error.headline().contains("services directory"),
        "the abort carries the discovery failure: {}",
        error.full()
    );
}

#[test]
fn removal_proceeds_once_every_managed_server_is_confirmed_stopped() {
    let report = Ok(ManagedServiceStopReport {
        stopped: vec!["svc-stopped".to_owned()],
        failed: Vec::new(),
    });
    let said = words(&report);
    let removal = stop_managed_services_then_remove(plan(), report, said)
    .expect("a confirmed stop must let uninstall proceed");
    assert_eq!(removal.entries.len(), 1);
    assert_eq!(removal.entries[0].path, "/u/rocm");
    assert!(removal.notice.unwrap().contains("svc-stopped"));
    assert_eq!(removed_line(&plan()[0]), "removed binary /u/rocm");

    let report = Ok(ManagedServiceStopReport::default());
    let said = words(&report);
    let quiet = stop_managed_services_then_remove(plan(), report, said).unwrap();
    assert_eq!(quiet.notice, None);
}

#[test]
fn servers_are_stopped_only_where_their_tooling_goes() {
    assert_eq!(before_removal(true), BeforeRemoval::StopServers);
    assert_eq!(before_removal(false), BeforeRemoval::GoOn);
    let stuck = ManagedServiceStopReport {
        stopped: vec!["a".to_owned()],
        failed: vec![FailedManagedServiceStop {
            service_id: "b".to_owned(),
            reason: "busy".to_owned(),
        }],
    };
    let said = || GateWords {
        refusal: "b is up".to_owned(),
        notice: Some("a is down".to_owned()),
    };
    assert_eq!(
        uninstall_removal_gate(&stuck, said()).unwrap_err().full(),
        "b is up"
    );
    assert_eq!(
        uninstall_removal_gate(&ManagedServiceStopReport::default(), said())
            .unwrap()
            .as_deref(),
        Some("a is down")
    );
}

#[test]
fn uninstalling_needs_consent() {
    assert_eq!(after_review(0, false, true, true), Ok(NextStep::Stop));
    assert_eq!(after_review(2, true, true, true), Ok(NextStep::Stop));
    assert_eq!(after_review(2, false, true, false), Ok(NextStep::Remove));
    assert_eq!(after_review(2, false, false, true), Ok(NextStep::Ask));
    assert_eq!(
        after_review(2, false, false, false).unwrap_err().headline(),
        "uninstall requires --yes outside an interactive terminal"
    );
}

// -- logs and keys ---------------------------------------------------------

#[test]
fn pruning_twice_removes_nothing_more() {
    let names: Vec<String> = (0..12)
        .map(|day| format!("{LOG_FILE_PREFIX}.2026-01-{day:02}"))
        .chain(["notes.txt".to_owned(), LOG_FILE_PREFIX.to_owned()])
        .collect();
    let gone = prune_old_logs(&names);
    assert_eq!(gone.len(), 12 - MAX_RETAINED_LOGS);
    let left: Vec<String> = names.into_iter().filter(|n| !gone.contains(n)).collect();
    assert!(left.contains(&"notes.txt".to_owned()));
    assert!(prune_old_logs(&left).is_empty());
}

#[test]
fn prune_old_logs_keeps_only_the_most_recent_files() {
    let names: Vec<String> = (0..(MAX_RETAINED_LOGS + 3))
        .rev()
        .map(|day| format!("{LOG_FILE_PREFIX}.2026-01-{day:02}"))
        .chain(["rocm-cli.log".to_owned(), "other.log".to_owned()])
        .collect();
    let gone = prune_old_logs(&names);
    assert_eq!(
        gone,
        vec![
            "rocm-cli.log.2026-01-00",
            "rocm-cli.log.2026-01-01",
            "rocm-cli.log.2026-01-02",
        ]
    );
    assert!(prune_old_logs(&names[..4].to_vec()).is_empty());
}

#[test]
fn a_key_file_is_named_after_its_service() {
    assert_eq!(endpoint_key_file_name("svc-1"), "svc-1.endpoint-key");
}

#[test]
fn a_failure_is_told_briefly_or_whole() {
    let failure = Failure::new("inner".to_owned()).context("outer".to_owned());
    assert_eq!(failure.headline(), "outer");
    assert_eq!(failure.full(), "outer: inner");
}
