//! Probing, provisioning and installing.

use rocm::failure::Failure;
use rocm::remote::bootstrap::{
    ensure_ready, ensure_ready_with, locate_cli, probe, ready_with_build, ready_with_report,
    ReadyReport, ReadyStep,
};
use rocm::remote::doctor::{DiagnoseReport, Diagnosis};
use rocm::remote::install::{
    assess, describe_refusal, has_passwordless_sudo, install, mentions_reboot,
    recognised_problems, Refusal,
};
use rocm::remote::provision::{
    fetched_asset, finish_install_cli, install_cli, parse_downloaded_asset,
    remote_installer_command, signing_env_fragment_from, signing_key_path, verify_remote_cli,
    CliReport, CliStep, Fetched, Provisioned, RemotePlatform, StagedFile, REMOTE_CLI_PATH,
};
use rocm::remote::scripted::{ScriptedStep, ScriptedTransport, TransportCall};

fn ready_steps() -> Vec<ScriptedStep> {
    vec![
        ScriptedStep::ok("rocm --version", "rocm 1.2.3"),
        ScriptedStep::ok("command -v rocminfo", ""),
        ScriptedStep::ok("command -v tailscale", ""),
        ScriptedStep::ok("uname -s", "Linux\nx86_64\n"),
    ]
}

fn linux() -> RemotePlatform {
    RemotePlatform {
        os: "linux".to_owned(),
        arch: "x86_64".to_owned(),
    }
}

fn ready_cli(report: ReadyReport) -> String {
    match report.result {
        Ok(ReadyStep::Ready { cli }) => cli,
        Ok(_) => panic!("more is to be done"),
        Err(error) => panic!("{}", error.full()),
    }
}

fn ready_error(report: ReadyReport) -> String {
    match report.result {
        Ok(_) => panic!("should have been refused"),
        Err(error) => error.headline(),
    }
}

fn cli_error(report: CliReport) -> String {
    match report.result {
        Ok(_) => panic!("should have failed"),
        Err(error) => error.headline(),
    }
}

fn sent(transport: &ScriptedTransport, text: &str) -> bool {
    transport.calls().iter().any(
        |call| matches!(call, TransportCall::Exec { command, .. } if command.contains(text)),
    )
}

// -- probing ---------------------------------------------------------------

#[test]
fn a_ready_machine_reports_its_cli_rocm_tailscale_and_platform() {
    let mut transport = ScriptedTransport::new(ready_steps());
    let readiness = probe(&mut transport).expect("probe");

    assert_eq!(readiness.cli.as_deref(), Some("rocm"));
    assert_eq!(readiness.cli_version.as_deref(), Some("rocm 1.2.3"));
    assert!(readiness.rocm_present);
    assert!(readiness.tailscale_present);
    assert_eq!(
        readiness.platform,
        Some(RemotePlatform {
            os: "linux".to_owned(),
            arch: "x86_64".to_owned()
        })
    );
}

#[test]
fn a_cli_outside_path_is_found_where_we_would_have_installed_it() {
    let mut transport = ScriptedTransport::new(vec![
        ScriptedStep::fails("rocm --version", 127, "not found"),
        ScriptedStep::ok("/.local/bin/rocm --version", "rocm 1.2.3"),
        ScriptedStep::ok("command -v rocminfo", ""),
        ScriptedStep::ok("command -v tailscale", ""),
        ScriptedStep::ok("uname -s", "Linux\nx86_64\n"),
    ]);
    let readiness = probe(&mut transport).expect("probe");
    assert_eq!(readiness.cli.as_deref(), Some(REMOTE_CLI_PATH));
}

#[test]
fn a_machine_without_rocm_is_refused_with_the_command_that_fixes_it() {
    let mut transport = ScriptedTransport::new(vec![
        ScriptedStep::ok("rocm --version", "rocm 1.2.3"),
        ScriptedStep::fails("command -v rocminfo", 1, ""),
        ScriptedStep::ok("command -v tailscale", ""),
        ScriptedStep::ok("uname -s", "Linux\nx86_64\n"),
    ]);
    let error = ready_error(ensure_ready(&mut transport, "gpu-box", "release"));
    assert!(error.contains("no ROCm installation"), "{error}");
    assert!(error.contains("ssh gpu-box --"), "{error}");
}

#[test]
fn a_machine_without_tailscale_is_refused_before_a_model_is_started() {
    let mut transport = ScriptedTransport::new(vec![
        ScriptedStep::ok("rocm --version", "rocm 1.2.3"),
        ScriptedStep::ok("command -v rocminfo", ""),
        ScriptedStep::fails("command -v tailscale", 1, ""),
        ScriptedStep::ok("uname -s", "Linux\nx86_64\n"),
    ]);
    let error = ready_error(ensure_ready(&mut transport, "gpu-box", "release"));
    assert!(error.contains("cannot publish an endpoint"), "{error}");
}

#[test]
fn a_machine_that_cannot_publish_is_not_installed_on() {
    let mut transport = ScriptedTransport::new(vec![
        ScriptedStep::ok("rocm --version", "rocm 1.2.3"),
        ScriptedStep::fails("command -v rocminfo", 1, ""),
        ScriptedStep::fails("command -v tailscale", 1, ""),
        ScriptedStep::ok("uname -s", "Linux\nx86_64\n"),
        ScriptedStep::ok("examine --json", "{}"),
    ]);
    let error = ready_error(ensure_ready_with(
        &mut transport,
        "gpu-box",
        "release",
        true,
    ));
    assert!(error.contains("gpu-box has no Tailscale"), "{error}");
    assert!(!sent(&transport, "examine"));
    assert!(!sent(&transport, "install"));
}

#[test]
fn a_machine_without_the_cli_has_one_installed_rather_than_being_refused() {
    let mut transport = ScriptedTransport::new(vec![
        ScriptedStep::fails("rocm --version", 127, "not found"),
        ScriptedStep::ok("command -v rocminfo", ""),
        ScriptedStep::ok("command -v tailscale", ""),
        ScriptedStep::ok("uname -s", "Linux\nx86_64\n"),
        ScriptedStep::ok("install.sh | sh", ""),
        ScriptedStep::ok("/.local/bin/rocm --version", "rocm 1.2.3"),
    ]);
    assert_eq!(
        ready_cli(ensure_ready(&mut transport, "gpu-box", "release")),
        REMOTE_CLI_PATH
    );
}

#[test]
fn a_ready_machine_returns_how_to_invoke_its_cli() {
    let mut transport = ScriptedTransport::new(ready_steps());
    assert_eq!(
        ready_cli(ensure_ready(&mut transport, "gpu-box", "release")),
        "rocm"
    );
}

#[test]
fn a_cli_is_located_or_said_to_be_missing() {
    let mut there = ScriptedTransport::new(vec![ScriptedStep::ok("rocm --version", "rocm 1")]);
    assert_eq!(locate_cli(&mut there, "gpu-box").unwrap(), "rocm");
    let mut absent = ScriptedTransport::new(vec![ScriptedStep::fails("rocm --version", 127, "")]);
    assert!(locate_cli(&mut absent, "gpu-box")
        .unwrap_err()
        .headline()
        .contains("gpu-box"));
}

#[test]
fn an_unattended_install_is_diagnosed_first() {
    let mut transport = ScriptedTransport::new(vec![
        ScriptedStep::ok("rocm --version", "rocm 1.2.3"),
        ScriptedStep::fails("command -v rocminfo", 1, ""),
        ScriptedStep::ok("command -v tailscale", ""),
        ScriptedStep::ok("uname -s", "Linux\nx86_64\n"),
        ScriptedStep::ok("examine --json", "{\"os_family\":\"linux\"}\n"),
    ]);
    let report = ensure_ready_with(&mut transport, "gpu-box", "release", true);
    match report.result {
        Ok(ReadyStep::Diagnose { cli, examination }) => {
            assert_eq!(cli, "rocm");
            assert_eq!(examination, "{\"os_family\":\"linux\"}");
        }
        Ok(_) => panic!("the machine is to be diagnosed"),
        Err(error) => panic!("{}", error.full()),
    }
    assert!(!sent(&transport, "install driver"));
}

#[test]
fn a_diagnosed_machine_is_installed_on_only_if_it_is_clean() {
    let clean = DiagnoseReport {
        matched: vec![],
        out_of_scope: None,
    };
    let mut good = ScriptedTransport::new(vec![
        ScriptedStep::ok("sudo -n true", ""),
        ScriptedStep::ok("install driver --yes", "status: completed"),
        ScriptedStep::ok("install sdk --yes", ""),
    ]);
    assert_eq!(
        ready_cli(ready_with_report(
            &mut good, "gpu-box", "rocm", &clean, 50, ""
        )),
        "rocm"
    );

    let problem = report_with(vec![finding("Secure Boot", 90)]);
    let mut bad = ScriptedTransport::new(vec![
        ScriptedStep::ok("sudo -n true", ""),
        ScriptedStep::ok("install", ""),
    ]);
    let error = ready_error(ready_with_report(
        &mut bad, "gpu-box", "rocm", &problem, 50, "",
    ));
    assert!(error.contains("Secure Boot"), "{error}");
    assert!(!sent(&bad, "install driver"));
}

// -- provisioning ----------------------------------------------------------

#[test]
fn the_remote_installs_its_own_build_when_it_can() {
    let mut transport = ScriptedTransport::new(vec![
        ScriptedStep::ok("install.sh | sh", ""),
        ScriptedStep::ok(".local/bin/rocm --version", "rocm 1.2.3"),
    ]);
    match install_cli(&mut transport, "gpu-box", None, "release").result {
        Ok(CliStep::Installed { cli, how }) => {
            assert_eq!(cli, REMOTE_CLI_PATH);
            assert_eq!(how, Provisioned::RemoteInstaller);
        }
        _ => panic!("should be provisioned"),
    }
}

#[test]
fn a_build_that_lands_but_cannot_run_is_caught_and_explained() {
    let mut transport = ScriptedTransport::new(vec![
        ScriptedStep::ok("install.sh | sh", ""),
        ScriptedStep::fails(".local/bin/rocm --version", 126, "Exec format error"),
    ]);
    let error = cli_error(install_cli(&mut transport, "gpu-box", None, "release"));
    assert!(error.contains("does not run there"), "{error}");
    assert!(error.contains("OS or CPU"), "{error}");
}

#[test]
fn an_unknown_remote_platform_refuses_rather_than_pushing_our_own_build() {
    let mut transport = ScriptedTransport::new(vec![ScriptedStep::fails(
        "install.sh | sh",
        1,
        "could not resolve host",
    )]);
    let error = cli_error(install_cli(&mut transport, "gpu-box", None, "release"));
    assert!(error.contains("could not be determined"), "{error}");
}

#[test]
fn a_remote_that_cannot_download_has_its_build_fetched_here() {
    let mut transport = ScriptedTransport::new(vec![ScriptedStep::fails(
        "install.sh | sh",
        1,
        "could not resolve host",
    )]);
    match install_cli(&mut transport, "gpu-box", Some(&linux()), "release").result {
        Ok(CliStep::Fetch {
            platform,
            remote_error,
        }) => {
            assert_eq!(platform, linux());
            assert!(remote_error.contains("could not resolve host"));
        }
        _ => panic!("a build should be fetched"),
    }
}

fn fetched() -> Fetched {
    Fetched {
        asset: "rocm-cli-linux-amd64.tar.gz".to_owned(),
        archive: StagedFile {
            local: "/tmp/x/rocm-cli-linux-amd64.tar.gz".to_owned(),
            present: true,
        },
        checksum: StagedFile {
            local: "/tmp/x/rocm-cli-linux-amd64.tar.gz.sha256".to_owned(),
            present: true,
        },
        signature: StagedFile {
            local: "/tmp/x/rocm-cli-linux-amd64.tar.gz.sig".to_owned(),
            present: false,
        },
        installer: "/tmp/x/install.sh".to_owned(),
        signing: Ok(None),
    }
}

#[test]
fn a_fetched_build_is_pushed_and_checked() {
    let mut transport = ScriptedTransport::new(vec![
        ScriptedStep::ok(".local/bin/rocm --version", "rocm 1.2.3"),
        ScriptedStep::ok("", ""),
    ]);
    let report = finish_install_cli(
        &mut transport,
        "gpu-box",
        &linux(),
        "offline",
        Ok(fetched()),
        "release",
    );
    match report.result {
        Ok(CliStep::Installed { cli, how }) => {
            assert_eq!(cli, REMOTE_CLI_PATH);
            assert_eq!(
                how,
                Provisioned::PushedMatchedArtifact {
                    asset: "rocm-cli-linux-amd64.tar.gz".to_owned()
                }
            );
        }
        Ok(_) => panic!("nothing is left to fetch"),
        Err(error) => panic!("{}", error.full()),
    }
    let pushed: Vec<String> = transport
        .calls()
        .into_iter()
        .filter_map(|call| match call {
            TransportCall::PushFile { local_path, .. } => Some(local_path),
            TransportCall::Exec { .. } => None,
        })
        .collect();
    // The staging folder is below the home of whoever logs in there: its shell
    // expands that, and reads the rest as it is.
    assert!(sent(
        &transport,
        "ROCM_CLI_ARCHIVE=$HOME/.rocm/provision/rocm-cli-linux-amd64.tar.gz sh "
    ));
    // The signature that did not come is not sent.
    assert!(pushed.contains(&"/tmp/x/rocm-cli-linux-amd64.tar.gz".to_owned()));
    assert!(pushed.contains(&"/tmp/x/rocm-cli-linux-amd64.tar.gz.sha256".to_owned()));
    assert!(pushed.contains(&"/tmp/x/install.sh".to_owned()));
    assert!(!pushed.iter().any(|path| path.ends_with(".sig")));
}

#[test]
fn a_build_that_could_not_be_fetched_says_why_neither_way_worked() {
    let mut transport = ScriptedTransport::new(vec![]);
    let report = finish_install_cli(
        &mut transport,
        "gpu-box",
        &linux(),
        "offline there",
        Err(Failure::new("offline here".to_owned())),
        "release",
    );
    match report.result {
        Err(error) => {
            let full = error.full();
            assert!(full.contains("offline here"), "{full}");
        }
        Ok(_) => panic!("nothing could be installed"),
    }
    assert!(transport.calls().is_empty());
}

#[test]
fn a_machine_made_ready_with_a_fetched_build_is_ready() {
    let mut transport = ScriptedTransport::new(vec![
        ScriptedStep::ok(".local/bin/rocm --version", "rocm 1.2.3"),
        ScriptedStep::ok("", ""),
    ]);
    let report = ready_with_build(
        &mut transport,
        "gpu-box",
        "release",
        &linux(),
        "offline",
        false,
        Ok(fetched()),
    );
    assert_eq!(ready_cli(report), REMOTE_CLI_PATH);
}

#[test]
fn the_channel_reaches_the_remote_installer_quoted() {
    assert!(remote_installer_command("nightly").contains("sh -s -- nightly"));
    assert!(remote_installer_command("a; rm -rf /").contains(r"'a; rm -rf /'"));
}

#[test]
fn the_downloaded_artifact_name_is_read_from_the_installers_own_report() {
    let stdout = "rocm-cli installer\n  channel: release\n\
                      downloaded: /tmp/x/rocm-cli-linux-amd64.tar.gz\n";
    assert_eq!(
        parse_downloaded_asset(stdout).as_deref(),
        Some("rocm-cli-linux-amd64.tar.gz")
    );
    assert_eq!(parse_downloaded_asset("no such line"), None);
    assert_eq!(
        fetched_asset(stdout).unwrap(),
        "rocm-cli-linux-amd64.tar.gz"
    );
    assert!(fetched_asset("no such line").is_err());
}

#[test]
fn neither_signing_var_set_forwards_nothing() {
    assert_eq!(signing_key_path(&None), None);
    let fragment = signing_env_fragment_from(None, None, unread()).expect("nothing is read");
    assert_eq!(fragment, None);
}

/// What reading comes to where there is nothing to read.
fn unread() -> Result<String, Failure> {
    Err(Failure::new("must not be read".to_owned()))
}

#[test]
fn an_explicit_pem_is_forwarded_as_is_when_it_is_the_only_one_set() {
    assert_eq!(signing_key_path(&None), None);
    let fragment = signing_env_fragment_from(Some("pem-content".to_owned()), None, unread())
        .expect("no file read is attempted");
    assert_eq!(
        fragment.as_deref(),
        Some("ROCM_CLI_SIGNING_PUBLIC_KEY_PEM=pem-content ROCM_CLI_SIGNING_PUBLIC_KEY_PATH= ")
    );
}

#[test]
fn a_path_wins_over_a_pem_because_that_is_what_install_sh_does() {
    let path = Some("/etc/rocm-signing.pem".to_owned());
    assert_eq!(
        signing_key_path(&path).as_deref(),
        Some("/etc/rocm-signing.pem")
    );
    let fragment = signing_env_fragment_from(
        Some("pem-content".to_owned()),
        path,
        Ok("path-content".to_owned()),
    )
    .expect("the fake reader succeeds");
    assert_eq!(
        fragment.as_deref(),
        Some("ROCM_CLI_SIGNING_PUBLIC_KEY_PEM=path-content ROCM_CLI_SIGNING_PUBLIC_KEY_PATH= ")
    );
}

#[test]
fn an_empty_value_counts_as_unset_the_way_install_sh_reads_it() {
    let fragment = signing_env_fragment_from(
        Some(String::new()),
        Some("/etc/rocm-signing.pem".to_owned()),
        Ok("path-content".to_owned()),
    )
    .expect("the fake reader succeeds");
    assert_eq!(
        fragment.as_deref(),
        Some("ROCM_CLI_SIGNING_PUBLIC_KEY_PEM=path-content ROCM_CLI_SIGNING_PUBLIC_KEY_PATH= ")
    );

    assert_eq!(signing_key_path(&Some(String::new())), None);
    let fragment = signing_env_fragment_from(
        Some("pem-content".to_owned()),
        Some(String::new()),
        unread(),
    )
    .expect("no file read is attempted");
    assert_eq!(
        fragment.as_deref(),
        Some("ROCM_CLI_SIGNING_PUBLIC_KEY_PEM=pem-content ROCM_CLI_SIGNING_PUBLIC_KEY_PATH= ")
    );

    let fragment =
        signing_env_fragment_from(Some(String::new()), Some(String::new()), unread())
            .expect("no file read is attempted");
    assert_eq!(fragment, None);
}

#[test]
fn a_path_is_read_locally_and_its_content_is_forwarded_not_the_path() {
    let path = Some("/etc/rocm-signing.pem".to_owned());
    assert_eq!(
        signing_key_path(&path).as_deref(),
        Some("/etc/rocm-signing.pem")
    );
    let fragment = signing_env_fragment_from(
        None,
        path,
        Ok("-----BEGIN PUBLIC KEY-----\nabc\n-----END PUBLIC KEY-----\n".to_owned()),
    )
    .expect("the fake reader succeeds");
    let fragment = fragment.expect("a _PATH was set");
    assert!(fragment.starts_with("ROCM_CLI_SIGNING_PUBLIC_KEY_PEM="));
    assert!(!fragment.contains("/etc/rocm-signing.pem"));
    assert!(fragment.contains("BEGIN PUBLIC KEY"));
}

#[test]
fn a_path_that_cannot_be_read_is_reported_rather_than_silently_dropped() {
    let error = signing_env_fragment_from(
        None,
        Some("/no/such/file".to_owned()),
        Err(Failure::new("boom".to_owned())),
    )
    .unwrap_err()
    .headline();
    assert!(error.contains("/no/such/file"), "{error}");
}

#[test]
fn a_cli_that_runs_is_accepted() {
    let mut runs = ScriptedTransport::new(vec![ScriptedStep::ok("--version", "rocm 1")]);
    assert!(verify_remote_cli(&mut runs, "gpu-box").is_ok());
    let mut silent = ScriptedTransport::new(vec![]);
    assert!(verify_remote_cli(&mut silent, "gpu-box").is_err());
}

// -- installing ------------------------------------------------------------

const MIN_SCORE_FOR_MATCH: i32 = 50;

fn report_with(matched: Vec<Diagnosis>) -> DiagnoseReport {
    DiagnoseReport {
        matched,
        out_of_scope: None,
    }
}

fn finding(title: &str, score: i32) -> Diagnosis {
    Diagnosis {
        title: title.to_owned(),
        score,
        fix: None,
    }
}

fn out_of_scope_report() -> DiagnoseReport {
    DiagnoseReport {
        matched: vec![],
        out_of_scope: Some("darwin has no entries".to_owned()),
    }
}

#[test]
fn a_machine_the_catalog_never_scored_is_not_installed_on_unattended() {
    let report = out_of_scope_report();
    assert!(
        assess(&report, true, MIN_SCORE_FOR_MATCH).is_some(),
        "a platform the catalog never evaluated must not be installed on unattended"
    );
}

#[test]
fn an_unscored_platform_says_nothing_was_checked_rather_than_naming_a_finding() {
    let report = out_of_scope_report();
    let refusal = assess(&report, true, MIN_SCORE_FOR_MATCH)
        .expect("an unevaluated platform must produce a refusal");
    let message = describe_refusal(&refusal, "mac-mini", "");
    assert!(
        message.contains("nothing was checked"),
        "the refusal must say the catalog never ran: {message}"
    );
    assert!(
        message.contains("mac-mini"),
        "and name the machine it is about: {message}"
    );
}

#[test]
fn an_unscored_platform_outranks_a_sudo_problem() {
    let report = out_of_scope_report();
    assert_ne!(
        assess(&report, false, MIN_SCORE_FOR_MATCH),
        Some(Refusal::NeedsPasswordlessSudo),
        "an unevaluated platform is not a sudo problem"
    );
}

#[test]
fn a_clean_machine_with_working_sudo_may_be_installed() {
    assert_eq!(assess(&report_with(vec![]), true, MIN_SCORE_FOR_MATCH), None);
}

#[test]
fn a_recognised_problem_stops_the_install_and_names_itself() {
    let report = report_with(vec![finding("DKMS built against another kernel", 90)]);
    assert_eq!(
        assess(&report, true, MIN_SCORE_FOR_MATCH),
        Some(Refusal::NeedsAHuman {
            findings: vec!["DKMS built against another kernel".to_owned()]
        })
    );
    assert_eq!(
        recognised_problems(&report, MIN_SCORE_FOR_MATCH),
        vec!["DKMS built against another kernel"]
    );
}

#[test]
fn a_weak_signal_does_not_block_an_otherwise_healthy_machine() {
    let report = report_with(vec![finding(
        "possibly in a container",
        MIN_SCORE_FOR_MATCH - 1,
    )]);
    assert_eq!(assess(&report, true, MIN_SCORE_FOR_MATCH), None);
}

#[test]
fn a_machine_that_would_prompt_for_a_password_is_refused_not_hung() {
    assert_eq!(
        assess(&report_with(vec![]), false, MIN_SCORE_FOR_MATCH),
        Some(Refusal::NeedsPasswordlessSudo)
    );
}

#[test]
fn a_recognised_problem_outranks_a_sudo_problem() {
    let report = report_with(vec![finding("Secure Boot is blocking the module", 80)]);
    assert!(matches!(
        assess(&report, false, MIN_SCORE_FOR_MATCH),
        Some(Refusal::NeedsAHuman { .. })
    ));
}

#[test]
fn passwordless_sudo_is_detected_without_triggering_a_prompt() {
    let mut allowed = ScriptedTransport::new(vec![ScriptedStep::ok("sudo -n true", "")]);
    assert!(has_passwordless_sudo(&mut allowed).unwrap());

    let mut denied = ScriptedTransport::new(vec![ScriptedStep::fails(
        "sudo -n true",
        1,
        "a password is required",
    )]);
    assert!(!has_passwordless_sudo(&mut denied).unwrap());
}

#[test]
fn a_refusal_says_what_was_wrong_and_what_to_do() {
    let report = report_with(vec![finding("stale repository files", 70)]);
    let refusal = assess(&report, true, MIN_SCORE_FOR_MATCH).expect("refused");
    let message = describe_refusal(&refusal, "gpu-box", "1. stale repository files\n");
    assert!(message.contains("stale repository files"), "{message}");
    assert!(message.contains("Health of gpu-box"), "{message}");
}

#[test]
fn a_sudo_refusal_offers_the_manual_route() {
    let message = describe_refusal(&Refusal::NeedsPasswordlessSudo, "gpu-box", "");
    assert!(message.contains("would hang rather than fail"), "{message}");
    assert!(
        message.contains("ssh gpu-box -- rocm bootstrap setup"),
        "{message}"
    );
}

#[test]
fn the_sdk_is_not_attempted_when_the_driver_fails() {
    let mut transport = ScriptedTransport::new(vec![
        ScriptedStep::fails("install driver --yes", 1, "no supported GPU"),
        ScriptedStep::ok("install sdk --yes", ""),
    ]);
    let error = install(&mut transport, "gpu-box", "rocm")
        .result
        .unwrap_err()
        .headline();
    assert!(error.contains("Nothing further was attempted"), "{error}");
    assert!(!sent(&transport, "install sdk"));
}

#[test]
fn a_half_finished_install_says_so_rather_than_reporting_success() {
    let mut transport = ScriptedTransport::new(vec![
        ScriptedStep::ok("install driver --yes", "status: completed"),
        ScriptedStep::fails("install sdk --yes", 1, "no wheels for this platform"),
    ]);
    let error = install(&mut transport, "gpu-box", "rocm")
        .result
        .unwrap_err()
        .headline();
    assert!(error.contains("part-way through"), "{error}");
}

#[test]
fn a_required_reboot_is_surfaced_because_nobody_is_watching_the_machine() {
    assert!(mentions_reboot("execution:\n  reboot_required: true\n"));
    assert!(mentions_reboot("A reboot required before use"));
    assert!(!mentions_reboot("status: completed"));
}

#[test]
fn an_install_that_needs_a_reboot_tells() {
    let mut transport = ScriptedTransport::new(vec![
        ScriptedStep::ok("install driver --yes", "reboot_required: true"),
        ScriptedStep::ok("install sdk --yes", ""),
    ]);
    let report = install(&mut transport, "gpu-box", "rocm");
    assert!(report.result.is_ok());
    assert!(report.lines.iter().any(|line| line.contains("reboot")));
}
