use rocm::failure::Failure;
use rocm::remote::doctor::{
    aim_at, examine_remote, is_comment, is_stateful_sequence, join_continuations,
    misread_examination, redirect_quoted_commands, remote_invocation, DiagnoseReport, Diagnosis,
    Fix,
};
use rocm::remote::scripted::{ScriptedStep, ScriptedTransport};

/// Renders a report in the layout of the local one.
fn render(report: &DiagnoseReport, fix_id: &str) -> String {
    let mut out = String::new();
    if report.matched.is_empty() {
        out.push_str("rocm diagnose: no known misconfiguration matched.\n");
        out.push_str("Attach the output of `rocm examine --json`.\n");
    }
    for diagnosis in &report.matched {
        out.push_str(&format!("1. {} ({})\n", diagnosis.title, diagnosis.score));
        if let Some(fix) = &diagnosis.fix {
            for command in &fix.commands {
                out.push_str(&format!("     $ {command}\n"));
            }
            out.push_str(&format!("   apply with: rocm fix {fix_id}\n"));
            if !fix.verify.is_empty() {
                out.push_str(&format!("   verify after fix: {}\n", fix.verify));
            }
            out.push_str(&format!("Next step: run `rocm fix {fix_id}`.\n"));
        }
    }
    out
}

fn render_report(target: &str, report: &DiagnoseReport, fix_id: &str) -> String {
    rocm::remote::doctor::render_report(target, &render(&aim_at(target, report), fix_id))
}

fn report(matched: Vec<Diagnosis>) -> DiagnoseReport {
    DiagnoseReport {
        matched,
        out_of_scope: None,
    }
}

fn fix_of(commands: &[&str], verify: &str) -> DiagnoseReport {
    report(vec![Diagnosis {
        title: "DKMS built against another kernel".to_owned(),
        score: 90,
        fix: Some(Fix {
            commands: commands.iter().map(|c| (*c).to_owned()).collect(),
            verify: verify.to_owned(),
            notes: vec![],
        }),
    }])
}

fn real_report_with_a_fix() -> DiagnoseReport {
    fix_of(
        &[
            "sudo dkms autoinstall",
            "echo /usr/lib/wsl/lib | sudo tee /etc/ld.so.conf.d/wsl.conf",
        ],
        "lsmod | grep amdgpu && rocminfo | head -n 5",
    )
}

#[test]
fn every_command_the_real_renderer_emits_is_aimed_at_the_remote() {
    let rendered = render_report("gpu-box", &real_report_with_a_fix(), "dkms-mismatch");
    assert!(
        rendered.contains("$ ssh gpu-box -- 'sudo dkms autoinstall'"),
        "fix command not redirected:\n{rendered}"
    );
    assert!(
        rendered.contains("apply with: ssh gpu-box -- 'rocm fix dkms-mismatch'"),
        "apply-with command not redirected:\n{rendered}"
    );
    assert!(
        rendered.contains(
            "verify after fix: ssh gpu-box -- 'lsmod | grep amdgpu && rocminfo | head -n 5'"
        ),
        "verify command not redirected:\n{rendered}"
    );
}

/// What a shell makes of the words behind `ssh gpu-box --`: one word, where
/// nothing outside its quotes means anything to the shell.
fn what_ssh_would_send(line: &str) -> String {
    let mut word = String::new();
    let mut quoted = false;
    let mut escaped = false;
    for c in line
        .strip_prefix("ssh gpu-box -- ")
        .expect("the command must be aimed at the machine")
        .chars()
    {
        if escaped {
            word.push(c);
            escaped = false;
        } else if c == '\'' {
            quoted = !quoted;
        } else if !quoted && c == '\\' {
            escaped = true;
        } else {
            assert!(
                quoted || c.is_ascii_alphanumeric() || "-_./:=".contains(c),
                "{c:?} is left to the local shell: {line}"
            );
            word.push(c);
        }
    }
    assert!(!quoted && !escaped, "{line}");
    word
}

#[test]
fn a_piped_fix_command_is_sent_whole_rather_than_split_across_two_machines() {
    const PIPED: &str = "echo /usr/lib/wsl/lib | sudo tee /etc/ld.so.conf.d/wsl.conf";
    let rendered = render_report("gpu-box", &real_report_with_a_fix(), "dkms-mismatch");
    let line = rendered
        .lines()
        .map(str::trim)
        .find(|line| line.starts_with("$ ") && line.contains("ld.so.conf.d"))
        .expect("the piped fix command must still be rendered")
        .trim_start_matches("$ ")
        .to_owned();
    assert_eq!(what_ssh_would_send(&line), PIPED, "{line}");

    let verify = rendered
        .lines()
        .map(str::trim)
        .find(|line| line.starts_with("verify after fix: "))
        .expect("the verify command must still be rendered")
        .trim_start_matches("verify after fix: ")
        .to_owned();
    assert_eq!(
        what_ssh_would_send(&verify),
        "lsmod | grep amdgpu && rocminfo | head -n 5",
        "the verify command split across two machines: {verify}"
    );
}

#[test]
fn aiming_twice_is_aiming_once() {
    let text = "run `rocm fix it's`, not `cat x`, and `rocm` alone, then `rocm open";
    let once = rocm::remote::doctor::redirect_quoted_commands(text, "gpu-box");
    assert_eq!(
        once,
        "run `ssh gpu-box -- 'rocm fix it'\\''s'`, not `cat x`, and `rocm` alone, then `rocm open"
    );
    assert_eq!(
        rocm::remote::doctor::redirect_quoted_commands(&once, "gpu-box"),
        once
    );
}

#[test]
fn the_rewriting_is_not_silently_a_no_op() {
    let local = render(&real_report_with_a_fix(), "dkms-mismatch");
    let redirected = render_report("gpu-box", &real_report_with_a_fix(), "dkms-mismatch");
    assert!(
        !redirected.contains(&format!(
            "$ {}",
            local
                .lines()
                .find_map(|line| line.trim().strip_prefix("$ "))
                .expect("a real report emits at least one command")
        )),
        "a command in a real report was left aimed at this machine:\n{redirected}"
    );
}

#[test]
fn prose_that_opens_with_a_command_name_is_left_intact() {
    let rendered = render_report("gpu-box", &report(vec![]), "");
    assert!(
        !rendered.contains("ssh gpu-box -- rocm diagnose:"),
        "a sentence was rewritten as a command:\n{rendered}"
    );
}

#[test]
fn a_command_quoted_inside_a_sentence_is_redirected_too() {
    let rendered = render_report("gpu-box", &real_report_with_a_fix(), "dkms-mismatch");
    assert!(
        rendered.contains("run `ssh gpu-box -- 'rocm fix dkms-mismatch'`"),
        "the closing instruction still points at the local machine:\n{rendered}"
    );
    assert!(
        !rendered.contains("run `rocm fix"),
        "no bare local command should remain:\n{rendered}"
    );
}

#[test]
fn a_below_threshold_report_redirects_its_closing_advice_as_well() {
    let mut low = real_report_with_a_fix();
    low.matched[0].score = 40;
    let rendered = render_report("gpu-box", &low, "dkms-mismatch");
    assert!(
        !rendered.contains("run `rocm fix"),
        "the low-confidence branch still points locally:\n{rendered}"
    );
}

#[test]
fn ordinary_quoted_text_is_left_alone() {
    let left = redirect_quoted_commands("see the `apply with:` line and `/dev/kfd`", "gpu-box");
    assert_eq!(left, "see the `apply with:` line and `/dev/kfd`");
    assert_eq!(
        redirect_quoted_commands("a ` stray tick", "gpu-box"),
        "a ` stray tick"
    );
}

#[test]
fn the_quoted_examine_command_asks_for_the_remote_machines_state() {
    let rendered = render_report("gpu-box", &report(vec![]), "");
    assert!(
        rendered.contains("`ssh gpu-box -- 'rocm examine --json'`"),
        "{rendered}"
    );
}

#[test]
fn indentation_survives_so_the_report_still_reads_as_one() {
    let rendered = render_report("gpu-box", &real_report_with_a_fix(), "dkms-mismatch");
    assert!(
        rendered
            .lines()
            .any(|line| line.starts_with("     $ ssh gpu-box -- ")),
        "{rendered}"
    );
}

#[test]
fn a_comment_in_a_fix_is_not_presented_as_a_command_to_run() {
    let rendered = render_report(
        "gpu-box",
        &fix_of(
            &["# Recommended: the nightly wheels", "sudo dkms autoinstall"],
            "",
        ),
        "annotated",
    );
    assert!(
        rendered.contains("$ # Recommended: the nightly wheels"),
        "the comment should be left as prose:\n{rendered}"
    );
    assert!(
        !rendered.contains("ssh gpu-box -- '#"),
        "a comment was presented as a command:\n{rendered}"
    );
    assert!(
        rendered.contains("$ ssh gpu-box -- 'sudo dkms autoinstall'"),
        "the real command must still be aimed at the remote:\n{rendered}"
    );
}

#[test]
fn a_backslash_continued_command_stored_as_many_entries_becomes_one_invocation() {
    let rendered = render_report(
        "gpu-box",
        &fix_of(
            &[
                "# Docker / Podman flags AMD-recommends:",
                "docker run --rm -it \\",
                "  --device=/dev/kfd \\",
                "  --group-add render \\",
                "  rocm/pytorch:latest",
            ],
            "",
        ),
        "container",
    );

    assert_eq!(
        rendered
            .lines()
            .filter(|line| line.trim_start().starts_with("$ ssh gpu-box --"))
            .count(),
        1,
        "the docker run must be one ssh call, not one per entry:\n{rendered}"
    );
    assert!(rendered.contains("$ # Docker / Podman flags"), "{rendered}");
    let line = rendered
        .lines()
        .map(str::trim_start)
        .find(|line| line.starts_with("$ ssh gpu-box -- 'docker run"))
        .expect("the docker run must be rewritten as a single command")
        .trim_start_matches("$ ")
        .to_owned();
    let whole = rendered
        .split_once("ssh gpu-box -- '")
        .expect("rewritten")
        .1
        .split_once("'\n")
        .map_or_else(String::new, |(body, _)| body.to_owned());
    for fragment in [
        "--device=/dev/kfd",
        "--group-add render",
        "rocm/pytorch:latest",
    ] {
        assert!(
            whole.contains(fragment),
            "`{fragment}` was split into its own ssh call:\n{rendered}"
        );
    }
    assert!(line.starts_with("ssh gpu-box -- 'docker run"), "{line}");
}

#[test]
fn a_multi_line_fix_command_is_kept_whole_rather_than_cut_at_its_first_newline() {
    let rendered = render_report(
        "gpu-box",
        &fix_of(
            &["pip install --pre torch \\\n  --index-url https://example.invalid/rocm6.4"],
            "",
        ),
        "wheels",
    );
    let quoted = rendered
        .split_once("ssh gpu-box -- '")
        .expect("the command is aimed at the remote")
        .1;
    let body = quoted
        .split_once("'\n")
        .map_or(quoted, |(body, _)| body)
        .to_owned();
    assert!(
        body.contains("--index-url https://example.invalid/rocm6.4"),
        "the continuation was cut off:\n{rendered}"
    );
}

#[test]
fn the_report_names_the_machine_it_describes() {
    let rendered = render_report("gpu-box", &report(vec![]), "");
    assert!(rendered.starts_with("Health of gpu-box"), "{rendered}");
}

#[test]
fn a_command_is_wrapped_whole() {
    assert_eq!(
        remote_invocation("gpu-box", "echo it's | tee x"),
        r"ssh gpu-box -- 'echo it'\''s | tee x'"
    );
}

#[test]
fn continued_commands_are_joined_and_others_are_not() {
    let commands: Vec<String> = ["a \\", "  b", "c"].iter().map(|c| (*c).to_owned()).collect();
    assert_eq!(join_continuations(&commands), vec!["a \\\n  b", "c"]);
    let open: Vec<String> = vec!["a \\".to_owned()];
    assert_eq!(join_continuations(&open), vec!["a \\"]);
}

#[test]
fn a_comment_is_told_from_a_command() {
    assert!(is_comment("  # note"));
    assert!(!is_comment("echo # note"));
}

fn steps(commands: &[&str]) -> Fix {
    Fix {
        commands: commands.iter().map(|c| (*c).to_owned()).collect(),
        verify: String::new(),
        notes: vec![],
    }
}

#[test]
fn a_sequence_that_carries_state_is_recognised() {
    assert!(is_stateful_sequence(&steps(&["# step 2 of 3: load it", "make"])));
    assert!(is_stateful_sequence(&steps(&["# run INSIDE the subshell", "make"])));
    assert!(!is_stateful_sequence(&steps(&["make"])));
}

#[test]
fn a_sequence_that_carries_state_is_not_split_into_calls() {
    let commands = ["newgrp render", "# step 2 of 2", "rocminfo"];
    let rendered = render_report("gpu-box", &fix_of(&commands, ""), "group");
    assert!(!rendered.contains("$ ssh gpu-box -- rocminfo"), "{rendered}");
    assert!(!rendered.contains("$ ssh gpu-box -- 'rocminfo'"), "{rendered}");
}

#[test]
fn an_examination_is_read_over_the_channel() {
    let mut transport = ScriptedTransport::new(vec![ScriptedStep::ok(
        "rocm examine --json",
        "  {\"os_family\":\"linux\"}\n",
    )]);
    assert_eq!(
        examine_remote(&mut transport, "rocm").unwrap(),
        "{\"os_family\":\"linux\"}"
    );
    let mut silent = ScriptedTransport::new(vec![]);
    assert!(examine_remote(&mut silent, "rocm").is_err());
}

#[test]
fn a_remote_on_another_version_says_so_instead_of_failing_obscurely() {
    let error = misread_examination(Failure::new("missing field".to_owned())).headline();
    assert!(error.contains("different version"), "{error}");
}
