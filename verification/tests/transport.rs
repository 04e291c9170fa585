use rocm::failure::Failure;
use rocm::remote::scripted::{ScriptedStep, ScriptedTransport, TransportCall};
use rocm::remote::transport::{
    config_args, control_socket_path, multiplex_args, ssh_reply, validate_destination, Channel,
    Recorded, RemoteOutcome, SshTransport, Transport, SSH_FAILED,
};

#[test]
fn exec_argv_never_prompts_and_guards_the_remote_command() {
    let transport = SshTransport::new("user@gpubox", None).unwrap();
    let argv = transport.exec_argv_with("rocm --version", None);

    assert!(argv.windows(2).any(|pair| pair == ["-o", "BatchMode=yes"]));
    assert_eq!(argv.last().unwrap(), "rocm --version");
    let guard = argv.iter().position(|arg| arg == "--").unwrap();
    assert_eq!(argv[guard - 1], "user@gpubox");
}

#[test]
fn a_name_ssh_would_read_as_an_option_is_refused() {
    for hostile in ["-oProxyCommand=touch /tmp/pwned", "--fake", "user@-oX", ""] {
        let error = SshTransport::new(hostile, None)
            .expect_err(&format!("{hostile:?} should be refused"))
            .headline();
        assert!(!error.is_empty());
    }

    for fine in [
        "gpu-box",
        "user@gpu-box",
        "gpu-box.example-tailnet.ts.net",
        "100.88.14.21",
    ] {
        SshTransport::new(fine, None)
            .unwrap_or_else(|error| panic!("{fine}: {}", error.headline()));
    }
}

#[test]
fn connection_reuse_is_either_fully_configured_or_not_claimed() {
    let configured = multiplex_args(Some("/tmp/rocm/cm-%C"));
    assert!(
        configured
            .windows(2)
            .any(|pair| pair == ["-o", "ControlMaster=auto"]),
        "{configured:?}"
    );
    assert!(
        configured
            .iter()
            .any(|arg| arg == "ControlPath=/tmp/rocm/cm-%C"),
        "{configured:?}"
    );
    assert!(multiplex_args(None).is_empty());
}

#[test]
fn no_multiplexing_option_ever_appears_without_a_socket_path() {
    let transport = SshTransport::new("gpubox", None).unwrap();
    for control_path in [None, Some("/tmp/rocm-ssh/cm-%C")] {
        let argv = transport.exec_argv_with("true", control_path);
        let has_master = argv.iter().any(|arg| arg.starts_with("ControlMaster"));
        let has_path = argv.iter().any(|arg| arg.starts_with("ControlPath"));
        assert_eq!(
            has_master, has_path,
            "ControlMaster and ControlPath must appear together: {argv:?}"
        );
        assert_eq!(has_master, control_path.is_some(), "{argv:?}");
    }
}

#[test]
fn exec_argv_threads_an_explicit_port_lowercase() {
    let transport = SshTransport::new("user@gpubox", Some(2222)).unwrap();
    let argv = transport.exec_argv_with("echo hi", None);
    assert!(argv.windows(2).any(|pair| pair == ["-p", "2222"]));
}

#[test]
fn exec_argv_omits_an_unset_port_so_ssh_config_decides() {
    let transport = SshTransport::new("gpubox", None).unwrap();
    let argv = transport.exec_argv_with("echo hi", None);
    assert!(!argv.iter().any(|arg| arg == "-p"));
}

#[test]
fn scp_argv_uses_uppercase_port_and_a_remote_colon_path() {
    let transport = SshTransport::new("user@gpubox", Some(2222)).unwrap();
    let argv = transport.scp_argv("/tmp/rocm", "/tmp/rocm");
    assert!(argv.windows(2).any(|pair| pair == ["-P", "2222"]));
    assert_eq!(argv.last().unwrap(), "user@gpubox:/tmp/rocm");
}

#[test]
fn scripted_transport_separates_a_refusal_from_being_unreachable() {
    let mut transport = ScriptedTransport::new(vec![ScriptedStep::fails(
        "rocm --version",
        127,
        "command not found",
    )]);

    let outcome = transport.exec("rocm --version").expect("host answered");
    assert!(!outcome.success);
    assert_eq!(outcome.code, Some(127));

    let unreachable = transport.exec("tailscale status");
    assert!(
        unreachable.is_err(),
        "an unscripted command must fail loudly, not return a benign default"
    );
}

#[test]
fn an_unscripted_command_names_what_was_scripted() {
    let mut transport = ScriptedTransport::new(vec![
        ScriptedStep::ok("say \"hi\"", ""),
        ScriptedStep::ok("b", ""),
    ]);
    let error = transport.exec("zzz").unwrap_err().headline();
    // The patterns are shown quoted and escaped, as a list.
    assert!(error.contains(r#"["say \"hi\"", "b"]"#), "{error}");
    assert!(error.contains("zzz"), "{error}");
}

#[test]
fn run_surfaces_the_failing_command_and_its_stderr() {
    let mut transport = ScriptedTransport::new(vec![ScriptedStep::fails(
        "rocm serve",
        1,
        "no GPU available",
    )]);

    let error = transport
        .run("rocm serve tiny-model")
        .unwrap_err()
        .headline();
    assert!(error.contains("no GPU available"), "{error}");
    assert!(error.contains("rocm serve tiny-model"), "{error}");
}

#[test]
fn run_hands_back_what_was_printed() {
    let mut transport = ScriptedTransport::new(vec![ScriptedStep::ok("uname", "Linux\n")]);
    assert_eq!(transport.run("uname -s").unwrap(), "Linux\n");
}

#[test]
fn scripted_transport_records_stdin_so_secrets_stay_out_of_argv() {
    let mut transport = ScriptedTransport::new(vec![ScriptedStep::ok("read -r", "")]);
    transport
        .exec_with_stdin("read -r KEY; exec rocm serve", Some("s3cret"))
        .expect("scripted");

    assert_eq!(
        transport.calls(),
        vec![TransportCall::Exec {
            command: "read -r KEY; exec rocm serve".to_owned(),
            stdin: Some("s3cret".to_owned()),
        }]
    );
}

#[test]
fn scripted_transport_reports_a_failing_file_copy() {
    let mut transport = ScriptedTransport::new(vec![]).failing_push("no space left on device");

    let error = transport
        .push_file("/tmp/rocm", "~/.local/bin/rocm")
        .unwrap_err()
        .headline();
    assert!(error.contains("no space left on device"), "{error}");
    assert_eq!(
        transport.calls(),
        vec![TransportCall::PushFile {
            local_path: "/tmp/rocm".to_owned(),
            remote_path: "~/.local/bin/rocm".to_owned(),
        }]
    );
}

#[test]
fn the_most_specific_step_answers() {
    let mut transport = ScriptedTransport::new(vec![
        ScriptedStep::ok("rocm", "first"),
        ScriptedStep::ok("rocm --version", "second"),
    ]);
    assert_eq!(transport.run("rocm --version").unwrap(), "second");
    assert_eq!(transport.run("rocm fix").unwrap(), "first");
}

#[test]
fn a_socket_path_that_would_be_too_long_is_not_used() {
    assert_eq!(
        control_socket_path("/run/user/1000/rocm/cm-%C").as_deref(),
        Some("/run/user/1000/rocm/cm-%C")
    );
    let long = format!("/{}/cm-%C", "x".repeat(200));
    assert_eq!(control_socket_path(&long), None);
}

#[test]
fn a_configuration_file_is_named_to_ssh_only_where_there_is_one() {
    assert_eq!(config_args(Some("/etc/x")), vec!["-F", "/etc/x"]);
    assert!(config_args(None).is_empty());
    assert!(config_args(Some("")).is_empty());
}

#[test]
fn a_destination_is_valid_or_says_why_not() {
    assert!(validate_destination("gpu-box").is_ok());
    let empty: Failure = validate_destination("").unwrap_err();
    assert!(!empty.full().is_empty());
    assert!(validate_destination("-x").unwrap_err().headline().contains("-x"));
}

#[test]
fn a_destination_is_kept_as_given() {
    let transport = SshTransport::new("user@gpubox", None).unwrap();
    assert_eq!(transport.destination(), "user@gpubox");
    let configured = transport.with_config(Some("/etc/ssh_x".to_owned()));
    assert!(configured
        .exec_argv_with("true", None)
        .windows(2)
        .any(|pair| pair == ["-F", "/etc/ssh_x"]));
}

/// Answers every command with the command and its input.
struct Echo {
    calls: usize,
}

impl Channel for Echo {
    fn send(
        &mut self,
        command: &str,
        stdin: Option<&str>,
    ) -> Result<RemoteOutcome, Failure> {
        self.calls += 1;
        Ok(RemoteOutcome {
            success: !command.starts_with("false"),
            code: Some(3),
            stdout: format!("{}:{command}:{}", self.calls, stdin.unwrap_or("-")),
            stderr: " refused \n".to_owned(),
        })
    }

    fn copy(&mut self, local_path: &str, remote_path: &str) -> Result<(), Failure> {
        Err(Failure::new(format!("{local_path} -> {remote_path}")))
    }
}

#[test]
fn a_recorded_channel_gets_every_call_and_gives_every_reply() {
    let mut transport = Recorded::new(Echo { calls: 0 });
    assert_eq!(transport.run("uname").expect("ran"), "1:uname:-");
    let fed = transport
        .exec_with_stdin("cat", Some("secret"))
        .expect("answered");
    assert_eq!(fed.stdout, "2:cat:secret");
    let refused = transport.run("false now").unwrap_err();
    assert_eq!(
        refused.full(),
        "remote command failed (exit 3): refused\n  command: false now"
    );
    assert_eq!(
        transport.push_file("a", "b").unwrap_err().full(),
        "a -> b"
    );
}

#[test]
fn a_recorded_channel_is_asked_once_for_each_call_and_as_it_was_put() {
    let steps = vec![ScriptedStep::ok("uname", "Linux"), ScriptedStep::ok("cat", "")];
    let mut transport = Recorded::new(ScriptedTransport::new(steps));
    transport.run("uname -s").expect("ran");
    transport
        .exec_with_stdin("cat > f", Some("secret"))
        .expect("answered");
    transport.push_file("here", "there").expect("copied");
    let channel = transport.into_channel();
    assert_eq!(
        *channel.calls(),
        vec![
            TransportCall::Exec {
                command: "uname -s".to_owned(),
                stdin: None,
            },
            TransportCall::Exec {
                command: "cat > f".to_owned(),
                stdin: Some("secret".to_owned()),
            },
            TransportCall::PushFile {
                local_path: "here".to_owned(),
                remote_path: "there".to_owned(),
            },
        ]
    );
}

fn ended(code: Option<i32>, stderr: &str) -> RemoteOutcome {
    RemoteOutcome {
        success: code == Some(0),
        code,
        stdout: "out".to_owned(),
        stderr: stderr.to_owned(),
    }
}

#[test]
fn what_ssh_itself_fails_with_is_not_the_machines_answer() {
    assert_eq!(SSH_FAILED, 255);
    let unreached = ssh_reply("gpu-box", Ok(()), ended(Some(255), "No route to host\n"));
    assert_eq!(
        unreached.unwrap_err().full(),
        "could not reach gpu-box: No route to host"
    );
    let refused = ssh_reply("gpu-box", Ok(()), ended(Some(127), "not found")).unwrap();
    assert_eq!(refused.code, Some(127));
    assert_eq!(ssh_reply("gpu-box", Ok(()), ended(None, "")).unwrap().code, None);
}

#[test]
fn input_that_did_not_arrive_is_told_where_the_command_succeeded() {
    let broken = || Err(Failure::new("broken pipe".to_owned()));
    assert_eq!(
        ssh_reply("gpu-box", broken(), ended(Some(0), ""))
            .unwrap_err()
            .full(),
        "failed to send input to gpu-box: broken pipe"
    );
    let refused = ssh_reply("gpu-box", broken(), ended(Some(2), "no")).unwrap();
    assert_eq!(refused.stderr, "no");
}
