use rocm::failure::Failure;
use rocm::remote::bootstrap::ReadyStep;
use rocm::remote::scripted::{ScriptedStep, ScriptedTransport, TransportCall};
use rocm::remote::serve::{
    base_url_for, describe_leftovers, finish_serve, prepare_serve, refuse_collision,
    remote_serve_command,
    render_started, start_serve, stop_command, unwind_partial_serve, FinishOutcome, ServeContext,
    ServeRequest, StartOutcome,
};
use rocm::remote::services::{discover_started_service, newest_on_port, parse_services};
use rocm::remote::session::{KeyClaim, NameOnDisk, RemoteSessionRecord};
use rocm::remote::shell::shell_quote;

const PUBLISHED_FIXTURE: &str = r#"{"TCP": {"8000": {"TCPForward": "127.0.0.1:11434"}}}"#;
const KEY_PATH: &str = "/tmp/rocm-render/data/remote-sessions/remote-gpu-box-11434.endpoint-key";

fn request() -> ServeRequest {
    ServeRequest {
        target: "gpu-box".to_owned(),
        model: "qwen2.5-7b-instruct".to_owned(),
        engine: None,
        gpu: None,
        ssh_port: None,
        remote_port: 11434,
        tailnet_port: 8000,
        channel: "release".to_owned(),
        install_rocm: false,
    }
}

fn sample_record() -> RemoteSessionRecord {
    RemoteSessionRecord {
        session_id: "remote-gpu-box-11434".to_owned(),
        target: "gpu-box".to_owned(),
        peer_host: "gpu-box.example-tailnet.ts.net".to_owned(),
        ssh_port: None,
        model: "qwen".to_owned(),
        remote_service_id: "svc-1".to_owned(),
        remote_cli: "rocm".to_owned(),
        remote_port: 11434,
        tailnet_port: 8000,
        base_url: "http://gpu-box.example-tailnet.ts.net:8000/v1".to_owned(),
        created_at_unix_ms: 1,
    }
}

fn context() -> ServeContext {
    ServeContext {
        session_id: "remote-gpu-box-11434".to_owned(),
        key_path: KEY_PATH.to_owned(),
        peer_host: "gpu-box.example-tailnet.ts.net".to_owned(),
        remote_cli: "rocm".to_owned(),
        api_key: "the-key".to_owned(),
        now_unix_ms: 77,
    }
}

fn free() -> NameOnDisk {
    NameOnDisk {
        record: false,
        key: false,
    }
}

fn sent(transport: &ScriptedTransport, text: &str) -> bool {
    transport.calls().iter().any(
        |call| matches!(call, TransportCall::Exec { command, .. } if command.contains(text)),
    )
}

fn full_serve_steps() -> Vec<ScriptedStep> {
    vec![
        ScriptedStep::ok("read -r", ""),
        ScriptedStep::ok(
            "services list --json --all",
            r#"[{"service_id":"svc-1","engine":"vllm","model_ref":"m","canonical_model_id":"m",
                "host":"127.0.0.1","port":11434,"endpoint_url":"http://127.0.0.1:11434/v1",
                "mode":"managed","status":"ready","supervisor_pid":1,
                "manifest_path":"/a","log_path":"/b","engine_state_path":"/c",
                "created_at_unix_ms":1}]"#,
        ),
        ScriptedStep::ok("tailscale serve status --json", PUBLISHED_FIXTURE),
        ScriptedStep::ok("tailscale serve --bg", ""),
    ]
}

#[test]
fn the_remote_server_binds_loopback_but_demands_a_key() {
    let command = remote_serve_command("rocm", &request());
    assert!(command.contains("--host 127.0.0.1"), "{command}");
    assert!(command.contains("--require-api-key"), "{command}");
    assert!(command.contains("--managed"), "{command}");
}

#[test]
fn the_api_key_is_read_from_stdin_never_written_into_the_command() {
    let command = remote_serve_command("rocm", &request());
    assert!(
        command.starts_with("IFS= read -r ROCM_SERVE_API_KEY &&"),
        "{command}"
    );
    assert!(command.contains("export ROCM_SERVE_API_KEY"), "{command}");
}

#[test]
fn optional_engine_and_gpu_are_threaded_through() {
    let command = remote_serve_command(
        "rocm",
        &ServeRequest {
            engine: Some("vllm".to_owned()),
            gpu: Some("1".to_owned()),
            ..request()
        },
    );
    assert!(command.contains("--engine vllm"), "{command}");
    assert!(command.contains("--gpu 1"), "{command}");
}

#[test]
fn a_hostile_model_name_is_quoted_into_the_remote_command() {
    let command = remote_serve_command(
        "rocm",
        &ServeRequest {
            model: "x'; rm -rf ~; echo '".to_owned(),
            ..request()
        },
    );
    assert!(command.contains(r"'\''"), "{command}");
    assert!(command.contains("--require-api-key"), "{command}");
}

#[test]
fn shell_quoting_leaves_ordinary_values_alone_and_wraps_the_rest() {
    for inert in ["qwen2.5-7b-instruct", "vllm", "/models/a.gguf", "auto"] {
        assert_eq!(shell_quote(inert), inert);
    }
    assert_eq!(shell_quote("a b"), "'a b'");
    assert_eq!(shell_quote(""), "''");
    assert_eq!(shell_quote("it's"), r"'it'\''s'");
}

#[test]
fn the_newest_service_on_the_port_is_the_one_just_started() {
    let listing = r#"[
          {"service_id":"old","engine":"vllm","model_ref":"m","canonical_model_id":"m",
           "host":"127.0.0.1","port":11434,"endpoint_url":"http://127.0.0.1:11434/v1",
           "mode":"managed","status":"stopped","supervisor_pid":1,
           "manifest_path":"/a","log_path":"/b","engine_state_path":"/c",
           "created_at_unix_ms":100},
          {"service_id":"new","engine":"vllm","model_ref":"m","canonical_model_id":"m",
           "host":"127.0.0.1","port":11434,"endpoint_url":"http://127.0.0.1:11434/v1",
           "mode":"managed","status":"starting","supervisor_pid":2,
           "manifest_path":"/a","log_path":"/b","engine_state_path":"/c",
           "created_at_unix_ms":200},
          {"service_id":"other-port","engine":"vllm","model_ref":"m","canonical_model_id":"m",
           "host":"127.0.0.1","port":9999,"endpoint_url":"http://127.0.0.1:9999/v1",
           "mode":"managed","status":"ready","supervisor_pid":3,
           "manifest_path":"/a","log_path":"/b","engine_state_path":"/c",
           "created_at_unix_ms":300}
        ]"#;
    let mut transport =
        ScriptedTransport::new(vec![ScriptedStep::ok("services list --json", listing)]);
    assert_eq!(
        discover_started_service(&mut transport, "rocm", 11434).unwrap(),
        "new"
    );
    let entries = parse_services(listing).unwrap();
    assert_eq!(entries.len(), 3);
    assert_eq!(newest_on_port(&entries, 9999).as_deref(), Some("other-port"));
    assert_eq!(newest_on_port(&entries, 1), None);
}

#[test]
fn a_registry_we_cannot_read_names_version_skew_as_the_likely_cause() {
    let mut transport = ScriptedTransport::new(vec![ScriptedStep::ok(
        "services list --json",
        "not json at all",
    )]);
    let error = discover_started_service(&mut transport, "rocm", 11434)
        .unwrap_err()
        .headline();
    assert!(error.contains("different version"), "{error}");
}

#[test]
fn the_endpoint_url_matches_what_local_serving_records() {
    assert_eq!(
        base_url_for("gpu-box.example-tailnet.ts.net", 8000),
        "http://gpu-box.example-tailnet.ts.net:8000/v1"
    );
}

#[test]
fn the_started_message_states_who_can_reach_the_endpoint() {
    let rendered = render_started(&sample_record(), "the-key", KEY_PATH);
    assert!(
        rendered.contains("every machine on your tailnet"),
        "{rendered}"
    );
    assert!(rendered.contains("the-key"), "{rendered}");
    assert!(
        rendered.contains("http://gpu-box.example-tailnet.ts.net:8000/v1"),
        "{rendered}"
    );
    assert!(rendered.contains("key file:"), "{rendered}");
}

#[test]
fn a_clean_unwind_still_drops_the_key_it_minted() {
    let mut transport = ScriptedTransport::new(vec![
        ScriptedStep::ok("tailscale serve status --json", PUBLISHED_FIXTURE),
        ScriptedStep::ok("tailscale serve --tcp=8000 off", ""),
        ScriptedStep::ok("services stop", ""),
    ]);
    let leftovers = unwind_partial_serve(&mut transport, KEY_PATH, "rocm", Some("svc-1"), None);
    assert!(leftovers.is_empty(), "{leftovers:?}");
}

#[test]
fn a_failed_publish_stops_the_model_it_started() {
    let mut transport = ScriptedTransport::new(vec![ScriptedStep::ok("services stop", "")]);
    let leftovers = unwind_partial_serve(&mut transport, KEY_PATH, "rocm", Some("svc-1"), None);
    assert!(leftovers.is_empty(), "{leftovers:?}");
    assert!(
        sent(&transport, "services stop svc-1"),
        "the started model should have been stopped: {:?}",
        transport.calls()
    );
}

#[test]
fn what_the_unwind_could_not_undo_is_reported_not_swallowed() {
    let mut transport = ScriptedTransport::new(vec![
        ScriptedStep::ok("tailscale serve status --json", PUBLISHED_FIXTURE),
        ScriptedStep::fails("tailscale serve --tcp=8000 off", 1, "daemon busy"),
        ScriptedStep::fails("services stop", 1, "no such service"),
    ]);

    let leftovers = unwind_partial_serve(
        &mut transport,
        KEY_PATH,
        "rocm",
        Some("svc-1"),
        Some((8000, 11434)),
    );

    assert_eq!(leftovers.len(), 3, "{leftovers:?}");
    assert!(leftovers[0].contains("still be published"), "{leftovers:?}");
    assert!(leftovers[1].contains("still be running"), "{leftovers:?}");
    assert!(leftovers[2].contains("only copy"), "{leftovers:?}");

    let described = describe_leftovers(
        Failure::new("publish failed".to_owned()),
        "gpu-box",
        &leftovers,
    )
    .headline();
    assert!(described.contains("could not undo"), "{described}");
}

#[test]
fn an_unwind_with_nothing_started_sends_nothing() {
    let mut transport = ScriptedTransport::new(vec![]);
    assert!(unwind_partial_serve(&mut transport, KEY_PATH, "rocm", None, None).is_empty());
    assert!(transport.calls().is_empty());
}

#[test]
fn serving_twice_on_one_machine_and_port_is_refused_rather_than_overwriting() {
    let mut transport = ScriptedTransport::new(Vec::new());
    let session_id = RemoteSessionRecord::id_for("gpu-box.example-tailnet.ts.net", 11434);
    let report = prepare_serve(
        &mut transport,
        NameOnDisk {
            record: false,
            key: true,
        },
        &request(),
        &session_id,
        KEY_PATH,
    );
    let rendered = match report.result {
        Err(error) => error.full(),
        Ok(_) => panic!("a second serve on the same machine and port must be refused"),
    };
    assert!(
        !rendered.contains("rocm remote stop"),
        "a key-only leftover cannot be stopped: {rendered}"
    );
    assert!(rendered.contains(KEY_PATH), "{rendered}");
    assert!(
        transport.calls().is_empty(),
        "nothing may be sent to the machine before the refusal: {:?}",
        transport.calls()
    );

    let report = prepare_serve(
        &mut transport,
        NameOnDisk {
            record: true,
            key: true,
        },
        &request(),
        &session_id,
        KEY_PATH,
    );
    let rendered = match report.result {
        Err(error) => error.full(),
        Ok(_) => panic!("a recorded session must still be refused"),
    };
    assert!(rendered.contains("already recorded"), "{rendered}");
    assert!(
        rendered.contains(&format!("rocm remote stop {session_id}")),
        "{rendered}"
    );
    assert!(transport.calls().is_empty());
}

#[test]
fn a_free_name_goes_on_to_the_machine() {
    let mut transport = ScriptedTransport::new(vec![
        ScriptedStep::ok("rocm --version", "rocm 1.2.3"),
        ScriptedStep::ok("command -v rocminfo", ""),
        ScriptedStep::ok("command -v tailscale", ""),
        ScriptedStep::ok("uname -s", "Linux\nx86_64\n"),
    ]);
    let report = prepare_serve(&mut transport, free(), &request(), "remote-x-1", KEY_PATH);
    assert!(matches!(report.result, Ok(ReadyStep::Ready { cli }) if cli == "rocm"));
}

#[test]
fn serve_sends_the_key_over_stdin_when_it_starts_the_model() {
    let mut transport = ScriptedTransport::new(full_serve_steps());
    let report = start_serve(&mut transport, KeyClaim::Stored, &request(), &context());
    let record = match report.outcome {
        StartOutcome::Published(record) => record,
        StartOutcome::Failed { error, .. } => panic!("{}", error.full()),
    };
    assert_eq!(record.remote_service_id, "svc-1");
    assert_eq!(record.created_at_unix_ms, 77);
    assert_eq!(
        record.base_url,
        "http://gpu-box.example-tailnet.ts.net:8000/v1"
    );

    let sent_key = transport
        .calls()
        .into_iter()
        .find_map(|call| match call {
            TransportCall::Exec {
                command,
                stdin: Some(key),
            } if command.contains("read -r ROCM_SERVE_API_KEY") => Some(key),
            _ => None,
        })
        .expect("the model-starting command must receive the key over stdin");
    assert!(!sent_key.trim().is_empty(), "the key sent was blank");
    assert!(
        sent_key.ends_with('\n'),
        "the key must arrive as a complete line; got {sent_key:?}"
    );
    // And it is in no command.
    assert!(!sent(&transport, "the-key"));

    match finish_serve(&mut transport, Ok(()), &record, "the-key", KEY_PATH) {
        FinishOutcome::Serving(text) => assert!(text.contains("the-key")),
        FinishOutcome::Failed { error, .. } => panic!("{}", error.full()),
    }
}

#[test]
fn a_name_another_run_claimed_starts_nothing() {
    let mut transport = ScriptedTransport::new(full_serve_steps());
    let report = start_serve(&mut transport, KeyClaim::Held, &request(), &context());
    match report.outcome {
        StartOutcome::Failed { error, clear_key } => {
            assert!(error.headline().contains("another `rocm remote serve`"));
            assert!(!clear_key, "the credential is the other run's");
        }
        StartOutcome::Published(_) => panic!("nothing may be started"),
    }
    assert!(transport.calls().is_empty());

    let report = start_serve(
        &mut transport,
        KeyClaim::Failed(Failure::new("disk full".to_owned())),
        &request(),
        &context(),
    );
    match report.outcome {
        StartOutcome::Failed { error, .. } => assert!(error.full().contains("disk full")),
        StartOutcome::Published(_) => panic!("nothing may be started"),
    }
    assert!(transport.calls().is_empty());
}

#[test]
fn a_publish_that_fails_takes_the_model_down_again() {
    let mut steps = full_serve_steps();
    steps[2] = ScriptedStep::ok("tailscale serve status --json", "{}");
    steps.push(ScriptedStep::ok("services stop", ""));
    let mut transport = ScriptedTransport::new(steps);
    let report = start_serve(&mut transport, KeyClaim::Stored, &request(), &context());
    match report.outcome {
        StartOutcome::Failed { clear_key, .. } => assert!(clear_key),
        StartOutcome::Published(_) => panic!("the publish was not confirmed"),
    }
    assert!(sent(&transport, "services stop svc-1"));
}

#[test]
fn a_session_that_cannot_be_recorded_is_taken_down() {
    let mut transport = ScriptedTransport::new(vec![
        ScriptedStep::ok("tailscale serve status --json", "{}"),
        ScriptedStep::ok("services stop", ""),
    ]);
    match finish_serve(
        &mut transport,
        Err(Failure::new("disk full".to_owned())),
        &sample_record(),
        "the-key",
        KEY_PATH,
    ) {
        FinishOutcome::Failed { error, clear_key } => {
            assert!(error.full().contains("disk full"), "{}", error.full());
            assert!(clear_key);
        }
        FinishOutcome::Serving(_) => panic!("an unrecorded session is not serving"),
    }
    assert!(sent(&transport, "services stop svc-1"));
}

#[test]
fn a_service_id_is_quoted_into_the_stop_command() {
    assert_eq!(
        stop_command("rocm", "svc 1"),
        "rocm services stop 'svc 1' --yes"
    );
}

#[test]
fn each_refusal_names_its_own_remedy() {
    let refusal = |record: bool, session_id: &str, key_path: &str| {
        refuse_collision(NameOnDisk { record, key: true }, &request(), session_id, key_path)
            .expect("the name is taken")
    };
    let recorded = refusal(true, "remote-gpu-box-11434", "/k/a");
    assert!(recorded.contains("rocm remote stop remote-gpu-box-11434"));
    assert_eq!(recorded, refusal(true, "remote-gpu-box-11434", "/k/b"));
    let credential = refusal(false, "x", KEY_PATH);
    assert!(credential.contains(KEY_PATH), "{credential}");
    assert!(!credential.contains("rocm remote stop"), "{credential}");
    assert_eq!(credential, refusal(false, "y", KEY_PATH));
    assert_eq!(refuse_collision(free(), &request(), "x", KEY_PATH), None);
}

#[test]
fn a_refusal_repeats_a_command_that_stands_in_the_name_it_was_given() {
    let mut asked = request();
    asked.target = "rocm remote stop remote-gpu-box-11434".to_owned();
    let told = refuse_collision(
        NameOnDisk {
            record: false,
            key: true,
        },
        &asked,
        "remote-gpu-box-11434",
        KEY_PATH,
    )
    .expect("the name is taken");
    assert!(told.contains("rocm remote stop remote-gpu-box-11434"), "{told}");
    assert!(!told.contains("Stop it first"), "{told}");
}
