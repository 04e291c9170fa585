use rocm::failure::Failure;
use rocm::remote::lifecycle::{
    attach_with_transport, describe_stop_failure, find_health, health_from_status, observe,
    render_status, render_stopped, repair_hint, status, stop_with_transport, unaddressable,
    ObservedSession, ServerHealth, SessionObservation,
};
use rocm::remote::publish::{PublishObservation, PublishState};
use rocm::remote::scripted::{ScriptedStep, ScriptedTransport, TransportCall};
use rocm::remote::session::RemoteSessionRecord;
use rocm::remote::transport::RemoteOutcome;

const PUBLISHED_FIXTURE: &str = r#"{"TCP": {"8000": {"TCPForward": "127.0.0.1:11434"}}}"#;

fn sample_record() -> RemoteSessionRecord {
    RemoteSessionRecord {
        session_id: "remote-gpu-box-11434".to_owned(),
        target: "gpu-box".to_owned(),
        peer_host: "gpu-box.example-tailnet.ts.net".to_owned(),
        ssh_port: None,
        model: "qwen".to_owned(),
        remote_service_id: "svc-1".to_owned(),
        remote_cli: "rocm".to_owned(),
        remote_port: 11434,
        tailnet_port: 8000,
        base_url: "http://gpu-box.example-tailnet.ts.net:8000/v1".to_owned(),
        created_at_unix_ms: 1,
    }
}

fn seen(record: RemoteSessionRecord, observed: SessionObservation) -> Vec<ObservedSession> {
    vec![ObservedSession {
        record,
        observed,
        key_path: "/tmp/rocm-render/data/remote-sessions/remote-gpu-box-11434.endpoint-key"
            .to_owned(),
    }]
}

fn known(server: ServerHealth, state: PublishState) -> SessionObservation {
    SessionObservation {
        server,
        publish: PublishObservation::Known(state),
    }
}

fn listing_with_status(status: &str) -> String {
    format!(
        r#"[{{"service_id":"svc-1","engine":"vllm","model_ref":"m","canonical_model_id":"m",
               "host":"127.0.0.1","port":11434,"endpoint_url":"http://127.0.0.1:11434/v1",
               "mode":"managed","status":"{status}","supervisor_pid":1,
               "manifest_path":"/a","log_path":"/b","engine_state_path":"/c",
               "created_at_unix_ms":100}}]"#
    )
}

fn issued_a_publish(transport: &ScriptedTransport) -> bool {
    transport.calls().iter().any(
        |call| matches!(call, TransportCall::Exec { command, .. } if command.contains("serve --bg")),
    )
}

#[test]
fn the_two_lifecycles_are_reported_separately() {
    let rendered = render_status(&seen(
        sample_record(),
        known(ServerHealth::Healthy, PublishState::Absent),
    ));
    assert!(rendered.contains("model server: healthy"), "{rendered}");
    assert!(rendered.contains("endpoint published: no"), "{rendered}");
    assert!(
        rendered.contains("rocm remote attach"),
        "a live model with no endpoint should point at attach, not a restart: {rendered}"
    );
}

#[test]
fn a_funnel_exposed_port_is_reported_as_exposure_not_as_a_publish_answer() {
    let record = RemoteSessionRecord {
        tailnet_port: 443,
        ..sample_record()
    };
    let rendered = render_status(&seen(
        record.clone(),
        known(ServerHealth::Healthy, PublishState::FunnelAllowed),
    ));
    assert!(
        !rendered.contains("endpoint published: no"),
        "Funnel exposure must not be rendered as an answer about publishing: {rendered}"
    );
    assert!(rendered.contains("exposed"), "{rendered}");
    assert!(
        rendered.contains("public internet"),
        "the reason it matters must be on the line: {rendered}"
    );
    assert!(
        rendered.contains(&format!(
            "tailscale funnel --tcp={} off",
            record.tailnet_port
        )),
        "{rendered}"
    );
}

#[test]
fn a_dead_server_is_not_offered_a_republish() {
    let rendered = render_status(&seen(
        sample_record(),
        known(ServerHealth::Failed, PublishState::Published),
    ));
    assert!(rendered.contains("model server: failed"), "{rendered}");
    assert!(!rendered.contains("attach"), "{rendered}");
    assert!(rendered.contains("stop"), "{rendered}");
}

#[test]
fn a_session_the_remote_has_forgotten_warns_about_a_stray_endpoint() {
    let rendered = render_status(&seen(
        sample_record(),
        known(ServerHealth::Gone, PublishState::Published),
    ));
    assert!(rendered.contains("may still be publishing"), "{rendered}");
}

#[test]
fn an_unreachable_machine_reads_differently_from_a_broken_command() {
    let record = sample_record();

    let mut unreachable = ScriptedTransport::new(vec![]);
    assert_eq!(
        observe(&mut unreachable, &record).server,
        ServerHealth::Unreachable
    );

    let mut answered_badly =
        ScriptedTransport::new(vec![ScriptedStep::fails("services list --json", 1, "boom")]);
    assert_eq!(
        observe(&mut answered_badly, &record).server,
        ServerHealth::Error
    );
}

#[test]
fn a_remote_that_answers_about_publishing_is_not_reported_as_one_that_was_never_asked() {
    let record = sample_record();

    let mut answered = ScriptedTransport::new(vec![
        ScriptedStep::ok("services list --json", "[]"),
        ScriptedStep::fails(
            "tailscale serve status --json",
            127,
            "tailscale: command not found",
        ),
    ]);
    let observed = observe(&mut answered, &record);
    let PublishObservation::Failed(why) = &observed.publish else {
        panic!("a remote that answered must not be reported as unreachable: {observed:?}");
    };
    assert!(why.contains("tailscale: command not found"), "{why}");

    let mut unreachable = ScriptedTransport::new(vec![]);
    assert!(
        matches!(
            observe(&mut unreachable, &record).publish,
            PublishObservation::Unreachable(_)
        ),
        "a host that was never reached must say so"
    );

    let rendered_failed = render_status(&seen(record.clone(), observed));
    let rendered_unreachable = render_status(&seen(
        record.clone(),
        observe(&mut unreachable, &record),
    ));
    assert!(
        rendered_failed.contains("tailscale: command not found"),
        "the remote's own reason belongs on the status line: {rendered_failed}"
    );
    assert_ne!(
        rendered_failed, rendered_unreachable,
        "answered-and-failed must not read identically to never-answered"
    );
}

#[test]
fn a_service_missing_from_the_remote_registry_is_gone_not_failed() {
    let record = sample_record();
    let mut transport = ScriptedTransport::new(vec![
        ScriptedStep::ok("services list --json", "[]"),
        ScriptedStep::ok("tailscale serve status --json", "{}"),
    ]);
    assert_eq!(observe(&mut transport, &record).server, ServerHealth::Gone);
    assert_eq!(find_health(&vec![], "svc-1"), ServerHealth::Gone);
}

#[test]
fn remote_lifecycle_words_map_onto_reported_health() {
    for (raw, expected) in [
        ("ready", ServerHealth::Healthy),
        ("running", ServerHealth::Healthy),
        ("starting", ServerHealth::Pending),
        ("recovering", ServerHealth::Pending),
        ("failed", ServerHealth::Failed),
        ("stopped", ServerHealth::Failed),
    ] {
        assert_eq!(health_from_status(raw), expected, "{raw}");
    }
}

#[test]
fn a_state_this_version_does_not_know_is_not_called_a_failure() {
    let health = health_from_status("quiescing");
    assert_eq!(
        health,
        ServerHealth::Unrecognised {
            raw: "quiescing".to_owned()
        }
    );
    assert!(
        health.describe().contains("different CLI version"),
        "{}",
        health.describe()
    );

    let rendered = render_status(&seen(
        sample_record(),
        known(health, PublishState::Published),
    ));
    assert!(
        rendered.contains("unrecognised state `quiescing`"),
        "{rendered}"
    );
    assert!(!rendered.contains("then serve again"), "{rendered}");
}

#[test]
fn the_credential_is_recoverable_rather_than_shown_once_and_lost() {
    let listed = render_status(&seen(
        sample_record(),
        known(ServerHealth::Healthy, PublishState::Published),
    ));
    assert!(listed.contains("key file:"), "{listed}");
    assert!(
        !listed.contains("the-key"),
        "a listing must not echo the credential:\n{listed}"
    );
    assert!(listed.contains("remote-sessions"), "{listed}");
}

#[test]
fn a_teardown_that_leaves_the_model_running_keeps_the_record() {
    let rendered = render_stopped(&sample_record(), true, false, false);
    assert!(
        rendered.contains("model server stopped: NOT CONFIRMED"),
        "{rendered}"
    );
}

#[test]
fn a_forced_teardown_is_louder_than_a_clean_one() {
    let forced = render_stopped(&sample_record(), false, false, true);
    assert!(forced.contains("may still be running it"), "{forced}");
    assert!(
        forced.contains("tailscale serve --tcp=8000 off"),
        "a forced stop must say how to clear the endpoint: {forced}"
    );
    assert!(
        forced.contains("services list"),
        "and how to find the model: {forced}"
    );

    let clean = render_stopped(&sample_record(), true, true, false);
    assert!(!clean.contains("may still be running it"), "{clean}");
    assert!(clean.contains("endpoint withdrawn: yes"), "{clean}");
}

#[test]
fn a_machine_whose_registry_command_failed_is_still_asked_about_publishing() {
    let mut transport = ScriptedTransport::new(vec![
        ScriptedStep::fails("services list --json", 127, "rocm: command not found"),
        ScriptedStep::ok("tailscale serve status", PUBLISHED_FIXTURE),
    ]);

    let observed = observe(&mut transport, &sample_record());
    assert_eq!(observed.server, ServerHealth::Error);
    assert_eq!(
        observed.publish,
        PublishObservation::Known(PublishState::Published),
        "a reachable machine's publishing state is a fact we can read"
    );

    let rendered = render_status(&seen(sample_record(), observed));
    assert!(rendered.contains("endpoint published: yes"), "{rendered}");
    assert!(
        !rendered.contains("could not be asked"),
        "a machine that answered must not be reported as unreachable:\n{rendered}"
    );
}

#[test]
fn attach_refuses_to_republish_over_a_model_that_is_not_running() {
    let mut transport = ScriptedTransport::new(vec![
        ScriptedStep::ok("services list --json", &listing_with_status("failed")),
        ScriptedStep::ok("tailscale serve status", "{}"),
    ]);

    let error = attach_with_transport(&mut transport, &sample_record())
        .expect_err("a dead model server must not be re-published over");
    let rendered = error.full();
    assert!(rendered.contains("nothing behind it"), "{rendered}");
    assert!(
        !issued_a_publish(&transport),
        "a refused attach must not have declared a forward: {:?}",
        transport.calls()
    );
}

#[test]
fn attach_republishes_a_healthy_session_whose_endpoint_went_missing() {
    let mut transport = ScriptedTransport::new(vec![
        ScriptedStep::ok("services list --json", &listing_with_status("ready")),
        ScriptedStep::ok("tailscale serve status", "{}"),
        ScriptedStep::ok("serve --bg", ""),
    ]);
    let error = attach_with_transport(&mut transport, &sample_record())
        .expect_err("an unconfirmed publish is an error");
    assert!(
        error.full().contains("does not report it as active"),
        "{}",
        error.full()
    );
    assert!(
        issued_a_publish(&transport),
        "a healthy session must be re-published: {:?}",
        transport.calls()
    );

    let mut confirming = ScriptedTransport::new(vec![
        ScriptedStep::ok("services list --json", &listing_with_status("ready")),
        ScriptedStep::ok("tailscale serve status", PUBLISHED_FIXTURE),
        ScriptedStep::ok("serve --bg", ""),
    ]);
    attach_with_transport(&mut confirming, &sample_record()).expect("a confirmed re-publish");
}

// A session is forgotten exactly where the stop succeeds: its record and its
// credential go then, and stay otherwise.

#[test]
fn a_stop_that_cannot_stop_the_model_keeps_the_session_and_says_why() {
    let mut transport = ScriptedTransport::new(vec![
        ScriptedStep::ok("tailscale serve status", "{}"),
        ScriptedStep::fails("services stop", 3, "engine still shutting down"),
    ]);

    let error = stop_with_transport(&mut transport, &sample_record(), false)
        .expect_err("an unconfirmed model stop must not drop the session");
    let rendered = error.full();
    assert!(
        rendered.contains("engine still shutting down"),
        "{rendered}"
    );
    assert!(rendered.contains("exit 3"), "{rendered}");
    assert!(rendered.contains("--force"), "{rendered}");
}

#[test]
fn a_forced_stop_forgets_a_session_the_machine_will_not_confirm() {
    let mut transport = ScriptedTransport::new(vec![
        ScriptedStep::fails("tailscale serve status", 1, "tailscaled not running"),
        ScriptedStep::fails("services stop", 1, "no such service"),
    ]);
    stop_with_transport(&mut transport, &sample_record(), true)
        .expect("a forced stop must succeed");
}

#[test]
fn a_clean_stop_removes_the_session_and_its_credential() {
    let mut transport = ScriptedTransport::new(vec![
        ScriptedStep::ok("tailscale serve status", "{}"),
        ScriptedStep::ok("services stop", ""),
    ]);
    stop_with_transport(&mut transport, &sample_record(), false).expect("a confirmed teardown");
}

#[test]
fn a_withdrawal_the_remote_will_not_confirm_keeps_the_record() {
    let mut transport = ScriptedTransport::new(vec![
        ScriptedStep::ok("tailscale serve status", PUBLISHED_FIXTURE),
        ScriptedStep::ok("tailscale serve --tcp=8000 off", ""),
        ScriptedStep::ok("services stop", ""),
    ]);

    let error = stop_with_transport(&mut transport, &sample_record(), false)
        .expect_err("a withdrawal the remote does not confirm is not a teardown");
    assert!(
        error.full().contains("still reports port 8000 as published"),
        "{}",
        error.full()
    );
}

#[test]
fn a_stop_failure_names_the_machines_answer_or_the_reason_it_never_answered() {
    let answered = describe_stop_failure(&Ok(RemoteOutcome {
        success: false,
        code: Some(2),
        stdout: String::new(),
        stderr: "  no such service  ".to_owned(),
    }))
    .expect("a non-zero exit is a failure");
    assert!(answered.contains("exit 2"), "{answered}");
    assert!(answered.contains("no such service"), "{answered}");

    let silent = describe_stop_failure(&Ok(RemoteOutcome {
        success: false,
        code: None,
        stdout: String::new(),
        stderr: String::new(),
    }))
    .expect("a signalled exit is a failure");
    assert!(silent.contains("signal"), "{silent}");

    let unreachable =
        describe_stop_failure(&Err(Failure::new("could not reach gpu-box".to_owned())))
            .expect("an unreachable machine is a failure");
    assert!(
        unreachable.contains("could not reach gpu-box"),
        "{unreachable}"
    );

    assert!(
        describe_stop_failure(&Ok(RemoteOutcome {
            success: true,
            code: Some(0),
            stdout: String::new(),
            stderr: String::new(),
        }))
        .is_none(),
        "a successful stop is not a failure"
    );
}

#[test]
fn a_recorded_name_ssh_would_refuse_is_reported_and_not_asked() {
    let observed = unaddressable(&Failure::new("it begins with a dash".to_owned()));
    assert_eq!(observed.server, ServerHealth::Unreachable);
    let text = status(&seen(sample_record(), observed));
    assert!(text.contains("it begins with a dash"), "{text}");
    assert!(!status(&vec![]).is_empty());
}

#[test]
fn a_healthy_published_session_needs_no_repair() {
    assert_eq!(
        repair_hint(
            &sample_record(),
            &known(ServerHealth::Healthy, PublishState::Published)
        ),
        None
    );
    assert!(repair_hint(
        &sample_record(),
        &known(ServerHealth::Healthy, PublishState::Absent)
    )
    .unwrap()
    .contains("attach"));
}
