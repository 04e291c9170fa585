use rocm::remote::publish::{
    classify, doubt_publish, forward_target, funnel_allowed_for_port, observe, publish,
    publish_command, publish_state, refuse_publish, withdraw, withdraw_command, PublishObservation,
    PublishState, RawFunnel,
};
use rocm::remote::scripted::{ScriptedStep, ScriptedTransport, TransportCall};

const PUBLISHED: &str = r#"{
      "TCP": { "8000": { "TCPForward": "127.0.0.1:11434" } }
    }"#;

fn sent(transport: &ScriptedTransport, text: &str) -> bool {
    transport.calls().iter().any(
        |call| matches!(call, TransportCall::Exec { command, .. } if command.contains(text)),
    )
}

#[test]
fn output_we_cannot_read_is_never_reported_as_nothing_published() {
    for document in ["not json", "{\"TCP\": ", "<html>an error page</html>"] {
        assert_eq!(
            classify(document, 8000, 11434),
            PublishState::Unreadable,
            "{document:?}"
        );
    }
    for document in [
        r#"{"error": "not logged in"}"#,
        r#"{"SomeFutureShape": {"TCP": {}}}"#,
        "[]",
        r#""a string""#,
        "42",
    ] {
        assert_eq!(
            classify(document, 8000, 11434),
            PublishState::Unreadable,
            "{document}"
        );
    }

    assert_eq!(classify("{}", 8000, 11434), PublishState::Absent);
    assert_eq!(
        classify(r#"{"Web": {}}"#, 8000, 11434),
        PublishState::Absent
    );
}

#[test]
fn neither_publish_nor_withdraw_accepts_an_unreadable_reply() {
    let mut garbled = ScriptedTransport::new(vec![
        ScriptedStep::ok("tailscale serve --tcp=8000 off", ""),
        ScriptedStep::ok("tailscale serve status --json", r#"{"unexpected": true}"#),
    ]);
    let error = withdraw(&mut garbled, 8000, 11434).unwrap_err().headline();
    assert!(error.contains("could not be checked"), "{error}");

    let mut publishing = ScriptedTransport::new(vec![
        ScriptedStep::ok("tailscale serve --bg", ""),
        ScriptedStep::ok("tailscale serve status --json", r#"{"unexpected": true}"#),
    ]);
    let error = publish(&mut publishing, 8000, 11434)
        .unwrap_err()
        .headline();
    assert!(error.contains("could not be checked"), "{error}");
}

#[test]
fn a_matching_forward_is_recognised_as_ours() {
    assert_eq!(classify(PUBLISHED, 8000, 11434), PublishState::Published);
}

#[test]
fn an_empty_or_null_config_means_nothing_is_published() {
    for document in ["", "   ", "null", "{}"] {
        assert_eq!(
            classify(document, 8000, 11434),
            PublishState::Absent,
            "{document:?}"
        );
    }
}

#[test]
fn a_port_pointing_elsewhere_is_not_treated_as_ours() {
    let other = r#"{"TCP": {"8000": {"TCPForward": "127.0.0.1:9999"}}}"#;
    assert_eq!(
        classify(other, 8000, 11434),
        PublishState::Foreign {
            forwards_to: "127.0.0.1:9999".to_owned()
        }
    );
}

#[test]
fn an_https_handler_on_the_port_is_not_a_forward() {
    let https = r#"{"TCP": {"8000": {"HTTPS": true}}}"#;
    assert_eq!(classify(https, 8000, 11434), PublishState::Absent);
}

#[test]
fn a_live_forward_is_found_wherever_it_stands() {
    let foreground = r#"{
          "TCP": { "8000": { "HTTPS": true } },
          "Foreground": { "sess-1": { "TCP": { "8000": { "TCPForward": "127.0.0.1:9999" } } } }
        }"#;
    let service = r#"{
          "TCP": { "8000": { "HTTPS": true } },
          "Foreground": { "sess-1": { "TCP": { "8000": { "HTTP": true } } } },
          "Services": {
            "svc:a": { "TCP": { "8000": { "HTTPS": true } } },
            "svc:b": { "TCP": { "8000": { "TCPForward": "127.0.0.1:9999" } } }
          }
        }"#;
    for document in [foreground, service] {
        assert_eq!(
            classify(document, 8000, 11434),
            PublishState::Foreign {
                forwards_to: "127.0.0.1:9999".to_owned()
            },
            "{document}"
        );
        assert_eq!(classify(document, 8000, 9999), PublishState::Published);
    }
}

#[test]
fn a_foreground_publish_is_still_a_publish() {
    let foreground = r#"{
          "Foreground": { "sess-1": { "TCP": { "8000": { "TCPForward": "127.0.0.1:11434" } } } }
        }"#;
    assert_eq!(classify(foreground, 8000, 11434), PublishState::Published);
}

#[test]
fn ports_are_matched_as_string_keys_not_numbers() {
    assert_eq!(classify(PUBLISHED, 8001, 11434), PublishState::Absent);
}

#[test]
fn a_service_forward_is_still_a_forward() {
    let service = r#"{
          "Services": { "svc:my-app": { "TCP": { "8000": { "TCPForward": "127.0.0.1:9999" } } } }
        }"#;
    assert_eq!(
        classify(service, 8000, 11434),
        PublishState::Foreign {
            forwards_to: "127.0.0.1:9999".to_owned()
        }
    );
}

#[test]
fn our_own_forward_under_a_service_is_recognised() {
    let service = r#"{
          "Services": { "svc:my-app": { "TCP": { "8000": { "TCPForward": "127.0.0.1:11434" } } } }
        }"#;
    assert_eq!(classify(service, 8000, 11434), PublishState::Published);
}

#[test]
fn funnel_allowed_on_our_port_is_never_read_as_free() {
    let funnel_only = r#"{"AllowFunnel": {"my-machine.tail1234.ts.net:8000": true}}"#;
    assert_eq!(
        classify(funnel_only, 8000, 11434),
        PublishState::FunnelAllowed
    );
}

#[test]
fn funnel_allowed_overrides_a_matching_forward() {
    let both = r#"{
          "TCP": { "8000": { "TCPForward": "127.0.0.1:11434" } },
          "AllowFunnel": { "my-machine.tail1234.ts.net:8000": true }
        }"#;
    assert_eq!(classify(both, 8000, 11434), PublishState::FunnelAllowed);
}

#[test]
fn funnel_allowed_on_another_port_does_not_affect_ours() {
    let other_port = r#"{"AllowFunnel": {"my-machine.tail1234.ts.net:9000": true}}"#;
    assert_eq!(classify(other_port, 8000, 11434), PublishState::Absent);
}

#[test]
fn funnel_disabled_entry_does_not_trip_the_guard() {
    let disabled = r#"{"AllowFunnel": {"my-machine.tail1234.ts.net:8000": false}}"#;
    assert_eq!(classify(disabled, 8000, 11434), PublishState::Absent);
}

#[test]
fn publish_refuses_a_funnel_enabled_port() {
    let mut transport = ScriptedTransport::new(vec![ScriptedStep::ok(
        "tailscale serve status --json",
        r#"{"AllowFunnel": {"my-machine.tail1234.ts.net:8000": true}}"#,
    )]);
    let error = publish(&mut transport, 8000, 11434).unwrap_err().headline();
    assert!(error.contains("tailscale funnel --tcp=8000 off"), "{error}");
    assert!(!sent(&transport, "--bg"), "{:?}", transport.calls());
}

#[test]
fn withdraw_refuses_a_funnel_enabled_port() {
    let mut transport = ScriptedTransport::new(vec![ScriptedStep::ok(
        "tailscale serve status --json",
        r#"{"AllowFunnel": {"my-machine.tail1234.ts.net:8000": true}}"#,
    )]);
    let error = withdraw(&mut transport, 8000, 11434)
        .unwrap_err()
        .headline();
    assert!(error.contains("tailscale funnel --tcp=8000 off"), "{error}");
    assert!(!sent(&transport, " off"), "{:?}", transport.calls());
}

#[test]
fn publishing_runs_in_the_background_and_targets_loopback() {
    let command = publish_command(8000, 11434);
    assert!(command.contains("--bg"), "{command}");
    assert!(command.contains("--tcp=8000"), "{command}");
    assert!(command.contains("tcp://127.0.0.1:11434"), "{command}");
}

#[test]
fn a_publish_the_remote_does_not_confirm_is_an_error() {
    let mut transport = ScriptedTransport::new(vec![
        ScriptedStep::ok("tailscale serve --bg", ""),
        ScriptedStep::ok("tailscale serve status --json", "{}"),
    ]);
    let error = publish(&mut transport, 8000, 11434).unwrap_err().headline();
    assert!(error.contains("would not answer"), "{error}");
}

#[test]
fn a_confirmed_publish_succeeds() {
    let mut transport = ScriptedTransport::new(vec![
        ScriptedStep::ok("tailscale serve --bg", ""),
        ScriptedStep::ok("tailscale serve status --json", PUBLISHED),
    ]);
    publish(&mut transport, 8000, 11434).expect("publish confirmed");
}

#[test]
fn a_port_someone_else_is_using_is_not_taken_over() {
    let mut occupied = ScriptedTransport::new(vec![ScriptedStep::ok(
        "tailscale serve status --json",
        r#"{"TCP": {"8000": {"TCPForward": "127.0.0.1:9999"}}}"#,
    )]);

    let error = publish(&mut occupied, 8000, 11434).unwrap_err().headline();
    assert!(error.contains("Refusing to take it over"), "{error}");
    assert!(
        !sent(&occupied, "--bg"),
        "nothing should have been written: {:?}",
        occupied.calls()
    );
}

#[test]
fn re_publishing_our_own_forward_is_allowed() {
    let mut ours = ScriptedTransport::new(vec![
        ScriptedStep::ok("tailscale serve status --json", PUBLISHED),
        ScriptedStep::ok("tailscale serve --bg", ""),
    ]);
    publish(&mut ours, 8000, 11434).expect("re-publishing our own forward");
}

#[test]
fn a_refused_publish_points_at_tailnet_policy() {
    let mut transport = ScriptedTransport::new(vec![
        ScriptedStep::ok("tailscale serve status --json", "{}"),
        ScriptedStep::fails("tailscale serve --bg", 1, "serve not allowed"),
    ]);
    let error = publish(&mut transport, 8000, 11434).unwrap_err().headline();
    assert!(error.contains("policy"), "{error}");
}

#[test]
fn a_port_that_now_belongs_to_something_else_is_not_turned_off() {
    let mut hijacked = ScriptedTransport::new(vec![ScriptedStep::ok(
        "tailscale serve status --json",
        r#"{"TCP": {"8000": {"TCPForward": "127.0.0.1:9999"}}}"#,
    )]);
    let error = withdraw(&mut hijacked, 8000, 11434).unwrap_err().headline();
    assert!(error.contains("belongs to something else"), "{error}");
    assert!(
        !sent(&hijacked, "off"),
        "a foreign forward must not be touched"
    );
}

#[test]
fn withdrawing_an_already_absent_endpoint_is_not_an_error() {
    let mut gone = ScriptedTransport::new(vec![ScriptedStep::ok(
        "tailscale serve status --json",
        "{}",
    )]);
    withdraw(&mut gone, 8000, 11434).expect("already gone is success");
}

#[test]
fn withdrawal_is_confirmed_not_assumed() {
    let mut stubborn = ScriptedTransport::new(vec![
        ScriptedStep::ok("tailscale serve --tcp=8000 off", ""),
        ScriptedStep::ok("tailscale serve status --json", PUBLISHED),
    ]);
    let error = withdraw(&mut stubborn, 8000, 11434).unwrap_err().headline();
    assert!(error.contains("still reports"), "{error}");
}

#[test]
fn commands_are_spelled_exactly() {
    assert_eq!(forward_target(11434), "127.0.0.1:11434");
    assert_eq!(
        publish_command(443, 1),
        "tailscale serve --bg --tcp=443 tcp://127.0.0.1:1"
    );
    assert_eq!(withdraw_command(443), "tailscale serve --tcp=443 off");
}

#[test]
fn a_state_that_permits_publishing_is_not_refused() {
    assert_eq!(refuse_publish(&PublishState::Absent, 8000), None);
    assert_eq!(refuse_publish(&PublishState::Published, 8000), None);
    assert!(refuse_publish(&PublishState::Unreadable, 8000).is_some());
    assert_eq!(doubt_publish(&PublishState::Published, 8000), None);
    assert!(doubt_publish(&PublishState::Absent, 8000).is_some());
}

#[test]
fn a_funnel_counts_only_for_its_own_port() {
    let allowed = vec![
        RawFunnel {
            host_port: "m.ts.net:18000".to_owned(),
            allowed: true,
        },
        RawFunnel {
            host_port: "m.ts.net:8000".to_owned(),
            allowed: false,
        },
    ];
    assert!(!funnel_allowed_for_port(&allowed, 8000));
    assert!(funnel_allowed_for_port(&allowed, 18000));
}

#[test]
fn observing_tells_an_answer_from_a_failure_and_from_silence() {
    let mut known = ScriptedTransport::new(vec![ScriptedStep::ok("status --json", PUBLISHED)]);
    assert_eq!(
        observe(&mut known, 8000, 11434),
        PublishObservation::Known(PublishState::Published)
    );
    let mut failed = ScriptedTransport::new(vec![ScriptedStep::fails("status", 1, "nope")]);
    assert!(
        matches!(observe(&mut failed, 8000, 11434), PublishObservation::Failed(why) if why.contains("nope"))
    );
    let mut silent = ScriptedTransport::new(vec![]);
    assert!(matches!(
        observe(&mut silent, 8000, 11434),
        PublishObservation::Unreachable(_)
    ));
    assert!(publish_state(&mut silent, 8000, 11434).is_err());
}

#[test]
fn no_two_forwards_share_a_command() {
    assert_ne!(publish_command(1, 11), publish_command(11, 1));
    assert_ne!(publish_command(80, 80), publish_command(80, 800));
    assert_ne!(withdraw_command(80), withdraw_command(8));
}
