use rocm::remote::tailnet::{
    local_status, parse_status, render_targets, resolve_peer, resolve_target, status_is_running,
    targets, StatusOutput, TailnetAvailability, TailnetStatus,
};

const FIXTURE: &str = r#"{
      "Version": "1.999.0-t01b2c3",
      "TUN": true,
      "BackendState": "Running",
      "MagicDNSSuffix": "example-tailnet.ts.net",
      "Self": {
        "ID": "nSELF",
        "HostName": "laptop",
        "DNSName": "laptop.example-tailnet.ts.net.",
        "OS": "linux",
        "TailscaleIPs": ["100.88.0.9"],
        "Online": true
      },
      "Peer": {
        "nodekey:bbb": {
          "ID": "nBBB",
          "HostName": "gpu-box-2",
          "DNSName": "gpu-box-2.example-tailnet.ts.net.",
          "OS": "linux",
          "TailscaleIPs": ["100.88.14.37"],
          "Tags": ["tag:gpu"],
          "Online": false,
          "LastSeen": "2026-08-30T11:02:41Z"
        },
        "nodekey:aaa": {
          "ID": "nAAA",
          "HostName": "gpu-box-1",
          "DNSName": "gpu-box-1.example-tailnet.ts.net.",
          "OS": "linux",
          "TailscaleIPs": ["100.88.14.21", "fd7a:115c:a1e0::3"],
          "Tags": ["tag:gpu", "tag:prod"],
          "Online": true
        },
        "nodekey:ccc": {
          "ID": "nCCC",
          "HostName": "phone",
          "DNSName": "phone.example-tailnet.ts.net.",
          "OS": "iOS",
          "TailscaleIPs": ["100.88.51.6"],
          "Online": true
        }
      }
    }"#;

fn fixture() -> TailnetStatus {
    parse_status(FIXTURE).expect("fixture parses").1
}

#[test]
fn parsing_orders_peers_and_strips_the_magicdns_trailing_dot() {
    let status = fixture();
    assert_eq!(
        status
            .peers
            .iter()
            .map(|peer| peer.host.as_str())
            .collect::<Vec<_>>(),
        vec!["gpu-box-1", "gpu-box-2", "phone"]
    );
    assert_eq!(status.peers[0].dns_name, "gpu-box-1.example-tailnet.ts.net");
    assert_eq!(status.this_machine.unwrap().host, "laptop");
}

#[test]
fn parsing_tolerates_a_newer_tailscale_but_rejects_a_non_status_document() {
    let with_extras = FIXTURE.replace(
        "\"BackendState\": \"Running\",",
        "\"BackendState\": \"Running\", \"SomethingAddedLater\": {\"a\": 1},",
    );
    assert!(parse_status(&with_extras).is_ok());

    let not_a_status = r#"{"Peer": {}}"#;
    let error = parse_status(not_a_status).unwrap_err().headline();
    assert!(error.contains("not a status document"), "{error}");
}

#[test]
fn userspace_networking_is_read_from_the_daemon_not_guessed() {
    assert!(!fixture().userspace_networking);
    let userspace = FIXTURE.replace("\"TUN\": true", "\"TUN\": false");
    assert!(parse_status(&userspace).unwrap().1.userspace_networking);
}

#[test]
fn a_daemon_that_is_not_up_is_reported_as_such_not_as_an_empty_tailnet() {
    let logged_out = FIXTURE.replace(
        "\"BackendState\": \"Running\"",
        "\"BackendState\": \"NeedsLogin\"",
    );
    let (state, _) = parse_status(&logged_out).expect("still parses");
    assert!(!status_is_running(&state));
    assert_eq!(state, "NeedsLogin");
}

#[test]
fn a_peer_resolves_by_host_name_dns_name_or_address() {
    let status = fixture();
    for needle in [
        "gpu-box-1",
        "GPU-BOX-1",
        "gpu-box-1.example-tailnet.ts.net",
        "gpu-box-1.example-tailnet.ts.net.",
        "100.88.14.21",
        "user@gpu-box-1",
    ] {
        let peer = resolve_peer(&status, needle)
            .unwrap_or_else(|error| panic!("{needle}: {}", error.headline()))
            .unwrap_or_else(|| panic!("{needle} should resolve"));
        assert_eq!(peer.host, "gpu-box-1", "resolving {needle}");
    }
}

#[test]
fn an_ambiguous_name_is_refused_and_names_the_candidates() {
    let status = fixture();
    let error = resolve_peer(&status, "gpu-box").unwrap_err().headline();
    assert!(error.contains("gpu-box-1"), "{error}");
    assert!(error.contains("gpu-box-2"), "{error}");
}

#[test]
fn an_unknown_name_is_absent_rather_than_an_error() {
    assert!(resolve_peer(&fixture(), "not-on-this-tailnet")
        .expect("no match is not an error")
        .is_none());
}

#[test]
fn an_exact_name_wins_over_a_longer_one_that_contains_it() {
    let status = parse_status(&FIXTURE.replace(
        "\"HostName\": \"phone\"",
        "\"HostName\": \"gpu-box-1-spare\"",
    ))
    .unwrap()
    .1;
    let peer = resolve_peer(&status, "gpu-box-1")
        .expect("exact match must not be ambiguous")
        .expect("resolves");
    assert_eq!(peer.host, "gpu-box-1");
}

#[test]
fn a_name_that_two_machines_bear_is_refused() {
    let status = parse_status(
        r#"{
          "BackendState": "Running",
          "Peer": {
            "a": { "HostName": "gpu-box", "DNSName": "gpu-box.a.ts.net.", "Online": true },
            "b": { "HostName": "gpu-box", "DNSName": "gpu-box.b.ts.net.", "Online": true }
          }
        }"#,
    )
    .unwrap()
    .1;
    let error = resolve_peer(&status, "gpu-box").unwrap_err().headline();
    assert!(error.contains("gpu-box.a.ts.net"), "{error}");
    assert!(error.contains("gpu-box.b.ts.net"), "{error}");
    let one = resolve_peer(&status, "gpu-box.b.ts.net").unwrap().unwrap();
    assert_eq!(one.dns_name, "gpu-box.b.ts.net");
}

#[test]
fn a_listing_has_one_bullet_for_each_selected_machine() {
    let bullets = |tag: Option<&str>| -> Vec<String> {
        render_targets(&fixture(), tag)
            .lines()
            .filter(|line| line.starts_with("- "))
            .map(str::to_owned)
            .collect()
    };
    assert_eq!(bullets(None), ["- gpu-box-1", "- gpu-box-2", "- phone"]);
    assert_eq!(bullets(Some("gpu")), ["- gpu-box-1", "- gpu-box-2"]);
    assert!(bullets(Some("none")).is_empty());
    assert_eq!(
        render_targets(&fixture(), Some("gpu")),
        render_targets(&fixture(), Some("tag:gpu"))
    );
    assert!(render_targets(&fixture(), None)
        .lines()
        .any(|line| line == "Status: 2 online, 1 offline"));
}

#[test]
fn a_listing_is_written_line_by_line() {
    assert_eq!(
        render_targets(&fixture(), Some("prod")),
        "Remote Targets\n\nThis machine: laptop\nStatus: 1 online, 0 offline\n\n\
         - gpu-box-1\n  address: gpu-box-1.example-tailnet.ts.net\n  \
         ip: 100.88.14.21, fd7a:115c:a1e0::3\n  os: linux\n  tags: tag:gpu, tag:prod\n  \
         online: yes\n  check: rocm remote doctor gpu-box-1\n\n\
         Listed machines are reachable on the tailnet. That does not mean they have a GPU,\n\
         ROCm, or the ROCm CLI — run `rocm remote doctor <machine>` to find out.\n"
    );
}

#[test]
fn targets_can_be_narrowed_to_tagged_machines() {
    let status = fixture();
    let all = render_targets(&status, None);
    assert!(all.contains("- gpu-box-1"));
    assert!(all.contains("- phone"));

    for spelling in ["gpu", "tag:gpu"] {
        let tagged = render_targets(&status, Some(spelling));
        assert!(tagged.contains("- gpu-box-1"), "{spelling}");
        assert!(!tagged.contains("- phone"), "{spelling}");
        assert!(tagged.contains("Status: 1 online, 1 offline"), "{spelling}");
    }
}

#[test]
fn targets_states_that_listing_is_not_readiness() {
    let rendered = render_targets(&fixture(), None);
    assert!(
        rendered.contains("does not mean they have a GPU"),
        "{rendered}"
    );
    assert!(
        rendered.contains("rocm remote doctor gpu-box-1"),
        "{rendered}"
    );
    assert!(
        rendered.contains("online: no"),
        "an offline peer is shown, not hidden"
    );
}

#[test]
fn targets_names_the_machine_the_list_is_seen_from() {
    assert!(render_targets(&fixture(), None).contains("This machine: laptop"));
}

#[test]
fn targets_warns_when_traffic_to_peers_will_be_relayed() {
    assert!(!render_targets(&fixture(), None).contains("relayed"));

    let userspace = parse_status(&FIXTURE.replace("\"TUN\": true", "\"TUN\": false"))
        .unwrap()
        .1;
    let rendered = render_targets(&userspace, None);
    assert!(
        rendered.contains("relayed"),
        "a throughput cap should be stated before someone blames the GPU: {rendered}"
    );
}

#[test]
fn the_word_for_relayed_traffic_is_repeated_where_a_machine_goes_by_it() {
    let named = parse_status(&FIXTURE.replace("laptop", "relayed-laptop"))
        .unwrap()
        .1;
    let rendered = render_targets(&named, None);
    assert!(rendered.contains("This machine: relayed-laptop"), "{rendered}");
    assert!(!rendered.contains("is relayed rather"), "{rendered}");
}

#[test]
fn an_empty_tag_filter_explains_itself_rather_than_printing_nothing() {
    let rendered = render_targets(&fixture(), Some("nonexistent"));
    assert!(rendered.contains("No tailnet machines are tagged `nonexistent`."));
}

#[test]
fn a_target_that_is_known_and_online_resolves() {
    let running = TailnetAvailability::Running(fixture());
    assert_eq!(
        resolve_target(&running, "gpu-box-1").unwrap(),
        "gpu-box-1.example-tailnet.ts.net"
    );
    assert!(resolve_target(&running, "gpu-box-2").is_err());
    assert!(resolve_target(&TailnetAvailability::NotInstalled, "gpu-box-1").is_err());
    assert!(resolve_target(
        &TailnetAvailability::NotRunning {
            backend_state: "Stopped".to_owned()
        },
        "gpu-box-1"
    )
    .unwrap_err()
    .headline()
    .contains("Stopped"));
}

#[test]
fn what_the_program_says_decides_what_is_available() {
    assert!(matches!(
        local_status(&StatusOutput::NotFound),
        Ok(TailnetAvailability::NotInstalled)
    ));
    assert!(local_status(&StatusOutput::Unlaunched("denied".to_owned()))
        .unwrap_err()
        .full()
        .contains("denied"));
    let up = local_status(&StatusOutput::Exited {
        success: true,
        stdout: FIXTURE.to_owned(),
        stderr: String::new(),
    })
    .unwrap();
    assert!(targets(&up, None).contains("This machine: laptop"));
    let down = local_status(&StatusOutput::Exited {
        success: true,
        stdout: FIXTURE.replace("\"Running\"", "\"Stopped\""),
        stderr: String::new(),
    })
    .unwrap();
    assert!(matches!(down, TailnetAvailability::NotRunning { .. }));
}
