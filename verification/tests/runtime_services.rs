use rocm::failure::Failure;
use rocm::runtime_services::{
    bail_on_failed_service_restarts, classify_service_runtime_state,
    ensure_service_restart_approved, pin_service_record_to_runtime,
    reconcile_services_for_runtime, render_runtime_service_reconciliation,
    restart_service_onto_runtime, restart_stale_runtime_services, restore_service_record_pin,
    service_restart_audit_outcome, service_still_serving, FailedServiceRestart, MoveEvent,
    MoveStep, RestartOutcome, RuntimeServiceEntry, RuntimeServiceReconciliation, ServiceRecord, ServiceRuntimeState,
};

fn failed(service_id: &str) -> FailedServiceRestart {
    FailedServiceRestart {
        service_id: service_id.to_owned(),
        error: "restart refused".to_owned(),
    }
}

#[test]
fn an_activation_that_restarted_nothing_audits_as_plain_info() {
    let services = RuntimeServiceReconciliation::default();
    assert_eq!(
        service_restart_audit_outcome(&services),
        ("info", String::new())
    );
}

#[test]
fn restarts_that_all_succeeded_audit_as_info_naming_the_count() {
    let services = RuntimeServiceReconciliation {
        restarted: vec!["svc-a".to_owned(), "svc-b".to_owned()],
        restart_attempted: true,
        ..RuntimeServiceReconciliation::default()
    };
    assert_eq!(
        service_restart_audit_outcome(&services),
        ("info", " services_restarted=2".to_owned())
    );
}

#[test]
fn a_failed_restart_audits_as_warn_naming_both_counts() {
    let services = RuntimeServiceReconciliation {
        restarted: vec!["svc-a".to_owned()],
        failed: vec![failed("svc-b")],
        restart_attempted: true,
        ..RuntimeServiceReconciliation::default()
    };
    assert_eq!(
        service_restart_audit_outcome(&services),
        (
            "warn",
            " services_restarted=1 services_restart_failed=1".to_owned()
        )
    );
}

#[test]
fn restarts_that_all_failed_still_report_the_zero() {
    let services = RuntimeServiceReconciliation {
        failed: vec![failed("svc-a"), failed("svc-b")],
        restart_attempted: true,
        ..RuntimeServiceReconciliation::default()
    };
    assert_eq!(
        service_restart_audit_outcome(&services),
        (
            "warn",
            " services_restarted=0 services_restart_failed=2".to_owned()
        )
    );
}

fn record(service_id: &str, runtime_id: Option<&str>) -> ServiceRecord {
    ServiceRecord {
        service_id: service_id.to_owned(),
        engine: "vllm".to_owned(),
        runtime_id: runtime_id.map(str::to_owned),
        env_id: Some("env-1".to_owned()),
        live: true,
        manages_own_runtime: false,
        selected_key: None,
    }
}

#[test]
fn a_record_is_classified_by_what_it_recorded() {
    let stale = record("a", Some("old-key"));
    assert!(matches!(
        classify_service_runtime_state(&stale, "new-key"),
        ServiceRuntimeState::Stale { recorded } if recorded == "old-key"
    ));
    assert!(matches!(
        classify_service_runtime_state(&record("a", Some("new-key")), "new-key"),
        ServiceRuntimeState::Matches
    ));
    // An environment is no pin: without a runtime nothing is known.
    assert!(matches!(
        classify_service_runtime_state(&record("a", None), "new-key"),
        ServiceRuntimeState::Unknown
    ));
    let mut family = record("a", Some("therock-release:gfx120X-all"));
    family.selected_key = Some("new-key".to_owned());
    assert!(matches!(
        classify_service_runtime_state(&family, "new-key"),
        ServiceRuntimeState::Matches
    ));
    let mut own = record("a", Some("lemonade-embeddable-1"));
    own.manages_own_runtime = true;
    assert!(matches!(
        classify_service_runtime_state(&own, "new-key"),
        ServiceRuntimeState::Matches
    ));
}

#[test]
fn only_live_servers_left_behind_are_named() {
    let mut dead = record("dead", Some("old-key"));
    dead.live = false;
    let records = vec![
        record("left", Some("old-key")),
        dead,
        record("on-it", Some("new-key")),
        record("unsaid", None),
    ];
    let services = reconcile_services_for_runtime(&records, "new-key");
    assert_eq!(
        services.stale,
        vec![RuntimeServiceEntry {
            service_id: "left".to_owned(),
            engine: "vllm".to_owned(),
            recorded_runtime: Some("old-key".to_owned()),
        }]
    );
    assert_eq!(services.unknown.len(), 1);
    assert_eq!(
        render_runtime_service_reconciliation(&services, "new-key"),
        "  services_on_previous_runtime: 1\n    \
         - left engine=vllm recorded_runtime=old-key\n  \
         services_with_unrecorded_runtime: 1\n    \
         - unsaid engine=vllm recorded_runtime=<unset>\n  \
         note: those keep serving on their recorded runtime until they are restarted; run \
         `rocm runtimes activate new-key --restart-services --yes` to move them\n"
    );
    assert_eq!(
        render_runtime_service_reconciliation(
            &RuntimeServiceReconciliation::default(),
            "new-key"
        ),
        "  services_on_previous_runtime: 0\n"
    );
}

#[test]
fn restarting_takes_an_explicit_yes() {
    assert!(ensure_service_restart_approved(false, false, "activate x").is_ok());
    assert!(ensure_service_restart_approved(true, true, "activate x").is_ok());
    assert_eq!(
        ensure_service_restart_approved(true, false, "activate x")
            .unwrap_err()
            .headline(),
        "restarting running local servers requires --yes.\n\n\
         Try: rocm runtimes activate x --restart-services --yes"
    );
}

#[test]
fn a_server_that_failed_to_move_stays_counted_only_while_it_serves() {
    let records = vec![
        record("moved", Some("old")),
        record("down", Some("old")),
        record("up", Some("old")),
    ];
    let mut services = reconcile_services_for_runtime(&records, "new");
    restart_stale_runtime_services(
        &mut services,
        &vec![
            RestartOutcome::Moved,
            RestartOutcome::Failed {
                error: Failure::new("no memory".to_owned()).context("starting".to_owned()),
                serving: None,
            },
            RestartOutcome::Failed {
                error: Failure::new("no key".to_owned()),
                serving: Some(Some("old".to_owned())),
            },
        ],
    );
    assert!(services.restart_attempted);
    assert_eq!(services.restarted, vec!["moved"]);
    assert_eq!(services.failed.len(), 2);
    assert_eq!(services.failed[0].error, "starting: no memory");
    assert_eq!(services.stale.len(), 1);
    assert_eq!(services.stale[0].service_id, "up");

    let rendered = render_runtime_service_reconciliation(&services, "new");
    assert!(!rendered.contains("--restart-services"), "{rendered}");
    let message = bail_on_failed_service_restarts(&services)
        .unwrap_err()
        .headline();
    assert!(
        message.contains("no longer serving: down."),
        "{message}"
    );
    assert!(
        message.contains("services_on_previous_runtime: up."),
        "{message}"
    );
    assert!(message.starts_with("the runtime was switched, but 2 local server(s)"));
    assert!(bail_on_failed_service_restarts(&RuntimeServiceReconciliation::default()).is_ok());
}

#[test]
fn a_pin_can_be_taken_back() {
    let mut service = record("a", Some("old"));
    let pin = pin_service_record_to_runtime(&mut service, "new");
    assert_eq!(service.runtime_id.as_deref(), Some("new"));
    assert_eq!(service.env_id, None);
    restore_service_record_pin(&mut service, pin);
    assert_eq!(service.runtime_id.as_deref(), Some("old"));
    assert_eq!(service.env_id.as_deref(), Some("env-1"));
}

fn refused() -> Failure {
    Failure::new("refused".to_owned())
}

/// Reads, pins and restarts, and hands back what follows a restart that failed.
fn after_failed_restart(record: ServiceRecord) -> (ServiceRecord, MoveStep) {
    let MoveStep::Pin { record, pin } =
        restart_service_onto_runtime(MoveEvent::Loaded(Ok(record)), "new")
    else {
        panic!("a record that was read is pinned");
    };
    assert_eq!(record.runtime_id.as_deref(), Some("new"));
    assert_eq!(record.env_id, None);
    let MoveStep::Restart { pin } = restart_service_onto_runtime(
        MoveEvent::Pinned {
            pin,
            written: Ok(()),
        },
        "new",
    ) else {
        panic!("a pinned record is restarted from");
    };
    let next = restart_service_onto_runtime(
        MoveEvent::Restarted {
            pin,
            restarted: Err(refused()),
        },
        "new",
    );
    (record, next)
}

#[test]
fn a_server_is_moved_by_its_record_and_then_a_restart() {
    let MoveStep::Pin { pin, .. } =
        restart_service_onto_runtime(MoveEvent::Loaded(Ok(record("a", Some("old")))), "new")
    else {
        panic!("a record that was read is pinned");
    };
    let done = restart_service_onto_runtime(
        MoveEvent::Restarted {
            pin,
            restarted: Ok(()),
        },
        "new",
    );
    assert!(matches!(done, MoveStep::Done(Ok(()))));
}

#[test]
fn a_record_that_cannot_be_read_or_written_is_not_restarted_from() {
    let unread = restart_service_onto_runtime(MoveEvent::Loaded(Err(refused())), "new");
    assert!(matches!(unread, MoveStep::Done(Err(_))));
    let MoveStep::Pin { pin, .. } =
        restart_service_onto_runtime(MoveEvent::Loaded(Ok(record("a", Some("old")))), "new")
    else {
        panic!("a record that was read is pinned");
    };
    let unwritten = restart_service_onto_runtime(
        MoveEvent::Pinned {
            pin,
            written: Err(refused()),
        },
        "new",
    );
    assert!(matches!(unwritten, MoveStep::Done(Err(_))));
}

#[test]
fn a_failed_restart_puts_the_record_back() {
    let (pinned, next) = after_failed_restart(record("a", Some("old")));
    let MoveStep::Reload { pin, error } = next else {
        panic!("the record is read again");
    };
    let MoveStep::PutBack { record, error } = restart_service_onto_runtime(
        MoveEvent::Reloaded {
            pin,
            error,
            record: Ok(pinned),
        },
        "new",
    ) else {
        panic!("the record is put back");
    };
    assert_eq!(record.runtime_id.as_deref(), Some("old"));
    assert_eq!(record.env_id.as_deref(), Some("env-1"));
    match restart_service_onto_runtime(
        MoveEvent::PutBack {
            error,
            written: Ok(()),
        },
        "new",
    ) {
        MoveStep::Done(Err(failure)) => assert_eq!(failure.full(), "refused"),
        other => panic!("{other:?}"),
    }
}

#[test]
fn a_failed_restart_tells_if_its_record_could_not_be_put_back() {
    let unwritten = restart_service_onto_runtime(
        MoveEvent::PutBack {
            error: refused(),
            written: Err(Failure::new("read-only".to_owned())),
        },
        "new",
    );
    let (_, next) = after_failed_restart(record("a", Some("old")));
    let MoveStep::Reload { pin, error } = next else {
        panic!("the record is read again");
    };
    let unread = restart_service_onto_runtime(
        MoveEvent::Reloaded {
            pin,
            error,
            record: Err(Failure::new("read-only".to_owned())),
        },
        "new",
    );
    for step in [unwritten, unread] {
        let MoveStep::Done(Err(failure)) = step else {
            panic!("the move failed");
        };
        let both = failure.full();
        assert!(both.contains("(read-only), so it now names `new`"), "{both}");
        assert!(both.ends_with(": refused"), "{both}");
    }
}

#[test]
fn a_record_that_cannot_be_read_is_not_serving() {
    assert!(service_still_serving(Err(Failure::new("gone".to_owned()))).is_none());
    assert!(service_still_serving(Ok(record("a", None))).is_some());
    let mut dead = record("a", None);
    dead.live = false;
    assert!(service_still_serving(Ok(dead)).is_none());
}
