use std::cell::RefCell;

use rocm::serve_port::{
    explicit_bind_error, parse_serve_port, probing, resolve_serve_port, validate_port_request,
    BindError, PortRequest, Probe, ReservedPort, ServePort, AUTO_PORT_FIRST, AUTO_PORT_LAST,
    AUTO_PORT_SPAN, DEFAULT_LOCAL_HOST,
};

fn reserved(port: u16, service_id: &str, status: &str) -> ReservedPort {
    ReservedPort {
        port,
        service_id: service_id.to_owned(),
        status: status.to_owned(),
    }
}

fn in_use() -> BindError {
    BindError {
        in_use: true,
        message: "scripted".to_owned(),
    }
}

fn other(message: &str) -> BindError {
    BindError {
        in_use: false,
        message: message.to_owned(),
    }
}

/// A probe that finds the given ports in use and leases any other.
fn scripted(occupied: Vec<u16>) -> impl Fn(u16) -> Result<u16, BindError> {
    move |port| {
        if occupied.contains(&port) {
            Err(in_use())
        } else {
            Ok(port)
        }
    }
}

#[test]
fn port_request_distinguishes_omitted_from_explicit() {
    assert_eq!(PortRequest::from_flag(None), PortRequest::Auto);
    assert!(PortRequest::from_flag(None).is_auto());
    assert_eq!(PortRequest::from_flag(None).explicit(), None);
    assert_eq!(
        PortRequest::from_flag(Some(8000)),
        PortRequest::Explicit(8000)
    );
    assert!(!PortRequest::from_flag(Some(8000)).is_auto());
    assert_eq!(PortRequest::from_flag(Some(8000)).explicit(), Some(8000));
}

#[test]
fn port_parser_rejects_zero_and_out_of_range_values() {
    assert_eq!(parse_serve_port("8000"), Ok(8000));
    assert_eq!(parse_serve_port(" 11435 "), Ok(11_435));
    assert_eq!(parse_serve_port("65535"), Ok(65_535));
    for bad in ["0", "65536", "-1", "eleven", ""] {
        let error = parse_serve_port(bad).expect_err("must be rejected");
        assert!(
            error.contains("between 1 and 65535"),
            "unexpected message for {bad:?}: {error}"
        );
    }
}

#[test]
fn a_port_is_read_as_a_number_is() {
    assert_eq!(parse_serve_port("+80"), Ok(80));
    assert_eq!(parse_serve_port("00080"), Ok(80));
    for bad in ["+", "++1", "1 2", "0x10", "99999999999999999999", "000"] {
        assert_eq!(
            parse_serve_port(bad),
            Err(format!(
                "port must be a number between 1 and 65535, got '{bad}'"
            ))
        );
    }
}

#[test]
fn automatic_range_is_exactly_the_documented_window() {
    assert_eq!(AUTO_PORT_FIRST, 11_435);
    assert_eq!(AUTO_PORT_LAST, 11_535);
    assert_eq!((AUTO_PORT_FIRST..=AUTO_PORT_LAST).count(), 101);
    assert_eq!(AUTO_PORT_FIRST + AUTO_PORT_SPAN, AUTO_PORT_LAST);
}

#[test]
fn automatic_is_refused_on_every_custom_host() {
    validate_port_request(DEFAULT_LOCAL_HOST, PortRequest::Auto).expect("canonical host is ok");
    for host in ["localhost", "::1", "0.0.0.0", "127.0.0.2", "10.0.0.5"] {
        let error = validate_port_request(host, PortRequest::Auto)
            .expect_err("automatic must be refused on a custom host");
        let message = error.full();
        assert!(message.contains("explicit `--port"), "{message}");
        assert!(message.contains(host), "{message}");
        validate_port_request(host, PortRequest::Explicit(8000))
            .expect("explicit port is valid on a custom host");
    }
}

#[test]
fn custom_host_explicit_port_bypasses_the_loopback_preflight() {
    let mut probe = probing(|_port: u16| -> Result<u16, BindError> {
        panic!("custom hosts must not be preflighted against IPv4 loopback")
    });
    let port = resolve_serve_port(
        "0.0.0.0",
        PortRequest::Explicit(11_435),
        &vec![reserved(11_435, "svc-a", "running")],
        &mut probe,
    )
    .expect("custom host explicit port is engine-owned");
    assert_eq!(port, ServePort::EngineOwned(11_435));
}

#[test]
fn resolving_auto_on_a_custom_host_errors_instead_of_panicking() {
    let mut probe = probing(|_port: u16| -> Result<u16, BindError> {
        panic!("a custom host must never be preflighted")
    });
    for host in ["localhost", "::1", "0.0.0.0", "10.0.0.5"] {
        let error = resolve_serve_port(host, PortRequest::Auto, &vec![], &mut probe)
            .expect_err("automatic selection is not supported on a custom host");
        let message = error.full();
        assert!(message.contains("explicit `--port"), "{message}");
        assert!(message.contains(host), "{message}");
    }
}

#[test]
fn explicit_loopback_port_outside_the_auto_range_is_retained() {
    let port = resolve_serve_port(
        DEFAULT_LOCAL_HOST,
        PortRequest::Explicit(8000),
        &vec![],
        &mut probing(scripted(vec![])),
    )
    .expect("a free explicit port is kept");
    assert_eq!(port, ServePort::Leased(8000));
}

#[test]
fn explicit_loopback_port_that_is_occupied_is_rejected() {
    let error = resolve_serve_port(
        DEFAULT_LOCAL_HOST,
        PortRequest::Explicit(8000),
        &vec![],
        &mut probing(scripted(vec![8000])),
    )
    .expect_err("an occupied explicit port must fail");
    let message = error.full();
    assert!(message.contains("127.0.0.1:8000"), "{message}");
    assert!(message.contains("already in use"), "{message}");
}

#[test]
fn explicit_loopback_port_reserved_by_a_live_service_names_that_service() {
    let mut probe = probing(|_port: u16| -> Result<u16, BindError> {
        panic!("a reserved port must be rejected before probing")
    });
    let error = resolve_serve_port(
        DEFAULT_LOCAL_HOST,
        PortRequest::Explicit(11_435),
        &vec![reserved(11_435, "vllm-qwen-1", "starting")],
        &mut probe,
    )
    .expect_err("a reserved explicit port must fail");
    let message = error.full();
    assert!(message.contains("vllm-qwen-1"), "{message}");
    assert!(message.contains("starting"), "{message}");
}

#[test]
fn automatic_takes_the_first_candidate_when_it_is_free() {
    let port = resolve_serve_port(
        DEFAULT_LOCAL_HOST,
        PortRequest::Auto,
        &vec![],
        &mut probing(scripted(vec![])),
    )
    .expect("first candidate is free");
    assert_eq!(port, ServePort::Leased(AUTO_PORT_FIRST));
}

#[test]
fn automatic_skips_occupied_candidates_until_one_binds() {
    let port = resolve_serve_port(
        DEFAULT_LOCAL_HOST,
        PortRequest::Auto,
        &vec![],
        &mut probing(scripted(vec![11_435, 11_436, 11_437])),
    )
    .expect("scan advances past occupied candidates");
    assert_eq!(port, ServePort::Leased(11_438));
}

#[test]
fn automatic_skips_ports_reserved_by_live_records_without_probing_them() {
    let probed: RefCell<Vec<u16>> = RefCell::new(Vec::new());
    let port = resolve_serve_port(
        DEFAULT_LOCAL_HOST,
        PortRequest::Auto,
        &vec![
            reserved(11_435, "svc-ready", "ready"),
            reserved(11_436, "svc-recovering", "recovering"),
        ],
        &mut probing(|port: u16| -> Result<u16, BindError> {
            probed.borrow_mut().push(port);
            Ok(port)
        }),
    )
    .expect("scan skips reserved candidates");
    assert_eq!(port, ServePort::Leased(11_437));
    assert_eq!(*probed.borrow(), vec![11_437]);
}

#[test]
fn automatic_stops_immediately_on_a_non_collision_bind_error() {
    for kind in ["permission denied", "address not available"] {
        let error = resolve_serve_port(
            DEFAULT_LOCAL_HOST,
            PortRequest::Auto,
            &vec![],
            &mut probing(|port: u16| -> Result<u16, BindError> {
                if port == 11_435 {
                    Err(other(kind))
                } else {
                    Ok(port)
                }
            }),
        )
        .expect_err("only a port in use may advance the scan");
        let message = error.full();
        assert!(message.contains("127.0.0.1:11435"), "{message}");
    }
}

#[test]
fn explicit_non_collision_bind_error_reports_host_port_and_os_detail() {
    let error = resolve_serve_port(
        DEFAULT_LOCAL_HOST,
        PortRequest::Explicit(80),
        &vec![],
        &mut probing(|_port: u16| -> Result<u16, BindError> { Err(other("permission denied")) }),
    )
    .expect_err("a privileged port must fail");
    let message = error.full();
    assert!(message.contains("127.0.0.1:80"), "{message}");
    assert!(message.contains("permission denied"), "{message}");
    assert_eq!(
        explicit_bind_error(80, &other("permission denied")).headline(),
        "failed to reserve 127.0.0.1:80: permission denied"
    );
}

#[test]
fn automatic_exhaustion_reports_the_exact_scanned_range() {
    let error = resolve_serve_port(
        DEFAULT_LOCAL_HOST,
        PortRequest::Auto,
        &vec![],
        &mut probing(|_port: u16| -> Result<u16, BindError> { Err(in_use()) }),
    )
    .expect_err("an exhausted range must fail");
    let message = error.full();
    assert!(message.contains("11435–11535"), "{message}");
}

#[test]
fn candidates_are_tried_once_each_in_ascending_order() {
    let asked: RefCell<Vec<u16>> = RefCell::new(Vec::new());
    let port = resolve_serve_port(
        DEFAULT_LOCAL_HOST,
        PortRequest::Auto,
        &vec![reserved(11_436, "svc-ready", "ready")],
        &mut probing(|port: u16| -> Result<u16, BindError> {
            asked.borrow_mut().push(port);
            if port < 11_439 {
                Err(in_use())
            } else {
                Ok(port)
            }
        }),
    );
    assert_eq!(port.expect("one is free"), ServePort::Leased(11_439));
    assert_eq!(*asked.borrow(), vec![11_435, 11_437, 11_438, 11_439]);
}

/// Leases every port and counts.
struct Counting {
    asked: Vec<u16>,
}

impl Probe<u16> for Counting {
    fn bind(&mut self, port: u16) -> Result<u16, BindError> {
        self.asked.push(port);
        Ok(port)
    }
}

#[test]
fn a_named_port_is_tried_once() {
    let mut probe = Counting { asked: Vec::new() };
    for port in [8000, 80] {
        let settled = resolve_serve_port(
            DEFAULT_LOCAL_HOST,
            PortRequest::Explicit(port),
            &vec![reserved(80, "svc", "ready")],
            &mut probe,
        );
        assert_eq!(settled.is_ok(), port == 8000);
    }
    assert_eq!(probe.asked, vec![8000]);
}
