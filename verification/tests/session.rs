use rocm::failure::Failure;
use rocm::remote::session::{
    is_record_name, load_all, name_taken, resolve, NameOnDisk, RecordFile, RemoteSessionRecord,
};

fn sample(peer_host: &str, remote_port: u16) -> RemoteSessionRecord {
    RemoteSessionRecord {
        session_id: RemoteSessionRecord::id_for(peer_host, remote_port),
        target: peer_host.split('.').next().unwrap_or(peer_host).to_owned(),
        peer_host: peer_host.to_owned(),
        ssh_port: None,
        model: "qwen".to_owned(),
        remote_service_id: "svc-1".to_owned(),
        remote_cli: "rocm".to_owned(),
        remote_port,
        tailnet_port: 8000,
        base_url: format!("http://{peer_host}:8000/v1"),
        created_at_unix_ms: 1,
    }
}

/// The rules on ids: no traversal, no separator, not empty.
fn verdict(id: &str) -> Result<(), Failure> {
    if id.is_empty() || id.contains("..") || id.contains(['/', '\\']) {
        return Err(Failure::new(format!("`{id}` is not a service id")));
    }
    Ok(())
}

fn file(name: &str, read: Result<RemoteSessionRecord, Failure>) -> RecordFile {
    RecordFile {
        name: name.to_owned(),
        path: format!("/s/{name}"),
        verdict: match &read {
            Ok(record) => verdict(&record.session_id),
            Err(_) => Ok(()),
        },
        read,
    }
}

#[test]
fn a_session_id_is_stable_and_safe_as_a_filename() {
    let first = RemoteSessionRecord::id_for("gpu-box-1.example-tailnet.ts.net", 11434);
    let second = RemoteSessionRecord::id_for("gpu-box-1.example-tailnet.ts.net", 11434);
    assert_eq!(first, second);
    assert_ne!(first, RemoteSessionRecord::id_for("gpu-box-1", 11435));

    for id in [
        RemoteSessionRecord::id_for("gpu-box-1.example-tailnet.ts.net", 11434),
        RemoteSessionRecord::id_for("fd7a:115c:a1e0::3", 11434),
    ] {
        assert!(
            id.chars().all(|c| c.is_ascii_alphanumeric() || c == '-'),
            "not filename-safe: {id}"
        );
    }
}

#[test]
fn an_unreadable_record_does_not_hide_the_others() {
    let (loaded, warnings) = load_all(vec![
        file(
            "a.json",
            Ok(sample("gpu-box-1.example-tailnet.ts.net", 11434)),
        ),
        file(
            "truncated.json",
            Err(Failure::new("EOF while parsing".to_owned())),
        ),
    ]);
    assert_eq!(loaded.len(), 1);
    assert_eq!(loaded[0].peer_host, "gpu-box-1.example-tailnet.ts.net");
    assert_eq!(warnings.len(), 1);
    assert!(warnings[0].contains("/s/truncated.json"), "{warnings:?}");
}

#[test]
fn a_record_with_an_unusable_id_is_refused_rather_than_followed() {
    let mut planted = sample("gpu-box.example-tailnet.ts.net", 11434);
    planted.session_id = "../../escaped".to_owned();
    let (loaded, warnings) = load_all(vec![
        file("planted.json", Ok(planted)),
        file(
            "other.json",
            Ok(sample("other-box.example-tailnet.ts.net", 11434)),
        ),
    ]);
    assert_eq!(loaded.len(), 1);
    assert_eq!(loaded[0].peer_host, "other-box.example-tailnet.ts.net");
    assert_eq!(warnings.len(), 1);
    assert!(warnings[0].contains("/s/planted.json"), "{warnings:?}");

    for bad in ["../../escaped", "a/b", "a\\b", ""] {
        let refused = RemoteSessionRecord::validate_id(bad, verdict(bad))
            .expect_err("an unusable id is refused");
        assert_eq!(
            refused.headline(),
            format!("unusable remote session id `{bad}`")
        );
        assert!(refused.full().contains("is not a service id"));
    }
    assert!(RemoteSessionRecord::validate_id(
        "remote-gpu-box-11434",
        verdict("remote-gpu-box-11434")
    )
    .is_ok());
}

#[test]
fn only_records_are_read() {
    assert!(is_record_name("remote-x-1.json"));
    for other in [".json", "json", "remote-x-1.endpoint-key", "remote-x-1.json.tmp"] {
        assert!(!is_record_name(other), "{other}");
    }
    let (loaded, warnings) = load_all(vec![
        file("a.endpoint-key", Ok(sample("alpha", 1))),
        file("b.json", Ok(sample("beta", 1))),
        file("c.txt", Err(Failure::new("not a record".to_owned()))),
    ]);
    assert_eq!(loaded.len(), 1);
    assert_eq!(loaded[0].session_id, "remote-beta-1");
    assert!(warnings.is_empty());
}

#[test]
fn a_session_resolves_by_id_or_by_an_unambiguous_fragment() {
    let first = sample("gpu-box-1.example-tailnet.ts.net", 11434);
    let second = sample("other-box.example-tailnet.ts.net", 11434);
    let sessions = vec![first.clone(), second.clone()];

    assert_eq!(resolve(&sessions, &first.session_id).unwrap(), first);
    assert_eq!(resolve(&sessions, "gpu-box-1").unwrap(), first);
    assert_eq!(resolve(&sessions, "other").unwrap(), second);
}

#[test]
fn an_ambiguous_session_is_refused_rather_than_guessed() {
    let sessions = vec![
        sample("gpu-box-1.example-tailnet.ts.net", 11434),
        sample("gpu-box-2.example-tailnet.ts.net", 11434),
    ];

    let error = resolve(&sessions, "gpu-box").unwrap_err().headline();
    assert!(error.contains("gpu-box-1"), "{error}");
    assert!(error.contains("gpu-box-2"), "{error}");

    let unknown = resolve(&sessions, "nothing-like-this")
        .unwrap_err()
        .headline();
    assert!(
        unknown.contains("Recorded sessions"),
        "an unmatched name should list what does exist: {unknown}"
    );
    assert!(resolve(&vec![], "x").is_err());
}

#[test]
fn a_name_that_two_sessions_bear_is_refused() {
    let mut small = sample("alpha", 1);
    small.session_id = "remote-x-1".to_owned();
    let mut large = sample("beta", 1);
    large.session_id = "REMOTE-X-1".to_owned();
    let sessions = vec![large.clone(), small.clone()];
    assert_eq!(resolve(&sessions, "remote-x-1").unwrap(), small);
    assert_eq!(resolve(&sessions, "REMOTE-X-1").unwrap(), large);
    let error = resolve(&sessions, "Remote-X-1").unwrap_err().headline();
    assert_eq!(
        error,
        "`Remote-X-1` matches more than one remote session: REMOTE-X-1, remote-x-1\n\
         Name one of them exactly."
    );
    assert!(resolve(&vec![small.clone(), small.clone()], "remote-x-1").is_err());
    assert_eq!(resolve(&vec![large.clone()], "remote-x-1").unwrap(), large);
}

#[test]
fn sessions_are_listed_by_name() {
    let (loaded, _) = load_all(vec![
        file("b.json", Ok(sample("zeta", 1))),
        file("a.json", Ok(sample("alpha", 1))),
    ]);
    let names: Vec<&str> = loaded.iter().map(|r| r.session_id.as_str()).collect();
    assert_eq!(names, vec!["remote-alpha-1", "remote-zeta-1"]);
}

#[test]
fn a_credential_is_kept_beside_its_session() {
    assert_eq!(
        RemoteSessionRecord::record_file_name("remote-x-1"),
        "remote-x-1.json"
    );
    assert_eq!(
        RemoteSessionRecord::key_file_name("remote-x-1"),
        "remote-x-1.endpoint-key"
    );
}

#[test]
fn a_credential_alone_holds_its_name() {
    assert!(name_taken(NameOnDisk {
        record: false,
        key: true
    }));
    assert!(name_taken(NameOnDisk {
        record: true,
        key: false
    }));
    assert!(!name_taken(NameOnDisk {
        record: false,
        key: false
    }));
}
