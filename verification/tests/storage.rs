use rocm::failure::Failure;
use rocm::storage::command::{
    after_downloads_review, after_installs_review, approved, downloads_removed_line,
    removal_failure, removed_line, NextStep,
};
use rocm::storage::downloads::{
    build_downloads_plan, render_downloads_plan, DownloadFolder, FoundDownload,
};
use rocm::storage::measure::{measure_path, Folder, Measurement, PathUsage, WalkEntry, WalkRoot};
use rocm::storage::prune::{build_prune_plan, render_prune_plan, Judgement};
use rocm::storage::report::{
    build_report, render_report, shared_model_cache_dir, shared_uv_cache_dir, MeasuredRuntime,
    StorageFolders,
};
use rocm::storage::retention::{
    select_runtimes_to_remove, unconditional_hold, ActiveRuntimeMarker, HoldReason,
    InstalledRuntimeManifest, RetentionInputs, RuntimeConfig, DEFAULT_KEEP,
};

/// Sizes as the program shows them: the largest binary unit that they fill, with
/// one digit behind the point.
fn size(bytes: u64) -> String {
    let units = ["KiB", "MiB", "GiB", "TiB"];
    if bytes < 1024 {
        return format!("{bytes} B");
    }
    let mut value = bytes as f64 / 1024.0;
    let mut unit = 0;
    while value >= 1024.0 && unit + 1 < units.len() {
        value /= 1024.0;
        unit += 1;
    }
    format!("{value:.1} {}", units[unit])
}

fn manifest(
    runtime_key: &str,
    family: &str,
    version: &str,
    installed_at_unix_ms: u128,
) -> InstalledRuntimeManifest {
    InstalledRuntimeManifest {
        runtime_key: runtime_key.to_owned(),
        runtime_id: format!("therock-release:{family}"),
        channel: "release".to_owned(),
        format: "wheel".to_owned(),
        family: family.to_owned(),
        version: version.to_owned(),
        install_root: format!("rocm-storage-test/{runtime_key}"),
        read_only: false,
        imported_from: None,
        installed_at_unix_ms,
    }
}

// -- which installs may go -------------------------------------------------

#[test]
fn keeps_the_most_recent_installs_per_family_and_removes_the_rest() {
    let manifests = vec![
        manifest("release-wheel-gfx110x-1", "gfx110X-all", "7.10.0", 10),
        manifest("release-wheel-gfx110x-2", "gfx110X-all", "7.11.0", 20),
        manifest("release-wheel-gfx110x-3", "gfx110X-all", "7.12.0", 30),
        manifest("release-wheel-gfx120x-1", "gfx120X-all", "7.12.0", 5),
    ];

    let (removable, held) =
        select_runtimes_to_remove(&manifests, &RetentionInputs::default(), DEFAULT_KEEP);

    assert_eq!(removable, vec!["release-wheel-gfx110x-1".to_owned()]);
    let kept: Vec<&str> = held.iter().map(|(key, _)| key.as_str()).collect();
    assert_eq!(
        kept,
        vec![
            "release-wheel-gfx110x-2",
            "release-wheel-gfx110x-3",
            "release-wheel-gfx120x-1",
        ]
    );
    assert!(held
        .iter()
        .all(|(_, reason)| *reason == HoldReason::WithinKeepLimit));
}

#[test]
fn never_selects_the_active_previous_default_or_marked_install() {
    let manifests = vec![
        manifest("active", "gfx110X-all", "7.10.0", 1),
        manifest("previous", "gfx110X-all", "7.10.0", 2),
        manifest("marked", "gfx110X-all", "7.10.0", 3),
        manifest("by-default-id", "gfx120X-all", "7.10.0", 4),
        manifest("plain-old", "gfx110X-all", "7.10.0", 5),
        manifest("plain-new", "gfx110X-all", "7.11.0", 6),
    ];
    let inputs = RetentionInputs {
        active_runtime_key: Some("ACTIVE".to_owned()),
        previous_runtime_key: Some("previous".to_owned()),
        default_runtime_id: Some("therock-release:gfx120X-all".to_owned()),
        marker_runtime_keys: vec!["marked".to_owned()],
    };

    let (removable, held) = select_runtimes_to_remove(&manifests, &inputs, 0);

    assert_eq!(
        removable,
        vec!["plain-new".to_owned(), "plain-old".to_owned()]
    );
    let reason = |key: &str| {
        held.iter()
            .find(|(held_key, _)| held_key == key)
            .map(|(_, reason)| *reason)
    };
    assert_eq!(reason("active"), Some(HoldReason::Active));
    assert_eq!(reason("previous"), Some(HoldReason::Previous));
    assert_eq!(reason("by-default-id"), Some(HoldReason::Default));
    assert_eq!(reason("marked"), Some(HoldReason::Marker));
}

#[test]
fn never_selects_adopted_imported_or_read_only_installs() {
    let mut adopted = manifest("adopted", "gfx110X-all", "7.10.0", 1);
    adopted.read_only = true;
    let mut imported = manifest("imported", "gfx110X-all", "7.10.0", 2);
    imported.imported_from = Some(["elsewhere/manifest", "json"].join("."));
    let manifests = vec![adopted, imported];

    let (removable, held) = select_runtimes_to_remove(&manifests, &RetentionInputs::default(), 0);

    assert!(removable.is_empty());
    assert!(held
        .iter()
        .all(|(_, reason)| *reason == HoldReason::NotOwned));
}

#[test]
fn installs_of_one_age_are_kept_by_key() {
    let manifests = vec![
        manifest("c", "f", "1", 7),
        manifest("a", "F", "1", 7),
        manifest("b", "f", "1", 7),
    ];
    let (removable, held) = select_runtimes_to_remove(&manifests, &RetentionInputs::default(), 2);
    assert_eq!(removable, vec!["c"]);
    let kept: Vec<&str> = held.iter().map(|(key, _)| key.as_str()).collect();
    assert_eq!(kept, vec!["a", "b"]);
}

#[test]
fn every_install_is_in_exactly_one_of_the_lists() {
    let manifests: Vec<InstalledRuntimeManifest> = (0..9)
        .map(|n| manifest(&format!("k{n}"), &format!("fam{}", n % 2), "1", n))
        .collect();
    let (removable, held) = select_runtimes_to_remove(&manifests, &RetentionInputs::default(), 3);
    assert_eq!(removable.len() + held.len(), 9);
    assert_eq!(removable, vec!["k0", "k1", "k2"]);
}

#[test]
fn the_marker_holds_both_keys_it_names() {
    let config = RuntimeConfig {
        active_runtime_key: None,
        previous_runtime_key: None,
        default_runtime_id: None,
    };
    let marker = Some(ActiveRuntimeMarker {
        runtime_key: "now".to_owned(),
        previous_runtime_key: Some("before".to_owned()),
    });
    let inputs = RetentionInputs::from_config(&config, &marker);
    assert_eq!(inputs.marker_runtime_keys, vec!["now", "before"]);
    assert_eq!(
        unconditional_hold(&manifest("BEFORE", "f", "1", 1), &inputs),
        Some(HoldReason::Marker)
    );
    assert_eq!(
        unconditional_hold(&manifest("other", "f", "1", 1), &inputs),
        None
    );
}

#[test]
fn every_reason_has_its_words() {
    let words: Vec<&str> = [
        HoldReason::Active,
        HoldReason::Previous,
        HoldReason::Default,
        HoldReason::Marker,
        HoldReason::NotOwned,
        HoldReason::WithinKeepLimit,
    ]
    .iter()
    .map(HoldReason::describe)
    .collect();
    assert_eq!(
        words,
        vec![
            "in use right now",
            "the rollback target for `rocm runtimes rollback`",
            "the configured default",
            "named by the active install marker",
            "added with adopt or import, so ROCm CLI does not own the folder",
            "one of the most recent installs kept for this GPU family",
        ]
    );
}

// -- the plan --------------------------------------------------------------

fn owned(bytes: u64) -> Judgement {
    Judgement {
        protected: false,
        owned: Ok(true),
        bytes,
    }
}

#[test]
fn prune_plan_skips_installs_without_a_matching_in_tree_manifest() {
    let manifests = vec![
        manifest("old", "gfx110X-all", "7.10.0", 10),
        manifest("newer", "gfx110X-all", "7.11.0", 20),
        manifest("unowned", "gfx110X-all", "7.9.0", 5),
    ];
    let judged = vec![
        owned(2048),
        owned(1024),
        Judgement {
            protected: false,
            owned: Ok(false),
            bytes: 512,
        },
    ];
    let plan = build_prune_plan(&manifests, &judged, &RetentionInputs::default(), 1);

    let removed: Vec<&str> = plan
        .remove
        .iter()
        .map(|entry| entry.runtime_key.as_str())
        .collect();
    assert_eq!(removed, vec!["old"]);
    assert!(plan.remove[0].size_bytes >= 2048);
    assert!(
        plan.skipped
            .iter()
            .any(|line| line.starts_with("unowned: ROCm CLI did not create this folder")),
        "unowned install must be reported as left alone: {:?}",
        plan.skipped
    );
    assert!(
        plan.skipped.iter().any(|line| line.starts_with("newer:")),
        "kept install must be reported: {:?}",
        plan.skipped
    );

    let rendered = render_prune_plan(&plan, 1, true, &size);
    assert!(rendered.contains("1 install(s) would be removed"));
    assert!(rendered.contains("Left alone:"));
    assert!(rendered.contains("Nothing was changed."));
}

#[test]
fn a_plan_is_rendered_line_by_line() {
    let manifests = vec![manifest("old", "f", "7.10.0", 1)];
    let plan = build_prune_plan(
        &manifests,
        &vec![owned(2048)],
        &RetentionInputs::default(),
        0,
    );
    assert_eq!(
        render_prune_plan(&plan, 0, false, &size),
        "Old ROCm install review\n\n\
         Keeping the 0 most recent install(s) for each channel, format, and GPU family.\n\n\
         1 install(s) would be removed, freeing about 2.0 KiB:\n  \
         - old version=7.10.0 2.0 KiB (rocm-storage-test/old)\n"
    );
}

#[test]
fn a_protected_folder_and_one_that_cannot_be_judged_are_left_alone() {
    let manifests = vec![manifest("a", "f", "1", 1), manifest("b", "f", "1", 2)];
    let judged = vec![
        Judgement {
            protected: true,
            owned: Ok(true),
            bytes: 1,
        },
        Judgement {
            protected: false,
            owned: Err(Failure::new("a link leads out of it".to_owned())),
            bytes: 1,
        },
    ];
    let plan = build_prune_plan(&manifests, &judged, &RetentionInputs::default(), 0);
    assert!(plan.remove.is_empty());
    assert_eq!(
        plan.skipped,
        vec![
            "a: folder rocm-storage-test/a is in a protected system location",
            "b: cannot be removed safely (a link leads out of it)",
        ]
    );
    assert!(render_prune_plan(&plan, 0, false, &size).contains("Nothing would be removed."));
}

#[test]
fn as_many_stay_as_are_to_be_kept_whatever_the_order_of_the_list() {
    let list = |order: &[u128]| -> Vec<InstalledRuntimeManifest> {
        order
            .iter()
            .map(|n| manifest(&format!("k{n}"), "f", "1", *n / 2))
            .collect()
    };
    let orders: [[u128; 5]; 3] = [[0, 1, 2, 3, 4], [4, 3, 2, 1, 0], [2, 0, 4, 1, 3]];
    let mut fewer: Option<Vec<String>> = None;
    for keep in 0..7 {
        let (removable, held) =
            select_runtimes_to_remove(&list(&orders[0]), &RetentionInputs::default(), keep);
        assert_eq!(held.len(), keep.min(5));
        assert_eq!(removable.len(), 5 - keep.min(5));
        for order in &orders {
            let (again, kept) =
                select_runtimes_to_remove(&list(order), &RetentionInputs::default(), keep);
            assert_eq!(again, removable);
            assert_eq!(kept, held);
        }
        if let Some(before) = fewer {
            assert!(removable.iter().all(|key| before.contains(key)));
        }
        fewer = Some(removable);
    }
}

// -- measuring and the report ----------------------------------------------

#[test]
fn measuring_a_missing_path_reports_an_incomplete_zero() {
    assert_eq!(
        measure_path(WalkRoot::Missing, &vec![]),
        Measurement {
            bytes: 0,
            complete: false
        }
    );
}

#[test]
fn a_walk_totals_what_it_could_read() {
    assert_eq!(
        measure_path(WalkRoot::File(9), &vec![]),
        Measurement {
            bytes: 9,
            complete: true
        }
    );
    let entries = vec![WalkEntry::Folder, WalkEntry::File(3), WalkEntry::File(4)];
    assert_eq!(
        measure_path(WalkRoot::Folder, &entries),
        Measurement {
            bytes: 7,
            complete: true
        }
    );
    let partly = vec![WalkEntry::File(u64::MAX), WalkEntry::Unreadable, WalkEntry::File(4)];
    assert_eq!(
        measure_path(WalkRoot::Folder, &partly),
        Measurement {
            bytes: u64::MAX,
            complete: false
        }
    );
}

fn folder(path: &str, measured: Option<Measurement>) -> Folder {
    Folder {
        path: path.to_owned(),
        measured,
    }
}

fn folders() -> StorageFolders {
    StorageFolders {
        downloads: folder("/c/therock", None),
        tools: folder("/c/tools", None),
        cache: folder(
            "/c",
            Some(Measurement {
                bytes: 1536,
                complete: true,
            }),
        ),
        data: folder(
            "/d",
            Some(Measurement {
                bytes: 10,
                complete: false,
            }),
        ),
        models: folder("/d/models", None),
        uv_cache: Some(folder("/h/.cache/uv", None)),
        hugging_face: None,
    }
}

#[test]
fn report_lists_install_sizes_and_labels_shared_caches() {
    let runtimes = vec![MeasuredRuntime {
        manifest: manifest("in-use", "gfx110X-all", "7.12.0", 20),
        measured: Some(Measurement {
            bytes: 4096,
            complete: true,
        }),
    }];
    let inputs = RetentionInputs {
        active_runtime_key: Some("in-use".to_owned()),
        ..RetentionInputs::default()
    };

    let report = build_report(&runtimes, &inputs, &folders());
    assert_eq!(report.runtimes.len(), 1);
    assert!(report.runtimes[0].active);
    assert_eq!(report.runtimes[0].hold_reason, Some(HoldReason::Active));
    assert!(report.runtimes_total_bytes >= 4096);

    let rendered = render_report(&report, &size);
    assert!(rendered.contains("in-use version=7.12.0"));
    assert!(rendered.contains("status: in use"));
    assert!(rendered.contains("Shared with other tools (never removed by ROCm CLI):"));
    assert!(rendered.contains("downloaded models"));
    assert!(rendered.contains("  - ROCm CLI cache folder: 1.5 KiB (/c)\n"));
    assert!(rendered.contains("  - ROCm CLI data folder: 10 B or more (part unreadable) (/d)\n"));
    assert!(rendered.contains(
        "  - uv package cache: not present (/h/.cache/uv)\n      note: shared with every other uv project"
    ));
    assert!(!rendered.contains("Hugging Face"));
}

#[test]
fn report_survives_a_missing_install_folder() {
    let runtimes = vec![MeasuredRuntime {
        manifest: manifest("gone", "gfx110X-all", "7.12.0", 20),
        measured: None,
    }];
    let report = build_report(&runtimes, &RetentionInputs::default(), &folders());
    let rendered = render_report(&report, &size);
    assert!(rendered.contains("unknown size (folder missing or unreadable)"));
}

#[test]
fn installs_are_reported_by_key_and_none_is_said_to_be_none() {
    let runtimes = ["b", "a"]
        .iter()
        .map(|key| MeasuredRuntime {
            manifest: manifest(key, "f", "1", 1),
            measured: None,
        })
        .collect();
    let report = build_report(&runtimes, &RetentionInputs::default(), &folders());
    assert_eq!(report.runtimes[0].runtime_key, "a");
    assert_eq!(report.runtimes[1].runtime_key, "b");
    let empty = build_report(&vec![], &RetentionInputs::default(), &folders());
    assert!(render_report(&empty, &size).contains("ROCm installs:\n  none\n  total: 0 B\n"));
}

#[test]
fn a_place_that_exists_unmeasured_reads_differently_from_one_that_does_not() {
    let missing = PathUsage::measure("x", &folder("/x", None), None);
    assert_eq!(missing.size_text(&size), "not present");
    let unreadable = PathUsage {
        label: "x".to_owned(),
        path: "/x".to_owned(),
        exists_on_disk: true,
        size_bytes: None,
        size_complete: false,
        note: None,
    };
    assert_eq!(unreadable.size_text(&size), "unknown size (unreadable)");
}

#[test]
fn other_tools_caches_are_looked_for_where_they_say() {
    let uv = shared_uv_cache_dir(Some("/big/uv"), Some("/home/u"), false).unwrap();
    assert_eq!((uv.base.as_str(), uv.below.len()), ("/big/uv", 0));
    let uv = shared_uv_cache_dir(Some(""), Some("/home/u"), false).unwrap();
    assert_eq!(uv.below, vec![".cache", "uv"]);
    let uv = shared_uv_cache_dir(None, Some("C:/u"), true).unwrap();
    assert_eq!(uv.below, vec!["AppData", "Local", "uv", "cache"]);
    assert!(shared_uv_cache_dir(None, None, false).is_none());
    let hf = shared_model_cache_dir(Some("/hf"), None).unwrap();
    assert_eq!((hf.base.as_str(), hf.below[0].as_str()), ("/hf", "hub"));
    let hf = shared_model_cache_dir(None, Some("/home/u")).unwrap();
    assert_eq!(hf.below, vec![".cache", "huggingface"]);
}

// -- downloads -------------------------------------------------------------

fn found(path: &str, bytes: u64) -> FoundDownload {
    FoundDownload::File {
        path: path.to_owned(),
        bytes,
    }
}

#[test]
fn downloads_plan_collects_cached_archives_and_never_model_files() {
    let plan = build_downloads_plan(
        &DownloadFolder {
            path: "/cache/therock".to_owned(),
            found: Some(vec![
                found("/cache/therock/sdk.tar.gz", 7),
                found("/cache/therock/metadata/index.body", 5),
            ]),
        },
        &DownloadFolder {
            path: "/cache/tools".to_owned(),
            found: None,
        },
        false,
    );

    let names: Vec<&str> = plan.actions.iter().map(|entry| entry.path.as_str()).collect();
    assert_eq!(plan.actions.len(), 2, "{names:?}");
    assert!(names.iter().all(|name| !name.contains("models")));
    assert_eq!(plan.skipped, vec!["nothing downloaded in /cache/tools"]);
    let rendered = render_downloads_plan(&plan, true, &size);
    assert!(rendered.contains("2 downloaded file(s) would be removed"));
    assert!(rendered.contains("freeing about 12 B:"));
}

#[test]
fn files_are_ordered_by_the_parts_of_their_paths() {
    let plan = build_downloads_plan(
        &DownloadFolder {
            path: "/c".to_owned(),
            found: Some(vec![
                found("/c/a-b", 1),
                found("/c/a/z", 1),
                FoundDownload::Unreadable("/c/locked".to_owned()),
            ]),
        },
        &DownloadFolder {
            path: "/t".to_owned(),
            found: Some(vec![]),
        },
        false,
    );
    let names: Vec<&str> = plan.actions.iter().map(|entry| entry.path.as_str()).collect();
    assert_eq!(names, vec!["/c/a/z", "/c/a-b"]);
    assert_eq!(
        plan.skipped,
        vec!["could not read /c/locked", "nothing downloaded in /t"]
    );
}

#[test]
fn a_backslash_parts_a_path_on_windows_alone() {
    let folder = |paths: &[&str]| DownloadFolder {
        path: "C:\\c".to_owned(),
        found: Some(paths.iter().map(|path| found(path, 1)).collect()),
    };
    let ordered = |windows: bool| {
        build_downloads_plan(
            &folder(&["C:\\c\\a-b", "C:\\c\\a\\z"]),
            &folder(&[]),
            windows,
        )
        .actions
        .into_iter()
        .map(|entry| entry.path)
        .collect::<Vec<String>>()
    };
    assert_eq!(ordered(true), vec!["C:\\c\\a\\z", "C:\\c\\a-b"]);
    assert_eq!(ordered(false), vec!["C:\\c\\a-b", "C:\\c\\a\\z"]);
}

// -- consent ---------------------------------------------------------------

#[test]
fn a_dry_run_or_an_empty_plan_stops() {
    assert_eq!(after_installs_review(3, true, true, true), Ok(NextStep::Stop));
    assert_eq!(after_installs_review(0, false, true, true), Ok(NextStep::Stop));
    assert_eq!(after_downloads_review(0, false, true, false), Ok(NextStep::Stop));
}

#[test]
fn a_removal_needs_consent() {
    assert_eq!(approved("x", true, false), Ok(NextStep::Remove));
    assert_eq!(after_installs_review(1, false, false, true), Ok(NextStep::Ask));
    assert_eq!(
        after_installs_review(1, false, false, false)
            .unwrap_err()
            .headline(),
        "removing old ROCm installs requires --yes outside an interactive terminal"
    );
    assert_eq!(
        after_downloads_review(1, false, false, false)
            .unwrap_err()
            .headline(),
        "removing downloaded files requires --yes outside an interactive terminal"
    );
}

#[test]
fn what_was_removed_is_said() {
    assert_eq!(removed_line("old", 1048576, &size), "removed old (1.0 MiB)");
    assert_eq!(downloads_removed_line(3), "3 downloaded file(s) removed");
    assert_eq!(
        removal_failure("old", Failure::new("busy".to_owned())).full(),
        "failed to remove old: busy"
    );
}

#[test]
fn keeping_none_removes_all_that_nothing_holds() {
    let manifests = vec![
        manifest("a", "gfx110X-all", "7.10.0", 10),
        manifest("b", "gfx110X-all", "7.11.0", 20),
        manifest("c", "gfx120X-all", "7.12.0", 30),
    ];
    let inputs = RetentionInputs {
        active_runtime_key: Some("B".to_owned()),
        ..RetentionInputs::default()
    };
    let (removable, held) = select_runtimes_to_remove(&manifests, &inputs, 0);
    assert_eq!(removable, vec!["a".to_owned(), "c".to_owned()]);
    assert_eq!(held, vec![("b".to_owned(), HoldReason::Active)]);
}
