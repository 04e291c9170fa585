//! The report of what is on disk.

use vstd::prelude::*;
use crate::sizes::{
    ask, at_most, lemma_sum_in_any_order, lemma_sum_of_parts, says, sum_of, takes_sizes,
};
use crate::order::{
    ascending, exchanged, lemma_any_order, lemma_exchanged_multiset, ranks, sort, sorted, text_le,
};
use crate::storage::measure::{
    plus, show_size, size_or_more, usage_of, usage_size, Folder, Measurement, PathUsage, UsageView,
};
use crate::storage::retention::{
    hold_of, is_ignoring_case, matches_ignore_case, unconditional_hold, HoldReason, InputsView,
    InstalledRuntimeManifest, ManifestView, RetentionInputs,
};
use crate::text::{
    comes_before, has_text, join, joined, lemma_has_text, lemma_stands_within, lower, occurs_at,
    opt_text, text_before, texts,
};

verus! {

/// An install, and what it takes if its folder is there.
#[derive(Debug)]
pub struct MeasuredRuntime {
    pub manifest: InstalledRuntimeManifest,
    pub measured: Option<Measurement>,
}

pub open spec fn measured_views(s: Seq<MeasuredRuntime>) -> Seq<
    (ManifestView, Option<Measurement>),
> {
    s.map_values(|m: MeasuredRuntime| (m.manifest@, m.measured))
}

/// One install in the report.
#[derive(Debug)]
pub struct RuntimeUsage {
    pub runtime_key: String,
    pub runtime_id: String,
    pub channel: String,
    pub format: String,
    pub family: String,
    pub version: String,
    pub install_root: String,
    pub size_bytes: Option<u64>,
    pub size_complete: bool,
    pub active: bool,
    pub previous: bool,
    pub default_runtime: bool,
    /// `None` where nothing keeps the install from a later cleanup.
    pub hold_reason: Option<HoldReason>,
}

pub struct RuntimeUsageView {
    pub runtime_key: Seq<char>,
    pub runtime_id: Seq<char>,
    pub channel: Seq<char>,
    pub format: Seq<char>,
    pub family: Seq<char>,
    pub version: Seq<char>,
    pub install_root: Seq<char>,
    pub size_bytes: Option<u64>,
    pub size_complete: bool,
    pub active: bool,
    pub previous: bool,
    pub default_runtime: bool,
    pub hold_reason: Option<HoldReason>,
}

impl View for RuntimeUsage {
    type V = RuntimeUsageView;

    open spec fn view(&self) -> RuntimeUsageView {
        RuntimeUsageView {
            runtime_key: self.runtime_key@,
            runtime_id: self.runtime_id@,
            channel: self.channel@,
            format: self.format@,
            family: self.family@,
            version: self.version@,
            install_root: self.install_root@,
            size_bytes: self.size_bytes,
            size_complete: self.size_complete,
            active: self.active,
            previous: self.previous,
            default_runtime: self.default_runtime,
            hold_reason: self.hold_reason,
        }
    }
}

pub open spec fn runtime_views(s: Seq<RuntimeUsage>) -> Seq<RuntimeUsageView> {
    s.map_values(|u: RuntimeUsage| u@)
}

pub open spec fn path_views(s: Seq<PathUsage>) -> Seq<UsageView> {
    s.map_values(|u: PathUsage| u@)
}

/// The places that are reported besides the installs.
#[derive(Debug)]
pub struct StorageFolders {
    pub downloads: Folder,
    pub tools: Folder,
    pub cache: Folder,
    pub data: Folder,
    pub models: Folder,
    pub uv_cache: Option<Folder>,
    pub hugging_face: Option<Folder>,
}

#[derive(Debug)]
pub struct StorageReport {
    pub runtimes: Vec<RuntimeUsage>,
    pub runtimes_total_bytes: u64,
    pub rocm_cli: Vec<PathUsage>,
    /// Caches that are used but not owned. Reported, never deleted.
    pub shared_with_other_tools: Vec<PathUsage>,
}

pub struct ReportView {
    pub runtimes: Seq<RuntimeUsageView>,
    pub runtimes_total_bytes: u64,
    pub rocm_cli: Seq<UsageView>,
    pub shared_with_other_tools: Seq<UsageView>,
}

impl View for StorageReport {
    type V = ReportView;

    open spec fn view(&self) -> ReportView {
        ReportView {
            runtimes: runtime_views(self.runtimes@),
            runtimes_total_bytes: self.runtimes_total_bytes,
            rocm_cli: path_views(self.rocm_cli@),
            shared_with_other_tools: path_views(self.shared_with_other_tools@),
        }
    }
}

// ---------------------------------------------------------------------------
// Where other tools keep their caches
// ---------------------------------------------------------------------------

/// A folder as a base and the names below it.
#[derive(Debug)]
pub struct FolderBelow {
    pub base: String,
    pub below: Vec<String>,
}

pub open spec fn place_of(f: Option<FolderBelow>) -> Option<(Seq<char>, Seq<Seq<char>>)> {
    match f {
        Some(f) => Some((f.base@, texts(f.below@))),
        None => None,
    }
}

/// A setting that is there and not empty.
pub open spec fn given(setting: Option<Seq<char>>) -> bool {
    setting matches Some(s) && s.len() > 0
}

pub open spec fn uv_cache_place(
    setting: Option<Seq<char>>,
    home: Option<Seq<char>>,
    windows: bool,
) -> Option<(Seq<char>, Seq<Seq<char>>)> {
    if given(setting) {
        Some((setting->0, seq![]))
    } else {
        match home {
            None => None,
            Some(h) => Some(
                (
                    h,
                    if windows {
                        seq!["AppData"@, "Local"@, "uv"@, "cache"@]
                    } else {
                        seq![".cache"@, "uv"@]
                    },
                ),
            ),
        }
    }
}

pub open spec fn model_cache_place(setting: Option<Seq<char>>, home: Option<Seq<char>>) -> Option<
    (Seq<char>, Seq<Seq<char>>),
> {
    if given(setting) {
        Some((setting->0, seq!["hub"@]))
    } else {
        match home {
            None => None,
            Some(h) => Some((h, seq![".cache"@, "huggingface"@])),
        }
    }
}

/// Where `uv` keeps its cache: where its own setting says, else below the home
/// folder.
pub fn shared_uv_cache_dir(setting: Option<&str>, home: Option<&str>, windows: bool) -> (r: Option<
    FolderBelow,
>)
    ensures
        place_of(r) == uv_cache_place(opt_text(setting), opt_text(home), windows),
{
    if let Some(s) = setting {
        if s.unicode_len() > 0 {
            let below: Vec<String> = Vec::new();
            assert(texts(below@) =~= seq![]);
            return Some(FolderBelow { base: s.to_owned(), below });
        }
    }
    match home {
        None => None,
        Some(h) => {
            let mut below: Vec<String> = Vec::new();
            if windows {
                below.push("AppData".to_owned());
                below.push("Local".to_owned());
                below.push("uv".to_owned());
                below.push("cache".to_owned());
                assert(texts(below@) =~= seq!["AppData"@, "Local"@, "uv"@, "cache"@]);
            } else {
                below.push(".cache".to_owned());
                below.push("uv".to_owned());
                assert(texts(below@) =~= seq![".cache"@, "uv"@]);
            }
            Some(FolderBelow { base: h.to_owned(), below })
        },
    }
}

/// Where Hugging Face keeps its models: where its own setting says, else below
/// the home folder.
pub fn shared_model_cache_dir(setting: Option<&str>, home: Option<&str>) -> (r: Option<FolderBelow>)
    ensures
        place_of(r) == model_cache_place(opt_text(setting), opt_text(home)),
{
    let mut below: Vec<String> = Vec::new();
    if let Some(s) = setting {
        if s.unicode_len() > 0 {
            below.push("hub".to_owned());
            assert(texts(below@) =~= seq!["hub"@]);
            return Some(FolderBelow { base: s.to_owned(), below });
        }
    }
    match home {
        None => None,
        Some(h) => {
            below.push(".cache".to_owned());
            below.push("huggingface".to_owned());
            assert(texts(below@) =~= seq![".cache"@, "huggingface"@]);
            Some(FolderBelow { base: h.to_owned(), below })
        },
    }
}

// ---------------------------------------------------------------------------
// Building
// ---------------------------------------------------------------------------

pub open spec fn runtime_usage(
    m: ManifestView,
    measured: Option<Measurement>,
    inputs: InputsView,
) -> RuntimeUsageView {
    RuntimeUsageView {
        runtime_key: m.runtime_key,
        runtime_id: m.runtime_id,
        channel: m.channel,
        format: m.format,
        family: m.family,
        version: m.version,
        install_root: m.install_root,
        size_bytes: match measured {
            Some(x) => Some(x.bytes),
            None => None,
        },
        size_complete: measured matches Some(x) && x.complete,
        active: is_ignoring_case(inputs.active, m.runtime_key),
        previous: is_ignoring_case(inputs.previous, m.runtime_key),
        default_runtime: is_ignoring_case(inputs.default_id, m.runtime_id),
        hold_reason: hold_of(m, inputs),
    }
}

pub open spec fn runtime_usages(
    all: Seq<(ManifestView, Option<Measurement>)>,
    inputs: InputsView,
) -> Seq<RuntimeUsageView> {
    all.map_values(|m: (ManifestView, Option<Measurement>)| runtime_usage(m.0, m.1, inputs))
}

/// What all the installs that are there take.
pub open spec fn total_of(all: Seq<(ManifestView, Option<Measurement>)>) -> u64
    decreases all.len(),
{
    if all.len() == 0 {
        0
    } else {
        let before = total_of(all.drop_last());
        match all.last().1 {
            Some(m) => plus(before, m.bytes),
            None => before,
        }
    }
}

pub open spec fn by_runtime_key() -> spec_fn(RuntimeUsageView, RuntimeUsageView) -> bool {
    |a: RuntimeUsageView, b: RuntimeUsageView| !text_before(b.runtime_key, a.runtime_key)
}

pub open spec fn own_folders(f: StorageFolders) -> Seq<UsageView> {
    seq![
        usage_of(
            "downloaded ROCm archives"@,
            f.downloads,
            Some("can be downloaded again; safe to remove"@),
        ),
        usage_of(
            "downloaded helper tools"@,
            f.tools,
            Some("can be downloaded again; safe to remove"@),
        ),
        usage_of("ROCm CLI cache folder"@, f.cache, None),
        usage_of("ROCm CLI data folder"@, f.data, None),
    ]
}

pub open spec fn shared_folders(f: StorageFolders) -> Seq<UsageView> {
    let models = seq![
        usage_of(
            "downloaded models"@,
            f.models,
            Some(
                "model files are slow to download again and may be yours; ROCm CLI never removes them"@,
            ),
        ),
    ];
    let with_uv = match f.uv_cache {
        Some(folder) => models.push(
            usage_of(
                "uv package cache"@,
                folder,
                Some("shared with every other uv project on this computer"@),
            ),
        ),
        None => models,
    };
    match f.hugging_face {
        Some(folder) => with_uv.push(
            usage_of(
                "Hugging Face model cache"@,
                folder,
                Some("shared with other tools; ROCm CLI never removes it"@),
            ),
        ),
        None => with_uv,
    }
}

pub open spec fn report_of(
    all: Seq<(ManifestView, Option<Measurement>)>,
    inputs: InputsView,
    folders: StorageFolders,
) -> ReportView {
    ReportView {
        runtimes: sorted(runtime_usages(all, inputs), by_runtime_key()),
        runtimes_total_bytes: total_of(all),
        rocm_cli: own_folders(folders),
        shared_with_other_tools: shared_folders(folders),
    }
}

fn use_of_runtime(m: &MeasuredRuntime, inputs: &RetentionInputs) -> (r: RuntimeUsage)
    ensures
        r@ == runtime_usage(m.manifest@, m.measured, inputs@),
{
    let manifest = &m.manifest;
    let (size_bytes, size_complete) = match m.measured {
        Some(x) => (Some(x.bytes), x.complete),
        None => (None, false),
    };
    RuntimeUsage {
        active: matches_ignore_case(&inputs.active_runtime_key, manifest.runtime_key.as_str()),
        previous: matches_ignore_case(&inputs.previous_runtime_key, manifest.runtime_key.as_str()),
        default_runtime: matches_ignore_case(
            &inputs.default_runtime_id,
            manifest.runtime_id.as_str(),
        ),
        hold_reason: unconditional_hold(manifest, inputs),
        runtime_key: manifest.runtime_key.clone(),
        runtime_id: manifest.runtime_id.clone(),
        channel: manifest.channel.clone(),
        format: manifest.format.clone(),
        family: manifest.family.clone(),
        version: manifest.version.clone(),
        install_root: manifest.install_root.clone(),
        size_bytes,
        size_complete,
    }
}

fn folders_of_others(folders: &StorageFolders) -> (r: Vec<PathUsage>)
    ensures
        path_views(r@) == shared_folders(*folders),
{
    let mut out: Vec<PathUsage> = Vec::new();
    out.push(
        PathUsage::measure(
            "downloaded models",
            &folders.models,
            Some(
                "model files are slow to download again and may be yours; ROCm CLI never removes them",
            ),
        ),
    );
    let ghost models = path_views(out@);
    if let Some(folder) = &folders.uv_cache {
        out.push(
            PathUsage::measure(
                "uv package cache",
                folder,
                Some("shared with every other uv project on this computer"),
            ),
        );
        assert(path_views(out@) =~= models.push(out@[1]@));
    }
    let ghost with_uv = path_views(out@);
    if let Some(folder) = &folders.hugging_face {
        out.push(
            PathUsage::measure(
                "Hugging Face model cache",
                folder,
                Some("shared with other tools; ROCm CLI never removes it"),
            ),
        );
        assert(path_views(out@) =~= with_uv.push(out@.last()@));
    }
    assert(path_views(out@) =~= shared_folders(*folders));
    out
}

/// Puts the report together from the installs and the places that were measured.
pub fn build_report(
    runtimes: &Vec<MeasuredRuntime>,
    inputs: &RetentionInputs,
    folders: &StorageFolders,
) -> (r: StorageReport)
    ensures
        r@ == report_of(measured_views(runtimes@), inputs@, *folders),
{
    let ghost all = measured_views(runtimes@);
    let mut usages: Vec<RuntimeUsage> = Vec::new();
    let mut total: u64 = 0;
    let mut i: usize = 0;
    assert(all.subrange(0, 0) =~= seq![]);
    assert(runtime_views(usages@) =~= runtime_usages(all.subrange(0, 0), inputs@));
    while i < runtimes.len()
        invariant
            i <= runtimes@.len(),
            all == measured_views(runtimes@),
            runtime_views(usages@) == runtime_usages(all.subrange(0, i as int), inputs@),
            total == total_of(all.subrange(0, i as int)),
        decreases runtimes@.len() - i,
    {
        let ghost before = runtime_views(usages@);
        assert(all.subrange(0, i + 1).drop_last() =~= all.subrange(0, i as int));
        if let Some(m) = runtimes[i].measured {
            total = total.saturating_add(m.bytes);
        }
        usages.push(use_of_runtime(&runtimes[i], inputs));
        assert(runtime_views(usages@) =~= before.push(usages@.last()@));
        assert(runtime_usages(all.subrange(0, i + 1), inputs@) =~= runtime_usages(
            all.subrange(0, i as int),
            inputs@,
        ).push(runtime_usage(all[i as int].0, all[i as int].1, inputs@)));
        i += 1;
    }
    assert(all.subrange(0, all.len() as int) =~= all);

    let ghost unsorted = usages@;
    let ghost le = |a: RuntimeUsage, b: RuntimeUsage| !text_before(b.runtime_key@, a.runtime_key@);
    let no_later = |a: &RuntimeUsage, b: &RuntimeUsage| -> (o: bool)
        ensures
            o == !text_before(b.runtime_key@, a.runtime_key@),
    {
        !comes_before(b.runtime_key.as_str(), a.runtime_key.as_str())
    };
    let usages = sort(usages, no_later, Ghost(le));
    proof {
        crate::order::lemma_sorted_map(unsorted, le, |u: RuntimeUsage| u@, by_runtime_key());
    }

    let mut rocm_cli: Vec<PathUsage> = Vec::new();
    rocm_cli.push(
        PathUsage::measure(
            "downloaded ROCm archives",
            &folders.downloads,
            Some("can be downloaded again; safe to remove"),
        ),
    );
    rocm_cli.push(
        PathUsage::measure(
            "downloaded helper tools",
            &folders.tools,
            Some("can be downloaded again; safe to remove"),
        ),
    );
    rocm_cli.push(PathUsage::measure("ROCm CLI cache folder", &folders.cache, None));
    rocm_cli.push(PathUsage::measure("ROCm CLI data folder", &folders.data, None));
    assert(path_views(rocm_cli@) =~= own_folders(*folders));

    StorageReport {
        runtimes: usages,
        runtimes_total_bytes: total,
        rocm_cli,
        shared_with_other_tools: folders_of_others(folders),
    }
}

// ---------------------------------------------------------------------------
// Rendering
// ---------------------------------------------------------------------------

pub open spec fn labels_of(u: RuntimeUsageView) -> Seq<Seq<char>> {
    let one = if u.active {
        seq!["in use"@]
    } else {
        Seq::<Seq<char>>::empty()
    };
    let two = if u.previous {
        one.push("rollback target"@)
    } else {
        one
    };
    if u.default_runtime {
        two.push("default"@)
    } else {
        two
    }
}

pub open spec fn runtime_size(size: spec_fn(u64) -> Seq<char>, u: RuntimeUsageView) -> Seq<char> {
    match u.size_bytes {
        None => "unknown size (folder missing or unreadable)"@,
        Some(bytes) => size_or_more(size, bytes, u.size_complete),
    }
}

pub open spec fn runtime_lines(size: spec_fn(u64) -> Seq<char>, u: RuntimeUsageView) -> Seq<char> {
    let head = "  - "@ + u.runtime_key + " version="@ + u.version + " "@ + runtime_size(size, u)
        + "\n      folder: "@ + u.install_root + "\n"@;
    if labels_of(u).len() == 0 {
        head
    } else {
        head + "      status: "@ + joined(labels_of(u), ", "@) + "\n"@
    }
}

pub open spec fn all_runtime_lines(
    size: spec_fn(u64) -> Seq<char>,
    s: Seq<RuntimeUsageView>,
) -> Seq<char>
    decreases s.len(),
{
    if s.len() == 0 {
        seq![]
    } else {
        all_runtime_lines(size, s.drop_last()) + runtime_lines(size, s.last())
    }
}

pub open spec fn path_lines(size: spec_fn(u64) -> Seq<char>, u: UsageView, notes: bool) -> Seq<char> {
    let head = "  - "@ + u.label + ": "@ + usage_size(size, u) + " ("@ + u.path + ")\n"@;
    match u.note {
        Some(note) => if notes {
            head + "      note: "@ + note + "\n"@
        } else {
            head
        },
        None => head,
    }
}

pub open spec fn all_path_lines(
    size: spec_fn(u64) -> Seq<char>,
    s: Seq<UsageView>,
    notes: bool,
) -> Seq<char>
    decreases s.len(),
{
    if s.len() == 0 {
        seq![]
    } else {
        all_path_lines(size, s.drop_last(), notes) + path_lines(size, s.last(), notes)
    }
}

pub open spec fn report_text(size: spec_fn(u64) -> Seq<char>, r: ReportView) -> Seq<char> {
    "disk space used by ROCm CLI\n\nROCm installs:\n"@ + (if r.runtimes.len() == 0 {
        "  none\n"@
    } else {
        all_runtime_lines(size, r.runtimes)
    }) + "  total: "@ + size(r.runtimes_total_bytes) + "\n\nROCm CLI folders:\n"@
        + all_path_lines(size, r.rocm_cli, false)
        + "\nShared with other tools (never removed by ROCm CLI):\n"@ + all_path_lines(
        size,
        r.shared_with_other_tools,
        true,
    ) + "\nTo free space: rocm storage remove-old-installs --dry-run\n"@
}

fn labels(u: &RuntimeUsage) -> (r: Vec<String>)
    ensures
        texts(r@) == labels_of(u@),
{
    let mut out: Vec<String> = Vec::new();
    if u.active {
        out.push("in use".to_owned());
    }
    let ghost one = texts(out@);
    assert(one =~= if u.active {
        seq!["in use"@]
    } else {
        Seq::<Seq<char>>::empty()
    });
    if u.previous {
        out.push("rollback target".to_owned());
        assert(texts(out@) =~= one.push("rollback target"@));
    }
    let ghost two = texts(out@);
    if u.default_runtime {
        out.push("default".to_owned());
        assert(texts(out@) =~= two.push("default"@));
    }
    out
}

fn show_runtime<F: Fn(u64) -> String>(u: &RuntimeUsage, size: &F) -> (r: String)
    requires
        takes_sizes(*size),
    ensures
        forall|told: spec_fn(u64) -> Seq<char>| #[trigger]
            says(*size, told) ==> r@ == runtime_lines(told, u@),
{
    let known = match u.size_bytes {
        None => "unknown size (folder missing or unreadable)".to_owned(),
        Some(bytes) => show_size(bytes, u.size_complete, size),
    };
    let mut out = "  - ".to_owned();
    out.push_str(u.runtime_key.as_str());
    out.push_str(" version=");
    out.push_str(u.version.as_str());
    out.push_str(" ");
    out.push_str(known.as_str());
    out.push_str("\n      folder: ");
    out.push_str(u.install_root.as_str());
    out.push_str("\n");
    let labels = labels(u);
    if labels.len() > 0 {
        out.push_str("      status: ");
        out.push_str(join(&labels, ", ").as_str());
        out.push_str("\n");
    }
    out
}

fn show_path<F: Fn(u64) -> String>(u: &PathUsage, notes: bool, size: &F) -> (r: String)
    requires
        takes_sizes(*size),
    ensures
        forall|told: spec_fn(u64) -> Seq<char>| #[trigger]
            says(*size, told) ==> r@ == path_lines(told, u@, notes),
{
    let mut out = "  - ".to_owned();
    out.push_str(u.label.as_str());
    out.push_str(": ");
    out.push_str(u.size_text(size).as_str());
    out.push_str(" (");
    out.push_str(u.path.as_str());
    out.push_str(")\n");
    if notes {
        if let Some(note) = &u.note {
            out.push_str("      note: ");
            out.push_str(note.as_str());
            out.push_str("\n");
        }
    }
    out
}

fn show_runtimes<F: Fn(u64) -> String>(runtimes: &Vec<RuntimeUsage>, size: &F) -> (r: String)
    requires
        takes_sizes(*size),
    ensures
        forall|told: spec_fn(u64) -> Seq<char>| #[trigger]
            says(*size, told) ==> r@ == all_runtime_lines(told, runtime_views(runtimes@)),
{
    let ghost all = runtime_views(runtimes@);
    let mut out = String::new();
    let mut i: usize = 0;
    while i < runtimes.len()
        invariant
            i <= runtimes@.len(),
            all == runtime_views(runtimes@),
            takes_sizes(*size),
            forall|told: spec_fn(u64) -> Seq<char>| #[trigger]
                says(*size, told) ==> out@ == all_runtime_lines(told, all.subrange(0, i as int)),
        decreases runtimes@.len() - i,
    {
        assert(all.subrange(0, i + 1).drop_last() =~= all.subrange(0, i as int));
        out.push_str(show_runtime(&runtimes[i], size).as_str());
        i += 1;
    }
    assert(all.subrange(0, all.len() as int) =~= all);
    out
}

fn show_paths<F: Fn(u64) -> String>(paths: &Vec<PathUsage>, notes: bool, size: &F) -> (r: String)
    requires
        takes_sizes(*size),
    ensures
        forall|told: spec_fn(u64) -> Seq<char>| #[trigger]
            says(*size, told) ==> r@ == all_path_lines(told, path_views(paths@), notes),
{
    let ghost all = path_views(paths@);
    let mut out = String::new();
    let mut i: usize = 0;
    while i < paths.len()
        invariant
            i <= paths@.len(),
            all == path_views(paths@),
            takes_sizes(*size),
            forall|told: spec_fn(u64) -> Seq<char>| #[trigger]
                says(*size, told) ==> out@ == all_path_lines(told, all.subrange(0, i as int), notes),
        decreases paths@.len() - i,
    {
        assert(all.subrange(0, i + 1).drop_last() =~= all.subrange(0, i as int));
        out.push_str(show_path(&paths[i], notes, size).as_str());
        i += 1;
    }
    assert(all.subrange(0, all.len() as int) =~= all);
    out
}

/// Renders a report; `size` says how a size reads.
pub fn render_report<F: Fn(u64) -> String>(report: &StorageReport, size: &F) -> (r: String)
    requires
        takes_sizes(*size),
    ensures
        forall|told: spec_fn(u64) -> Seq<char>| #[trigger]
            says(*size, told) ==> r@ == report_text(told, report@),
{
    let mut out = "disk space used by ROCm CLI\n\nROCm installs:\n".to_owned();
    if report.runtimes.len() == 0 {
        out.push_str("  none\n");
    } else {
        out.push_str(show_runtimes(&report.runtimes, size).as_str());
    }
    out.push_str("  total: ");
    out.push_str(ask(size, report.runtimes_total_bytes).as_str());
    out.push_str("\n\nROCm CLI folders:\n");
    out.push_str(show_paths(&report.rocm_cli, false, size).as_str());
    out.push_str("\nShared with other tools (never removed by ROCm CLI):\n");
    out.push_str(show_paths(&report.shared_with_other_tools, true, size).as_str());
    out.push_str("\nTo free space: rocm storage remove-old-installs --dry-run\n");
    out
}

// ---------------------------------------------------------------------------
// Laws
// ---------------------------------------------------------------------------

/// Every install is reported, in the order of the keys, and what is reported as
/// in use, the rollback target or the default is held.
pub proof fn law_every_install_is_reported(
    all: Seq<(ManifestView, Option<Measurement>)>,
    inputs: InputsView,
    folders: StorageFolders,
)
    ensures
        report_of(all, inputs, folders).runtimes.to_multiset() == runtime_usages(
            all,
            inputs,
        ).to_multiset(),
        ascending(report_of(all, inputs, folders).runtimes, by_runtime_key()),
        forall|i: int|
            0 <= i < all.len() ==> {
                let u = #[trigger] runtime_usages(all, inputs)[i];
                u.active || u.previous || u.default_runtime ==> u.hold_reason is Some
            },
{
    let le = by_runtime_key();
    let tle = text_le();
    crate::order::lemma_text_le_ranks();
    assert forall|a: RuntimeUsageView, b: RuntimeUsageView| #[trigger] le(a, b) || le(b, a) by {
        assert(tle(a.runtime_key, b.runtime_key) || tle(b.runtime_key, a.runtime_key));
    }
    assert forall|a: RuntimeUsageView, b: RuntimeUsageView, c: RuntimeUsageView| #[trigger]
        le(a, b) && #[trigger] le(b, c) implies le(a, c) by {
        assert(tle(a.runtime_key, b.runtime_key) && tle(b.runtime_key, c.runtime_key));
        assert(tle(a.runtime_key, c.runtime_key));
    }
    assert(ranks(le));
    crate::order::lemma_sorted(runtime_usages(all, inputs), le);
}

/// What the installs that were measured take, install by install.
pub open spec fn sizes_of(s: Seq<RuntimeUsageView>) -> Seq<u64> {
    s.map_values(
        |u: RuntimeUsageView|
            match u.size_bytes {
                Some(bytes) => bytes,
                None => 0u64,
            },
    )
}

proof fn lemma_total(all: Seq<(ManifestView, Option<Measurement>)>, inputs: InputsView)
    ensures
        total_of(all) == at_most(sum_of(sizes_of(runtime_usages(all, inputs)))),
    decreases all.len(),
{
    let sizes = sizes_of(runtime_usages(all, inputs));
    if all.len() > 0 {
        let front = all.drop_last();
        lemma_total(front, inputs);
        assert(sizes.drop_last() =~= sizes_of(runtime_usages(front, inputs)));
    }
}

proof fn lemma_sizes_in_any_order(a: Seq<RuntimeUsageView>, b: Seq<RuntimeUsageView>)
    requires
        a.to_multiset() == b.to_multiset(),
    ensures
        sum_of(sizes_of(a)) == sum_of(sizes_of(b)),
{
    let f = |s: Seq<RuntimeUsageView>| sizes_of(s).to_multiset();
    assert forall|s: Seq<RuntimeUsageView>, k: int| 0 <= k < s.len() - 1 implies f(
        #[trigger] exchanged(s, k),
    ) == f(s) by {
        broadcast use vstd::seq_lib::group_to_multiset_ensures;

        let t = sizes_of(s);
        assert(sizes_of(exchanged(s, k)) =~= exchanged(t, k));
        lemma_exchanged_multiset(t, k);
    }
    lemma_any_order(f, a, b);
    assert(f(a) == f(b));
    lemma_sum_in_any_order(sizes_of(a), sizes_of(b));
}

/// The reported total is what the reported installs that were measured take
/// together, in whatever order they are listed, as far as that can be counted; so it
/// is no less than what any of them takes.
pub proof fn law_the_total_counts_every_measured_install(
    all: Seq<(ManifestView, Option<Measurement>)>,
    inputs: InputsView,
    folders: StorageFolders,
    other: Seq<RuntimeUsageView>,
)
    requires
        other.to_multiset() == report_of(all, inputs, folders).runtimes.to_multiset(),
    ensures
        ({
            let r = report_of(all, inputs, folders);
            &&& r.runtimes_total_bytes == at_most(sum_of(sizes_of(r.runtimes)))
            &&& r.runtimes_total_bytes == at_most(sum_of(sizes_of(other)))
            &&& forall|i: int|
                0 <= i < all.len() ==> ((#[trigger] all[i]).1 matches Some(m)
                    ==> r.runtimes_total_bytes >= m.bytes)
        }),
{
    let r = report_of(all, inputs, folders);
    let listed = runtime_usages(all, inputs);
    law_every_install_is_reported(all, inputs, folders);
    lemma_total(all, inputs);
    lemma_sizes_in_any_order(listed, r.runtimes);
    lemma_sizes_in_any_order(listed, other);
    assert forall|i: int| 0 <= i < all.len() implies ((#[trigger] all[i]).1 matches Some(m)
        ==> r.runtimes_total_bytes >= m.bytes) by {
        lemma_sum_of_parts(sizes_of(listed), i);
        assert(sizes_of(listed)[i] == match listed[i].size_bytes {
            Some(bytes) => bytes,
            None => 0u64,
        });
    }
}

/// An install is reported under the names it was recorded with, with what was
/// measured of it, and marked for what the configuration makes of it: in use and
/// rollback target by its key, default by its id, in any case of the letters.
pub proof fn law_an_install_is_reported_as_recorded(
    m: ManifestView,
    measured: Option<Measurement>,
    inputs: InputsView,
)
    ensures
        ({
            let u = runtime_usage(m, measured, inputs);
            &&& u.runtime_key == m.runtime_key && u.runtime_id == m.runtime_id
            &&& u.channel == m.channel && u.format == m.format && u.family == m.family
            &&& u.version == m.version && u.install_root == m.install_root
            &&& measured matches Some(x) ==> u.size_bytes == Some(x.bytes) && u.size_complete
                == x.complete
            &&& measured is None ==> u.size_bytes is None && !u.size_complete
            &&& u.active <==> (inputs.active matches Some(k) && lower(k) == lower(m.runtime_key))
            &&& u.previous <==> (inputs.previous matches Some(k) && lower(k) == lower(
                m.runtime_key,
            ))
            &&& u.default_runtime <==> (inputs.default_id matches Some(k) && lower(k) == lower(
                m.runtime_id,
            ))
            &&& u.hold_reason is None <==> !u.active && !u.previous && !u.default_runtime
                && !m.read_only && m.imported_from is None && (forall|i: int|
                0 <= i < inputs.markers.len() ==> lower(#[trigger] inputs.markers[i]) != lower(
                    m.runtime_key,
                ))
        }),
{
}

/// The four folders of the tool are reported, each with its own measure, and after
/// them, apart, the caches that it shares: the models always, the others where there
/// is a place for them. What is said of a shared one is that it stays.
pub proof fn law_each_folder_is_reported_with_its_own_measure(folders: StorageFolders)
    ensures
        ({
            let own = own_folders(folders);
            let shared = shared_folders(folders);
            &&& own.len() == 4
            &&& own[0].path == folders.downloads.path@ && own[1].path == folders.tools.path@
                && own[2].path == folders.cache.path@ && own[3].path == folders.data.path@
            &&& own[0].exists_on_disk == folders.downloads.measured is Some
                && own[1].exists_on_disk == folders.tools.measured is Some
                && own[2].exists_on_disk == folders.cache.measured is Some
                && own[3].exists_on_disk == folders.data.measured is Some
            &&& folders.downloads.measured matches Some(m) ==> own[0].size_bytes == Some(m.bytes)
            &&& folders.tools.measured matches Some(m) ==> own[1].size_bytes == Some(m.bytes)
            &&& folders.cache.measured matches Some(m) ==> own[2].size_bytes == Some(m.bytes)
            &&& folders.data.measured matches Some(m) ==> own[3].size_bytes == Some(m.bytes)
            &&& shared.len() == 1 + (if folders.uv_cache is Some {
                1int
            } else {
                0int
            }) + (if folders.hugging_face is Some {
                1int
            } else {
                0int
            })
            &&& shared[0].path == folders.models.path@
            &&& folders.models.measured matches Some(m) ==> shared[0].size_bytes == Some(m.bytes)
            &&& folders.uv_cache matches Some(f) ==> shared[1].path == f.path@ && (
            f.measured matches Some(m) ==> shared[1].size_bytes == Some(m.bytes))
            &&& folders.hugging_face matches Some(f) ==> shared.last().path == f.path@ && (
            f.measured matches Some(m) ==> shared.last().size_bytes == Some(m.bytes))
            &&& forall|i: int| 0 <= i < shared.len() ==> (#[trigger] shared[i]).note is Some
        }),
{
}

/// A cache that another tool is told to keep elsewhere is looked for there, and
/// otherwise below the home folder; with neither it is looked for nowhere.
pub proof fn law_a_shared_cache_is_looked_for_where_it_is_kept(
    setting: Option<Seq<char>>,
    home: Option<Seq<char>>,
    windows: bool,
)
    ensures
        ({
            let uv = uv_cache_place(setting, home, windows);
            let models = model_cache_place(setting, home);
            let told = setting is Some && setting->0.len() > 0;
            &&& told ==> uv == Some((setting->0, Seq::<Seq<char>>::empty())) && models == Some(
                (setting->0, seq!["hub"@]),
            )
            &&& !told && home is None ==> uv is None && models is None
            &&& !told && home is Some ==> models == Some(
                (home->0, seq![".cache"@, "huggingface"@]),
            )
            &&& !told && home is Some && !windows ==> uv == Some(
                (home->0, seq![".cache"@, "uv"@]),
            )
            &&& !told && home is Some && windows ==> uv == Some(
                (home->0, seq!["AppData"@, "Local"@, "uv"@, "cache"@]),
            )
        }),
{
}

/// The status of an install is said by as many labels as it has marks, in one order.
pub proof fn law_each_mark_has_its_label(u: RuntimeUsageView)
    ensures
        labels_of(u).contains("in use"@) <==> u.active,
        labels_of(u).contains("rollback target"@) <==> u.previous,
        labels_of(u).contains("default"@) <==> u.default_runtime,
{
    reveal_strlit("in use");
    reveal_strlit("rollback target");
    reveal_strlit("default");
    let l = labels_of(u);
    let (a, b, c) = ("in use"@, "rollback target"@, "default"@);
    assert(a.len() != b.len() && b.len() != c.len() && a.len() != c.len());
    if u.active {
        assert(l[0] == a);
    }
    if u.previous {
        assert(l[if u.active {
            1
        } else {
            0
        }] == b);
    }
    if u.default_runtime {
        assert(l[l.len() - 1] == c);
    }
}

proof fn lemma_runtime_lines_hold(
    size: spec_fn(u64) -> Seq<char>,
    s: Seq<RuntimeUsageView>,
    i: int,
)
    requires
        0 <= i < s.len(),
    ensures
        has_text(all_runtime_lines(size, s), runtime_lines(size, s[i])),
    decreases s.len(),
{
    let front = all_runtime_lines(size, s.drop_last());
    let last = runtime_lines(size, s.last());
    let none: Seq<char> = seq![];
    if i < s.len() - 1 {
        lemma_runtime_lines_hold(size, s.drop_last(), i);
        assert(front + last =~= none + front + last);
        lemma_stands_within(none, front, last, runtime_lines(size, s[i]));
    } else {
        assert(front + last =~= front + last + none);
        lemma_has_text(front, last, none);
    }
}

proof fn lemma_path_lines_hold(
    size: spec_fn(u64) -> Seq<char>,
    s: Seq<UsageView>,
    notes: bool,
    i: int,
)
    requires
        0 <= i < s.len(),
    ensures
        has_text(all_path_lines(size, s, notes), path_lines(size, s[i], notes)),
    decreases s.len(),
{
    let front = all_path_lines(size, s.drop_last(), notes);
    let last = path_lines(size, s.last(), notes);
    let none: Seq<char> = seq![];
    if i < s.len() - 1 {
        lemma_path_lines_hold(size, s.drop_last(), notes, i);
        assert(front + last =~= none + front + last);
        lemma_stands_within(none, front, last, path_lines(size, s[i], notes));
    } else {
        assert(front + last =~= front + last + none);
        lemma_has_text(front, last, none);
    }
}

/// An install is shown with its key, its version, its size, its folder, and its marks where
/// it has any; a folder with its label, its size and its path, and with its note only where
/// notes are asked for.
pub proof fn law_each_line_shows_what_it_is_of(
    size: spec_fn(u64) -> Seq<char>,
    r: RuntimeUsageView,
    u: UsageView,
)
    ensures
        ({
            let shown = runtime_lines(size, r);
            let head = "  - "@ + r.runtime_key + " version="@ + r.version + " "@ + runtime_size(
                size,
                r,
            ) + "\n      folder: "@ + r.install_root + "\n"@;
            &&& occurs_at(shown, head, 0)
            &&& labels_of(r).len() == 0 ==> shown.len() == head.len()
            &&& labels_of(r).len() > 0 ==> shown.subrange(head.len() as int, shown.len() as int)
                == "      status: "@ + joined(labels_of(r), ", "@) + "\n"@
        }),
        ({
            let plain = path_lines(size, u, false);
            &&& plain == "  - "@ + u.label + ": "@ + usage_size(size, u) + " ("@ + u.path + ")\n"@
            &&& u.note is None ==> path_lines(size, u, true) == plain
            &&& u.note matches Some(note) ==> path_lines(size, u, true) == plain
                + ("      note: "@ + note + "\n"@)
        }),
        r.size_bytes is None ==> runtime_size(size, r)
            == "unknown size (folder missing or unreadable)"@,
        r.size_bytes matches Some(bytes) ==> runtime_size(size, r) == size_or_more(
            size,
            bytes,
            r.size_complete,
        ),
{
    let shown = runtime_lines(size, r);
    let head = "  - "@ + r.runtime_key + " version="@ + r.version + " "@ + runtime_size(size, r)
        + "\n      folder: "@ + r.install_root + "\n"@;
    assert(shown.subrange(0, head.len() as int) =~= head);
    if labels_of(r).len() > 0 {
        assert(shown.subrange(head.len() as int, shown.len() as int) =~= "      status: "@
            + joined(labels_of(r), ", "@) + "\n"@);
    }
    if let Some(note) = u.note {
        assert(path_lines(size, u, true) =~= path_lines(size, u, false) + ("      note: "@ + note
            + "\n"@));
    }
}

/// A report shows every install and every folder, the tool's own without notes and the
/// shared ones with them, and between them what the installs take together.
pub proof fn law_a_report_shows_all_there_is(
    size: spec_fn(u64) -> Seq<char>,
    r: ReportView,
    i: int,
)
    ensures
        ({
            let text = report_text(size, r);
            &&& has_text(text, "  total: "@ + size(r.runtimes_total_bytes) + "\n"@)
            &&& 0 <= i < r.runtimes.len() ==> has_text(text, runtime_lines(size, r.runtimes[i]))
            &&& r.runtimes.len() == 0 ==> has_text(text, "ROCm installs:\n  none\n"@)
            &&& 0 <= i < r.rocm_cli.len() ==> has_text(
                text,
                path_lines(size, r.rocm_cli[i], false),
            )
            &&& 0 <= i < r.shared_with_other_tools.len() ==> has_text(
                text,
                path_lines(size, r.shared_with_other_tools[i], true),
            )
        }),
{
    let text = report_text(size, r);
    let a = "disk space used by ROCm CLI\n\nROCm installs:\n"@;
    let b = if r.runtimes.len() == 0 {
        "  none\n"@
    } else {
        all_runtime_lines(size, r.runtimes)
    };
    let c = "  total: "@ + size(r.runtimes_total_bytes);
    let d = "\n\nROCm CLI folders:\n"@;
    let e = all_path_lines(size, r.rocm_cli, false);
    let f = "\nShared with other tools (never removed by ROCm CLI):\n"@;
    let g = all_path_lines(size, r.shared_with_other_tools, true);
    let h = "\nTo free space: rocm storage remove-old-installs --dry-run\n"@;
    assert(text =~= a + b + c + d + e + f + g + h);
    reveal_strlit("\n\nROCm CLI folders:\n");
    reveal_strlit("\n");
    let d1 = d.subrange(1, d.len() as int);
    assert(d =~= "\n"@ + d1);
    let behind = d1 + e + f + g + h;
    assert(text =~= (a + b) + (c + "\n"@) + behind);
    lemma_has_text(a + b, c + "\n"@, behind);
    if 0 <= i < r.runtimes.len() {
        lemma_runtime_lines_hold(size, r.runtimes, i);
        assert(text =~= a + b + (c + d + e + f + g + h));
        lemma_stands_within(a, b, c + d + e + f + g + h, runtime_lines(size, r.runtimes[i]));
    }
    if r.runtimes.len() == 0 {
        reveal_strlit("disk space used by ROCm CLI\n\nROCm installs:\n");
        reveal_strlit("  none\n");
        reveal_strlit("ROCm installs:\n  none\n");
        let a0 = a.subrange(0, 29);
        assert(a + b =~= a0 + "ROCm installs:\n  none\n"@);
        assert(text =~= a0 + "ROCm installs:\n  none\n"@ + (c + d + e + f + g + h));
        lemma_has_text(a0, "ROCm installs:\n  none\n"@, c + d + e + f + g + h);
    }
    if 0 <= i < r.rocm_cli.len() {
        lemma_path_lines_hold(size, r.rocm_cli, false, i);
        assert(text =~= (a + b + c + d) + e + (f + g + h));
        lemma_stands_within(a + b + c + d, e, f + g + h, path_lines(size, r.rocm_cli[i], false));
    }
    if 0 <= i < r.shared_with_other_tools.len() {
        lemma_path_lines_hold(size, r.shared_with_other_tools, true, i);
        assert(text =~= (a + b + c + d + e + f) + g + h);
        lemma_stands_within(
            a + b + c + d + e + f,
            g,
            h,
            path_lines(size, r.shared_with_other_tools[i], true),
        );
    }
}

} // verus!
