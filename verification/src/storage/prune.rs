//! The plan for removing old installs.

use vstd::prelude::*;
use crate::sizes::{ask, at_most, says, sum_of, takes_sizes};
use crate::failure::{headline_of, Failure};
use crate::order::{sort_texts, sorted, text_le};
use crate::storage::measure::plus;
use crate::storage::retention::{
    ahead, held_keys, held_views, hold_of, manifest_views, reason_text, removable_keys,
    select_runtimes_to_remove, HoldReason, InputsView, InstalledRuntimeManifest, ManifestView,
    RetentionInputs,
};
use crate::text::{
    dec, ends_with, has_text, lemma_has_text, lemma_stands_within, occurs_at, push_number, same, texts,
};

verus! {

/// What the disk says about removing an install's folder.
#[derive(Debug)]
pub struct Judgement {
    /// The folder is in a system location.
    pub protected: bool,
    /// Whether the tool made the folder, or why that cannot be said safely.
    pub owned: Result<bool, Failure>,
    pub bytes: u64,
}

pub struct JudgementView {
    pub protected: bool,
    pub owned: Result<bool, Seq<char>>,
    pub bytes: u64,
}

impl View for Judgement {
    type V = JudgementView;

    open spec fn view(&self) -> JudgementView {
        JudgementView {
            protected: self.protected,
            owned: match self.owned {
                Ok(owned) => Ok(owned),
                Err(failure) => Err(headline_of(failure@)),
            },
            bytes: self.bytes,
        }
    }
}

pub open spec fn judgement_views(s: Seq<Judgement>) -> Seq<JudgementView> {
    s.map_values(|j: Judgement| j@)
}

/// An install that would go, with what it would free.
#[derive(Debug)]
pub struct PruneEntry {
    pub runtime_key: String,
    pub version: String,
    pub install_root: String,
    pub size_bytes: u64,
}

pub struct PruneEntryView {
    pub runtime_key: Seq<char>,
    pub version: Seq<char>,
    pub install_root: Seq<char>,
    pub size_bytes: u64,
}

impl View for PruneEntry {
    type V = PruneEntryView;

    open spec fn view(&self) -> PruneEntryView {
        PruneEntryView {
            runtime_key: self.runtime_key@,
            version: self.version@,
            install_root: self.install_root@,
            size_bytes: self.size_bytes,
        }
    }
}

pub open spec fn entry_views(s: Seq<PruneEntry>) -> Seq<PruneEntryView> {
    s.map_values(|e: PruneEntry| e@)
}

#[derive(Debug)]
pub struct PrunePlan {
    pub remove: Vec<PruneEntry>,
    pub skipped: Vec<String>,
}

pub struct PrunePlanView {
    pub remove: Seq<PruneEntryView>,
    pub skipped: Seq<Seq<char>>,
}

impl View for PrunePlan {
    type V = PrunePlanView;

    open spec fn view(&self) -> PrunePlanView {
        PrunePlanView { remove: entry_views(self.remove@), skipped: texts(self.skipped@) }
    }
}

// ---------------------------------------------------------------------------
// Building
// ---------------------------------------------------------------------------

/// The first install from `from` on with the key.
pub open spec fn find_key(all: Seq<ManifestView>, key: Seq<char>, from: int) -> Option<int>
    decreases all.len() - from,
{
    if from >= all.len() {
        None
    } else if all[from].runtime_key == key {
        Some(from)
    } else {
        find_key(all, key, from + 1)
    }
}

/// What becomes of a key that may go.
pub enum Fate {
    Unknown,
    Skipped(Seq<char>),
    Removed(PruneEntryView),
}

pub open spec fn fate_of(
    all: Seq<ManifestView>,
    judged: Seq<JudgementView>,
    key: Seq<char>,
) -> Fate {
    match find_key(all, key, 0) {
        None => Fate::Unknown,
        Some(i) => {
            let m = all[i];
            let j = judged[i];
            if j.protected {
                Fate::Skipped(
                    key + ": folder "@ + m.install_root + " is in a protected system location"@,
                )
            } else {
                match j.owned {
                    Ok(true) => Fate::Removed(
                        PruneEntryView {
                            runtime_key: m.runtime_key,
                            version: m.version,
                            install_root: m.install_root,
                            size_bytes: j.bytes,
                        },
                    ),
                    Ok(false) => Fate::Skipped(
                        key + ": ROCm CLI did not create this folder, so it is left in place"@,
                    ),
                    Err(error) => Fate::Skipped(
                        key + ": cannot be removed safely ("@ + error + ")"@,
                    ),
                }
            }
        },
    }
}

pub open spec fn removed_entries(
    all: Seq<ManifestView>,
    judged: Seq<JudgementView>,
    keys: Seq<Seq<char>>,
) -> Seq<PruneEntryView>
    decreases keys.len(),
{
    if keys.len() == 0 {
        seq![]
    } else {
        let before = removed_entries(all, judged, keys.drop_last());
        match fate_of(all, judged, keys.last()) {
            Fate::Removed(entry) => before.push(entry),
            _ => before,
        }
    }
}

pub open spec fn skipped_lines(
    all: Seq<ManifestView>,
    judged: Seq<JudgementView>,
    keys: Seq<Seq<char>>,
) -> Seq<Seq<char>>
    decreases keys.len(),
{
    if keys.len() == 0 {
        seq![]
    } else {
        let before = skipped_lines(all, judged, keys.drop_last());
        match fate_of(all, judged, keys.last()) {
            Fate::Skipped(line) => before.push(line),
            _ => before,
        }
    }
}

pub open spec fn held_lines(held: Seq<(Seq<char>, HoldReason)>) -> Seq<Seq<char>> {
    held.map_values(|h: (Seq<char>, HoldReason)| h.0 + ": "@ + reason_text(h.1))
}

pub open spec fn prune_plan(
    all: Seq<ManifestView>,
    judged: Seq<JudgementView>,
    inputs: InputsView,
    keep: nat,
) -> PrunePlanView {
    let keys = removable_keys(all, inputs, keep);
    PrunePlanView {
        remove: removed_entries(all, judged, keys),
        skipped: sorted(
            held_lines(held_keys(all, inputs, keep)) + skipped_lines(all, judged, keys),
            text_le(),
        ),
    }
}

fn find(manifests: &Vec<InstalledRuntimeManifest>, key: &str) -> (r: Option<usize>)
    ensures
        match r {
            Some(i) => i < manifests@.len() && find_key(manifest_views(manifests@), key@, 0)
                == Some(i as int),
            None => find_key(manifest_views(manifests@), key@, 0) is None,
        },
{
    let ghost all = manifest_views(manifests@);
    let mut i: usize = 0;
    while i < manifests.len()
        invariant
            i <= manifests@.len(),
            all == manifest_views(manifests@),
            find_key(all, key@, 0) == find_key(all, key@, i as int),
        decreases manifests@.len() - i,
    {
        assert(all[i as int] == manifests@[i as int]@);
        if same(manifests[i].runtime_key.as_str(), key) {
            return Some(i);
        }
        i += 1;
    }
    None
}

/// Plans the removal of old installs. Beyond the selection, a folder in a system
/// location is refused, and so is one that the tool is not known to have made.
pub fn build_prune_plan(
    manifests: &Vec<InstalledRuntimeManifest>,
    judged: &Vec<Judgement>,
    inputs: &RetentionInputs,
    keep: usize,
) -> (r: PrunePlan)
    requires
        manifests@.len() == judged@.len(),
    ensures
        r@ == prune_plan(
            manifest_views(manifests@),
            judgement_views(judged@),
            inputs@,
            keep as nat,
        ),
{
    let ghost all = manifest_views(manifests@);
    let ghost js = judgement_views(judged@);
    let (removable, held) = select_runtimes_to_remove(manifests, inputs, keep);
    let ghost hs = held_views(held@);

    let mut skipped: Vec<String> = Vec::new();
    let mut i: usize = 0;
    assert(texts(skipped@) =~= held_lines(hs.subrange(0, 0)));
    while i < held.len()
        invariant
            i <= held@.len(),
            hs == held_views(held@),
            texts(skipped@) == held_lines(hs.subrange(0, i as int)),
        decreases held@.len() - i,
    {
        let ghost before = texts(skipped@);
        let mut line = held[i].0.clone();
        line.push_str(": ");
        line.push_str(held[i].1.describe());
        assert(line@ == hs[i as int].0 + ": "@ + reason_text(hs[i as int].1));
        skipped.push(line);
        assert(texts(skipped@) =~= before.push(line@));
        assert(held_lines(hs.subrange(0, i + 1)) =~= held_lines(hs.subrange(0, i as int)).push(
            line@,
        ));
        i += 1;
    }
    assert(hs.subrange(0, hs.len() as int) =~= hs);
    let ghost kept = texts(skipped@);

    let ghost keys = texts(removable@);
    let mut remove: Vec<PruneEntry> = Vec::new();
    let mut k: usize = 0;
    assert(keys.subrange(0, 0) =~= seq![]);
    assert(entry_views(remove@) =~= seq![]);
    assert(texts(skipped@) =~= kept + skipped_lines(all, js, keys.subrange(0, 0)));
    while k < removable.len()
        invariant
            k <= removable@.len(),
            manifests@.len() == judged@.len(),
            all == manifest_views(manifests@),
            js == judgement_views(judged@),
            keys == texts(removable@),
            entry_views(remove@) == removed_entries(all, js, keys.subrange(0, k as int)),
            texts(skipped@) == kept + skipped_lines(all, js, keys.subrange(0, k as int)),
        decreases removable@.len() - k,
    {
        let key = &removable[k];
        let ghost done = keys.subrange(0, k as int);
        assert(keys.subrange(0, k + 1).drop_last() =~= done);
        assert(keys.subrange(0, k + 1).last() == key@);
        let ghost before = texts(skipped@);
        if let Some(at) = find(manifests, key.as_str()) {
            let m = &manifests[at];
            let j = &judged[at];
            assert(all[at as int] == m@);
            assert(js[at as int] == j@);
            let mut line = key.clone();
            let mut goes = false;
            if j.protected {
                line.push_str(": folder ");
                line.push_str(m.install_root.as_str());
                line.push_str(" is in a protected system location");
            } else {
                match &j.owned {
                    Ok(true) => {
                        goes = true;
                    },
                    Ok(false) => {
                        line.push_str(
                            ": ROCm CLI did not create this folder, so it is left in place",
                        );
                    },
                    Err(failure) => {
                        line.push_str(": cannot be removed safely (");
                        line.push_str(failure.headline().as_str());
                        line.push_str(")");
                    },
                }
            }
            if goes {
                let ghost entries = entry_views(remove@);
                remove.push(
                    PruneEntry {
                        runtime_key: m.runtime_key.clone(),
                        version: m.version.clone(),
                        install_root: m.install_root.clone(),
                        size_bytes: j.bytes,
                    },
                );
                assert(entry_views(remove@) =~= entries.push(remove@.last()@));
            } else {
                skipped.push(line);
                assert(texts(skipped@) =~= before.push(line@));
                assert(texts(skipped@) =~= kept + skipped_lines(all, js, done).push(line@));
            }
        }
        k += 1;
    }
    assert(keys.subrange(0, keys.len() as int) =~= keys);
    PrunePlan { remove, skipped: sort_texts(skipped) }
}

// ---------------------------------------------------------------------------
// Rendering
// ---------------------------------------------------------------------------

pub open spec fn reclaimed(s: Seq<PruneEntryView>) -> u64
    decreases s.len(),
{
    if s.len() == 0 {
        0
    } else {
        plus(reclaimed(s.drop_last()), s.last().size_bytes)
    }
}

pub open spec fn entry_line(size: spec_fn(u64) -> Seq<char>, e: PruneEntryView) -> Seq<char> {
    "  - "@ + e.runtime_key + " version="@ + e.version + " "@ + size(e.size_bytes) + " ("@
        + e.install_root + ")\n"@
}

pub open spec fn entry_lines(size: spec_fn(u64) -> Seq<char>, s: Seq<PruneEntryView>) -> Seq<char>
    decreases s.len(),
{
    if s.len() == 0 {
        seq![]
    } else {
        entry_lines(size, s.drop_last()) + entry_line(size, s.last())
    }
}

pub open spec fn bullets(s: Seq<Seq<char>>) -> Seq<char>
    decreases s.len(),
{
    if s.len() == 0 {
        seq![]
    } else {
        bullets(s.drop_last()) + "  - "@ + s.last() + "\n"@
    }
}

/// The end of a review: what is left alone, and that nothing was changed.
pub open spec fn review_end(skipped: Seq<Seq<char>>, dry_run: bool) -> Seq<char> {
    (if skipped.len() == 0 {
        Seq::<char>::empty()
    } else {
        "\nLeft alone:\n"@ + bullets(skipped)
    }) + (if dry_run {
        "\nNothing was changed. Re-run without --dry-run to remove.\n"@
    } else {
        Seq::<char>::empty()
    })
}

pub open spec fn prune_text(
    size: spec_fn(u64) -> Seq<char>,
    plan: PrunePlanView,
    keep: nat,
    dry_run: bool,
) -> Seq<char> {
    "Old ROCm install review\n\nKeeping the "@ + dec(keep)
        + " most recent install(s) for each channel, format, and GPU family.\n\n"@ + (
    if plan.remove.len() == 0 {
        "Nothing would be removed.\n"@
    } else {
        dec(plan.remove.len()) + " install(s) would be removed, freeing about "@ + size(
            reclaimed(plan.remove),
        ) + ":\n"@ + entry_lines(size, plan.remove)
    }) + review_end(plan.skipped, dry_run)
}

pub fn show_review_end(skipped: &Vec<String>, dry_run: bool) -> (r: String)
    ensures
        r@ == review_end(texts(skipped@), dry_run),
{
    let ghost all = texts(skipped@);
    let mut out = String::new();
    if skipped.len() > 0 {
        let mut list = String::new();
        let mut i: usize = 0;
        while i < skipped.len()
            invariant
                i <= skipped@.len(),
                all == texts(skipped@),
                list@ == bullets(all.subrange(0, i as int)),
            decreases skipped@.len() - i,
        {
            assert(all.subrange(0, i + 1).drop_last() =~= all.subrange(0, i as int));
            list.push_str("  - ");
            list.push_str(skipped[i].as_str());
            list.push_str("\n");
            i += 1;
        }
        assert(all.subrange(0, all.len() as int) =~= all);
        out = "\nLeft alone:\n".to_owned();
        out.push_str(list.as_str());
    }
    assert(out@ =~= if all.len() == 0 {
        Seq::<char>::empty()
    } else {
        "\nLeft alone:\n"@ + bullets(all)
    });
    if dry_run {
        out.push_str("\nNothing was changed. Re-run without --dry-run to remove.\n");
    } else {
        assert(out@ + Seq::<char>::empty() =~= out@);
    }
    out
}

fn show_entry<F: Fn(u64) -> String>(e: &PruneEntry, size: &F) -> (r: String)
    requires
        takes_sizes(*size),
    ensures
        forall|told: spec_fn(u64) -> Seq<char>| #[trigger]
            says(*size, told) ==> r@ == entry_line(told, e@),
{
    let mut out = "  - ".to_owned();
    out.push_str(e.runtime_key.as_str());
    out.push_str(" version=");
    out.push_str(e.version.as_str());
    out.push_str(" ");
    out.push_str(ask(size, e.size_bytes).as_str());
    out.push_str(" (");
    out.push_str(e.install_root.as_str());
    out.push_str(")\n");
    out
}

/// Renders a plan; `size` says how a size reads.
pub fn render_prune_plan<F: Fn(u64) -> String>(
    plan: &PrunePlan,
    keep: usize,
    dry_run: bool,
    size: &F,
) -> (r: String)
    requires
        takes_sizes(*size),
    ensures
        forall|told: spec_fn(u64) -> Seq<char>| #[trigger]
            says(*size, told) ==> r@ == prune_text(told, plan@, keep as nat, dry_run),
{
    let ghost all = entry_views(plan.remove@);
    let mut out = "Old ROCm install review\n\nKeeping the ".to_owned();
    push_number(&mut out, keep as u128);
    out.push_str(" most recent install(s) for each channel, format, and GPU family.\n\n");
    if plan.remove.len() == 0 {
        out.push_str("Nothing would be removed.\n");
    } else {
        let mut freed: u64 = 0;
        let mut list = String::new();
        let mut i: usize = 0;
        assert(all.subrange(0, 0) =~= seq![]);
        while i < plan.remove.len()
            invariant
                i <= plan.remove@.len(),
                all == entry_views(plan.remove@),
                freed == reclaimed(all.subrange(0, i as int)),
                takes_sizes(*size),
                forall|told: spec_fn(u64) -> Seq<char>| #[trigger]
                    says(*size, told) ==> list@ == entry_lines(told, all.subrange(0, i as int)),
            decreases plan.remove@.len() - i,
        {
            assert(all.subrange(0, i + 1).drop_last() =~= all.subrange(0, i as int));
            freed = freed.saturating_add(plan.remove[i].size_bytes);
            list.push_str(show_entry(&plan.remove[i], size).as_str());
            i += 1;
        }
        assert(all.subrange(0, all.len() as int) =~= all);
        let mut part = crate::text::number(plan.remove.len() as u128);
        part.push_str(" install(s) would be removed, freeing about ");
        part.push_str(ask(size, freed).as_str());
        part.push_str(":\n");
        part.push_str(list.as_str());
        out.push_str(part.as_str());
    }
    out.push_str(show_review_end(&plan.skipped, dry_run).as_str());
    out
}

// ---------------------------------------------------------------------------
// Laws
// ---------------------------------------------------------------------------

proof fn lemma_find_key(all: Seq<ManifestView>, key: Seq<char>, from: int)
    requires
        0 <= from,
    ensures
        find_key(all, key, from) matches Some(i) ==> from <= i < all.len() && all[i].runtime_key
            == key,
    decreases all.len() - from,
{
    if from < all.len() && all[from].runtime_key != key {
        lemma_find_key(all, key, from + 1);
    }
}

proof fn lemma_removed_from(
    all: Seq<ManifestView>,
    judged: Seq<JudgementView>,
    keys: Seq<Seq<char>>,
    k: int,
)
    requires
        0 <= k < removed_entries(all, judged, keys).len(),
    ensures
        exists|n: int|
            0 <= n < keys.len() && fate_of(all, judged, #[trigger] keys[n]) == Fate::Removed(
                removed_entries(all, judged, keys)[k],
            ),
    decreases keys.len(),
{
    if keys.len() > 0 {
        let before = removed_entries(all, judged, keys.drop_last());
        if k < before.len() {
            lemma_removed_from(all, judged, keys.drop_last(), k);
            let n = choose|n: int|
                0 <= n < keys.len() - 1 && fate_of(all, judged, #[trigger] keys.drop_last()[n])
                    == Fate::Removed(before[k]);
            assert(keys[n] == keys.drop_last()[n]);
        } else {
            assert(keys[keys.len() - 1] == keys.last());
        }
    }
}

/// An install is removed only if nothing holds it, `keep` newer ones of its kind
/// stay, its folder is in no system location, and the tool is known to have made
/// the folder.
pub proof fn law_only_what_may_go_is_removed(
    all: Seq<ManifestView>,
    judged: Seq<JudgementView>,
    inputs: InputsView,
    keep: nat,
    k: int,
)
    requires
        forall|i: int, j: int|
            0 <= i < all.len() && 0 <= j < all.len() && i != j ==> (#[trigger] all[i]).runtime_key
                != (#[trigger] all[j]).runtime_key,
        0 <= k < prune_plan(all, judged, inputs, keep).remove.len(),
    ensures
        exists|i: int|
            #![trigger all[i]]
            0 <= i < all.len() && all[i].runtime_key == prune_plan(
                all,
                judged,
                inputs,
                keep,
            ).remove[k].runtime_key && hold_of(all[i], inputs) is None && ahead(
                all,
                inputs,
                i,
                all.len(),
            ) >= keep && !judged[i].protected && judged[i].owned == Ok::<bool, Seq<char>>(true),
{
    let keys = removable_keys(all, inputs, keep);
    let entry = removed_entries(all, judged, keys)[k];
    lemma_removed_from(all, judged, keys, k);
    let n = choose|n: int|
        0 <= n < keys.len() && fate_of(all, judged, #[trigger] keys[n]) == Fate::Removed(entry);
    lemma_find_key(all, keys[n], 0);
    crate::storage::retention::law_a_held_install_never_goes(all, inputs, keep, n);
    let i = choose|i: int|
        #![trigger all[i]]
        0 <= i < all.len() && all[i].runtime_key == keys[n] && hold_of(all[i], inputs) is None
            && ahead(all, inputs, i, all.len()) >= keep;
    let found = find_key(all, keys[n], 0)->0;
    assert(all[found].runtime_key == all[i].runtime_key);
    assert(found == i);
}

proof fn lemma_first_key(all: Seq<ManifestView>, key: Seq<char>, from: int, at: int)
    requires
        0 <= from <= at < all.len(),
        forall|i: int| from <= i < at ==> (#[trigger] all[i]).runtime_key != key,
        all[at].runtime_key == key,
    ensures
        find_key(all, key, from) == Some(at),
    decreases at - from,
{
    if from < at {
        assert(all[from].runtime_key != key);
        lemma_first_key(all, key, from + 1, at);
    }
}

proof fn lemma_fates(
    all: Seq<ManifestView>,
    judged: Seq<JudgementView>,
    keys: Seq<Seq<char>>,
    n: int,
)
    requires
        0 <= n < keys.len(),
    ensures
        fate_of(all, judged, keys[n]) matches Fate::Removed(e) ==> removed_entries(
            all,
            judged,
            keys,
        ).contains(e),
        fate_of(all, judged, keys[n]) matches Fate::Skipped(line) ==> skipped_lines(
            all,
            judged,
            keys,
        ).contains(line),
    decreases keys.len(),
{
    let front = keys.drop_last();
    let (r, s) = (removed_entries(all, judged, keys), skipped_lines(all, judged, keys));
    if n < keys.len() - 1 {
        lemma_fates(all, judged, front, n);
        assert(front[n] == keys[n]);
        let (r0, s0) = (removed_entries(all, judged, front), skipped_lines(all, judged, front));
        if let Fate::Removed(e) = fate_of(all, judged, keys[n]) {
            let i = choose|i: int| 0 <= i < r0.len() && r0[i] == e;
            assert(r[i] == e);
        }
        if let Fate::Skipped(line) = fate_of(all, judged, keys[n]) {
            let i = choose|i: int| 0 <= i < s0.len() && s0[i] == line;
            assert(s[i] == line);
        }
    } else {
        if fate_of(all, judged, keys[n]) is Removed {
            assert(r.last() == r[r.len() - 1]);
        }
        if fate_of(all, judged, keys[n]) is Skipped {
            assert(s.last() == s[s.len() - 1]);
        }
    }
}

/// What the selection lets go is removed exactly where its folder is in no system location
/// and the tool is known to have made it, and then as it was recorded, with what it takes.
/// Otherwise it is told by its key why it stays: by its folder where that is protected,
/// and with what went wrong where nothing could be said of it.
pub proof fn law_what_may_go_is_removed_or_told_why_not(
    all: Seq<ManifestView>,
    judged: Seq<JudgementView>,
    inputs: InputsView,
    keep: nat,
    n: int,
    at: int,
)
    requires
        0 <= n < removable_keys(all, inputs, keep).len(),
        0 <= at < all.len(),
        all[at].runtime_key == removable_keys(all, inputs, keep)[n],
        forall|i: int|
            0 <= i < at ==> (#[trigger] all[i]).runtime_key != removable_keys(
                all,
                inputs,
                keep,
            )[n],
    ensures
        ({
            let plan = prune_plan(all, judged, inputs, keep);
            let (m, j) = (all[at], judged[at]);
            let goes = !j.protected && j.owned == Ok::<bool, Seq<char>>(true);
            &&& goes ==> plan.remove.contains(
                PruneEntryView {
                    runtime_key: m.runtime_key,
                    version: m.version,
                    install_root: m.install_root,
                    size_bytes: j.bytes,
                },
            )
            &&& !goes ==> exists|k: int|
                0 <= k < plan.skipped.len() && occurs_at(
                    #[trigger] plan.skipped[k],
                    m.runtime_key + ": "@,
                    0,
                ) && (j.protected ==> has_text(plan.skipped[k], m.install_root)) && (!j.protected
                    && j.owned is Err ==> has_text(plan.skipped[k], j.owned->Err_0))
        }),
{
    broadcast use vstd::seq_lib::group_to_multiset_ensures;

    let keys = removable_keys(all, inputs, keep);
    let key = keys[n];
    let (m, j) = (all[at], judged[at]);
    lemma_first_key(all, key, 0, at);
    lemma_fates(all, judged, keys, n);
    let held = held_lines(held_keys(all, inputs, keep));
    let rest = skipped_lines(all, judged, keys);
    crate::order::lemma_text_le_ranks();
    crate::order::lemma_sorted(held + rest, text_le());
    let skipped = sorted(held + rest, text_le());
    if let Fate::Skipped(line) = fate_of(all, judged, key) {
        let i = choose|i: int| 0 <= i < rest.len() && rest[i] == line;
        assert((held + rest)[held.len() + i] == line);
        assert((held + rest).contains(line));
        assert(skipped.to_multiset().contains(line));
        assert(skipped.contains(line));
        let k = choose|k: int| 0 <= k < skipped.len() && skipped[k] == line;
        lemma_skipped_line(all, judged, key, at);
        assert(prune_plan(all, judged, inputs, keep).skipped[k] == line);
    }
    assert(fate_of(all, judged, key) is Removed <==> !j.protected && j.owned == Ok::<
        bool,
        Seq<char>,
    >(true));
    assert(fate_of(all, judged, key) is Skipped || fate_of(all, judged, key) is Removed);
}

proof fn lemma_skipped_line(
    all: Seq<ManifestView>,
    judged: Seq<JudgementView>,
    key: Seq<char>,
    at: int,
)
    requires
        find_key(all, key, 0) == Some(at),
    ensures
        fate_of(all, judged, key) matches Fate::Skipped(line) ==> occurs_at(line, key + ": "@, 0)
            && (judged[at].protected ==> has_text(line, all[at].install_root)) && (
        !judged[at].protected && judged[at].owned is Err ==> has_text(
            line,
            judged[at].owned->Err_0,
        )),
{
    reveal_strlit(": ");
    reveal_strlit(": folder ");
    reveal_strlit(": ROCm CLI did not create this folder, so it is left in place");
    reveal_strlit(": cannot be removed safely (");
    let lead = key + ": "@;
    if let Fate::Skipped(line) = fate_of(all, judged, key) {
        let (m, j) = (all[at], judged[at]);
        if j.protected {
            let tail = " is in a protected system location"@;
            assert(line.subrange(0, lead.len() as int) =~= lead);
            lemma_has_text(key + ": folder "@, m.install_root, tail);
        } else if j.owned is Err {
            assert(line.subrange(0, lead.len() as int) =~= lead);
            lemma_has_text(key + ": cannot be removed safely ("@, j.owned->Err_0, ")"@);
        } else {
            assert(line.subrange(0, lead.len() as int) =~= lead);
        }
    }
}

/// What is kept by the selection is told by its key, with the reason.
pub proof fn law_what_is_kept_is_told_why(
    all: Seq<ManifestView>,
    judged: Seq<JudgementView>,
    inputs: InputsView,
    keep: nat,
    n: int,
)
    requires
        0 <= n < held_keys(all, inputs, keep).len(),
    ensures
        prune_plan(all, judged, inputs, keep).skipped.contains(
            held_keys(all, inputs, keep)[n].0 + ": "@ + reason_text(
                held_keys(all, inputs, keep)[n].1,
            ),
        ),
{
    broadcast use vstd::seq_lib::group_to_multiset_ensures;

    let held = held_lines(held_keys(all, inputs, keep));
    let rest = skipped_lines(all, judged, removable_keys(all, inputs, keep));
    crate::order::lemma_text_le_ranks();
    crate::order::lemma_sorted(held + rest, text_le());
    let skipped = sorted(held + rest, text_le());
    assert((held + rest)[n] == held[n]);
    assert((held + rest).contains(held[n]));
    assert(skipped.to_multiset().contains(held[n]));
    assert(skipped.contains(held[n]));
}

proof fn lemma_reclaimed(s: Seq<PruneEntryView>)
    ensures
        reclaimed(s) == at_most(sum_of(s.map_values(|e: PruneEntryView| e.size_bytes))),
    decreases s.len(),
{
    let f = |e: PruneEntryView| e.size_bytes;
    if s.len() > 0 {
        lemma_reclaimed(s.drop_last());
        assert(s.map_values(f).drop_last() =~= s.drop_last().map_values(f));
    }
}

proof fn lemma_entry_lines_hold(size: spec_fn(u64) -> Seq<char>, s: Seq<PruneEntryView>, i: int)
    requires
        0 <= i < s.len(),
    ensures
        has_text(entry_lines(size, s), entry_line(size, s[i])),
    decreases s.len(),
{
    let front = entry_lines(size, s.drop_last());
    let last = entry_line(size, s.last());
    let none: Seq<char> = seq![];
    if i < s.len() - 1 {
        lemma_entry_lines_hold(size, s.drop_last(), i);
        assert(front + last =~= none + front + last);
        lemma_stands_within(none, front, last, entry_line(size, s[i]));
    } else {
        assert(front + last =~= front + last + none);
        lemma_has_text(front, last, none);
    }
}

proof fn lemma_bullets_hold(s: Seq<Seq<char>>, i: int)
    requires
        0 <= i < s.len(),
    ensures
        has_text(bullets(s), "  - "@ + s[i] + "\n"@),
    decreases s.len(),
{
    let front = bullets(s.drop_last());
    let last = "  - "@ + s.last() + "\n"@;
    let none: Seq<char> = seq![];
    if i < s.len() - 1 {
        lemma_bullets_hold(s.drop_last(), i);
        assert(bullets(s) =~= none + front + last);
        lemma_stands_within(none, front, last, "  - "@ + s[i] + "\n"@);
    } else {
        assert(bullets(s) =~= front + last + none);
        lemma_has_text(front, last, none);
    }
}

/// A review ends with everything that is left alone, and with the word that nothing was
/// changed exactly where it was a dry run; where there is neither, with nothing.
pub proof fn law_a_review_ends_with_what_is_left_alone(skipped: Seq<Seq<char>>, i: int)
    ensures
        0 <= i < skipped.len() ==> has_text(
            review_end(skipped, false),
            "  - "@ + skipped[i] + "\n"@,
        ),
        skipped.len() == 0 ==> review_end(skipped, false).len() == 0,
        review_end(skipped, true) == review_end(skipped, false)
            + "\nNothing was changed. Re-run without --dry-run to remove.\n"@,
{
    let none = Seq::<char>::empty();
    let said = "\nNothing was changed. Re-run without --dry-run to remove.\n"@;
    let first = review_end(skipped, false);
    if skipped.len() == 0 {
        assert(first =~= none);
        assert(none + said =~= first + said);
    } else {
        let a = "\nLeft alone:\n"@;
        let b = bullets(skipped);
        assert(first =~= a + b);
        if 0 <= i < skipped.len() {
            lemma_bullets_hold(skipped, i);
            assert(first =~= a + b + none);
            lemma_stands_within(a, b, none, "  - "@ + skipped[i] + "\n"@);
        }
    }
}

/// A review tells how many installs are kept of each kind, how many would go and what they
/// free together, in whatever order they come, as far as that can be counted; and of each
/// its key, its version, its size and its folder, in a line of its own.
pub proof fn law_a_review_lists_what_would_go(
    size: spec_fn(u64) -> Seq<char>,
    plan: PrunePlanView,
    keep: nat,
    dry_run: bool,
    i: int,
)
    requires
        0 <= i < plan.remove.len(),
    ensures
        ({
            let text = prune_text(size, plan, keep, dry_run);
            let e = plan.remove[i];
            let freed = at_most(
                sum_of(plan.remove.map_values(|e: PruneEntryView| e.size_bytes)),
            );
            &&& has_text(text, "Keeping the "@ + dec(keep) + " most recent"@)
            &&& has_text(
                text,
                dec(plan.remove.len()) + " install(s) would be removed, freeing about "@ + size(
                    freed,
                ) + ":\n"@,
            )
            &&& has_text(
                text,
                "  - "@ + e.runtime_key + " version="@ + e.version + " "@ + size(e.size_bytes)
                    + " ("@ + e.install_root + ")\n"@,
            )
            &&& ends_with(text, review_end(plan.skipped, dry_run))
        }),
{
    let text = prune_text(size, plan, keep, dry_run);
    lemma_reclaimed(plan.remove);
    lemma_entry_lines_hold(size, plan.remove, i);
    let a = "Old ROCm install review\n\nKeeping the "@;
    let c = " most recent install(s) for each channel, format, and GPU family.\n\n"@;
    reveal_strlit("Old ROCm install review\n\nKeeping the ");
    reveal_strlit("Keeping the ");
    reveal_strlit(" most recent install(s) for each channel, format, and GPU family.\n\n");
    reveal_strlit(" most recent");
    let a0 = a.subrange(0, a.len() - 12);
    assert(a =~= a0 + "Keeping the "@);
    let c1 = c.subrange(12, c.len() as int);
    assert(c =~= " most recent"@ + c1);
    let counted = dec(plan.remove.len()) + " install(s) would be removed, freeing about "@ + size(
        reclaimed(plan.remove),
    ) + ":\n"@;
    let lines = entry_lines(size, plan.remove);
    let end = review_end(plan.skipped, dry_run);
    let kept = "Keeping the "@ + dec(keep) + " most recent"@;
    assert(text =~= a + dec(keep) + c + (counted + lines) + end);
    assert(text =~= a0 + kept + (c1 + counted + lines + end));
    lemma_has_text(a0, kept, c1 + counted + lines + end);
    let lead = a + dec(keep) + c;
    assert(text =~= lead + counted + (lines + end));
    lemma_has_text(lead, counted, lines + end);
    assert(text =~= (lead + counted) + lines + end);
    lemma_stands_within(lead + counted, lines, end, entry_line(size, plan.remove[i]));
    assert(text.subrange(text.len() - end.len(), text.len() as int) =~= end);
}

} // verus!
