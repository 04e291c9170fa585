//! Which installs are kept, and which may go.
//!
//! Old installs are removed as a set nobody typed out, so the selection is
//! conservative: nothing that is in use, held back for a rollback, configured,
//! marked or not the tool's own is ever in it.

use vstd::prelude::*;
use vstd::multiset::Multiset;
use crate::order::{
    ascending, exchanged, lemma_any_order, lemma_ascending_unique, ranks, sort, sort_texts, sorted,
    text_le,
};
use crate::text::{
    clone_opt, comes_before, lower, opt_view, same_ignoring_case, text_before, texts, to_lower,
};

verus! {

/// Installs kept per channel, format and GPU family: the one in use and one to
/// go back to.
pub const DEFAULT_KEEP: usize = 2;

/// An installed runtime, as far as it is read.
#[derive(Debug)]
pub struct InstalledRuntimeManifest {
    pub runtime_key: String,
    pub runtime_id: String,
    pub channel: String,
    pub format: String,
    pub family: String,
    pub version: String,
    pub install_root: String,
    pub read_only: bool,
    pub imported_from: Option<String>,
    pub installed_at_unix_ms: u128,
}

pub struct ManifestView {
    pub runtime_key: Seq<char>,
    pub runtime_id: Seq<char>,
    pub channel: Seq<char>,
    pub format: Seq<char>,
    pub family: Seq<char>,
    pub version: Seq<char>,
    pub install_root: Seq<char>,
    pub read_only: bool,
    pub imported_from: Option<Seq<char>>,
    pub installed_at_unix_ms: u128,
}

impl View for InstalledRuntimeManifest {
    type V = ManifestView;

    open spec fn view(&self) -> ManifestView {
        ManifestView {
            runtime_key: self.runtime_key@,
            runtime_id: self.runtime_id@,
            channel: self.channel@,
            format: self.format@,
            family: self.family@,
            version: self.version@,
            install_root: self.install_root@,
            read_only: self.read_only,
            imported_from: opt_view(self.imported_from),
            installed_at_unix_ms: self.installed_at_unix_ms,
        }
    }
}

pub open spec fn manifest_views(s: Seq<InstalledRuntimeManifest>) -> Seq<ManifestView> {
    s.map_values(|m: InstalledRuntimeManifest| m@)
}

/// Why an install is kept.
#[derive(Debug, Clone, Copy, PartialEq, Eq, Structural)]
pub enum HoldReason {
    Active,
    Previous,
    Default,
    Marker,
    NotOwned,
    WithinKeepLimit,
}

pub open spec fn reason_text(reason: HoldReason) -> Seq<char> {
    match reason {
        HoldReason::Active => "in use right now"@,
        HoldReason::Previous => "the rollback target for `rocm runtimes rollback`"@,
        HoldReason::Default => "the configured default"@,
        HoldReason::Marker => "named by the active install marker"@,
        HoldReason::NotOwned => "added with adopt or import, so ROCm CLI does not own the folder"@,
        HoldReason::WithinKeepLimit => "one of the most recent installs kept for this GPU family"@,
    }
}

impl HoldReason {
    pub fn describe(&self) -> (r: &'static str)
        ensures
            r@ == reason_text(*self),
    {
        match self {
            HoldReason::Active => "in use right now",
            HoldReason::Previous => "the rollback target for `rocm runtimes rollback`",
            HoldReason::Default => "the configured default",
            HoldReason::Marker => "named by the active install marker",
            HoldReason::NotOwned =>
                "added with adopt or import, so ROCm CLI does not own the folder",
            HoldReason::WithinKeepLimit =>
                "one of the most recent installs kept for this GPU family",
        }
    }
}

/// What the decision to keep an install depends on.
#[derive(Debug)]
pub struct RetentionInputs {
    pub active_runtime_key: Option<String>,
    pub previous_runtime_key: Option<String>,
    pub default_runtime_id: Option<String>,
    pub marker_runtime_keys: Vec<String>,
}

pub struct InputsView {
    pub active: Option<Seq<char>>,
    pub previous: Option<Seq<char>>,
    pub default_id: Option<Seq<char>>,
    pub markers: Seq<Seq<char>>,
}

impl View for RetentionInputs {
    type V = InputsView;

    open spec fn view(&self) -> InputsView {
        InputsView {
            active: opt_view(self.active_runtime_key),
            previous: opt_view(self.previous_runtime_key),
            default_id: opt_view(self.default_runtime_id),
            markers: texts(self.marker_runtime_keys@),
        }
    }
}

impl Default for RetentionInputs {
    fn default() -> (r: RetentionInputs)
        ensures
            r@.active is None,
            r@.previous is None,
            r@.default_id is None,
            r@.markers.len() == 0,
    {
        RetentionInputs {
            active_runtime_key: None,
            previous_runtime_key: None,
            default_runtime_id: None,
            marker_runtime_keys: Vec::new(),
        }
    }
}

/// The runtimes the configuration names.
#[derive(Debug)]
pub struct RuntimeConfig {
    pub active_runtime_key: Option<String>,
    pub previous_runtime_key: Option<String>,
    pub default_runtime_id: Option<String>,
}

/// The runtimes the marker file names.
#[derive(Debug)]
pub struct ActiveRuntimeMarker {
    pub runtime_key: String,
    pub previous_runtime_key: Option<String>,
}

pub open spec fn marked_keys(marker: Option<ActiveRuntimeMarker>) -> Seq<Seq<char>> {
    match marker {
        Some(m) => match m.previous_runtime_key {
            Some(previous) => seq![m.runtime_key@, previous@],
            None => seq![m.runtime_key@],
        },
        None => seq![],
    }
}

impl RetentionInputs {
    pub fn from_config(config: &RuntimeConfig, marker: &Option<ActiveRuntimeMarker>) -> (r:
        RetentionInputs)
        ensures
            r@ == (InputsView {
                active: opt_view(config.active_runtime_key),
                previous: opt_view(config.previous_runtime_key),
                default_id: opt_view(config.default_runtime_id),
                markers: marked_keys(*marker),
            }),
    {
        let mut keys: Vec<String> = Vec::new();
        if let Some(m) = marker {
            keys.push(m.runtime_key.clone());
            if let Some(previous) = &m.previous_runtime_key {
                keys.push(previous.clone());
            }
        }
        assert(texts(keys@) =~= marked_keys(*marker));
        RetentionInputs {
            active_runtime_key: clone_opt(&config.active_runtime_key),
            previous_runtime_key: clone_opt(&config.previous_runtime_key),
            default_runtime_id: clone_opt(&config.default_runtime_id),
            marker_runtime_keys: keys,
        }
    }
}

/// Whether a value is there and is the other, whatever the case of its letters.
pub open spec fn is_ignoring_case(value: Option<Seq<char>>, other: Seq<char>) -> bool {
    value matches Some(v) && lower(v) == lower(other)
}

pub fn matches_ignore_case(value: &Option<String>, other: &str) -> (r: bool)
    ensures
        r == is_ignoring_case(opt_view(*value), other@),
{
    match value {
        Some(v) => same_ignoring_case(v.as_str(), other),
        None => false,
    }
}

/// Why an install is kept however old it is, if it is.
pub open spec fn hold_of(m: ManifestView, inputs: InputsView) -> Option<HoldReason> {
    if is_ignoring_case(inputs.active, m.runtime_key) {
        Some(HoldReason::Active)
    } else if is_ignoring_case(inputs.previous, m.runtime_key) {
        Some(HoldReason::Previous)
    } else if is_ignoring_case(inputs.default_id, m.runtime_id) {
        Some(HoldReason::Default)
    } else if exists|i: int|
        0 <= i < inputs.markers.len() && lower(#[trigger] inputs.markers[i]) == lower(
            m.runtime_key,
        ) {
        Some(HoldReason::Marker)
    } else if m.read_only || m.imported_from is Some {
        Some(HoldReason::NotOwned)
    } else {
        None
    }
}

pub fn unconditional_hold(manifest: &InstalledRuntimeManifest, inputs: &RetentionInputs) -> (r:
    Option<HoldReason>)
    ensures
        r == hold_of(manifest@, inputs@),
{
    let key = manifest.runtime_key.as_str();
    if matches_ignore_case(&inputs.active_runtime_key, key) {
        return Some(HoldReason::Active);
    }
    if matches_ignore_case(&inputs.previous_runtime_key, key) {
        return Some(HoldReason::Previous);
    }
    if matches_ignore_case(&inputs.default_runtime_id, manifest.runtime_id.as_str()) {
        return Some(HoldReason::Default);
    }
    let ghost marks = inputs@.markers;
    let mut i: usize = 0;
    while i < inputs.marker_runtime_keys.len()
        invariant
            i <= inputs.marker_runtime_keys@.len(),
            marks == inputs@.markers,
            marks == texts(inputs.marker_runtime_keys@),
            key@ == manifest@.runtime_key,
            !is_ignoring_case(inputs@.active, manifest@.runtime_key),
            !is_ignoring_case(inputs@.previous, manifest@.runtime_key),
            !is_ignoring_case(inputs@.default_id, manifest@.runtime_id),
            forall|j: int| 0 <= j < i ==> lower(#[trigger] marks[j]) != lower(key@),
        decreases inputs.marker_runtime_keys@.len() - i,
    {
        assert(marks[i as int] == inputs.marker_runtime_keys@[i as int]@);
        if same_ignoring_case(inputs.marker_runtime_keys[i].as_str(), key) {
            assert(lower(inputs@.markers[i as int]) == lower(manifest@.runtime_key));
            return Some(HoldReason::Marker);
        }
        i += 1;
    }
    if manifest.read_only || manifest.imported_from.is_some() {
        return Some(HoldReason::NotOwned);
    }
    None
}

// ---------------------------------------------------------------------------
// Which installs may go
// ---------------------------------------------------------------------------

/// What installs compete within: a machine with several GPUs keeps some of each
/// family.
pub open spec fn group_of(m: ManifestView) -> (Seq<char>, Seq<char>, Seq<char>) {
    (lower(m.channel), lower(m.format), lower(m.family))
}

pub fn retention_group(m: &InstalledRuntimeManifest) -> (r: (String, String, String))
    ensures
        (r.0@, r.1@, r.2@) == group_of(m@),
{
    (to_lower(m.channel.as_str()), to_lower(m.format.as_str()), to_lower(m.family.as_str()))
}

/// Whether install `j` is kept in preference to install `i`: it is of the same
/// group and newer, or as new and first by key, or first in the list.
pub open spec fn ranks_ahead(all: Seq<ManifestView>, j: int, i: int) -> bool {
    &&& j != i
    &&& group_of(all[j]) == group_of(all[i])
    &&& {
        ||| all[j].installed_at_unix_ms > all[i].installed_at_unix_ms
        ||| all[j].installed_at_unix_ms == all[i].installed_at_unix_ms && (text_before(
            all[j].runtime_key,
            all[i].runtime_key,
        ) || (all[j].runtime_key == all[i].runtime_key && j < i))
    }
}

/// How many of the first `n` installs that nothing else holds rank ahead of
/// install `i`.
pub open spec fn ahead(all: Seq<ManifestView>, inputs: InputsView, i: int, n: nat) -> nat
    decreases n,
{
    if n == 0 {
        0
    } else {
        ahead(all, inputs, i, (n - 1) as nat) + (if hold_of(all[n - 1], inputs) is None
            && ranks_ahead(all, n - 1, i) {
            1nat
        } else {
            0nat
        })
    }
}

/// Why install `i` is kept, if it is: something holds it, or fewer than `keep`
/// rank ahead of it.
pub open spec fn kept_because(
    all: Seq<ManifestView>,
    inputs: InputsView,
    keep: nat,
    i: int,
) -> Option<HoldReason> {
    match hold_of(all[i], inputs) {
        Some(reason) => Some(reason),
        None => if ahead(all, inputs, i, all.len()) < keep {
            Some(HoldReason::WithinKeepLimit)
        } else {
            None
        },
    }
}

/// The keys of the first `n` installs that may go, in order.
pub open spec fn going(all: Seq<ManifestView>, inputs: InputsView, keep: nat, n: nat) -> Seq<
    Seq<char>,
>
    decreases n,
{
    if n == 0 {
        seq![]
    } else {
        let before = going(all, inputs, keep, (n - 1) as nat);
        if kept_because(all, inputs, keep, n - 1) is None {
            before.push(all[n - 1].runtime_key)
        } else {
            before
        }
    }
}

/// Those of the first `n` installs that something holds, with what does.
pub open spec fn holding(all: Seq<ManifestView>, inputs: InputsView, n: nat) -> Seq<
    (Seq<char>, HoldReason),
>
    decreases n,
{
    if n == 0 {
        seq![]
    } else {
        let before = holding(all, inputs, (n - 1) as nat);
        match hold_of(all[n - 1], inputs) {
            Some(reason) => before.push((all[n - 1].runtime_key, reason)),
            None => before,
        }
    }
}

/// Those of the first `n` installs that are kept for being recent.
pub open spec fn recent(all: Seq<ManifestView>, inputs: InputsView, keep: nat, n: nat) -> Seq<
    (Seq<char>, HoldReason),
>
    decreases n,
{
    if n == 0 {
        seq![]
    } else {
        let before = recent(all, inputs, keep, (n - 1) as nat);
        if hold_of(all[n - 1], inputs) is None && kept_because(all, inputs, keep, n - 1) is Some {
            before.push((all[n - 1].runtime_key, HoldReason::WithinKeepLimit))
        } else {
            before
        }
    }
}

pub open spec fn by_key() -> spec_fn((Seq<char>, HoldReason), (Seq<char>, HoldReason)) -> bool {
    |a: (Seq<char>, HoldReason), b: (Seq<char>, HoldReason)| !text_before(b.0, a.0)
}

/// The keys of the installs that may go, by key.
pub open spec fn removable_keys(all: Seq<ManifestView>, inputs: InputsView, keep: nat) -> Seq<
    Seq<char>,
> {
    sorted(going(all, inputs, keep, all.len()), text_le())
}

/// The installs that are kept and why, by key; where a key occurs twice, what is
/// held before what is recent.
pub open spec fn held_keys(all: Seq<ManifestView>, inputs: InputsView, keep: nat) -> Seq<
    (Seq<char>, HoldReason),
> {
    sorted(holding(all, inputs, all.len()) + recent(all, inputs, keep, all.len()), by_key())
}

pub open spec fn held_views(s: Seq<(String, HoldReason)>) -> Seq<(Seq<char>, HoldReason)> {
    s.map_values(|h: (String, HoldReason)| (h.0@, h.1))
}

fn same_group(a: &InstalledRuntimeManifest, b: &InstalledRuntimeManifest) -> (r: bool)
    ensures
        r == (group_of(a@) == group_of(b@)),
{
    let x = retention_group(a);
    let y = retention_group(b);
    x.0 == y.0 && x.1 == y.1 && x.2 == y.2
}

fn is_ahead(manifests: &Vec<InstalledRuntimeManifest>, j: usize, i: usize) -> (r: bool)
    requires
        j < manifests@.len(),
        i < manifests@.len(),
    ensures
        r == ranks_ahead(manifest_views(manifests@), j as int, i as int),
{
    let a = &manifests[j];
    let b = &manifests[i];
    assert(manifest_views(manifests@)[j as int] == a@);
    assert(manifest_views(manifests@)[i as int] == b@);
    if j == i || !same_group(a, b) {
        return false;
    }
    if a.installed_at_unix_ms != b.installed_at_unix_ms {
        return a.installed_at_unix_ms > b.installed_at_unix_ms;
    }
    comes_before(a.runtime_key.as_str(), b.runtime_key.as_str()) || (a.runtime_key == b.runtime_key
        && j < i)
}

fn count_ahead(
    manifests: &Vec<InstalledRuntimeManifest>,
    inputs: &RetentionInputs,
    i: usize,
) -> (r: usize)
    requires
        i < manifests@.len(),
    ensures
        r == ahead(manifest_views(manifests@), inputs@, i as int, manifests@.len()),
{
    let ghost all = manifest_views(manifests@);
    let mut count: usize = 0;
    let mut n: usize = 0;
    while n < manifests.len()
        invariant
            n <= manifests@.len(),
            i < manifests@.len(),
            count <= n,
            all == manifest_views(manifests@),
            count == ahead(all, inputs@, i as int, n as nat),
        decreases manifests@.len() - n,
    {
        assert(all[n as int] == manifests@[n as int]@);
        if unconditional_hold(&manifests[n], inputs).is_none() && is_ahead(manifests, n, i) {
            count += 1;
        }
        n += 1;
    }
    count
}

/// Decides which installs may go, and why each of the others is kept.
pub fn select_runtimes_to_remove(
    manifests: &Vec<InstalledRuntimeManifest>,
    inputs: &RetentionInputs,
    keep: usize,
) -> (r: (Vec<String>, Vec<(String, HoldReason)>))
    ensures
        texts(r.0@) == removable_keys(manifest_views(manifests@), inputs@, keep as nat),
        held_views(r.1@) == held_keys(manifest_views(manifests@), inputs@, keep as nat),
{
    let ghost all = manifest_views(manifests@);
    let mut removable: Vec<String> = Vec::new();
    let mut held: Vec<(String, HoldReason)> = Vec::new();
    let mut kept: Vec<(String, HoldReason)> = Vec::new();
    let mut n: usize = 0;
    assert(texts(removable@) =~= seq![]);
    assert(held_views(held@) =~= seq![]);
    assert(held_views(kept@) =~= seq![]);
    while n < manifests.len()
        invariant
            n <= manifests@.len(),
            all == manifest_views(manifests@),
            texts(removable@) == going(all, inputs@, keep as nat, n as nat),
            held_views(held@) == holding(all, inputs@, n as nat),
            held_views(kept@) == recent(all, inputs@, keep as nat, n as nat),
        decreases manifests@.len() - n,
    {
        let m = &manifests[n];
        assert(all[n as int] == m@);
        match unconditional_hold(m, inputs) {
            Some(reason) => {
                let ghost before = held_views(held@);
                held.push((m.runtime_key.clone(), reason));
                assert(held_views(held@) =~= before.push((m@.runtime_key, reason)));
            },
            None => {
                if count_ahead(manifests, inputs, n) < keep {
                    let ghost before = held_views(kept@);
                    kept.push((m.runtime_key.clone(), HoldReason::WithinKeepLimit));
                    assert(held_views(kept@) =~= before.push(
                        (m@.runtime_key, HoldReason::WithinKeepLimit),
                    ));
                } else {
                    let ghost before = texts(removable@);
                    removable.push(m.runtime_key.clone());
                    assert(texts(removable@) =~= before.push(m@.runtime_key));
                }
            },
        }
        n += 1;
    }
    let removable = sort_texts(removable);
    let ghost first = held_views(held@);
    let ghost second = held_views(kept@);
    held.append(&mut kept);
    assert(held_views(held@) =~= first + second);
    let ghost le = |a: (String, HoldReason), b: (String, HoldReason)| !text_before(b.0@, a.0@);
    let ghost unsorted = held@;
    let no_later = |a: &(String, HoldReason), b: &(String, HoldReason)| -> (o: bool)
        ensures
            o == !text_before(b.0@, a.0@),
    {
        !comes_before(b.0.as_str(), a.0.as_str())
    };
    let held = sort(held, no_later, Ghost(le));
    proof {
        crate::order::lemma_sorted_map(
            unsorted,
            le,
            |h: (String, HoldReason)| (h.0@, h.1),
            by_key(),
        );
    }
    (removable, held)
}

// ---------------------------------------------------------------------------
// Laws of the selection
// ---------------------------------------------------------------------------

proof fn lemma_by_key_ranks()
    ensures
        ranks(by_key()),
{
    let le = by_key();
    let tle = text_le();
    crate::order::lemma_text_le_ranks();
    assert forall|a: (Seq<char>, HoldReason), b: (Seq<char>, HoldReason)| #[trigger]
        le(a, b) || le(b, a) by {
        assert(tle(a.0, b.0) || tle(b.0, a.0));
    }
    assert forall|
        a: (Seq<char>, HoldReason),
        b: (Seq<char>, HoldReason),
        c: (Seq<char>, HoldReason),
    | #[trigger] le(a, b) && #[trigger] le(b, c) implies le(a, c) by {
        assert(tle(a.0, b.0) && tle(b.0, c.0));
        assert(tle(a.0, c.0));
    }
}

proof fn lemma_going_len(all: Seq<ManifestView>, inputs: InputsView, keep: nat, n: nat)
    requires
        n <= all.len(),
    ensures
        going(all, inputs, keep, n).len() + holding(all, inputs, n).len() + recent(
            all,
            inputs,
            keep,
            n,
        ).len() == n,
    decreases n,
{
    if n > 0 {
        lemma_going_len(all, inputs, keep, (n - 1) as nat);
    }
}

/// Every install is accounted for: it may go, or it is kept for a reason given.
pub proof fn law_every_install_is_accounted_for(
    all: Seq<ManifestView>,
    inputs: InputsView,
    keep: nat,
)
    ensures
        removable_keys(all, inputs, keep).len() + held_keys(all, inputs, keep).len() == all.len(),
        ascending(removable_keys(all, inputs, keep), text_le()),
        ascending(held_keys(all, inputs, keep), by_key()),
{
    lemma_going_len(all, inputs, keep, all.len());
    crate::order::lemma_text_le_ranks();
    lemma_by_key_ranks();
    crate::order::lemma_sorted(going(all, inputs, keep, all.len()), text_le());
    crate::order::lemma_sorted(
        holding(all, inputs, all.len()) + recent(all, inputs, keep, all.len()),
        by_key(),
    );
}

proof fn lemma_going_from(all: Seq<ManifestView>, inputs: InputsView, keep: nat, n: nat, k: int)
    requires
        n <= all.len(),
        0 <= k < going(all, inputs, keep, n).len(),
    ensures
        exists|i: int|
            #![trigger all[i]]
            0 <= i < n && all[i].runtime_key == going(all, inputs, keep, n)[k] && hold_of(
                all[i],
                inputs,
            ) is None && ahead(all, inputs, i, all.len()) >= keep,
    decreases n,
{
    if n > 0 {
        let before = going(all, inputs, keep, (n - 1) as nat);
        if k < before.len() {
            lemma_going_from(all, inputs, keep, (n - 1) as nat, k);
            let i = choose|i: int|
                #![trigger all[i]]
                0 <= i < n - 1 && all[i].runtime_key == before[k] && hold_of(all[i], inputs) is None
                    && ahead(all, inputs, i, all.len()) >= keep;
            assert(all[i].runtime_key == going(all, inputs, keep, n)[k]);
        } else {
            assert(all[n - 1].runtime_key == going(all, inputs, keep, n)[k]);
        }
    }
}

/// Nothing may go that is in use, the rollback target, the default, marked, or
/// not the tool's own; and nothing may go while fewer than `keep` newer installs
/// of its kind are there to stay.
pub proof fn law_a_held_install_never_goes(
    all: Seq<ManifestView>,
    inputs: InputsView,
    keep: nat,
    k: int,
)
    requires
        0 <= k < removable_keys(all, inputs, keep).len(),
    ensures
        exists|i: int|
            #![trigger all[i]]
            0 <= i < all.len() && all[i].runtime_key == removable_keys(all, inputs, keep)[k]
                && hold_of(all[i], inputs) is None && ahead(all, inputs, i, all.len()) >= keep,
{
    broadcast use vstd::seq_lib::group_to_multiset_ensures;

    let g = going(all, inputs, keep, all.len());
    let s = removable_keys(all, inputs, keep);
    crate::order::lemma_text_le_ranks();
    crate::order::lemma_sorted(g, text_le());
    assert(s.contains(s[k]));
    assert(s.to_multiset().contains(s[k]));
    assert(g.to_multiset().contains(s[k]));
    assert(g.contains(s[k]));
    let j = choose|j: int| 0 <= j < g.len() && g[j] == s[k];
    lemma_going_from(all, inputs, keep, all.len(), j);
}

proof fn lemma_none_recent(all: Seq<ManifestView>, inputs: InputsView, n: nat)
    requires
        n <= all.len(),
    ensures
        recent(all, inputs, 0, n).len() == 0,
    decreases n,
{
    if n > 0 {
        lemma_none_recent(all, inputs, (n - 1) as nat);
    }
}

proof fn lemma_going_has(all: Seq<ManifestView>, inputs: InputsView, keep: nat, n: nat, i: int)
    requires
        0 <= i < n <= all.len(),
        kept_because(all, inputs, keep, i) is None,
    ensures
        going(all, inputs, keep, n).contains(all[i].runtime_key),
    decreases n,
{
    let now = going(all, inputs, keep, n);
    let before = going(all, inputs, keep, (n - 1) as nat);
    if i == n - 1 {
        assert(now[now.len() - 1] == all[i].runtime_key);
    } else {
        lemma_going_has(all, inputs, keep, (n - 1) as nat, i);
        let k = choose|k: int| 0 <= k < before.len() && before[k] == all[i].runtime_key;
        assert(now[k] == before[k]);
    }
}

/// With nothing to keep for being recent, exactly what something holds stays, and
/// everything else may go.
pub proof fn law_keeping_none_keeps_what_is_held(all: Seq<ManifestView>, inputs: InputsView)
    ensures
        held_keys(all, inputs, 0) == sorted(holding(all, inputs, all.len()), by_key()),
        forall|i: int|
            0 <= i < all.len() && hold_of(#[trigger] all[i], inputs) is None ==> removable_keys(
                all,
                inputs,
                0,
            ).contains(all[i].runtime_key),
{
    broadcast use vstd::seq_lib::group_to_multiset_ensures;

    let g = going(all, inputs, 0, all.len());
    lemma_none_recent(all, inputs, all.len());
    assert(holding(all, inputs, all.len()) + recent(all, inputs, 0, all.len()) =~= holding(
        all,
        inputs,
        all.len(),
    ));
    crate::order::lemma_text_le_ranks();
    crate::order::lemma_sorted(g, text_le());
    assert forall|i: int|
        0 <= i < all.len() && hold_of(#[trigger] all[i], inputs) is None implies removable_keys(
        all,
        inputs,
        0,
    ).contains(all[i].runtime_key) by {
        lemma_going_has(all, inputs, 0, all.len(), i);
        assert(g.to_multiset().contains(all[i].runtime_key));
        assert(removable_keys(all, inputs, 0).to_multiset().contains(all[i].runtime_key));
    }
}

// ---------------------------------------------------------------------------
// How many stay
// ---------------------------------------------------------------------------

/// The installs of a group that nothing else holds.
pub open spec fn contenders(
    all: Seq<ManifestView>,
    inputs: InputsView,
    group: (Seq<char>, Seq<char>, Seq<char>),
) -> Set<int> {
    Set::new(
        |i: int|
            0 <= i < all.len() && hold_of(all[i], inputs) is None && group_of(all[i]) == group,
    )
}

/// Those of them that stay.
pub open spec fn staying(
    all: Seq<ManifestView>,
    inputs: InputsView,
    keep: nat,
    group: (Seq<char>, Seq<char>, Seq<char>),
) -> Set<int> {
    contenders(all, inputs, group).filter(|i: int| kept_because(all, inputs, keep, i) is Some)
}

/// Whether `lt` puts the items of `u` in a line.
spec fn lines_up(u: Set<int>, lt: spec_fn(int, int) -> bool) -> bool {
    &&& forall|i: int| u.contains(i) ==> !#[trigger] lt(i, i)
    &&& forall|i: int, j: int|
        u.contains(i) && u.contains(j) && i != j ==> #[trigger] lt(i, j) || lt(j, i)
    &&& forall|i: int, j: int, k: int|
        u.contains(i) && u.contains(j) && u.contains(k) && #[trigger] lt(i, j) && #[trigger] lt(
            j,
            k,
        ) ==> lt(i, k)
}

proof fn lemma_last_in_line(u: Set<int>, lt: spec_fn(int, int) -> bool) -> (m: int)
    requires
        u.finite(),
        u.len() > 0,
        lines_up(u, lt),
    ensures
        u.contains(m),
        forall|i: int| u.contains(i) && i != m ==> #[trigger] lt(i, m),
        forall|i: int| u.contains(i) ==> !#[trigger] lt(m, i),
    decreases u.len(),
{
    let x = u.choose();
    let rest = u.remove(x);
    if rest.len() == 0 {
        assert forall|i: int| u.contains(i) implies i == x by {
            if i != x {
                assert(rest.contains(i));
            }
        }
        x
    } else {
        let m = lemma_last_in_line(rest, lt);
        let last = if lt(m, x) {
            x
        } else {
            m
        };
        assert forall|i: int| u.contains(i) && i != last implies #[trigger] lt(i, last) by {
            if i != x {
                assert(rest.contains(i));
            }
            if i != x && i != m {
                assert(lt(i, m));
            }
            assert(lt(m, x) || lt(x, m));
        }
        assert forall|i: int| u.contains(i) implies !#[trigger] lt(last, i) by {
            if lt(last, i) {
                if i != last {
                    assert(lt(i, last));
                    assert(lt(i, i));
                }
            }
        }
        last
    }
}

proof fn lemma_first_in_line(u: Set<int>, lt: spec_fn(int, int) -> bool, keep: nat)
    requires
        u.finite(),
        lines_up(u, lt),
    ensures
        u.filter(|i: int| u.filter(|j: int| lt(j, i)).len() < keep).len() == if u.len() < keep {
            u.len()
        } else {
            keep
        },
    decreases u.len(),
{
    let p = |i: int| u.filter(|j: int| lt(j, i)).len() < keep;
    if u.len() == 0 {
        assert(u.filter(p) =~= u);
    } else {
        let m = lemma_last_in_line(u, lt);
        let rest = u.remove(m);
        lemma_first_in_line(rest, lt, keep);
        let q = |i: int| rest.filter(|j: int| lt(j, i)).len() < keep;
        assert forall|i: int| rest.contains(i) implies u.filter(|j: int| lt(j, i)) == rest.filter(
            |j: int| lt(j, i),
        ) by {
            assert(u.filter(|j: int| lt(j, i)) =~= rest.filter(|j: int| lt(j, i)));
        }
        assert(u.filter(|j: int| lt(j, m)) =~= rest);
        let kept = rest.filter(q);
        if rest.len() < keep {
            assert(u.filter(p) =~= kept.insert(m));
        } else {
            assert(u.filter(p) =~= kept);
        }
    }
}

proof fn lemma_ahead_counts(all: Seq<ManifestView>, inputs: InputsView, i: int, n: nat)
    requires
        n <= all.len(),
    ensures
        ({
            let before = Set::new(
                |j: int| 0 <= j < n && hold_of(all[j], inputs) is None && ranks_ahead(all, j, i),
            );
            before.finite() && before.len() == ahead(all, inputs, i, n)
        }),
    decreases n,
{
    let before = Set::new(
        |j: int| 0 <= j < n && hold_of(all[j], inputs) is None && ranks_ahead(all, j, i),
    );
    if n == 0 {
        assert(before =~= Set::empty());
    } else {
        lemma_ahead_counts(all, inputs, i, (n - 1) as nat);
        let fewer = Set::new(
            |j: int|
                0 <= j < n - 1 && hold_of(all[j], inputs) is None && ranks_ahead(all, j, i),
        );
        if hold_of(all[n - 1], inputs) is None && ranks_ahead(all, n - 1, i) {
            assert(before =~= fewer.insert(n - 1));
        } else {
            assert(before =~= fewer);
        }
    }
}

proof fn lemma_contenders_line_up(
    all: Seq<ManifestView>,
    inputs: InputsView,
    group: (Seq<char>, Seq<char>, Seq<char>),
)
    ensures
        contenders(all, inputs, group).finite(),
        lines_up(contenders(all, inputs, group), |j: int, i: int| ranks_ahead(all, j, i)),
{
    let u = contenders(all, inputs, group);
    let lt = |j: int, i: int| ranks_ahead(all, j, i);
    vstd::set_lib::lemma_int_range(0, all.len() as int);
    let range = vstd::set_lib::set_int_range(0, all.len() as int);
    assert(u.subset_of(range));
    vstd::set_lib::lemma_len_subset(u, range);
    assert forall|i: int, j: int| u.contains(i) && u.contains(j) && i != j implies #[trigger] lt(
        i,
        j,
    ) || lt(j, i) by {
        crate::text::lemma_text_order(all[i].runtime_key, all[j].runtime_key);
    }
    assert forall|i: int, j: int, k: int|
        u.contains(i) && u.contains(j) && u.contains(k) && #[trigger] lt(i, j) && #[trigger] lt(
            j,
            k,
        ) implies lt(i, k) by {
        let (a, b, c) = (all[i].runtime_key, all[j].runtime_key, all[k].runtime_key);
        crate::text::lemma_text_order(a, b);
        crate::text::lemma_text_order(b, c);
        crate::text::lemma_text_order(a, c);
        if text_before(a, b) && text_before(b, c) {
            crate::text::lemma_text_order_transitive(a, b, c);
        }
    }
}

/// Of the installs of a group that nothing else holds, exactly `keep` stay, or
/// all where there are fewer.
pub proof fn law_as_many_stay_as_are_to_be_kept(
    all: Seq<ManifestView>,
    inputs: InputsView,
    keep: nat,
    group: (Seq<char>, Seq<char>, Seq<char>),
)
    ensures
        contenders(all, inputs, group).finite(),
        staying(all, inputs, keep, group).len() == if contenders(all, inputs, group).len() < keep {
            contenders(all, inputs, group).len()
        } else {
            keep
        },
{
    let u = contenders(all, inputs, group);
    let lt = |j: int, i: int| ranks_ahead(all, j, i);
    lemma_contenders_line_up(all, inputs, group);
    lemma_first_in_line(u, lt, keep);
    assert forall|i: int| u.contains(i) implies u.filter(|j: int| lt(j, i)).len() == ahead(
        all,
        inputs,
        i,
        all.len(),
    ) by {
        lemma_ahead_counts(all, inputs, i, all.len());
        assert(u.filter(|j: int| lt(j, i)) =~= Set::new(
            |j: int|
                0 <= j < all.len() && hold_of(all[j], inputs) is None && ranks_ahead(all, j, i),
        ));
    }
    assert(staying(all, inputs, keep, group) =~= u.filter(
        |i: int| u.filter(|j: int| lt(j, i)).len() < keep,
    ));
}

proof fn lemma_keeping_more(
    all: Seq<ManifestView>,
    inputs: InputsView,
    fewer: nat,
    more: nat,
    n: nat,
)
    requires
        fewer <= more,
        n <= all.len(),
    ensures
        going(all, inputs, more, n).to_multiset().subset_of(
            going(all, inputs, fewer, n).to_multiset(),
        ),
        going(all, inputs, more, n).len() <= going(all, inputs, fewer, n).len(),
    decreases n,
{
    broadcast use vstd::seq_lib::group_to_multiset_ensures;

    if n > 0 {
        lemma_keeping_more(all, inputs, fewer, more, (n - 1) as nat);
    }
}

/// Keeping more installs never lets one go that would have stayed.
pub proof fn law_keeping_more_removes_no_more(
    all: Seq<ManifestView>,
    inputs: InputsView,
    fewer: nat,
    more: nat,
)
    requires
        fewer <= more,
    ensures
        removable_keys(all, inputs, more).to_multiset().subset_of(
            removable_keys(all, inputs, fewer).to_multiset(),
        ),
        removable_keys(all, inputs, more).len() <= removable_keys(all, inputs, fewer).len(),
{
    broadcast use vstd::seq_lib::group_to_multiset_ensures;

    crate::order::lemma_text_le_ranks();
    crate::order::lemma_sorted(going(all, inputs, more, all.len()), text_le());
    crate::order::lemma_sorted(going(all, inputs, fewer, all.len()), text_le());
    lemma_keeping_more(all, inputs, fewer, more, all.len());
}

// ---------------------------------------------------------------------------
// The order of the list
// ---------------------------------------------------------------------------

/// Whether installs `k` and `k + 1` rank alike but for their place in the list.
spec fn tied(all: Seq<ManifestView>, k: int) -> bool {
    &&& group_of(all[k]) == group_of(all[k + 1])
    &&& all[k].installed_at_unix_ms == all[k + 1].installed_at_unix_ms
    &&& all[k].runtime_key == all[k + 1].runtime_key
}

/// Where install `i` stands once `k` and `k + 1` are exchanged.
spec fn moved(i: int, k: int) -> int {
    if i == k {
        k + 1
    } else if i == k + 1 {
        k
    } else {
        i
    }
}

proof fn lemma_ahead_exchanged(
    all: Seq<ManifestView>,
    inputs: InputsView,
    k: int,
    i: int,
    n: nat,
)
    requires
        0 <= k < all.len() - 1,
        0 <= i < all.len(),
        n <= k || k + 2 <= n <= all.len(),
        tied(all, k) ==> i != k && i != k + 1,
    ensures
        ahead(exchanged(all, k), inputs, moved(i, k), n) == ahead(all, inputs, i, n),
    decreases n,
{
    let e = exchanged(all, k);
    if n == 0 {
    } else if n == k + 2 {
        lemma_ahead_exchanged(all, inputs, k, i, k as nat);
        reveal_with_fuel(ahead, 3);
        assert(ranks_ahead(e, k, moved(i, k)) == ranks_ahead(all, k + 1, i));
        assert(ranks_ahead(e, k + 1, moved(i, k)) == ranks_ahead(all, k, i));
    } else {
        lemma_ahead_exchanged(all, inputs, k, i, (n - 1) as nat);
        assert(ranks_ahead(e, n - 1, moved(i, k)) == ranks_ahead(all, n - 1, i));
    }
}

/// How many unheld installs `m` counts for.
spec fn weight(m: ManifestView, inputs: InputsView) -> nat {
    if hold_of(m, inputs) is None {
        1
    } else {
        0
    }
}

proof fn lemma_ahead_tied(all: Seq<ManifestView>, inputs: InputsView, k: int, n: nat)
    requires
        0 <= k < all.len() - 1,
        n <= k || k + 2 <= n <= all.len(),
        tied(all, k),
    ensures
        ({
            let e = exchanged(all, k);
            let others = ahead(all, inputs, k, n);
            &&& ahead(e, inputs, k, n) == others
            &&& ahead(all, inputs, k + 1, n) == others + (if n <= k {
                0
            } else {
                weight(all[k], inputs)
            })
            &&& ahead(e, inputs, k + 1, n) == others + (if n <= k {
                0
            } else {
                weight(all[k + 1], inputs)
            })
        }),
    decreases n,
{
    let e = exchanged(all, k);
    crate::text::lemma_text_order(all[k].runtime_key, all[k].runtime_key);
    if n == 0 {
    } else if n == k + 2 {
        lemma_ahead_tied(all, inputs, k, k as nat);
        reveal_with_fuel(ahead, 3);
    } else {
        lemma_ahead_tied(all, inputs, k, (n - 1) as nat);
        assert(ranks_ahead(e, n - 1, k) == ranks_ahead(all, n - 1, k));
        assert(ranks_ahead(all, n - 1, k + 1) == ranks_ahead(all, n - 1, k));
        assert(ranks_ahead(e, n - 1, k + 1) == ranks_ahead(all, n - 1, k));
    }
}

/// The keys that go, and what stays with why, regardless of their order.
spec fn parts(all: Seq<ManifestView>, inputs: InputsView, keep: nat, n: nat) -> (
    Multiset<Seq<char>>,
    Multiset<(Seq<char>, HoldReason)>,
    Multiset<(Seq<char>, HoldReason)>,
) {
    (
        going(all, inputs, keep, n).to_multiset(),
        holding(all, inputs, n).to_multiset(),
        recent(all, inputs, keep, n).to_multiset(),
    )
}

/// One install more in each part it belongs to.
spec fn part_of(
    m: ManifestView,
    inputs: InputsView,
    kept: Option<HoldReason>,
) -> (
    Multiset<Seq<char>>,
    Multiset<(Seq<char>, HoldReason)>,
    Multiset<(Seq<char>, HoldReason)>,
) {
    match hold_of(m, inputs) {
        Some(reason) => (
            Multiset::empty(),
            Multiset::singleton((m.runtime_key, reason)),
            Multiset::empty(),
        ),
        None => if kept is Some {
            (
                Multiset::empty(),
                Multiset::empty(),
                Multiset::singleton((m.runtime_key, HoldReason::WithinKeepLimit)),
            )
        } else {
            (Multiset::singleton(m.runtime_key), Multiset::empty(), Multiset::empty())
        },
    }
}

proof fn lemma_one_part_more(all: Seq<ManifestView>, inputs: InputsView, keep: nat, n: nat)
    requires
        0 < n <= all.len(),
    ensures
        ({
            let before = parts(all, inputs, keep, (n - 1) as nat);
            let one = part_of(all[n - 1], inputs, kept_because(all, inputs, keep, n - 1));
            let now = parts(all, inputs, keep, n);
            &&& now.0 == before.0.add(one.0)
            &&& now.1 == before.1.add(one.1)
            &&& now.2 == before.2.add(one.2)
        }),
{
    broadcast use vstd::seq_lib::group_to_multiset_ensures;

    let before = parts(all, inputs, keep, (n - 1) as nat);
    let one = part_of(all[n - 1], inputs, kept_because(all, inputs, keep, n - 1));
    let now = parts(all, inputs, keep, n);
    assert(now.0 =~= before.0.add(one.0));
    assert(now.1 =~= before.1.add(one.1));
    assert(now.2 =~= before.2.add(one.2));
}

proof fn lemma_parts_exchanged(
    all: Seq<ManifestView>,
    inputs: InputsView,
    keep: nat,
    k: int,
    n: nat,
)
    requires
        0 <= k < all.len() - 1,
        n <= k || k + 2 <= n <= all.len(),
    ensures
        parts(exchanged(all, k), inputs, keep, n) == parts(all, inputs, keep, n),
    decreases n,
{
    let e = exchanged(all, k);
    let len = all.len();
    if n == 0 {
    } else if n == k + 2 {
        lemma_parts_exchanged(all, inputs, keep, k, k as nat);
        lemma_one_part_more(all, inputs, keep, (k + 1) as nat);
        lemma_one_part_more(all, inputs, keep, (k + 2) as nat);
        lemma_one_part_more(e, inputs, keep, (k + 1) as nat);
        lemma_one_part_more(e, inputs, keep, (k + 2) as nat);
        if tied(all, k) {
            lemma_ahead_tied(all, inputs, k, len);
        } else {
            lemma_ahead_exchanged(all, inputs, k, k, len);
            lemma_ahead_exchanged(all, inputs, k, k + 1, len);
        }
        let x = parts(all, inputs, keep, n);
        let y = parts(e, inputs, keep, n);
        assert(x.0 =~= y.0);
        assert(x.1 =~= y.1);
        assert(x.2 =~= y.2);
    } else {
        lemma_parts_exchanged(all, inputs, keep, k, (n - 1) as nat);
        lemma_one_part_more(all, inputs, keep, n);
        lemma_one_part_more(e, inputs, keep, n);
        lemma_ahead_exchanged(all, inputs, k, n - 1, len);
    }
}

proof fn lemma_parts_in_any_order(
    a: Seq<ManifestView>,
    b: Seq<ManifestView>,
    inputs: InputsView,
    keep: nat,
)
    requires
        a.to_multiset() == b.to_multiset(),
    ensures
        parts(a, inputs, keep, a.len()) == parts(b, inputs, keep, b.len()),
{
    let f = |s: Seq<ManifestView>| parts(s, inputs, keep, s.len());
    assert forall|s: Seq<ManifestView>, k: int| 0 <= k < s.len() - 1 implies f(
        #[trigger] exchanged(s, k),
    ) == f(s) by {
        lemma_parts_exchanged(s, inputs, keep, k, s.len());
    }
    lemma_any_order(f, a, b);
    assert(f(a) == f(b));
}

/// The decision does not depend on the order in which the installs are listed:
/// the same keys go and the same stay for the same reasons, and where no two
/// installs have one key, they are told in the same order too.
pub proof fn law_the_order_of_the_list_does_not_matter(
    a: Seq<ManifestView>,
    b: Seq<ManifestView>,
    inputs: InputsView,
    keep: nat,
)
    requires
        a.to_multiset() == b.to_multiset(),
    ensures
        removable_keys(a, inputs, keep) == removable_keys(b, inputs, keep),
        held_keys(a, inputs, keep).to_multiset() == held_keys(b, inputs, keep).to_multiset(),
        (forall|i: int, j: int|
            0 <= i < j < a.len() ==> (#[trigger] a[i]).runtime_key != (
            #[trigger] a[j]).runtime_key) ==> held_keys(a, inputs, keep) == held_keys(
            b,
            inputs,
            keep,
        ),
{
    broadcast use vstd::seq_lib::group_to_multiset_ensures;

    let (ga, gb) = (going(a, inputs, keep, a.len()), going(b, inputs, keep, b.len()));
    let (ha, hb) = (
        holding(a, inputs, a.len()) + recent(a, inputs, keep, a.len()),
        holding(b, inputs, b.len()) + recent(b, inputs, keep, b.len()),
    );
    lemma_parts_in_any_order(a, b, inputs, keep);
    crate::order::lemma_text_le_ranks();
    lemma_by_key_ranks();
    crate::order::lemma_sorted(ga, text_le());
    crate::order::lemma_sorted(gb, text_le());
    crate::order::lemma_sorted(ha, by_key());
    crate::order::lemma_sorted(hb, by_key());
    let (ra, rb) = (removable_keys(a, inputs, keep), removable_keys(b, inputs, keep));
    assert forall|x: Seq<char>, y: Seq<char>| #[trigger]
        text_le()(x, y) && #[trigger] text_le()(y, x) implies x == y by {
        crate::text::lemma_text_order(x, y);
    }
    lemma_ascending_unique(ra, rb, text_le());
    vstd::seq_lib::lemma_multiset_commutative(
        holding(a, inputs, a.len()),
        recent(a, inputs, keep, a.len()),
    );
    vstd::seq_lib::lemma_multiset_commutative(
        holding(b, inputs, b.len()),
        recent(b, inputs, keep, b.len()),
    );
    if forall|i: int, j: int|
        0 <= i < j < a.len() ==> (#[trigger] a[i]).runtime_key != (#[trigger] a[j]).runtime_key {
        let (sa, sb) = (held_keys(a, inputs, keep), held_keys(b, inputs, keep));
        let le = by_key();
        assert forall|x: (Seq<char>, HoldReason), y: (Seq<char>, HoldReason)|
            sa.contains(x) && sa.contains(y) && #[trigger] le(x, y) && #[trigger] le(
                y,
                x,
            ) implies x == y by {
            crate::text::lemma_text_order(x.0, y.0);
            assert(sa.to_multiset().contains(x) && sa.to_multiset().contains(y));
            assert(ha.contains(x) && ha.contains(y));
            lemma_held_from(a, inputs, keep, x);
            lemma_held_from(a, inputs, keep, y);
        }
        lemma_ascending_unique(sa, sb, le);
    }
}

proof fn lemma_held_from(
    all: Seq<ManifestView>,
    inputs: InputsView,
    keep: nat,
    h: (Seq<char>, HoldReason),
)
    requires
        (holding(all, inputs, all.len()) + recent(all, inputs, keep, all.len())).contains(h),
    ensures
        exists|i: int|
            #![trigger all[i]]
            0 <= i < all.len() && all[i].runtime_key == h.0 && kept_because(all, inputs, keep, i)
                == Some(h.1),
{
    let x = holding(all, inputs, all.len());
    let y = recent(all, inputs, keep, all.len());
    let k = choose|k: int| 0 <= k < (x + y).len() && (x + y)[k] == h;
    if k < x.len() {
        assert(x[k] == h);
        lemma_holding_from(all, inputs, keep, all.len(), k);
    } else {
        assert(y[k - x.len()] == h);
        lemma_recent_from(all, inputs, keep, all.len(), k - x.len());
    }
}

proof fn lemma_holding_from(all: Seq<ManifestView>, inputs: InputsView, keep: nat, n: nat, k: int)
    requires
        n <= all.len(),
        0 <= k < holding(all, inputs, n).len(),
    ensures
        exists|i: int|
            #![trigger all[i]]
            0 <= i < n && all[i].runtime_key == holding(all, inputs, n)[k].0 && kept_because(
                all,
                inputs,
                keep,
                i,
            ) == Some(holding(all, inputs, n)[k].1),
    decreases n,
{
    if n > 0 {
        let before = holding(all, inputs, (n - 1) as nat);
        if k < before.len() {
            lemma_holding_from(all, inputs, keep, (n - 1) as nat, k);
            assert(holding(all, inputs, n)[k] == before[k]);
        } else {
            assert(all[n - 1].runtime_key == holding(all, inputs, n)[k].0);
        }
    }
}

proof fn lemma_recent_from(all: Seq<ManifestView>, inputs: InputsView, keep: nat, n: nat, k: int)
    requires
        n <= all.len(),
        0 <= k < recent(all, inputs, keep, n).len(),
    ensures
        exists|i: int|
            #![trigger all[i]]
            0 <= i < n && all[i].runtime_key == recent(all, inputs, keep, n)[k].0 && kept_because(
                all,
                inputs,
                keep,
                i,
            ) == Some(recent(all, inputs, keep, n)[k].1),
    decreases n,
{
    if n > 0 {
        let before = recent(all, inputs, keep, (n - 1) as nat);
        if k < before.len() {
            lemma_recent_from(all, inputs, keep, (n - 1) as nat, k);
            assert(recent(all, inputs, keep, n)[k] == before[k]);
        } else {
            assert(all[n - 1].runtime_key == recent(all, inputs, keep, n)[k].0);
        }
    }
}

// ---------------------------------------------------------------------------
// What competes, and what is held
// ---------------------------------------------------------------------------

/// Two installs compete exactly if their channel, their format and their family are
/// each the same but for the case of the letters.
pub proof fn law_installs_compete_within_channel_format_and_family(
    a: ManifestView,
    b: ManifestView,
)
    ensures
        group_of(a) == group_of(b) <==> lower(a.channel) == lower(b.channel) && lower(a.format)
            == lower(b.format) && lower(a.family) == lower(b.family),
{
}

/// An install is held exactly if it is in use, the rollback target, the default,
/// marked, or not the tool's own; and the reason that is given is one that holds of
/// it.
pub proof fn law_a_hold_has_its_reason(m: ManifestView, inputs: InputsView)
    ensures
        ({
            let active = inputs.active matches Some(k) && lower(k) == lower(m.runtime_key);
            let previous = inputs.previous matches Some(k) && lower(k) == lower(m.runtime_key);
            let standard = inputs.default_id matches Some(k) && lower(k) == lower(m.runtime_id);
            let marked = exists|i: int|
                0 <= i < inputs.markers.len() && lower(#[trigger] inputs.markers[i]) == lower(
                    m.runtime_key,
                );
            let foreign = m.read_only || m.imported_from is Some;
            let hold = hold_of(m, inputs);
            &&& hold is Some <==> active || previous || standard || marked || foreign
            &&& active ==> hold == Some(HoldReason::Active)
            &&& previous && !active ==> hold == Some(HoldReason::Previous)
            &&& standard && !active && !previous ==> hold == Some(HoldReason::Default)
            &&& marked && !active && !previous && !standard ==> hold == Some(HoldReason::Marker)
            &&& foreign && !active && !previous && !standard && !marked ==> hold == Some(
                HoldReason::NotOwned,
            )
        }),
{
}

/// The unheld installs of the same channel, format and family that are to be kept
/// before install `i`: the newer ones, and of those as new the ones that come before
/// it by key.
pub open spec fn rivals(all: Seq<ManifestView>, inputs: InputsView, i: int) -> Set<int> {
    Set::new(
        |j: int|
            0 <= j < all.len() && j != i && hold_of(all[j], inputs) is None && lower(
                all[j].channel,
            ) == lower(all[i].channel) && lower(all[j].format) == lower(all[i].format) && lower(
                all[j].family,
            ) == lower(all[i].family) && (all[j].installed_at_unix_ms > all[i].installed_at_unix_ms
                || (all[j].installed_at_unix_ms == all[i].installed_at_unix_ms && (text_before(
                all[j].runtime_key,
                all[i].runtime_key,
            ) || (all[j].runtime_key == all[i].runtime_key && j < i)))),
    )
}

proof fn lemma_rivals(all: Seq<ManifestView>, inputs: InputsView, i: int)
    requires
        0 <= i < all.len(),
    ensures
        rivals(all, inputs, i).finite(),
        rivals(all, inputs, i).len() == ahead(all, inputs, i, all.len()),
{
    lemma_ahead_counts(all, inputs, i, all.len());
    assert(rivals(all, inputs, i) =~= Set::new(
        |j: int| 0 <= j < all.len() && hold_of(all[j], inputs) is None && ranks_ahead(all, j, i),
    ));
}

proof fn lemma_recent_has(all: Seq<ManifestView>, inputs: InputsView, keep: nat, n: nat, i: int)
    requires
        0 <= i < n <= all.len(),
        hold_of(all[i], inputs) is None,
        kept_because(all, inputs, keep, i) is Some,
    ensures
        recent(all, inputs, keep, n).contains((all[i].runtime_key, HoldReason::WithinKeepLimit)),
    decreases n,
{
    let x = (all[i].runtime_key, HoldReason::WithinKeepLimit);
    let now = recent(all, inputs, keep, n);
    let before = recent(all, inputs, keep, (n - 1) as nat);
    if i == n - 1 {
        assert(now[now.len() - 1] == x);
    } else {
        lemma_recent_has(all, inputs, keep, (n - 1) as nat, i);
        let k = choose|k: int| 0 <= k < before.len() && before[k] == x;
        assert(now[k] == before[k]);
    }
}

proof fn lemma_holding_has(all: Seq<ManifestView>, inputs: InputsView, n: nat, i: int)
    requires
        0 <= i < n <= all.len(),
        hold_of(all[i], inputs) is Some,
    ensures
        holding(all, inputs, n).contains((all[i].runtime_key, hold_of(all[i], inputs)->0)),
    decreases n,
{
    let x = (all[i].runtime_key, hold_of(all[i], inputs)->0);
    let now = holding(all, inputs, n);
    let before = holding(all, inputs, (n - 1) as nat);
    if i == n - 1 {
        assert(now[now.len() - 1] == x);
    } else {
        lemma_holding_has(all, inputs, (n - 1) as nat, i);
        let k = choose|k: int| 0 <= k < before.len() && before[k] == x;
        assert(now[k] == before[k]);
    }
}

/// What becomes of an install is decided by those it competes with alone. One that
/// something holds is kept for that reason. Any other goes exactly if at least `keep`
/// unheld installs of the same channel, format and family, whatever the case of their
/// letters, are newer, or as new and before it by key; and otherwise is kept for being
/// recent.
pub proof fn law_only_newer_installs_of_the_same_kind_push_one_out(
    all: Seq<ManifestView>,
    inputs: InputsView,
    keep: nat,
    i: int,
)
    requires
        0 <= i < all.len(),
    ensures
        rivals(all, inputs, i).finite(),
        ({
            let m = all[i];
            let goes = removable_keys(all, inputs, keep);
            let stays = held_keys(all, inputs, keep);
            match hold_of(m, inputs) {
                Some(reason) => stays.contains((m.runtime_key, reason)),
                None => if rivals(all, inputs, i).len() >= keep {
                    goes.contains(m.runtime_key)
                } else {
                    stays.contains((m.runtime_key, HoldReason::WithinKeepLimit))
                },
            }
        }),
{
    broadcast use vstd::seq_lib::group_to_multiset_ensures;

    let g = going(all, inputs, keep, all.len());
    let x = holding(all, inputs, all.len());
    let y = recent(all, inputs, keep, all.len());
    lemma_rivals(all, inputs, i);
    crate::order::lemma_text_le_ranks();
    lemma_by_key_ranks();
    crate::order::lemma_sorted(g, text_le());
    crate::order::lemma_sorted(x + y, by_key());
    match hold_of(all[i], inputs) {
        Some(reason) => {
            let h = (all[i].runtime_key, reason);
            lemma_holding_has(all, inputs, all.len(), i);
            let k = choose|k: int| 0 <= k < x.len() && x[k] == h;
            assert((x + y)[k] == h);
            assert((x + y).to_multiset().contains(h));
            assert(held_keys(all, inputs, keep).to_multiset().contains(h));
        },
        None => {
            if rivals(all, inputs, i).len() >= keep {
                lemma_going_has(all, inputs, keep, all.len(), i);
                assert(g.to_multiset().contains(all[i].runtime_key));
                assert(removable_keys(all, inputs, keep).to_multiset().contains(
                    all[i].runtime_key,
                ));
            } else {
                let h = (all[i].runtime_key, HoldReason::WithinKeepLimit);
                lemma_recent_has(all, inputs, keep, all.len(), i);
                let k = choose|k: int| 0 <= k < y.len() && y[k] == h;
                assert((x + y)[x.len() + k] == h);
                assert((x + y).to_multiset().contains(h));
                assert(held_keys(all, inputs, keep).to_multiset().contains(h));
            }
        },
    }
}

/// An install that may go leaves at least `keep` unheld ones of its channel, format
/// and family that are as new or newer, and every key that may go is that of such an
/// install.
pub proof fn law_what_goes_leaves_enough_of_its_kind(
    all: Seq<ManifestView>,
    inputs: InputsView,
    keep: nat,
    k: int,
)
    requires
        0 <= k < removable_keys(all, inputs, keep).len(),
    ensures
        exists|i: int|
            #![trigger all[i]]
            0 <= i < all.len() && all[i].runtime_key == removable_keys(all, inputs, keep)[k]
                && hold_of(all[i], inputs) is None && rivals(all, inputs, i).len() >= keep,
{
    law_a_held_install_never_goes(all, inputs, keep, k);
    let i = choose|i: int|
        #![trigger all[i]]
        0 <= i < all.len() && all[i].runtime_key == removable_keys(all, inputs, keep)[k]
            && hold_of(all[i], inputs) is None && ahead(all, inputs, i, all.len()) >= keep;
    lemma_rivals(all, inputs, i);
    assert(all[i].runtime_key == removable_keys(all, inputs, keep)[k]);
}

} // verus!
