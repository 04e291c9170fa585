//! Totalling what a folder takes.

use vstd::prelude::*;
use crate::sizes::{ask, at_most, lemma_sum_of_parts, says, sum_of, takes_sizes};
use crate::text::{has_text, occurs_at, opt_view};

verus! {

/// How much a folder takes. Incomplete where part of it could not be read.
#[derive(Debug, Clone, Copy, PartialEq, Eq, Structural)]
pub struct Measurement {
    pub bytes: u64,
    pub complete: bool,
}

/// What stands at the root of a walk.
#[derive(Debug, Clone, Copy, PartialEq, Eq, Structural)]
pub enum WalkRoot {
    Missing,
    File(u64),
    Folder,
}

/// What a walk meets below a folder.
#[derive(Debug, Clone, Copy, PartialEq, Eq, Structural)]
pub enum WalkEntry {
    /// A folder or an entry that could not be read.
    Unreadable,
    Folder,
    /// A file, or a link, which counts as itself and is not followed.
    File(u64),
}

/// The sum of two sizes, as far as it fits.
pub open spec fn plus(a: u64, b: u64) -> u64 {
    if a + b > u64::MAX {
        u64::MAX
    } else {
        (a + b) as u64
    }
}

pub open spec fn walked(entries: Seq<WalkEntry>) -> Measurement
    decreases entries.len(),
{
    if entries.len() == 0 {
        Measurement { bytes: 0, complete: true }
    } else {
        let before = walked(entries.drop_last());
        match entries.last() {
            WalkEntry::Unreadable => Measurement { bytes: before.bytes, complete: false },
            WalkEntry::Folder => before,
            WalkEntry::File(len) => Measurement {
                bytes: plus(before.bytes, len),
                complete: before.complete,
            },
        }
    }
}

/// What a walk comes to. A path that is not there is an incomplete nothing.
pub open spec fn measured(root: WalkRoot, entries: Seq<WalkEntry>) -> Measurement {
    match root {
        WalkRoot::Missing => Measurement { bytes: 0, complete: false },
        WalkRoot::File(len) => Measurement { bytes: len, complete: true },
        WalkRoot::Folder => walked(entries),
    }
}

/// Totals a walk. A part that could not be read never fails it.
pub fn measure_path(root: WalkRoot, entries: &Vec<WalkEntry>) -> (r: Measurement)
    ensures
        r == measured(root, entries@),
{
    match root {
        WalkRoot::Missing => Measurement { bytes: 0, complete: false },
        WalkRoot::File(len) => Measurement { bytes: len, complete: true },
        WalkRoot::Folder => {
            let mut total: u64 = 0;
            let mut complete = true;
            let mut i: usize = 0;
            assert(entries@.subrange(0, 0) =~= seq![]);
            while i < entries.len()
                invariant
                    i <= entries@.len(),
                    (Measurement { bytes: total, complete }) == walked(
                        entries@.subrange(0, i as int),
                    ),
                decreases entries@.len() - i,
            {
                assert(entries@.subrange(0, i + 1).drop_last() =~= entries@.subrange(0, i as int));
                match entries[i] {
                    WalkEntry::Unreadable => {
                        complete = false;
                    },
                    WalkEntry::Folder => {},
                    WalkEntry::File(len) => {
                        total = total.saturating_add(len);
                    },
                }
                i += 1;
            }
            assert(entries@.subrange(0, entries@.len() as int) =~= entries@);
            Measurement { bytes: total, complete }
        },
    }
}

/// One measured place.
#[derive(Debug)]
pub struct PathUsage {
    pub label: String,
    pub path: String,
    pub exists_on_disk: bool,
    pub size_bytes: Option<u64>,
    pub size_complete: bool,
    pub note: Option<String>,
}

pub struct UsageView {
    pub label: Seq<char>,
    pub path: Seq<char>,
    pub exists_on_disk: bool,
    pub size_bytes: Option<u64>,
    pub size_complete: bool,
    pub note: Option<Seq<char>>,
}

impl View for PathUsage {
    type V = UsageView;

    open spec fn view(&self) -> UsageView {
        UsageView {
            label: self.label@,
            path: self.path@,
            exists_on_disk: self.exists_on_disk,
            size_bytes: self.size_bytes,
            size_complete: self.size_complete,
            note: opt_view(self.note),
        }
    }
}

/// A place that may be there, and what it takes if it is.
#[derive(Debug)]
pub struct Folder {
    pub path: String,
    pub measured: Option<Measurement>,
}

pub open spec fn usage_of(label: Seq<char>, folder: Folder, note: Option<Seq<char>>) -> UsageView {
    UsageView {
        label,
        path: folder.path@,
        exists_on_disk: folder.measured is Some,
        size_bytes: match folder.measured {
            Some(m) => Some(m.bytes),
            None => None,
        },
        size_complete: folder.measured matches Some(m) && m.complete,
        note,
    }
}

/// A size that is known, known in part, or not.
pub open spec fn size_or_more(
    size: spec_fn(u64) -> Seq<char>,
    bytes: u64,
    complete: bool,
) -> Seq<char> {
    if complete {
        size(bytes)
    } else {
        size(bytes) + " or more (part unreadable)"@
    }
}

pub open spec fn usage_size(size: spec_fn(u64) -> Seq<char>, u: UsageView) -> Seq<char> {
    match u.size_bytes {
        None => if u.exists_on_disk {
            "unknown size (unreadable)"@
        } else {
            "not present"@
        },
        Some(bytes) => size_or_more(size, bytes, u.size_complete),
    }
}

pub fn show_size<F: Fn(u64) -> String>(bytes: u64, complete: bool, size: &F) -> (r: String)
    requires
        takes_sizes(*size),
    ensures
        forall|told: spec_fn(u64) -> Seq<char>| #[trigger]
            says(*size, told) ==> r@ == size_or_more(told, bytes, complete),
{
    let mut out = ask(size, bytes);
    if !complete {
        out.push_str(" or more (part unreadable)");
    }
    out
}

impl PathUsage {
    pub fn measure(label: &str, folder: &Folder, note: Option<&str>) -> (r: PathUsage)
        ensures
            r@ == usage_of(label@, *folder, crate::text::opt_text(note)),
    {
        let (size_bytes, size_complete) = match folder.measured {
            Some(m) => (Some(m.bytes), m.complete),
            None => (None, false),
        };
        PathUsage {
            label: label.to_owned(),
            path: folder.path.clone(),
            exists_on_disk: folder.measured.is_some(),
            size_bytes,
            size_complete,
            note: match note {
                Some(n) => Some(n.to_owned()),
                None => None,
            },
        }
    }

    pub fn size_text<F: Fn(u64) -> String>(&self, size: &F) -> (r: String)
        requires
            takes_sizes(*size),
        ensures
            forall|told: spec_fn(u64) -> Seq<char>| #[trigger]
                says(*size, told) ==> r@ == usage_size(told, self@),
    {
        match self.size_bytes {
            None => if self.exists_on_disk {
                "unknown size (unreadable)".to_owned()
            } else {
                "not present".to_owned()
            },
            Some(bytes) => show_size(bytes, self.size_complete, size),
        }
    }
}

// ---------------------------------------------------------------------------
// Laws
// ---------------------------------------------------------------------------

/// What an entry adds: a file what it takes, anything else nothing.
pub open spec fn file_len(e: WalkEntry) -> u64 {
    match e {
        WalkEntry::File(len) => len,
        _ => 0,
    }
}

proof fn lemma_walked(entries: Seq<WalkEntry>)
    ensures
        walked(entries).bytes == at_most(sum_of(entries.map_values(|e: WalkEntry| file_len(e)))),
        walked(entries).complete <==> !entries.contains(WalkEntry::Unreadable),
    decreases entries.len(),
{
    let sizes = entries.map_values(|e: WalkEntry| file_len(e));
    if entries.len() > 0 {
        let front = entries.drop_last();
        lemma_walked(front);
        assert(sizes.drop_last() =~= front.map_values(|e: WalkEntry| file_len(e)));
        assert(entries =~= front.push(entries.last()));
        if front.contains(WalkEntry::Unreadable) {
            let k = choose|k: int| 0 <= k < front.len() && front[k] == WalkEntry::Unreadable;
            assert(entries[k] == WalkEntry::Unreadable);
        }
        if entries.contains(WalkEntry::Unreadable) && entries.last() != WalkEntry::Unreadable {
            let k = choose|k: int| 0 <= k < entries.len() && entries[k] == WalkEntry::Unreadable;
            assert(front[k] == WalkEntry::Unreadable);
        }
        assert(entries[entries.len() - 1] == entries.last());
    }
}

/// A folder takes what the files met in it take together, as far as that can be
/// counted, and is measured completely exactly where nothing in it was unreadable.
/// A path that is not there is never measured completely.
pub proof fn law_a_folder_takes_what_its_files_take(entries: Seq<WalkEntry>, len: u64)
    ensures
        measured(WalkRoot::Folder, entries).bytes == at_most(
            sum_of(entries.map_values(|e: WalkEntry| file_len(e))),
        ),
        measured(WalkRoot::Folder, entries).complete <==> !entries.contains(WalkEntry::Unreadable),
        forall|i: int|
            0 <= i < entries.len() && entries[i] == WalkEntry::File(len) ==> measured(
                WalkRoot::Folder,
                entries,
            ).bytes >= len,
        measured(WalkRoot::File(len), entries) == (Measurement { bytes: len, complete: true }),
        measured(WalkRoot::Missing, entries).bytes == 0,
        !measured(WalkRoot::Missing, entries).complete,
{
    lemma_walked(entries);
    let sizes = entries.map_values(|e: WalkEntry| file_len(e));
    assert forall|i: int|
        0 <= i < entries.len() && entries[i] == WalkEntry::File(len) implies measured(
        WalkRoot::Folder,
        entries,
    ).bytes >= len by {
        lemma_sum_of_parts(sizes, i);
        assert(sizes[i] == len);
    }
}

/// A measured place is reported with what was measured and where it is. One that
/// is not there has no size.
pub proof fn law_a_place_is_reported_as_measured(
    label: Seq<char>,
    folder: Folder,
    note: Option<Seq<char>>,
)
    ensures
        ({
            let u = usage_of(label, folder, note);
            &&& u.label == label && u.path == folder.path@ && u.note == note
            &&& u.exists_on_disk <==> folder.measured is Some
            &&& u.size_bytes is Some <==> folder.measured is Some
            &&& folder.measured matches Some(m) ==> u.size_bytes == Some(m.bytes)
                && u.size_complete == m.complete
            &&& folder.measured is None ==> !u.size_complete
        }),
{
}

/// A size is shown as it reads, and one that is known in part says so: what is
/// shown of the two is never the same.
pub proof fn law_a_size_in_part_says_so(size: spec_fn(u64) -> Seq<char>, bytes: u64)
    ensures
        size_or_more(size, bytes, true) == size(bytes),
        occurs_at(size_or_more(size, bytes, false), size(bytes), 0),
        has_text(size_or_more(size, bytes, false), "or more"@),
        size_or_more(size, bytes, false) != size_or_more(size, bytes, true),
{
    let told = size_or_more(size, bytes, false);
    reveal_strlit(" or more (part unreadable)");
    reveal_strlit("or more");
    assert(told.subrange(0, size(bytes).len() as int) =~= size(bytes));
    let at = size(bytes).len() as int + 1;
    assert(told.subrange(at, at + 7) =~= "or more"@);
    assert(occurs_at(told, "or more"@, at));
    assert(told.len() == size(bytes).len() + 26);
}

} // verus!
