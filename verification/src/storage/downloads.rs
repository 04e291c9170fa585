//! The plan for removing downloaded files, which can be downloaded again.

use vstd::prelude::*;
use crate::sizes::{ask, at_most, says, sum_of, takes_sizes};
use crate::order::{sort, sort_texts, sorted, text_le};
use crate::storage::measure::plus;
use crate::storage::prune::{review_end, show_review_end};
use crate::text::{
    comes_before, dec, ends_with, has_text, law_only_the_character_is_replaced,
    law_the_first_difference_orders_texts, lemma_has_text, lemma_replaced_concat,
    lemma_stands_within, replace, replaced, text_before, texts,
};

verus! {

/// What a walk below a download folder meets, besides folders.
#[derive(Debug)]
pub enum FoundDownload {
    Unreadable(String),
    File { path: String, bytes: u64 },
}

/// A download folder and, if it is there, what is in it.
#[derive(Debug)]
pub struct DownloadFolder {
    pub path: String,
    pub found: Option<Vec<FoundDownload>>,
}

/// A file to remove.
#[derive(Debug)]
pub struct DownloadEntry {
    pub kind: &'static str,
    pub path: String,
    pub bytes: u64,
}

pub struct DownloadView {
    pub kind: Seq<char>,
    pub path: Seq<char>,
    pub bytes: u64,
}

impl View for DownloadEntry {
    type V = DownloadView;

    open spec fn view(&self) -> DownloadView {
        DownloadView { kind: self.kind@, path: self.path@, bytes: self.bytes }
    }
}

pub open spec fn download_views(s: Seq<DownloadEntry>) -> Seq<DownloadView> {
    s.map_values(|e: DownloadEntry| e@)
}

#[derive(Debug)]
pub struct DownloadsPlan {
    pub actions: Vec<DownloadEntry>,
    pub skipped: Vec<String>,
}

pub struct DownloadsPlanView {
    pub actions: Seq<DownloadView>,
    pub skipped: Seq<Seq<char>>,
}

impl View for DownloadsPlan {
    type V = DownloadsPlanView;

    open spec fn view(&self) -> DownloadsPlanView {
        DownloadsPlanView { actions: download_views(self.actions@), skipped: texts(self.skipped@) }
    }
}

// ---------------------------------------------------------------------------
// Building
// ---------------------------------------------------------------------------

/// The files of a walk.
pub open spec fn files_of(kind: Seq<char>, found: Seq<FoundDownload>) -> Seq<DownloadView>
    decreases found.len(),
{
    if found.len() == 0 {
        seq![]
    } else {
        let before = files_of(kind, found.drop_last());
        match found.last() {
            FoundDownload::File { path, bytes } => before.push(
                DownloadView { kind, path: path@, bytes },
            ),
            FoundDownload::Unreadable(path) => before,
        }
    }
}

pub open spec fn unread_of(found: Seq<FoundDownload>) -> Seq<Seq<char>>
    decreases found.len(),
{
    if found.len() == 0 {
        seq![]
    } else {
        let before = unread_of(found.drop_last());
        match found.last() {
            FoundDownload::File { path, bytes } => before,
            FoundDownload::Unreadable(path) => before.push("could not read "@ + path@),
        }
    }
}

pub open spec fn actions_in(kind: Seq<char>, folder: DownloadFolder) -> Seq<DownloadView> {
    match folder.found {
        None => seq![],
        Some(found) => files_of(kind, found@),
    }
}

pub open spec fn skipped_in(kind: Seq<char>, folder: DownloadFolder) -> Seq<Seq<char>> {
    let nothing = "nothing downloaded in "@ + folder.path@;
    match folder.found {
        None => seq![nothing],
        Some(found) => if files_of(kind, found@).len() == 0 {
            unread_of(found@).push(nothing)
        } else {
            unread_of(found@)
        },
    }
}

/// A path with its separators before every other character, so that the order of
/// the texts is the order of the paths, part by part. On Windows `\` separates as
/// `/` does.
pub open spec fn path_rank(path: Seq<char>, windows: bool) -> Seq<char> {
    let parted = replaced(path, '/', "\0"@);
    if windows {
        replaced(parted, '\\', "\0"@)
    } else {
        parted
    }
}

pub open spec fn by_path(windows: bool) -> spec_fn(DownloadView, DownloadView) -> bool {
    |a: DownloadView, b: DownloadView|
        !text_before(path_rank(b.path, windows), path_rank(a.path, windows))
}

pub open spec fn downloads_plan(
    archives: DownloadFolder,
    tools: DownloadFolder,
    windows: bool,
) -> DownloadsPlanView {
    DownloadsPlanView {
        actions: sorted(
            actions_in("ROCm archive"@, archives) + actions_in("helper tool archive"@, tools),
            by_path(windows),
        ),
        skipped: sorted(
            skipped_in("ROCm archive"@, archives) + skipped_in("helper tool archive"@, tools),
            text_le(),
        ),
    }
}

fn collect(
    kind: &'static str,
    folder: &DownloadFolder,
    actions: &mut Vec<DownloadEntry>,
    skipped: &mut Vec<String>,
)
    ensures
        download_views(final(actions)@) == download_views(old(actions)@) + actions_in(
            kind@,
            *folder,
        ),
        texts(final(skipped)@) == texts(old(skipped)@) + skipped_in(kind@, *folder),
{
    let ghost a0 = download_views(actions@);
    let ghost s0 = texts(skipped@);
    let mut nothing = "nothing downloaded in ".to_owned();
    nothing.push_str(folder.path.as_str());
    match &folder.found {
        None => {
            skipped.push(nothing);
            assert(texts(skipped@) =~= s0 + seq![nothing@]);
            assert(a0 + seq![] =~= a0);
        },
        Some(found) => {
            let mut any = false;
            let mut i: usize = 0;
            assert(a0 + files_of(kind@, found@.subrange(0, 0)) =~= a0);
            assert(s0 + unread_of(found@.subrange(0, 0)) =~= s0);
            while i < found.len()
                invariant
                    i <= found@.len(),
                    download_views(actions@) == a0 + files_of(kind@, found@.subrange(0, i as int)),
                    texts(skipped@) == s0 + unread_of(found@.subrange(0, i as int)),
                    any == (files_of(kind@, found@.subrange(0, i as int)).len() > 0),
                decreases found@.len() - i,
            {
                let ghost done = found@.subrange(0, i as int);
                assert(found@.subrange(0, i + 1).drop_last() =~= done);
                match &found[i] {
                    FoundDownload::File { path, bytes } => {
                        let ghost before = download_views(actions@);
                        actions.push(DownloadEntry { kind, path: path.clone(), bytes: *bytes });
                        assert(download_views(actions@) =~= before.push(actions@.last()@));
                        assert(download_views(actions@) =~= a0 + files_of(kind@, done).push(
                            actions@.last()@,
                        ));
                        any = true;
                    },
                    FoundDownload::Unreadable(path) => {
                        let ghost before = texts(skipped@);
                        let mut line = "could not read ".to_owned();
                        line.push_str(path.as_str());
                        skipped.push(line);
                        assert(texts(skipped@) =~= before.push(line@));
                        assert(texts(skipped@) =~= s0 + unread_of(done).push(line@));
                    },
                }
                i += 1;
            }
            assert(found@.subrange(0, found@.len() as int) =~= found@);
            if !any {
                let ghost before = texts(skipped@);
                skipped.push(nothing);
                assert(texts(skipped@) =~= before.push(nothing@));
                assert(texts(skipped@) =~= s0 + unread_of(found@).push(nothing@));
            }
        },
    }
}

fn rank_path(path: &str, windows: bool) -> (r: String)
    ensures
        r@ == path_rank(path@, windows),
{
    let parted = replace(path, '/', "\0");
    if windows {
        replace(parted.as_str(), '\\', "\0")
    } else {
        parted
    }
}

/// Plans the removal of what was downloaded; `windows` says by which platform's
/// paths the files are ordered.
pub fn build_downloads_plan(
    archives: &DownloadFolder,
    tools: &DownloadFolder,
    windows: bool,
) -> (r: DownloadsPlan)
    ensures
        r@ == downloads_plan(*archives, *tools, windows),
{
    let mut actions: Vec<DownloadEntry> = Vec::new();
    let mut skipped: Vec<String> = Vec::new();
    collect("ROCm archive", archives, &mut actions, &mut skipped);
    collect("helper tool archive", tools, &mut actions, &mut skipped);
    assert(download_views(actions@) =~= actions_in("ROCm archive"@, *archives) + actions_in(
        "helper tool archive"@,
        *tools,
    ));
    assert(texts(skipped@) =~= skipped_in("ROCm archive"@, *archives) + skipped_in(
        "helper tool archive"@,
        *tools,
    ));
    let ghost unsorted = actions@;
    let ghost le = |a: DownloadEntry, b: DownloadEntry|
        !text_before(path_rank(b.path@, windows), path_rank(a.path@, windows));
    let no_later = |a: &DownloadEntry, b: &DownloadEntry| -> (o: bool)
        ensures
            o == !text_before(path_rank(b.path@, windows), path_rank(a.path@, windows)),
    {
        !comes_before(
            rank_path(b.path.as_str(), windows).as_str(),
            rank_path(a.path.as_str(), windows).as_str(),
        )
    };
    let actions = sort(actions, no_later, Ghost(le));
    proof {
        crate::order::lemma_sorted_map(unsorted, le, |e: DownloadEntry| e@, by_path(windows));
    }
    DownloadsPlan { actions, skipped: sort_texts(skipped) }
}

// ---------------------------------------------------------------------------
// Rendering
// ---------------------------------------------------------------------------

pub open spec fn freed_by(s: Seq<DownloadView>) -> u64
    decreases s.len(),
{
    if s.len() == 0 {
        0
    } else {
        plus(freed_by(s.drop_last()), s.last().bytes)
    }
}

pub open spec fn download_lines(s: Seq<DownloadView>) -> Seq<char>
    decreases s.len(),
{
    if s.len() == 0 {
        seq![]
    } else {
        download_lines(s.drop_last()) + "  - "@ + s.last().kind + ": "@ + s.last().path + "\n"@
    }
}

pub open spec fn downloads_text(
    size: spec_fn(u64) -> Seq<char>,
    plan: DownloadsPlanView,
    dry_run: bool,
) -> Seq<char> {
    "Downloaded file review\n\n"@ + (if plan.actions.len() == 0 {
        "Nothing would be removed.\n"@
    } else {
        dec(plan.actions.len()) + " downloaded file(s) would be removed, freeing about "@
            + size(freed_by(plan.actions)) + ":\n"@ + download_lines(plan.actions)
            + "\nROCm CLI downloads these again when it needs them.\n"@
    }) + review_end(plan.skipped, dry_run)
}

/// Renders a plan; `size` says how a size reads.
pub fn render_downloads_plan<F: Fn(u64) -> String>(
    plan: &DownloadsPlan,
    dry_run: bool,
    size: &F,
) -> (r: String)
    requires
        takes_sizes(*size),
    ensures
        forall|told: spec_fn(u64) -> Seq<char>| #[trigger]
            says(*size, told) ==> r@ == downloads_text(told, plan@, dry_run),
{
    let ghost all = download_views(plan.actions@);
    let mut out = "Downloaded file review\n\n".to_owned();
    if plan.actions.len() == 0 {
        out.push_str("Nothing would be removed.\n");
    } else {
        let mut freed: u64 = 0;
        let mut list = String::new();
        let mut i: usize = 0;
        assert(all.subrange(0, 0) =~= seq![]);
        while i < plan.actions.len()
            invariant
                i <= plan.actions@.len(),
                all == download_views(plan.actions@),
                freed == freed_by(all.subrange(0, i as int)),
                list@ == download_lines(all.subrange(0, i as int)),
            decreases plan.actions@.len() - i,
        {
            assert(all.subrange(0, i + 1).drop_last() =~= all.subrange(0, i as int));
            let entry = &plan.actions[i];
            freed = freed.saturating_add(entry.bytes);
            list.push_str("  - ");
            list.push_str(entry.kind);
            list.push_str(": ");
            list.push_str(entry.path.as_str());
            list.push_str("\n");
            i += 1;
        }
        assert(all.subrange(0, all.len() as int) =~= all);
        let mut part = crate::text::number(plan.actions.len() as u128);
        part.push_str(" downloaded file(s) would be removed, freeing about ");
        part.push_str(ask(size, freed).as_str());
        part.push_str(":\n");
        part.push_str(list.as_str());
        part.push_str("\nROCm CLI downloads these again when it needs them.\n");
        out.push_str(part.as_str());
    }
    out.push_str(show_review_end(&plan.skipped, dry_run).as_str());
    out
}

// ---------------------------------------------------------------------------
// Laws
// ---------------------------------------------------------------------------

/// The files of a folder, each as what it is called.
pub open spec fn found_in(kind: Seq<char>, folder: DownloadFolder) -> Seq<DownloadView> {
    match folder.found {
        None => seq![],
        Some(found) => found@.filter(|f: FoundDownload| f is File).map_values(
            |f: FoundDownload|
                DownloadView { kind, path: f->File_path@, bytes: f->File_bytes },
        ),
    }
}

proof fn lemma_files(kind: Seq<char>, found: Seq<FoundDownload>)
    ensures
        files_of(kind, found) == found.filter(|f: FoundDownload| f is File).map_values(
            |f: FoundDownload|
                DownloadView { kind, path: f->File_path@, bytes: f->File_bytes },
        ),
    decreases found.len(),
{
    reveal(Seq::filter);
    let p = |f: FoundDownload| f is File;
    let g = |f: FoundDownload| DownloadView { kind, path: f->File_path@, bytes: f->File_bytes };
    if found.len() > 0 {
        let front = found.drop_last();
        lemma_files(kind, front);
        if p(found.last()) {
            assert(found.filter(p).map_values(g) =~= front.filter(p).map_values(g).push(
                g(found.last()),
            ));
        }
    } else {
        assert(found.filter(p).map_values(g) =~= seq![]);
    }
}

proof fn lemma_by_path_ranks(windows: bool)
    ensures
        crate::order::ranks(by_path(windows)),
{
    let le = by_path(windows);
    let by_text = text_le();
    crate::order::lemma_text_le_ranks();
    assert forall|a: DownloadView, b: DownloadView| #[trigger] le(a, b) || le(b, a) by {
        assert(by_text(path_rank(a.path, windows), path_rank(b.path, windows)) || by_text(
            path_rank(b.path, windows),
            path_rank(a.path, windows),
        ));
    }
    assert forall|a: DownloadView, b: DownloadView, c: DownloadView| #[trigger]
        le(a, b) && #[trigger] le(b, c) implies le(a, c) by {
        let (x, y, z) = (
            path_rank(a.path, windows),
            path_rank(b.path, windows),
            path_rank(c.path, windows),
        );
        assert(by_text(x, y) && by_text(y, z));
        assert(by_text(x, z));
    }
}

/// Every file that was found is to be removed, once, under its path, with its size and as
/// what the folder holds; nothing else is; and they are listed by their paths.
pub proof fn law_every_downloaded_file_is_to_be_removed(
    archives: DownloadFolder,
    tools: DownloadFolder,
    windows: bool,
)
    ensures
        ({
            let actions = downloads_plan(archives, tools, windows).actions;
            &&& actions.to_multiset() == (found_in("ROCm archive"@, archives) + found_in(
                "helper tool archive"@,
                tools,
            )).to_multiset()
            &&& actions.len() == found_in("ROCm archive"@, archives).len() + found_in(
                "helper tool archive"@,
                tools,
            ).len()
            &&& forall|i: int, j: int|
                0 <= i < j < actions.len() ==> !text_before(
                    path_rank((#[trigger] actions[j]).path, windows),
                    path_rank((#[trigger] actions[i]).path, windows),
                )
        }),
{
    if let Some(found) = archives.found {
        lemma_files("ROCm archive"@, found@);
    }
    if let Some(found) = tools.found {
        lemma_files("helper tool archive"@, found@);
    }
    let le = by_path(windows);
    let all = actions_in("ROCm archive"@, archives) + actions_in("helper tool archive"@, tools);
    lemma_by_path_ranks(windows);
    crate::order::lemma_sorted(all, le);
    let actions = sorted(all, le);
    assert forall|i: int, j: int| 0 <= i < j < actions.len() implies !text_before(
        path_rank((#[trigger] actions[j]).path, windows),
        path_rank((#[trigger] actions[i]).path, windows),
    ) by {
        assert(le(actions[i], actions[j]));
    }
}

/// Paths are ordered part by part: what is in a folder comes before what only begins like
/// the folder's name, whatever follows there. On Windows either separator ends a part.
pub proof fn law_a_path_is_ordered_part_by_part(
    folder: Seq<char>,
    inside: Seq<char>,
    c: char,
    rest: Seq<char>,
    windows: bool,
)
    requires
        c != '/',
        c as u32 > 0,
        windows ==> c != '\\',
    ensures
        text_before(
            path_rank(folder + seq!['/'] + inside, windows),
            path_rank(folder + seq![c] + rest, windows),
        ),
        windows ==> text_before(
            path_rank(folder + seq!['\\'] + inside, windows),
            path_rank(folder + seq![c] + rest, windows),
        ),
{
    reveal_strlit("\0");
    let nul = "\0"@;
    assert(nul =~= seq!['\0']);
    lemma_rank_parts(folder, '/', inside, windows);
    lemma_rank_parts(folder, c, rest, windows);
    let f = path_rank(folder, windows);
    let (x, y) = (path_rank(inside, windows), path_rank(rest, windows));
    law_the_first_difference_orders_texts(f, '\0', c, x, y);
    if windows {
        lemma_rank_parts(folder, '\\', inside, windows);
    }
}

proof fn lemma_rank_parts(a: Seq<char>, c: char, b: Seq<char>, windows: bool)
    ensures
        path_rank(a + seq![c] + b, windows) == path_rank(a, windows) + seq![
            if c == '/' || (windows && c == '\\') {
                '\0'
            } else {
                c
            },
        ] + path_rank(b, windows),
{
    reveal_strlit("\0");
    let nul = "\0"@;
    assert(nul =~= seq!['\0']);
    let one = seq![c];
    lemma_replaced_concat(a + one, b, '/', nul);
    lemma_replaced_concat(a, one, '/', nul);
    law_only_the_character_is_replaced(a, '/', nul, c);
    if windows {
        let p = replaced(a, '/', nul);
        let q = replaced(one, '/', nul);
        let r = replaced(b, '/', nul);
        lemma_replaced_concat(p + q, r, '\\', nul);
        lemma_replaced_concat(p, q, '\\', nul);
        law_only_the_character_is_replaced(p, '\\', nul, q[0]);
    }
}

/// A folder that holds no file is told of, and so is every place that could not be read,
/// and nothing else is.
pub proof fn law_an_empty_folder_is_told_of(
    archives: DownloadFolder,
    tools: DownloadFolder,
    windows: bool,
)
    ensures
        ({
            let told = downloads_plan(archives, tools, windows).skipped;
            let of = |folder: DownloadFolder|
                (match folder.found {
                    None => seq![],
                    Some(found) => found@.filter(|f: FoundDownload| f is Unreadable).map_values(
                        |f: FoundDownload| "could not read "@ + f->Unreadable_0@,
                    ),
                }) + (if found_in("ROCm archive"@, folder).len() == 0 {
                    seq!["nothing downloaded in "@ + folder.path@]
                } else {
                    seq![]
                });
            told.to_multiset() == (of(archives) + of(tools)).to_multiset()
        }),
{
    let of = |folder: DownloadFolder|
        (match folder.found {
            None => seq![],
            Some(found) => found@.filter(|f: FoundDownload| f is Unreadable).map_values(
                |f: FoundDownload| "could not read "@ + f->Unreadable_0@,
            ),
        }) + (if found_in("ROCm archive"@, folder).len() == 0 {
            seq!["nothing downloaded in "@ + folder.path@]
        } else {
            seq![]
        });
    lemma_skipped("ROCm archive"@, archives);
    lemma_skipped("helper tool archive"@, tools);
    assert(skipped_in("ROCm archive"@, archives) =~= of(archives));
    assert(skipped_in("helper tool archive"@, tools) =~= of(tools));
    crate::order::lemma_text_le_ranks();
    crate::order::lemma_sorted(of(archives) + of(tools), text_le());
}

proof fn lemma_skipped(kind: Seq<char>, folder: DownloadFolder)
    ensures
        found_in(kind, folder).len() == found_in("ROCm archive"@, folder).len(),
        folder.found matches Some(found) ==> unread_of(found@) == found@.filter(
            |f: FoundDownload| f is Unreadable,
        ).map_values(|f: FoundDownload| "could not read "@ + f->Unreadable_0@) && files_of(
            kind,
            found@,
        ).len() == found_in(kind, folder).len(),
{
    if let Some(found) = folder.found {
        lemma_files(kind, found@);
        lemma_unread(found@);
    }
}

proof fn lemma_unread(found: Seq<FoundDownload>)
    ensures
        unread_of(found) == found.filter(|f: FoundDownload| f is Unreadable).map_values(
            |f: FoundDownload| "could not read "@ + f->Unreadable_0@,
        ),
    decreases found.len(),
{
    reveal(Seq::filter);
    let p = |f: FoundDownload| f is Unreadable;
    let g = |f: FoundDownload| "could not read "@ + f->Unreadable_0@;
    if found.len() > 0 {
        let front = found.drop_last();
        lemma_unread(front);
        if p(found.last()) {
            assert(found.filter(p).map_values(g) =~= front.filter(p).map_values(g).push(
                g(found.last()),
            ));
        }
    } else {
        assert(found.filter(p).map_values(g) =~= seq![]);
    }
}

proof fn lemma_freed(s: Seq<DownloadView>)
    ensures
        freed_by(s) == at_most(sum_of(s.map_values(|e: DownloadView| e.bytes))),
    decreases s.len(),
{
    let f = |e: DownloadView| e.bytes;
    if s.len() > 0 {
        lemma_freed(s.drop_last());
        assert(s.map_values(f).drop_last() =~= s.drop_last().map_values(f));
    }
}

proof fn lemma_download_lines_hold(s: Seq<DownloadView>, i: int)
    requires
        0 <= i < s.len(),
    ensures
        has_text(download_lines(s), "  - "@ + s[i].kind + ": "@ + s[i].path + "\n"@),
    decreases s.len(),
{
    let front = download_lines(s.drop_last());
    let last = "  - "@ + s.last().kind + ": "@ + s.last().path + "\n"@;
    let none: Seq<char> = seq![];
    if i < s.len() - 1 {
        lemma_download_lines_hold(s.drop_last(), i);
        assert(download_lines(s) =~= none + front + last);
        lemma_stands_within(
            none,
            front,
            last,
            "  - "@ + s[i].kind + ": "@ + s[i].path + "\n"@,
        );
    } else {
        assert(download_lines(s) =~= front + last + none);
        lemma_has_text(front, last, none);
    }
}

/// A review tells how many files would go and what they free together, as far as that can
/// be counted, and each of them in a line of its own.
pub proof fn law_a_review_lists_every_file(
    size: spec_fn(u64) -> Seq<char>,
    plan: DownloadsPlanView,
    dry_run: bool,
    i: int,
)
    requires
        0 <= i < plan.actions.len(),
    ensures
        ({
            let text = downloads_text(size, plan, dry_run);
            let e = plan.actions[i];
            let freed = at_most(sum_of(plan.actions.map_values(|e: DownloadView| e.bytes)));
            &&& has_text(
                text,
                dec(plan.actions.len())
                    + " downloaded file(s) would be removed, freeing about "@ + size(freed)
                    + ":\n"@,
            )
            &&& has_text(text, "  - "@ + e.kind + ": "@ + e.path + "\n"@)
            &&& ends_with(text, review_end(plan.skipped, dry_run))
        }),
{
    let text = downloads_text(size, plan, dry_run);
    lemma_freed(plan.actions);
    lemma_download_lines_hold(plan.actions, i);
    let a = "Downloaded file review\n\n"@;
    let counted = dec(plan.actions.len())
        + " downloaded file(s) would be removed, freeing about "@ + size(freed_by(plan.actions))
        + ":\n"@;
    let lines = download_lines(plan.actions);
    let d = "\nROCm CLI downloads these again when it needs them.\n"@;
    let end = review_end(plan.skipped, dry_run);
    assert(text =~= a + counted + (lines + d + end));
    lemma_has_text(a, counted, lines + d + end);
    assert(text =~= (a + counted) + lines + (d + end));
    let e = plan.actions[i];
    lemma_stands_within(
        a + counted,
        lines,
        d + end,
        "  - "@ + e.kind + ": "@ + e.path + "\n"@,
    );
    assert(text.subrange(text.len() - end.len(), text.len() as int) =~= end);
}

} // verus!
