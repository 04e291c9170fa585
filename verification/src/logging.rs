//! Which log files are kept.

use vstd::prelude::*;
use crate::order::{exchanged, lemma_any_order, sort_texts, sorted, text_le};
use crate::text::{occurs_at, same, starts_with, text_before, texts};

verus! {

/// What the names of the client's log files begin with.
pub const LOG_FILE_PREFIX: &'static str = "rocm-cli.log";

/// How many rotated files are kept.
pub const MAX_RETAINED_LOGS: usize = 7;

/// What is logged where nothing else is asked for.
pub const DEFAULT_FILTER: &'static str =
    "warn,rocm=info,rocm_dash_tui=info,rocm_dash_daemon=info";

/// A rotated file: its name goes on behind the prefix.
pub open spec fn is_rotated(name: Seq<char>) -> bool {
    occurs_at(name, LOG_FILE_PREFIX@, 0) && name != LOG_FILE_PREFIX@
}

/// The rotated files among the names, in order.
pub open spec fn rotated(names: Seq<Seq<char>>) -> Seq<Seq<char>>
    decreases names.len(),
{
    if names.len() == 0 {
        seq![]
    } else {
        let before = rotated(names.drop_last());
        if is_rotated(names.last()) {
            before.push(names.last())
        } else {
            before
        }
    }
}

/// The rotated files by name, which is by date.
pub open spec fn by_date(names: Seq<Seq<char>>) -> Seq<Seq<char>> {
    sorted(rotated(names), text_le())
}

/// The oldest files, beyond those that are kept.
pub open spec fn outdated(names: Seq<Seq<char>>) -> Seq<Seq<char>> {
    let all = by_date(names);
    if all.len() <= MAX_RETAINED_LOGS {
        seq![]
    } else {
        all.subrange(0, all.len() - MAX_RETAINED_LOGS)
    }
}

/// Which of the files in the log folder are to be removed.
pub fn prune_old_logs(names: &Vec<String>) -> (r: Vec<String>)
    ensures
        texts(r@) == outdated(texts(names@)),
{
    let ghost all = texts(names@);
    let mut found: Vec<String> = Vec::new();
    let mut i: usize = 0;
    assert(all.subrange(0, 0) =~= seq![]);
    assert(texts(found@) =~= seq![]);
    while i < names.len()
        invariant
            i <= names@.len(),
            all == texts(names@),
            texts(found@) == rotated(all.subrange(0, i as int)),
        decreases names@.len() - i,
    {
        assert(all.subrange(0, i + 1).drop_last() =~= all.subrange(0, i as int));
        let name = &names[i];
        assert(all[i as int] == name@);
        if starts_with(name.as_str(), LOG_FILE_PREFIX) && !same(name.as_str(), LOG_FILE_PREFIX) {
            let ghost before = texts(found@);
            found.push(name.clone());
            assert(texts(found@) =~= before.push(name@));
        }
        i += 1;
    }
    assert(all.subrange(0, all.len() as int) =~= all);
    let ghost unsorted = texts(found@);
    let found = sort_texts(found);
    let mut out: Vec<String> = Vec::new();
    assert(texts(out@) =~= seq![]);
    if found.len() <= MAX_RETAINED_LOGS {
        return out;
    }
    let excess: usize = found.len() - MAX_RETAINED_LOGS;
    let ghost list = texts(found@);
    let mut k: usize = 0;
    assert(texts(out@) =~= list.subrange(0, 0));
    while k < excess
        invariant
            k <= excess <= found@.len(),
            list == texts(found@),
            texts(out@) == list.subrange(0, k as int),
        decreases excess - k,
    {
        let ghost before = texts(out@);
        out.push(found[k].clone());
        assert(texts(out@) =~= before.push(list[k as int]));
        assert(list.subrange(0, k + 1) =~= list.subrange(0, k as int).push(list[k as int]));
        k += 1;
    }
    out
}

/// Exactly the newest seven rotated files stay, or all where there are no more:
/// what goes is of an earlier date than, or the same as, everything that stays.
pub proof fn law_the_newest_logs_stay(names: Seq<Seq<char>>)
    ensures
        by_date(names).len() == rotated(names).len(),
        outdated(names).len() == if rotated(names).len() <= MAX_RETAINED_LOGS {
            0
        } else {
            rotated(names).len() - MAX_RETAINED_LOGS
        },
        forall|i: int, j: int|
            0 <= i < outdated(names).len() <= j < by_date(names).len() ==> !text_before(
                #[trigger] by_date(names)[j],
                #[trigger] outdated(names)[i],
            ),
{
    crate::order::lemma_text_le_ranks();
    crate::order::lemma_sorted(rotated(names), text_le());
    let all = by_date(names);
    let le = text_le();
    assert forall|i: int, j: int| 0 <= i < outdated(names).len() <= j < all.len() implies !text_before(
        #[trigger] all[j],
        #[trigger] outdated(names)[i],
    ) by {
        assert(le(all[i], all[j]));
    }
}

/// What is in the log folder once some of its files are gone.
pub open spec fn left_after(names: Seq<Seq<char>>, gone: Seq<Seq<char>>) -> Seq<Seq<char>> {
    names.filter(|n: Seq<char>| !gone.contains(n))
}

proof fn lemma_rotated_filter(names: Seq<Seq<char>>, p: spec_fn(Seq<char>) -> bool)
    ensures
        rotated(names.filter(p)) == rotated(names).filter(p),
    decreases names.len(),
{
    reveal(Seq::filter);
    if names.len() > 0 {
        let front = names.drop_last();
        let x = names.last();
        lemma_rotated_filter(front, p);
        assert(front.filter(p).push(x).drop_last() =~= front.filter(p));
        assert(rotated(front).push(x).drop_last() =~= rotated(front));
    }
}

proof fn lemma_filter_exchanged(s: Seq<Seq<char>>, p: spec_fn(Seq<char>) -> bool, k: int)
    requires
        0 <= k < s.len() - 1,
    ensures
        exchanged(s, k).filter(p).len() == s.filter(p).len(),
{
    let before = s.subrange(0, k);
    let after = s.subrange(k + 2, s.len() as int);
    let (x, y) = (seq![s[k]], seq![s[k + 1]]);
    assert(s =~= before + x + y + after);
    assert(exchanged(s, k) =~= before + y + x + after);
    Seq::filter_distributes_over_add(before + x + y, after, p);
    Seq::filter_distributes_over_add(before + x, y, p);
    Seq::filter_distributes_over_add(before, x, p);
    Seq::filter_distributes_over_add(before + y + x, after, p);
    Seq::filter_distributes_over_add(before + y, x, p);
    Seq::filter_distributes_over_add(before, y, p);
}

/// Once the outdated files are gone, none is outdated, and every file that is not
/// a rotated log is still there.
pub proof fn law_a_second_pruning_removes_nothing(names: Seq<Seq<char>>)
    ensures
        outdated(left_after(names, outdated(names))).len() == 0,
        forall|n: Seq<char>|
            names.contains(n) && !is_rotated(n) ==> #[trigger] left_after(
                names,
                outdated(names),
            ).contains(n),
{
    broadcast use vstd::seq_lib::group_to_multiset_ensures;

    let gone = outdated(names);
    let p = |n: Seq<char>| !gone.contains(n);
    let all = by_date(names);
    crate::order::lemma_text_le_ranks();
    crate::order::lemma_sorted(rotated(names), text_le());
    lemma_rotated_filter(names, p);
    let f = |s: Seq<Seq<char>>| s.filter(p).len();
    assert forall|s: Seq<Seq<char>>, k: int| 0 <= k < s.len() - 1 implies f(
        #[trigger] exchanged(s, k),
    ) == f(s) by {
        lemma_filter_exchanged(s, p, k);
    }
    lemma_any_order(f, rotated(names), all);
    assert(f(rotated(names)) == f(all));
    let stay = all.subrange(gone.len() as int, all.len() as int);
    assert(all =~= gone + stay);
    Seq::filter_distributes_over_add(gone, stay, p);
    stay.lemma_filter_len(p);
    assert(gone.filter(p).len() == 0) by {
        if gone.filter(p).len() > 0 {
            let x = gone.filter(p)[0];
            gone.lemma_filter_pred(p, 0);
            lemma_filter_keeps(gone, p);
            assert(gone.contains(x));
        }
    }
    let left = left_after(names, gone);
    crate::order::lemma_sorted(rotated(left), text_le());
    assert forall|n: Seq<char>| names.contains(n) && !is_rotated(n) implies #[trigger] left.contains(
        n,
    ) by {
        lemma_rotated(names);
        if gone.contains(n) {
            let g = choose|g: int| 0 <= g < gone.len() && gone[g] == n;
            assert(all[g] == n);
            assert(all.to_multiset().contains(n));
            assert(rotated(names).contains(n));
        }
        let i = choose|i: int| 0 <= i < names.len() && names[i] == n;
        names.lemma_filter_contains(p, i);
    }
}

proof fn lemma_filter_keeps(s: Seq<Seq<char>>, p: spec_fn(Seq<char>) -> bool)
    ensures
        forall|i: int| 0 <= i < s.filter(p).len() ==> s.contains(#[trigger] s.filter(p)[i]),
    decreases s.len(),
{
    reveal(Seq::filter);
    if s.len() > 0 {
        let front = s.drop_last();
        lemma_filter_keeps(front, p);
        assert forall|i: int| 0 <= i < s.filter(p).len() implies s.contains(
            #[trigger] s.filter(p)[i],
        ) by {
            if i < front.filter(p).len() {
                let x = front.filter(p)[i];
                let k = choose|k: int| 0 <= k < front.len() && front[k] == x;
                assert(s[k] == x);
            } else {
                assert(s[s.len() - 1] == s.last());
            }
        }
    }
}

proof fn lemma_rotated(names: Seq<Seq<char>>)
    ensures
        forall|i: int| 0 <= i < rotated(names).len() ==> is_rotated(#[trigger] rotated(names)[i]),
    decreases names.len(),
{
    if names.len() > 0 {
        let before = rotated(names.drop_last());
        lemma_rotated(names.drop_last());
        assert forall|i: int| 0 <= i < rotated(names).len() implies is_rotated(
            #[trigger] rotated(names)[i],
        ) by {
            if i < before.len() {
                assert(rotated(names)[i] == before[i]);
            }
        }
    }
}

proof fn lemma_rotated_by_name(names: Seq<Seq<char>>)
    ensures
        rotated(names) == names.filter(
            |n: Seq<char>| occurs_at(n, "rocm-cli.log"@, 0) && n.len() > 12,
        ),
    decreases names.len(),
{
    reveal(Seq::filter);
    reveal_strlit("rocm-cli.log");
    if names.len() > 0 {
        lemma_rotated_by_name(names.drop_last());
        let n = names.last();
        if occurs_at(n, "rocm-cli.log"@, 0) && n.len() == 12 {
            assert(n =~= n.subrange(0, 12));
        }
    }
}

/// A log file is one whose name begins as the tool's logs do and goes on behind that. Of
/// these, all but seven go, and those that go come first by name; the current one, and any
/// other file, is not among them.
pub proof fn law_all_but_the_last_seven_logs_go(names: Seq<Seq<char>>) -> (stay: Seq<Seq<char>>)
    ensures
        ({
            let logs = names.filter(
                |n: Seq<char>| occurs_at(n, "rocm-cli.log"@, 0) && n.len() > 12,
            );
            let go = outdated(names);
            &&& (go + stay).to_multiset() == logs.to_multiset()
            &&& logs.len() > 7 ==> stay.len() == 7
            &&& logs.len() <= 7 ==> go.len() == 0
            &&& forall|i: int, j: int|
                0 <= i < go.len() && 0 <= j < stay.len() ==> !text_before(
                    #[trigger] stay[j],
                    #[trigger] go[i],
                )
        }),
{
    lemma_rotated_by_name(names);
    crate::order::lemma_text_le_ranks();
    crate::order::lemma_sorted(rotated(names), text_le());
    let all = by_date(names);
    let go = outdated(names);
    let stay = all.subrange(go.len() as int, all.len() as int);
    assert(go + stay =~= all);
    let le = text_le();
    assert forall|i: int, j: int| 0 <= i < go.len() && 0 <= j < stay.len() implies !text_before(
        #[trigger] stay[j],
        #[trigger] go[i],
    ) by {
        assert(le(all[i], all[go.len() + j]));
    }
    stay
}

} // verus!
