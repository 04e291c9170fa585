//! Stable sorting, by insertion.

use vstd::prelude::*;
use crate::text::{comes_before, lemma_text_order, lemma_text_order_transitive, text_before};

verus! {

/// `x` put into `s` behind everything it does not have to precede.
pub open spec fn inserted<T>(s: Seq<T>, x: T, le: spec_fn(T, T) -> bool) -> Seq<T>
    decreases s.len(),
{
    if s.len() == 0 || le(s.last(), x) {
        s.push(x)
    } else {
        inserted(s.drop_last(), x, le).push(s.last())
    }
}

/// The items of `s` in ascending order, equal ones in the order they had.
pub open spec fn sorted<T>(s: Seq<T>, le: spec_fn(T, T) -> bool) -> Seq<T>
    decreases s.len(),
{
    if s.len() == 0 {
        s
    } else {
        inserted(sorted(s.drop_last(), le), s.last(), le)
    }
}

/// A relation a sequence can be sorted by: any two items are comparable, and
/// the comparison carries over.
pub open spec fn ranks<T>(le: spec_fn(T, T) -> bool) -> bool {
    &&& forall|a: T, b: T| #[trigger] le(a, b) || le(b, a)
    &&& forall|a: T, b: T, c: T| #[trigger] le(a, b) && #[trigger] le(b, c) ==> le(a, c)
}

pub open spec fn ascending<T>(s: Seq<T>, le: spec_fn(T, T) -> bool) -> bool {
    forall|i: int, j: int| 0 <= i < j < s.len() ==> #[trigger] le(s[i], s[j])
}

proof fn lemma_inserted<T>(s: Seq<T>, x: T, le: spec_fn(T, T) -> bool)
    requires
        ranks(le),
        ascending(s, le),
    ensures
        ascending(inserted(s, x, le), le),
        inserted(s, x, le).to_multiset() == s.to_multiset().insert(x),
        inserted(s, x, le).len() == s.len() + 1,
    decreases s.len(),
{
    broadcast use vstd::seq_lib::group_to_multiset_ensures;

    if s.len() == 0 {
        assert(s.push(x).to_multiset() =~= s.to_multiset().insert(x));
    } else if le(s.last(), x) {
        let out = s.push(x);
        assert forall|i: int, j: int| 0 <= i < j < out.len() implies #[trigger] le(out[i], out[j]) by {
            if j == s.len() && i < s.len() - 1 {
                assert(le(s[i], s[s.len() - 1]));
            }
        }
        assert(s.push(x).to_multiset() =~= s.to_multiset().insert(x));
    } else {
        let front = s.drop_last();
        let y = s.last();
        assert forall|i: int, j: int| 0 <= i < j < front.len() implies #[trigger] le(
            front[i],
            front[j],
        ) by {
            assert(le(s[i], s[j]));
        }
        lemma_inserted(front, x, le);
        let mid = inserted(front, x, le);
        let out = mid.push(y);
        assert(le(x, y));
        assert forall|z: T| mid.contains(z) implies #[trigger] le(z, y) by {
            assert(mid.to_multiset().contains(z));
            if z != x {
                assert(front.to_multiset().contains(z));
                assert(front.contains(z));
                let k = choose|k: int| 0 <= k < front.len() && front[k] == z;
                assert(le(s[k], s[s.len() - 1]));
            }
        }
        assert forall|i: int, j: int| 0 <= i < j < out.len() implies #[trigger] le(out[i], out[j]) by {
            if j == mid.len() {
                assert(mid.contains(mid[i]));
            }
        }
        assert(s =~= front.push(y));
        assert(out.to_multiset() =~= s.to_multiset().insert(x));
    }
}

/// A sorted sequence ascends and has the items it was made of, each as often.
pub proof fn lemma_sorted<T>(s: Seq<T>, le: spec_fn(T, T) -> bool)
    requires
        ranks(le),
    ensures
        ascending(sorted(s, le), le),
        sorted(s, le).to_multiset() == s.to_multiset(),
        sorted(s, le).len() == s.len(),
    decreases s.len(),
{
    broadcast use vstd::seq_lib::group_to_multiset_ensures;

    if s.len() > 0 {
        lemma_sorted(s.drop_last(), le);
        lemma_inserted(sorted(s.drop_last(), le), s.last(), le);
        assert(s =~= s.drop_last().push(s.last()));
    }
}

proof fn lemma_inserted_map<T, U>(
    s: Seq<T>,
    x: T,
    le: spec_fn(T, T) -> bool,
    f: spec_fn(T) -> U,
    le2: spec_fn(U, U) -> bool,
)
    requires
        forall|a: T, b: T| #[trigger] le(a, b) == le2(f(a), f(b)),
    ensures
        inserted(s, x, le).map_values(f) == inserted(s.map_values(f), f(x), le2),
    decreases s.len(),
{
    let m = s.map_values(f);
    if s.len() == 0 || le(s.last(), x) {
        assert(s.push(x).map_values(f) =~= m.push(f(x)));
    } else {
        lemma_inserted_map(s.drop_last(), x, le, f, le2);
        assert(m.drop_last() =~= s.drop_last().map_values(f));
        assert(inserted(s.drop_last(), x, le).push(s.last()).map_values(f) =~= inserted(
            s.drop_last(),
            x,
            le,
        ).map_values(f).push(f(s.last())));
    }
}

/// Sorting and then looking at each item through `f` is looking and then
/// sorting.
pub proof fn lemma_sorted_map<T, U>(
    s: Seq<T>,
    le: spec_fn(T, T) -> bool,
    f: spec_fn(T) -> U,
    le2: spec_fn(U, U) -> bool,
)
    requires
        forall|a: T, b: T| #[trigger] le(a, b) == le2(f(a), f(b)),
    ensures
        sorted(s, le).map_values(f) == sorted(s.map_values(f), le2),
    decreases s.len(),
{
    let m = s.map_values(f);
    if s.len() == 0 {
        assert(s.map_values(f) =~= m);
        assert(sorted(s, le).map_values(f) =~= sorted(m, le2));
    } else {
        lemma_sorted_map(s.drop_last(), le, f, le2);
        assert(m.drop_last() =~= s.drop_last().map_values(f));
        lemma_inserted_map(sorted(s.drop_last(), le), s.last(), le, f, le2);
    }
}

proof fn lemma_inserted_at<T>(s: Seq<T>, x: T, le: spec_fn(T, T) -> bool, k: int)
    requires
        0 <= k <= s.len(),
        k > 0 ==> le(s[k - 1], x),
        forall|i: int| k <= i < s.len() ==> !le(#[trigger] s[i], x),
    ensures
        inserted(s, x, le) == s.insert(k, x),
    decreases s.len(),
{
    if k == s.len() {
        assert(s.insert(k, x) =~= s.push(x));
    } else {
        let front = s.drop_last();
        assert forall|i: int| k <= i < front.len() implies !le(#[trigger] front[i], x) by {
            assert(front[i] == s[i]);
        }
        lemma_inserted_at(front, x, le, k);
        assert(s.insert(k, x) =~= front.insert(k, x).push(s.last()));
        assert(!le(s[s.len() - 1], x));
    }
}

/// Sorts a vector by the comparison `no_later`, whose meaning is `le`.
pub(crate) fn sort<T, F: Fn(&T, &T) -> bool>(
    items: Vec<T>,
    no_later: F,
    Ghost(le): Ghost<spec_fn(T, T) -> bool>,
) -> (r: Vec<T>)
    requires
        forall|a: T, b: T| call_requires(no_later, (&a, &b)),
        forall|a: T, b: T, o: bool| call_ensures(no_later, (&a, &b), o) ==> o == le(a, b),
    ensures
        r@ == sorted(items@, le),
{
    let mut rest = items;
    let mut out: Vec<T> = Vec::new();
    let ghost all = items@;
    let mut done: usize = 0;
    let n: usize = rest.len();
    assert(all.subrange(0, 0) =~= seq![]);
    assert(all.subrange(0, all.len() as int) =~= all);
    while done < n
        invariant
            done <= n,
            n == all.len(),
            rest@ == all.subrange(done as int, n as int),
            out@ == sorted(all.subrange(0, done as int), le),
            forall|a: T, b: T| call_requires(no_later, (&a, &b)),
            forall|a: T, b: T, o: bool| call_ensures(no_later, (&a, &b), o) ==> o == le(a, b),
        decreases n - done,
    {
        let x = rest.remove(0);
        assert(rest@ =~= all.subrange(done + 1, n as int));
        assert(x == all[done as int]);
        let mut k: usize = out.len();
        let mut go = true;
        while go && k > 0
            invariant
                k <= out@.len(),
                forall|a: T, b: T| call_requires(no_later, (&a, &b)),
                forall|a: T, b: T, o: bool| call_ensures(no_later, (&a, &b), o) ==> o == le(a, b),
                forall|i: int| k <= i < out@.len() ==> !le(#[trigger] out@[i], x),
                !go ==> k > 0 && le(out@[k - 1], x),
            decreases k + (if go { 1int } else { 0int }),
        {
            if no_later(&out[k - 1], &x) {
                go = false;
            } else {
                k -= 1;
            }
        }
        proof {
            lemma_inserted_at(out@, x, le, k as int);
            assert(all.subrange(0, done + 1).drop_last() =~= all.subrange(0, done as int));
            assert(all.subrange(0, done + 1).last() == x);
        }
        out.insert(k, x);
        done += 1;
    }
    assert(all.subrange(0, n as int) =~= all);
    out
}

/// `s` with the items at `k` and `k + 1` exchanged.
pub open spec fn exchanged<T>(s: Seq<T>, k: int) -> Seq<T> {
    s.update(k, s[k + 1]).update(k + 1, s[k])
}

/// Exchanging two neighbours leaves the same items.
pub proof fn lemma_exchanged_multiset<T>(s: Seq<T>, k: int)
    requires
        0 <= k < s.len() - 1,
    ensures
        exchanged(s, k).to_multiset() == s.to_multiset(),
{
    broadcast use vstd::seq_lib::group_to_multiset_ensures;

    let once = s.update(k, s[k + 1]);
    assert(once.to_multiset() =~= s.to_multiset().insert(s[k + 1]).remove(s[k]));
    assert(exchanged(s, k).to_multiset() =~= once.to_multiset().insert(s[k]).remove(s[k + 1]));
    assert(exchanged(s, k).to_multiset() =~= s.to_multiset());
}

proof fn lemma_to_the_end<T, U>(f: spec_fn(Seq<T>) -> U, s: Seq<T>, k: int)
    requires
        forall|s: Seq<T>, k: int|
            0 <= k < s.len() - 1 ==> f(#[trigger] exchanged(s, k)) == f(s),
        0 <= k < s.len(),
    ensures
        f(s.remove(k).push(s[k])) == f(s),
    decreases s.len() - k,
{
    if k == s.len() - 1 {
        assert(s.remove(k).push(s[k]) =~= s);
    } else {
        let e = exchanged(s, k);
        lemma_to_the_end(f, e, k + 1);
        assert(e.remove(k + 1).push(e[k + 1]) =~= s.remove(k).push(s[k]));
    }
}

/// What two neighbours can be exchanged under is the same for every order of the
/// same items.
pub proof fn lemma_any_order<T, U>(f: spec_fn(Seq<T>) -> U, a: Seq<T>, b: Seq<T>)
    requires
        forall|s: Seq<T>, k: int|
            0 <= k < s.len() - 1 ==> f(#[trigger] exchanged(s, k)) == f(s),
        a.to_multiset() == b.to_multiset(),
    ensures
        f(a) == f(b),
    decreases a.len(),
{
    broadcast use vstd::seq_lib::group_to_multiset_ensures;

    assert(a.to_multiset().len() == a.len() && b.to_multiset().len() == b.len());
    if a.len() == 0 {
        assert(a =~= b);
    } else {
        let x = a.last();
        let front = a.drop_last();
        assert(a =~= front.push(x));
        assert(a.to_multiset().contains(x));
        assert(b.contains(x));
        let k = choose|k: int| 0 <= k < b.len() && b[k] == x;
        let rest = b.remove(k);
        lemma_to_the_end(f, b, k);
        let g = |s: Seq<T>| f(s.push(x));
        assert forall|s: Seq<T>, k: int| 0 <= k < s.len() - 1 implies g(#[trigger] exchanged(s, k))
            == g(s) by {
            assert(exchanged(s, k).push(x) =~= exchanged(s.push(x), k));
        }
        assert(front.to_multiset() =~= a.to_multiset().remove(x));
        assert(rest.to_multiset() =~= b.to_multiset().remove(x));
        lemma_any_order(g, front, rest);
        assert(g(front) == g(rest));
    }
}

/// Two ascending sequences of the same items are one, where no two different
/// items rank alike.
pub proof fn lemma_ascending_unique<T>(s: Seq<T>, t: Seq<T>, le: spec_fn(T, T) -> bool)
    requires
        ranks(le),
        ascending(s, le),
        ascending(t, le),
        s.to_multiset() == t.to_multiset(),
        forall|x: T, y: T|
            s.contains(x) && s.contains(y) && #[trigger] le(x, y) && #[trigger] le(y, x) ==> x == y,
    ensures
        s == t,
    decreases s.len(),
{
    broadcast use vstd::seq_lib::group_to_multiset_ensures;

    assert(s.to_multiset().len() == s.len() && t.to_multiset().len() == t.len());
    if s.len() == 0 {
        assert(s =~= t);
    } else {
        let x = s.last();
        let y = t.last();
        assert(s.contains(x));
        assert(t.contains(y));
        assert(t.to_multiset().contains(x));
        assert(s.to_multiset().contains(y));
        assert(t.contains(x));
        assert(s.contains(y));
        assert(le(x, x) && le(y, y));
        let i = choose|i: int| 0 <= i < t.len() && t[i] == x;
        let j = choose|j: int| 0 <= j < s.len() && s[j] == y;
        assert(le(x, y)) by {
            if i < t.len() - 1 {
                assert(le(t[i], t[t.len() - 1]));
            }
        }
        assert(le(y, x)) by {
            if j < s.len() - 1 {
                assert(le(s[j], s[s.len() - 1]));
            }
        }
        assert(x == y);
        let a = s.drop_last();
        let b = t.drop_last();
        assert(s =~= a.push(x));
        assert(t =~= b.push(x));
        assert(a.to_multiset() =~= s.to_multiset().remove(x));
        assert(b.to_multiset() =~= t.to_multiset().remove(x));
        assert forall|i: int, j: int| 0 <= i < j < a.len() implies #[trigger] le(a[i], a[j]) by {
            assert(le(s[i], s[j]));
        }
        assert forall|i: int, j: int| 0 <= i < j < b.len() implies #[trigger] le(b[i], b[j]) by {
            assert(le(t[i], t[j]));
        }
        assert forall|x: T, y: T|
            a.contains(x) && a.contains(y) && #[trigger] le(x, y) && #[trigger] le(y, x) implies x
            == y by {
            let i = choose|i: int| 0 <= i < a.len() && a[i] == x;
            let j = choose|j: int| 0 <= j < a.len() && a[j] == y;
            assert(s[i] == x && s[j] == y);
            assert(s.contains(x) && s.contains(y));
        }
        lemma_ascending_unique(a, b, le);
    }
}

/// The order of texts, as a relation to sort by.
pub open spec fn text_le() -> spec_fn(Seq<char>, Seq<char>) -> bool {
    |a: Seq<char>, b: Seq<char>| !text_before(b, a)
}

pub proof fn lemma_text_le_ranks()
    ensures
        ranks(text_le()),
{
    let le = text_le();
    assert forall|a: Seq<char>, b: Seq<char>| #[trigger] le(a, b) || le(b, a) by {
        lemma_text_order(a, b);
    }
    assert forall|a: Seq<char>, b: Seq<char>, c: Seq<char>| #[trigger]
        le(a, b) && #[trigger] le(b, c) implies le(a, c) by {
        lemma_text_order(a, b);
        lemma_text_order(b, c);
        lemma_text_order(a, c);
        if text_before(c, a) {
            if a == b {
            } else {
                lemma_text_order_transitive(c, a, b);
            }
        }
    }
}

/// Sorts texts.
pub fn sort_texts(items: Vec<String>) -> (r: Vec<String>)
    ensures
        crate::text::texts(r@) == sorted(crate::text::texts(items@), text_le()),
{
    let ghost le = |a: String, b: String| !text_before(b@, a@);
    let ghost all = items@;
    let no_later = |a: &String, b: &String| -> (o: bool)
        ensures
            o == !text_before(b@, a@),
    {
        !comes_before(b.as_str(), a.as_str())
    };
    let r = sort(items, no_later, Ghost(le));
    proof {
        lemma_sorted_map(all, le, |s: String| s@, text_le());
    }
    r
}

} // verus!
