//! Text as sequences of characters.
//!
//! Everything the tool prints, sends to a remote shell or reads back is text.
//! The functions here are the few string operations the rest of the library is
//! built on, each stated over the characters of its arguments.

use vstd::prelude::*;

verus! {

/// `String::push` appends the given character.
pub assume_specification[ String::push ](s: &mut String, c: char)
    ensures
        final(s)@ == old(s)@.push(c),
;

/// `String::push_str` appends the given text.
pub assume_specification[ String::push_str ](s: &mut String, t: &str)
    ensures
        final(s)@ == old(s)@ + t@,
;

// ---------------------------------------------------------------------------
// Characters
// ---------------------------------------------------------------------------

/// The characters Unicode gives the property `White_Space`.
pub open spec fn whitespace(c: char) -> bool {
    ||| 0x09 <= c as u32 <= 0x0d
    ||| c as u32 == 0x20
    ||| c as u32 == 0x85
    ||| c as u32 == 0xa0
    ||| c as u32 == 0x1680
    ||| 0x2000 <= c as u32 <= 0x200a
    ||| c as u32 == 0x2028
    ||| c as u32 == 0x2029
    ||| c as u32 == 0x202f
    ||| c as u32 == 0x205f
    ||| c as u32 == 0x3000
}

pub fn is_whitespace(c: char) -> (r: bool)
    ensures
        r == whitespace(c),
{
    let u: u32 = c as u32;
    (0x09 <= u && u <= 0x0d) || u == 0x20 || u == 0x85 || u == 0xa0 || u == 0x1680
        || (0x2000 <= u && u <= 0x200a) || u == 0x2028 || u == 0x2029 || u == 0x202f
        || u == 0x205f || u == 0x3000
}

pub open spec fn ascii_digit(c: char) -> bool {
    '0' <= c <= '9'
}

pub open spec fn ascii_alphanumeric(c: char) -> bool {
    ascii_digit(c) || 'a' <= c <= 'z' || 'A' <= c <= 'Z'
}

pub fn is_ascii_alphanumeric(c: char) -> (r: bool)
    ensures
        r == ascii_alphanumeric(c),
{
    ('0' <= c && c <= '9') || ('a' <= c && c <= 'z') || ('A' <= c && c <= 'Z')
}

/// An ASCII capital becomes its small letter; anything else stays.
pub open spec fn lower_char(c: char) -> char {
    if 'A' <= c <= 'Z' {
        (c as u32 + 32) as char
    } else {
        c
    }
}

pub fn to_lower_char(c: char) -> (r: char)
    ensures
        r == lower_char(c),
{
    if 'A' <= c && c <= 'Z' {
        let u: u8 = c as u8;
        (u + 32) as char
    } else {
        c
    }
}

// ---------------------------------------------------------------------------
// Between text and characters
// ---------------------------------------------------------------------------

pub fn chars_of(s: &str) -> (r: Vec<char>)
    ensures
        r@ == s@,
{
    let mut out: Vec<char> = Vec::new();
    for c in iter: s.chars()
        invariant
            iter.seq() == s@,
            out@ == s@.subrange(0, iter.index() as int),
    {
        out.push(c);
        assert(out@ =~= s@.subrange(0, iter.index() as int + 1));
    }
    assert(s@.subrange(0, s@.len() as int) =~= s@);
    out
}

/// The text of the characters from `from` up to, not including, `to`.
pub fn text_of(chars: &Vec<char>, from: usize, to: usize) -> (r: String)
    requires
        from <= to <= chars@.len(),
    ensures
        r@ == chars@.subrange(from as int, to as int),
{
    let mut out = String::new();
    let mut i: usize = from;
    while i < to
        invariant
            from <= i <= to <= chars@.len(),
            out@ == chars@.subrange(from as int, i as int),
        decreases to - i,
    {
        out.push(chars[i]);
        i += 1;
        assert(out@ =~= chars@.subrange(from as int, i as int));
    }
    out
}

/// Whether two texts are the same.
pub fn same(a: &str, b: &str) -> (r: bool)
    ensures
        r == (a@ == b@),
{
    a.to_owned() == b.to_owned()
}

pub open spec fn opt_text(o: Option<&str>) -> Option<Seq<char>> {
    match o {
        Some(s) => Some(s@),
        None => None,
    }
}

pub open spec fn opt_view(o: Option<String>) -> Option<Seq<char>> {
    match o {
        Some(s) => Some(s@),
        None => None,
    }
}

/// The texts of a vector.
pub open spec fn texts(v: Seq<String>) -> Seq<Seq<char>> {
    v.map_values(|s: String| s@)
}

pub fn clone_opt(o: &Option<String>) -> (r: Option<String>)
    ensures
        opt_view(r) == opt_view(*o),
{
    match o {
        Some(s) => Some(s.clone()),
        None => None,
    }
}

pub fn clone_texts(v: &Vec<String>) -> (r: Vec<String>)
    ensures
        texts(r@) == texts(v@),
{
    let mut out: Vec<String> = Vec::new();
    let mut i: usize = 0;
    while i < v.len()
        invariant
            i <= v@.len(),
            out@.len() == i,
            forall|j: int| 0 <= j < i ==> out@[j]@ == v@[j]@,
        decreases v@.len() - i,
    {
        out.push(v[i].clone());
        i += 1;
    }
    assert(texts(out@) =~= texts(v@));
    out
}

// ---------------------------------------------------------------------------
// Trimming
// ---------------------------------------------------------------------------

/// What is left once the leading white space is gone.
pub open spec fn trimmed_start(s: Seq<char>) -> Seq<char>
    decreases s.len(),
{
    if s.len() > 0 && whitespace(s[0]) {
        trimmed_start(s.subrange(1, s.len() as int))
    } else {
        s
    }
}

/// What is left once the trailing white space is gone.
pub open spec fn trimmed_end(s: Seq<char>) -> Seq<char>
    decreases s.len(),
{
    if s.len() > 0 && whitespace(s.last()) {
        trimmed_end(s.drop_last())
    } else {
        s
    }
}

pub open spec fn trimmed(s: Seq<char>) -> Seq<char> {
    trimmed_end(trimmed_start(s))
}

/// What is left once every trailing `c` is gone.
pub open spec fn trimmed_end_of(s: Seq<char>, c: char) -> Seq<char>
    decreases s.len(),
{
    if s.len() > 0 && s.last() == c {
        trimmed_end_of(s.drop_last(), c)
    } else {
        s
    }
}

/// What is left once every leading `c` is gone.
pub open spec fn trimmed_start_of(s: Seq<char>, c: char) -> Seq<char>
    decreases s.len(),
{
    if s.len() > 0 && s[0] == c {
        trimmed_start_of(s.subrange(1, s.len() as int), c)
    } else {
        s
    }
}

/// The text without white space at either end.
pub fn trim(s: &str) -> (r: String)
    ensures
        r@ == trimmed(s@),
{
    let chars = chars_of(s);
    let mut from: usize = 0;
    assert(chars@.subrange(0, chars@.len() as int) =~= chars@);
    while from < chars.len() && is_whitespace(chars[from])
        invariant
            from <= chars@.len(),
            trimmed_start(chars@) == trimmed_start(chars@.subrange(from as int, chars@.len() as int)),
        decreases chars@.len() - from,
    {
        let ghost rest = chars@.subrange(from as int, chars@.len() as int);
        assert(rest.subrange(1, rest.len() as int) =~= chars@.subrange(from + 1, chars@.len() as int));
        from += 1;
    }
    let ghost front = chars@.subrange(from as int, chars@.len() as int);
    assert(trimmed_start(chars@) == front);
    let mut to: usize = chars.len();
    while to > from && is_whitespace(chars[to - 1])
        invariant
            from <= to <= chars@.len(),
            trimmed_end(front) == trimmed_end(chars@.subrange(from as int, to as int)),
        decreases to,
    {
        let ghost rest = chars@.subrange(from as int, to as int);
        assert(rest.drop_last() =~= chars@.subrange(from as int, to - 1));
        to -= 1;
    }
    text_of(&chars, from, to)
}

pub proof fn lemma_trimmed_start(s: Seq<char>)
    ensures
        trimmed_start(s).len() <= s.len(),
        trimmed_start(s) == s.subrange(s.len() - trimmed_start(s).len(), s.len() as int),
    decreases s.len(),
{
    if s.len() > 0 && whitespace(s[0]) {
        let rest = s.subrange(1, s.len() as int);
        lemma_trimmed_start(rest);
        let n = trimmed_start(rest).len();
        assert(rest.subrange(rest.len() - n, rest.len() as int) =~= s.subrange(
            s.len() - n,
            s.len() as int,
        ));
    } else {
        assert(s.subrange(0, s.len() as int) =~= s);
    }
}

/// The text without white space at its front.
pub fn trim_start(s: &str) -> (r: String)
    ensures
        r@ == trimmed_start(s@),
{
    let chars = chars_of(s);
    let mut from: usize = 0;
    assert(chars@.subrange(0, chars@.len() as int) =~= chars@);
    while from < chars.len() && is_whitespace(chars[from])
        invariant
            from <= chars@.len(),
            trimmed_start(chars@) == trimmed_start(chars@.subrange(from as int, chars@.len() as int)),
        decreases chars@.len() - from,
    {
        let ghost rest = chars@.subrange(from as int, chars@.len() as int);
        assert(rest.subrange(1, rest.len() as int) =~= chars@.subrange(from + 1, chars@.len() as int));
        from += 1;
    }
    text_of(&chars, from, chars.len())
}

/// The text without white space at its end.
pub fn trim_end(s: &str) -> (r: String)
    ensures
        r@ == trimmed_end(s@),
{
    let chars = chars_of(s);
    let mut to: usize = chars.len();
    assert(chars@.subrange(0, chars@.len() as int) =~= chars@);
    while to > 0 && is_whitespace(chars[to - 1])
        invariant
            to <= chars@.len(),
            trimmed_end(chars@) == trimmed_end(chars@.subrange(0, to as int)),
        decreases to,
    {
        let ghost rest = chars@.subrange(0, to as int);
        assert(rest.drop_last() =~= chars@.subrange(0, to - 1));
        to -= 1;
    }
    text_of(&chars, 0, to)
}

/// Whether the text ends with `c`.
pub fn ends_with_char(s: &str, c: char) -> (r: bool)
    ensures
        r == (s@.len() > 0 && s@.last() == c),
{
    let chars = chars_of(s);
    chars.len() > 0 && chars[chars.len() - 1] == c
}

/// The text without any `c` at its end.
pub fn trim_end_of(s: &str, c: char) -> (r: String)
    ensures
        r@ == trimmed_end_of(s@, c),
{
    let chars = chars_of(s);
    let mut to: usize = chars.len();
    assert(chars@.subrange(0, chars@.len() as int) =~= chars@);
    while to > 0 && chars[to - 1] == c
        invariant
            to <= chars@.len(),
            trimmed_end_of(chars@, c) == trimmed_end_of(chars@.subrange(0, to as int), c),
        decreases to,
    {
        let ghost rest = chars@.subrange(0, to as int);
        assert(rest.drop_last() =~= chars@.subrange(0, to - 1));
        to -= 1;
    }
    text_of(&chars, 0, to)
}

/// The text without any `c` at either end.
pub fn trim_of(s: &str, c: char) -> (r: String)
    ensures
        r@ == trimmed_end_of(trimmed_start_of(s@, c), c),
{
    let chars = chars_of(s);
    let mut from: usize = 0;
    assert(chars@.subrange(0, chars@.len() as int) =~= chars@);
    while from < chars.len() && chars[from] == c
        invariant
            from <= chars@.len(),
            trimmed_start_of(chars@, c) == trimmed_start_of(
                chars@.subrange(from as int, chars@.len() as int),
                c,
            ),
        decreases chars@.len() - from,
    {
        let ghost rest = chars@.subrange(from as int, chars@.len() as int);
        assert(rest.subrange(1, rest.len() as int) =~= chars@.subrange(from + 1, chars@.len() as int));
        from += 1;
    }
    let tail = text_of(&chars, from, chars.len());
    trim_end_of(tail.as_str(), c)
}

// ---------------------------------------------------------------------------
// Case
// ---------------------------------------------------------------------------

/// The text with its ASCII capitals made small.
pub open spec fn lower(s: Seq<char>) -> Seq<char> {
    s.map_values(|c: char| lower_char(c))
}

pub fn to_lower(s: &str) -> (r: String)
    ensures
        r@ == lower(s@),
{
    let chars = chars_of(s);
    let mut out = String::new();
    let mut i: usize = 0;
    while i < chars.len()
        invariant
            i <= chars@.len(),
            out@ == lower(chars@.subrange(0, i as int)),
        decreases chars@.len() - i,
    {
        out.push(to_lower_char(chars[i]));
        i += 1;
        assert(out@ =~= lower(chars@.subrange(0, i as int)));
    }
    assert(chars@.subrange(0, chars@.len() as int) =~= chars@);
    out
}

/// Whether two texts differ at most in the case of their ASCII letters.
pub fn same_ignoring_case(a: &str, b: &str) -> (r: bool)
    ensures
        r == (lower(a@) == lower(b@)),
{
    to_lower(a) == to_lower(b)
}

// ---------------------------------------------------------------------------
// Searching
// ---------------------------------------------------------------------------

/// Whether `needle` stands in `hay` at position `at`.
pub open spec fn occurs_at(hay: Seq<char>, needle: Seq<char>, at: int) -> bool {
    0 <= at && at + needle.len() <= hay.len() && hay.subrange(at, at + needle.len()) == needle
}

/// Whether `needle` stands anywhere in `hay`.
pub open spec fn has_text(hay: Seq<char>, needle: Seq<char>) -> bool {
    exists|at: int| occurs_at(hay, needle, at)
}

/// What stands between two texts stands in the whole.
pub proof fn lemma_has_text(before: Seq<char>, needle: Seq<char>, after: Seq<char>)
    ensures
        has_text(before + needle + after, needle),
{
    let hay = before + needle + after;
    let at = before.len() as int;
    assert(hay.subrange(at, at + needle.len()) =~= needle);
    assert(occurs_at(hay, needle, at));
}

/// What stands in a part stands in the whole.
pub proof fn lemma_stands_within(
    before: Seq<char>,
    part: Seq<char>,
    after: Seq<char>,
    needle: Seq<char>,
)
    requires
        has_text(part, needle),
    ensures
        has_text(before + part + after, needle),
{
    let at = choose|at: int| occurs_at(part, needle, at);
    let hay = before + part + after;
    let there = before.len() + at;
    assert(hay.subrange(there, there + needle.len()) =~= part.subrange(at, at + needle.len()));
    assert(occurs_at(hay, needle, there));
}

/// What stands in something that stands in a text stands in the text.
pub proof fn lemma_stands_in_what_it_stands_in(text: Seq<char>, part: Seq<char>, needle: Seq<char>)
    requires
        has_text(text, part),
        has_text(part, needle),
    ensures
        has_text(text, needle),
{
    let at = choose|at: int| occurs_at(text, part, at);
    let before = text.subrange(0, at);
    let after = text.subrange(at + part.len(), text.len() as int);
    assert(text =~= before + part + after);
    lemma_stands_within(before, part, after, needle);
}

/// A text stands in two others behind each other only where it stands in one of
/// them, if the first does not end with one of its characters.
pub proof fn lemma_stands_in_one(a: Seq<char>, b: Seq<char>, needle: Seq<char>)
    requires
        needle.len() > 0,
        a.len() > 0 ==> !needle.contains(a.last()),
        has_text(a + b, needle),
    ensures
        has_text(a, needle) || has_text(b, needle),
{
    let hay = a + b;
    let at = choose|at: int| occurs_at(hay, needle, at);
    let found = hay.subrange(at, at + needle.len());
    if at + needle.len() <= a.len() {
        assert(a.subrange(at, at + needle.len()) =~= found);
        assert(occurs_at(a, needle, at));
    } else if at >= a.len() {
        assert(b.subrange(at - a.len(), at - a.len() + needle.len()) =~= found);
        assert(occurs_at(b, needle, at - a.len()));
    } else {
        assert(found[a.len() - 1 - at] == a.last());
        assert(needle.contains(a.last()));
    }
}

fn stands_at(hay: &Vec<char>, needle: &Vec<char>, at: usize) -> (r: bool)
    requires
        at <= hay@.len(),
    ensures
        r == occurs_at(hay@, needle@, at as int),
{
    if needle.len() > hay.len() - at {
        return false;
    }
    let mut i: usize = 0;
    let whole: usize = hay.len();
    while i < needle.len()
        invariant
            i <= needle@.len(),
            hay@.len() == whole,
            at + needle@.len() <= whole,
            forall|j: int| 0 <= j < i ==> hay@[at + j] == needle@[j],
        decreases needle@.len() - i,
    {
        if hay[at + i] != needle[i] {
            assert(hay@.subrange(at as int, at + needle@.len())[i as int] != needle@[i as int]);
            return false;
        }
        i += 1;
    }
    assert(hay@.subrange(at as int, at + needle@.len()) =~= needle@);
    true
}

/// Whether `hay` has `needle` somewhere in it.
pub fn contains(hay: &str, needle: &str) -> (r: bool)
    ensures
        r == has_text(hay@, needle@),
{
    let h = chars_of(hay);
    let n = chars_of(needle);
    let mut at: usize = 0;
    while at < h.len()
        invariant
            at <= h@.len(),
            h@ == hay@,
            n@ == needle@,
            forall|j: int| 0 <= j < at ==> !occurs_at(h@, n@, j),
        decreases h@.len() - at,
    {
        if stands_at(&h, &n, at) {
            return true;
        }
        at += 1;
    }
    stands_at(&h, &n, at)
}

/// Whether the text begins with `prefix`.
pub fn starts_with(s: &str, prefix: &str) -> (r: bool)
    ensures
        r == occurs_at(s@, prefix@, 0),
{
    stands_at(&chars_of(s), &chars_of(prefix), 0)
}

/// The text without `prefix`, or all of it where it does not begin so.
pub open spec fn without_prefix(s: Seq<char>, prefix: Seq<char>) -> Seq<char> {
    if occurs_at(s, prefix, 0) {
        s.subrange(prefix.len() as int, s.len() as int)
    } else {
        s
    }
}

pub fn strip_prefix_or_all(s: &str, prefix: &str) -> (r: String)
    ensures
        r@ == without_prefix(s@, prefix@),
{
    let chars = chars_of(s);
    let front = chars_of(prefix);
    if stands_at(&chars, &front, 0) {
        text_of(&chars, front.len(), chars.len())
    } else {
        s.to_owned()
    }
}

/// What follows the last `c`, or all of the text where it has none.
pub open spec fn after_last(s: Seq<char>, c: char) -> Seq<char>
    decreases s.len(),
{
    if s.len() > 0 && s.last() != c {
        after_last(s.drop_last(), c).push(s.last())
    } else {
        seq![]
    }
}

pub proof fn lemma_after_last_split(s: Seq<char>, c: char, k: int)
    requires
        0 <= k <= s.len(),
        k > 0 ==> s[k - 1] == c,
        forall|i: int| k <= i < s.len() ==> s[i] != c,
    ensures
        after_last(s, c) == s.subrange(k, s.len() as int),
    decreases s.len(),
{
    if s.len() == k {
        assert(s.subrange(k, s.len() as int) =~= seq![]);
    } else {
        assert forall|i: int| k <= i < s.drop_last().len() implies s.drop_last()[i] != c by {
            assert(s.drop_last()[i] == s[i]);
        }
        lemma_after_last_split(s.drop_last(), c, k);
        assert(s.subrange(k, s.len() as int) =~= s.drop_last().subrange(
            k,
            s.drop_last().len() as int,
        ).push(s.last()));
    }
}

pub fn last_part(s: &str, c: char) -> (r: String)
    ensures
        r@ == after_last(s@, c),
{
    let chars = chars_of(s);
    let mut k: usize = chars.len();
    while k > 0 && chars[k - 1] != c
        invariant
            k <= chars@.len(),
            forall|i: int| k <= i < chars@.len() ==> chars@[i] != c,
        decreases k,
    {
        k -= 1;
    }
    proof {
        lemma_after_last_split(chars@, c, k as int);
    }
    text_of(&chars, k, chars.len())
}

// ---------------------------------------------------------------------------
// Lines
// ---------------------------------------------------------------------------

/// Where the first `c` stands; the length of the text where it has none.
pub open spec fn first_of(s: Seq<char>, c: char) -> int
    decreases s.len(),
{
    if s.len() == 0 || s[0] == c {
        0
    } else {
        1 + first_of(s.subrange(1, s.len() as int), c)
    }
}

/// A line without the carriage return that ended it.
pub open spec fn without_cr(line: Seq<char>) -> Seq<char> {
    if line.len() > 0 && line.last() == '\r' {
        line.drop_last()
    } else {
        line
    }
}

pub proof fn lemma_first_of(s: Seq<char>, c: char)
    ensures
        0 <= first_of(s, c) <= s.len(),
        first_of(s, c) < s.len() ==> s[first_of(s, c)] == c,
        forall|i: int| 0 <= i < first_of(s, c) ==> s[i] != c,
    decreases s.len(),
{
    if s.len() > 0 && s[0] != c {
        let tail = s.subrange(1, s.len() as int);
        lemma_first_of(tail, c);
        assert forall|i: int| 0 <= i < first_of(s, c) implies s[i] != c by {
            if i > 0 {
                assert(tail[i - 1] == s[i]);
            }
        }
    }
}

pub proof fn lemma_first_of_is(s: Seq<char>, c: char, k: int)
    requires
        0 <= k <= s.len(),
        k < s.len() ==> s[k] == c,
        forall|i: int| 0 <= i < k ==> s[i] != c,
    ensures
        first_of(s, c) == k,
{
    lemma_first_of(s, c);
    let f = first_of(s, c);
    if f < k {
        assert(s[f] != c);
    }
}

/// The lines of a text: each ends with a line feed, or a carriage return and a
/// line feed, and the last one may go without.
pub open spec fn lines_of(s: Seq<char>) -> Seq<Seq<char>>
    decreases s.len(),
    via lines_of_decreases
{
    let n = first_of(s, '\n');
    if s.len() == 0 {
        seq![]
    } else if n < s.len() {
        seq![without_cr(s.subrange(0, n))] + lines_of(s.subrange(n + 1, s.len() as int))
    } else {
        seq![s]
    }
}

#[via_fn]
proof fn lines_of_decreases(s: Seq<char>) {
    lemma_first_of(s, '\n');
}

pub fn lines(s: &str) -> (r: Vec<String>)
    ensures
        texts(r@) == lines_of(s@),
{
    let chars = chars_of(s);
    let mut out: Vec<String> = Vec::new();
    let mut start: usize = 0;
    let mut i: usize = 0;
    assert(chars@.subrange(0, chars@.len() as int) =~= chars@);
    assert(texts(out@) + lines_of(chars@) =~= lines_of(chars@));
    while i < chars.len()
        invariant
            start <= i <= chars@.len(),
            forall|j: int| start <= j < i ==> chars@[j] != '\n',
            texts(out@) + lines_of(chars@.subrange(start as int, chars@.len() as int)) == lines_of(
                chars@,
            ),
        decreases chars@.len() - i,
    {
        if chars[i] == '\n' {
            let ghost rest = chars@.subrange(start as int, chars@.len() as int);
            let ghost before = texts(out@);
            let ghost line = chars@.subrange(start as int, i as int);
            proof {
                assert forall|j: int| 0 <= j < i - start implies rest[j] != '\n' by {
                    assert(rest[j] == chars@[start + j]);
                }
                lemma_first_of_is(rest, '\n', i - start);
                assert(rest.subrange(0, i - start) =~= line);
                assert(rest.subrange(i - start + 1, rest.len() as int) =~= chars@.subrange(
                    i + 1,
                    chars@.len() as int,
                ));
            }
            let end: usize = if i > start && chars[i - 1] == '\r' {
                i - 1
            } else {
                i
            };
            let piece = text_of(&chars, start, end);
            assert(piece@ =~= without_cr(line));
            out.push(piece);
            assert(texts(out@) =~= before.push(without_cr(line)));
            assert(before + (seq![without_cr(line)] + lines_of(
                chars@.subrange(i + 1, chars@.len() as int),
            )) =~= texts(out@) + lines_of(chars@.subrange(i + 1, chars@.len() as int)));
            start = i + 1;
        }
        i += 1;
    }
    let ghost rest = chars@.subrange(start as int, chars@.len() as int);
    if start < chars.len() {
        let ghost before = texts(out@);
        proof {
            assert forall|j: int| 0 <= j < rest.len() implies rest[j] != '\n' by {
                assert(rest[j] == chars@[start + j]);
            }
            lemma_first_of_is(rest, '\n', rest.len() as int);
        }
        out.push(text_of(&chars, start, chars.len()));
        assert(texts(out@) =~= before + seq![rest]);
    } else {
        assert(texts(out@) + lines_of(rest) =~= texts(out@));
    }
    out
}

// ---------------------------------------------------------------------------
// Building
// ---------------------------------------------------------------------------

/// The text of some lines, each ended by a line feed.
pub open spec fn whole_lines(list: Seq<Seq<char>>) -> Seq<char>
    decreases list.len(),
{
    if list.len() == 0 {
        seq![]
    } else {
        whole_lines(list.drop_last()) + list.last() + "\n"@
    }
}

pub(crate) fn write_lines(list: &Vec<String>) -> (r: String)
    ensures
        r@ == whole_lines(texts(list@)),
{
    let ghost all = texts(list@);
    let mut out = String::new();
    let mut i: usize = 0;
    while i < list.len()
        invariant
            i <= list@.len(),
            all == texts(list@),
            out@ == whole_lines(all.subrange(0, i as int)),
        decreases list@.len() - i,
    {
        assert(all.subrange(0, i + 1).drop_last() =~= all.subrange(0, i as int));
        out.push_str(list[i].as_str());
        out.push_str("\n");
        i += 1;
    }
    assert(all.subrange(0, all.len() as int) =~= all);
    out
}

/// Each of the lines stands in the text of all.
pub proof fn lemma_whole_lines_hold(list: Seq<Seq<char>>, k: int)
    requires
        0 <= k < list.len(),
    ensures
        has_text(whole_lines(list), list[k]),
    decreases list.len(),
{
    let before = whole_lines(list.drop_last());
    if k == list.len() - 1 {
        lemma_has_text(before, list[k], "\n"@);
    } else {
        lemma_whole_lines_hold(list.drop_last(), k);
        let at = choose|at: int| occurs_at(before, list[k], at);
        let all = whole_lines(list);
        assert(all.subrange(at, at + list[k].len()) =~= before.subrange(at, at + list[k].len()));
        assert(occurs_at(all, list[k], at));
    }
}

/// What holds no line feed stands in the text of all lines only where it stands in
/// one of them.
pub proof fn lemma_stands_in_a_line(list: Seq<Seq<char>>, needle: Seq<char>)
    requires
        needle.len() > 0,
        !needle.contains('\n'),
        has_text(whole_lines(list), needle),
    ensures
        exists|k: int| 0 <= k < list.len() && has_text(#[trigger] list[k], needle),
    decreases list.len(),
{
    reveal_strlit("\n");
    if list.len() == 0 {
        let at = choose|at: int| occurs_at(whole_lines(list), needle, at);
        assert(false);
    } else {
        let front = list.drop_last();
        let before = whole_lines(front);
        let l = list.last();
        let hay = whole_lines(list);
        assert(hay =~= before + (l + "\n"@));
        if before.len() > 0 {
            assert(before.last() == '\n');
        }
        lemma_stands_in_one(before, l + "\n"@, needle);
        if has_text(before, needle) {
            lemma_stands_in_a_line(front, needle);
            let k = choose|k: int| 0 <= k < front.len() && has_text(#[trigger] front[k], needle);
            assert(list[k] == front[k]);
        } else {
            let at = choose|at: int| occurs_at(l + "\n"@, needle, at);
            let found = (l + "\n"@).subrange(at, at + needle.len());
            if at + needle.len() == l.len() + 1 {
                assert(found[needle.len() - 1] == '\n');
            }
            assert(l.subrange(at, at + needle.len()) =~= found);
            assert(occurs_at(l, needle, at));
            assert(list[list.len() - 1] == l);
        }
    }
}

/// Lines joined by line feeds lack only the last one.
pub proof fn lemma_joined_is_whole(list: Seq<Seq<char>>)
    requires
        list.len() > 0,
    ensures
        whole_lines(list) == joined(list, "\n"@) + "\n"@,
    decreases list.len(),
{
    if list.len() == 1 {
        assert(whole_lines(list.drop_last()) =~= seq![]);
        assert(list.last() == list[0]);
        assert(whole_lines(list) =~= joined(list, "\n"@) + "\n"@);
    } else {
        lemma_joined_is_whole(list.drop_last());
        assert(whole_lines(list) =~= joined(list, "\n"@) + "\n"@);
    }
}

/// Each of the parts stands in all of them joined.
pub proof fn lemma_joined_hold(parts: Seq<Seq<char>>, sep: Seq<char>, k: int)
    requires
        0 <= k < parts.len(),
    ensures
        has_text(joined(parts, sep), parts[k]),
    decreases parts.len(),
{
    let none: Seq<char> = seq![];
    let all = joined(parts, sep);
    if parts.len() == 1 {
        assert(all =~= none + parts[k] + none);
        lemma_has_text(none, parts[k], none);
    } else {
        let before = joined(parts.drop_last(), sep);
        if k == parts.len() - 1 {
            assert(all =~= before + sep + parts[k] + none);
            lemma_has_text(before + sep, parts[k], none);
        } else {
            lemma_joined_hold(parts.drop_last(), sep, k);
            assert(all =~= none + before + (sep + parts.last()));
            lemma_stands_within(none, before, sep + parts.last(), parts[k]);
        }
    }
}

/// Whether a text is read back as one line: nothing in it ends a line.
pub open spec fn one_line(s: Seq<char>) -> bool {
    &&& forall|i: int| 0 <= i < s.len() ==> s[i] != '\n'
    &&& s.len() > 0 ==> s.last() != '\r'
}

proof fn lemma_first_whole_line(list: Seq<Seq<char>>)
    requires
        list.len() > 0,
    ensures
        whole_lines(list) == list[0] + "\n"@ + whole_lines(list.drop_first()),
    decreases list.len(),
{
    if list.len() == 1 {
        assert(list.drop_last() =~= seq![]);
        assert(list.drop_first() =~= seq![]);
        assert(whole_lines(list) =~= list[0] + "\n"@ + whole_lines(list.drop_first()));
    } else {
        lemma_first_whole_line(list.drop_last());
        assert(list.drop_last().drop_first() =~= list.drop_first().drop_last());
        assert(whole_lines(list) =~= list[0] + "\n"@ + whole_lines(list.drop_first()));
    }
}

/// Written lines are read back as they were, where each is one line.
pub proof fn lemma_whole_lines_read(list: Seq<Seq<char>>)
    requires
        forall|i: int| 0 <= i < list.len() ==> one_line(#[trigger] list[i]),
    ensures
        lines_of(whole_lines(list)) == list,
    decreases list.len(),
{
    reveal_strlit("\n");
    let s = whole_lines(list);
    if list.len() == 0 {
        assert(lines_of(s) =~= list);
    } else {
        let rest = list.drop_first();
        lemma_first_whole_line(list);
        assert forall|i: int| 0 <= i < rest.len() implies one_line(#[trigger] rest[i]) by {
            assert(rest[i] == list[i + 1]);
        }
        lemma_whole_lines_read(rest);
        let n = list[0].len() as int;
        assert(one_line(list[0]));
        assert forall|i: int| 0 <= i < n implies s[i] != '\n' by {
            assert(s[i] == list[0][i]);
        }
        assert(s[n] == '\n');
        lemma_first_of_is(s, '\n', n);
        assert(s.subrange(0, n) =~= list[0]);
        assert(s.subrange(n + 1, s.len() as int) =~= whole_lines(rest));
        assert(lines_of(s) =~= list);
    }
}

/// Two one-line texts behind each other are one line.
pub proof fn lemma_one_line_concat(a: Seq<char>, b: Seq<char>)
    requires
        one_line(a),
        one_line(b),
    ensures
        one_line(a + b),
{
    let s = a + b;
    assert forall|i: int| 0 <= i < s.len() implies s[i] != '\n' by {
        if i < a.len() {
            assert(s[i] == a[i]);
        } else {
            assert(s[i] == b[i - a.len()]);
        }
    }
    if b.len() == 0 {
        assert(s =~= a);
    } else if s.len() > 0 {
        assert(s.last() == b.last());
    }
}

pub proof fn lemma_one_line_joined(parts: Seq<Seq<char>>, sep: Seq<char>)
    requires
        one_line(sep),
        forall|i: int| 0 <= i < parts.len() ==> one_line(#[trigger] parts[i]),
    ensures
        one_line(joined(parts, sep)),
    decreases parts.len(),
{
    if parts.len() > 0 {
        let front = parts.drop_last();
        assert forall|i: int| 0 <= i < front.len() implies one_line(#[trigger] front[i]) by {
            assert(front[i] == parts[i]);
        }
        lemma_one_line_joined(front, sep);
        assert(one_line(parts[parts.len() - 1]));
        lemma_one_line_concat(joined(front, sep), sep);
        lemma_one_line_concat(joined(front, sep) + sep, parts.last());
    }
}

pub proof fn lemma_one_line_dec(n: nat)
    ensures
        one_line(dec(n)),
    decreases n,
{
    if n >= 10 {
        lemma_one_line_dec(n / 10);
    }
}

/// The parts, one after the other, with `sep` between each two.
pub open spec fn joined(parts: Seq<Seq<char>>, sep: Seq<char>) -> Seq<char>
    decreases parts.len(),
{
    if parts.len() == 0 {
        seq![]
    } else if parts.len() == 1 {
        parts[0]
    } else {
        joined(parts.drop_last(), sep) + sep + parts.last()
    }
}

pub fn join(parts: &Vec<String>, sep: &str) -> (r: String)
    ensures
        r@ == joined(texts(parts@), sep@),
{
    if parts.len() == 0 {
        return String::new();
    }
    let mut out = parts[0].clone();
    let mut i: usize = 1;
    let ghost all = texts(parts@);
    assert(out@ == joined(all.subrange(0, 1), sep@));
    while i < parts.len()
        invariant
            1 <= i <= parts@.len(),
            all == texts(parts@),
            out@ == joined(all.subrange(0, i as int), sep@),
        decreases parts@.len() - i,
    {
        out.push_str(sep);
        out.push_str(parts[i].as_str());
        assert(all.subrange(0, i + 1).drop_last() =~= all.subrange(0, i as int));
        i += 1;
    }
    assert(all.subrange(0, all.len() as int) =~= all);
    out
}

/// The text with every `c` replaced by `by`.
pub open spec fn replaced(s: Seq<char>, c: char, by: Seq<char>) -> Seq<char>
    decreases s.len(),
{
    if s.len() == 0 {
        seq![]
    } else if s.last() == c {
        replaced(s.drop_last(), c, by) + by
    } else {
        replaced(s.drop_last(), c, by).push(s.last())
    }
}

pub fn replace(s: &str, c: char, by: &str) -> (r: String)
    ensures
        r@ == replaced(s@, c, by@),
{
    let chars = chars_of(s);
    let mut out = String::new();
    let mut i: usize = 0;
    while i < chars.len()
        invariant
            i <= chars@.len(),
            out@ == replaced(chars@.subrange(0, i as int), c, by@),
        decreases chars@.len() - i,
    {
        assert(chars@.subrange(0, i + 1).drop_last() =~= chars@.subrange(0, i as int));
        if chars[i] == c {
            out.push_str(by);
        } else {
            out.push(chars[i]);
        }
        i += 1;
    }
    assert(chars@.subrange(0, chars@.len() as int) =~= chars@);
    out
}

/// `n` spaces.
pub open spec fn spaces(n: nat) -> Seq<char> {
    Seq::new(n, |i: int| ' ')
}

pub fn push_spaces(out: &mut String, n: usize)
    ensures
        final(out)@ == old(out)@ + spaces(n as nat),
{
    let ghost before = out@;
    let mut i: usize = 0;
    assert(before + spaces(0) =~= before);
    while i < n
        invariant
            i <= n,
            out@ == before + spaces(i as nat),
        decreases n - i,
    {
        out.push(' ');
        i += 1;
        assert(out@ =~= before + spaces(i as nat));
    }
}

pub open spec fn digit(d: nat) -> char {
    (48 + d) as char
}

/// A number in decimal.
pub open spec fn dec(n: nat) -> Seq<char>
    decreases n,
{
    if n < 10 {
        seq![digit(n)]
    } else {
        dec(n / 10).push(digit(n % 10))
    }
}

/// A number in decimal, with its sign where it is negative.
pub open spec fn signed_dec(n: int) -> Seq<char> {
    if n < 0 {
        seq!['-'] + dec((-n) as nat)
    } else {
        dec(n as nat)
    }
}

/// Different numbers read differently.
pub proof fn lemma_dec_injective(a: nat, b: nat)
    requires
        dec(a) == dec(b),
    ensures
        a == b,
    decreases a,
{
    lemma_dec_len(a);
    lemma_dec_len(b);
    if a >= 10 && b >= 10 {
        assert(dec(a).drop_last() =~= dec(a / 10));
        assert(dec(b).drop_last() =~= dec(b / 10));
        lemma_dec_injective(a / 10, b / 10);
        assert(dec(a).last() == digit(a % 10));
        assert(dec(b).last() == digit(b % 10));
    } else if a < 10 && b < 10 {
        assert(dec(a)[0] == digit(a));
        assert(dec(b)[0] == digit(b));
    }
}

pub proof fn lemma_dec_len(a: nat)
    ensures
        dec(a).len() >= 1,
        a >= 10 ==> dec(a).len() >= 2,
    decreases a,
{
    if a >= 10 {
        lemma_dec_len(a / 10);
    }
}

pub fn push_number(out: &mut String, n: u128)
    ensures
        final(out)@ == old(out)@ + dec(n as nat),
    decreases n,
{
    let ghost before = out@;
    if n < 10 {
        out.push((48u8 + n as u8) as char);
        assert(out@ =~= before + dec(n as nat));
    } else {
        push_number(out, n / 10);
        let d: u8 = (n % 10) as u8;
        out.push((48u8 + d) as char);
        assert(out@ =~= before + dec(n as nat));
    }
}

pub fn number(n: u128) -> (r: String)
    ensures
        r@ == dec(n as nat),
{
    let mut out = String::new();
    push_number(&mut out, n);
    assert(Seq::<char>::empty() + dec(n as nat) =~= dec(n as nat));
    out
}

pub fn signed_number(n: i32) -> (r: String)
    ensures
        r@ == signed_dec(n as int),
{
    if n < 0 {
        let mut out = String::new();
        out.push('-');
        let wide: i64 = n as i64;
        let magnitude: u128 = (-wide) as u128;
        push_number(&mut out, magnitude);
        assert(Seq::<char>::empty().push('-') =~= seq!['-']);
        out
    } else {
        number(n as u128)
    }
}

// ---------------------------------------------------------------------------
// Order
// ---------------------------------------------------------------------------

/// The order of texts: by the first character in which they differ, a text
/// before any longer one that begins with it.
pub open spec fn text_before(a: Seq<char>, b: Seq<char>) -> bool
    decreases a.len(),
{
    if b.len() == 0 {
        false
    } else if a.len() == 0 {
        true
    } else if a[0] != b[0] {
        a[0] < b[0]
    } else {
        text_before(a.subrange(1, a.len() as int), b.subrange(1, b.len() as int))
    }
}

pub proof fn lemma_text_order(a: Seq<char>, b: Seq<char>)
    ensures
        !text_before(a, a),
        !(text_before(a, b) && text_before(b, a)),
        a != b ==> text_before(a, b) || text_before(b, a),
    decreases a.len(),
{
    if a.len() > 0 {
        lemma_text_order(a.subrange(1, a.len() as int), a.subrange(1, a.len() as int));
    }
    if a.len() > 0 && b.len() > 0 && a[0] == b[0] {
        let at = a.subrange(1, a.len() as int);
        let bt = b.subrange(1, b.len() as int);
        lemma_text_order(at, bt);
        if at == bt {
            assert(a =~= seq![a[0]] + at);
            assert(b =~= seq![b[0]] + bt);
        }
    } else if a.len() == 0 && b.len() == 0 {
        assert(a =~= b);
    }
}

pub proof fn lemma_text_order_transitive(a: Seq<char>, b: Seq<char>, c: Seq<char>)
    requires
        text_before(a, b),
        text_before(b, c),
    ensures
        text_before(a, c),
    decreases a.len(),
{
    if a.len() > 0 && a[0] == b[0] && b[0] == c[0] {
        lemma_text_order_transitive(
            a.subrange(1, a.len() as int),
            b.subrange(1, b.len() as int),
            c.subrange(1, c.len() as int),
        );
    }
}

pub fn comes_before(a: &str, b: &str) -> (r: bool)
    ensures
        r == text_before(a@, b@),
{
    let x = chars_of(a);
    let y = chars_of(b);
    let mut i: usize = 0;
    assert(x@.subrange(0, x@.len() as int) =~= x@);
    assert(y@.subrange(0, y@.len() as int) =~= y@);
    while i < x.len() && i < y.len()
        invariant
            i <= x@.len(),
            i <= y@.len(),
            text_before(x@, y@) == text_before(
                x@.subrange(i as int, x@.len() as int),
                y@.subrange(i as int, y@.len() as int),
            ),
            x@ == a@,
            y@ == b@,
        decreases x@.len() - i,
    {
        let ghost xs = x@.subrange(i as int, x@.len() as int);
        let ghost ys = y@.subrange(i as int, y@.len() as int);
        assert(xs[0] == x@[i as int] && ys[0] == y@[i as int]);
        if x[i] != y[i] {
            return x[i] < y[i];
        }
        assert(xs.subrange(1, xs.len() as int) =~= x@.subrange(i + 1, x@.len() as int));
        assert(ys.subrange(1, ys.len() as int) =~= y@.subrange(i + 1, y@.len() as int));
        i += 1;
    }
    i < y.len()
}

// ---------------------------------------------------------------------------
// Laws
// ---------------------------------------------------------------------------

/// What is trimmed off the end is the character and nothing else, and all of it.
pub proof fn lemma_trimmed_end_of(s: Seq<char>, c: char)
    ensures
        trimmed_end_of(s, c).len() > 0 ==> trimmed_end_of(s, c).last() != c,
        occurs_at(s, trimmed_end_of(s, c), 0),
        forall|k: int| trimmed_end_of(s, c).len() <= k < s.len() ==> s[k] == c,
    decreases s.len(),
{
    if s.len() > 0 && s.last() == c {
        lemma_trimmed_end_of(s.drop_last(), c);
        let t = trimmed_end_of(s, c);
        assert(s.subrange(0, t.len() as int) =~= s.drop_last().subrange(0, t.len() as int));
        assert forall|k: int| t.len() <= k < s.len() implies s[k] == c by {
            if k < s.len() - 1 {
                assert(s.drop_last()[k] == s[k]);
            }
        }
    } else {
        assert(s.subrange(0, s.len() as int) =~= s);
    }
}

/// The number that some digits read as.
pub open spec fn number_read(digits: Seq<char>) -> nat
    decreases digits.len(),
{
    if digits.len() == 0 {
        0
    } else {
        number_read(digits.drop_last()) * 10 + (digits.last() as int - '0' as int) as nat
    }
}

/// A number is written as it reads: in digits alone, without a zero before it.
pub proof fn law_a_number_reads_as_written(n: nat)
    ensures
        number_read(dec(n)) == n,
        dec(n).len() > 0,
        forall|i: int| 0 <= i < dec(n).len() ==> '0' <= #[trigger] dec(n)[i] <= '9',
        dec(n)[0] == '0' ==> n == 0,
    decreases n,
{
    if n >= 10 {
        law_a_number_reads_as_written(n / 10);
        let before = dec(n / 10);
        assert(dec(n).drop_last() =~= before);
        assert forall|i: int| 0 <= i < dec(n).len() implies '0' <= #[trigger] dec(n)[i] <= '9' by {
            if i < before.len() {
                assert(dec(n)[i] == before[i]);
            }
        }
        assert(dec(n)[0] == before[0]);
    } else {
        assert(dec(n).drop_last() =~= seq![]);
        assert(number_read(seq![]) == 0);
    }
}

/// Lowering changes capitals of the alphabet, each into its small letter, and
/// nothing else.
pub proof fn law_lowering_changes_capitals_alone(s: Seq<char>, i: int)
    requires
        0 <= i < s.len(),
    ensures
        lower(s).len() == s.len(),
        'A' <= s[i] <= 'Z' ==> lower(s)[i] as int == s[i] as int + ('a' as int - 'A' as int),
        !('A' <= s[i] <= 'Z') ==> lower(s)[i] == s[i],
        lower(lower(s)) == lower(s),
{
    assert(lower(lower(s)) =~= lower(s));
}

pub proof fn lemma_from_where_it_starts(s: Seq<char>) -> (k: int)
    ensures
        0 <= k <= s.len(),
        trimmed_start(s) == s.subrange(k, s.len() as int),
        forall|i: int| 0 <= i < k ==> whitespace(s[i]),
        k < s.len() ==> !whitespace(s[k]),
    decreases s.len(),
{
    if s.len() > 0 && whitespace(s[0]) {
        let rest = s.subrange(1, s.len() as int);
        let k = lemma_from_where_it_starts(rest);
        assert(rest.subrange(k, rest.len() as int) =~= s.subrange(k + 1, s.len() as int));
        assert forall|i: int| 0 <= i < k + 1 implies whitespace(s[i]) by {
            if i > 0 {
                assert(rest[i - 1] == s[i]);
            }
        }
        k + 1
    } else {
        assert(s.subrange(0, s.len() as int) =~= s);
        0
    }
}

pub proof fn lemma_to_where_it_ends(s: Seq<char>) -> (k: int)
    ensures
        0 <= k <= s.len(),
        trimmed_end(s) == s.subrange(0, k),
        forall|i: int| k <= i < s.len() ==> whitespace(s[i]),
        k > 0 ==> !whitespace(s[k - 1]),
    decreases s.len(),
{
    if s.len() > 0 && whitespace(s.last()) {
        let rest = s.drop_last();
        let k = lemma_to_where_it_ends(rest);
        assert(rest.subrange(0, k) =~= s.subrange(0, k));
        assert forall|i: int| k <= i < s.len() implies whitespace(s[i]) by {
            if i < rest.len() {
                assert(rest[i] == s[i]);
            }
        }
        k
    } else {
        assert(s.subrange(0, s.len() as int) =~= s);
        s.len() as int
    }
}

/// A trimmed text is what stands in the text between the white space at its ends,
/// and neither begins nor ends with any.
pub proof fn law_trimming_takes_white_space_alone(s: Seq<char>)
    ensures
        trimmed(s).len() > 0 ==> !whitespace(trimmed(s)[0]) && !whitespace(trimmed(s).last()),
        exists|from: int, to: int|
            0 <= from <= to <= s.len() && #[trigger] s.subrange(from, to) == trimmed(s) && (forall|
                i: int,
            |
                (0 <= i < from || to <= i < s.len()) ==> whitespace(#[trigger] s[i])),
{
    let from = lemma_from_where_it_starts(s);
    let rest = s.subrange(from, s.len() as int);
    let k = lemma_to_where_it_ends(rest);
    let to = from + k;
    assert(s.subrange(from, to) =~= rest.subrange(0, k));
    assert(s.subrange(from, to) == trimmed(s));
    assert forall|i: int| (0 <= i < from || to <= i < s.len()) implies whitespace(
        #[trigger] s[i],
    ) by {
        if i >= to {
            assert(rest[i - from] == s[i]);
        }
    }
    if k > 0 {
        assert(trimmed(s)[0] == rest[0]);
        assert(trimmed(s).last() == rest[k - 1]);
    }
}

/// Whether a text ends with another.
pub open spec fn ends_with(s: Seq<char>, tail: Seq<char>) -> bool {
    occurs_at(s, tail, s.len() - tail.len())
}

/// What follows the last of a character is what stands behind it.
pub proof fn lemma_after_last(s: Seq<char>, c: char) -> (k: int)
    ensures
        0 <= k <= s.len(),
        k > 0 ==> s[k - 1] == c,
        forall|i: int| k <= i < s.len() ==> s[i] != c,
        after_last(s, c) == s.subrange(k, s.len() as int),
    decreases s.len(),
{
    if s.len() > 0 && s.last() != c {
        let k = lemma_after_last(s.drop_last(), c);
        assert forall|i: int| k <= i < s.len() implies s[i] != c by {
            if i < s.len() - 1 {
                assert(s.drop_last()[i] == s[i]);
            }
        }
        lemma_after_last_split(s, c, k);
        k
    } else {
        assert(s.subrange(s.len() as int, s.len() as int) =~= seq![]);
        s.len() as int
    }
}

/// The parts, one after the other.
pub open spec fn flat(parts: Seq<Seq<char>>) -> Seq<char>
    decreases parts.len(),
{
    if parts.len() == 0 {
        seq![]
    } else {
        flat(parts.drop_last()) + parts.last()
    }
}

pub proof fn lemma_flat_push(parts: Seq<Seq<char>>, x: Seq<char>)
    ensures
        flat(parts.push(x)) == flat(parts) + x,
{
    assert(parts.push(x).drop_last() =~= parts);
}

/// Each of the parts stands in all of them.
pub proof fn lemma_flat_holds(parts: Seq<Seq<char>>, k: int)
    requires
        0 <= k < parts.len(),
    ensures
        has_text(flat(parts), parts[k]),
    decreases parts.len(),
{
    let none: Seq<char> = seq![];
    let before = flat(parts.drop_last());
    assert(flat(parts) =~= before + parts.last() + none);
    assert(flat(parts) =~= none + before + parts.last());
    if k == parts.len() - 1 {
        lemma_has_text(before, parts[k], none);
    } else {
        lemma_flat_holds(parts.drop_last(), k);
        lemma_stands_within(none, before, parts.last(), parts[k]);
    }
}

/// Texts are ordered by the first character in which they differ, and a text comes before
/// every longer one that begins with it.
pub proof fn law_the_first_difference_orders_texts(
    common: Seq<char>,
    a: char,
    b: char,
    x: Seq<char>,
    y: Seq<char>,
)
    ensures
        a < b ==> text_before(common + seq![a] + x, common + seq![b] + y),
        text_before(common, common + seq![a] + x),
    decreases common.len(),
{
    let p = common + seq![a] + x;
    let q = common + seq![b] + y;
    if common.len() > 0 {
        let rest = common.subrange(1, common.len() as int);
        law_the_first_difference_orders_texts(rest, a, b, x, y);
        assert(p.subrange(1, p.len() as int) =~= rest + seq![a] + x);
        assert(q.subrange(1, q.len() as int) =~= rest + seq![b] + y);
    }
}

/// Replacing goes character by character.
pub proof fn lemma_replaced_concat(s: Seq<char>, t: Seq<char>, c: char, by: Seq<char>)
    ensures
        replaced(s + t, c, by) == replaced(s, c, by) + replaced(t, c, by),
    decreases t.len(),
{
    if t.len() == 0 {
        assert(s + t =~= s);
        assert(replaced(s, c, by) + replaced(t, c, by) =~= replaced(s, c, by));
    } else {
        lemma_replaced_concat(s, t.drop_last(), c, by);
        assert((s + t).drop_last() =~= s + t.drop_last());
        let a = replaced(s, c, by);
        let b = replaced(t.drop_last(), c, by);
        if t.last() == c {
            assert((a + b) + by =~= a + (b + by));
        } else {
            assert((a + b).push(t.last()) =~= a + b.push(t.last()));
        }
    }
}

/// What is not replaced stays, and each occurrence of what is gives way to the
/// replacement.
pub proof fn law_only_the_character_is_replaced(s: Seq<char>, c: char, by: Seq<char>, x: char)
    ensures
        replaced(seq![x], c, by) == (if x == c {
            by
        } else {
            seq![x]
        }),
        replaced(seq![], c, by) == Seq::<char>::empty(),
        replaced(s.push(x), c, by) == replaced(s, c, by) + replaced(seq![x], c, by),
{
    reveal_with_fuel(replaced, 2);
    assert(seq![x].drop_last() =~= Seq::<char>::empty());
    assert(Seq::<char>::empty() + by =~= by);
    assert(Seq::<char>::empty().push(x) =~= seq![x]);
    assert(s.push(x) =~= s + seq![x]);
    lemma_replaced_concat(s, seq![x], c, by);
}

/// What stands in a text still does when the text goes on.
pub proof fn lemma_goes_on(text: Seq<char>, more: Seq<char>, needle: Seq<char>)
    requires
        has_text(text, needle),
    ensures
        has_text(text + more, needle),
{
    let none: Seq<char> = seq![];
    assert(text + more =~= none + text + more);
    lemma_stands_within(none, text, more, needle);
}

} // verus!
