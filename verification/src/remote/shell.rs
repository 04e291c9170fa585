//! Quoting for a POSIX shell on another machine.

use vstd::prelude::*;
use crate::text::{
    ascii_alphanumeric, chars_of, dec, is_ascii_alphanumeric, law_a_number_reads_as_written,
    occurs_at, replace, replaced,
};

verus! {

/// A character that means nothing to a shell.
pub open spec fn inert(c: char) -> bool {
    ascii_alphanumeric(c) || c == '-' || c == '_' || c == '.' || c == '/' || c == ':' || c == '='
}

pub open spec fn all_inert(s: Seq<char>) -> bool {
    forall|i: int| 0 <= i < s.len() ==> inert(#[trigger] s[i])
}

/// How a value is written into a command line: as it is where nothing in it
/// means anything to a shell, else between single quotes.
pub open spec fn quoted(value: Seq<char>) -> Seq<char> {
    if value.len() > 0 && all_inert(value) {
        value
    } else {
        "'"@ + replaced(value, '\'', "'\\''"@) + "'"@
    }
}

pub fn shell_quote(value: &str) -> (r: String)
    ensures
        r@ == quoted(value@),
{
    let chars = chars_of(value);
    let mut plain = chars.len() > 0;
    let mut i: usize = 0;
    while i < chars.len()
        invariant
            i <= chars@.len(),
            plain == (chars@.len() > 0 && all_inert(chars@.subrange(0, i as int))),
        decreases chars@.len() - i,
    {
        let c = chars[i];
        let ok = is_ascii_alphanumeric(c) || c == '-' || c == '_' || c == '.' || c == '/' || c
            == ':' || c == '=';
        let ghost now = chars@.subrange(0, i as int);
        let ghost next = chars@.subrange(0, i + 1);
        assert(next =~= now.push(c));
        assert(next[i as int] == c);
        assert(all_inert(next) == (all_inert(now) && inert(c))) by {
            if all_inert(next) {
                assert forall|j: int| 0 <= j < now.len() implies inert(#[trigger] now[j]) by {
                    assert(next[j] == now[j]);
                }
            }
        }
        plain = plain && ok;
        i += 1;
    }
    assert(chars@.subrange(0, chars@.len() as int) =~= chars@);
    if plain {
        return value.to_owned();
    }
    let mut out = "'".to_owned();
    out.push_str(replace(value, '\'', "'\\''").as_str());
    out.push_str("'");
    out
}

// ---------------------------------------------------------------------------
// What a shell makes of it
// ---------------------------------------------------------------------------

/// Where a shell stands in a word.
pub enum Mode {
    Bare,
    Quoted,
    /// Behind a backslash.
    Escaped,
}

/// A shell reading a word: where it stands, and the value so far. None once
/// something was read that is not part of one literal word.
pub struct Reading {
    pub mode: Mode,
    pub value: Seq<char>,
}

/// What one more character does.
pub open spec fn read_char(r: Option<Reading>, c: char) -> Option<Reading> {
    match r {
        None => None,
        Some(Reading { mode: Mode::Bare, value }) => if c == '\'' {
            Some(Reading { mode: Mode::Quoted, value })
        } else if c == '\\' {
            Some(Reading { mode: Mode::Escaped, value })
        } else if inert(c) {
            Some(Reading { mode: Mode::Bare, value: value.push(c) })
        } else {
            None
        },
        Some(Reading { mode: Mode::Quoted, value }) => if c == '\'' {
            Some(Reading { mode: Mode::Bare, value })
        } else {
            Some(Reading { mode: Mode::Quoted, value: value.push(c) })
        },
        Some(Reading { mode: Mode::Escaped, value }) => Some(
            Reading { mode: Mode::Bare, value: value.push(c) },
        ),
    }
}

pub open spec fn reading(s: Seq<char>) -> Option<Reading>
    decreases s.len(),
{
    if s.len() == 0 {
        Some(Reading { mode: Mode::Bare, value: seq![] })
    } else {
        read_char(reading(s.drop_last()), s.last())
    }
}

/// The value of a text that a shell reads as one literal word.
pub open spec fn word_value(s: Seq<char>) -> Option<Seq<char>> {
    match reading(s) {
        Some(Reading { mode: Mode::Bare, value }) => if s.len() > 0 {
            Some(value)
        } else {
            None
        },
        _ => None,
    }
}

proof fn lemma_read_push(s: Seq<char>, c: char)
    ensures
        reading(s.push(c)) == read_char(reading(s), c),
{
    assert(s.push(c).drop_last() =~= s);
}

pub proof fn lemma_read_inert(value: Seq<char>)
    requires
        all_inert(value),
    ensures
        reading(value) == Some(Reading { mode: Mode::Bare, value }),
    decreases value.len(),
{
    if value.len() == 0 {
        assert(value =~= seq![]);
    } else {
        let front = value.drop_last();
        assert forall|j: int| 0 <= j < front.len() implies inert(#[trigger] front[j]) by {
            assert(value[j] == front[j]);
        }
        lemma_read_inert(front);
        assert(inert(value[value.len() - 1]));
        assert(front.push(value.last()) =~= value);
    }
}

proof fn lemma_read_quoted(value: Seq<char>)
    ensures
        reading("'"@ + replaced(value, '\'', "'\\''"@)) == Some(
            Reading { mode: Mode::Quoted, value },
        ),
    decreases value.len(),
{
    reveal_strlit("'");
    reveal_strlit("'\\''");
    let open = "'"@;
    let escape = "'\\''"@;
    assert(escape =~= seq!['\'', '\\', '\'', '\'']);
    if value.len() == 0 {
        assert(open + replaced(value, '\'', escape) =~= Seq::<char>::empty().push('\''));
        lemma_read_push(seq![], '\'');
        assert(value =~= seq![]);
    } else {
        let front = value.drop_last();
        let c = value.last();
        lemma_read_quoted(front);
        let so_far = open + replaced(front, '\'', escape);
        assert(front.push(c) =~= value);
        if c == '\'' {
            assert(open + replaced(value, '\'', escape) =~= so_far.push('\'').push('\\').push(
                '\'',
            ).push('\''));
            lemma_read_push(so_far, '\'');
            lemma_read_push(so_far.push('\''), '\\');
            lemma_read_push(so_far.push('\'').push('\\'), '\'');
            lemma_read_push(so_far.push('\'').push('\\').push('\''), '\'');
        } else {
            assert(open + replaced(value, '\'', escape) =~= so_far.push(c));
            lemma_read_push(so_far, c);
        }
    }
}

/// Whatever a value holds, a shell reads its quoted form as one word whose
/// value is exactly that: no value ends the quoting early.
pub proof fn law_a_quoted_value_is_one_literal_word(value: Seq<char>)
    ensures
        word_value(quoted(value)) == Some(value),
{
    if value.len() > 0 && all_inert(value) {
        lemma_read_inert(value);
    } else {
        reveal_strlit("'");
        let body = "'"@ + replaced(value, '\'', "'\\''"@);
        lemma_read_quoted(value);
        assert("'"@ =~= seq!['\'']);
        assert(quoted(value) =~= body.push('\''));
        lemma_read_push(body, '\'');
    }
}

/// Two parts of one word read one after the other.
pub proof fn lemma_read_concat(a: Seq<char>, b: Seq<char>)
    requires
        reading(a) matches Some(r) && r.mode is Bare,
        reading(b) is Some,
    ensures
        reading(a + b) == Some(
            Reading { mode: reading(b)->0.mode, value: reading(a)->0.value + reading(b)->0.value },
        ),
    decreases b.len(),
{
    if b.len() == 0 {
        assert(a + b =~= a);
        assert(reading(a)->0.value + reading(b)->0.value =~= reading(a)->0.value);
    } else {
        let front = b.drop_last();
        lemma_read_concat(a, front);
        assert((a + b).drop_last() =~= a + front);
        assert((a + b).last() == b.last());
        let va = reading(a)->0.value;
        let vb = reading(front)->0.value;
        assert((va + vb).push(b.last()) =~= va + vb.push(b.last()));
    }
}

/// What a shell whose home folder is `home` makes of a word that begins with
/// `$HOME`, unquoted, and is literal behind it.
pub open spec fn word_below_home(s: Seq<char>, home: Seq<char>) -> Option<Seq<char>> {
    let rest = s.subrange("$HOME"@.len() as int, s.len() as int);
    if occurs_at(s, "$HOME"@, 0) && rest.len() > 0 && rest[0] == '/' {
        match word_value(rest) {
            Some(value) => Some(home + value),
            None => None,
        }
    } else {
        None
    }
}

/// Different values are quoted differently.
pub proof fn law_quoting_loses_nothing(a: Seq<char>, b: Seq<char>)
    requires
        quoted(a) == quoted(b),
    ensures
        a == b,
{
    law_a_quoted_value_is_one_literal_word(a);
    law_a_quoted_value_is_one_literal_word(b);
}

/// A text with one more word behind it.
pub open spec fn and_word(rest: Seq<char>, word: Seq<char>) -> Seq<char> {
    rest + seq![' '] + word
}

/// Whether a shell reads a text as a space before each of these arguments, and
/// nothing else.
pub open spec fn spells(s: Seq<char>, arguments: Seq<Seq<char>>) -> bool
    decreases arguments.len(),
{
    if arguments.len() == 0 {
        s.len() == 0
    } else {
        exists|rest: Seq<char>, word: Seq<char>|
            s == #[trigger] and_word(rest, word) && word_value(word) == Some(arguments.last())
                && spells(rest, arguments.drop_last())
    }
}

pub proof fn lemma_spells_none()
    ensures
        spells(seq![], seq![]),
{
}

pub proof fn lemma_spells(
    rest: Seq<char>,
    arguments: Seq<Seq<char>>,
    word: Seq<char>,
    value: Seq<char>,
)
    requires
        spells(rest, arguments),
        word_value(word) == Some(value),
    ensures
        spells(and_word(rest, word), arguments.push(value)),
{
    assert(arguments.push(value).drop_last() =~= arguments);
    assert(arguments.push(value).last() == value);
}

/// A word that means nothing to a shell stands for itself.
pub proof fn lemma_plain_word(word: Seq<char>)
    requires
        word.len() > 0,
        all_inert(word),
    ensures
        word_value(word) == Some(word),
{
    lemma_read_inert(word);
}

pub proof fn lemma_inert_concat(a: Seq<char>, b: Seq<char>)
    requires
        all_inert(a),
        all_inert(b),
    ensures
        all_inert(a + b),
{
    let s = a + b;
    assert forall|i: int| 0 <= i < s.len() implies inert(#[trigger] s[i]) by {
        if i < a.len() {
            assert(s[i] == a[i]);
        } else {
            assert(s[i] == b[i - a.len()]);
        }
    }
}

pub proof fn lemma_inert_dec(n: nat)
    ensures
        all_inert(dec(n)),
        dec(n).len() > 0,
{
    law_a_number_reads_as_written(n);
    let s = dec(n);
    assert forall|i: int| 0 <= i < s.len() implies inert(#[trigger] s[i]) by {
        assert('0' <= dec(n)[i] <= '9');
    }
}

/// A character that a shell may act on where it is not quoted.
pub open spec fn acted_on(c: char) -> bool {
    ||| c == ' ' || c == '\t' || c == '\n' || c == '\r'
    ||| c == '$' || c == '`' || c == '"' || c == '\'' || c == '\\'
    ||| c == ';' || c == '&' || c == '|' || c == '<' || c == '>' || c == '(' || c == ')'
    ||| c == '*' || c == '?' || c == '[' || c == ']' || c == '{' || c == '}'
    ||| c == '#' || c == '~' || c == '!' || c == '%' || c == '^' || c == ','
}

/// A value with anything in it that a shell may act on is quoted, and so is an empty
/// one; a value of letters, digits, hyphens, underscores and dots stays as it is.
pub proof fn law_what_a_shell_acts_on_is_quoted(value: Seq<char>)
    ensures
        value.len() == 0 || (exists|i: int| 0 <= i < value.len() && acted_on(#[trigger] value[i]))
            ==> quoted(value) != value && quoted(value)[0] == '\'' && quoted(value).last()
            == '\'',
        value.len() > 0 && (forall|i: int|
            0 <= i < value.len() ==> ('a' <= #[trigger] value[i] <= 'z' || 'A' <= value[i] <= 'Z'
                || '0' <= value[i] <= '9' || value[i] == '-' || value[i] == '_' || value[i]
                == '.')) ==> quoted(value) == value,
{
    reveal_strlit("'");
    let body = replaced(value, '\'', "'\\''"@);
    if value.len() == 0 || (exists|i: int| 0 <= i < value.len() && acted_on(#[trigger] value[i])) {
        if value.len() > 0 {
            let i = choose|i: int| 0 <= i < value.len() && acted_on(#[trigger] value[i]);
            assert(!inert(value[i]));
        }
        assert(quoted(value) == "'"@ + body + "'"@);
        law_a_quoted_value_is_one_literal_word(value);
        if quoted(value) == value {
            lemma_longer(value);
        }
    }
}

proof fn lemma_longer(value: Seq<char>)
    ensures
        replaced(value, '\'', "'\\''"@).len() >= value.len(),
    decreases value.len(),
{
    reveal_strlit("'\\''");
    if value.len() > 0 {
        lemma_longer(value.drop_last());
    }
}

} // verus!
