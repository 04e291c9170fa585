//! Aiming a health report at the machine it is about.
//!
//! A report is scored and rendered as if for the local machine. Every command in
//! it has to be made to run on the machine it describes, whole: a pipeline cut
//! in two would run its second half here.

use vstd::prelude::*;
use crate::failure::{within, Failure};
use crate::remote::shell::{quoted, shell_quote, word_value};
use crate::remote::transport::{
    asks, exit_label_of, goes_on, held, reply_at, run_result, Exchange, Talk, Transport,
};
use crate::text::{
    chars_of, contains, ends_with_char, first_of, has_text, join, joined, lemma_first_of,
    lemma_first_of_is, lemma_from_where_it_starts, lemma_has_text, lemma_to_where_it_ends,
    lemma_trimmed_start, lines, lines_of, occurs_at, opt_view, replaced, starts_with, text_of, texts,
    trim, trim_end, trim_start, trimmed, trimmed_end, trimmed_start, whitespace,
};

verus! {

/// A suggested repair.
#[derive(Debug, PartialEq, Eq)]
pub struct Fix {
    pub commands: Vec<String>,
    /// A command that shows whether it worked; empty where there is none.
    pub verify: String,
    pub notes: Vec<String>,
}

/// One recognised problem.
#[derive(Debug, PartialEq, Eq)]
pub struct Diagnosis {
    pub title: String,
    pub score: i32,
    pub fix: Option<Fix>,
}

/// What was found on a machine.
#[derive(Debug, PartialEq, Eq)]
pub struct DiagnoseReport {
    pub matched: Vec<Diagnosis>,
    /// Why the machine was not looked at, where it was not.
    pub out_of_scope: Option<String>,
}

pub struct FixView {
    pub commands: Seq<Seq<char>>,
    pub verify: Seq<char>,
    pub notes: Seq<Seq<char>>,
}

pub struct DiagnosisView {
    pub title: Seq<char>,
    pub score: i32,
    pub fix: Option<FixView>,
}

pub struct ReportView {
    pub matched: Seq<DiagnosisView>,
    pub out_of_scope: Option<Seq<char>>,
}

impl View for Fix {
    type V = FixView;

    open spec fn view(&self) -> FixView {
        FixView {
            commands: texts(self.commands@),
            verify: self.verify@,
            notes: texts(self.notes@),
        }
    }
}

impl View for Diagnosis {
    type V = DiagnosisView;

    open spec fn view(&self) -> DiagnosisView {
        DiagnosisView {
            title: self.title@,
            score: self.score,
            fix: match self.fix {
                Some(f) => Some(f@),
                None => None,
            },
        }
    }
}

pub open spec fn diagnosis_views(s: Seq<Diagnosis>) -> Seq<DiagnosisView> {
    s.map_values(|d: Diagnosis| d@)
}

impl View for DiagnoseReport {
    type V = ReportView;

    open spec fn view(&self) -> ReportView {
        ReportView {
            matched: diagnosis_views(self.matched@),
            out_of_scope: opt_view(self.out_of_scope),
        }
    }
}

// ---------------------------------------------------------------------------
// Commands
// ---------------------------------------------------------------------------

/// What to paste to run `command` on `target`: one layer of quoting, so the far
/// shell parses the pipeline.
pub open spec fn invocation(target: Seq<char>, command: Seq<char>) -> Seq<char> {
    "ssh "@ + target + " -- "@ + quoted(command)
}

pub fn remote_invocation(target: &str, command: &str) -> (r: String)
    ensures
        r@ == invocation(target@, command@),
{
    let mut out = "ssh ".to_owned();
    out.push_str(target);
    out.push_str(" -- ");
    out.push_str(shell_quote(command).as_str());
    out
}

/// Whether a command goes on in the next entry.
pub open spec fn continues(command: Seq<char>) -> bool {
    trimmed_end(command).len() > 0 && trimmed_end(command).last() == '\\'
}

/// The commands completed so far, and the one still open.
pub struct Joining {
    pub done: Seq<Seq<char>>,
    pub open: Option<Seq<char>>,
}

pub open spec fn joining(commands: Seq<Seq<char>>) -> Joining
    decreases commands.len(),
{
    if commands.len() == 0 {
        Joining { done: seq![], open: None }
    } else {
        let before = joining(commands.drop_last());
        let c = commands.last();
        let whole = match before.open {
            Some(open) => open + "\n"@ + c,
            None => c,
        };
        if continues(c) {
            Joining { done: before.done, open: Some(whole) }
        } else {
            Joining { done: before.done.push(whole), open: None }
        }
    }
}

/// The commands with each that is spread over several entries made one.
pub open spec fn continued(commands: Seq<Seq<char>>) -> Seq<Seq<char>> {
    let j = joining(commands);
    match j.open {
        Some(open) => j.done.push(open),
        None => j.done,
    }
}

pub fn join_continuations(commands: &Vec<String>) -> (r: Vec<String>)
    ensures
        texts(r@) == continued(texts(commands@)),
{
    let ghost all = texts(commands@);
    let mut done: Vec<String> = Vec::new();
    let mut pending: Option<String> = None;
    let mut i: usize = 0;
    assert(all.subrange(0, 0) =~= seq![]);
    assert(texts(done@) =~= seq![]);
    while i < commands.len()
        invariant
            i <= commands@.len(),
            all == texts(commands@),
            texts(done@) == joining(all.subrange(0, i as int)).done,
            opt_view(pending) == joining(all.subrange(0, i as int)).open,
        decreases commands@.len() - i,
    {
        assert(all.subrange(0, i + 1).drop_last() =~= all.subrange(0, i as int));
        assert(all.subrange(0, i + 1).last() == commands@[i as int]@);
        let command = &commands[i];
        let more = ends_with_char(trim_end(command.as_str()).as_str(), '\\');
        let whole = match pending {
            Some(open) => {
                let mut open = open;
                open.push_str("\n");
                open.push_str(command.as_str());
                open
            },
            None => command.clone(),
        };
        if more {
            pending = Some(whole);
        } else {
            let ghost before = texts(done@);
            done.push(whole);
            assert(texts(done@) =~= before.push(whole@));
            pending = None;
        }
        i += 1;
    }
    assert(all.subrange(0, all.len() as int) =~= all);
    if let Some(open) = pending {
        let ghost before = texts(done@);
        done.push(open);
        assert(texts(done@) =~= before.push(open@));
    }
    done
}

/// Whether an entry is prose rather than something to run.
pub open spec fn comment(command: Seq<char>) -> bool {
    occurs_at(trimmed_start(command), "#"@, 0)
}

pub fn is_comment(command: &str) -> (r: bool)
    ensures
        r == comment(command@),
{
    starts_with(trim_start(command).as_str(), "#")
}

/// Whether a fix's steps share one shell, as its own labels say.
pub open spec fn stateful(commands: Seq<Seq<char>>) -> bool {
    exists|i: int|
        0 <= i < commands.len() && (has_text(#[trigger] commands[i], "step 2 of"@) || has_text(
            commands[i],
            "INSIDE the subshell"@,
        ))
}

pub fn is_stateful_sequence(fix: &Fix) -> (r: bool)
    ensures
        r == stateful(fix@.commands),
{
    let ghost all = fix@.commands;
    let mut i: usize = 0;
    while i < fix.commands.len()
        invariant
            i <= fix.commands@.len(),
            all == texts(fix.commands@),
            all == fix@.commands,
            forall|j: int|
                0 <= j < i ==> !has_text(#[trigger] all[j], "step 2 of"@) && !has_text(
                    all[j],
                    "INSIDE the subshell"@,
                ),
        decreases fix.commands@.len() - i,
    {
        assert(all[i as int] == fix.commands@[i as int]@);
        let command = fix.commands[i].as_str();
        if contains(command, "step 2 of") || contains(command, "INSIDE the subshell") {
            return true;
        }
        i += 1;
    }
    false
}

pub open spec fn aimed_command(target: Seq<char>, command: Seq<char>) -> Seq<char> {
    if comment(command) {
        command
    } else {
        invocation(target, command)
    }
}

pub open spec fn shared_shell_note(target: Seq<char>) -> Seq<char> {
    "These steps share one shell session, so they cannot be run over separate connections. Open a session first with `ssh "@
        + target + "`, then run them there."@
}

/// A fix with everything there is to run aimed at the target.
pub open spec fn aimed_fix(target: Seq<char>, fix: FixView) -> FixView {
    if stateful(fix.commands) {
        FixView { notes: fix.notes.push(shared_shell_note(target)), ..fix }
    } else {
        FixView {
            commands: continued(fix.commands).map_values(|c: Seq<char>| aimed_command(target, c)),
            verify: if fix.verify.len() > 0 {
                invocation(target, fix.verify)
            } else {
                fix.verify
            },
            notes: fix.notes,
        }
    }
}

pub open spec fn aimed_diagnosis(target: Seq<char>, d: DiagnosisView) -> DiagnosisView {
    DiagnosisView {
        fix: match d.fix {
            Some(f) => Some(aimed_fix(target, f)),
            None => None,
        },
        ..d
    }
}

/// A report with every fix aimed at the target.
pub open spec fn aimed(target: Seq<char>, report: ReportView) -> ReportView {
    ReportView {
        matched: report.matched.map_values(|d: DiagnosisView| aimed_diagnosis(target, d)),
        ..report
    }
}

fn aim_fix(target: &str, fix: &Fix) -> (r: Fix)
    ensures
        r@ == aimed_fix(target@, fix@),
{
    let mut notes = crate::text::clone_texts(&fix.notes);
    if is_stateful_sequence(fix) {
        let mut note =
            "These steps share one shell session, so they cannot be run over separate connections. Open a session first with `ssh ".to_owned();
        note.push_str(target);
        note.push_str("`, then run them there.");
        let ghost before = texts(notes@);
        notes.push(note);
        assert(texts(notes@) =~= before.push(note@));
        return Fix {
            commands: crate::text::clone_texts(&fix.commands),
            verify: fix.verify.clone(),
            notes,
        };
    }
    let joined_up = join_continuations(&fix.commands);
    let ghost whole = texts(joined_up@);
    let mut commands: Vec<String> = Vec::new();
    let mut i: usize = 0;
    while i < joined_up.len()
        invariant
            i <= joined_up@.len(),
            whole == texts(joined_up@),
            commands@.len() == i,
            forall|j: int|
                0 <= j < i ==> (#[trigger] commands@[j])@ == aimed_command(target@, whole[j]),
        decreases joined_up@.len() - i,
    {
        assert(whole[i as int] == joined_up@[i as int]@);
        let command = &joined_up[i];
        if is_comment(command.as_str()) {
            commands.push(command.clone());
        } else {
            commands.push(remote_invocation(target, command.as_str()));
        }
        i += 1;
    }
    assert(texts(commands@) =~= whole.map_values(|c: Seq<char>| aimed_command(target@, c)));
    let verify = if fix.verify.as_str().is_empty() {
        fix.verify.clone()
    } else {
        remote_invocation(target, fix.verify.as_str())
    };
    Fix { commands, verify, notes }
}

/// A copy of the report with every fix aimed at the target.
pub fn aim_at(target: &str, report: &DiagnoseReport) -> (r: DiagnoseReport)
    ensures
        r@ == aimed(target@, report@),
{
    let ghost all = report@.matched;
    let mut matched: Vec<Diagnosis> = Vec::new();
    let mut i: usize = 0;
    while i < report.matched.len()
        invariant
            i <= report.matched@.len(),
            all == diagnosis_views(report.matched@),
            matched@.len() == i,
            forall|j: int|
                0 <= j < i ==> (#[trigger] matched@[j])@ == aimed_diagnosis(target@, all[j]),
        decreases report.matched@.len() - i,
    {
        let d = &report.matched[i];
        assert(all[i as int] == d@);
        let fix = match &d.fix {
            Some(f) => Some(aim_fix(target, f)),
            None => None,
        };
        matched.push(Diagnosis { title: d.title.clone(), score: d.score, fix });
        i += 1;
    }
    assert(diagnosis_views(matched@) =~= all.map_values(
        |d: DiagnosisView| aimed_diagnosis(target@, d),
    ));
    DiagnoseReport { matched, out_of_scope: crate::text::clone_opt(&report.out_of_scope) }
}

// ---------------------------------------------------------------------------
// Rendered text
// ---------------------------------------------------------------------------

/// What stands before the one command a rendered report makes up itself.
pub const APPLY_WITH: &'static str = "apply with: ";

/// A line of a rendered report, with an `apply with:` command aimed.
pub open spec fn aimed_line(target: Seq<char>, line: Seq<char>) -> Seq<char> {
    let t = trimmed_start(line);
    let mark = APPLY_WITH@;
    if !occurs_at(t, mark, 0) {
        line
    } else {
        let command = trimmed(t.subrange(mark.len() as int, t.len() as int));
        if command.len() == 0 {
            line
        } else {
            line.subrange(0, line.len() - t.len() + mark.len()) + invocation(target, command)
        }
    }
}

fn aim_line(target: &str, line: &str) -> (r: String)
    ensures
        r@ == aimed_line(target@, line@),
{
    let rest = trim_start(line);
    if !starts_with(rest.as_str(), APPLY_WITH) {
        return line.to_owned();
    }
    let all = chars_of(line);
    let tail = chars_of(rest.as_str());
    let mark = chars_of(APPLY_WITH);
    let command = trim(text_of(&tail, mark.len(), tail.len()).as_str());
    if command.as_str().is_empty() {
        return line.to_owned();
    }
    proof {
        lemma_trimmed_start(line@);
    }
    let mut out = text_of(&all, 0, all.len() - tail.len() + mark.len());
    out.push_str(remote_invocation(target, command.as_str()).as_str());
    out
}

/// A rendered report with its `apply with:` commands aimed.
pub open spec fn apply_aimed(target: Seq<char>, rendered: Seq<char>) -> Seq<char> {
    joined(lines_of(rendered).map_values(|l: Seq<char>| aimed_line(target, l)), "\n"@) + "\n"@
}

pub fn redirect_apply_with(rendered: &str, target: &str) -> (r: String)
    ensures
        r@ == apply_aimed(target@, rendered@),
{
    let list = lines(rendered);
    let ghost all = texts(list@);
    let mut out: Vec<String> = Vec::new();
    let mut i: usize = 0;
    while i < list.len()
        invariant
            i <= list@.len(),
            all == texts(list@),
            out@.len() == i,
            forall|j: int| 0 <= j < i ==> (#[trigger] out@[j])@ == aimed_line(target@, all[j]),
        decreases list@.len() - i,
    {
        assert(all[i as int] == list@[i as int]@);
        out.push(aim_line(target, list[i].as_str()));
        i += 1;
    }
    assert(texts(out@) =~= all.map_values(|l: Seq<char>| aimed_line(target@, l)));
    let mut text = join(&out, "\n");
    text.push_str("\n");
    text
}

/// A text with every `rocm …` between backticks aimed.
pub open spec fn quotes_aimed(target: Seq<char>, s: Seq<char>) -> Seq<char>
    decreases s.len(),
    via quotes_aimed_decreases
{
    let open = first_of(s, '`');
    if open == s.len() {
        s
    } else {
        let after = s.subrange(open + 1, s.len() as int);
        let close = first_of(after, '`');
        if close == after.len() {
            s
        } else {
            let inner = after.subrange(0, close);
            let shown = if occurs_at(inner, "rocm "@, 0) {
                invocation(target, inner)
            } else {
                inner
            };
            s.subrange(0, open) + "`"@ + shown + "`"@ + quotes_aimed(
                target,
                after.subrange(close + 1, after.len() as int),
            )
        }
    }
}

#[via_fn]
proof fn quotes_aimed_decreases(target: Seq<char>, s: Seq<char>) {
    lemma_first_of(s, '`');
    let open = first_of(s, '`');
    if open != s.len() {
        lemma_first_of(s.subrange(open + 1, s.len() as int), '`');
    }
}

fn find_char(chars: &Vec<char>, from: usize, c: char) -> (r: usize)
    requires
        from <= chars@.len(),
    ensures
        from <= r <= chars@.len(),
        r - from == first_of(chars@.subrange(from as int, chars@.len() as int), c),
{
    let mut i: usize = from;
    while i < chars.len() && chars[i] != c
        invariant
            from <= i <= chars@.len(),
            forall|j: int| from <= j < i ==> chars@[j] != c,
        decreases chars@.len() - i,
    {
        i += 1;
    }
    proof {
        let rest = chars@.subrange(from as int, chars@.len() as int);
        assert forall|j: int| 0 <= j < i - from implies rest[j] != c by {
            assert(rest[j] == chars@[from + j]);
        }
        lemma_first_of_is(rest, c, i - from);
    }
    i
}

pub fn redirect_quoted_commands(rendered: &str, target: &str) -> (r: String)
    ensures
        r@ == quotes_aimed(target@, rendered@),
{
    let chars = chars_of(rendered);
    let ghost all = chars@;
    let mut out = String::new();
    let mut at: usize = 0;
    assert(all.subrange(0, all.len() as int) =~= all);
    assert(out@ + quotes_aimed(target@, all) =~= quotes_aimed(target@, all));
    loop
        invariant
            all == chars@,
            all == rendered@,
            at <= chars@.len(),
            out@ + quotes_aimed(target@, all.subrange(at as int, all.len() as int)) == quotes_aimed(
                target@,
                all,
            ),
        decreases chars@.len() - at,
    {
        let ghost rest = all.subrange(at as int, all.len() as int);
        let open = find_char(&chars, at, '`');
        if open == chars.len() {
            out.push_str(text_of(&chars, at, chars.len()).as_str());
            return out;
        }
        let ghost after = rest.subrange(open - at + 1, rest.len() as int);
        assert(after =~= all.subrange(open + 1, all.len() as int));
        let close = find_char(&chars, open + 1, '`');
        if close == chars.len() {
            out.push_str(text_of(&chars, at, chars.len()).as_str());
            return out;
        }
        let ghost before = out@;
        let inner = text_of(&chars, open + 1, close);
        assert(inner@ =~= after.subrange(0, close - open - 1));
        assert(rest.subrange(0, open - at) =~= all.subrange(at as int, open as int));
        assert(after.subrange(close - open, after.len() as int) =~= all.subrange(
            close + 1,
            all.len() as int,
        ));
        out.push_str(text_of(&chars, at, open).as_str());
        out.push_str("`");
        let ghost shown = if occurs_at(inner@, "rocm "@, 0) {
            invocation(target@, inner@)
        } else {
            inner@
        };
        if starts_with(inner.as_str(), "rocm ") {
            out.push_str(remote_invocation(target, inner.as_str()).as_str());
        } else {
            out.push_str(inner.as_str());
        }
        out.push_str("`");
        proof {
            let tail = quotes_aimed(target@, all.subrange(close + 1, all.len() as int));
            let piece = rest.subrange(0, open - at) + "`"@ + shown + "`"@;
            assert(quotes_aimed(target@, rest) == piece + tail);
            assert(out@ == before + rest.subrange(0, open - at) + "`"@ + shown + "`"@);
            assert(out@ + tail =~= before + (piece + tail));
        }
        at = close + 1;
    }
}

/// A report rendered for the machine it is about, given how the aimed report
/// reads.
pub open spec fn report_text(target: Seq<char>, rendered: Seq<char>) -> Seq<char> {
    "Health of "@ + target + "\n\n"@ + quotes_aimed(target, apply_aimed(target, rendered))
}

/// Renders a report for `target` from `rendered`, the text of the report that
/// [`aim_at`] made.
pub fn render_report(target: &str, rendered: &str) -> (r: String)
    ensures
        r@ == report_text(target@, rendered@),
{
    let mut out = "Health of ".to_owned();
    out.push_str(target);
    out.push_str("\n\n");
    let applied = redirect_apply_with(rendered, target);
    out.push_str(redirect_quoted_commands(applied.as_str(), target).as_str());
    out
}

// ---------------------------------------------------------------------------
// Examining
// ---------------------------------------------------------------------------

pub open spec fn examine_line(remote_cli: Seq<char>) -> Seq<char> {
    remote_cli + " examine --json"@
}

/// The conversation of an examination: one command, whose output is what the
/// machine says about itself.
pub open spec fn examine_talk(h: Seq<Exchange>, at: int, remote_cli: Seq<char>) -> Talk<
    Result<Seq<char>, Seq<Seq<char>>>,
> {
    Talk {
        fits: asks(h, at, examine_line(remote_cli)),
        end: at + 1,
        value: match run_result(examine_line(remote_cli), reply_at(h, at)) {
            Ok(text) => Ok(trimmed(text)),
            Err(e) => Err(within("could not read the remote machine's system state"@, e)),
        },
    }
}

/// Fetches what a machine says about itself, to be scored here.
pub fn examine_remote<T: Transport>(transport: &mut T, remote_cli: &str) -> (r: Result<
    String,
    Failure,
>)
    ensures
        held(
            old(transport).history(),
            final(transport).history(),
            examine_talk(
                final(transport).history(),
                old(transport).history().len() as int,
                remote_cli@,
            ),
        ),
        crate::failure::told_text(r) == examine_talk(
            final(transport).history(),
            old(transport).history().len() as int,
            remote_cli@,
        ).value,
{
    let mut command = remote_cli.to_owned();
    command.push_str(" examine --json");
    let ghost before = transport.history();
    let reply = transport.run(command.as_str());
    assert(goes_on(before, transport.history())) by {
        assert forall|i: int| 0 <= i < before.len() implies transport.history()[i] == before[i] by {
            assert(transport.history().drop_last()[i] == before[i]);
        }
    }
    match reply {
        Ok(text) => Ok(trim(text.as_str())),
        Err(e) => Err(e.context("could not read the remote machine's system state".to_owned())),
    }
}

/// What an examination that could not be understood is reported as.
pub fn misread_examination(fault: Failure) -> (r: Failure)
    ensures
        r@ == within(
            "could not understand the remote machine's system state. The remote CLI is probably a different version than this one — update whichever is older."@,
            fault@,
        ),
{
    fault.context(
        "could not understand the remote machine's system state. The remote CLI is probably a different version than this one — update whichever is older.".to_owned(),
    )
}

// ---------------------------------------------------------------------------
// Laws
// ---------------------------------------------------------------------------

/// An aimed command reaches the far shell as one argument, whatever it holds:
/// no pipe or redirect in it is left for the local shell.
pub proof fn law_an_aimed_command_stays_whole(target: Seq<char>, command: Seq<char>)
    ensures
        ({
            let lead = "ssh "@ + target + " -- "@;
            &&& invocation(target, command).subrange(0, lead.len() as int) == lead
            &&& word_value(
                invocation(target, command).subrange(
                    lead.len() as int,
                    invocation(target, command).len() as int,
                ),
            ) == Some(command)
        }),
{
    let lead = "ssh "@ + target + " -- "@;
    let all = invocation(target, command);
    assert(all.subrange(0, lead.len() as int) =~= lead);
    assert(all.subrange(lead.len() as int, all.len() as int) =~= quoted(command));
    crate::remote::shell::law_a_quoted_value_is_one_literal_word(command);
}

proof fn lemma_joined_push(parts: Seq<Seq<char>>, last: Seq<char>, sep: Seq<char>)
    requires
        parts.len() > 0,
    ensures
        joined(parts.push(last), sep) == joined(parts, sep) + sep + last,
{
    assert(parts.push(last).drop_last() =~= parts);
}

/// Joining up the commands spread over several entries loses nothing and adds
/// nothing: line by line, the commands read as they did.
pub proof fn law_joining_keeps_the_text(commands: Seq<Seq<char>>)
    ensures
        joined(continued(commands), "\n"@) == joined(commands, "\n"@),
    decreases commands.len(),
{
    let sep = "\n"@;
    if commands.len() > 0 {
        let front = commands.drop_last();
        let c = commands.last();
        law_joining_keeps_the_text(front);
        assert(front.push(c) =~= commands);
        let j = joining(front);
        lemma_joining_shape(front);
        if front.len() == 0 {
            assert(continued(commands) =~= seq![c]);
        } else {
            lemma_joined_push(front, c, sep);
            match j.open {
                Some(open) => {
                    let whole = open + sep + c;
                    assert(continued(commands) =~= j.done.push(whole));
                    assert(continued(front) == j.done.push(open));
                    if j.done.len() > 0 {
                        lemma_joined_push(j.done, open, sep);
                        lemma_joined_push(j.done, whole, sep);
                        assert(joined(j.done, sep) + sep + (open + sep + c) =~= (joined(
                            j.done,
                            sep,
                        ) + sep + open) + sep + c);
                    } else {
                        assert(j.done.push(open) =~= seq![open]);
                        assert(j.done.push(whole) =~= seq![whole]);
                    }
                },
                None => {
                    assert(continued(commands) =~= j.done.push(c));
                    assert(continued(front) == j.done);
                    lemma_joined_push(j.done, c, sep);
                },
            }
        }
    }
}

proof fn lemma_joining_shape(commands: Seq<Seq<char>>)
    ensures
        commands.len() > 0 ==> joining(commands).open is Some || joining(commands).done.len() > 0,
    decreases commands.len(),
{
}

/// A text that quotes nothing is left alone.
pub proof fn law_unquoted_text_is_left_alone(target: Seq<char>, s: Seq<char>)
    requires
        forall|i: int| 0 <= i < s.len() ==> s[i] != '`',
    ensures
        quotes_aimed(target, s) == s,
{
    lemma_first_of_is(s, '`', s.len() as int);
}

/// Whether a text quotes a command of the tool between backticks.
pub open spec fn quotes_a_command(s: Seq<char>) -> bool
    decreases s.len(),
    via quotes_a_command_decreases
{
    let open = first_of(s, '`');
    if open == s.len() {
        false
    } else {
        let after = s.subrange(open + 1, s.len() as int);
        let close = first_of(after, '`');
        if close == after.len() {
            false
        } else {
            occurs_at(after.subrange(0, close), "rocm "@, 0) || quotes_a_command(
                after.subrange(close + 1, after.len() as int),
            )
        }
    }
}

#[via_fn]
proof fn quotes_a_command_decreases(s: Seq<char>) {
    lemma_first_of(s, '`');
    let open = first_of(s, '`');
    if open != s.len() {
        lemma_first_of(s.subrange(open + 1, s.len() as int), '`');
    }
}

proof fn lemma_replaced(s: Seq<char>, c: char, by: Seq<char>, without: char)
    requires
        by.len() >= 1,
        forall|i: int| 0 <= i < s.len() ==> s[i] != without,
        forall|i: int| 0 <= i < by.len() ==> by[i] != without,
    ensures
        forall|i: int| 0 <= i < replaced(s, c, by).len() ==> replaced(s, c, by)[i] != without,
        replaced(s, c, by).len() >= s.len(),
    decreases s.len(),
{
    if s.len() > 0 {
        lemma_replaced(s.drop_last(), c, by, without);
    }
}

proof fn lemma_quoted_command(command: Seq<char>)
    requires
        forall|i: int| 0 <= i < command.len() ==> command[i] != '`',
    ensures
        forall|i: int| 0 <= i < quoted(command).len() ==> quoted(command)[i] != '`',
        quoted(command).len() >= command.len(),
{
    reveal_strlit("'");
    reveal_strlit("'\\''");
    lemma_replaced(command, '\'', "'\\''"@, '`');
}

proof fn lemma_aimed_command(target: Seq<char>, command: Seq<char>)
    requires
        forall|i: int| 0 <= i < command.len() ==> command[i] != '`',
    ensures
        invocation(target, command).len() > command.len(),
        !occurs_at(invocation(target, command), "rocm "@, 0),
        (forall|i: int| 0 <= i < target.len() ==> target[i] != '`') ==> forall|i: int|
            0 <= i < invocation(target, command).len() ==> invocation(target, command)[i] != '`',
{
    lemma_quoted_command(command);
    reveal_strlit("ssh ");
    reveal_strlit(" -- ");
    reveal_strlit("rocm ");
    let all = invocation(target, command);
    assert(all[0] == 's');
    if occurs_at(all, "rocm "@, 0) {
        assert(all.subrange(0, 5)[0] == 'r');
    }
    if forall|i: int| 0 <= i < target.len() ==> target[i] != '`' {
        let lead = "ssh "@ + target + " -- "@;
        assert forall|i: int| 0 <= i < all.len() implies all[i] != '`' by {
            if i < 4 {
                assert(all[i] == "ssh "@[i]);
            } else if i < 4 + target.len() {
                assert(all[i] == target[i - 4]);
            } else if i < lead.len() {
                assert(all[i] == " -- "@[i - 4 - target.len()]);
            } else {
                assert(all[i] == quoted(command)[i - lead.len()]);
            }
        }
    }
}

/// Aiming the quoted commands of a text at a machine twice is aiming them once.
pub proof fn law_aiming_quotes_twice_changes_nothing(target: Seq<char>, s: Seq<char>)
    requires
        forall|i: int| 0 <= i < target.len() ==> target[i] != '`',
    ensures
        quotes_aimed(target, quotes_aimed(target, s)) == quotes_aimed(target, s),
    decreases s.len(),
{
    let open = first_of(s, '`');
    lemma_first_of(s, '`');
    if open != s.len() {
        let after = s.subrange(open + 1, s.len() as int);
        let close = first_of(after, '`');
        lemma_first_of(after, '`');
        if close != after.len() {
            let inner = after.subrange(0, close);
            let rest = after.subrange(close + 1, after.len() as int);
            law_aiming_quotes_twice_changes_nothing(target, rest);
            let shown = if occurs_at(inner, "rocm "@, 0) {
                invocation(target, inner)
            } else {
                inner
            };
            assert forall|i: int| 0 <= i < inner.len() implies inner[i] != '`' by {
                assert(inner[i] == after[i]);
            }
            lemma_aimed_command(target, inner);
            reveal_strlit("`");
            let tail = quotes_aimed(target, rest);
            let out = quotes_aimed(target, s);
            assert(out == s.subrange(0, open) + "`"@ + shown + "`"@ + tail);
            assert forall|i: int| 0 <= i < open implies out[i] != '`' by {
                assert(out[i] == s[i]);
            }
            lemma_first_of_is(out, '`', open);
            let out_after = out.subrange(open + 1, out.len() as int);
            assert(out_after =~= shown + "`"@ + tail);
            assert forall|i: int| 0 <= i < shown.len() implies out_after[i] != '`' by {
                assert(out_after[i] == shown[i]);
            }
            lemma_first_of_is(out_after, '`', shown.len() as int);
            assert(out_after.subrange(0, shown.len() as int) =~= shown);
            assert(out_after.subrange((shown.len() + 1) as int, out_after.len() as int) =~= tail);
            assert(out.subrange(0, open) =~= s.subrange(0, open));
        }
    }
}

proof fn lemma_quotes_aimed_len(target: Seq<char>, s: Seq<char>)
    ensures
        quotes_aimed(target, s).len() >= s.len(),
        quotes_a_command(s) ==> quotes_aimed(target, s).len() > s.len(),
        !quotes_a_command(s) ==> quotes_aimed(target, s) == s,
    decreases s.len(),
{
    let open = first_of(s, '`');
    lemma_first_of(s, '`');
    if open != s.len() {
        let after = s.subrange(open + 1, s.len() as int);
        let close = first_of(after, '`');
        lemma_first_of(after, '`');
        if close != after.len() {
            let inner = after.subrange(0, close);
            let rest = after.subrange(close + 1, after.len() as int);
            lemma_quotes_aimed_len(target, rest);
            assert forall|i: int| 0 <= i < inner.len() implies inner[i] != '`' by {
                assert(inner[i] == after[i]);
            }
            lemma_aimed_command(target, inner);
            reveal_strlit("`");
            assert(s =~= s.subrange(0, open) + "`"@ + inner + "`"@ + rest);
        }
    }
}

/// A text is changed exactly where it quotes a command of the tool.
pub proof fn law_only_quoted_commands_are_aimed(target: Seq<char>, s: Seq<char>)
    ensures
        quotes_aimed(target, s) == s <==> !quotes_a_command(s),
{
    lemma_quotes_aimed_len(target, s);
}

/// An entry goes on in the next exactly where a backslash is the last of it but white
/// space, and is prose exactly where a hash sign is the first.
pub proof fn law_an_entry_is_told_by_its_ends(command: Seq<char>)
    ensures
        continues(command) <==> exists|k: int|
            0 <= k < command.len() && #[trigger] command[k] == '\\' && forall|i: int|
                k < i < command.len() ==> whitespace(#[trigger] command[i]),
        comment(command) <==> exists|k: int|
            0 <= k < command.len() && #[trigger] command[k] == '#' && forall|i: int|
                0 <= i < k ==> whitespace(#[trigger] command[i]),
{
    reveal_strlit("#");
    let end = lemma_to_where_it_ends(command);
    if continues(command) {
        assert(command[end - 1] == '\\');
    }
    if exists|k: int|
        0 <= k < command.len() && #[trigger] command[k] == '\\' && forall|i: int|
            k < i < command.len() ==> whitespace(#[trigger] command[i]) {
        let k = choose|k: int|
            0 <= k < command.len() && #[trigger] command[k] == '\\' && forall|i: int|
                k < i < command.len() ==> whitespace(#[trigger] command[i]);
        assert(end == k + 1) by {
            if end > k + 1 {
                assert(whitespace(command[end - 1]));
            }
            if end <= k {
                assert(whitespace(command[k]));
            }
        }
    }
    let start = lemma_from_where_it_starts(command);
    let rest = trimmed_start(command);
    if comment(command) {
        assert(rest.subrange(0, 1)[0] == '#');
        assert(command[start] == '#');
    }
    if exists|k: int|
        0 <= k < command.len() && #[trigger] command[k] == '#' && forall|i: int|
            0 <= i < k ==> whitespace(#[trigger] command[i]) {
        let k = choose|k: int|
            0 <= k < command.len() && #[trigger] command[k] == '#' && forall|i: int|
                0 <= i < k ==> whitespace(#[trigger] command[i]);
        assert(start == k) by {
            if start < k {
                assert(whitespace(command[start]));
            }
            if start > k {
                assert(whitespace(command[k]));
            }
        }
        assert(rest.subrange(0, 1) =~= "#"@);
    }
}

/// Entries are joined where one goes on in the next and nowhere else: there are as many
/// commands as entries that do not go on, and one more where the last one does.
pub proof fn law_a_command_ends_where_its_entry_does(commands: Seq<Seq<char>>)
    ensures
        continued(commands).len() == commands.filter(|c: Seq<char>| !continues(c)).len() + (if
        commands.len() > 0 && continues(commands.last()) {
            1int
        } else {
            0int
        }),
        joining(commands).done.len() == commands.filter(|c: Seq<char>| !continues(c)).len(),
        joining(commands).open is Some <==> commands.len() > 0 && continues(commands.last()),
    decreases commands.len(),
{
    reveal(Seq::filter);
    if commands.len() > 0 {
        law_a_command_ends_where_its_entry_does(commands.drop_last());
    }
}

/// A command aimed at a machine: pasted here, it hands that machine's shell the command,
/// whole.
pub open spec fn runs_on(target: Seq<char>, command: Seq<char>, pasted: Seq<char>) -> bool {
    let lead = "ssh "@ + target + " -- "@;
    &&& occurs_at(pasted, lead, 0)
    &&& word_value(pasted.subrange(lead.len() as int, pasted.len() as int)) == Some(command)
}

/// Aiming a report at a machine changes what there is to run and nothing else: every
/// finding keeps its title and its score, and every note stays. Each command and check
/// then runs on that machine, prose stays prose, and an absent check stays absent. Steps
/// that share one shell are left as they are, with one more note, which says how to get
/// to that machine.
pub proof fn law_aiming_changes_only_what_is_run(target: Seq<char>, report: ReportView, k: int)
    requires
        0 <= k < report.matched.len(),
    ensures
        ({
            let after = aimed(target, report);
            let d = report.matched[k];
            let e = after.matched[k];
            let f = d.fix->0;
            let g = e.fix->0;
            let shared = exists|i: int|
                0 <= i < f.commands.len() && (has_text(#[trigger] f.commands[i], "step 2 of"@)
                    || has_text(f.commands[i], "INSIDE the subshell"@));
            let steps = continued(f.commands);
            &&& after.matched.len() == report.matched.len()
            &&& after.out_of_scope == report.out_of_scope
            &&& e.title == d.title && e.score == d.score
            &&& e.fix is Some <==> d.fix is Some
            &&& d.fix is Some && shared ==> g.commands == f.commands && g.verify == f.verify
                && g.notes.len() == f.notes.len() + 1 && g.notes.drop_last() == f.notes
                && has_text(g.notes.last(), "ssh "@ + target)
            &&& d.fix is Some && !shared ==> g.notes == f.notes && g.commands.len() == steps.len()
                && (f.verify.len() == 0 ==> g.verify.len() == 0) && (f.verify.len() > 0 ==> runs_on(
                target,
                f.verify,
                g.verify,
            )) && forall|i: int|
                0 <= i < steps.len() ==> if comment(steps[i]) {
                    #[trigger] g.commands[i] == steps[i]
                } else {
                    runs_on(target, steps[i], g.commands[i])
                }
        }),
{
    let d = report.matched[k];
    if let Some(f) = d.fix {
        let g = aimed_fix(target, f);
        if stateful(f.commands) {
            assert(g.notes.drop_last() =~= f.notes);
            reveal_strlit(
                "These steps share one shell session, so they cannot be run over separate connections. Open a session first with `ssh ",
            );
            reveal_strlit("ssh ");
            let lead =
                "These steps share one shell session, so they cannot be run over separate connections. Open a session first with `ssh "@;
            let tail = "`, then run them there."@;
            let front = lead.subrange(0, lead.len() - 4);
            assert(lead.subrange(lead.len() - 4, lead.len() as int) =~= "ssh "@);
            assert(lead =~= front + "ssh "@);
            assert(shared_shell_note(target) =~= front + ("ssh "@ + target) + tail);
            lemma_has_text(front, "ssh "@ + target, tail);
        } else {
            let steps = continued(f.commands);
            if f.verify.len() > 0 {
                law_an_aimed_command_stays_whole(target, f.verify);
            }
            assert forall|i: int| 0 <= i < steps.len() implies if comment(steps[i]) {
                #[trigger] g.commands[i] == steps[i]
            } else {
                runs_on(target, steps[i], g.commands[i])
            } by {
                law_an_aimed_command_stays_whole(target, steps[i]);
            }
        }
    }
}

/// A line of a rendered report is left alone unless it says what to apply; one that does
/// keeps what stands before the command, and the command then runs on the machine.
pub proof fn law_what_to_apply_is_aimed(
    target: Seq<char>,
    indent: Seq<char>,
    command: Seq<char>,
    line: Seq<char>,
)
    requires
        forall|i: int| 0 <= i < indent.len() ==> whitespace(#[trigger] indent[i]),
        command.len() > 0,
        !whitespace(command[0]) && !whitespace(command.last()),
    ensures
        ({
            let lead = indent + "apply with: "@;
            let after = aimed_line(target, lead + command);
            &&& occurs_at(after, lead, 0)
            &&& runs_on(target, command, after.subrange(lead.len() as int, after.len() as int))
        }),
        !has_text(line, "apply with: "@) ==> aimed_line(target, line) == line,
{
    reveal_strlit("apply with: ");
    let mark = "apply with: "@;
    let lead = indent + mark;
    let whole = lead + command;
    let start = lemma_from_where_it_starts(whole);
    let rest = trimmed_start(whole);
    assert(whole[indent.len() as int] == 'a');
    assert(start == indent.len()) by {
        if start < indent.len() {
            assert(whitespace(indent[start]));
            assert(whole[start] == indent[start]);
        }
        if start > indent.len() {
            assert(whitespace(whole[indent.len() as int]));
        }
    }
    assert(rest =~= mark + command);
    assert(rest.subrange(0, mark.len() as int) =~= mark);
    assert(rest.subrange(mark.len() as int, rest.len() as int) =~= command);
    assert(trimmed(command) == command) by {
        assert(trimmed_start(command) == command);
        assert(trimmed_end(command) == command);
    }
    assert(whole.subrange(0, lead.len() as int) =~= lead);
    let after = aimed_line(target, whole);
    assert(after =~= lead + invocation(target, command));
    assert(after.subrange(0, lead.len() as int) =~= lead);
    assert(after.subrange(lead.len() as int, after.len() as int) =~= invocation(target, command));
    law_an_aimed_command_stays_whole(target, command);
    let from = lemma_from_where_it_starts(line);
    let t = trimmed_start(line);
    if occurs_at(t, mark, 0) {
        assert(line.subrange(from, from + mark.len()) =~= t.subrange(0, mark.len() as int));
        assert(occurs_at(line, mark, from));
    }
}

/// An examination is one command, and succeeds exactly where that did; what it gives is
/// what the machine printed, without the white space around it. A failure tells what was
/// being done, and keeps what went wrong.
pub proof fn law_an_examination_is_what_the_machine_prints(
    h: Seq<Exchange>,
    at: int,
    remote_cli: Seq<char>,
)
    ensures
        ({
            let talk = examine_talk(h, at, remote_cli);
            let reply = reply_at(h, at);
            let done = reply is Ok && reply->Ok_0.success;
            &&& talk.end == at + 1
            &&& talk.fits <==> asks(h, at, examine_line(remote_cli))
            &&& talk.value is Ok <==> done
            &&& done ==> talk.value->Ok_0 == trimmed(reply->Ok_0.stdout)
            &&& reply is Err ==> talk.value->Err_0.drop_first() == reply->Err_0
            &&& reply is Ok && !done ==> talk.value->Err_0.len() == 2 && has_text(
                talk.value->Err_0[1],
                trimmed(reply->Ok_0.stderr),
            )
        }),
{
    let talk = examine_talk(h, at, remote_cli);
    let reply = reply_at(h, at);
    if reply is Err {
        assert(talk.value->Err_0.drop_first() =~= reply->Err_0);
    } else if !reply->Ok_0.success {
        let a = "remote command failed (exit "@ + exit_label_of(reply->Ok_0.code) + "): "@;
        let b = trimmed(reply->Ok_0.stderr);
        let c = "\n  command: "@ + examine_line(remote_cli);
        assert(a + b + "\n  command: "@ + examine_line(remote_cli) =~= a + b + c);
        lemma_has_text(a, b, c);
    }
}

/// A rendered report names the machine in its first line.
pub proof fn law_a_report_names_its_machine(target: Seq<char>, rendered: Seq<char>)
    ensures
        occurs_at(report_text(target, rendered), "Health of "@ + target + "\n"@, 0),
{
    reveal_strlit("\n\n");
    reveal_strlit("\n");
    let lead = "Health of "@ + target + "\n"@;
    assert(report_text(target, rendered).subrange(0, lead.len() as int) =~= lead);
}

} // verus!
