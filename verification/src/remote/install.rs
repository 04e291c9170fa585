//! Installing ROCm on a machine nobody is watching.
//!
//! It is done only on a machine that was looked at, had nothing recognised wrong
//! with it, and will not stop to ask for a password.

use vstd::prelude::*;
use crate::failure::{plain, Failure};
use crate::remote::doctor::{diagnosis_views, DiagnoseReport, DiagnosisView, ReportView};
use crate::remote::doctor::report_text;
use crate::remote::transport::{asks, goes_on, held, reply_at, Exchange, Reply, Talk, Transport};
use crate::text::{
    contains, has_text, join, joined, lemma_goes_on, lemma_has_text, lemma_joined_hold,
    lemma_stands_within, lemma_whole_lines_read, lines, lines_of, lower, occurs_at, one_line, texts,
    to_lower, trim, trimmed, whole_lines,
};

verus! {

/// Why ROCm is not installed unattended.
#[derive(Debug, PartialEq, Eq)]
pub enum Refusal {
    /// The machine was never looked at.
    NotEvaluated { reason: String },
    /// Something was found that a person has to see to.
    NeedsAHuman { findings: Vec<String> },
    NeedsPasswordlessSudo,
}

pub enum RefusalView {
    NotEvaluated(Seq<char>),
    NeedsAHuman(Seq<Seq<char>>),
    NeedsPasswordlessSudo,
}

impl View for Refusal {
    type V = RefusalView;

    open spec fn view(&self) -> RefusalView {
        match *self {
            Refusal::NotEvaluated { reason } => RefusalView::NotEvaluated(reason@),
            Refusal::NeedsAHuman { findings } => RefusalView::NeedsAHuman(texts(findings@)),
            Refusal::NeedsPasswordlessSudo => RefusalView::NeedsPasswordlessSudo,
        }
    }
}

/// The titles of the problems whose score reaches the threshold, in order.
pub open spec fn problems(matched: Seq<DiagnosisView>, threshold: i32) -> Seq<Seq<char>>
    decreases matched.len(),
{
    if matched.len() == 0 {
        seq![]
    } else if matched.last().score >= threshold {
        problems(matched.drop_last(), threshold).push(matched.last().title)
    } else {
        problems(matched.drop_last(), threshold)
    }
}

/// Whether a machine may be installed on, and if not why: never looked at comes
/// before something found, and that before the password.
pub open spec fn assessment(report: ReportView, passwordless_sudo: bool, threshold: i32) -> Option<
    RefusalView,
> {
    match report.out_of_scope {
        Some(reason) => Some(RefusalView::NotEvaluated(reason)),
        None => {
            let found = problems(report.matched, threshold);
            if found.len() > 0 {
                Some(RefusalView::NeedsAHuman(found))
            } else if !passwordless_sudo {
                Some(RefusalView::NeedsPasswordlessSudo)
            } else {
                None
            }
        },
    }
}

pub fn recognised_problems(report: &DiagnoseReport, threshold: i32) -> (r: Vec<String>)
    ensures
        texts(r@) == problems(report@.matched, threshold),
{
    let ghost all = report@.matched;
    let mut out: Vec<String> = Vec::new();
    let mut i: usize = 0;
    assert(all.subrange(0, 0) =~= seq![]);
    assert(texts(out@) =~= seq![]);
    while i < report.matched.len()
        invariant
            i <= report.matched@.len(),
            all == diagnosis_views(report.matched@),
            texts(out@) == problems(all.subrange(0, i as int), threshold),
        decreases report.matched@.len() - i,
    {
        assert(all.subrange(0, i + 1).drop_last() =~= all.subrange(0, i as int));
        assert(all.subrange(0, i + 1).last() == report.matched@[i as int]@);
        let d = &report.matched[i];
        if d.score >= threshold {
            let ghost before = texts(out@);
            out.push(d.title.clone());
            assert(texts(out@) =~= before.push(d.title@));
        }
        i += 1;
    }
    assert(all.subrange(0, all.len() as int) =~= all);
    out
}

/// Decides whether ROCm may be installed. `threshold` is the least score that
/// counts as a match.
pub fn assess(report: &DiagnoseReport, passwordless_sudo: bool, threshold: i32) -> (r: Option<
    Refusal,
>)
    ensures
        (match r {
            Some(refusal) => Some(refusal@),
            None => None,
        }) == assessment(report@, passwordless_sudo, threshold),
{
    if let Some(reason) = &report.out_of_scope {
        return Some(Refusal::NotEvaluated { reason: reason.clone() });
    }
    let findings = recognised_problems(report, threshold);
    assert(texts(findings@).len() == findings@.len());
    if findings.len() > 0 {
        return Some(Refusal::NeedsAHuman { findings });
    }
    if !passwordless_sudo {
        return Some(Refusal::NeedsPasswordlessSudo);
    }
    None
}

pub open spec fn sudo_result(reply: Reply) -> Result<bool, Seq<Seq<char>>> {
    match reply {
        Ok(outcome) => Ok(outcome.success),
        Err(e) => Err(e),
    }
}

/// Whether administrator rights can be had there without a prompt.
pub fn has_passwordless_sudo<T: Transport>(transport: &mut T) -> (r: Result<bool, Failure>)
    ensures
        goes_on(old(transport).history(), final(transport).history()),
        final(transport).history().len() == old(transport).history().len() + 1,
        asks(final(transport).history(), old(transport).history().len() as int, "sudo -n true"@),
        crate::failure::told(r) == sudo_result(
            reply_at(final(transport).history(), old(transport).history().len() as int),
        ),
{
    match transport.exec("sudo -n true") {
        Ok(outcome) => Ok(outcome.success),
        Err(e) => Err(e),
    }
}

/// Whether some line says that a reboot is needed.
pub open spec fn wants_reboot(output: Seq<char>) -> bool {
    exists|i: int|
        0 <= i < lines_of(output).len() && (has_text(
            lower(#[trigger] lines_of(output)[i]),
            "reboot_required: true"@,
        ) || has_text(lower(lines_of(output)[i]), "reboot required"@))
}

pub fn mentions_reboot(output: &str) -> (r: bool)
    ensures
        r == wants_reboot(output@),
{
    let list = lines(output);
    let ghost all = lines_of(output@);
    let mut i: usize = 0;
    assert(texts(list@).len() == list@.len());
    while i < list.len()
        invariant
            i <= list@.len(),
            all == texts(list@),
            all == lines_of(output@),
            list@.len() == all.len(),
            forall|j: int|
                0 <= j < i ==> !has_text(lower(#[trigger] all[j]), "reboot_required: true"@)
                    && !has_text(lower(all[j]), "reboot required"@),
        decreases list@.len() - i,
    {
        assert(all[i as int] == list@[i as int]@);
        let line = to_lower(list[i].as_str());
        if contains(line.as_str(), "reboot_required: true") || contains(
            line.as_str(),
            "reboot required",
        ) {
            assert(has_text(lower(lines_of(output@)[i as int]), "reboot_required: true"@)
                || has_text(lower(lines_of(output@)[i as int]), "reboot required"@));
            return true;
        }
        i += 1;
    }
    false
}

/// The lines that are not blank, indented.
pub open spec fn indented(all: Seq<Seq<char>>) -> Seq<Seq<char>>
    decreases all.len(),
{
    if all.len() == 0 {
        seq![]
    } else if trimmed(all.last()).len() > 0 {
        indented(all.drop_last()).push("  "@ + all.last())
    } else {
        indented(all.drop_last())
    }
}

fn put_indented(out: &mut Vec<String>, output: &str)
    ensures
        texts(final(out)@) == texts(old(out)@) + indented(lines_of(output@)),
{
    let ghost before = texts(out@);
    let list = lines(output);
    let ghost all = texts(list@);
    let mut i: usize = 0;
    assert(all.subrange(0, 0) =~= seq![]);
    assert(before + indented(seq![]) =~= before);
    while i < list.len()
        invariant
            i <= list@.len(),
            all == texts(list@),
            texts(out@) == before + indented(all.subrange(0, i as int)),
        decreases list@.len() - i,
    {
        assert(all.subrange(0, i + 1).drop_last() =~= all.subrange(0, i as int));
        assert(all.subrange(0, i + 1).last() == list@[i as int]@);
        if !trim(list[i].as_str()).as_str().is_empty() {
            let ghost now = texts(out@);
            let mut line = "  ".to_owned();
            line.push_str(list[i].as_str());
            out.push(line);
            assert(texts(out@) =~= now.push(line@));
            assert(texts(out@) =~= before + indented(all.subrange(0, i + 1)));
        }
        i += 1;
    }
    assert(all.subrange(0, all.len() as int) =~= all);
}

/// What an installation says and comes to.
pub struct InstallReport {
    pub lines: Vec<String>,
    pub result: Result<(), Failure>,
}

pub struct InstallReportView {
    pub lines: Seq<Seq<char>>,
    pub result: Result<(), Seq<Seq<char>>>,
}

impl View for InstallReport {
    type V = InstallReportView;

    open spec fn view(&self) -> InstallReportView {
        InstallReportView {
            lines: texts(self.lines@),
            result: crate::failure::told(self.result),
        }
    }
}

pub open spec fn driver_line(remote_cli: Seq<char>) -> Seq<char> {
    remote_cli + " install driver --yes"@
}

pub open spec fn sdk_line(remote_cli: Seq<char>) -> Seq<char> {
    remote_cli + " install sdk --yes"@
}

/// The conversation of an installation: the driver, and only if that succeeded
/// the SDK.
pub open spec fn install_talk(
    h: Seq<Exchange>,
    at: int,
    target: Seq<char>,
    remote_cli: Seq<char>,
) -> Talk<InstallReportView> {
    let begun = seq!["Installing ROCm on "@ + target + ". This can take several minutes."@];
    let first = asks(h, at, driver_line(remote_cli));
    match reply_at(h, at) {
        Err(e) => Talk {
            fits: first,
            end: at + 1,
            value: InstallReportView { lines: begun, result: Err(e) },
        },
        Ok(driver) => if !driver.success {
            Talk {
                fits: first,
                end: at + 1,
                value: InstallReportView {
                    lines: begun,
                    result: Err(
                        plain(
                            "the driver install failed on "@ + target + ": "@ + trimmed(
                                driver.stderr,
                            )
                                + "\nNothing further was attempted. Check the machine with `rocm remote doctor "@
                                + target + "`."@,
                        ),
                    ),
                },
            }
        } else {
            let driven = begun + indented(lines_of(driver.stdout));
            let second = first && asks(h, at + 1, sdk_line(remote_cli));
            match reply_at(h, at + 1) {
                Err(e) => Talk {
                    fits: second,
                    end: at + 2,
                    value: InstallReportView { lines: driven, result: Err(e) },
                },
                Ok(sdk) => if !sdk.success {
                    Talk {
                        fits: second,
                        end: at + 2,
                        value: InstallReportView {
                            lines: driven,
                            result: Err(
                                plain(
                                    "the driver installed on "@ + target
                                        + " but the ROCm SDK did not: "@ + trimmed(sdk.stderr)
                                        + "\nThe machine is part-way through a setup; check it with `rocm remote doctor "@
                                        + target + "` before retrying."@,
                                ),
                            ),
                        },
                    }
                } else {
                    let done = driven + indented(lines_of(sdk.stdout));
                    Talk {
                        fits: second,
                        end: at + 2,
                        value: InstallReportView {
                            lines: if wants_reboot(driver.stdout) || wants_reboot(sdk.stdout) {
                                done + reboot_lines(target)
                            } else {
                                done
                            },
                            result: Ok(()),
                        },
                    }
                },
            }
        },
    }
}

pub open spec fn reboot_lines(target: Seq<char>) -> Seq<Seq<char>> {
    seq![
        seq![],
        target + " needs a reboot before it can serve."@,
        "  reboot it, then run: rocm remote doctor "@ + target,
    ]
}

/// Installs the driver and the SDK.
pub fn install<T: Transport>(transport: &mut T, target: &str, remote_cli: &str) -> (r: InstallReport)
    ensures
        held(
            old(transport).history(),
            final(transport).history(),
            install_talk(
                final(transport).history(),
                old(transport).history().len() as int,
                target@,
                remote_cli@,
            ),
        ),
        r@ == install_talk(
            final(transport).history(),
            old(transport).history().len() as int,
            target@,
            remote_cli@,
        ).value,
{
    let mut begun = "Installing ROCm on ".to_owned();
    begun.push_str(target);
    begun.push_str(". This can take several minutes.");
    let mut lines: Vec<String> = Vec::new();
    lines.push(begun);
    assert(texts(lines@) =~= seq![begun@]);
    let mut command = remote_cli.to_owned();
    command.push_str(" install driver --yes");
    let driver = match transport.exec(command.as_str()) {
        Err(e) => {
            return InstallReport { lines, result: Err(e) };
        },
        Ok(outcome) => outcome,
    };
    if !driver.success {
        let mut message = "the driver install failed on ".to_owned();
        message.push_str(target);
        message.push_str(": ");
        message.push_str(trim(driver.stderr.as_str()).as_str());
        message.push_str(
            "\nNothing further was attempted. Check the machine with `rocm remote doctor ",
        );
        message.push_str(target);
        message.push_str("`.");
        return InstallReport { lines, result: Err(Failure::new(message)) };
    }
    put_indented(&mut lines, driver.stdout.as_str());
    let mut command = remote_cli.to_owned();
    command.push_str(" install sdk --yes");
    let sdk = match transport.exec(command.as_str()) {
        Err(e) => {
            return InstallReport { lines, result: Err(e) };
        },
        Ok(outcome) => outcome,
    };
    if !sdk.success {
        let mut message = "the driver installed on ".to_owned();
        message.push_str(target);
        message.push_str(" but the ROCm SDK did not: ");
        message.push_str(trim(sdk.stderr.as_str()).as_str());
        message.push_str(
            "\nThe machine is part-way through a setup; check it with `rocm remote doctor ",
        );
        message.push_str(target);
        message.push_str("` before retrying.");
        return InstallReport { lines, result: Err(Failure::new(message)) };
    }
    put_indented(&mut lines, sdk.stdout.as_str());
    if mentions_reboot(driver.stdout.as_str()) || mentions_reboot(sdk.stdout.as_str()) {
        let ghost before = texts(lines@);
        lines.push(String::new());
        let mut needs = target.to_owned();
        needs.push_str(" needs a reboot before it can serve.");
        lines.push(needs);
        let mut how = "  reboot it, then run: rocm remote doctor ".to_owned();
        how.push_str(target);
        lines.push(how);
        assert(texts(lines@) =~= before + reboot_lines(target@));
    }
    InstallReport { lines, result: Ok(()) }
}

/// What a user is told of a refusal. `rendered` is the text of the aimed report.
pub open spec fn refusal_text(refusal: RefusalView, target: Seq<char>, rendered: Seq<char>) -> Seq<
    char,
> {
    match refusal {
        RefusalView::NotEvaluated(reason) => target
            + " runs a platform the ROCm failure catalog has no entries for, so nothing was checked there and there is no verdict to install on.\n\nWhat the check reported:\n  "@
            + reason
            + "\n\nAn unattended install is only allowed on a machine the catalog looked at and found nothing wrong with. This is a machine it never looked at, which is a different thing. Set it up yourself if you are sure it is supported:\n  ssh "@
            + target + " -- rocm bootstrap setup"@,
        RefusalView::NeedsAHuman(findings) => target
            + " is not in a state that can be set up unattended.\n\nWhat was found:\n"@ + joined(
            findings.map_values(|f: Seq<char>| "  - "@ + f),
            "\n"@,
        )
            + "\n\nThese are the situations the setup wizard exists to walk a person through, and it cannot do that over a connection with nobody watching. Resolve them first — the suggested fixes are below — then run this again.\n\n"@
            + report_text(target, rendered),
        RefusalView::NeedsPasswordlessSudo => "installing ROCm on "@ + target
            + " needs administrator rights, and this connection cannot answer a password prompt — it would hang rather than fail.\n\nEither set up passwordless sudo there, or install it yourself:\n  ssh "@
            + target + " -- rocm bootstrap setup"@,
    }
}

pub fn describe_refusal(refusal: &Refusal, target: &str, rendered: &str) -> (r: String)
    ensures
        r@ == refusal_text(refusal@, target@, rendered@),
{
    match refusal {
        Refusal::NotEvaluated { reason } => {
            let mut out = target.to_owned();
            out.push_str(
                " runs a platform the ROCm failure catalog has no entries for, so nothing was checked there and there is no verdict to install on.\n\nWhat the check reported:\n  ",
            );
            out.push_str(reason.as_str());
            out.push_str(
                "\n\nAn unattended install is only allowed on a machine the catalog looked at and found nothing wrong with. This is a machine it never looked at, which is a different thing. Set it up yourself if you are sure it is supported:\n  ssh ",
            );
            out.push_str(target);
            out.push_str(" -- rocm bootstrap setup");
            out
        },
        Refusal::NeedsAHuman { findings } => {
            let ghost all = texts(findings@);
            let mut items: Vec<String> = Vec::new();
            let mut i: usize = 0;
            while i < findings.len()
                invariant
                    i <= findings@.len(),
                    all == texts(findings@),
                    items@.len() == i,
                    forall|j: int| 0 <= j < i ==> (#[trigger] items@[j])@ == "  - "@ + all[j],
                decreases findings@.len() - i,
            {
                assert(all[i as int] == findings@[i as int]@);
                let mut item = "  - ".to_owned();
                item.push_str(findings[i].as_str());
                items.push(item);
                i += 1;
            }
            assert(texts(items@) =~= all.map_values(|f: Seq<char>| "  - "@ + f));
            let mut out = target.to_owned();
            out.push_str(
                " is not in a state that can be set up unattended.\n\nWhat was found:\n",
            );
            out.push_str(join(&items, "\n").as_str());
            out.push_str(
                "\n\nThese are the situations the setup wizard exists to walk a person through, and it cannot do that over a connection with nobody watching. Resolve them first — the suggested fixes are below — then run this again.\n\n",
            );
            out.push_str(crate::remote::doctor::render_report(target, rendered).as_str());
            out
        },
        Refusal::NeedsPasswordlessSudo => {
            let mut out = "installing ROCm on ".to_owned();
            out.push_str(target);
            out.push_str(
                " needs administrator rights, and this connection cannot answer a password prompt — it would hang rather than fail.\n\nEither set up passwordless sudo there, or install it yourself:\n  ssh ",
            );
            out.push_str(target);
            out.push_str(" -- rocm bootstrap setup");
            out
        },
    }
}

// ---------------------------------------------------------------------------
// Laws
// ---------------------------------------------------------------------------

proof fn lemma_problems(matched: Seq<DiagnosisView>, threshold: i32)
    ensures
        (problems(matched, threshold).len() > 0) == (exists|i: int|
            0 <= i < matched.len() && (#[trigger] matched[i]).score >= threshold),
    decreases matched.len(),
{
    if matched.len() > 0 {
        let front = matched.drop_last();
        lemma_problems(front, threshold);
        if exists|i: int| 0 <= i < front.len() && (#[trigger] front[i]).score >= threshold {
            let k = choose|k: int| 0 <= k < front.len() && (#[trigger] front[k]).score >= threshold;
            assert(matched[k].score >= threshold);
        }
        if exists|i: int| 0 <= i < matched.len() && (#[trigger] matched[i]).score >= threshold {
            let k = choose|k: int|
                0 <= k < matched.len() && (#[trigger] matched[k]).score >= threshold;
            if k < front.len() {
                assert(front[k].score >= threshold);
            }
        }
    }
}

/// ROCm is installed unattended exactly on a machine that was looked at, where
/// nothing reaches the threshold, and that needs no password.
pub proof fn law_only_a_clean_machine_is_installed_on(
    report: ReportView,
    passwordless_sudo: bool,
    threshold: i32,
)
    ensures
        assessment(report, passwordless_sudo, threshold) is None <==> report.out_of_scope is None
            && passwordless_sudo && forall|i: int|
            0 <= i < report.matched.len() ==> (#[trigger] report.matched[i]).score < threshold,
{
    lemma_problems(report.matched, threshold);
    if assessment(report, passwordless_sudo, threshold) is None {
        assert forall|i: int| 0 <= i < report.matched.len() implies (#[trigger]
        report.matched[i]).score < threshold by {
            if report.matched[i].score >= threshold {
                assert(problems(report.matched, threshold).len() > 0);
            }
        }
    }
}

/// The SDK is not attempted where the driver failed.
pub proof fn law_no_sdk_without_a_driver(
    h: Seq<Exchange>,
    at: int,
    target: Seq<char>,
    remote_cli: Seq<char>,
)
    ensures
        install_talk(h, at, target, remote_cli).end > at + 1 ==> (reply_at(h, at) matches Ok(driver)
            && driver.success),
{
}

proof fn lemma_problems_filtered(matched: Seq<DiagnosisView>, threshold: i32)
    ensures
        problems(matched, threshold) == matched.filter(
            |d: DiagnosisView| d.score >= threshold,
        ).map_values(|d: DiagnosisView| d.title),
    decreases matched.len(),
{
    reveal(Seq::filter);
    let p = |d: DiagnosisView| d.score >= threshold;
    let f = |d: DiagnosisView| d.title;
    if matched.len() > 0 {
        let front = matched.drop_last();
        lemma_problems_filtered(front, threshold);
        if p(matched.last()) {
            assert(matched.filter(p).map_values(f) =~= front.filter(p).map_values(f).push(
                f(matched.last()),
            ));
        }
    } else {
        assert(matched.filter(p).map_values(f) =~= seq![]);
    }
}

/// A refusal gives the reason that weighs most: that the machine was never looked at;
/// else all the problems found, and only those, whose score reaches the threshold; else
/// that administrator rights take a password.
pub proof fn law_a_refusal_gives_what_weighs_most(
    report: ReportView,
    passwordless_sudo: bool,
    threshold: i32,
)
    ensures
        ({
            let refusal = assessment(report, passwordless_sudo, threshold);
            let found = report.matched.filter(
                |d: DiagnosisView| d.score >= threshold,
            ).map_values(|d: DiagnosisView| d.title);
            &&& report.out_of_scope matches Some(why) ==> refusal == Some(
                RefusalView::NotEvaluated(why),
            )
            &&& report.out_of_scope is None && found.len() > 0 ==> refusal == Some(
                RefusalView::NeedsAHuman(found),
            )
            &&& report.out_of_scope is None && found.len() == 0 && !passwordless_sudo ==> refusal
                == Some(RefusalView::NeedsPasswordlessSudo)
            &&& report.out_of_scope is None && found.len() == 0 && passwordless_sudo ==> refusal
                is None
        }),
{
    lemma_problems_filtered(report.matched, threshold);
}

/// An installation succeeds exactly where the driver and then the SDK did, and sends
/// the one command for each, the second only after the first succeeded.
pub proof fn law_an_installation_is_a_driver_and_an_sdk(
    h: Seq<Exchange>,
    at: int,
    target: Seq<char>,
    remote_cli: Seq<char>,
)
    ensures
        ({
            let talk = install_talk(h, at, target, remote_cli);
            let driven = reply_at(h, at) is Ok && reply_at(h, at)->Ok_0.success;
            let done = reply_at(h, at + 1) is Ok && reply_at(h, at + 1)->Ok_0.success;
            &&& talk.value.result is Ok <==> driven && done
            &&& talk.end == if driven {
                at + 2
            } else {
                at + 1
            }
            &&& talk.fits <==> asks(h, at, driver_line(remote_cli)) && (driven ==> asks(
                h,
                at + 1,
                sdk_line(remote_cli),
            ))
        }),
{
}

proof fn lemma_indented(all: Seq<Seq<char>>)
    ensures
        indented(all) == all.filter(|l: Seq<char>| trimmed(l).len() > 0).map_values(
            |l: Seq<char>| "  "@ + l,
        ),
    decreases all.len(),
{
    reveal(Seq::filter);
    let p = |l: Seq<char>| trimmed(l).len() > 0;
    let f = |l: Seq<char>| "  "@ + l;
    if all.len() > 0 {
        let front = all.drop_last();
        lemma_indented(front);
        if p(all.last()) {
            assert(all.filter(p).map_values(f) =~= front.filter(p).map_values(f).push(
                f(all.last()),
            ));
        }
    } else {
        assert(all.filter(p).map_values(f) =~= seq![]);
    }
}

/// What the machine printed while it installed is shown, line by line but for blank
/// ones, the driver's before the SDK's; and behind it, exactly where one of the two
/// said so, that the machine has to be rebooted, by its name.
pub proof fn law_a_reboot_is_told_where_it_is_needed(
    h: Seq<Exchange>,
    at: int,
    target: Seq<char>,
    remote_cli: Seq<char>,
)
    requires
        install_talk(h, at, target, remote_cli).value.result is Ok,
    ensures
        ({
            let lines = install_talk(h, at, target, remote_cli).value.lines;
            let driver = reply_at(h, at)->Ok_0.stdout;
            let sdk = reply_at(h, at + 1)->Ok_0.stdout;
            let shown = |output: Seq<char>|
                lines_of(output).filter(|l: Seq<char>| trimmed(l).len() > 0).map_values(
                    |l: Seq<char>| "  "@ + l,
                );
            let so_far = 1 + shown(driver).len() + shown(sdk).len();
            let said = seq![lines[0]] + shown(driver) + shown(sdk);
            let needed = wants_reboot(driver) || wants_reboot(sdk);
            &&& has_text(lines[0], target)
            &&& !needed ==> lines == said
            &&& needed ==> lines.len() == so_far + 3 && lines.subrange(0, so_far as int) == said
                && has_text(lines[so_far as int + 1], target) && has_text(
                lines[so_far as int + 1],
                "reboot"@,
            )
        }),
{
    let lines = install_talk(h, at, target, remote_cli).value.lines;
    let driver = reply_at(h, at)->Ok_0.stdout;
    let sdk = reply_at(h, at + 1)->Ok_0.stdout;
    lemma_indented(lines_of(driver));
    lemma_indented(lines_of(sdk));
    lemma_has_text("Installing ROCm on "@, target, ". This can take several minutes."@);
    let begun = seq![lines[0]];
    let a = indented(lines_of(driver));
    let b = indented(lines_of(sdk));
    let so_far = (1 + a.len() + b.len()) as int;
    if wants_reboot(driver) || wants_reboot(sdk) {
        let tail = reboot_lines(target);
        assert(lines.subrange(0, so_far) =~= begun + a + b);
        assert(lines[so_far + 1] == tail[1]);
        reveal_strlit(" needs a reboot before it can serve.");
        reveal_strlit("reboot");
        let none: Seq<char> = seq![];
        let end = " needs a reboot before it can serve."@;
        assert(tail[1] =~= none + target + end);
        lemma_has_text(none, target, end);
        assert(end.subrange(9, 15) =~= "reboot"@);
        assert(occurs_at(end, "reboot"@, 9));
        assert(tail[1] =~= target + end + none);
        lemma_stands_within(target, end, none, "reboot"@);
    } else {
        assert(lines =~= begun + a + b);
    }
}

/// That a reboot is needed is noticed in any line, in any case of the letters.
pub proof fn law_a_reboot_is_noticed_in_any_line(list: Seq<Seq<char>>)
    requires
        forall|i: int| 0 <= i < list.len() ==> one_line(#[trigger] list[i]),
    ensures
        wants_reboot(whole_lines(list)) <==> exists|i: int|
            0 <= i < list.len() && (has_text(
                lower(#[trigger] list[i]),
                "reboot_required: true"@,
            ) || has_text(lower(list[i]), "reboot required"@)),
{
    lemma_whole_lines_read(list);
}

/// A refusal to set a machine up names the machine and why, and how a person would do it.
pub proof fn law_a_refusal_to_set_up_names_the_machine(
    target: Seq<char>,
    reason: Seq<char>,
    rendered: Seq<char>,
)
    ensures
        has_text(
            refusal_text(RefusalView::NotEvaluated(reason), target, rendered),
            target + " runs a platform"@,
        ),
        has_text(
            refusal_text(RefusalView::NotEvaluated(reason), target, rendered),
            "\n  "@ + reason + "\n"@,
        ),
        has_text(
            refusal_text(RefusalView::NotEvaluated(reason), target, rendered),
            "ssh "@ + target + " -- rocm bootstrap setup"@,
        ),
        has_text(
            refusal_text(RefusalView::NeedsPasswordlessSudo, target, rendered),
            "ROCm on "@ + target + " needs administrator rights"@,
        ),
        has_text(
            refusal_text(RefusalView::NeedsPasswordlessSudo, target, rendered),
            "ssh "@ + target + " -- rocm bootstrap setup"@,
        ),
{
    assert(has_text(
        refusal_text(RefusalView::NotEvaluated(reason), target, rendered),
        target + " runs a platform"@,
    )
        && has_text(
            refusal_text(RefusalView::NotEvaluated(reason), target, rendered),
            "\n  "@ + reason + "\n"@,
        )
            && has_text(
                refusal_text(RefusalView::NotEvaluated(reason), target, rendered),
                "ssh "@ + target + " -- rocm bootstrap setup"@,
            )) by {
        let s0 = target;
        let s1 =
            " runs a platform the ROCm failure catalog has no entries for, so nothing was checked there and there is no verdict to install on.\n\nWhat the check reported:\n  "@;
        let s2 = reason;
        let s3 =
            "\n\nAn unattended install is only allowed on a machine the catalog looked at and found nothing wrong with. This is a machine it never looked at, which is a different thing. Set it up yourself if you are sure it is supported:\n  ssh "@;
        let s4 = target;
        let s5 = " -- rocm bootstrap setup"@;
        let x1 = s0 + s1;
        let x2 = x1 + s2;
        let x3 = x2 + s3;
        let x4 = x3 + s4;
        let x5 = x4 + s5;
        assert(refusal_text(RefusalView::NotEvaluated(reason), target, rendered) == x5);
        let part = s0 + " runs a platform"@;
        assert(has_text(x5, part)) by {
            let r = s1.subrange(16, s1.len() as int);
            assert(s1 =~= " runs a platform"@ + r) by {
                reveal_strlit(
                    " runs a platform the ROCm failure catalog has no entries for, so nothing was checked there and there is no verdict to install on.\n\nWhat the check reported:\n  ",
                );
                reveal_strlit(" runs a platform");
            }
            assert(x1 =~= Seq::<char>::empty() + part + r);
            lemma_has_text(Seq::<char>::empty(), part, r);
            lemma_goes_on(x1, s2, part);
            lemma_goes_on(x2, s3, part);
            lemma_goes_on(x3, s4, part);
            lemma_goes_on(x4, s5, part);
        }
        let part = "\n  "@ + s2 + "\n"@;
        assert(has_text(x5, part)) by {
            let h = s1.subrange(0, 155);
            assert(s1 =~= h + "\n  "@) by {
                reveal_strlit(
                    " runs a platform the ROCm failure catalog has no entries for, so nothing was checked there and there is no verdict to install on.\n\nWhat the check reported:\n  ",
                );
                reveal_strlit("\n  ");
            }
            let r = s3.subrange(1, s3.len() as int);
            assert(s3 =~= "\n"@ + r) by {
                reveal_strlit(
                    "\n\nAn unattended install is only allowed on a machine the catalog looked at and found nothing wrong with. This is a machine it never looked at, which is a different thing. Set it up yourself if you are sure it is supported:\n  ssh ",
                );
                reveal_strlit("\n");
            }
            assert(x3 =~= (s0 + h) + part + r);
            lemma_has_text(s0 + h, part, r);
            lemma_goes_on(x3, s4, part);
            lemma_goes_on(x4, s5, part);
        }
        let part = "ssh "@ + s4 + s5;
        assert(has_text(x5, part)) by {
            let h = s3.subrange(0, 225);
            assert(s3 =~= h + "ssh "@) by {
                reveal_strlit(
                    "\n\nAn unattended install is only allowed on a machine the catalog looked at and found nothing wrong with. This is a machine it never looked at, which is a different thing. Set it up yourself if you are sure it is supported:\n  ssh ",
                );
                reveal_strlit("ssh ");
            }
            assert(x5 =~= (x2 + h) + part + Seq::<char>::empty());
            lemma_has_text(x2 + h, part, Seq::<char>::empty());
        }
    }
    assert(has_text(
        refusal_text(RefusalView::NeedsPasswordlessSudo, target, rendered),
        "ROCm on "@ + target + " needs administrator rights"@,
    )
        && has_text(
            refusal_text(RefusalView::NeedsPasswordlessSudo, target, rendered),
            "ssh "@ + target + " -- rocm bootstrap setup"@,
        )) by {
        let s0 = "installing ROCm on "@;
        let s1 = target;
        let s2 =
            " needs administrator rights, and this connection cannot answer a password prompt — it would hang rather than fail.\n\nEither set up passwordless sudo there, or install it yourself:\n  ssh "@;
        let s3 = target;
        let s4 = " -- rocm bootstrap setup"@;
        let x1 = s0 + s1;
        let x2 = x1 + s2;
        let x3 = x2 + s3;
        let x4 = x3 + s4;
        assert(refusal_text(RefusalView::NeedsPasswordlessSudo, target, rendered) == x4);
        let part = "ROCm on "@ + s1 + " needs administrator rights"@;
        assert(has_text(x4, part)) by {
            let h = s0.subrange(0, 11);
            assert(s0 =~= h + "ROCm on "@) by {
                reveal_strlit("installing ROCm on ");
                reveal_strlit("ROCm on ");
            }
            let r = s2.subrange(27, s2.len() as int);
            assert(s2 =~= " needs administrator rights"@ + r) by {
                reveal_strlit(
                    " needs administrator rights, and this connection cannot answer a password prompt — it would hang rather than fail.\n\nEither set up passwordless sudo there, or install it yourself:\n  ssh ",
                );
                reveal_strlit(" needs administrator rights");
            }
            assert(x2 =~= h + part + r);
            lemma_has_text(h, part, r);
            lemma_goes_on(x2, s3, part);
            lemma_goes_on(x3, s4, part);
        }
        let part = "ssh "@ + s3 + s4;
        assert(has_text(x4, part)) by {
            let h = s2.subrange(0, 181);
            assert(s2 =~= h + "ssh "@) by {
                reveal_strlit(
                    " needs administrator rights, and this connection cannot answer a password prompt — it would hang rather than fail.\n\nEither set up passwordless sudo there, or install it yourself:\n  ssh ",
                );
                reveal_strlit("ssh ");
            }
            assert(x4 =~= (x1 + h) + part + Seq::<char>::empty());
            lemma_has_text(x1 + h, part, Seq::<char>::empty());
        }
    }
}

/// A refusal for what was found names the machine and every finding, and ends with the
/// report that says how to repair them.
pub proof fn law_a_refusal_for_findings_names_them_all(
    target: Seq<char>,
    findings: Seq<Seq<char>>,
    rendered: Seq<char>,
    k: int,
)
    ensures
        ({
            let text = refusal_text(RefusalView::NeedsAHuman(findings), target, rendered);
            &&& occurs_at(text, target, 0)
            &&& 0 <= k < findings.len() ==> has_text(text, "  - "@ + findings[k])
            &&& text.len() >= report_text(target, rendered).len() && occurs_at(
                text,
                report_text(target, rendered),
                text.len() - report_text(target, rendered).len(),
            )
        }),
{
    let text = refusal_text(RefusalView::NeedsAHuman(findings), target, rendered);
    let b = " is not in a state that can be set up unattended.\n\nWhat was found:\n"@;
    let list = findings.map_values(|f: Seq<char>| "  - "@ + f);
    let c = joined(list, "\n"@);
    let d =
        "\n\nThese are the situations the setup wizard exists to walk a person through, and it cannot do that over a connection with nobody watching. Resolve them first — the suggested fixes are below — then run this again.\n\n"@;
    let e = report_text(target, rendered);
    assert(text =~= target + b + c + d + e);
    assert(text.subrange(0, target.len() as int) =~= target);
    assert(text.subrange(text.len() - e.len(), text.len() as int) =~= e);
    if 0 <= k < findings.len() {
        lemma_joined_hold(list, "\n"@, k);
        assert(list[k] == "  - "@ + findings[k]);
        assert(text =~= (target + b) + c + (d + e));
        lemma_stands_within(target + b, c, d + e, "  - "@ + findings[k]);
    }
}

} // verus!
