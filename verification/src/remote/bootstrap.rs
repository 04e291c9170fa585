//! Whether a machine can host a model, before it is asked to.
//!
//! It needs ROCm, the tool to drive it, and Tailscale to publish the endpoint.
//! What is missing is refused up front: a model started on a machine that cannot
//! publish it would run where nobody can reach it.

use vstd::prelude::*;
use crate::failure::{plain, told_text, Failure};
use crate::remote::doctor::{
    examine_line, examine_remote, examine_talk, DiagnoseReport, ReportView,
};
use crate::remote::install::{
    assess, assessment, describe_refusal, driver_line, has_passwordless_sudo, install,
    install_talk, law_an_installation_is_a_driver_and_an_sdk,
    law_only_a_clean_machine_is_installed_on, refusal_text, sudo_result,
};
use crate::remote::provision::{
    finish_cli_talk, finish_install_cli, install_cli, install_cli_talk, installer_line,
    platform_view,
    version_line, CliReportView, CliStep, CliStepView, Fetched, PlatformView, RemotePlatform,
    REMOTE_CLI_PATH,
};
use crate::remote::transport::{
    asks, goes_on, held, reply_at, Exchange, OutcomeView, RemoteOutcome, Talk, Transport,
};
use crate::text::{
    has_text, lemma_goes_on, lemma_has_text, lines, lines_of, lower, opt_view, texts, to_lower,
    trim, trimmed,
};

verus! {

/// What a machine looks like.
#[derive(Debug, PartialEq, Eq)]
pub struct RemoteReadiness {
    /// How the tool is invoked there, where it is there.
    pub cli: Option<String>,
    pub cli_version: Option<String>,
    pub rocm_present: bool,
    pub tailscale_present: bool,
    pub platform: Option<RemotePlatform>,
}

pub struct ReadinessView {
    pub cli: Option<Seq<char>>,
    pub cli_version: Option<Seq<char>>,
    pub rocm_present: bool,
    pub tailscale_present: bool,
    pub platform: Option<PlatformView>,
}

impl View for RemoteReadiness {
    type V = ReadinessView;

    open spec fn view(&self) -> ReadinessView {
        ReadinessView {
            cli: opt_view(self.cli),
            cli_version: opt_view(self.cli_version),
            rocm_present: self.rocm_present,
            tailscale_present: self.tailscale_present,
            platform: match self.platform {
                Some(p) => Some(p@),
                None => None,
            },
        }
    }
}

/// The first line of an output, trimmed, where there is anything in it.
pub open spec fn first_line(output: Seq<char>) -> Option<Seq<char>> {
    let all = lines_of(output);
    if all.len() > 0 && trimmed(all[0]).len() > 0 {
        Some(trimmed(all[0]))
    } else {
        None
    }
}

fn read_first_line(output: &str) -> (r: Option<String>)
    ensures
        opt_view(r) == first_line(output@),
{
    let list = lines(output);
    let ghost all = texts(list@);
    assert(all.len() == list@.len());
    if list.len() == 0 {
        return None;
    }
    assert(all[0] == list@[0]@);
    let line = trim(list[0].as_str());
    if line.as_str().is_empty() {
        None
    } else {
        Some(line)
    }
}

/// The platform an output names: a system and a processor, in small letters.
pub open spec fn platform_of(outcome: OutcomeView) -> Option<PlatformView> {
    let all = lines_of(outcome.stdout);
    if outcome.success && all.len() >= 2 && trimmed(all[0]).len() > 0 && trimmed(all[1]).len() > 0 {
        Some(PlatformView { os: lower(trimmed(all[0])), arch: lower(trimmed(all[1])) })
    } else {
        None
    }
}

fn read_platform(outcome: &RemoteOutcome) -> (r: Option<RemotePlatform>)
    ensures
        (match r {
            Some(p) => Some(p@),
            None => None,
        }) == platform_of(outcome@),
{
    if !outcome.success {
        return None;
    }
    let list = lines(outcome.stdout.as_str());
    let ghost all = texts(list@);
    assert(all.len() == list@.len());
    if list.len() < 2 {
        return None;
    }
    assert(all[0] == list@[0]@ && all[1] == list@[1]@);
    let os = trim(list[0].as_str());
    let arch = trim(list[1].as_str());
    if os.as_str().is_empty() || arch.as_str().is_empty() {
        return None;
    }
    Some(RemotePlatform { os: to_lower(os.as_str()), arch: to_lower(arch.as_str()) })
}

/// Where the tool was found, and the version it gives itself.
pub struct FoundCli {
    pub cli: Seq<char>,
    pub version: Option<Seq<char>>,
}

/// Looking for the tool: on the path first, then where it would have been put.
pub open spec fn cli_talk(h: Seq<Exchange>, at: int) -> Talk<
    Result<Option<FoundCli>, Seq<Seq<char>>>,
> {
    let first = asks(h, at, version_line("rocm"@));
    match reply_at(h, at) {
        Err(e) => Talk { fits: first, end: at + 1, value: Err(e) },
        Ok(a) => if a.success {
            Talk {
                fits: first,
                end: at + 1,
                value: Ok(Some(FoundCli { cli: "rocm"@, version: first_line(a.stdout) })),
            }
        } else {
            Talk {
                fits: first && asks(h, at + 1, version_line(REMOTE_CLI_PATH@)),
                end: at + 2,
                value: match reply_at(h, at + 1) {
                    Err(e) => Err(e),
                    Ok(b) => if b.success {
                        Ok(Some(FoundCli { cli: REMOTE_CLI_PATH@, version: first_line(b.stdout) }))
                    } else {
                        Ok(None)
                    },
                },
            }
        },
    }
}

fn find_cli<T: Transport>(transport: &mut T) -> (r: Result<
    Option<(String, Option<String>)>,
    Failure,
>)
    ensures
        held(
            old(transport).history(),
            final(transport).history(),
            cli_talk(final(transport).history(), old(transport).history().len() as int),
        ),
        (match r {
            Ok(Some(found)) => Ok(Some(FoundCli { cli: found.0@, version: opt_view(found.1) })),
            Ok(None) => Ok(None),
            Err(e) => Err(e@),
        }) == cli_talk(
            final(transport).history(),
            old(transport).history().len() as int,
        ).value,
{
    let mut command = "rocm".to_owned();
    command.push_str(" --version");
    match transport.exec(command.as_str()) {
        Err(e) => {
            return Err(e);
        },
        Ok(outcome) => {
            if outcome.success {
                return Ok(
                    Some(("rocm".to_owned(), read_first_line(outcome.stdout.as_str()))),
                );
            }
        },
    }
    let mut command = REMOTE_CLI_PATH.to_owned();
    command.push_str(" --version");
    match transport.exec(command.as_str()) {
        Err(e) => Err(e),
        Ok(outcome) => {
            if outcome.success {
                Ok(
                    Some(
                        (REMOTE_CLI_PATH.to_owned(), read_first_line(outcome.stdout.as_str())),
                    ),
                )
            } else {
                Ok(None)
            }
        },
    }
}

proof fn lemma_cli_goes_on(h: Seq<Exchange>, g: Seq<Exchange>, at: int)
    requires
        goes_on(h, g),
        cli_talk(h, at).fits,
        cli_talk(h, at).end <= h.len(),
    ensures
        cli_talk(g, at) == cli_talk(h, at),
{
}

/// The tool's invocation on a machine that has it; nothing is installed.
pub fn locate_cli<T: Transport>(transport: &mut T, target: &str) -> (r: Result<String, Failure>)
    ensures
        held(
            old(transport).history(),
            final(transport).history(),
            cli_talk(final(transport).history(), old(transport).history().len() as int),
        ),
        told_text(r) == (match cli_talk(
            final(transport).history(),
            old(transport).history().len() as int,
        ).value {
            Ok(Some(found)) => Ok::<Seq<char>, Seq<Seq<char>>>(found.cli),
            Ok(None) => Err(plain("no ROCm CLI was found on "@ + target@)),
            Err(e) => Err(e),
        }),
{
    match find_cli(transport) {
        Err(e) => Err(e),
        Ok(Some((cli, _))) => Ok(cli),
        Ok(None) => {
            let mut message = "no ROCm CLI was found on ".to_owned();
            message.push_str(target);
            Err(Failure::new(message))
        },
    }
}

pub open spec fn rocm_line() -> Seq<char> {
    "command -v rocminfo >/dev/null 2>&1 || command -v amd-smi >/dev/null 2>&1 || test -d /opt/rocm"@
}

pub open spec fn tailscale_line() -> Seq<char> {
    "command -v tailscale >/dev/null 2>&1"@
}

pub open spec fn platform_line() -> Seq<char> {
    "uname -s && uname -m"@
}

/// Looking a machine over: the tool, ROCm, Tailscale, the platform.
pub open spec fn probe_talk(h: Seq<Exchange>, at: int) -> Talk<
    Result<ReadinessView, Seq<Seq<char>>>,
> {
    let c = cli_talk(h, at);
    match c.value {
        Err(e) => Talk { fits: c.fits, end: c.end, value: Err(e) },
        Ok(found) => {
            let k = c.end;
            let one = c.fits && asks(h, k, rocm_line());
            match reply_at(h, k) {
                Err(e) => Talk { fits: one, end: k + 1, value: Err(e) },
                Ok(rocm) => {
                    let two = one && asks(h, k + 1, tailscale_line());
                    match reply_at(h, k + 1) {
                        Err(e) => Talk { fits: two, end: k + 2, value: Err(e) },
                        Ok(tailscale) => {
                            let three = two && asks(h, k + 2, platform_line());
                            match reply_at(h, k + 2) {
                                Err(e) => Talk { fits: three, end: k + 3, value: Err(e) },
                                Ok(platform) => Talk {
                                    fits: three,
                                    end: k + 3,
                                    value: Ok(
                                        ReadinessView {
                                            cli: match found {
                                                Some(f) => Some(f.cli),
                                                None => None,
                                            },
                                            cli_version: match found {
                                                Some(f) => f.version,
                                                None => None,
                                            },
                                            rocm_present: rocm.success,
                                            tailscale_present: tailscale.success,
                                            platform: platform_of(platform),
                                        },
                                    ),
                                },
                            }
                        },
                    }
                },
            }
        },
    }
}

pub open spec fn readiness_told(r: Result<RemoteReadiness, Failure>) -> Result<
    ReadinessView,
    Seq<Seq<char>>,
> {
    match r {
        Ok(v) => Ok(v@),
        Err(e) => Err(e@),
    }
}

/// Looks a machine over. What is missing is a finding, not a failure.
pub fn probe<T: Transport>(transport: &mut T) -> (r: Result<RemoteReadiness, Failure>)
    ensures
        held(
            old(transport).history(),
            final(transport).history(),
            probe_talk(final(transport).history(), old(transport).history().len() as int),
        ),
        readiness_told(r) == probe_talk(
            final(transport).history(),
            old(transport).history().len() as int,
        ).value,
{
    let ghost h0 = transport.history();
    let found = find_cli(transport);
    let ghost h1 = transport.history();
    let (cli, cli_version) = match found {
        Err(e) => {
            return Err(e);
        },
        Ok(Some((cli, version))) => (Some(cli), version),
        Ok(None) => (None, None),
    };
    let rocm = transport.exec(
        "command -v rocminfo >/dev/null 2>&1 || command -v amd-smi >/dev/null 2>&1 || test -d /opt/rocm",
    );
    proof {
        lemma_cli_goes_on(h1, transport.history(), h0.len() as int);
    }
    let rocm = match rocm {
        Err(e) => {
            return Err(e);
        },
        Ok(outcome) => outcome,
    };
    let tailscale = transport.exec("command -v tailscale >/dev/null 2>&1");
    proof {
        lemma_cli_goes_on(h1, transport.history(), h0.len() as int);
    }
    let tailscale = match tailscale {
        Err(e) => {
            return Err(e);
        },
        Ok(outcome) => outcome,
    };
    let platform = transport.exec("uname -s && uname -m");
    proof {
        lemma_cli_goes_on(h1, transport.history(), h0.len() as int);
    }
    let platform = match platform {
        Err(e) => {
            return Err(e);
        },
        Ok(outcome) => outcome,
    };
    Ok(
        RemoteReadiness {
            cli,
            cli_version,
            rocm_present: rocm.success,
            tailscale_present: tailscale.success,
            platform: read_platform(&platform),
        },
    )
}

proof fn lemma_probe_goes_on(h: Seq<Exchange>, g: Seq<Exchange>, at: int)
    requires
        goes_on(h, g),
        probe_talk(h, at).fits,
        probe_talk(h, at).end <= h.len(),
    ensures
        probe_talk(g, at) == probe_talk(h, at),
{
    lemma_cli_goes_on(h, g, at);
}

// ---------------------------------------------------------------------------
// Getting a machine ready
// ---------------------------------------------------------------------------

/// Where getting a machine ready stands: it is, a build has to be fetched here,
/// or what the machine says of itself has to be scored here.
pub enum ReadyStep {
    Ready { cli: String },
    /// `then_install` says whether ROCm is still to be installed.
    Fetch { platform: RemotePlatform, remote_error: String, then_install: bool },
    Diagnose { cli: String, examination: String },
}

pub enum ReadyStepView {
    Ready(Seq<char>),
    Fetch { platform: PlatformView, remote_error: Seq<char>, then_install: bool },
    Diagnose { cli: Seq<char>, examination: Seq<char> },
}

impl View for ReadyStep {
    type V = ReadyStepView;

    open spec fn view(&self) -> ReadyStepView {
        match *self {
            ReadyStep::Ready { cli } => ReadyStepView::Ready(cli@),
            ReadyStep::Fetch { platform, remote_error, then_install } => ReadyStepView::Fetch {
                platform: platform@,
                remote_error: remote_error@,
                then_install,
            },
            ReadyStep::Diagnose { cli, examination } => ReadyStepView::Diagnose {
                cli: cli@,
                examination: examination@,
            },
        }
    }
}

/// What a part of getting ready says and comes to.
pub struct ReadyReport {
    pub lines: Vec<String>,
    pub result: Result<ReadyStep, Failure>,
}

pub struct ReadyReportView {
    pub lines: Seq<Seq<char>>,
    pub result: Result<ReadyStepView, Seq<Seq<char>>>,
}

impl View for ReadyReport {
    type V = ReadyReportView;

    open spec fn view(&self) -> ReadyReportView {
        ReadyReportView {
            lines: texts(self.lines@),
            result: match self.result {
                Ok(step) => Ok(step@),
                Err(e) => Err(e@),
            },
        }
    }
}

/// What follows once the tool was installed, or was found to need a build: with
/// `then_install` the machine is examined, else it is ready.
pub open spec fn after_cli_talk(
    h: Seq<Exchange>,
    cli: Talk<CliReportView>,
    then_install: bool,
) -> Talk<ReadyReportView> {
    match cli.value.result {
        Err(e) => Talk {
            fits: cli.fits,
            end: cli.end,
            value: ReadyReportView { lines: cli.value.lines, result: Err(e) },
        },
        Ok(CliStepView::Fetch { platform, remote_error }) => Talk {
            fits: cli.fits,
            end: cli.end,
            value: ReadyReportView {
                lines: cli.value.lines,
                result: Ok(ReadyStepView::Fetch { platform, remote_error, then_install }),
            },
        },
        Ok(CliStepView::Installed { cli: how, .. }) => if then_install {
            let x = examine_talk(h, cli.end, how);
            Talk {
                fits: cli.fits && x.fits,
                end: x.end,
                value: ReadyReportView {
                    lines: cli.value.lines,
                    result: match x.value {
                        Ok(examination) => Ok(ReadyStepView::Diagnose { cli: how, examination }),
                        Err(e) => Err(e),
                    },
                },
            }
        } else {
            Talk {
                fits: cli.fits,
                end: cli.end,
                value: ReadyReportView {
                    lines: cli.value.lines,
                    result: Ok(ReadyStepView::Ready(how)),
                },
            }
        },
    }
}

pub open spec fn no_rocm(target: Seq<char>) -> Seq<char> {
    "no ROCm installation was found on "@ + target + ".\nInstall it there first:\n  ssh "@ + target
        + " -- rocm bootstrap setup\nOr pass --install-rocm to have this command do it."@
}

pub open spec fn no_tailscale(target: Seq<char>) -> Seq<char> {
    target
        + " has ROCm but no Tailscale, so it cannot publish an endpoint.\n`rocm remote` reaches a model over the tailnet, not through this machine.\nInstall Tailscale there and run `tailscale up`, then try again."@
}

pub open spec fn no_tailscale_to_install_for(target: Seq<char>) -> Seq<char> {
    target
        + " has no Tailscale, so it could not publish an endpoint, and ROCm was not installed on it.\n`rocm remote` reaches a model over the tailnet, not through this machine.\nInstall Tailscale there and run `tailscale up`, then try again."@
}

/// Getting a machine ready: look it over, refuse what is missing, and see to the
/// tool. ROCm is installed only where that was asked for.
pub open spec fn ready_talk(
    h: Seq<Exchange>,
    at: int,
    target: Seq<char>,
    channel: Seq<char>,
    install_rocm: bool,
) -> Talk<ReadyReportView> {
    let p = probe_talk(h, at);
    match p.value {
        Err(e) => Talk {
            fits: p.fits,
            end: p.end,
            value: ReadyReportView { lines: seq![], result: Err(e) },
        },
        Ok(seen) => if !seen.rocm_present {
            if !install_rocm {
                Talk {
                    fits: p.fits,
                    end: p.end,
                    value: ReadyReportView { lines: seq![], result: Err(plain(no_rocm(target))) },
                }
            } else if !seen.tailscale_present {
                Talk {
                    fits: p.fits,
                    end: p.end,
                    value: ReadyReportView {
                        lines: seq![],
                        result: Err(plain(no_tailscale_to_install_for(target))),
                    },
                }
            } else {
                install_rocm_talk(h, p.end, p.fits, target, channel, seen)
            }
        } else if !seen.tailscale_present {
            Talk {
                fits: p.fits,
                end: p.end,
                value: ReadyReportView { lines: seq![], result: Err(plain(no_tailscale(target))) },
            }
        } else {
            match seen.cli {
                Some(cli) => Talk {
                    fits: p.fits,
                    end: p.end,
                    value: ReadyReportView {
                        lines: seq![
                            match seen.cli_version {
                                Some(v) => "  remote CLI: "@ + v,
                                None => "  remote CLI: present"@,
                            },
                        ],
                        result: Ok(ReadyStepView::Ready(cli)),
                    },
                },
                None => {
                    let c = install_cli_talk(h, p.end, target, seen.platform, channel);
                    after_cli_talk(h, Talk { fits: p.fits && c.fits, ..c }, false)
                },
            }
        },
    }
}

/// Installing ROCm begins with the tool, which runs the installation, and with
/// what the machine says of itself.
pub open spec fn install_rocm_talk(
    h: Seq<Exchange>,
    at: int,
    so_far: bool,
    target: Seq<char>,
    channel: Seq<char>,
    seen: ReadinessView,
) -> Talk<ReadyReportView> {
    match seen.cli {
        Some(cli) => {
            let x = examine_talk(h, at, cli);
            Talk {
                fits: so_far && x.fits,
                end: x.end,
                value: ReadyReportView {
                    lines: seq![],
                    result: match x.value {
                        Ok(examination) => Ok(ReadyStepView::Diagnose { cli, examination }),
                        Err(e) => Err(e),
                    },
                },
            }
        },
        None => {
            let c = install_cli_talk(h, at, target, seen.platform, channel);
            after_cli_talk(h, Talk { fits: so_far && c.fits, ..c }, true)
        },
    }
}

fn after_cli<T: Transport>(
    transport: &mut T,
    report: crate::remote::provision::CliReport,
    then_install: bool,
    Ghost(fits): Ghost<bool>,
) -> (r: ReadyReport)
    ensures
        ({
            let cli = Talk { fits, end: old(transport).history().len() as int, value: report@ };
            let talk = after_cli_talk(final(transport).history(), cli, then_install);
            &&& goes_on(old(transport).history(), final(transport).history())
            &&& talk.end == final(transport).history().len()
            &&& fits ==> talk.fits
            &&& r@ == talk.value
        }),
{
    match report.result {
        Err(e) => ReadyReport { lines: report.lines, result: Err(e) },
        Ok(CliStep::Fetch { platform, remote_error }) => ReadyReport {
            lines: report.lines,
            result: Ok(ReadyStep::Fetch { platform, remote_error, then_install }),
        },
        Ok(CliStep::Installed { cli, how: _ }) => {
            if then_install {
                match examine_remote(transport, cli.as_str()) {
                    Ok(examination) => ReadyReport {
                        lines: report.lines,
                        result: Ok(ReadyStep::Diagnose { cli, examination }),
                    },
                    Err(e) => ReadyReport { lines: report.lines, result: Err(e) },
                }
            } else {
                ReadyReport { lines: report.lines, result: Ok(ReadyStep::Ready { cli }) }
            }
        },
    }
}

proof fn lemma_install_cli_goes_on(
    h: Seq<Exchange>,
    g: Seq<Exchange>,
    at: int,
    target: Seq<char>,
    platform: Option<PlatformView>,
    channel: Seq<char>,
)
    requires
        goes_on(h, g),
        install_cli_talk(h, at, target, platform, channel).fits,
        install_cli_talk(h, at, target, platform, channel).end <= h.len(),
    ensures
        install_cli_talk(g, at, target, platform, channel) == install_cli_talk(
            h,
            at,
            target,
            platform,
            channel,
        ),
{
}

/// Begins installing ROCm on a machine that was looked over.
pub fn install_rocm_on<T: Transport>(
    transport: &mut T,
    target: &str,
    channel: &str,
    readiness: &RemoteReadiness,
) -> (r: ReadyReport)
    ensures
        held(
            old(transport).history(),
            final(transport).history(),
            install_rocm_talk(
                final(transport).history(),
                old(transport).history().len() as int,
                true,
                target@,
                channel@,
                readiness@,
            ),
        ),
        r@ == install_rocm_talk(
            final(transport).history(),
            old(transport).history().len() as int,
            true,
            target@,
            channel@,
            readiness@,
        ).value,
{
    let ghost h0 = transport.history();
    match &readiness.cli {
        Some(cli) => {
            let lines: Vec<String> = Vec::new();
            assert(texts(lines@) =~= seq![]);
            match examine_remote(transport, cli.as_str()) {
                Ok(examination) => ReadyReport {
                    lines,
                    result: Ok(ReadyStep::Diagnose { cli: cli.clone(), examination }),
                },
                Err(e) => ReadyReport { lines, result: Err(e) },
            }
        },
        None => {
            let platform = match &readiness.platform {
                Some(p) => Some(p),
                None => None,
            };
            let report = install_cli(transport, target, platform, channel);
            let ghost h1 = transport.history();
            let r = after_cli(transport, report, true, Ghost(true));
            proof {
                lemma_install_cli_goes_on(
                    h1,
                    transport.history(),
                    h0.len() as int,
                    target@,
                    platform_view(platform),
                    channel@,
                );
            }
            r
        },
    }
}

/// Gets a machine ready, installing ROCm only where that was asked for.
pub fn ensure_ready_with<T: Transport>(
    transport: &mut T,
    target: &str,
    channel: &str,
    install_rocm: bool,
) -> (r: ReadyReport)
    ensures
        held(
            old(transport).history(),
            final(transport).history(),
            ready_talk(
                final(transport).history(),
                old(transport).history().len() as int,
                target@,
                channel@,
                install_rocm,
            ),
        ),
        r@ == ready_talk(
            final(transport).history(),
            old(transport).history().len() as int,
            target@,
            channel@,
            install_rocm,
        ).value,
{
    let ghost h0 = transport.history();
    let mut lines: Vec<String> = Vec::new();
    assert(texts(lines@) =~= seq![]);
    let probed = probe(transport);
    let ghost h1 = transport.history();
    let readiness = match probed {
        Err(e) => {
            return ReadyReport { lines, result: Err(e) };
        },
        Ok(readiness) => readiness,
    };
    if !readiness.rocm_present {
        if !install_rocm {
            let mut message = "no ROCm installation was found on ".to_owned();
            message.push_str(target);
            message.push_str(".\nInstall it there first:\n  ssh ");
            message.push_str(target);
            message.push_str(
                " -- rocm bootstrap setup\nOr pass --install-rocm to have this command do it.",
            );
            return ReadyReport { lines, result: Err(Failure::new(message)) };
        }
        if !readiness.tailscale_present {
            let mut message = target.to_owned();
            message.push_str(
                " has no Tailscale, so it could not publish an endpoint, and ROCm was not installed on it.\n`rocm remote` reaches a model over the tailnet, not through this machine.\nInstall Tailscale there and run `tailscale up`, then try again.",
            );
            return ReadyReport { lines, result: Err(Failure::new(message)) };
        }
        let r = install_rocm_on(transport, target, channel, &readiness);
        proof {
            lemma_probe_goes_on(h1, transport.history(), h0.len() as int);
        }
        return r;
    }
    if !readiness.tailscale_present {
        let mut message = target.to_owned();
        message.push_str(
            " has ROCm but no Tailscale, so it cannot publish an endpoint.\n`rocm remote` reaches a model over the tailnet, not through this machine.\nInstall Tailscale there and run `tailscale up`, then try again.",
        );
        return ReadyReport { lines, result: Err(Failure::new(message)) };
    }
    match readiness.cli {
        Some(cli) => {
            let line = match readiness.cli_version {
                Some(v) => {
                    let mut line = "  remote CLI: ".to_owned();
                    line.push_str(v.as_str());
                    line
                },
                None => "  remote CLI: present".to_owned(),
            };
            lines.push(line);
            assert(texts(lines@) =~= seq![line@]);
            ReadyReport { lines, result: Ok(ReadyStep::Ready { cli }) }
        },
        None => {
            let platform = match &readiness.platform {
                Some(p) => Some(p),
                None => None,
            };
            let report = install_cli(transport, target, platform, channel);
            let ghost h2 = transport.history();
            let r = after_cli(transport, report, false, Ghost(true));
            proof {
                lemma_probe_goes_on(h1, transport.history(), h0.len() as int);
                lemma_install_cli_goes_on(
                    h2,
                    transport.history(),
                    h1.len() as int,
                    target@,
                    platform_view(platform),
                    channel@,
                );
            }
            r
        },
    }
}

/// Gets a machine ready without ever installing ROCm.
pub fn ensure_ready<T: Transport>(transport: &mut T, target: &str, channel: &str) -> (r: ReadyReport)
    ensures
        held(
            old(transport).history(),
            final(transport).history(),
            ready_talk(
                final(transport).history(),
                old(transport).history().len() as int,
                target@,
                channel@,
                false,
            ),
        ),
        r@ == ready_talk(
            final(transport).history(),
            old(transport).history().len() as int,
            target@,
            channel@,
            false,
        ).value,
{
    ensure_ready_with(transport, target, channel, false)
}

/// Going on once a build was fetched: it is installed, and where ROCm is still
/// to be installed the machine is examined.
pub open spec fn fetched_talk(
    h: Seq<Exchange>,
    at: int,
    target: Seq<char>,
    channel: Seq<char>,
    platform: PlatformView,
    remote_error: Seq<char>,
    then_install: bool,
    fetched: Result<Fetched, Failure>,
) -> Talk<ReadyReportView> {
    after_cli_talk(
        h,
        finish_cli_talk(h, at, target, platform, remote_error, fetched, channel),
        then_install,
    )
}

proof fn lemma_finish_goes_on(
    h: Seq<Exchange>,
    g: Seq<Exchange>,
    at: int,
    target: Seq<char>,
    platform: PlatformView,
    remote_error: Seq<char>,
    fetched: Result<Fetched, Failure>,
    channel: Seq<char>,
)
    requires
        goes_on(h, g),
        0 <= at,
        finish_cli_talk(h, at, target, platform, remote_error, fetched, channel).fits,
        finish_cli_talk(h, at, target, platform, remote_error, fetched, channel).end <= h.len(),
    ensures
        finish_cli_talk(g, at, target, platform, remote_error, fetched, channel)
            == finish_cli_talk(h, at, target, platform, remote_error, fetched, channel),
{
}

/// Goes on with a machine once a build was fetched for it, or was not.
pub fn ready_with_build<T: Transport>(
    transport: &mut T,
    target: &str,
    channel: &str,
    platform: &RemotePlatform,
    remote_error: &str,
    then_install: bool,
    fetched: Result<Fetched, Failure>,
) -> (r: ReadyReport)
    ensures
        held(
            old(transport).history(),
            final(transport).history(),
            fetched_talk(
                final(transport).history(),
                old(transport).history().len() as int,
                target@,
                channel@,
                platform@,
                remote_error@,
                then_install,
                fetched,
            ),
        ),
        r@ == fetched_talk(
            final(transport).history(),
            old(transport).history().len() as int,
            target@,
            channel@,
            platform@,
            remote_error@,
            then_install,
            fetched,
        ).value,
{
    let ghost h0 = transport.history();
    let ghost what = fetched;
    let report = finish_install_cli(transport, target, platform, remote_error, fetched, channel);
    let ghost h1 = transport.history();
    let r = after_cli(transport, report, then_install, Ghost(true));
    proof {
        lemma_finish_goes_on(
            h1,
            transport.history(),
            h0.len() as int,
            target@,
            platform@,
            remote_error@,
            what,
            channel@,
        );
    }
    r
}

/// Going on once the machine was scored: a password probe, the verdict, and the
/// installation where nothing speaks against it.
pub open spec fn scored_talk(
    h: Seq<Exchange>,
    at: int,
    target: Seq<char>,
    cli: Seq<char>,
    report: ReportView,
    threshold: i32,
    rendered: Seq<char>,
) -> Talk<ReadyReportView> {
    let probed = asks(h, at, "sudo -n true"@);
    match sudo_result(reply_at(h, at)) {
        Err(e) => Talk {
            fits: probed,
            end: at + 1,
            value: ReadyReportView { lines: seq![], result: Err(e) },
        },
        Ok(sudo) => match assessment(report, sudo, threshold) {
            Some(refusal) => Talk {
                fits: probed,
                end: at + 1,
                value: ReadyReportView {
                    lines: seq![],
                    result: Err(plain(refusal_text(refusal, target, rendered))),
                },
            },
            None => {
                let i = install_talk(h, at + 1, target, cli);
                Talk {
                    fits: probed && i.fits,
                    end: i.end,
                    value: ReadyReportView {
                        lines: i.value.lines,
                        result: match i.value.result {
                            Ok(_) => Ok(ReadyStepView::Ready(cli)),
                            Err(e) => Err(e),
                        },
                    },
                }
            },
        },
    }
}

/// Goes on with a machine once it was scored. `rendered` is the text of the
/// report aimed at it.
pub fn ready_with_report<T: Transport>(
    transport: &mut T,
    target: &str,
    cli: &str,
    report: &DiagnoseReport,
    threshold: i32,
    rendered: &str,
) -> (r: ReadyReport)
    ensures
        held(
            old(transport).history(),
            final(transport).history(),
            scored_talk(
                final(transport).history(),
                old(transport).history().len() as int,
                target@,
                cli@,
                report@,
                threshold,
                rendered@,
            ),
        ),
        r@ == scored_talk(
            final(transport).history(),
            old(transport).history().len() as int,
            target@,
            cli@,
            report@,
            threshold,
            rendered@,
        ).value,
{
    let lines: Vec<String> = Vec::new();
    assert(texts(lines@) =~= seq![]);
    let sudo = match has_passwordless_sudo(transport) {
        Err(e) => {
            return ReadyReport { lines, result: Err(e) };
        },
        Ok(sudo) => sudo,
    };
    if let Some(refusal) = assess(report, sudo, threshold) {
        return ReadyReport {
            lines,
            result: Err(Failure::new(describe_refusal(&refusal, target, rendered))),
        };
    }
    let installed = install(transport, target, cli);
    ReadyReport {
        lines: installed.lines,
        result: match installed.result {
            Ok(_) => Ok(ReadyStep::Ready { cli: cli.to_owned() }),
            Err(e) => Err(e),
        },
    }
}

// ---------------------------------------------------------------------------
// Laws
// ---------------------------------------------------------------------------

/// Where ROCm is missing and its installation was not asked for, the machine is
/// refused, and nothing was sent but the questions of the look-over.
pub proof fn law_nothing_is_installed_unasked(
    h: Seq<Exchange>,
    at: int,
    target: Seq<char>,
    channel: Seq<char>,
)
    requires
        probe_talk(h, at).value matches Ok(seen) && !seen.rocm_present,
    ensures
        ready_talk(h, at, target, channel, false).value.result is Err,
        ready_talk(h, at, target, channel, false).end == probe_talk(h, at).end,
{
}

/// A machine without Tailscale is refused on the look-over alone, whether ROCm is
/// to be installed or not: it is neither ready nor has anything else sent to it.
pub proof fn law_a_ready_machine_can_publish(
    h: Seq<Exchange>,
    at: int,
    target: Seq<char>,
    channel: Seq<char>,
    install_rocm: bool,
)
    requires
        probe_talk(h, at).value matches Ok(seen) && !seen.tailscale_present,
    ensures
        ready_talk(h, at, target, channel, install_rocm).value.result is Err,
        ready_talk(h, at, target, channel, install_rocm).end == probe_talk(h, at).end,
{
}

/// A machine that needs nothing installed has ROCm and Tailscale.
pub proof fn law_a_machine_ready_as_it_is_has_rocm(
    h: Seq<Exchange>,
    at: int,
    target: Seq<char>,
    channel: Seq<char>,
)
    requires
        ready_talk(h, at, target, channel, false).value.result is Ok,
    ensures
        probe_talk(h, at).value matches Ok(seen) && seen.rocm_present && seen.tailscale_present,
{
}

/// The tool is looked for on the path and, only where it is not there, where it would
/// have been put; it is found where it answered.
pub proof fn law_the_tool_is_looked_for_in_two_places(h: Seq<Exchange>, at: int)
    ensures
        ({
            let talk = cli_talk(h, at);
            let first = reply_at(h, at);
            let second = reply_at(h, at + 1);
            let on_path = first is Ok && first->Ok_0.success;
            let put = second is Ok && second->Ok_0.success;
            &&& talk.fits ==> asks(h, at, "rocm --version"@)
            &&& on_path ==> talk.end == at + 1 && (talk.value matches Ok(Some(f)) && f.cli
                == "rocm"@ && f.version == first_line(first->Ok_0.stdout))
            &&& first is Err ==> talk.end == at + 1 && talk.value is Err
            &&& first is Ok && !on_path ==> talk.end == at + 2 && (talk.fits ==> asks(
                h,
                at + 1,
                "$HOME/.local/bin/rocm --version"@,
            ))
            &&& first is Ok && !on_path && put ==> (talk.value matches Ok(Some(f)) && f.cli
                == "$HOME/.local/bin/rocm"@ && f.version == first_line(second->Ok_0.stdout))
            &&& first is Ok && !on_path && second is Ok && !put ==> talk.value == Ok::<
                Option<FoundCli>,
                Seq<Seq<char>>,
            >(None)
            &&& first is Ok && !on_path && second is Err ==> talk.value is Err
        }),
{
    reveal_strlit("rocm");
    reveal_strlit(" --version");
    reveal_strlit("rocm --version");
    reveal_strlit("$HOME/.local/bin/rocm");
    reveal_strlit("$HOME/.local/bin/rocm --version");
    assert(version_line("rocm"@) =~= "rocm --version"@);
    assert(version_line(REMOTE_CLI_PATH@) =~= "$HOME/.local/bin/rocm --version"@);
}

/// A machine is reported as it answered: with the tool where it was found, with ROCm
/// and with Tailscale exactly where the question after each succeeded, and with the
/// system and the processor that its last answer names in its first two lines.
pub proof fn law_a_machine_is_seen_as_it_answers(h: Seq<Exchange>, at: int)
    requires
        probe_talk(h, at).value is Ok,
    ensures
        ({
            let talk = probe_talk(h, at);
            let seen = talk.value->Ok_0;
            let c = cli_talk(h, at);
            let k = c.end;
            let named = lines_of(reply_at(h, k + 2)->Ok_0.stdout);
            &&& talk.end == k + 3
            &&& talk.fits ==> c.fits && asks(
                h,
                k,
                "command -v rocminfo >/dev/null 2>&1 || command -v amd-smi >/dev/null 2>&1 || test -d /opt/rocm"@,
            ) && asks(h, k + 1, "command -v tailscale >/dev/null 2>&1"@) && asks(
                h,
                k + 2,
                "uname -s && uname -m"@,
            )
            &&& c.value is Ok && (seen.cli is Some <==> c.value->Ok_0 is Some)
            &&& c.value->Ok_0 matches Some(f) ==> seen.cli == Some(f.cli) && seen.cli_version
                == f.version
            &&& seen.rocm_present == reply_at(h, k)->Ok_0.success
            &&& seen.tailscale_present == reply_at(h, k + 1)->Ok_0.success
            &&& seen.platform matches Some(p) ==> named.len() >= 2 && p.os == lower(
                trimmed(named[0]),
            ) && p.arch == lower(trimmed(named[1]))
            &&& seen.platform is Some <==> reply_at(h, k + 2)->Ok_0.success && named.len() >= 2
                && trimmed(named[0]).len() > 0 && trimmed(named[1]).len() > 0
        }),
{
}

/// A machine with ROCm, Tailscale and the tool is ready at once, by the tool it has.
/// One that lacks the tool alone is asked to install it, from the channel. One that
/// lacks ROCm is never ready on the look-over, whatever was asked.
pub proof fn law_a_complete_machine_is_ready_at_once(
    h: Seq<Exchange>,
    at: int,
    target: Seq<char>,
    channel: Seq<char>,
    install_rocm: bool,
)
    requires
        probe_talk(h, at).value is Ok,
    ensures
        ({
            let seen = probe_talk(h, at).value->Ok_0;
            let end = probe_talk(h, at).end;
            let talk = ready_talk(h, at, target, channel, install_rocm);
            let can = seen.rocm_present && seen.tailscale_present;
            &&& can && seen.cli is Some ==> talk.end == end && talk.value.result == Ok::<
                ReadyStepView,
                Seq<Seq<char>>,
            >(ReadyStepView::Ready(seen.cli->0))
            &&& can && seen.cli is None ==> (talk.fits ==> asks(h, end, installer_line(channel)))
                && talk.end > end
            &&& !seen.rocm_present ==> !(talk.value.result matches Ok(ReadyStepView::Ready(_)))
            &&& !seen.rocm_present && install_rocm && seen.tailscale_present && seen.cli is Some
                ==> talk.end == end + 1 && (talk.fits ==> asks(h, end, examine_line(seen.cli->0)))
            &&& !seen.rocm_present && !install_rocm ==> talk.value.result is Err
        }),
{
}

/// A machine that was examined is set up exactly where it was looked at, no problem
/// reaches the threshold, and administrator rights take no password: then, and only
/// then, anything is sent beyond that last question. It is ready exactly where the
/// driver and the SDK were then installed.
pub proof fn law_a_machine_is_set_up_only_where_nothing_speaks_against_it(
    h: Seq<Exchange>,
    at: int,
    target: Seq<char>,
    cli: Seq<char>,
    report: ReportView,
    threshold: i32,
    rendered: Seq<char>,
)
    ensures
        ({
            let talk = scored_talk(h, at, target, cli, report, threshold, rendered);
            let sudo = reply_at(h, at) is Ok && reply_at(h, at)->Ok_0.success;
            let clean = report.out_of_scope is None && forall|i: int|
                0 <= i < report.matched.len() ==> (#[trigger] report.matched[i]).score < threshold;
            let ok = |n: int| reply_at(h, n) is Ok && reply_at(h, n)->Ok_0.success;
            &&& talk.fits ==> asks(h, at, "sudo -n true"@)
            &&& talk.end > at + 1 <==> sudo && clean
            &&& talk.value.result is Ok <==> sudo && clean && ok(at + 1) && ok(at + 2)
            &&& talk.value.result matches Ok(step) ==> step == ReadyStepView::Ready(cli)
            &&& sudo && clean && talk.fits ==> asks(h, at + 1, driver_line(cli))
        }),
{
    let sudo = reply_at(h, at) is Ok && reply_at(h, at)->Ok_0.success;
    law_only_a_clean_machine_is_installed_on(report, sudo, threshold);
    law_an_installation_is_a_driver_and_an_sdk(h, at + 1, target, cli);
}

/// Once the tool is there, a machine on which ROCm is still to be installed is
/// examined, and any other is ready.
pub proof fn law_what_follows_the_tool(
    h: Seq<Exchange>,
    cli: Talk<CliReportView>,
    then_install: bool,
)
    ensures
        ({
            let talk = after_cli_talk(h, cli, then_install);
            match cli.value.result {
                Err(e) => talk.value.result == Err::<ReadyStepView, Seq<Seq<char>>>(e) && talk.end
                    == cli.end,
                Ok(CliStepView::Fetch { platform, remote_error }) => talk.end == cli.end
                    && talk.value.result == Ok::<ReadyStepView, Seq<Seq<char>>>(
                    ReadyStepView::Fetch { platform, remote_error, then_install },
                ),
                Ok(CliStepView::Installed { cli: how, .. }) => if then_install {
                    talk.end == cli.end + 1 && (talk.fits ==> asks(h, cli.end, examine_line(how)))
                        && !(talk.value.result matches Ok(ReadyStepView::Ready(_)))
                } else {
                    talk.end == cli.end && talk.value.result == Ok::<
                        ReadyStepView,
                        Seq<Seq<char>>,
                    >(ReadyStepView::Ready(how))
                },
            }
        }),
{
}

/// What a machine lacks is told by its name, and with how to come by it there.
pub proof fn law_what_a_machine_lacks_is_told(target: Seq<char>)
    ensures
        has_text(no_rocm(target), "found on "@ + target + "."@),
        has_text(no_rocm(target), "ssh "@ + target + " -- rocm bootstrap setup"@),
        has_text(no_tailscale(target), target + " has ROCm but no Tailscale"@),
{
    assert(has_text(no_rocm(target), "found on "@ + target + "."@)
        && has_text(no_rocm(target), "ssh "@ + target + " -- rocm bootstrap setup"@)) by {
        let s0 = "no ROCm installation was found on "@;
        let s1 = target;
        let s2 = ".\nInstall it there first:\n  ssh "@;
        let s3 = target;
        let s4 =
            " -- rocm bootstrap setup\nOr pass --install-rocm to have this command do it."@;
        let x1 = s0 + s1;
        let x2 = x1 + s2;
        let x3 = x2 + s3;
        let x4 = x3 + s4;
        assert(no_rocm(target) == x4);
        let part = "found on "@ + s1 + "."@;
        assert(has_text(x4, part)) by {
            let h = s0.subrange(0, 25);
            assert(s0 =~= h + "found on "@) by {
                reveal_strlit("no ROCm installation was found on ");
                reveal_strlit("found on ");
            }
            let r = s2.subrange(1, s2.len() as int);
            assert(s2 =~= "."@ + r) by {
                reveal_strlit(".\nInstall it there first:\n  ssh ");
                reveal_strlit(".");
            }
            assert(x2 =~= h + part + r);
            lemma_has_text(h, part, r);
            lemma_goes_on(x2, s3, part);
            lemma_goes_on(x3, s4, part);
        }
        let part = "ssh "@ + s3 + " -- rocm bootstrap setup"@;
        assert(has_text(x4, part)) by {
            let h = s2.subrange(0, 28);
            assert(s2 =~= h + "ssh "@) by {
                reveal_strlit(".\nInstall it there first:\n  ssh ");
                reveal_strlit("ssh ");
            }
            let r = s4.subrange(24, s4.len() as int);
            assert(s4 =~= " -- rocm bootstrap setup"@ + r) by {
                reveal_strlit(
                    " -- rocm bootstrap setup\nOr pass --install-rocm to have this command do it.",
                );
                reveal_strlit(" -- rocm bootstrap setup");
            }
            assert(x4 =~= (x1 + h) + part + r);
            lemma_has_text(x1 + h, part, r);
        }
    }
    assert(has_text(no_tailscale(target), target + " has ROCm but no Tailscale"@)) by {
        let s0 = target;
        let s1 =
            " has ROCm but no Tailscale, so it cannot publish an endpoint.\n`rocm remote` reaches a model over the tailnet, not through this machine.\nInstall Tailscale there and run `tailscale up`, then try again."@;
        let x1 = s0 + s1;
        assert(no_tailscale(target) == x1);
        let part = s0 + " has ROCm but no Tailscale"@;
        assert(has_text(x1, part)) by {
            let r = s1.subrange(26, s1.len() as int);
            assert(s1 =~= " has ROCm but no Tailscale"@ + r) by {
                reveal_strlit(
                    " has ROCm but no Tailscale, so it cannot publish an endpoint.\n`rocm remote` reaches a model over the tailnet, not through this machine.\nInstall Tailscale there and run `tailscale up`, then try again.",
                );
                reveal_strlit(" has ROCm but no Tailscale");
            }
            assert(x1 =~= Seq::<char>::empty() + part + r);
            lemma_has_text(Seq::<char>::empty(), part, r);
        }
    }
}

} // verus!
