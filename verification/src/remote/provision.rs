//! Putting the tool onto a machine that does not have it.
//!
//! The machine is first asked to install its own build. Only where that command
//! fails is a build fetched here, for the machine's platform, and pushed over
//! with its checksum and signature, so that the machine can repeat every check.

use vstd::prelude::*;
use crate::failure::{headline_of, plain, told, within, Failure};
use crate::remote::shell::{all_inert, quoted, shell_quote, word_below_home, word_value};
use crate::remote::transport::{
    asks, goes_on, held, pushed_at, pushes, reply_at, run_result, Exchange, Reply, Talk, Transport,
};
use crate::text::{
    after_last, ends_with, has_text, last_part, lemma_after_last, lemma_goes_on, lemma_has_text,
    lines, lines_of, occurs_at, opt_view, starts_with, strip_prefix_or_all, texts, trim, trimmed,
    without_prefix,
};

verus! {

/// Where a provisioned tool lands.
pub const REMOTE_CLI_PATH: &'static str = "$HOME/.local/bin/rocm";

/// Where the machine gets the installer it runs itself.
pub const INSTALLER_URL: &'static str =
    "https://raw.githubusercontent.com/ROCm/rocm-cli/main/install.sh";

/// Where pushed files land.
pub const REMOTE_STAGING: &'static str = "$HOME/.rocm/provision";

/// A machine's operating system and processor, as it reports them.
#[derive(Debug, PartialEq, Eq)]
pub struct RemotePlatform {
    pub os: String,
    pub arch: String,
}

pub struct PlatformView {
    pub os: Seq<char>,
    pub arch: Seq<char>,
}

impl View for RemotePlatform {
    type V = PlatformView;

    open spec fn view(&self) -> PlatformView {
        PlatformView { os: self.os@, arch: self.arch@ }
    }
}

impl Clone for RemotePlatform {
    fn clone(&self) -> (r: RemotePlatform)
        ensures
            r@ == self@,
    {
        RemotePlatform { os: self.os.clone(), arch: self.arch.clone() }
    }
}

pub open spec fn platform_view(o: Option<&RemotePlatform>) -> Option<PlatformView> {
    match o {
        Some(p) => Some(p@),
        None => None,
    }
}

/// How the tool got onto the machine.
#[derive(Debug, PartialEq, Eq)]
pub enum Provisioned {
    RemoteInstaller,
    PushedMatchedArtifact { asset: String },
}

pub enum ProvisionedView {
    RemoteInstaller,
    PushedMatchedArtifact(Seq<char>),
}

impl View for Provisioned {
    type V = ProvisionedView;

    open spec fn view(&self) -> ProvisionedView {
        match *self {
            Provisioned::RemoteInstaller => ProvisionedView::RemoteInstaller,
            Provisioned::PushedMatchedArtifact { asset } => ProvisionedView::PushedMatchedArtifact(
                asset@,
            ),
        }
    }
}

// ---------------------------------------------------------------------------
// Commands
// ---------------------------------------------------------------------------

pub open spec fn installer_line(channel: Seq<char>) -> Seq<char> {
    "curl -fsSL "@ + INSTALLER_URL@ + " | sh -s -- "@ + quoted(channel)
}

pub fn remote_installer_command(channel: &str) -> (r: String)
    ensures
        r@ == installer_line(channel@),
{
    let mut out = "curl -fsSL ".to_owned();
    out.push_str(INSTALLER_URL);
    out.push_str(" | sh -s -- ");
    out.push_str(shell_quote(channel).as_str());
    out
}

pub open spec fn version_line(cli: Seq<char>) -> Seq<char> {
    cli + " --version"@
}

/// The assignments that hand an alternative signing key to the installer. The
/// path variable goes along empty, or one set on the far side would win.
pub open spec fn key_fragment(pem: Seq<char>) -> Seq<char> {
    "ROCM_CLI_SIGNING_PUBLIC_KEY_PEM="@ + quoted(pem) + " ROCM_CLI_SIGNING_PUBLIC_KEY_PATH= "@
}

/// An environment variable's value, where it is set to anything.
pub open spec fn set(value: Option<Seq<char>>) -> Option<Seq<char>> {
    match value {
        Some(v) => if v.len() > 0 {
            Some(v)
        } else {
            None
        },
        None => None,
    }
}

/// The signing key that applies: the one a path names before one given outright.
/// `read` is what reading that path came to.
pub open spec fn signing_key(
    pem: Option<Seq<char>>,
    path: Option<Seq<char>>,
    read: Result<Seq<char>, Seq<Seq<char>>>,
) -> Result<Option<Seq<char>>, Seq<Seq<char>>> {
    match set(path) {
        Some(p) => match read {
            Ok(key) => Ok(Some(key)),
            Err(e) => Err(
                within(
                    "failed to read the signing key at "@ + p
                        + " (from ROCM_CLI_SIGNING_PUBLIC_KEY_PATH)"@,
                    e,
                ),
            ),
        },
        None => Ok(set(pem)),
    }
}

/// The path to read a signing key from, where one is named.
pub fn signing_key_path(path_env: &Option<String>) -> (r: Option<String>)
    ensures
        opt_view(r) == set(opt_view(*path_env)),
{
    match path_env {
        Some(p) => if p.as_str().is_empty() {
            None
        } else {
            Some(p.clone())
        },
        None => None,
    }
}

/// The fragment that forwards an alternative signing key, or none.
pub fn signing_env_fragment_from(
    pem_env: Option<String>,
    path_env: Option<String>,
    read: Result<String, Failure>,
) -> (r: Result<Option<String>, Failure>)
    ensures
        (match r {
            Ok(o) => Ok(opt_view(o)),
            Err(e) => Err(e@),
        }) == (match signing_key(
            opt_view(pem_env),
            opt_view(path_env),
            crate::failure::told_text(read),
        ) {
            Ok(Some(pem)) => Ok(Some(key_fragment(pem))),
            Ok(None) => Ok(None),
            Err(e) => Err(e),
        }),
{
    let pem = match signing_key_path(&path_env) {
        Some(path) => match read {
            Ok(key) => key,
            Err(e) => {
                let mut message = "failed to read the signing key at ".to_owned();
                message.push_str(path.as_str());
                message.push_str(" (from ROCM_CLI_SIGNING_PUBLIC_KEY_PATH)");
                return Err(e.context(message));
            },
        },
        None => match signing_key_path(&pem_env) {
            Some(key) => key,
            None => {
                return Ok(None);
            },
        },
    };
    let mut out = "ROCM_CLI_SIGNING_PUBLIC_KEY_PEM=".to_owned();
    out.push_str(shell_quote(pem.as_str()).as_str());
    out.push_str(" ROCM_CLI_SIGNING_PUBLIC_KEY_PATH= ");
    Ok(Some(out))
}

/// The file an installer's last `downloaded:` line names, without its folder.
pub open spec fn asset_in(report: Seq<Seq<char>>) -> Option<Seq<char>>
    decreases report.len(),
{
    if report.len() == 0 {
        None
    } else {
        let line = trimmed(report.last());
        if occurs_at(line, "downloaded:"@, 0) {
            let name = after_last(trimmed(without_prefix(line, "downloaded:"@)), '/');
            if name.len() > 0 {
                Some(name)
            } else {
                None
            }
        } else {
            asset_in(report.drop_last())
        }
    }
}

pub fn parse_downloaded_asset(stdout: &str) -> (r: Option<String>)
    ensures
        opt_view(r) == asset_in(lines_of(stdout@)),
{
    let list = lines(stdout);
    let ghost all = texts(list@);
    let mut i: usize = list.len();
    assert(all.subrange(0, all.len() as int) =~= all);
    while i > 0
        invariant
            i <= list@.len(),
            all == texts(list@),
            all == lines_of(stdout@),
            asset_in(all) == asset_in(all.subrange(0, i as int)),
        decreases i,
    {
        assert(all.subrange(0, i as int).drop_last() =~= all.subrange(0, i - 1));
        assert(all.subrange(0, i as int).last() == list@[i - 1]@);
        let line = trim(list[i - 1].as_str());
        if starts_with(line.as_str(), "downloaded:") {
            let path = trim(strip_prefix_or_all(line.as_str(), "downloaded:").as_str());
            let name = last_part(path.as_str(), '/');
            if name.as_str().is_empty() {
                return None;
            }
            return Some(name);
        }
        i -= 1;
    }
    None
}

/// What a fetch that told no file name is reported as.
pub fn fetched_asset(stdout: &str) -> (r: Result<String, Failure>)
    ensures
        crate::failure::told_text(r) == (match asset_in(lines_of(stdout@)) {
            Some(name) => Ok::<Seq<char>, Seq<Seq<char>>>(name),
            None => Err(
                plain(
                    "the installer reported success but did not say which file it produced"@,
                ),
            ),
        }),
{
    match parse_downloaded_asset(stdout) {
        Some(name) => Ok(name),
        None => Err(
            Failure::new(
                "the installer reported success but did not say which file it produced".to_owned(),
            ),
        ),
    }
}

// ---------------------------------------------------------------------------
// The machine installs itself
// ---------------------------------------------------------------------------

/// What confirming that the tool runs comes to, given the reply.
pub open spec fn verified(target: Seq<char>, reply: Reply) -> Result<(), Seq<Seq<char>>> {
    match reply {
        Err(e) => Err(e),
        Ok(outcome) => if outcome.success {
            Ok(())
        } else {
            Err(
                plain(
                    "the CLI was installed on "@ + target + " but does not run there: "@ + trimmed(
                        outcome.stderr,
                    )
                        + "\nThis usually means the build does not match the machine's OS or CPU."@,
                ),
            )
        },
    }
}

/// Confirms that the tool just installed runs there.
pub fn verify_remote_cli<T: Transport>(transport: &mut T, target: &str) -> (r: Result<(), Failure>)
    ensures
        goes_on(old(transport).history(), final(transport).history()),
        final(transport).history().len() == old(transport).history().len() + 1,
        asks(
            final(transport).history(),
            old(transport).history().len() as int,
            version_line(REMOTE_CLI_PATH@),
        ),
        told(r) == verified(
            target@,
            reply_at(final(transport).history(), old(transport).history().len() as int),
        ),
{
    let mut command = REMOTE_CLI_PATH.to_owned();
    command.push_str(" --version");
    match transport.exec(command.as_str()) {
        Err(e) => Err(e),
        Ok(outcome) => {
            if outcome.success {
                return Ok(());
            }
            let mut message = "the CLI was installed on ".to_owned();
            message.push_str(target);
            message.push_str(" but does not run there: ");
            message.push_str(trim(outcome.stderr.as_str()).as_str());
            message.push_str(
                "\nThis usually means the build does not match the machine's OS or CPU.",
            );
            Err(Failure::new(message))
        },
    }
}

/// What asking the machine to install its own build comes to.
pub open spec fn installer_result(reply: Reply) -> Result<(), Seq<Seq<char>>> {
    match reply {
        Err(e) => Err(e),
        Ok(outcome) => if outcome.success {
            Ok(())
        } else {
            Err(plain(trimmed(outcome.stderr)))
        },
    }
}

pub fn run_remote_installer<T: Transport>(transport: &mut T, channel: &str) -> (r: Result<
    (),
    Failure,
>)
    ensures
        goes_on(old(transport).history(), final(transport).history()),
        final(transport).history().len() == old(transport).history().len() + 1,
        asks(
            final(transport).history(),
            old(transport).history().len() as int,
            installer_line(channel@),
        ),
        told(r) == installer_result(
            reply_at(final(transport).history(), old(transport).history().len() as int),
        ),
{
    match transport.exec(remote_installer_command(channel).as_str()) {
        Err(e) => Err(e),
        Ok(outcome) => {
            if outcome.success {
                return Ok(());
            }
            Err(Failure::new(trim(outcome.stderr.as_str())))
        },
    }
}

/// Where an installation stands: done, or waiting for a build to be fetched here
/// for that platform, since the machine could not get its own.
pub enum CliStep {
    Installed { cli: String, how: Provisioned },
    Fetch { platform: RemotePlatform, remote_error: String },
}

pub enum CliStepView {
    Installed { cli: Seq<char>, how: ProvisionedView },
    Fetch { platform: PlatformView, remote_error: Seq<char> },
}

impl View for CliStep {
    type V = CliStepView;

    open spec fn view(&self) -> CliStepView {
        match *self {
            CliStep::Installed { cli, how } => CliStepView::Installed { cli: cli@, how: how@ },
            CliStep::Fetch { platform, remote_error } => CliStepView::Fetch {
                platform: platform@,
                remote_error: remote_error@,
            },
        }
    }
}

/// What a part of an installation says and comes to.
pub struct CliReport {
    /// Lines to show.
    pub lines: Vec<String>,
    pub result: Result<CliStep, Failure>,
}

pub struct CliReportView {
    pub lines: Seq<Seq<char>>,
    pub result: Result<CliStepView, Seq<Seq<char>>>,
}

impl View for CliReport {
    type V = CliReportView;

    open spec fn view(&self) -> CliReportView {
        CliReportView {
            lines: texts(self.lines@),
            result: match self.result {
                Ok(step) => Ok(step@),
                Err(e) => Err(e@),
            },
        }
    }
}

pub open spec fn unknown_platform() -> Seq<char> {
    "cannot fetch a build for the remote because its OS and CPU architecture could not be determined, and installing a mismatched build would fail in a way that is hard to diagnose"@
}

/// The conversation of an installation: the machine is asked to install its own
/// build, and if it did, whether the tool runs.
pub open spec fn install_cli_talk(
    h: Seq<Exchange>,
    at: int,
    target: Seq<char>,
    platform: Option<PlatformView>,
    channel: Seq<char>,
) -> Talk<CliReportView> {
    let asked = asks(h, at, installer_line(channel));
    let begun = "  remote CLI: not found — installing it on "@ + target + " ..."@;
    match installer_result(reply_at(h, at)) {
        Ok(_) => {
            let fits = asked && asks(h, at + 1, version_line(REMOTE_CLI_PATH@));
            match verified(target, reply_at(h, at + 1)) {
                Err(e) => Talk {
                    fits,
                    end: at + 2,
                    value: CliReportView { lines: seq![begun], result: Err(e) },
                },
                Ok(_) => Talk {
                    fits,
                    end: at + 2,
                    value: CliReportView {
                        lines: seq![begun, "  remote CLI: installed by the remote itself"@],
                        result: Ok(
                            CliStepView::Installed {
                                cli: REMOTE_CLI_PATH@,
                                how: ProvisionedView::RemoteInstaller,
                            },
                        ),
                    },
                },
            }
        },
        Err(remote_error) => {
            let lines = seq![
                begun,
                "  remote CLI: the machine could not install it itself, fetching for it ..."@,
            ];
            Talk {
                fits: asked,
                end: at + 1,
                value: CliReportView {
                    lines,
                    result: match platform {
                        None => Err(plain(unknown_platform())),
                        Some(platform) => Ok(
                            CliStepView::Fetch {
                                platform,
                                remote_error: headline_of(remote_error),
                            },
                        ),
                    },
                },
            }
        },
    }
}

/// Installs the tool on the machine, as far as the machine can do it itself.
pub fn install_cli<T: Transport>(
    transport: &mut T,
    target: &str,
    platform: Option<&RemotePlatform>,
    channel: &str,
) -> (r: CliReport)
    ensures
        held(
            old(transport).history(),
            final(transport).history(),
            install_cli_talk(
                final(transport).history(),
                old(transport).history().len() as int,
                target@,
                platform_view(platform),
                channel@,
            ),
        ),
        r@ == install_cli_talk(
            final(transport).history(),
            old(transport).history().len() as int,
            target@,
            platform_view(platform),
            channel@,
        ).value,
{
    let mut begun = "  remote CLI: not found — installing it on ".to_owned();
    begun.push_str(target);
    begun.push_str(" ...");
    let mut lines: Vec<String> = Vec::new();
    lines.push(begun);
    match run_remote_installer(transport, channel) {
        Ok(_) => match verify_remote_cli(transport, target) {
            Err(e) => {
                assert(texts(lines@) =~= seq![begun@]);
                CliReport { lines, result: Err(e) }
            },
            Ok(_) => {
                lines.push("  remote CLI: installed by the remote itself".to_owned());
                assert(texts(lines@) =~= seq![
                    begun@,
                    "  remote CLI: installed by the remote itself"@,
                ]);
                CliReport {
                    lines,
                    result: Ok(
                        CliStep::Installed {
                            cli: REMOTE_CLI_PATH.to_owned(),
                            how: Provisioned::RemoteInstaller,
                        },
                    ),
                }
            },
        },
        Err(remote_error) => {
            lines.push(
                "  remote CLI: the machine could not install it itself, fetching for it ...".to_owned(),
            );
            assert(texts(lines@) =~= seq![
                begun@,
                "  remote CLI: the machine could not install it itself, fetching for it ..."@,
            ]);
            let result = match platform {
                None => Err(
                    Failure::new(
                        "cannot fetch a build for the remote because its OS and CPU architecture could not be determined, and installing a mismatched build would fail in a way that is hard to diagnose".to_owned(),
                    ),
                ),
                Some(p) => Ok(
                    CliStep::Fetch { platform: p.clone(), remote_error: remote_error.headline() },
                ),
            };
            CliReport { lines, result }
        },
    }
}

// ---------------------------------------------------------------------------
// A fetched build is pushed
// ---------------------------------------------------------------------------

/// A file that may have been fetched.
pub struct StagedFile {
    pub local: String,
    pub present: bool,
}

/// A build fetched here: its name, the files that came with it, the installer
/// to run it with, and the key fragment to hand on.
pub struct Fetched {
    pub asset: String,
    pub archive: StagedFile,
    pub checksum: StagedFile,
    pub signature: StagedFile,
    pub installer: String,
    pub signing: Result<Option<String>, Failure>,
}

pub open spec fn staged(name: Seq<char>) -> Seq<char> {
    REMOTE_STAGING@ + "/"@ + name
}

/// Sending one file: none where it is not there, or where it arrived.
pub open spec fn send_talk(
    h: Seq<Exchange>,
    at: int,
    present: bool,
    local: Seq<char>,
    name: Seq<char>,
    fault: Seq<char>,
) -> Talk<Option<Seq<Seq<char>>>> {
    if !present {
        Talk { fits: true, end: at, value: None }
    } else {
        Talk {
            fits: pushes(h, at, local, staged(name)),
            end: at + 1,
            value: match pushed_at(h, at) {
                Ok(_) => None,
                Err(e) => Some(within(fault, e)),
            },
        }
    }
}

pub open spec fn copy_fault(name: Seq<char>) -> Seq<char> {
    "failed to copy "@ + name + " to the remote"@
}

fn send<T: Transport>(transport: &mut T, file: &StagedFile, name: &str) -> (r: Result<(), Failure>)
    ensures
        held(
            old(transport).history(),
            final(transport).history(),
            send_talk(
                final(transport).history(),
                old(transport).history().len() as int,
                file.present,
                file.local@,
                name@,
                copy_fault(name@),
            ),
        ),
        (match r {
            Ok(_) => None,
            Err(e) => Some(e@),
        }) == send_talk(
            final(transport).history(),
            old(transport).history().len() as int,
            file.present,
            file.local@,
            name@,
            copy_fault(name@),
        ).value,
{
    if !file.present {
        return Ok(());
    }
    let mut path = REMOTE_STAGING.to_owned();
    path.push_str("/");
    path.push_str(name);
    match transport.push_file(file.local.as_str(), path.as_str()) {
        Ok(_) => Ok(()),
        Err(e) => {
            let mut message = "failed to copy ".to_owned();
            message.push_str(name);
            message.push_str(" to the remote");
            Err(e.context(message))
        },
    }
}

/// The pushed archive as the far shell is given it: the folder is left for that
/// shell to expand, and the name is one literal part.
pub open spec fn archive_word(asset: Seq<char>) -> Seq<char> {
    REMOTE_STAGING@ + "/"@ + quoted(asset)
}

/// The command that installs a pushed build.
pub open spec fn pushed_install_line(
    signing: Seq<char>,
    asset: Seq<char>,
    channel: Seq<char>,
) -> Seq<char> {
    signing + "ROCM_CLI_ARCHIVE="@ + archive_word(asset) + " sh "@ + REMOTE_STAGING@
        + "/install.sh "@ + quoted(channel)
}

/// The conversation of pushing a build: make the folder, send the archive with
/// its checksum and signature, send the installer, run it.
pub open spec fn push_talk(h: Seq<Exchange>, at: int, f: Fetched, channel: Seq<char>) -> Talk<
    Result<(), Seq<Seq<char>>>,
> {
    let asset = f.asset@;
    let mkdir = "mkdir -p "@ + REMOTE_STAGING@;
    let made = asks(h, at, mkdir);
    match run_result(mkdir, reply_at(h, at)) {
        Err(e) => Talk {
            fits: made,
            end: at + 1,
            value: Err(within("failed to make a staging directory on the remote"@, e)),
        },
        Ok(_) => {
            let a = send_talk(
                h,
                at + 1,
                f.archive.present,
                f.archive.local@,
                asset,
                copy_fault(asset),
            );
            let sum = asset + ".sha256"@;
            let sig = asset + ".sig"@;
            match a.value {
                Some(e) => Talk { fits: made && a.fits, end: a.end, value: Err(e) },
                None => {
                    let b = send_talk(
                        h,
                        a.end,
                        f.checksum.present,
                        f.checksum.local@,
                        sum,
                        copy_fault(sum),
                    );
                    match b.value {
                        Some(e) => Talk {
                            fits: made && a.fits && b.fits,
                            end: b.end,
                            value: Err(e),
                        },
                        None => {
                            let c = send_talk(
                                h,
                                b.end,
                                f.signature.present,
                                f.signature.local@,
                                sig,
                                copy_fault(sig),
                            );
                            let sent = made && a.fits && b.fits && c.fits;
                            match c.value {
                                Some(e) => Talk { fits: sent, end: c.end, value: Err(e) },
                                None => run_pushed_talk(h, c.end, sent, f, channel),
                            }
                        },
                    }
                },
            }
        },
    }
}

/// The end of it: the installer is sent and run.
pub open spec fn run_pushed_talk(
    h: Seq<Exchange>,
    at: int,
    so_far: bool,
    f: Fetched,
    channel: Seq<char>,
) -> Talk<Result<(), Seq<Seq<char>>>> {
    let d = send_talk(
        h,
        at,
        true,
        f.installer@,
        "install.sh"@,
        "failed to copy the installer to the remote"@,
    );
    match d.value {
        Some(e) => Talk { fits: so_far && d.fits, end: d.end, value: Err(e) },
        None => match f.signing {
            Err(e) => Talk { fits: so_far && d.fits, end: d.end, value: Err(e@) },
            Ok(signing) => {
                let fragment = match signing {
                    Some(s) => s@,
                    None => seq![],
                };
                Talk {
                    fits: so_far && d.fits && asks(
                        h,
                        d.end,
                        pushed_install_line(fragment, f.asset@, channel),
                    ),
                    end: d.end + 1,
                    value: match reply_at(h, d.end) {
                        Err(e) => Err(e),
                        Ok(outcome) => if outcome.success {
                            Ok(())
                        } else {
                            Err(
                                plain(
                                    "the remote rejected the build we fetched for it: "@ + trimmed(
                                        outcome.stderr,
                                    ),
                                ),
                            )
                        },
                    },
                }
            },
        },
    }
}

/// Pushes a fetched build and has the machine install it.
pub fn push_matched_artifact<T: Transport>(transport: &mut T, f: &Fetched, channel: &str) -> (r:
    Result<(), Failure>)
    ensures
        held(
            old(transport).history(),
            final(transport).history(),
            push_talk(
                final(transport).history(),
                old(transport).history().len() as int,
                *f,
                channel@,
            ),
        ),
        told(r) == push_talk(
            final(transport).history(),
            old(transport).history().len() as int,
            *f,
            channel@,
        ).value,
{
    let ghost h0 = transport.history();
    let mut mkdir = "mkdir -p ".to_owned();
    mkdir.push_str(REMOTE_STAGING);
    let made = transport.run(mkdir.as_str());
    let ghost h1 = transport.history();
    assert(goes_on(h0, h1)) by {
        assert forall|i: int| 0 <= i < h0.len() implies h1[i] == h0[i] by {
            assert(h1.drop_last()[i] == h0[i]);
        }
    }
    if let Err(e) = made {
        return Err(
            e.context("failed to make a staging directory on the remote".to_owned()),
        );
    }
    match send(transport, &f.archive, f.asset.as_str()) {
        Err(e) => {
            return Err(e);
        },
        Ok(_) => {},
    }
    let ghost h2 = transport.history();
    let mut sum = f.asset.clone();
    sum.push_str(".sha256");
    match send(transport, &f.checksum, sum.as_str()) {
        Err(e) => {
            return Err(e);
        },
        Ok(_) => {},
    }
    let ghost h3 = transport.history();
    let mut sig = f.asset.clone();
    sig.push_str(".sig");
    match send(transport, &f.signature, sig.as_str()) {
        Err(e) => {
            return Err(e);
        },
        Ok(_) => {},
    }
    let ghost h4 = transport.history();
    let mut path = REMOTE_STAGING.to_owned();
    path.push_str("/");
    path.push_str("install.sh");
    match transport.push_file(f.installer.as_str(), path.as_str()) {
        Err(e) => {
            return Err(e.context("failed to copy the installer to the remote".to_owned()));
        },
        Ok(_) => {},
    }
    let mut command = match &f.signing {
        Err(e) => {
            return Err(e.clone());
        },
        Ok(Some(fragment)) => fragment.clone(),
        Ok(None) => String::new(),
    };
    command.push_str("ROCM_CLI_ARCHIVE=");
    let mut archive = REMOTE_STAGING.to_owned();
    archive.push_str("/");
    archive.push_str(shell_quote(f.asset.as_str()).as_str());
    command.push_str(archive.as_str());
    command.push_str(" sh ");
    command.push_str(REMOTE_STAGING);
    command.push_str("/install.sh ");
    command.push_str(shell_quote(channel).as_str());
    match transport.exec(command.as_str()) {
        Err(e) => Err(e),
        Ok(outcome) => {
            if outcome.success {
                return Ok(());
            }
            let mut message = "the remote rejected the build we fetched for it: ".to_owned();
            message.push_str(trim(outcome.stderr.as_str()).as_str());
            Err(Failure::new(message))
        },
    }
}

/// Why an installation from a fetched build failed, whatever step it was.
pub open spec fn both_failed(target: Seq<char>, remote_error: Seq<char>) -> Seq<char> {
    target + " could not install the CLI itself ("@ + remote_error
        + "), and fetching a matching build for it failed too"@
}

/// The conversation that installs a fetched build and confirms that it runs.
pub open spec fn finish_cli_talk(
    h: Seq<Exchange>,
    at: int,
    target: Seq<char>,
    platform: PlatformView,
    remote_error: Seq<char>,
    fetched: Result<Fetched, Failure>,
    channel: Seq<char>,
) -> Talk<CliReportView> {
    match fetched {
        Err(e) => Talk {
            fits: true,
            end: at,
            value: CliReportView {
                lines: seq![],
                result: Err(within(both_failed(target, remote_error), e@)),
            },
        },
        Ok(f) => {
            let p = push_talk(h, at, f, channel);
            match p.value {
                Err(e) => Talk {
                    fits: p.fits,
                    end: p.end,
                    value: CliReportView {
                        lines: seq![],
                        result: Err(within(both_failed(target, remote_error), e)),
                    },
                },
                Ok(_) => {
                    let fits = p.fits && asks(h, p.end, version_line(REMOTE_CLI_PATH@));
                    match verified(target, reply_at(h, p.end)) {
                        Err(e) => Talk {
                            fits,
                            end: p.end + 1,
                            value: CliReportView { lines: seq![], result: Err(e) },
                        },
                        Ok(_) => Talk {
                            fits,
                            end: p.end + 1,
                            value: CliReportView {
                                lines: seq![
                                    "  remote CLI: installed from a build matching "@ + platform.os
                                        + "-"@ + platform.arch,
                                ],
                                result: Ok(
                                    CliStepView::Installed {
                                        cli: REMOTE_CLI_PATH@,
                                        how: ProvisionedView::PushedMatchedArtifact(f.asset@),
                                    },
                                ),
                            },
                        },
                    }
                },
            }
        },
    }
}

proof fn lemma_push_goes_on(h: Seq<Exchange>, g: Seq<Exchange>, at: int, f: Fetched, channel: Seq<char>)
    requires
        goes_on(h, g),
        0 <= at,
        push_talk(h, at, f, channel).fits,
        push_talk(h, at, f, channel).end <= h.len(),
    ensures
        push_talk(g, at, f, channel) == push_talk(h, at, f, channel),
{
}

/// Installs the tool from a build that was fetched here.
pub fn finish_install_cli<T: Transport>(
    transport: &mut T,
    target: &str,
    platform: &RemotePlatform,
    remote_error: &str,
    fetched: Result<Fetched, Failure>,
    channel: &str,
) -> (r: CliReport)
    ensures
        held(
            old(transport).history(),
            final(transport).history(),
            finish_cli_talk(
                final(transport).history(),
                old(transport).history().len() as int,
                target@,
                platform@,
                remote_error@,
                fetched,
                channel@,
            ),
        ),
        r@ == finish_cli_talk(
            final(transport).history(),
            old(transport).history().len() as int,
            target@,
            platform@,
            remote_error@,
            fetched,
            channel@,
        ).value,
{
    let ghost h0 = transport.history();
    let mut message = target.to_owned();
    message.push_str(" could not install the CLI itself (");
    message.push_str(remote_error);
    message.push_str("), and fetching a matching build for it failed too");
    let mut lines: Vec<String> = Vec::new();
    assert(texts(lines@) =~= seq![]);
    let f = match fetched {
        Err(e) => {
            return CliReport { lines, result: Err(e.context(message)) };
        },
        Ok(f) => f,
    };
    match push_matched_artifact(transport, &f, channel) {
        Err(e) => {
            return CliReport { lines, result: Err(e.context(message)) };
        },
        Ok(_) => {},
    }
    let ghost h1 = transport.history();
    let checked = verify_remote_cli(transport, target);
    proof {
        lemma_push_goes_on(h1, transport.history(), h0.len() as int, f, channel@);
    }
    match checked {
        Err(e) => CliReport { lines, result: Err(e) },
        Ok(_) => {
            let mut line = "  remote CLI: installed from a build matching ".to_owned();
            line.push_str(platform.os.as_str());
            line.push_str("-");
            line.push_str(platform.arch.as_str());
            lines.push(line);
            assert(texts(lines@) =~= seq![line@]);
            CliReport {
                lines,
                result: Ok(
                    CliStep::Installed {
                        cli: REMOTE_CLI_PATH.to_owned(),
                        how: Provisioned::PushedMatchedArtifact { asset: f.asset },
                    },
                ),
            }
        },
    }
}

// ---------------------------------------------------------------------------
// Laws
// ---------------------------------------------------------------------------

/// The archive is looked for where it was put: the far shell expands the staging
/// folder below its home, and takes the name as it is whatever it holds.
pub proof fn law_the_staging_path_expands_on_the_remote(asset: Seq<char>, home: Seq<char>)
    ensures
        staged(asset) == "$HOME"@ + ("/.rocm/provision/"@ + asset),
        word_below_home(archive_word(asset), home) == Some(home + ("/.rocm/provision/"@ + asset)),
{
    reveal_strlit("$HOME/.rocm/provision");
    reveal_strlit("$HOME");
    reveal_strlit("/.rocm/provision/");
    reveal_strlit("/");
    let root = "$HOME"@;
    let folder = "/.rocm/provision/"@;
    assert(REMOTE_STAGING@ + "/"@ =~= root + folder);
    assert(staged(asset) =~= root + (folder + asset));
    let word = archive_word(asset);
    let rest = word.subrange(root.len() as int, word.len() as int);
    assert(word =~= root + (folder + quoted(asset)));
    assert(word.subrange(0, root.len() as int) =~= root);
    assert(rest =~= folder + quoted(asset));
    assert(all_inert(folder));
    crate::remote::shell::lemma_read_inert(folder);
    crate::remote::shell::law_a_quoted_value_is_one_literal_word(asset);
    crate::remote::shell::lemma_read_concat(folder, quoted(asset));
}

/// A key file that is named is what counts, and a failure to read it is told with its
/// path; a key given outright counts where no file is named; and a variable set to
/// nothing counts as not set.
pub proof fn law_a_key_file_comes_before_a_key(
    pem: Option<Seq<char>>,
    path: Option<Seq<char>>,
    read: Result<Seq<char>, Seq<Seq<char>>>,
)
    ensures
        ({
            let key = signing_key(pem, path, read);
            let named = path is Some && path->0.len() > 0;
            let given = pem is Some && pem->0.len() > 0;
            &&& named && read is Ok ==> key == Ok::<Option<Seq<char>>, Seq<Seq<char>>>(
                Some(read->Ok_0),
            )
            &&& named && read is Err ==> key is Err && key->Err_0.len() == read->Err_0.len() + 1
                && key->Err_0.drop_first() == read->Err_0 && has_text(key->Err_0[0], path->0)
            &&& !named && given ==> key == Ok::<Option<Seq<char>>, Seq<Seq<char>>>(pem)
            &&& !named && !given ==> key == Ok::<Option<Seq<char>>, Seq<Seq<char>>>(None)
        }),
{
    if path is Some && path->0.len() > 0 && read is Err {
        let a = "failed to read the signing key at "@;
        let c = " (from ROCM_CLI_SIGNING_PUBLIC_KEY_PATH)"@;
        lemma_has_text(a, path->0, c);
        assert(signing_key(pem, path, read)->Err_0.drop_first() =~= read->Err_0);
    }
}

/// An alternative key goes over as one literal value, and with it an empty path, which
/// would otherwise win over the key.
pub proof fn law_a_key_goes_over_whole(pem: Seq<char>)
    ensures
        ({
            let sent = key_fragment(pem);
            let lead = "ROCM_CLI_SIGNING_PUBLIC_KEY_PEM="@;
            let tail = " ROCM_CLI_SIGNING_PUBLIC_KEY_PATH= "@;
            &&& occurs_at(sent, lead, 0)
            &&& ends_with(sent, tail)
            &&& word_value(
                sent.subrange(lead.len() as int, sent.len() - tail.len()),
            ) == Some(pem)
        }),
{
    let sent = key_fragment(pem);
    let lead = "ROCM_CLI_SIGNING_PUBLIC_KEY_PEM="@;
    let tail = " ROCM_CLI_SIGNING_PUBLIC_KEY_PATH= "@;
    assert(sent.subrange(0, lead.len() as int) =~= lead);
    assert(sent.subrange(sent.len() - tail.len(), sent.len() as int) =~= tail);
    assert(sent.subrange(lead.len() as int, sent.len() - tail.len()) =~= quoted(pem));
    crate::remote::shell::law_a_quoted_value_is_one_literal_word(pem);
}

/// The file that was fetched is the one of the last line that tells of one, by its name
/// without any folder; where no line does, or the last that does names none, there is
/// none.
pub proof fn law_the_last_file_told_of_is_the_one(report: Seq<Seq<char>>, k: int)
    requires
        0 <= k <= report.len(),
        k > 0 ==> occurs_at(trimmed(report[k - 1]), "downloaded:"@, 0),
        forall|i: int| k <= i < report.len() ==> !occurs_at(
            trimmed(#[trigger] report[i]),
            "downloaded:"@,
            0,
        ),
    ensures
        k == 0 ==> asset_in(report) is None,
        k > 0 ==> ({
            let line = trimmed(report[k - 1]);
            let path = trimmed(line.subrange("downloaded:"@.len() as int, line.len() as int));
            match asset_in(report) {
                Some(name) => name.len() > 0 && !name.contains('/') && ends_with(path, name) && (
                path.len() == name.len() || path[path.len() - name.len() - 1] == '/'),
                None => path.len() == 0 || path.last() == '/',
            }
        }),
    decreases report.len(),
{
    if report.len() > 0 && k < report.len() {
        assert(!occurs_at(trimmed(report[report.len() - 1]), "downloaded:"@, 0));
        law_the_last_file_told_of_is_the_one(report.drop_last(), k);
    } else if report.len() > 0 {
        let line = trimmed(report.last());
        let mark = "downloaded:"@;
        let path = trimmed(line.subrange(mark.len() as int, line.len() as int));
        let at = lemma_after_last(path, '/');
        let name = after_last(path, '/');
        assert(path.subrange(path.len() - name.len(), path.len() as int) =~= name);
        if name.contains('/') {
            let i = choose|i: int| 0 <= i < name.len() && name[i] == '/';
            assert(path[at + i] == '/');
        }
    }
}

/// The machine is asked to install the tool itself, from the channel. It is installed
/// exactly where that succeeded and the tool then answered, at the place it is put. Only
/// where the machine could not do it is a build to be fetched, for its platform and with
/// what the machine said; where the platform is not known, that is a failure.
pub proof fn law_a_machine_is_first_asked_to_install_the_tool_itself(
    h: Seq<Exchange>,
    at: int,
    target: Seq<char>,
    platform: Option<PlatformView>,
    channel: Seq<char>,
)
    ensures
        ({
            let talk = install_cli_talk(h, at, target, platform, channel);
            let first = reply_at(h, at);
            let second = reply_at(h, at + 1);
            let done = first is Ok && first->Ok_0.success;
            let runs = second is Ok && second->Ok_0.success;
            &&& talk.fits ==> asks(h, at, installer_line(channel))
            &&& talk.end == if done {
                at + 2
            } else {
                at + 1
            }
            &&& done && talk.fits ==> asks(h, at + 1, "$HOME/.local/bin/rocm --version"@)
            &&& done && runs ==> talk.value.result == Ok::<CliStepView, Seq<Seq<char>>>(
                CliStepView::Installed {
                    cli: "$HOME/.local/bin/rocm"@,
                    how: ProvisionedView::RemoteInstaller,
                },
            )
            &&& done && !runs ==> talk.value.result is Err
            &&& !done && platform is None ==> talk.value.result is Err
            &&& !done && platform is Some ==> (talk.value.result matches Ok(
                CliStepView::Fetch { platform: p, remote_error },
            ) && p == platform->0 && (first is Ok ==> remote_error == trimmed(
                first->Ok_0.stderr,
            )) && (first is Err && first->Err_0.len() > 0 ==> remote_error == first->Err_0[0]))
        }),
{
    reveal_strlit("$HOME/.local/bin/rocm");
    reveal_strlit(" --version");
    reveal_strlit("$HOME/.local/bin/rocm --version");
    assert(version_line(REMOTE_CLI_PATH@) =~= "$HOME/.local/bin/rocm --version"@);
}

/// What was fetched is pushed into one folder that is made first: each file that is
/// there under its own name, in turn the build, its checksum and its signature, then the
/// installer, which is run last, once everything arrived. The whole succeeds exactly
/// where every one of these steps did.
pub proof fn law_what_was_fetched_is_pushed_and_installed(
    h: Seq<Exchange>,
    at: int,
    f: Fetched,
    channel: Seq<char>,
)
    ensures
        ({
            let talk = push_talk(h, at, f, channel);
            let folder = "$HOME/.rocm/provision/"@;
            let one = |present: bool|
                if present {
                    1int
                } else {
                    0int
                };
            let build = at + 1;
            let checksum = build + one(f.archive.present);
            let signature = checksum + one(f.checksum.present);
            let installer = signature + one(f.signature.present);
            let made = reply_at(h, at) is Ok && reply_at(h, at)->Ok_0.success;
            let last = reply_at(h, installer + 1);
            let fragment = match f.signing {
                Ok(Some(s)) => s@,
                _ => seq![],
            };
            &&& talk.value is Ok <==> made && (f.archive.present ==> pushed_at(h, build) is Ok) && (
            f.checksum.present ==> pushed_at(h, checksum) is Ok) && (f.signature.present
                ==> pushed_at(h, signature) is Ok) && pushed_at(h, installer) is Ok
                && f.signing is Ok && last is Ok && last->Ok_0.success
            &&& talk.fits ==> asks(h, at, "mkdir -p $HOME/.rocm/provision"@)
            &&& talk.value is Ok ==> talk.end == installer + 2
            &&& talk.value is Ok && talk.fits ==> {
                &&& f.archive.present ==> pushes(h, build, f.archive.local@, folder + f.asset@)
                &&& f.checksum.present ==> pushes(
                    h,
                    checksum,
                    f.checksum.local@,
                    folder + (f.asset@ + ".sha256"@),
                )
                &&& f.signature.present ==> pushes(
                    h,
                    signature,
                    f.signature.local@,
                    folder + (f.asset@ + ".sig"@),
                )
                &&& pushes(h, installer, f.installer@, folder + "install.sh"@)
                &&& asks(h, installer + 1, pushed_install_line(fragment, f.asset@, channel))
            }
        }),
{
    reveal_strlit("$HOME/.rocm/provision");
    reveal_strlit("$HOME/.rocm/provision/");
    reveal_strlit("/");
    reveal_strlit("mkdir -p ");
    reveal_strlit("mkdir -p $HOME/.rocm/provision");
    let folder = "$HOME/.rocm/provision/"@;
    assert("mkdir -p "@ + REMOTE_STAGING@ =~= "mkdir -p $HOME/.rocm/provision"@);
    assert(staged(f.asset@) =~= folder + f.asset@);
    assert(staged(f.asset@ + ".sha256"@) =~= folder + (f.asset@ + ".sha256"@));
    assert(staged(f.asset@ + ".sig"@) =~= folder + (f.asset@ + ".sig"@));
    assert(staged("install.sh"@) =~= folder + "install.sh"@);
}

/// A fetched build is installed exactly where it was fetched and pushed, and the tool
/// then answered; it is told which build. Where it could not be fetched or pushed, the
/// failure still tells the machine and what the machine said in the first place.
pub proof fn law_a_fetched_build_is_installed_or_both_failures_are_told(
    h: Seq<Exchange>,
    at: int,
    target: Seq<char>,
    platform: PlatformView,
    remote_error: Seq<char>,
    fetched: Result<Fetched, Failure>,
    channel: Seq<char>,
)
    ensures
        ({
            let talk = finish_cli_talk(
                h,
                at,
                target,
                platform,
                remote_error,
                fetched,
                channel,
            );
            let result = talk.value.result;
            let pushed = push_talk(h, at, fetched->Ok_0, channel);
            let arrived = fetched is Ok && pushed.value is Ok;
            let answer = reply_at(h, pushed.end);
            let runs = answer is Ok && answer->Ok_0.success;
            &&& result is Ok <==> arrived && runs
            &&& result is Ok ==> result == Ok::<CliStepView, Seq<Seq<char>>>(
                CliStepView::Installed {
                    cli: "$HOME/.local/bin/rocm"@,
                    how: ProvisionedView::PushedMatchedArtifact(fetched->Ok_0.asset@),
                },
            ) && talk.value.lines.len() == 1 && has_text(
                talk.value.lines[0],
                platform.os + "-"@ + platform.arch,
            )
            &&& arrived && talk.fits ==> asks(h, pushed.end, "$HOME/.local/bin/rocm --version"@)
            &&& fetched is Err ==> talk.end == at
            &&& !arrived ==> has_text(result->Err_0[0], target) && has_text(
                result->Err_0[0],
                remote_error,
            ) && result->Err_0.drop_first() == if fetched is Err {
                fetched->Err_0@
            } else {
                pushed.value->Err_0
            }
        }),
{
    reveal_strlit("$HOME/.local/bin/rocm");
    reveal_strlit(" --version");
    reveal_strlit("$HOME/.local/bin/rocm --version");
    assert(version_line(REMOTE_CLI_PATH@) =~= "$HOME/.local/bin/rocm --version"@);
    let talk = finish_cli_talk(h, at, target, platform, remote_error, fetched, channel);
    let none: Seq<char> = seq![];
    let b = " could not install the CLI itself ("@;
    let d = "), and fetching a matching build for it failed too"@;
    let all = both_failed(target, remote_error);
    assert(all =~= none + target + (b + remote_error + d));
    lemma_has_text(none, target, b + remote_error + d);
    lemma_has_text(target + b, remote_error, d);
    let built = platform.os + "-"@ + platform.arch;
    let lead = "  remote CLI: installed from a build matching "@;
    assert(lead + platform.os + "-"@ + platform.arch =~= lead + built + none);
    lemma_has_text(lead, built, none);
    if talk.value.result is Err {
        let e = talk.value.result->Err_0;
        if fetched is Err {
            assert(e.drop_first() =~= fetched->Err_0@);
        } else if push_talk(h, at, fetched->Ok_0, channel).value is Err {
            assert(e.drop_first() =~= push_talk(h, at, fetched->Ok_0, channel).value->Err_0);
        }
    }
}

/// A tool that was installed counts exactly where it then answered; one that does not run
/// is told by the machine, with what it complained of. What the machine says when it could
/// not install the tool is kept as it is.
pub proof fn law_a_tool_counts_where_it_runs(target: Seq<char>, reply: Reply)
    ensures
        ({
            let done = reply is Ok && reply->Ok_0.success;
            let checked = verified(target, reply);
            let installed = installer_result(reply);
            &&& checked is Ok <==> done
            &&& installed is Ok <==> done
            &&& reply is Err ==> checked->Err_0 == reply->Err_0 && installed->Err_0
                == reply->Err_0
            &&& reply is Ok && !done ==> checked->Err_0.len() == 1 && installed->Err_0 == seq![
                trimmed(reply->Ok_0.stderr),
            ] && has_text(checked->Err_0[0], "installed on "@ + target + " but does not run"@)
                && has_text(checked->Err_0[0], ": "@ + trimmed(reply->Ok_0.stderr) + "\n"@)
        }),
{
    let checked = verified(target, reply);
    if reply is Ok && !reply->Ok_0.success {
        assert(has_text(checked->Err_0[0], "installed on "@ + target + " but does not run"@)
            && has_text(checked->Err_0[0], ": "@ + trimmed(reply->Ok_0.stderr) + "\n"@)) by {
            let s0 = "the CLI was installed on "@;
            let s1 = target;
            let s2 = " but does not run there: "@;
            let s3 = trimmed(reply->Ok_0.stderr);
            let s4 = "\nThis usually means the build does not match the machine's OS or CPU."@;
            let x1 = s0 + s1;
            let x2 = x1 + s2;
            let x3 = x2 + s3;
            let x4 = x3 + s4;
            assert(checked->Err_0[0] == x4);
            let part = "installed on "@ + s1 + " but does not run"@;
            assert(has_text(x4, part)) by {
                let h = s0.subrange(0, 12);
                assert(s0 =~= h + "installed on "@) by {
                    reveal_strlit("the CLI was installed on ");
                    reveal_strlit("installed on ");
                }
                let r = s2.subrange(17, s2.len() as int);
                assert(s2 =~= " but does not run"@ + r) by {
                    reveal_strlit(" but does not run there: ");
                    reveal_strlit(" but does not run");
                }
                assert(x2 =~= h + part + r);
                lemma_has_text(h, part, r);
                lemma_goes_on(x2, s3, part);
                lemma_goes_on(x3, s4, part);
            }
            let part = ": "@ + s3 + "\n"@;
            assert(has_text(x4, part)) by {
                let h = s2.subrange(0, 23);
                assert(s2 =~= h + ": "@) by {
                    reveal_strlit(" but does not run there: ");
                    reveal_strlit(": ");
                }
                let r = s4.subrange(1, s4.len() as int);
                assert(s4 =~= "\n"@ + r) by {
                    reveal_strlit(
                        "\nThis usually means the build does not match the machine's OS or CPU.",
                    );
                    reveal_strlit("\n");
                }
                assert(x4 =~= (x1 + h) + part + r);
                lemma_has_text(x1 + h, part, r);
            }
        }
    }
}

/// A file that could not be copied is named.
pub proof fn law_a_file_not_copied_is_named(name: Seq<char>)
    ensures
        has_text(copy_fault(name), "copy "@ + name + " to the remote"@),
{
    let s0 = "failed to copy "@;
    let s1 = name;
    let s2 = " to the remote"@;
    let x1 = s0 + s1;
    let x2 = x1 + s2;
    assert(copy_fault(name) == x2);
    let part = "copy "@ + s1 + s2;
    assert(has_text(x2, part)) by {
        let h = s0.subrange(0, 10);
        assert(s0 =~= h + "copy "@) by {
            reveal_strlit("failed to copy ");
            reveal_strlit("copy ");
        }
        assert(x2 =~= h + part + Seq::<char>::empty());
        lemma_has_text(h, part, Seq::<char>::empty());
    }
}

} // verus!
