//! The control channel to a remote machine.
//!
//! A channel can do two things: run a command and read its output, and copy a
//! file over. [`Channel`] is those two and nothing else, and promises nothing of
//! the replies. A [`Transport`] does the same and has a history: what was asked of
//! it and what came back, in order. [`Recorded`] makes a transport of any channel:
//! each exchange of its history is one that the channel had.
//! The contracts of the flows built on a transport say which commands they send
//! and what they return, whatever the replies are.

use vstd::prelude::*;
use crate::failure::{plain, told, told_text, within, Failure};
use crate::text::{
    after_last, dec, ends_with, has_text, last_part, law_trimming_takes_white_space_alone,
    lemma_after_last_split, lemma_has_text, number, occurs_at, opt_text, opt_view, signed_dec,
    signed_number, starts_with, texts, trim, trimmed, whitespace,
};

verus! {

/// What a command did on the remote machine.
///
/// A command that ran and failed is an outcome. A machine that could not be
/// reached is a [`Failure`].
#[derive(Debug)]
pub struct RemoteOutcome {
    pub success: bool,
    pub code: Option<i32>,
    pub stdout: String,
    pub stderr: String,
}

pub struct OutcomeView {
    pub success: bool,
    pub code: Option<i32>,
    pub stdout: Seq<char>,
    pub stderr: Seq<char>,
}

impl View for RemoteOutcome {
    type V = OutcomeView;

    open spec fn view(&self) -> OutcomeView {
        OutcomeView {
            success: self.success,
            code: self.code,
            stdout: self.stdout@,
            stderr: self.stderr@,
        }
    }
}

/// An exit status, or `signal` for a command that was killed.
pub open spec fn exit_label_of(code: Option<i32>) -> Seq<char> {
    match code {
        Some(c) => signed_dec(c as int),
        None => "signal"@,
    }
}

impl RemoteOutcome {
    pub fn exit_label(&self) -> (r: String)
        ensures
            r@ == exit_label_of(self.code),
    {
        match self.code {
            Some(code) => signed_number(code),
            None => "signal".to_owned(),
        }
    }
}

impl Clone for RemoteOutcome {
    fn clone(&self) -> (r: RemoteOutcome)
        ensures
            r@ == self@,
    {
        RemoteOutcome {
            success: self.success,
            code: self.code,
            stdout: self.stdout.clone(),
            stderr: self.stderr.clone(),
        }
    }
}

pub type Reply = Result<OutcomeView, Seq<Seq<char>>>;

pub open spec fn reply_of(r: Result<RemoteOutcome, Failure>) -> Reply {
    match r {
        Ok(outcome) => Ok(outcome@),
        Err(e) => Err(e@),
    }
}

/// One thing asked of a channel, and what came back.
pub enum Exchange {
    Exec { command: Seq<char>, stdin: Option<Seq<char>>, reply: Reply },
    Push { local: Seq<char>, remote: Seq<char>, copied: Result<(), Seq<Seq<char>>> },
}

/// What running `command` for its output comes to, given the reply.
pub open spec fn run_result(command: Seq<char>, reply: Reply) -> Result<Seq<char>, Seq<Seq<char>>> {
    match reply {
        Err(e) => Err(e),
        Ok(outcome) => if outcome.success {
            Ok(outcome.stdout)
        } else {
            Err(
                plain(
                    "remote command failed (exit "@ + exit_label_of(outcome.code) + "): "@
                        + trimmed(outcome.stderr) + "\n  command: "@ + command,
                ),
            )
        },
    }
}

/// A way to reach a remote machine that remembers what was said.
pub trait Transport: Sized {
    /// Everything asked so far, with its reply.
    spec fn history(&self) -> Seq<Exchange>;

    /// Runs `command` on the remote machine, feeding it `stdin` where there is
    /// one. A secret goes in this way: both machines show the arguments of a
    /// command to their other users.
    fn exec_with_stdin(&mut self, command: &str, stdin: Option<&str>) -> (r: Result<
        RemoteOutcome,
        Failure,
    >)
        ensures
            final(self).history() == old(self).history().push(
                Exchange::Exec { command: command@, stdin: opt_text(stdin), reply: reply_of(r) },
            ),
    ;

    /// Copies a local file to `remote_path`.
    fn push_file(&mut self, local_path: &str, remote_path: &str) -> (r: Result<(), Failure>)
        ensures
            final(self).history() == old(self).history().push(
                Exchange::Push { local: local_path@, remote: remote_path@, copied: told(r) },
            ),
    ;

    /// Runs `command` with nothing on its standard input.
    fn exec(&mut self, command: &str) -> (r: Result<RemoteOutcome, Failure>)
        ensures
            final(self).history() == old(self).history().push(
                Exchange::Exec { command: command@, stdin: None, reply: reply_of(r) },
            ),
    {
        self.exec_with_stdin(command, None)
    }

    /// Runs `command` and returns what it printed, failing where it failed.
    fn run(&mut self, command: &str) -> (r: Result<String, Failure>)
        ensures
            final(self).history().len() == old(self).history().len() + 1,
            final(self).history().drop_last() == old(self).history(),
            asks(final(self).history(), old(self).history().len() as int, command@),
            told_text(r) == run_result(
                command@,
                reply_at(final(self).history(), old(self).history().len() as int),
            ),
    {
        let ghost before = self.history();
        let reply = self.exec(command);
        assert(self.history().drop_last() =~= before);
        match reply {
            Err(e) => Err(e),
            Ok(outcome) => {
                if outcome.success {
                    Ok(outcome.stdout)
                } else {
                    let mut message = "remote command failed (exit ".to_owned();
                    message.push_str(outcome.exit_label().as_str());
                    message.push_str("): ");
                    message.push_str(trim(outcome.stderr.as_str()).as_str());
                    message.push_str("\n  command: ");
                    message.push_str(command);
                    Err(Failure::new(message))
                }
            },
        }
    }
}

/// The exit status that `ssh` keeps for its own failures.
pub const SSH_FAILED: i32 = 255;

/// What a run of `ssh` comes to, given whether its input could be handed over and
/// how it ended. A machine that `ssh` could not reach is a failure, not an outcome;
/// a command that itself ends with the status that `ssh` keeps cannot be told from it.
/// Input that could not be handed over is a failure too, unless the command failed:
/// then that is why.
pub open spec fn ssh_reply_of(
    destination: Seq<char>,
    sent: Result<(), Seq<Seq<char>>>,
    ended: OutcomeView,
) -> Reply {
    if !ended.success && ended.code == Some(SSH_FAILED) {
        Err(plain("could not reach "@ + destination + ": "@ + trimmed(ended.stderr)))
    } else {
        match sent {
            Err(e) if ended.success => Err(
                within("failed to send input to "@ + destination, e),
            ),
            _ => Ok(ended),
        }
    }
}

pub fn ssh_reply(destination: &str, sent: Result<(), Failure>, ended: RemoteOutcome) -> (r: Result<
    RemoteOutcome,
    Failure,
>)
    ensures
        reply_of(r) == ssh_reply_of(destination@, told(sent), ended@),
{
    let unreached = match ended.code {
        Some(code) => !ended.success && code == SSH_FAILED,
        None => false,
    };
    if unreached {
        let mut message = "could not reach ".to_owned();
        message.push_str(destination);
        message.push_str(": ");
        message.push_str(trim(ended.stderr.as_str()).as_str());
        return Err(Failure::new(message));
    }
    if ended.success {
        if let Err(e) = sent {
            let mut message = "failed to send input to ".to_owned();
            message.push_str(destination);
            return Err(e.context(message));
        }
    }
    Ok(ended)
}

/// A way to reach a remote machine, whatever the machine answers.
pub trait Channel: Sized {
    /// Whether a channel that is `before` can have this exchange and then be
    /// `after`. A channel that says nothing of this promises nothing.
    open spec fn step(before: Self, said: Exchange, after: Self) -> bool {
        true
    }

    /// Runs `command` there, feeding it `stdin` where there is one.
    fn send(&mut self, command: &str, stdin: Option<&str>) -> (r: Result<RemoteOutcome, Failure>)
        ensures
            Self::step(
                *old(self),
                Exchange::Exec { command: command@, stdin: opt_text(stdin), reply: reply_of(r) },
                *final(self),
            ),
    ;

    /// Copies a local file to `remote_path` there.
    fn copy(&mut self, local_path: &str, remote_path: &str) -> (r: Result<(), Failure>)
        ensures
            Self::step(
                *old(self),
                Exchange::Push { local: local_path@, remote: remote_path@, copied: told(r) },
                *final(self),
            ),
    ;
}

/// A transport over a channel: every call goes to the channel as it is, once, and
/// its reply comes back as it is.
pub struct Recorded<C> {
    channel: C,
    log: Ghost<Seq<Exchange>>,
}

impl<C: Channel> Recorded<C> {
    /// The channel as it is now.
    pub closed spec fn channel(&self) -> C {
        self.channel
    }

    pub fn new(channel: C) -> (r: Recorded<C>)
        ensures
            r.history() == Seq::<Exchange>::empty(),
            r.channel() == channel,
    {
        Recorded { channel, log: Ghost(Seq::empty()) }
    }

    /// Gives the channel back.
    pub fn into_channel(self) -> (r: C)
        ensures
            r == self.channel(),
    {
        self.channel
    }
}

impl<C: Channel> Transport for Recorded<C> {
    closed spec fn history(&self) -> Seq<Exchange> {
        self.log@
    }

    fn exec_with_stdin(&mut self, command: &str, stdin: Option<&str>) -> (r: Result<
        RemoteOutcome,
        Failure,
    >)
        ensures
            C::step(
                old(self).channel(),
                Exchange::Exec { command: command@, stdin: opt_text(stdin), reply: reply_of(r) },
                final(self).channel(),
            ),
    {
        let reply = self.channel.send(command, stdin);
        self.log = Ghost(
            self.log@.push(
                Exchange::Exec { command: command@, stdin: opt_text(stdin), reply: reply_of(reply) },
            ),
        );
        reply
    }

    fn push_file(&mut self, local_path: &str, remote_path: &str) -> (r: Result<(), Failure>)
        ensures
            C::step(
                old(self).channel(),
                Exchange::Push { local: local_path@, remote: remote_path@, copied: told(r) },
                final(self).channel(),
            ),
    {
        let copied = self.channel.copy(local_path, remote_path);
        self.log = Ghost(
            self.log@.push(
                Exchange::Push { local: local_path@, remote: remote_path@, copied: told(copied) },
            ),
        );
        copied
    }
}

// ---------------------------------------------------------------------------
// Conversations
// ---------------------------------------------------------------------------

/// Whether the exchange at `at` is a run of `command` with no input.
pub open spec fn asks(h: Seq<Exchange>, at: int, command: Seq<char>) -> bool {
    &&& 0 <= at < h.len()
    &&& h[at] matches Exchange::Exec { command: c, stdin, .. }
    &&& c == command
    &&& stdin is None
}

/// Whether the exchange at `at` is a run of `command` with `input` fed to it.
pub open spec fn feeds(h: Seq<Exchange>, at: int, command: Seq<char>, input: Seq<char>) -> bool {
    &&& 0 <= at < h.len()
    &&& h[at] matches Exchange::Exec { command: c, stdin, .. }
    &&& c == command
    &&& stdin == Some(input)
}

/// Whether the exchange at `at` is a copy of `local` to `remote`.
pub open spec fn pushes(h: Seq<Exchange>, at: int, local: Seq<char>, remote: Seq<char>) -> bool {
    &&& 0 <= at < h.len()
    &&& h[at] matches Exchange::Push { local: l, remote: r, .. }
    &&& l == local
    &&& r == remote
}

pub open spec fn reply_at(h: Seq<Exchange>, at: int) -> Reply {
    h[at]->reply
}

pub open spec fn pushed_at(h: Seq<Exchange>, at: int) -> Result<(), Seq<Seq<char>>> {
    h[at]->copied
}

/// A conversation as a history tells it: whether the history has the commands
/// the conversation sends, where it ends, and what it comes to.
pub struct Talk<T> {
    pub fits: bool,
    pub end: int,
    pub value: T,
}

/// Whether `g` goes on from `h`.
pub open spec fn goes_on(h: Seq<Exchange>, g: Seq<Exchange>) -> bool {
    h.len() <= g.len() && forall|i: int| 0 <= i < h.len() ==> g[i] == h[i]
}

/// Whether the history went on from `before` to `after` by exactly this talk.
pub open spec fn held<T>(before: Seq<Exchange>, after: Seq<Exchange>, talk: Talk<T>) -> bool {
    goes_on(before, after) && talk.fits && talk.end == after.len()
}

// ---------------------------------------------------------------------------
// ssh
// ---------------------------------------------------------------------------

/// The options that let commands share one connection: all of them, or none
/// where there is no socket to share.
pub open spec fn multiplexing(control_path: Option<Seq<char>>) -> Seq<Seq<char>> {
    match control_path {
        None => seq![],
        Some(path) => seq![
            "-o"@,
            "ControlMaster=auto"@,
            "-o"@,
            "ControlPath="@ + path,
            "-o"@,
            "ControlPersist=60s"@,
        ],
    }
}

fn add_arg(args: &mut Vec<String>, arg: &str)
    ensures
        texts(final(args)@) == texts(old(args)@).push(arg@),
{
    args.push(arg.to_owned());
    assert(texts(args@) =~= texts(old(args)@).push(arg@));
}

fn add_args(args: &mut Vec<String>, more: Vec<String>)
    ensures
        texts(final(args)@) == texts(old(args)@) + texts(more@),
{
    let mut more = more;
    let ghost tail = more@;
    args.append(&mut more);
    assert(texts(args@) =~= texts(old(args)@) + texts(tail));
}

pub fn multiplex_args(control_path: Option<&str>) -> (r: Vec<String>)
    ensures
        texts(r@) == multiplexing(opt_text(control_path)),
{
    let mut args: Vec<String> = Vec::new();
    if let Some(path) = control_path {
        add_arg(&mut args, "-o");
        add_arg(&mut args, "ControlMaster=auto");
        add_arg(&mut args, "-o");
        let mut option = "ControlPath=".to_owned();
        option.push_str(path);
        add_arg(&mut args, option.as_str());
        add_arg(&mut args, "-o");
        add_arg(&mut args, "ControlPersist=60s");
    }
    assert(texts(args@) =~= multiplexing(opt_text(control_path)));
    args
}

/// Bytes a connection's hash takes in a socket path.
pub const CONNECTION_HASH_BYTES: usize = 40;

/// Bytes from which on a socket path is taken to be too long.
pub const SOCKET_PATH_LIMIT: usize = 100;

/// The socket path, unless it is too long once the hash stands in it.
pub open spec fn usable_socket(candidate: Seq<char>) -> Option<Seq<char>> {
    if vstd::utf8::encode_utf8(candidate).len() + CONNECTION_HASH_BYTES < SOCKET_PATH_LIMIT {
        Some(candidate)
    } else {
        None
    }
}

pub fn control_socket_path(candidate: &str) -> (r: Option<String>)
    ensures
        opt_view(r) == usable_socket(candidate@),
{
    if candidate.as_bytes().len() < SOCKET_PATH_LIMIT - CONNECTION_HASH_BYTES {
        Some(candidate.to_owned())
    } else {
        None
    }
}

/// `-F` and the configuration file, where one that is not blank was named.
pub open spec fn config_options(config: Option<Seq<char>>) -> Seq<Seq<char>> {
    match config {
        Some(path) => if trimmed(path).len() > 0 {
            seq!["-F"@, path]
        } else {
            seq![]
        },
        None => seq![],
    }
}

pub fn config_args(config: Option<&str>) -> (r: Vec<String>)
    ensures
        texts(r@) == config_options(opt_text(config)),
{
    let mut args: Vec<String> = Vec::new();
    if let Some(path) = config {
        if !trim(path).as_str().is_empty() {
            add_arg(&mut args, "-F");
            add_arg(&mut args, path);
        }
    }
    assert(texts(args@) =~= config_options(opt_text(config)));
    args
}

/// What is wrong with a destination, if anything: it names no machine, or it
/// or its host part begins with a hyphen, which ssh would read as an option.
pub open spec fn destination_fault(destination: Seq<char>) -> Option<Seq<char>> {
    if trimmed(destination).len() == 0 {
        Some("a remote machine must be named"@)
    } else if occurs_at(destination, "-"@, 0) || occurs_at(after_last(destination, '@'), "-"@, 0) {
        Some(
            "`"@ + destination
                + "` is not a usable machine name: a name starting with `-` would be              read as an option by ssh rather than as a host"@,
        )
    } else {
        None
    }
}

pub fn validate_destination(destination: &str) -> (r: Result<(), Failure>)
    ensures
        told(r) == (match destination_fault(destination@) {
            Some(fault) => Err::<(), Seq<Seq<char>>>(plain(fault)),
            None => Ok(()),
        }),
{
    if trim(destination).as_str().is_empty() {
        return Err(Failure::new("a remote machine must be named".to_owned()));
    }
    let host = last_part(destination, '@');
    if starts_with(destination, "-") || starts_with(host.as_str(), "-") {
        let mut message = "`".to_owned();
        message.push_str(destination);
        message.push_str(
            "` is not a usable machine name: a name starting with `-` would be              read as an option by ssh rather than as a host",
        );
        return Err(Failure::new(message));
    }
    Ok(())
}

/// A channel over the system's `ssh` and `scp`, as far as their arguments go.
#[derive(Debug)]
pub struct SshTransport {
    destination: String,
    port: Option<u16>,
    config: Option<String>,
}

pub struct SshView {
    pub destination: Seq<char>,
    pub port: Option<u16>,
    pub config: Option<Seq<char>>,
}

impl View for SshTransport {
    type V = SshView;

    closed spec fn view(&self) -> SshView {
        SshView {
            destination: self.destination@,
            port: self.port,
            config: opt_view(self.config),
        }
    }
}

pub open spec fn batch_options() -> Seq<Seq<char>> {
    seq!["-o"@, "BatchMode=yes"@, "-o"@, "ConnectTimeout=10"@]
}

pub open spec fn port_option(flag: Seq<char>, port: Option<u16>) -> Seq<Seq<char>> {
    match port {
        Some(p) => seq![flag, dec(p as nat)],
        None => seq![],
    }
}

/// The options every ssh invocation carries.
pub open spec fn base_options(t: SshView, control_path: Option<Seq<char>>) -> Seq<Seq<char>> {
    config_options(t.config) + batch_options() + multiplexing(control_path) + port_option(
        "-p"@,
        t.port,
    )
}

/// The arguments for running `command`: what follows `--` is never read as an
/// option.
pub open spec fn exec_arguments(
    t: SshView,
    command: Seq<char>,
    control_path: Option<Seq<char>>,
) -> Seq<Seq<char>> {
    base_options(t, control_path) + seq![t.destination, "--"@, command]
}

/// The arguments for copying a file; scp spells the port with a capital.
pub open spec fn scp_arguments(t: SshView, local: Seq<char>, remote: Seq<char>) -> Seq<Seq<char>> {
    config_options(t.config) + batch_options() + port_option("-P"@, t.port) + seq![
        local,
        t.destination + ":"@ + remote,
    ]
}

fn add_batch(args: &mut Vec<String>)
    ensures
        texts(final(args)@) == texts(old(args)@) + batch_options(),
{
    let ghost before = texts(args@);
    add_arg(args, "-o");
    add_arg(args, "BatchMode=yes");
    add_arg(args, "-o");
    add_arg(args, "ConnectTimeout=10");
    assert(texts(args@) =~= before + batch_options());
}

fn add_port(args: &mut Vec<String>, flag: &str, port: Option<u16>)
    ensures
        texts(final(args)@) == texts(old(args)@) + port_option(flag@, port),
{
    let ghost before = texts(args@);
    if let Some(p) = port {
        add_arg(args, flag);
        add_arg(args, number(p as u128).as_str());
    }
    assert(texts(args@) =~= before + port_option(flag@, port));
}

impl SshTransport {
    /// A channel to `destination`. Port 0 counts as none.
    pub fn new(destination: &str, port: Option<u16>) -> (r: Result<SshTransport, Failure>)
        ensures
            match r {
                Ok(t) => destination_fault(destination@) is None && t@ == (SshView {
                    destination: destination@,
                    port: if port == Some(0u16) {
                        None
                    } else {
                        port
                    },
                    config: None,
                }),
                Err(e) => destination_fault(destination@) is Some && e@ == plain(
                    destination_fault(destination@)->0,
                ),
            },
    {
        match validate_destination(destination) {
            Err(e) => Err(e),
            Ok(_) => {
                let port = match port {
                    Some(p) => if p == 0 {
                        None
                    } else {
                        Some(p)
                    },
                    None => None,
                };
                Ok(SshTransport { destination: destination.to_owned(), port, config: None })
            },
        }
    }

    /// The same channel, reading its ssh configuration from `config`.
    pub fn with_config(self, config: Option<String>) -> (r: SshTransport)
        ensures
            r@ == (SshView { config: opt_view(config), ..self@ }),
    {
        SshTransport { destination: self.destination, port: self.port, config }
    }

    pub fn destination(&self) -> (r: &str)
        ensures
            r@ == self@.destination,
    {
        self.destination.as_str()
    }

    fn config_text(&self) -> (r: Option<&str>)
        ensures
            opt_text(r) == self@.config,
    {
        match &self.config {
            Some(c) => Some(c.as_str()),
            None => None,
        }
    }

    pub fn base_ssh_args(&self, control_path: Option<&str>) -> (r: Vec<String>)
        ensures
            texts(r@) == base_options(self@, opt_text(control_path)),
    {
        let mut args = config_args(self.config_text());
        add_batch(&mut args);
        add_args(&mut args, multiplex_args(control_path));
        add_port(&mut args, "-p", self.port);
        args
    }

    pub fn exec_argv_with(&self, command: &str, control_path: Option<&str>) -> (r: Vec<String>)
        ensures
            texts(r@) == exec_arguments(self@, command@, opt_text(control_path)),
    {
        let mut args = self.base_ssh_args(control_path);
        add_arg(&mut args, self.destination.as_str());
        add_arg(&mut args, "--");
        add_arg(&mut args, command);
        assert(texts(args@) =~= exec_arguments(self@, command@, opt_text(control_path)));
        args
    }

    /// The arguments for running `command`, sharing the connection behind
    /// `candidate` where that socket path can be used.
    pub fn exec_argv(&self, command: &str, candidate: Option<&str>) -> (r: Vec<String>)
        ensures
            texts(r@) == exec_arguments(
                self@,
                command@,
                (match opt_text(candidate) {
                    Some(path) => usable_socket(path),
                    None => None,
                }),
            ),
    {
        let socket = match candidate {
            Some(path) => control_socket_path(path),
            None => None,
        };
        match &socket {
            Some(path) => self.exec_argv_with(command, Some(path.as_str())),
            None => self.exec_argv_with(command, None),
        }
    }

    pub fn scp_argv(&self, local_path: &str, remote_path: &str) -> (r: Vec<String>)
        ensures
            texts(r@) == scp_arguments(self@, local_path@, remote_path@),
    {
        let mut args = config_args(self.config_text());
        add_batch(&mut args);
        add_port(&mut args, "-P", self.port);
        add_arg(&mut args, local_path);
        let mut target = self.destination.clone();
        target.push_str(":");
        target.push_str(remote_path);
        add_arg(&mut args, target.as_str());
        assert(texts(args@) =~= scp_arguments(self@, local_path@, remote_path@));
        args
    }
}

// ---------------------------------------------------------------------------
// Laws
// ---------------------------------------------------------------------------

/// A command that is run for its output gives that exactly where it succeeded. Where it
/// ran and failed, the failure tells its status, what it complained of and the command;
/// where the machine could not be reached, the failure is that one, as it is.
pub proof fn law_a_run_gives_what_was_printed(command: Seq<char>, reply: Reply)
    ensures
        ({
            let result = run_result(command, reply);
            let done = reply is Ok && reply->Ok_0.success;
            &&& result is Ok <==> done
            &&& done ==> result->Ok_0 == reply->Ok_0.stdout
            &&& reply is Err ==> result->Err_0 == reply->Err_0
            &&& reply is Ok && !done ==> result->Err_0.len() == 1 && has_text(
                result->Err_0[0],
                "(exit "@ + exit_label_of(reply->Ok_0.code) + ")"@,
            ) && has_text(result->Err_0[0], trimmed(reply->Ok_0.stderr)) && ends_with(
                result->Err_0[0],
                "command: "@ + command,
            )
        }),
{
    if reply is Ok && !reply->Ok_0.success {
        let outcome = reply->Ok_0;
        let all = run_result(command, reply)->Err_0[0];
        let a = "remote command failed (exit "@;
        let b = exit_label_of(outcome.code);
        let d = trimmed(outcome.stderr);
        let e = "\n  command: "@;
        reveal_strlit("remote command failed (exit ");
        reveal_strlit("(exit ");
        reveal_strlit("): ");
        reveal_strlit(")");
        reveal_strlit("\n  command: ");
        reveal_strlit("command: ");
        let a0 = a.subrange(0, a.len() - 6);
        assert(a =~= a0 + "(exit "@);
        let c1 = "): "@.subrange(1, 3);
        assert("): "@ =~= ")"@ + c1);
        let status = "(exit "@ + b + ")"@;
        assert(all =~= a0 + status + (c1 + d + e + command));
        lemma_has_text(a0, status, c1 + d + e + command);
        assert(all =~= (a + b + "): "@) + d + (e + command));
        lemma_has_text(a + b + "): "@, d, e + command);
        let last = "command: "@ + command;
        assert(all.subrange(all.len() - last.len(), all.len() as int) =~= last);
    }
}

/// A status reads as the number it is, and a command that was killed reads as that.
pub proof fn law_a_status_reads_as_its_number(code: i32)
    ensures
        code >= 0 ==> exit_label_of(Some(code)) == dec(code as nat),
        code < 0 ==> exit_label_of(Some(code)) == "-"@ + dec((-code) as nat),
        exit_label_of(None) == "signal"@,
{
    reveal_strlit("-");
    assert("-"@ =~= seq!['-']);
}

/// What `ssh` did is handed on as the command's own outcome, but for two things: where
/// `ssh` says that it failed itself, the machine was not reached, and its name and the
/// complaint are told; and where the input did not arrive and the command succeeded all
/// the same, that is a failure.
pub proof fn law_an_outcome_is_told_from_an_unreached_machine(
    destination: Seq<char>,
    sent: Result<(), Seq<Seq<char>>>,
    ended: OutcomeView,
)
    ensures
        ({
            let reply = ssh_reply_of(destination, sent, ended);
            let unreached = !ended.success && ended.code == Some(255i32);
            let unfed = ended.success && sent is Err;
            &&& !unreached && !unfed ==> reply == Ok::<OutcomeView, Seq<Seq<char>>>(ended)
            &&& unreached ==> reply is Err && reply->Err_0.len() == 1 && has_text(
                reply->Err_0[0],
                destination,
            ) && ends_with(reply->Err_0[0], trimmed(ended.stderr))
            &&& unfed ==> reply is Err && ends_with(reply->Err_0[0], destination)
                && reply->Err_0.drop_first() == sent->Err_0
        }),
{
    let a = "could not reach "@;
    let b = trimmed(ended.stderr);
    lemma_has_text(a, destination, ": "@ + b);
    let all = a + destination + ": "@ + b;
    assert(all =~= a + destination + (": "@ + b));
    assert(all.subrange(all.len() - b.len(), all.len() as int) =~= b);
    let c = "failed to send input to "@ + destination;
    assert(c.subrange(c.len() - destination.len(), c.len() as int) =~= destination);
    if ended.success && sent is Err {
        assert(within(c, sent->Err_0).drop_first() =~= sent->Err_0);
    }
}

/// A destination can be used exactly where it names something, and neither it nor the
/// host behind the last `@` begins with a hyphen. One that cannot be used is repeated.
pub proof fn law_a_destination_is_no_option(destination: Seq<char>, host: int)
    requires
        0 <= host <= destination.len(),
        host > 0 ==> destination[host - 1] == '@',
        forall|i: int| host <= i < destination.len() ==> destination[i] != '@',
    ensures
        ({
            let fault = destination_fault(destination);
            let blank = forall|i: int|
                0 <= i < destination.len() ==> whitespace(#[trigger] destination[i]);
            let option = (destination.len() > 0 && destination[0] == '-') || (host
                < destination.len() && destination[host] == '-');
            &&& fault is None <==> !blank && !option
            &&& !blank && option ==> has_text(fault->0, "`"@ + destination + "`"@)
        }),
{
    reveal_strlit("-");
    law_trimming_takes_white_space_alone(destination);
    let t = trimmed(destination);
    let (from, to) = choose|from: int, to: int|
        0 <= from <= to <= destination.len() && #[trigger] destination.subrange(from, to)
            == trimmed(destination) && (forall|i: int|
            (0 <= i < from || to <= i < destination.len()) ==> whitespace(
                #[trigger] destination[i],
            ));
    if t.len() > 0 {
        assert(t[0] == destination[from]);
    }
    lemma_after_last_split(destination, '@', host);
    let name = after_last(destination, '@');
    if destination.len() > 0 {
        assert(destination.subrange(0, 1)[0] == destination[0]);
        if destination[0] == '-' {
            assert(destination.subrange(0, 1) =~= "-"@);
        }
    }
    if name.len() > 0 {
        assert(name.subrange(0, 1)[0] == destination[host]);
        if destination[host] == '-' {
            assert(name.subrange(0, 1) =~= "-"@);
        }
    }
    let tail =
        "` is not a usable machine name: a name starting with `-` would be              read as an option by ssh rather than as a host"@;
    reveal_strlit(
        "` is not a usable machine name: a name starting with `-` would be              read as an option by ssh rather than as a host",
    );
    reveal_strlit("`");
    let rest = tail.subrange(1, tail.len() as int);
    assert(tail =~= "`"@ + rest);
    let none: Seq<char> = seq![];
    let shown = "`"@ + destination + "`"@;
    assert("`"@ + destination + tail =~= none + shown + rest);
    lemma_has_text(none, shown, rest);
}

/// A command goes over as one argument, last, behind the machine's name and what ends the
/// options; before these stand only options, and each setting is among them: the
/// configuration file first, where one is named, then no prompts and no long wait, the
/// shared connection where there is a socket for it, and the port where one is given.
pub proof fn law_a_command_goes_over_behind_the_options(
    t: SshView,
    command: Seq<char>,
    control_path: Option<Seq<char>>,
)
    ensures
        ({
            let args = exec_arguments(t, command, control_path);
            let n = args.len() as int;
            let c = if t.config is Some && trimmed(t.config->0).len() > 0 {
                2int
            } else {
                0int
            };
            let m = if control_path is Some {
                6int
            } else {
                0int
            };
            let p = if t.port is Some {
                2int
            } else {
                0int
            };
            &&& n == c + 4 + m + p + 3
            &&& args[n - 1] == command && args[n - 2] == "--"@ && args[n - 3] == t.destination
            &&& c == 2 ==> args[0] == "-F"@ && args[1] == t.config->0
            &&& args[c] == "-o"@ && args[c + 1] == "BatchMode=yes"@
            &&& args[c + 2] == "-o"@ && args[c + 3] == "ConnectTimeout=10"@
            &&& m == 6 ==> args[c + 4] == "-o"@ && args[c + 5] == "ControlMaster=auto"@ && args[c
                + 6] == "-o"@ && args[c + 7] == "ControlPath="@ + control_path->0 && args[c + 8]
                == "-o"@ && args[c + 9] == "ControlPersist=60s"@
            &&& p == 2 ==> args[c + 4 + m] == "-p"@ && args[c + 4 + m + 1] == dec(t.port->0 as nat)
        }),
{
}

/// A file is copied from where it is here to where it goes there, by the same settings;
/// the port is spelled as `scp` spells it.
pub proof fn law_a_file_goes_over_by_the_same_settings(
    t: SshView,
    local: Seq<char>,
    remote: Seq<char>,
)
    ensures
        ({
            let args = scp_arguments(t, local, remote);
            let n = args.len() as int;
            let c = if t.config is Some && trimmed(t.config->0).len() > 0 {
                2int
            } else {
                0int
            };
            let p = if t.port is Some {
                2int
            } else {
                0int
            };
            &&& n == c + 4 + p + 2
            &&& args[n - 2] == local && args[n - 1] == t.destination + ":"@ + remote
            &&& c == 2 ==> args[0] == "-F"@ && args[1] == t.config->0
            &&& args[c] == "-o"@ && args[c + 1] == "BatchMode=yes"@
            &&& args[c + 2] == "-o"@ && args[c + 3] == "ConnectTimeout=10"@
            &&& p == 2 ==> args[c + 4] == "-P"@ && args[c + 5] == dec(t.port->0 as nat)
        }),
{
}

/// A socket is shared exactly where its path, with the forty bytes of the connection's
/// hash in it, is shorter than a hundred bytes, and then as it was named.
pub proof fn law_a_socket_path_has_to_be_short(candidate: Seq<char>)
    ensures
        usable_socket(candidate) is Some <==> vstd::utf8::encode_utf8(candidate).len() + 40 < 100,
        usable_socket(candidate) matches Some(path) ==> path == candidate,
{
}

} // verus!
