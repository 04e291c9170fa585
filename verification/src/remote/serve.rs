//! Serving a model on another machine.
//!
//! A serve runs in three parts, between which the caller touches its own disk:
//! the machine is got ready, the credential is claimed and the model started and
//! published, and the session is recorded. A failure in any part says what could
//! not be undone, and whether the credential still guards something.

use vstd::prelude::*;
use crate::failure::{headline_of, plain, within, Failure};
use crate::remote::bootstrap::{ensure_ready_with, ready_talk, ReadyReport, ReadyReportView};
use crate::remote::publish::{
    law_a_publish_is_settled_by_the_answers, publish, publish_line, publish_talk, status_line,
    withdraw, withdraw_talk, LOOPBACK,
};
use crate::remote::services::{
    discover_started_service, discover_talk, law_a_started_service_is_found_by_its_port, list_line,
    registry,
};
use crate::remote::session::{KeyClaim, NameOnDisk, RemoteSessionRecord, SessionView};
use crate::remote::shell::{quoted, shell_quote};
use crate::remote::transport::{
    asks, feeds, goes_on, held, reply_at, Exchange, Reply, Talk, Transport,
};
use crate::text::{
    dec, has_text, join, joined, lemma_goes_on, lemma_has_text, lemma_joined_hold,
    lemma_stands_in_what_it_stands_in, lemma_stands_within, opt_text, opt_view, push_number, texts,
    trim, trimmed,
};

verus! {

/// What to serve, and where.
#[derive(Debug)]
pub struct ServeRequest {
    pub target: String,
    pub model: String,
    pub engine: Option<String>,
    pub gpu: Option<String>,
    pub ssh_port: Option<u16>,
    pub remote_port: u16,
    pub tailnet_port: u16,
    pub channel: String,
    pub install_rocm: bool,
}

pub struct RequestView {
    pub target: Seq<char>,
    pub model: Seq<char>,
    pub engine: Option<Seq<char>>,
    pub gpu: Option<Seq<char>>,
    pub ssh_port: Option<u16>,
    pub remote_port: u16,
    pub tailnet_port: u16,
    pub channel: Seq<char>,
    pub install_rocm: bool,
}

impl View for ServeRequest {
    type V = RequestView;

    open spec fn view(&self) -> RequestView {
        RequestView {
            target: self.target@,
            model: self.model@,
            engine: opt_view(self.engine),
            gpu: opt_view(self.gpu),
            ssh_port: self.ssh_port,
            remote_port: self.remote_port,
            tailnet_port: self.tailnet_port,
            channel: self.channel@,
            install_rocm: self.install_rocm,
        }
    }
}

/// The command that starts the model. The key arrives on standard input, and
/// only a complete one lets the command go on.
pub open spec fn serve_line(remote_cli: Seq<char>, request: RequestView) -> Seq<char> {
    let base = "IFS= read -r ROCM_SERVE_API_KEY && export ROCM_SERVE_API_KEY && "@ + remote_cli
        + " serve "@ + quoted(request.model) + " --managed --require-api-key --host "@ + LOOPBACK@
        + " --port "@ + dec(request.remote_port as nat);
    let with_engine = match request.engine {
        Some(engine) => base + " --engine "@ + quoted(engine),
        None => base,
    };
    match request.gpu {
        Some(gpu) => with_engine + " --gpu "@ + quoted(gpu),
        None => with_engine,
    }
}

pub fn remote_serve_command(remote_cli: &str, request: &ServeRequest) -> (r: String)
    ensures
        r@ == serve_line(remote_cli@, request@),
{
    let mut out =
        "IFS= read -r ROCM_SERVE_API_KEY && export ROCM_SERVE_API_KEY && ".to_owned();
    out.push_str(remote_cli);
    out.push_str(" serve ");
    out.push_str(shell_quote(request.model.as_str()).as_str());
    out.push_str(" --managed --require-api-key --host ");
    out.push_str(LOOPBACK);
    out.push_str(" --port ");
    push_number(&mut out, request.remote_port as u128);
    if let Some(engine) = &request.engine {
        out.push_str(" --engine ");
        out.push_str(shell_quote(engine.as_str()).as_str());
    }
    if let Some(gpu) = &request.gpu {
        out.push_str(" --gpu ");
        out.push_str(shell_quote(gpu.as_str()).as_str());
    }
    out
}

pub open spec fn url_for(peer_host: Seq<char>, tailnet_port: u16) -> Seq<char> {
    "http://"@ + peer_host + ":"@ + dec(tailnet_port as nat) + "/v1"@
}

pub fn base_url_for(peer_host: &str, tailnet_port: u16) -> (r: String)
    ensures
        r@ == url_for(peer_host@, tailnet_port),
{
    let mut out = "http://".to_owned();
    out.push_str(peer_host);
    out.push_str(":");
    push_number(&mut out, tailnet_port as u128);
    out.push_str("/v1");
    out
}

pub open spec fn stop_line(remote_cli: Seq<char>, service_id: Seq<char>) -> Seq<char> {
    remote_cli + " services stop "@ + quoted(service_id) + " --yes"@
}

pub fn stop_command(remote_cli: &str, service_id: &str) -> (r: String)
    ensures
        r@ == stop_line(remote_cli@, service_id@),
{
    let mut out = remote_cli.to_owned();
    out.push_str(" services stop ");
    out.push_str(shell_quote(service_id).as_str());
    out.push_str(" --yes");
    out
}

// ---------------------------------------------------------------------------
// Preparing
// ---------------------------------------------------------------------------

/// Why a name that something sits under is refused, line by line. A record and a
/// credential alone need different remedies.
pub open spec fn collision_lines(
    name: NameOnDisk,
    request: RequestView,
    session_id: Seq<char>,
    key_path: Seq<char>,
) -> Option<Seq<Seq<char>>> {
    let port = dec(request.remote_port as nat);
    if name.record {
        Some(
            seq![
                "a session is already recorded for "@ + request.target + " on port "@ + port
                    + "."@,
                "Serving again here would take over its credential and could leave it running with no way to call it."@,
                stop_first(session_id),
                "Or serve on another port with `--remote-port`."@,
            ],
        )
    } else if name.key {
        Some(
            seq![
                "a credential from an earlier `rocm remote serve` on "@ + request.target + " port "@
                    + port + " is still on this machine, with no session recorded beside it."@,
                "An earlier attempt got far enough to mint a key and not far enough to record what it started, so a model may be running there untracked."@,
                "Check the machine: ssh "@ + request.target + " -- rocm services list"@,
                delete_key(key_path),
                "Or serve on another port with `--remote-port`."@,
            ],
        )
    } else {
        None
    }
}

/// The remedy where a session is recorded.
pub open spec fn stop_first(session_id: Seq<char>) -> Seq<char> {
    "Stop it first: rocm remote stop "@ + session_id
}

/// The remedy where there is a credential alone.
pub open spec fn delete_key(key_path: Seq<char>) -> Seq<char> {
    "Once you are sure nothing is using it, delete: "@ + key_path
}

pub open spec fn collision(
    name: NameOnDisk,
    request: RequestView,
    session_id: Seq<char>,
    key_path: Seq<char>,
) -> Option<Seq<char>> {
    match collision_lines(name, request, session_id, key_path) {
        Some(list) => Some(joined(list, "\n"@)),
        None => None,
    }
}

pub fn refuse_collision(
    name: NameOnDisk,
    request: &ServeRequest,
    session_id: &str,
    key_path: &str,
) -> (r: Option<String>)
    ensures
        opt_view(r) == collision(name, request@, session_id@, key_path@),
{
    if !crate::remote::session::name_taken(name) {
        return None;
    }
    let mut list: Vec<String> = Vec::new();
    if name.record {
        let mut first = "a session is already recorded for ".to_owned();
        first.push_str(request.target.as_str());
        first.push_str(" on port ");
        push_number(&mut first, request.remote_port as u128);
        first.push_str(".");
        list.push(first);
        list.push(
            "Serving again here would take over its credential and could leave it running with no way to call it.".to_owned(),
        );
        let mut remedy = "Stop it first: rocm remote stop ".to_owned();
        remedy.push_str(session_id);
        list.push(remedy);
    } else {
        let mut first = "a credential from an earlier `rocm remote serve` on ".to_owned();
        first.push_str(request.target.as_str());
        first.push_str(" port ");
        push_number(&mut first, request.remote_port as u128);
        first.push_str(" is still on this machine, with no session recorded beside it.");
        list.push(first);
        list.push(
            "An earlier attempt got far enough to mint a key and not far enough to record what it started, so a model may be running there untracked.".to_owned(),
        );
        let mut check = "Check the machine: ssh ".to_owned();
        check.push_str(request.target.as_str());
        check.push_str(" -- rocm services list");
        list.push(check);
        let mut remedy = "Once you are sure nothing is using it, delete: ".to_owned();
        remedy.push_str(key_path);
        list.push(remedy);
    }
    list.push("Or serve on another port with `--remote-port`.".to_owned());
    assert(texts(list@) =~= collision_lines(name, request@, session_id@, key_path@)->0);
    Some(join(&list, "\n"))
}

/// The first part of a serve: a name that is taken is refused before anything
/// is sent, and the machine is got ready.
pub open spec fn prepare_talk(
    h: Seq<Exchange>,
    at: int,
    name: NameOnDisk,
    request: RequestView,
    session_id: Seq<char>,
    key_path: Seq<char>,
) -> Talk<ReadyReportView> {
    match collision(name, request, session_id, key_path) {
        Some(why) => Talk {
            fits: true,
            end: at,
            value: ReadyReportView { lines: seq![], result: Err(plain(why)) },
        },
        None => {
            let ready = ready_talk(h, at, request.target, request.channel, request.install_rocm);
            Talk {
                value: ReadyReportView {
                    lines: seq!["Preparing "@ + request.target + " ..."@] + ready.value.lines,
                    result: ready.value.result,
                },
                ..ready
            }
        },
    }
}

pub fn prepare_serve<T: Transport>(
    transport: &mut T,
    name: NameOnDisk,
    request: &ServeRequest,
    session_id: &str,
    key_path: &str,
) -> (r: ReadyReport)
    ensures
        held(
            old(transport).history(),
            final(transport).history(),
            prepare_talk(
                final(transport).history(),
                old(transport).history().len() as int,
                name,
                request@,
                session_id@,
                key_path@,
            ),
        ),
        r@ == prepare_talk(
            final(transport).history(),
            old(transport).history().len() as int,
            name,
            request@,
            session_id@,
            key_path@,
        ).value,
{
    if let Some(why) = refuse_collision(name, request, session_id, key_path) {
        let lines: Vec<String> = Vec::new();
        assert(texts(lines@) =~= seq![]);
        return ReadyReport { lines, result: Err(Failure::new(why)) };
    }
    let mut line = "Preparing ".to_owned();
    line.push_str(request.target.as_str());
    line.push_str(" ...");
    let report = ensure_ready_with(
        transport,
        request.target.as_str(),
        request.channel.as_str(),
        request.install_rocm,
    );
    let ghost said = texts(report.lines@);
    let mut lines = report.lines;
    lines.insert(0, line);
    assert(texts(lines@) =~= seq![line@] + said);
    ReadyReport { lines, result: report.result }
}

// ---------------------------------------------------------------------------
// Undoing
// ---------------------------------------------------------------------------

/// What stopping a model that must not be left running comes to: what to say if
/// it may be left running.
pub open spec fn stop_leftover(service_id: Seq<char>, reply: Reply) -> Option<Seq<char>> {
    match reply {
        Ok(outcome) => if outcome.success {
            None
        } else {
            Some(
                "the model ("@ + service_id + ") may still be running: "@ + trimmed(outcome.stderr),
            )
        },
        Err(e) => Some("the model ("@ + service_id + ") may still be running: "@ + headline_of(e)),
    }
}

pub open spec fn key_kept(key_path: Seq<char>) -> Seq<char> {
    "its API key was kept at "@ + key_path + " — it is the only copy"@
}

/// Undoing a serve that went half way: the endpoint first, where it was
/// published, then the model, where one was started. It comes to what could not be undone.
pub open spec fn unwind_talk(
    h: Seq<Exchange>,
    at: int,
    key_path: Seq<char>,
    remote_cli: Seq<char>,
    service_id: Option<Seq<char>>,
    published: Option<(u16, u16)>,
) -> Talk<Seq<Seq<char>>> {
    let w = match published {
        Some(ports) => {
            let talk = withdraw_talk(h, at, ports.0, ports.1);
            Talk {
                fits: talk.fits,
                end: talk.end,
                value: match talk.value {
                    Ok(_) => seq![],
                    Err(e) => seq![
                        "the endpoint on port "@ + dec(ports.0 as nat)
                            + " may still be published ("@ + headline_of(e) + ")"@,
                    ],
                },
            }
        },
        None => Talk { fits: true, end: at, value: Seq::<Seq<char>>::empty() },
    };
    let stop = match service_id {
        Some(id) => Talk {
            fits: w.fits && asks(h, w.end, stop_line(remote_cli, id)),
            end: w.end + 1,
            value: match stop_leftover(id, reply_at(h, w.end)) {
                Some(left) => w.value.push(left),
                None => w.value,
            },
        },
        None => w,
    };
    Talk {
        fits: stop.fits,
        end: stop.end,
        value: if stop.value.len() > 0 {
            stop.value.push(key_kept(key_path))
        } else {
            stop.value
        },
    }
}

proof fn lemma_withdraw_goes_on(h: Seq<Exchange>, g: Seq<Exchange>, at: int, tp: u16, rp: u16)
    requires
        goes_on(h, g),
        withdraw_talk(h, at, tp, rp).fits,
        withdraw_talk(h, at, tp, rp).end <= h.len(),
    ensures
        withdraw_talk(g, at, tp, rp) == withdraw_talk(h, at, tp, rp),
{
}

/// Undoes as much as can be undone and returns the rest. Where nothing is left
/// the credential guards nothing any more.
pub fn unwind_partial_serve<T: Transport>(
    transport: &mut T,
    key_path: &str,
    remote_cli: &str,
    service_id: Option<&str>,
    published: Option<(u16, u16)>,
) -> (r: Vec<String>)
    ensures
        held(
            old(transport).history(),
            final(transport).history(),
            unwind_talk(
                final(transport).history(),
                old(transport).history().len() as int,
                key_path@,
                remote_cli@,
                opt_text(service_id),
                published,
            ),
        ),
        texts(r@) == unwind_talk(
            final(transport).history(),
            old(transport).history().len() as int,
            key_path@,
            remote_cli@,
            opt_text(service_id),
            published,
        ).value,
{
    let ghost h0 = transport.history();
    let mut leftovers: Vec<String> = Vec::new();
    assert(texts(leftovers@) =~= seq![]);
    if let Some(ports) = published {
        if let Err(e) = withdraw(transport, ports.0, ports.1) {
            let mut left = "the endpoint on port ".to_owned();
            push_number(&mut left, ports.0 as u128);
            left.push_str(" may still be published (");
            left.push_str(e.headline().as_str());
            left.push_str(")");
            leftovers.push(left);
            assert(texts(leftovers@) =~= seq![left@]);
        }
    }
    let ghost h1 = transport.history();
    let ghost first = texts(leftovers@);
    if let Some(id) = service_id {
        let stopped = transport.exec(stop_command(remote_cli, id).as_str());
        proof {
            if let Some(ports) = published {
                lemma_withdraw_goes_on(h1, transport.history(), h0.len() as int, ports.0, ports.1);
            }
        }
        let why = match stopped {
            Ok(outcome) => if outcome.success {
                None
            } else {
                Some(trim(outcome.stderr.as_str()))
            },
            Err(e) => Some(e.headline()),
        };
        if let Some(why) = why {
            let mut left = "the model (".to_owned();
            left.push_str(id);
            left.push_str(") may still be running: ");
            left.push_str(why.as_str());
            leftovers.push(left);
            assert(texts(leftovers@) =~= first.push(left@));
        }
    }
    assert(texts(leftovers@).len() == leftovers@.len());
    if leftovers.len() > 0 {
        let ghost before = texts(leftovers@);
        let mut kept = "its API key was kept at ".to_owned();
        kept.push_str(key_path);
        kept.push_str(" — it is the only copy");
        leftovers.push(kept);
        assert(texts(leftovers@) =~= before.push(kept@));
    }
    leftovers
}

/// A failure with what could not be undone around it.
pub open spec fn with_leftovers(
    error: Seq<Seq<char>>,
    target: Seq<char>,
    leftovers: Seq<Seq<char>>,
) -> Seq<Seq<char>> {
    if leftovers.len() == 0 {
        error
    } else {
        within(
            target + " was left with things this command could not undo:\n"@ + joined(
                leftovers.map_values(|l: Seq<char>| "  - "@ + l),
                "\n"@,
            ) + "\nCheck it with: ssh "@ + target + " -- rocm services list"@,
            error,
        )
    }
}

pub fn describe_leftovers(error: Failure, target: &str, leftovers: &Vec<String>) -> (r: Failure)
    ensures
        r@ == with_leftovers(error@, target@, texts(leftovers@)),
{
    if leftovers.len() == 0 {
        return error;
    }
    let ghost all = texts(leftovers@);
    let mut items: Vec<String> = Vec::new();
    let mut i: usize = 0;
    while i < leftovers.len()
        invariant
            i <= leftovers@.len(),
            all == texts(leftovers@),
            items@.len() == i,
            forall|j: int| 0 <= j < i ==> (#[trigger] items@[j])@ == "  - "@ + all[j],
        decreases leftovers@.len() - i,
    {
        assert(all[i as int] == leftovers@[i as int]@);
        let mut item = "  - ".to_owned();
        item.push_str(leftovers[i].as_str());
        items.push(item);
        i += 1;
    }
    assert(texts(items@) =~= all.map_values(|l: Seq<char>| "  - "@ + l));
    let mut message = target.to_owned();
    message.push_str(" was left with things this command could not undo:\n");
    message.push_str(join(&items, "\n").as_str());
    message.push_str("\nCheck it with: ssh ");
    message.push_str(target);
    message.push_str(" -- rocm services list");
    error.context(message)
}

// ---------------------------------------------------------------------------
// Starting
// ---------------------------------------------------------------------------

/// How starting ended: with a published model to be recorded, or not, and then
/// whether the credential is to be deleted.
pub enum StartOutcome {
    Published(RemoteSessionRecord),
    Failed { error: Failure, clear_key: bool },
}

pub enum StartView {
    Published(SessionView),
    Failed { error: Seq<Seq<char>>, clear_key: bool },
}

impl View for StartOutcome {
    type V = StartView;

    open spec fn view(&self) -> StartView {
        match *self {
            StartOutcome::Published(record) => StartView::Published(record@),
            StartOutcome::Failed { error, clear_key } => StartView::Failed {
                error: error@,
                clear_key,
            },
        }
    }
}

pub struct StartReport {
    pub lines: Vec<String>,
    pub outcome: StartOutcome,
}

pub struct StartReportView {
    pub lines: Seq<Seq<char>>,
    pub outcome: StartView,
}

impl View for StartReport {
    type V = StartReportView;

    open spec fn view(&self) -> StartReportView {
        StartReportView { lines: texts(self.lines@), outcome: self.outcome@ }
    }
}

/// Why a credential that could not be claimed ends the serve. Nothing of ours is
/// on disk then, so nothing is deleted.
pub open spec fn claim_fault(claim: KeyClaim, request: RequestView) -> Option<Seq<Seq<char>>> {
    match claim {
        KeyClaim::Stored => None,
        KeyClaim::Held => Some(
            plain(
                "another `rocm remote serve` claimed "@ + request.target + " on port "@ + dec(
                    request.remote_port as nat,
                )
                    + " while this one was preparing the machine.\nBoth runs name the session after the machine and the port, so carrying on would take over its credential and could leave it running with no way to call it.\nSee what is there: rocm remote status\nOr serve on another port with `--remote-port`."@,
            ),
        ),
        KeyClaim::Failed(e) => Some(
            within(
                "refusing to publish a model endpoint whose API key could not be saved locally: without it you would have no way to call the endpoint you are about to expose"@,
                e@,
            ),
        ),
    }
}

pub fn refuse_claim(claim: KeyClaim, request: &ServeRequest) -> (r: Option<Failure>)
    ensures
        (match r {
            Some(e) => Some(e@),
            None => None,
        }) == claim_fault(claim, request@),
{
    match claim {
        KeyClaim::Stored => None,
        KeyClaim::Held => {
            let mut message = "another `rocm remote serve` claimed ".to_owned();
            message.push_str(request.target.as_str());
            message.push_str(" on port ");
            push_number(&mut message, request.remote_port as u128);
            message.push_str(
                " while this one was preparing the machine.\nBoth runs name the session after the machine and the port, so carrying on would take over its credential and could leave it running with no way to call it.\nSee what is there: rocm remote status\nOr serve on another port with `--remote-port`.",
            );
            Some(Failure::new(message))
        },
        KeyClaim::Failed(e) => Some(
            e.context(
                "refusing to publish a model endpoint whose API key could not be saved locally: without it you would have no way to call the endpoint you are about to expose".to_owned(),
            ),
        ),
    }
}

/// What a serve is given besides the request.
pub struct ServeContext {
    pub session_id: String,
    pub key_path: String,
    pub peer_host: String,
    pub remote_cli: String,
    pub api_key: String,
    pub now_unix_ms: u128,
}

/// The session a serve that succeeded is recorded as.
pub open spec fn session_of(
    request: RequestView,
    context: ServeContext,
    service_id: Seq<char>,
) -> SessionView {
    SessionView {
        session_id: context.session_id@,
        target: request.target,
        peer_host: context.peer_host@,
        ssh_port: request.ssh_port,
        model: request.model,
        remote_service_id: service_id,
        remote_cli: context.remote_cli@,
        remote_port: request.remote_port,
        tailnet_port: request.tailnet_port,
        base_url: url_for(context.peer_host@, request.tailnet_port),
        created_at_unix_ms: context.now_unix_ms,
    }
}

pub open spec fn lost_contact(request: RequestView, remote_cli: Seq<char>) -> Seq<char> {
    "lost contact with "@ + request.target
        + " while starting the model, so it may or may not be running.\nCheck with: ssh "@
        + request.target + " -- "@ + remote_cli + " services list"@
}

pub open spec fn untracked(
    request: RequestView,
    remote_cli: Seq<char>,
    key_path: Seq<char>,
) -> Seq<char> {
    "a model may now be running on "@ + request.target + " port "@ + dec(
        request.remote_port as nat,
    ) + " with nothing tracking it.\nCheck with: ssh "@ + request.target + " -- "@ + remote_cli
        + " services list\nIts API key was kept at "@ + key_path + " — it is the only copy."@
}

/// What the model reads its key from: the key and the line's end, without which
/// the far shell would not take it for complete.
pub open spec fn key_payload(api_key: Seq<char>) -> Seq<char> {
    api_key + "\n"@
}

/// The second part of a serve: with the credential claimed the model is started,
/// found in the machine's registry and published. From the start on, a failure
/// undoes what was done.
pub open spec fn start_talk(
    h: Seq<Exchange>,
    at: int,
    claim: KeyClaim,
    request: RequestView,
    context: ServeContext,
) -> Talk<StartReportView> {
    let cli = context.remote_cli@;
    match claim_fault(claim, request) {
        Some(error) => Talk {
            fits: true,
            end: at,
            value: StartReportView {
                lines: seq![],
                outcome: StartView::Failed { error, clear_key: false },
            },
        },
        None => {
            let starting = seq!["Starting "@ + request.model + " on "@ + request.target + " ..."@];
            let started = feeds(h, at, serve_line(cli, request), key_payload(context.api_key@));
            match reply_at(h, at) {
                Err(e) => Talk {
                    fits: started,
                    end: at + 1,
                    value: StartReportView {
                        lines: starting,
                        outcome: StartView::Failed {
                            error: within(lost_contact(request, cli), e),
                            clear_key: true,
                        },
                    },
                },
                Ok(start) => if !start.success {
                    Talk {
                        fits: started,
                        end: at + 1,
                        value: StartReportView {
                            lines: starting,
                            outcome: StartView::Failed {
                                error: plain(
                                    "failed to start the model on "@ + request.target + ": "@
                                        + trimmed(start.stderr),
                                ),
                                clear_key: true,
                            },
                        },
                    }
                } else {
                    let d = discover_talk(h, at + 1, cli, request.remote_port);
                    match d.value {
                        Err(e) => Talk {
                            fits: started && d.fits,
                            end: d.end,
                            value: StartReportView {
                                lines: starting,
                                outcome: StartView::Failed {
                                    error: within(untracked(request, cli, context.key_path@), e),
                                    clear_key: false,
                                },
                            },
                        },
                        Ok(service_id) => publish_started_talk(
                            h,
                            d.end,
                            started && d.fits,
                            request,
                            context,
                            service_id,
                        ),
                    }
                },
            }
        },
    }
}

/// Publishing what was started, or stopping it again.
pub open spec fn publish_started_talk(
    h: Seq<Exchange>,
    at: int,
    so_far: bool,
    request: RequestView,
    context: ServeContext,
    service_id: Seq<char>,
) -> Talk<StartReportView> {
    let lines = seq![
        "Starting "@ + request.model + " on "@ + request.target + " ..."@,
        "Publishing to the tailnet ..."@,
    ];
    let p = publish_talk(h, at, request.tailnet_port, request.remote_port);
    match p.value {
        Ok(_) => Talk {
            fits: so_far && p.fits,
            end: p.end,
            value: StartReportView {
                lines,
                outcome: StartView::Published(session_of(request, context, service_id)),
            },
        },
        Err(e) => {
            let u = unwind_talk(
                h,
                p.end,
                context.key_path@,
                context.remote_cli@,
                Some(service_id),
                None,
            );
            Talk {
                fits: so_far && p.fits && u.fits,
                end: u.end,
                value: StartReportView {
                    lines,
                    outcome: StartView::Failed {
                        error: with_leftovers(e, request.target, u.value),
                        clear_key: u.value.len() == 0,
                    },
                },
            }
        },
    }
}

proof fn lemma_publish_goes_on(h: Seq<Exchange>, g: Seq<Exchange>, at: int, tp: u16, rp: u16)
    requires
        goes_on(h, g),
        publish_talk(h, at, tp, rp).fits,
        publish_talk(h, at, tp, rp).end <= h.len(),
    ensures
        publish_talk(g, at, tp, rp) == publish_talk(h, at, tp, rp),
{
}

fn publish_started<T: Transport>(
    transport: &mut T,
    lines: Vec<String>,
    request: &ServeRequest,
    context: &ServeContext,
    service_id: String,
) -> (r: StartReport)
    requires
        texts(lines@) == seq!["Starting "@ + request@.model + " on "@ + request@.target + " ..."@],
    ensures
        held(
            old(transport).history(),
            final(transport).history(),
            publish_started_talk(
                final(transport).history(),
                old(transport).history().len() as int,
                true,
                request@,
                *context,
                service_id@,
            ),
        ),
        r@ == publish_started_talk(
            final(transport).history(),
            old(transport).history().len() as int,
            true,
            request@,
            *context,
            service_id@,
        ).value,
{
    let ghost h0 = transport.history();
    let ghost first = texts(lines@);
    let mut lines = lines;
    lines.push("Publishing to the tailnet ...".to_owned());
    assert(texts(lines@) =~= first.push("Publishing to the tailnet ..."@));
    assert(texts(lines@) =~= seq![
        "Starting "@ + request@.model + " on "@ + request@.target + " ..."@,
        "Publishing to the tailnet ..."@,
    ]);
    let published = publish(transport, request.tailnet_port, request.remote_port);
    let ghost h1 = transport.history();
    match published {
        Err(e) => {
            let leftovers = unwind_partial_serve(
                transport,
                context.key_path.as_str(),
                context.remote_cli.as_str(),
                Some(service_id.as_str()),
                None,
            );
            proof {
                lemma_publish_goes_on(
                    h1,
                    transport.history(),
                    h0.len() as int,
                    request@.tailnet_port,
                    request@.remote_port,
                );
                assert(texts(leftovers@).len() == leftovers@.len());
            }
            let clear_key = leftovers.len() == 0;
            StartReport {
                lines,
                outcome: StartOutcome::Failed {
                    error: describe_leftovers(e, request.target.as_str(), &leftovers),
                    clear_key,
                },
            }
        },
        Ok(_) => {
            let record = RemoteSessionRecord {
                session_id: context.session_id.clone(),
                target: request.target.clone(),
                peer_host: context.peer_host.clone(),
                ssh_port: request.ssh_port,
                model: request.model.clone(),
                remote_service_id: service_id,
                remote_cli: context.remote_cli.clone(),
                remote_port: request.remote_port,
                tailnet_port: request.tailnet_port,
                base_url: base_url_for(context.peer_host.as_str(), request.tailnet_port),
                created_at_unix_ms: context.now_unix_ms,
            };
            StartReport { lines, outcome: StartOutcome::Published(record) }
        },
    }
}

pub fn start_serve<T: Transport>(
    transport: &mut T,
    claim: KeyClaim,
    request: &ServeRequest,
    context: &ServeContext,
) -> (r: StartReport)
    ensures
        held(
            old(transport).history(),
            final(transport).history(),
            start_talk(
                final(transport).history(),
                old(transport).history().len() as int,
                claim,
                request@,
                *context,
            ),
        ),
        r@ == start_talk(
            final(transport).history(),
            old(transport).history().len() as int,
            claim,
            request@,
            *context,
        ).value,
{
    let mut lines: Vec<String> = Vec::new();
    assert(texts(lines@) =~= seq![]);
    if let Some(error) = refuse_claim(claim, request) {
        return StartReport { lines, outcome: StartOutcome::Failed { error, clear_key: false } };
    }
    let mut line = "Starting ".to_owned();
    line.push_str(request.model.as_str());
    line.push_str(" on ");
    line.push_str(request.target.as_str());
    line.push_str(" ...");
    lines.push(line);
    assert(texts(lines@) =~= seq![line@]);
    let cli = context.remote_cli.as_str();
    let mut payload = context.api_key.clone();
    payload.push_str("\n");
    let start = transport.exec_with_stdin(
        remote_serve_command(cli, request).as_str(),
        Some(payload.as_str()),
    );
    let start = match start {
        Err(e) => {
            let mut message = "lost contact with ".to_owned();
            message.push_str(request.target.as_str());
            message.push_str(
                " while starting the model, so it may or may not be running.\nCheck with: ssh ",
            );
            message.push_str(request.target.as_str());
            message.push_str(" -- ");
            message.push_str(cli);
            message.push_str(" services list");
            return StartReport {
                lines,
                outcome: StartOutcome::Failed { error: e.context(message), clear_key: true },
            };
        },
        Ok(start) => start,
    };
    if !start.success {
        let mut message = "failed to start the model on ".to_owned();
        message.push_str(request.target.as_str());
        message.push_str(": ");
        message.push_str(trim(start.stderr.as_str()).as_str());
        return StartReport {
            lines,
            outcome: StartOutcome::Failed { error: Failure::new(message), clear_key: true },
        };
    }
    let found = discover_started_service(transport, cli, request.remote_port);
    match found {
        Err(e) => {
            let mut message = "a model may now be running on ".to_owned();
            message.push_str(request.target.as_str());
            message.push_str(" port ");
            push_number(&mut message, request.remote_port as u128);
            message.push_str(" with nothing tracking it.\nCheck with: ssh ");
            message.push_str(request.target.as_str());
            message.push_str(" -- ");
            message.push_str(cli);
            message.push_str(" services list\nIts API key was kept at ");
            message.push_str(context.key_path.as_str());
            message.push_str(" — it is the only copy.");
            StartReport {
                lines,
                outcome: StartOutcome::Failed { error: e.context(message), clear_key: false },
            }
        },
        Ok(service_id) => publish_started(transport, lines, request, context, service_id),
    }
}

// ---------------------------------------------------------------------------
// Recording
// ---------------------------------------------------------------------------

/// What a user is told of a model that is up.
pub open spec fn started_text(record: SessionView, api_key: Seq<char>, key_path: Seq<char>) -> Seq<
    char,
> {
    "Model serving on "@ + record.target + "\n\n  endpoint: "@ + record.base_url
        + "\n  api key:  "@ + api_key + "\n  session:  "@ + record.session_id + "\n  key file: "@
        + key_path
        + "\n\nThis endpoint is reachable by every machine on your tailnet that your tailnet's\naccess rules allow. The API key above is what stops anyone else calling it.\n\n  check:  rocm remote status "@
        + record.session_id + "\n  stop:   rocm remote stop "@ + record.session_id + "\n"@
}

pub fn render_started(record: &RemoteSessionRecord, api_key: &str, key_path: &str) -> (r: String)
    ensures
        r@ == started_text(record@, api_key@, key_path@),
{
    let mut out = "Model serving on ".to_owned();
    out.push_str(record.target.as_str());
    out.push_str("\n\n  endpoint: ");
    out.push_str(record.base_url.as_str());
    out.push_str("\n  api key:  ");
    out.push_str(api_key);
    out.push_str("\n  session:  ");
    out.push_str(record.session_id.as_str());
    out.push_str("\n  key file: ");
    out.push_str(key_path);
    out.push_str(
        "\n\nThis endpoint is reachable by every machine on your tailnet that your tailnet's\naccess rules allow. The API key above is what stops anyone else calling it.\n\n  check:  rocm remote status ",
    );
    out.push_str(record.session_id.as_str());
    out.push_str("\n  stop:   rocm remote stop ");
    out.push_str(record.session_id.as_str());
    out.push_str("\n");
    out
}

/// How a serve ended: with what to tell the user, or with a failure and whether
/// the credential is to be deleted.
pub enum FinishOutcome {
    Serving(String),
    Failed { error: Failure, clear_key: bool },
}

pub enum FinishView {
    Serving(Seq<char>),
    Failed { error: Seq<Seq<char>>, clear_key: bool },
}

impl View for FinishOutcome {
    type V = FinishView;

    open spec fn view(&self) -> FinishView {
        match *self {
            FinishOutcome::Serving(text) => FinishView::Serving(text@),
            FinishOutcome::Failed { error, clear_key } => FinishView::Failed {
                error: error@,
                clear_key,
            },
        }
    }
}

/// The last part of a serve: where the session could not be recorded, the
/// endpoint and the model are taken down again, since nothing here would know
/// of them.
pub open spec fn finish_talk(
    h: Seq<Exchange>,
    at: int,
    written: Result<(), Failure>,
    record: SessionView,
    api_key: Seq<char>,
    key_path: Seq<char>,
) -> Talk<FinishView> {
    match written {
        Ok(_) => Talk {
            fits: true,
            end: at,
            value: FinishView::Serving(started_text(record, api_key, key_path)),
        },
        Err(e) => {
            let u = unwind_talk(
                h,
                at,
                key_path,
                record.remote_cli,
                Some(record.remote_service_id),
                Some((record.tailnet_port, record.remote_port)),
            );
            Talk {
                fits: u.fits,
                end: u.end,
                value: FinishView::Failed {
                    error: with_leftovers(
                        within("could not record the session on this machine"@, e@),
                        record.target,
                        u.value,
                    ),
                    clear_key: u.value.len() == 0,
                },
            }
        },
    }
}

pub fn finish_serve<T: Transport>(
    transport: &mut T,
    written: Result<(), Failure>,
    record: &RemoteSessionRecord,
    api_key: &str,
    key_path: &str,
) -> (r: FinishOutcome)
    ensures
        held(
            old(transport).history(),
            final(transport).history(),
            finish_talk(
                final(transport).history(),
                old(transport).history().len() as int,
                written,
                record@,
                api_key@,
                key_path@,
            ),
        ),
        r@ == finish_talk(
            final(transport).history(),
            old(transport).history().len() as int,
            written,
            record@,
            api_key@,
            key_path@,
        ).value,
{
    match written {
        Ok(_) => FinishOutcome::Serving(render_started(record, api_key, key_path)),
        Err(e) => {
            let leftovers = unwind_partial_serve(
                transport,
                key_path,
                record.remote_cli.as_str(),
                Some(record.remote_service_id.as_str()),
                Some((record.tailnet_port, record.remote_port)),
            );
            assert(texts(leftovers@).len() == leftovers@.len());
            let clear_key = leftovers.len() == 0;
            FinishOutcome::Failed {
                error: describe_leftovers(
                    e.context("could not record the session on this machine".to_owned()),
                    record.target.as_str(),
                    &leftovers,
                ),
                clear_key,
            }
        },
    }
}

// ---------------------------------------------------------------------------
// Laws
// ---------------------------------------------------------------------------

/// A name that is taken costs no exchange with the machine and is refused.
pub proof fn law_a_taken_name_is_refused_before_anything_is_sent(
    h: Seq<Exchange>,
    at: int,
    name: NameOnDisk,
    request: RequestView,
    session_id: Seq<char>,
    key_path: Seq<char>,
)
    requires
        name.record || name.key,
    ensures
        prepare_talk(h, at, name, request, session_id, key_path).end == at,
        prepare_talk(h, at, name, request, session_id, key_path).value.result is Err,
{
}

/// A credential that was not claimed starts nothing and deletes nothing.
pub proof fn law_no_claim_no_start(
    h: Seq<Exchange>,
    at: int,
    claim: KeyClaim,
    request: RequestView,
    context: ServeContext,
)
    requires
        !(claim is Stored),
    ensures
        start_talk(h, at, claim, request, context).end == at,
        start_talk(h, at, claim, request, context).value.outcome matches StartView::Failed {
            clear_key,
            ..
        } && !clear_key,
{
}

/// A history in which the command at `at` was fed something else.
pub open spec fn fed_instead(h: Seq<Exchange>, at: int, input: Seq<char>) -> Seq<Exchange> {
    match h[at] {
        Exchange::Exec { command, reply, .. } => h.update(
            at,
            Exchange::Exec { command, stdin: Some(input), reply },
        ),
        _ => h,
    }
}

proof fn lemma_publish_agrees(h: Seq<Exchange>, g: Seq<Exchange>, at: int, tp: u16, rp: u16)
    requires
        h.len() == g.len(),
        forall|i: int| at <= i < h.len() ==> g[i] == h[i],
        publish_talk(h, at, tp, rp).fits,
    ensures
        publish_talk(g, at, tp, rp) == publish_talk(h, at, tp, rp),
{
}

/// The key travels on the standard input of the command that starts the model and
/// nowhere else: with another key the conversation is the same, but for what that
/// command is fed.
pub proof fn law_the_key_travels_on_standard_input(
    h: Seq<Exchange>,
    at: int,
    request: RequestView,
    context: ServeContext,
    other: ServeContext,
)
    requires
        start_talk(h, at, KeyClaim::Stored, request, context).fits,
        other == (ServeContext { api_key: other.api_key, ..context }),
    ensures
        feeds(
            h,
            at,
            serve_line(context.remote_cli@, request),
            key_payload(context.api_key@),
        ),
        start_talk(
            fed_instead(h, at, key_payload(other.api_key@)),
            at,
            KeyClaim::Stored,
            request,
            other,
        ) == start_talk(h, at, KeyClaim::Stored, request, context),
{
    let g = fed_instead(h, at, key_payload(other.api_key@));
    let cli = context.remote_cli@;
    assert(reply_at(g, at) == reply_at(h, at));
    if let Ok(start) = reply_at(h, at) {
        if start.success {
            let d = discover_talk(h, at + 1, cli, request.remote_port);
            assert(discover_talk(g, at + 1, cli, request.remote_port) == d);
            if d.value is Ok {
                lemma_publish_agrees(h, g, d.end, request.tailnet_port, request.remote_port);
            }
        }
    }
}

/// Where a model was started and the serve still failed, its credential is deleted
/// exactly if the model was found and confirmed stopped.
pub proof fn law_the_key_stays_while_a_model_may_run(
    h: Seq<Exchange>,
    at: int,
    request: RequestView,
    context: ServeContext,
)
    requires
        reply_at(h, at) matches Ok(start) && start.success,
        start_talk(h, at, KeyClaim::Stored, request, context).value.outcome is Failed,
    ensures
        ({
            let talk = start_talk(h, at, KeyClaim::Stored, request, context);
            let found = discover_talk(h, at + 1, context.remote_cli@, request.remote_port).value;
            talk.value.outcome->clear_key <==> found is Ok && (reply_at(h, talk.end - 1) matches Ok(
                stop,
            ) && stop.success)
        }),
{
}

/// Where a session could not be recorded, its credential is deleted exactly if the
/// endpoint is confirmed withdrawn and the model confirmed stopped.
pub proof fn law_the_key_of_an_unrecorded_session_stays_while_it_guards_anything(
    h: Seq<Exchange>,
    at: int,
    fault: Failure,
    record: SessionView,
    api_key: Seq<char>,
    key_path: Seq<char>,
)
    ensures
        ({
            let talk = finish_talk(h, at, Err(fault), record, api_key, key_path);
            let withdrawn = withdraw_talk(h, at, record.tailnet_port, record.remote_port).value;
            &&& talk.value is Failed
            &&& talk.value->clear_key <==> withdrawn is Ok && (reply_at(h, talk.end - 1) matches Ok(
                stop,
            ) && stop.success)
        }),
{
}

/// A session is recorded only for a model whose publish the machine confirmed.
pub proof fn law_a_recorded_session_is_published(
    h: Seq<Exchange>,
    at: int,
    claim: KeyClaim,
    request: RequestView,
    context: ServeContext,
)
    requires
        start_talk(h, at, claim, request, context).value.outcome is Published,
    ensures
        publish_talk(h, at + 2, request.tailnet_port, request.remote_port).value is Ok,
        start_talk(h, at, claim, request, context).end == at + 5,
{
}

/// A model that is served was started by the command for this request, with its key
/// and the end of the line on its standard input; is one that the machine then listed
/// on the port it was started on; and is published from the tailnet port to that port.
/// Its record says where it is, what it is and how it is called.
pub proof fn law_a_served_model_is_recorded_where_it_is(
    h: Seq<Exchange>,
    at: int,
    claim: KeyClaim,
    request: RequestView,
    context: ServeContext,
)
    requires
        start_talk(h, at, claim, request, context).fits,
        start_talk(h, at, claim, request, context).value.outcome is Published,
    ensures
        ({
            let talk = start_talk(h, at, claim, request, context);
            let r = talk.value.outcome->Published_0;
            let listed = registry(reply_at(h, at + 1)->Ok_0.stdout);
            &&& claim is Stored
            &&& talk.end == at + 5
            &&& feeds(
                h,
                at,
                serve_line(context.remote_cli@, request),
                context.api_key@.push('\n'),
            )
            &&& reply_at(h, at) is Ok && reply_at(h, at)->Ok_0.success
            &&& asks(h, at + 1, list_line(context.remote_cli@))
            &&& listed is Ok && exists|i: int|
                0 <= i < listed->Ok_0.len() && (#[trigger] listed->Ok_0[i]).service_id
                    == r.remote_service_id && listed->Ok_0[i].port == request.remote_port
            &&& asks(h, at + 2, status_line())
            &&& asks(h, at + 3, publish_line(request.tailnet_port, request.remote_port))
            &&& asks(h, at + 4, status_line())
            &&& r.session_id == context.session_id@ && r.remote_cli == context.remote_cli@
            &&& r.target == request.target && r.peer_host == context.peer_host@
            &&& r.ssh_port == request.ssh_port && r.model == request.model
            &&& r.remote_port == request.remote_port && r.tailnet_port == request.tailnet_port
            &&& r.created_at_unix_ms == context.now_unix_ms
            &&& r.base_url == "http://"@ + context.peer_host@ + ":"@ + dec(
                request.tailnet_port as nat,
            ) + "/v1"@
        }),
{
    reveal_strlit("\n");
    assert(key_payload(context.api_key@) =~= context.api_key@.push('\n'));
    law_a_started_service_is_found_by_its_port(
        h,
        at + 1,
        context.remote_cli@,
        request.remote_port,
    );
    law_a_publish_is_settled_by_the_answers(
        h,
        at + 2,
        request.tailnet_port,
        request.remote_port,
    );
}

/// A serve whose credential is claimed fails exactly where a step fails: the start,
/// finding what was started, or publishing it.
pub proof fn law_a_serve_succeeds_where_every_step_does(
    h: Seq<Exchange>,
    at: int,
    request: RequestView,
    context: ServeContext,
)
    ensures
        start_talk(h, at, KeyClaim::Stored, request, context).value.outcome is Published <==> (
        reply_at(h, at) is Ok && reply_at(h, at)->Ok_0.success) && discover_talk(
            h,
            at + 1,
            context.remote_cli@,
            request.remote_port,
        ).value is Ok && publish_talk(
            h,
            at + 2,
            request.tailnet_port,
            request.remote_port,
        ).value is Ok,
        start_talk(h, at, KeyClaim::Stored, request, context).end > at,
{
}

/// Getting a machine ready for a serve whose name is free is getting it ready for
/// what was asked: the target, the channel, and ROCm exactly where it was asked for.
pub proof fn law_a_free_name_is_prepared_for_what_was_asked(
    h: Seq<Exchange>,
    at: int,
    request: RequestView,
    session_id: Seq<char>,
    key_path: Seq<char>,
)
    ensures
        ({
            let talk = prepare_talk(
                h,
                at,
                NameOnDisk { record: false, key: false },
                request,
                session_id,
                key_path,
            );
            let ready = ready_talk(h, at, request.target, request.channel, request.install_rocm);
            &&& talk.fits == ready.fits && talk.end == ready.end
            &&& talk.value.result == ready.value.result
            &&& talk.value.lines.len() == ready.value.lines.len() + 1
            &&& has_text(talk.value.lines[0], request.target)
        }),
{
    let ready = ready_talk(h, at, request.target, request.channel, request.install_rocm);
    lemma_has_text("Preparing "@, request.target, " ..."@);
}

/// Undoing takes the endpoint down before the model is stopped, and does each exactly
/// where it was up. Nothing is left to tell exactly where the endpoint is confirmed
/// withdrawn and the model confirmed stopped; what is left names the model and where
/// the key is.
pub proof fn law_undoing_takes_the_endpoint_down_first(
    h: Seq<Exchange>,
    at: int,
    key_path: Seq<char>,
    remote_cli: Seq<char>,
    id: Seq<char>,
    ports: (u16, u16),
)
    ensures
        ({
            let both = unwind_talk(h, at, key_path, remote_cli, Some(id), Some(ports));
            let model = unwind_talk(h, at, key_path, remote_cli, Some(id), None);
            let none = unwind_talk(h, at, key_path, remote_cli, None, None);
            let w = withdraw_talk(h, at, ports.0, ports.1);
            let stopped = |n: int| reply_at(h, n) is Ok && reply_at(h, n)->Ok_0.success;
            &&& both.end == w.end + 1 && (both.fits <==> w.fits && asks(
                h,
                w.end,
                stop_line(remote_cli, id),
            ))
            &&& both.value.len() == 0 <==> w.value is Ok && stopped(w.end)
            &&& model.end == at + 1 && (model.fits <==> asks(h, at, stop_line(remote_cli, id)))
            &&& model.value.len() == 0 <==> stopped(at)
            &&& none.end == at && none.fits && none.value.len() == 0
            &&& both.value.len() > 0 ==> has_text(both.value.last(), key_path)
            &&& !stopped(w.end) ==> exists|i: int|
                0 <= i < both.value.len() && has_text(#[trigger] both.value[i], id)
            &&& !stopped(at) ==> has_text(model.value[0], id)
        }),
{
    let both = unwind_talk(h, at, key_path, remote_cli, Some(id), Some(ports));
    let w = withdraw_talk(h, at, ports.0, ports.1);
    lemma_has_text("its API key was kept at "@, key_path, " — it is the only copy"@);
    lemma_left_names(id, reply_at(h, w.end));
    lemma_left_names(id, reply_at(h, at));
    if stop_leftover(id, reply_at(h, w.end)) is Some {
        let n: int = if w.value is Ok {
            0
        } else {
            1
        };
        assert(has_text(both.value[n], id));
    }
}

proof fn lemma_left_names(id: Seq<char>, reply: Reply)
    ensures
        stop_leftover(id, reply) matches Some(left) ==> has_text(left, id),
{
    if let Some(left) = stop_leftover(id, reply) {
        let why = match reply {
            Ok(outcome) => trimmed(outcome.stderr),
            Err(e) => headline_of(e),
        };
        let after = ") may still be running: "@ + why;
        assert(left =~= "the model ("@ + id + after);
        lemma_has_text("the model ("@, id, after);
    }
}

/// A failure keeps what it says when things were left behind, with each of them told
/// before it; and where nothing was, it says nothing more.
pub proof fn law_a_failure_keeps_what_it_says(
    error: Seq<Seq<char>>,
    target: Seq<char>,
    leftovers: Seq<Seq<char>>,
    i: int,
)
    ensures
        leftovers.len() == 0 ==> with_leftovers(error, target, leftovers) == error,
        leftovers.len() > 0 ==> with_leftovers(error, target, leftovers).len() == error.len() + 1
            && with_leftovers(error, target, leftovers).subrange(1, error.len() as int + 1)
            == error,
        0 <= i < leftovers.len() ==> has_text(
            with_leftovers(error, target, leftovers)[0],
            leftovers[i],
        ),
        leftovers.len() > 0 ==> has_text(with_leftovers(error, target, leftovers)[0], target),
{
    if leftovers.len() > 0 {
        let all = with_leftovers(error, target, leftovers);
        let items = leftovers.map_values(|l: Seq<char>| "  - "@ + l);
        let list = joined(items, "\n"@);
        let none: Seq<char> = seq![];
        assert(all.subrange(1, error.len() as int + 1) =~= error);
        let before = target + " was left with things this command could not undo:\n"@;
        let after = "\nCheck it with: ssh "@ + target + " -- rocm services list"@;
        assert(all[0] =~= before + list + after);
        assert(all[0] =~= none + target + (
        " was left with things this command could not undo:\n"@ + list + after));
        lemma_has_text(
            none,
            target,
            " was left with things this command could not undo:\n"@ + list + after,
        );
        if 0 <= i < leftovers.len() {
            lemma_joined_hold(items, "\n"@, i);
            assert(items[i] =~= "  - "@ + leftovers[i] + none);
            lemma_has_text("  - "@, leftovers[i], none);
            lemma_stands_in_what_it_stands_in(list, items[i], leftovers[i]);
            lemma_stands_within(before, list, after, leftovers[i]);
        }
    }
}

/// What a user is told of a model that is up names its machine, the address and the
/// key to call it with, the session and the file the key is kept in; and where the
/// session was recorded, that is what a serve ends with.
pub proof fn law_a_started_model_is_told_with_what_it_takes_to_call_it(
    h: Seq<Exchange>,
    at: int,
    record: SessionView,
    api_key: Seq<char>,
    key_path: Seq<char>,
)
    ensures
        ({
            let told = started_text(record, api_key, key_path);
            let talk = finish_talk(h, at, Ok(()), record, api_key, key_path);
            &&& talk.value == FinishView::Serving(told) && talk.end == at && talk.fits
            &&& has_text(told, "endpoint: "@ + record.base_url + "\n"@)
            &&& has_text(told, "api key:  "@ + api_key + "\n"@)
            &&& has_text(told, "session:  "@ + record.session_id + "\n"@)
            &&& has_text(told, "key file: "@ + key_path + "\n"@)
            &&& has_text(told, "rocm remote stop "@ + record.session_id)
            &&& has_text(told, "rocm remote status "@ + record.session_id)
            &&& has_text(told, "Model serving on "@ + record.target)
        }),
{
    let a = "Model serving on "@ + record.target;
    let b = "\n\n  endpoint: "@ + record.base_url;
    let c = "\n  api key:  "@ + api_key;
    let d = "\n  session:  "@ + record.session_id;
    let e = "\n  key file: "@ + key_path;
    let long =
        "\n\nThis endpoint is reachable by every machine on your tailnet that your tailnet's\naccess rules allow. The API key above is what stops anyone else calling it.\n\n  check:  rocm remote status "@;
    let f = long + record.session_id;
    let g = "\n  stop:   rocm remote stop "@ + record.session_id + "\n"@;
    let told = started_text(record, api_key, key_path);
    let none: Seq<char> = seq![];
    assert(told =~= a + b + c + d + e + f + g);
    reveal_strlit("\n");
    reveal_strlit("\n\n  endpoint: ");
    reveal_strlit("endpoint: ");
    reveal_strlit("\n  api key:  ");
    reveal_strlit("api key:  ");
    reveal_strlit("\n  session:  ");
    reveal_strlit("session:  ");
    reveal_strlit("\n  key file: ");
    reveal_strlit("key file: ");
    reveal_strlit(
        "\n\nThis endpoint is reachable by every machine on your tailnet that your tailnet's\naccess rules allow. The API key above is what stops anyone else calling it.\n\n  check:  rocm remote status ",
    );
    reveal_strlit("\n  stop:   rocm remote stop ");
    reveal_strlit("rocm remote stop ");
    reveal_strlit("rocm remote status ");
    lemma_has_text(none, a, b + c + d + e + f + g);
    assert(told =~= none + a + (b + c + d + e + f + g));
    assert(told =~= a + b + c + (d + e + f + g));
    assert(told =~= (a + b) + c + d + (e + f + g));
    assert(told =~= (a + b + c) + d + e + (f + g));
    assert(b.subrange(4, b.len() as int) =~= "endpoint: "@ + record.base_url);
    assert(c.subrange(3, c.len() as int) =~= "api key:  "@ + api_key);
    assert(d.subrange(3, d.len() as int) =~= "session:  "@ + record.session_id);
    assert(e.subrange(3, e.len() as int) =~= "key file: "@ + key_path);
    lemma_told_line(told, a, b, "endpoint: "@, record.base_url, 4, c, d + e + f + g);
    lemma_told_line(told, a + b, c, "api key:  "@, api_key, 3, d, e + f + g);
    lemma_told_line(told, a + b + c, d, "session:  "@, record.session_id, 3, e, f + g);
    lemma_told_line(told, a + b + c + d, e, "key file: "@, key_path, 3, f, g);
    let n = long.len() as int;
    let status = "rocm remote status "@ + record.session_id;
    assert(f =~= long.subrange(0, n - 19) + status);
    assert(told =~= (a + b + c + d + e + long.subrange(0, n - 19)) + status + g);
    lemma_has_text(a + b + c + d + e + long.subrange(0, n - 19), status, g);
    let stop = "rocm remote stop "@ + record.session_id;
    let lead = "\n  stop:   rocm remote stop "@;
    assert(g =~= lead.subrange(0, 11) + stop + "\n"@);
    assert(told =~= (a + b + c + d + e + f + lead.subrange(0, 11)) + stop + "\n"@);
    lemma_has_text(a + b + c + d + e + f + lead.subrange(0, 11), stop, "\n"@);
}

proof fn lemma_told_line(
    told: Seq<char>,
    before: Seq<char>,
    line: Seq<char>,
    label: Seq<char>,
    value: Seq<char>,
    skip: int,
    next: Seq<char>,
    after: Seq<char>,
)
    requires
        told == before + line + next + after,
        0 <= skip <= line.len(),
        line.subrange(skip, line.len() as int) == label + value,
        next.len() > 0,
        next[0] == '\n',
    ensures
        has_text(told, label + value + "\n"@),
{
    reveal_strlit("\n");
    let said = label + value + "\n"@;
    let lead = line.subrange(0, skip);
    let rest = next.subrange(1, next.len() as int);
    assert(line =~= lead + (label + value));
    assert(next =~= "\n"@ + rest);
    assert(told =~= (before + lead) + said + (rest + after));
    lemma_has_text(before + lead, said, rest + after);
}

/// Where a model may be running that nothing tracks, the machine is told, and its port
/// where it is known, with the command that shows what runs there and the place of the key.
pub proof fn law_a_model_in_doubt_is_told_with_how_to_look(
    request: RequestView,
    remote_cli: Seq<char>,
    key_path: Seq<char>,
)
    ensures
        has_text(lost_contact(request, remote_cli), "contact with "@ + request.target + " while"@),
        has_text(
            lost_contact(request, remote_cli),
            "ssh "@ + request.target + " -- "@ + remote_cli + " services list"@,
        ),
        has_text(
            untracked(request, remote_cli, key_path),
            "running on "@ + request.target + " port "@ + dec(request.remote_port as nat) + " with"@,
        ),
        has_text(
            untracked(request, remote_cli, key_path),
            "ssh "@ + request.target + " -- "@ + remote_cli + " services list"@,
        ),
        has_text(untracked(request, remote_cli, key_path), "key was kept at "@ + key_path + " "@),
        has_text(key_kept(key_path), "kept at "@ + key_path + " "@),
{
    assert(
        has_text(lost_contact(request, remote_cli), "contact with "@ + request.target + " while"@)
            && has_text(
                lost_contact(request, remote_cli),
                "ssh "@ + request.target + " -- "@ + remote_cli + " services list"@,
            )
    ) by {
        let s0 = "lost contact with "@;
        let s1 = request.target;
        let s2 =
            " while starting the model, so it may or may not be running.\nCheck with: ssh "@;
        let s3 = request.target;
        let s4 = " -- "@;
        let s5 = remote_cli;
        let s6 = " services list"@;
        let x1 = s0 + s1;
        let x2 = x1 + s2;
        let x3 = x2 + s3;
        let x4 = x3 + s4;
        let x5 = x4 + s5;
        let x6 = x5 + s6;
        assert(lost_contact(request, remote_cli) == x6);
        let part = "contact with "@ + s1 + " while"@;
        assert(has_text(x6, part)) by {
            let h = s0.subrange(0, 5);
            assert(s0 =~= h + "contact with "@) by {
                reveal_strlit("lost contact with ");
                reveal_strlit("contact with ");
            }
            let r = s2.subrange(6, s2.len() as int);
            assert(s2 =~= " while"@ + r) by {
                reveal_strlit(
                    " while starting the model, so it may or may not be running.\nCheck with: ssh ",
                );
                reveal_strlit(" while");
            }
            assert(x2 =~= h + part + r);
            lemma_has_text(h, part, r);
            lemma_goes_on(x2, s3, part);
            lemma_goes_on(x3, s4, part);
            lemma_goes_on(x4, s5, part);
            lemma_goes_on(x5, s6, part);
        }
        let part = "ssh "@ + s3 + s4 + s5 + s6;
        assert(has_text(x6, part)) by {
            let h = s2.subrange(0, 72);
            assert(s2 =~= h + "ssh "@) by {
                reveal_strlit(
                    " while starting the model, so it may or may not be running.\nCheck with: ssh ",
                );
                reveal_strlit("ssh ");
            }
            assert(x6 =~= (x1 + h) + part + Seq::<char>::empty());
            lemma_has_text(x1 + h, part, Seq::<char>::empty());
        }
    }
    assert(has_text(
        untracked(request, remote_cli, key_path),
        "running on "@ + request.target + " port "@ + dec(request.remote_port as nat) + " with"@,
    )
        && has_text(
            untracked(request, remote_cli, key_path),
            "ssh "@ + request.target + " -- "@ + remote_cli + " services list"@,
        )
            && has_text(
                untracked(request, remote_cli, key_path),
                "key was kept at "@ + key_path + " "@,
            )) by {
        let s0 = "a model may now be running on "@;
        let s1 = request.target;
        let s2 = " port "@;
        let s3 = dec(request.remote_port as nat);
        let s4 = " with nothing tracking it.\nCheck with: ssh "@;
        let s5 = request.target;
        let s6 = " -- "@;
        let s7 = remote_cli;
        let s8 = " services list\nIts API key was kept at "@;
        let s9 = key_path;
        let s10 = " — it is the only copy."@;
        let x1 = s0 + s1;
        let x2 = x1 + s2;
        let x3 = x2 + s3;
        let x4 = x3 + s4;
        let x5 = x4 + s5;
        let x6 = x5 + s6;
        let x7 = x6 + s7;
        let x8 = x7 + s8;
        let x9 = x8 + s9;
        let x10 = x9 + s10;
        assert(untracked(request, remote_cli, key_path) == x10);
        let part = "running on "@ + s1 + s2 + s3 + " with"@;
        assert(has_text(x10, part)) by {
            let h = s0.subrange(0, 19);
            assert(s0 =~= h + "running on "@) by {
                reveal_strlit("a model may now be running on ");
                reveal_strlit("running on ");
            }
            let r = s4.subrange(5, s4.len() as int);
            assert(s4 =~= " with"@ + r) by {
                reveal_strlit(" with nothing tracking it.\nCheck with: ssh ");
                reveal_strlit(" with");
            }
            assert(x4 =~= h + part + r);
            lemma_has_text(h, part, r);
            lemma_goes_on(x4, s5, part);
            lemma_goes_on(x5, s6, part);
            lemma_goes_on(x6, s7, part);
            lemma_goes_on(x7, s8, part);
            lemma_goes_on(x8, s9, part);
            lemma_goes_on(x9, s10, part);
        }
        let part = "ssh "@ + s5 + s6 + s7 + " services list"@;
        assert(has_text(x10, part)) by {
            let h = s4.subrange(0, 39);
            assert(s4 =~= h + "ssh "@) by {
                reveal_strlit(" with nothing tracking it.\nCheck with: ssh ");
                reveal_strlit("ssh ");
            }
            let r = s8.subrange(14, s8.len() as int);
            assert(s8 =~= " services list"@ + r) by {
                reveal_strlit(" services list\nIts API key was kept at ");
                reveal_strlit(" services list");
            }
            assert(x8 =~= (x3 + h) + part + r);
            lemma_has_text(x3 + h, part, r);
            lemma_goes_on(x8, s9, part);
            lemma_goes_on(x9, s10, part);
        }
        let part = "key was kept at "@ + s9 + " "@;
        assert(has_text(x10, part)) by {
            let h = s8.subrange(0, 23);
            assert(s8 =~= h + "key was kept at "@) by {
                reveal_strlit(" services list\nIts API key was kept at ");
                reveal_strlit("key was kept at ");
            }
            let r = s10.subrange(1, s10.len() as int);
            assert(s10 =~= " "@ + r) by {
                reveal_strlit(" — it is the only copy.");
                reveal_strlit(" ");
            }
            assert(x10 =~= (x7 + h) + part + r);
            lemma_has_text(x7 + h, part, r);
        }
    }
    assert(has_text(key_kept(key_path), "kept at "@ + key_path + " "@)) by {
        let s0 = "its API key was kept at "@;
        let s1 = key_path;
        let s2 = " — it is the only copy"@;
        let x1 = s0 + s1;
        let x2 = x1 + s2;
        assert(key_kept(key_path) == x2);
        let part = "kept at "@ + s1 + " "@;
        assert(has_text(x2, part)) by {
            let h = s0.subrange(0, 16);
            assert(s0 =~= h + "kept at "@) by {
                reveal_strlit("its API key was kept at ");
                reveal_strlit("kept at ");
            }
            let r = s2.subrange(1, s2.len() as int);
            assert(s2 =~= " "@ + r) by {
                reveal_strlit(" — it is the only copy");
                reveal_strlit(" ");
            }
            assert(x2 =~= h + part + r);
            lemma_has_text(h, part, r);
        }
    }
}

/// Only a key that was stored lets a model start. A name that somebody else holds is told
/// by its machine and its port, and a key that could not be stored with the reason.
pub proof fn law_only_a_stored_key_lets_a_model_start(claim: KeyClaim, request: RequestView)
    ensures
        has_text(
            claim_fault(KeyClaim::Held, request)->0[0],
            "claimed "@ + request.target + " on port "@ + dec(request.remote_port as nat)
                + " while"@,
        ),
        claim_fault(claim, request) is None <==> claim is Stored,
        claim matches KeyClaim::Failed(e) ==> claim_fault(claim, request)->0.drop_first() == e@,
{
    let s0 = "another `rocm remote serve` claimed "@;
    let s1 = request.target;
    let s2 = " on port "@;
    let s3 = dec(request.remote_port as nat);
    let s4 =
            " while this one was preparing the machine.\nBoth runs name the session after the machine and the port, so carrying on would take over its credential and could leave it running with no way to call it.\nSee what is there: rocm remote status\nOr serve on another port with `--remote-port`."@;
    let x1 = s0 + s1;
    let x2 = x1 + s2;
    let x3 = x2 + s3;
    let x4 = x3 + s4;
    assert(claim_fault(KeyClaim::Held, request)->0[0] == x4);
    let part = "claimed "@ + s1 + s2 + s3 + " while"@;
    assert(has_text(x4, part)) by {
        let h = s0.subrange(0, 28);
        assert(s0 =~= h + "claimed "@) by {
            reveal_strlit("another `rocm remote serve` claimed ");
            reveal_strlit("claimed ");
        }
        let r = s4.subrange(6, s4.len() as int);
        assert(s4 =~= " while"@ + r) by {
            reveal_strlit(
                " while this one was preparing the machine.\nBoth runs name the session after the machine and the port, so carrying on would take over its credential and could leave it running with no way to call it.\nSee what is there: rocm remote status\nOr serve on another port with `--remote-port`.",
            );
            reveal_strlit(" while");
        }
        assert(x4 =~= h + part + r);
        lemma_has_text(h, part, r);
    }
    if let KeyClaim::Failed(e) = claim {
        assert(claim_fault(claim, request)->0.drop_first() =~= e@);
    }
}

/// Each way a start can fail is told for what it is: a name not claimed sends nothing, and
/// leaves the key that is there; contact that was lost and a start that was refused end
/// there, the second with what the machine complained of; a model that was started and
/// cannot be found keeps its key, for a person to use; and one that could not be published
/// is stopped again, by its own id.
pub proof fn law_a_failed_start_is_told_for_what_it_is(
    h: Seq<Exchange>,
    at: int,
    claim: KeyClaim,
    request: RequestView,
    context: ServeContext,
)
    ensures
        ({
            let talk = start_talk(h, at, claim, request, context);
            let cli = context.remote_cli@;
            let reply = reply_at(h, at);
            let found = discover_talk(h, at + 1, cli, request.remote_port);
            let p = publish_talk(h, found.end, request.tailnet_port, request.remote_port);
            let out = talk.value.outcome;
            let running = claim is Stored && reply is Ok && reply->Ok_0.success;
            &&& claim !is Stored ==> talk.end == at && out is Failed && !out->clear_key
            &&& claim is Stored ==> has_text(talk.value.lines[0], request.model + " on "@) && has_text(
                talk.value.lines[0],
                request.target,
            )
            &&& claim is Stored && reply is Err ==> talk.end == at + 1 && out is Failed
                && out->clear_key && out->Failed_error.drop_first() == reply->Err_0
            &&& claim is Stored && reply is Ok && !running ==> talk.end == at + 1 && out is Failed
                && out->clear_key && out->Failed_error.len() == 1 && has_text(
                out->Failed_error[0],
                request.target + ": "@ + trimmed(reply->Ok_0.stderr),
            )
            &&& running && found.value is Err ==> talk.end == found.end && out is Failed
                && !out->clear_key && out->Failed_error.drop_first() == found.value->Err_0
            &&& running && found.value is Ok && p.value is Ok ==> talk.end == p.end && out
                is Published
            &&& running && found.value is Ok && p.value is Err ==> talk.end == p.end + 1 && out
                is Failed && (talk.fits ==> p.fits && asks(
                h,
                p.end,
                stop_line(cli, found.value->Ok_0),
            ))
        }),
{
    let talk = start_talk(h, at, claim, request, context);
    let out = talk.value.outcome;
    let reply = reply_at(h, at);
    let none: Seq<char> = seq![];
    let first = request.model + " on "@;
    let line = "Starting "@ + request.model + " on "@ + request.target + " ..."@;
    assert(line =~= "Starting "@ + first + (request.target + " ..."@));
    lemma_has_text("Starting "@, first, request.target + " ..."@);
    lemma_has_text("Starting "@ + request.model + " on "@, request.target, " ..."@);
    if claim is Stored {
        assert(talk.value.lines[0] == line);
        if reply is Err {
            assert(out->Failed_error.drop_first() =~= reply->Err_0);
        } else if !reply->Ok_0.success {
            let a = "failed to start the model on "@;
            let b = request.target + ": "@ + trimmed(reply->Ok_0.stderr);
            assert(out->Failed_error[0] =~= a + b + none);
            lemma_has_text(a, b, none);
        } else {
            let found = discover_talk(h, at + 1, context.remote_cli@, request.remote_port);
            if found.value is Err {
                assert(out->Failed_error.drop_first() =~= found.value->Err_0);
            }
        }
    }
}

/// A session that could not be recorded is undone as it was made: its own endpoint is
/// withdrawn and then its own model stopped, by the tool that started it. The failure
/// keeps why it could not be recorded, and names the machine where anything was left.
pub proof fn law_an_unrecorded_session_is_undone_as_it_was_made(
    h: Seq<Exchange>,
    at: int,
    fault: Failure,
    record: SessionView,
    api_key: Seq<char>,
    key_path: Seq<char>,
)
    ensures
        ({
            let talk = finish_talk(h, at, Err(fault), record, api_key, key_path);
            let w = withdraw_talk(h, at, record.tailnet_port, record.remote_port);
            let error = talk.value->Failed_error;
            &&& talk.end == w.end + 1
            &&& talk.fits <==> w.fits && asks(
                h,
                w.end,
                stop_line(record.remote_cli, record.remote_service_id),
            )
            &&& error.len() > fault@.len() && error.subrange(
                error.len() - fault@.len(),
                error.len() as int,
            ) == fault@
            &&& !talk.value->clear_key ==> has_text(error[0], record.target)
        }),
        ({
            let done = finish_talk(h, at, Ok(()), record, api_key, key_path);
            &&& done.end == at && done.fits
            &&& done.value == FinishView::Serving(started_text(record, api_key, key_path))
        }),
{
    let talk = finish_talk(h, at, Err(fault), record, api_key, key_path);
    let error = talk.value->Failed_error;
    let inner = within("could not record the session on this machine"@, fault@);
    assert(inner.subrange(1, inner.len() as int) =~= fault@);
    if talk.value->clear_key {
        assert(error == inner);
    } else {
        assert(error.subrange(2, error.len() as int) =~= fault@);
        let u = unwind_talk(
            h,
            at,
            key_path,
            record.remote_cli,
            Some(record.remote_service_id),
            Some((record.tailnet_port, record.remote_port)),
        );
        let none: Seq<char> = seq![];
        let list = joined(u.value.map_values(|l: Seq<char>| "  - "@ + l), "\n"@);
        let a = record.target + " was left with things this command could not undo:\n"@ + list
            + "\nCheck it with: ssh "@;
        let b = " -- rocm services list"@;
        assert(error[0] == a + record.target + b);
        lemma_has_text(a, record.target, b);
    }
}

} // verus!
