//! Sessions once they run: looking at them, publishing them again, stopping
//! them.
//!
//! A session has two lives that end separately: the model server and the
//! published endpoint. They are observed and reported apart, since which of them
//! is wrong decides what to do.

use vstd::prelude::*;
use crate::failure::{full_of, headline_of, plain, told_text, Failure};
use crate::remote::publish::{
    observe as observe_publish, observed as publish_observed, publish, publish_talk, status_line,
    withdraw, withdraw_talk, ObservationView, PublishObservation, PublishState, StateView,
};
use crate::remote::serve::{stop_command, stop_line};
use crate::remote::services::{
    entry_views, list_command, list_line, parse_services, registry, EntryView, ServiceEntry,
};
use crate::remote::session::{RemoteSessionRecord, SessionView};
use crate::remote::transport::{
    asks, exit_label_of, goes_on, held, reply_at, reply_of, Exchange, RemoteOutcome, Reply, Talk,
    Transport,
};
use crate::text::{
    dec, flat, has_text, lemma_flat_holds, lemma_flat_push, lemma_goes_on, lemma_has_text,
    lemma_stands_within, occurs_at, opt_view, push_number, same, trim, trimmed,
};

verus! {

/// How a session's model server is doing.
#[derive(Debug, PartialEq, Eq)]
pub enum ServerHealth {
    Healthy,
    Pending,
    Failed,
    /// The machine could not be reached.
    Unreachable,
    /// The machine answered, but not in a way that could be read.
    Error,
    /// A state this version does not know. Not a failure: the machine most
    /// likely runs another version.
    Unrecognised { raw: String },
    /// The machine has no record of the service any more.
    Gone,
}

pub enum HealthView {
    Healthy,
    Pending,
    Failed,
    Unreachable,
    Error,
    Unrecognised(Seq<char>),
    Gone,
}

impl View for ServerHealth {
    type V = HealthView;

    open spec fn view(&self) -> HealthView {
        match *self {
            ServerHealth::Healthy => HealthView::Healthy,
            ServerHealth::Pending => HealthView::Pending,
            ServerHealth::Failed => HealthView::Failed,
            ServerHealth::Unreachable => HealthView::Unreachable,
            ServerHealth::Error => HealthView::Error,
            ServerHealth::Unrecognised { raw } => HealthView::Unrecognised(raw@),
            ServerHealth::Gone => HealthView::Gone,
        }
    }
}

pub open spec fn health_label(health: HealthView) -> Seq<char> {
    match health {
        HealthView::Healthy => "healthy"@,
        HealthView::Pending => "starting"@,
        HealthView::Failed => "failed"@,
        HealthView::Unreachable => "unreachable"@,
        HealthView::Error => "error"@,
        HealthView::Gone => "gone"@,
        HealthView::Unrecognised(_) => "unrecognised"@,
    }
}

pub open spec fn health_text(health: HealthView) -> Seq<char> {
    match health {
        HealthView::Unrecognised(raw) => "unrecognised state `"@ + raw
            + "` (the machine may run a different CLI version)"@,
        _ => health_label(health),
    }
}

impl ServerHealth {
    pub fn label(&self) -> (r: &'static str)
        ensures
            r@ == health_label(self@),
    {
        match self {
            ServerHealth::Healthy => "healthy",
            ServerHealth::Pending => "starting",
            ServerHealth::Failed => "failed",
            ServerHealth::Unreachable => "unreachable",
            ServerHealth::Error => "error",
            ServerHealth::Gone => "gone",
            ServerHealth::Unrecognised { .. } => "unrecognised",
        }
    }

    pub fn describe(&self) -> (r: String)
        ensures
            r@ == health_text(self@),
    {
        match self {
            ServerHealth::Unrecognised { raw } => {
                let mut out = "unrecognised state `".to_owned();
                out.push_str(raw.as_str());
                out.push_str("` (the machine may run a different CLI version)");
                out
            },
            _ => self.label().to_owned(),
        }
    }
}

/// The health a lifecycle word of the machine's registry stands for.
pub open spec fn health_of(raw: Seq<char>) -> HealthView {
    if raw == "ready"@ || raw == "running"@ {
        HealthView::Healthy
    } else if raw == "starting"@ || raw == "recovering"@ {
        HealthView::Pending
    } else if raw == "failed"@ || raw == "stopped"@ {
        HealthView::Failed
    } else {
        HealthView::Unrecognised(raw)
    }
}

pub fn health_from_status(raw: &str) -> (r: ServerHealth)
    ensures
        r@ == health_of(raw@),
{
    if same(raw, "ready") || same(raw, "running") {
        ServerHealth::Healthy
    } else if same(raw, "starting") || same(raw, "recovering") {
        ServerHealth::Pending
    } else if same(raw, "failed") || same(raw, "stopped") {
        ServerHealth::Failed
    } else {
        ServerHealth::Unrecognised { raw: raw.to_owned() }
    }
}

// ---------------------------------------------------------------------------
// Looking
// ---------------------------------------------------------------------------

/// Both lives of a session.
#[derive(Debug, PartialEq, Eq)]
pub struct SessionObservation {
    pub server: ServerHealth,
    pub publish: PublishObservation,
}

pub struct SessionObservationView {
    pub server: HealthView,
    pub publish: ObservationView,
}

impl View for SessionObservation {
    type V = SessionObservationView;

    open spec fn view(&self) -> SessionObservationView {
        SessionObservationView { server: self.server@, publish: self.publish@ }
    }
}

/// The health of a service in a registry: what its first entry says, or gone.
pub open spec fn health_in(entries: Seq<EntryView>, service_id: Seq<char>) -> HealthView
    decreases entries.len(),
{
    if entries.len() == 0 {
        HealthView::Gone
    } else if entries[0].service_id == service_id {
        health_of(entries[0].status)
    } else {
        health_in(entries.subrange(1, entries.len() as int), service_id)
    }
}

pub fn find_health(entries: &Vec<ServiceEntry>, service_id: &str) -> (r: ServerHealth)
    ensures
        r@ == health_in(entry_views(entries@), service_id@),
{
    let ghost all = entry_views(entries@);
    let mut i: usize = 0;
    assert(all.subrange(0, all.len() as int) =~= all);
    while i < entries.len()
        invariant
            i <= entries@.len(),
            all == entry_views(entries@),
            health_in(all, service_id@) == health_in(
                all.subrange(i as int, all.len() as int),
                service_id@,
            ),
        decreases entries@.len() - i,
    {
        let ghost rest = all.subrange(i as int, all.len() as int);
        assert(rest[0] == entries@[i as int]@);
        if same(entries[i].service_id.as_str(), service_id) {
            return health_from_status(entries[i].status.as_str());
        }
        assert(rest.subrange(1, rest.len() as int) =~= all.subrange(i + 1, all.len() as int));
        i += 1;
    }
    ServerHealth::Gone
}

/// What the machine's registry shows of a service.
pub open spec fn listed_health(listing: Seq<char>, service_id: Seq<char>) -> HealthView {
    match registry(listing) {
        Ok(entries) => health_in(entries, service_id),
        Err(_) => HealthView::Error,
    }
}

/// Looking at a session: the registry first, then the endpoint. A machine that
/// answered the first question is asked the second, whatever it answered; one
/// that could not be reached is not.
pub open spec fn observe_talk(h: Seq<Exchange>, at: int, record: SessionView) -> Talk<
    SessionObservationView,
> {
    let listed = asks(h, at, list_line(record.remote_cli));
    match reply_at(h, at) {
        Err(_) => Talk {
            fits: listed,
            end: at + 1,
            value: SessionObservationView {
                server: HealthView::Unreachable,
                publish: ObservationView::Unreachable("the machine could not be reached over ssh"@),
            },
        },
        Ok(outcome) => Talk {
            fits: listed && asks(h, at + 1, status_line()),
            end: at + 2,
            value: SessionObservationView {
                server: if outcome.success {
                    listed_health(outcome.stdout, record.remote_service_id)
                } else {
                    HealthView::Error
                },
                publish: publish_observed(
                    reply_at(h, at + 1),
                    record.tailnet_port,
                    record.remote_port,
                ),
            },
        },
    }
}

pub fn observe<T: Transport>(transport: &mut T, record: &RemoteSessionRecord) -> (r:
    SessionObservation)
    ensures
        held(
            old(transport).history(),
            final(transport).history(),
            observe_talk(
                final(transport).history(),
                old(transport).history().len() as int,
                record@,
            ),
        ),
        r@ == observe_talk(
            final(transport).history(),
            old(transport).history().len() as int,
            record@,
        ).value,
{
    match transport.exec(list_command(record.remote_cli.as_str()).as_str()) {
        Err(_) => SessionObservation {
            server: ServerHealth::Unreachable,
            publish: PublishObservation::Unreachable(
                "the machine could not be reached over ssh".to_owned(),
            ),
        },
        Ok(outcome) => {
            let server = if outcome.success {
                match parse_services(outcome.stdout.as_str()) {
                    Ok(entries) => find_health(&entries, record.remote_service_id.as_str()),
                    Err(_) => ServerHealth::Error,
                }
            } else {
                ServerHealth::Error
            };
            SessionObservation {
                server,
                publish: observe_publish(transport, record.tailnet_port, record.remote_port),
            }
        },
    }
}

/// What a session on a machine that cannot be addressed looks like: nothing was
/// sent, and why.
pub fn unaddressable(error: &Failure) -> (r: SessionObservation)
    ensures
        r@ == (SessionObservationView {
            server: HealthView::Unreachable,
            publish: ObservationView::Unreachable(full_of(error@)),
        }),
{
    SessionObservation {
        server: ServerHealth::Unreachable,
        publish: PublishObservation::Unreachable(error.full()),
    }
}

// ---------------------------------------------------------------------------
// Reporting
// ---------------------------------------------------------------------------

/// A session, what was seen of it, and where its credential is kept.
pub struct ObservedSession {
    pub record: RemoteSessionRecord,
    pub observed: SessionObservation,
    pub key_path: String,
}

pub struct ObservedView {
    pub record: SessionView,
    pub observed: SessionObservationView,
    pub key_path: Seq<char>,
}

impl View for ObservedSession {
    type V = ObservedView;

    open spec fn view(&self) -> ObservedView {
        ObservedView {
            record: self.record@,
            observed: self.observed@,
            key_path: self.key_path@,
        }
    }
}

pub open spec fn observed_views(s: Seq<ObservedSession>) -> Seq<ObservedView> {
    s.map_values(|o: ObservedSession| o@)
}

/// The one command that repairs a session, where exactly one thing is wrong.
pub open spec fn hint_for(record: SessionView, seen: SessionObservationView) -> Option<Seq<char>> {
    match seen.server {
        HealthView::Healthy => match seen.publish {
            ObservationView::Known(StateView::Absent) => Some(
                "fix: rocm remote attach "@ + record.session_id
                    + " (the model is fine; only the endpoint is missing)"@,
            ),
            _ => None,
        },
        HealthView::Failed | HealthView::Gone => Some(
            "fix: rocm remote stop "@ + record.session_id + " then serve again"@,
        ),
        _ => None,
    }
}

pub fn repair_hint(record: &RemoteSessionRecord, observed: &SessionObservation) -> (r: Option<
    String,
>)
    ensures
        opt_view(r) == hint_for(record@, observed@),
{
    match &observed.server {
        ServerHealth::Healthy => match &observed.publish {
            PublishObservation::Known(PublishState::Absent) => {
                let mut out = "fix: rocm remote attach ".to_owned();
                out.push_str(record.session_id.as_str());
                out.push_str(" (the model is fine; only the endpoint is missing)");
                Some(out)
            },
            _ => None,
        },
        ServerHealth::Failed | ServerHealth::Gone => {
            let mut out = "fix: rocm remote stop ".to_owned();
            out.push_str(record.session_id.as_str());
            out.push_str(" then serve again");
            Some(out)
        },
        _ => None,
    }
}

/// What is said of the endpoint. Nothing but an answer that says so reads "yes"
/// or "no".
pub open spec fn published_text(publish: ObservationView, tailnet_port: u16) -> Seq<char> {
    match publish {
        ObservationView::Known(StateView::Published) => "yes"@,
        ObservationView::Known(StateView::Absent) => "no"@,
        ObservationView::Known(StateView::Foreign(to)) => "no — that port now forwards to "@ + to,
        ObservationView::Known(StateView::FunnelAllowed) =>
            "exposed — Tailscale Funnel is allowed on that port, which puts it on the public internet; run `tailscale funnel --tcp="@
            + dec(tailnet_port as nat) + " off` on the remote, then check again"@,
        ObservationView::Known(StateView::Unreadable) =>
            "unknown — the machine's reply could not be read"@,
        ObservationView::Failed(why) => "unknown — the machine answered: "@ + why,
        ObservationView::Unreachable(why) => "unknown — the machine could not be asked: "@ + why,
    }
}

fn describe_published(publish: &PublishObservation, tailnet_port: u16) -> (r: String)
    ensures
        r@ == published_text(publish@, tailnet_port),
{
    match publish {
        PublishObservation::Known(state) => match state {
            PublishState::Published => "yes".to_owned(),
            PublishState::Absent => "no".to_owned(),
            PublishState::Foreign { forwards_to } => {
                let mut out = "no — that port now forwards to ".to_owned();
                out.push_str(forwards_to.as_str());
                out
            },
            PublishState::FunnelAllowed => {
                let mut out =
                    "exposed — Tailscale Funnel is allowed on that port, which puts it on the public internet; run `tailscale funnel --tcp=".to_owned();
                push_number(&mut out, tailnet_port as u128);
                out.push_str(" off` on the remote, then check again");
                out
            },
            PublishState::Unreadable =>
                "unknown — the machine's reply could not be read".to_owned(),
        },
        PublishObservation::Failed(why) => {
            let mut out = "unknown — the machine answered: ".to_owned();
            out.push_str(why.as_str());
            out
        },
        PublishObservation::Unreachable(why) => {
            let mut out = "unknown — the machine could not be asked: ".to_owned();
            out.push_str(why.as_str());
            out
        },
    }
}

/// One session's entry.
pub open spec fn session_entry(out: Seq<char>, s: ObservedView) -> Seq<char> {
    let body = out + "- "@ + s.record.session_id + "\n  machine:  "@ + s.record.target
        + "\n  model:    "@ + s.record.model + "\n  endpoint: "@ + s.record.base_url
        + "\n  key file: "@ + s.key_path + "\n  model server: "@ + health_text(s.observed.server)
        + "\n  endpoint published: "@ + published_text(s.observed.publish, s.record.tailnet_port)
        + "\n"@;
    match hint_for(s.record, s.observed) {
        Some(hint) => body + "  "@ + hint + "\n"@,
        None => body,
    }
}

pub open spec fn session_entries(out: Seq<char>, all: Seq<ObservedView>) -> Seq<char>
    decreases all.len(),
{
    if all.len() == 0 {
        out
    } else {
        session_entry(session_entries(out, all.drop_last()), all.last())
    }
}

/// Whether some session's server is gone.
pub open spec fn any_gone(all: Seq<ObservedView>) -> bool {
    exists|i: int| 0 <= i < all.len() && (#[trigger] all[i]).observed.server is Gone
}

/// What `rocm remote status` prints of the sessions there are.
pub open spec fn status_text(all: Seq<ObservedView>) -> Seq<char> {
    let body = session_entries("Remote Sessions\n\n"@, all);
    if any_gone(all) {
        body
            + "\nA session whose model server is gone may still be publishing its port.\nRun `rocm remote stop <session>` to clear it.\n"@
    } else {
        body
    }
}

fn put_session(out: &mut String, s: &ObservedSession)
    ensures
        final(out)@ == session_entry(old(out)@, s@),
{
    out.push_str("- ");
    out.push_str(s.record.session_id.as_str());
    out.push_str("\n  machine:  ");
    out.push_str(s.record.target.as_str());
    out.push_str("\n  model:    ");
    out.push_str(s.record.model.as_str());
    out.push_str("\n  endpoint: ");
    out.push_str(s.record.base_url.as_str());
    out.push_str("\n  key file: ");
    out.push_str(s.key_path.as_str());
    out.push_str("\n  model server: ");
    out.push_str(s.observed.server.describe().as_str());
    out.push_str("\n  endpoint published: ");
    out.push_str(describe_published(&s.observed.publish, s.record.tailnet_port).as_str());
    out.push_str("\n");
    if let Some(hint) = repair_hint(&s.record, &s.observed) {
        out.push_str("  ");
        out.push_str(hint.as_str());
        out.push_str("\n");
    }
}

pub fn render_status(observations: &Vec<ObservedSession>) -> (r: String)
    ensures
        r@ == status_text(observed_views(observations@)),
{
    let ghost all = observed_views(observations@);
    let mut out = "Remote Sessions\n\n".to_owned();
    let ghost head = out@;
    let mut gone = false;
    let mut i: usize = 0;
    assert(all.subrange(0, 0) =~= seq![]);
    while i < observations.len()
        invariant
            i <= observations@.len(),
            all == observed_views(observations@),
            head == "Remote Sessions\n\n"@,
            out@ == session_entries(head, all.subrange(0, i as int)),
            gone ==> any_gone(all),
            !gone ==> forall|j: int| 0 <= j < i ==> !((#[trigger] all[j]).observed.server is Gone),
        decreases observations@.len() - i,
    {
        assert(all.subrange(0, i + 1).drop_last() =~= all.subrange(0, i as int));
        assert(all.subrange(0, i + 1).last() == observations@[i as int]@);
        assert(all[i as int] == observations@[i as int]@);
        put_session(&mut out, &observations[i]);
        if matches!(observations[i].observed.server, ServerHealth::Gone) {
            assert(all[i as int].observed.server is Gone);
            gone = true;
        }
        i += 1;
    }
    assert(all.subrange(0, all.len() as int) =~= all);
    if gone {
        out.push_str(
            "\nA session whose model server is gone may still be publishing its port.\nRun `rocm remote stop <session>` to clear it.\n",
        );
    }
    out
}

/// What `rocm remote status` prints: the sessions, or that there are none.
pub fn status(observations: &Vec<ObservedSession>) -> (r: String)
    ensures
        r@ == (if observations@.len() == 0 {
            "No remote sessions have been started from this machine.\n\nStart one with `rocm remote serve <machine> <model>`.\n"@
        } else {
            status_text(observed_views(observations@))
        }),
{
    if observations.len() == 0 {
        return
            "No remote sessions have been started from this machine.\n\nStart one with `rocm remote serve <machine> <model>`.\n".to_owned();
    }
    render_status(observations)
}

// ---------------------------------------------------------------------------
// Publishing again
// ---------------------------------------------------------------------------

pub open spec fn nothing_behind(record: SessionView, health: HealthView) -> Seq<char> {
    "the model server for "@ + record.session_id + " is "@ + health_label(health) + " on "@
        + record.target
        + ", so re-publishing would give you an endpoint with nothing behind it.\nRun `rocm remote stop "@
        + record.session_id + "` and serve again."@
}

/// Publishing a session again: looked at first, and only where its server is
/// there or on its way.
pub open spec fn attach_talk(h: Seq<Exchange>, at: int, record: SessionView) -> Talk<
    Result<Seq<char>, Seq<Seq<char>>>,
> {
    let o = observe_talk(h, at, record);
    if o.value.server is Healthy || o.value.server is Pending {
        let p = publish_talk(h, o.end, record.tailnet_port, record.remote_port);
        Talk {
            fits: o.fits && p.fits,
            end: p.end,
            value: match p.value {
                Ok(_) => Ok(
                    "Endpoint re-published: "@ + record.base_url
                        + "\nThe model was not restarted.\n"@,
                ),
                Err(e) => Err(e),
            },
        }
    } else {
        Talk { fits: o.fits, end: o.end, value: Err(plain(nothing_behind(record, o.value.server))) }
    }
}

proof fn lemma_observe_goes_on(h: Seq<Exchange>, g: Seq<Exchange>, at: int, record: SessionView)
    requires
        goes_on(h, g),
        observe_talk(h, at, record).fits,
        observe_talk(h, at, record).end <= h.len(),
    ensures
        observe_talk(g, at, record) == observe_talk(h, at, record),
{
}

pub fn attach_with_transport<T: Transport>(transport: &mut T, record: &RemoteSessionRecord) -> (r:
    Result<String, Failure>)
    ensures
        held(
            old(transport).history(),
            final(transport).history(),
            attach_talk(
                final(transport).history(),
                old(transport).history().len() as int,
                record@,
            ),
        ),
        told_text(r) == attach_talk(
            final(transport).history(),
            old(transport).history().len() as int,
            record@,
        ).value,
{
    let ghost h0 = transport.history();
    let seen = observe(transport, record);
    let ghost h1 = transport.history();
    let there = match &seen.server {
        ServerHealth::Healthy | ServerHealth::Pending => true,
        _ => false,
    };
    if !there {
        let mut message = "the model server for ".to_owned();
        message.push_str(record.session_id.as_str());
        message.push_str(" is ");
        message.push_str(seen.server.label());
        message.push_str(" on ");
        message.push_str(record.target.as_str());
        message.push_str(
            ", so re-publishing would give you an endpoint with nothing behind it.\nRun `rocm remote stop ",
        );
        message.push_str(record.session_id.as_str());
        message.push_str("` and serve again.");
        return Err(Failure::new(message));
    }
    let published = publish(transport, record.tailnet_port, record.remote_port);
    proof {
        lemma_observe_goes_on(h1, transport.history(), h0.len() as int, record@);
    }
    match published {
        Err(e) => Err(e),
        Ok(_) => {
            let mut out = "Endpoint re-published: ".to_owned();
            out.push_str(record.base_url.as_str());
            out.push_str("\nThe model was not restarted.\n");
            Ok(out)
        },
    }
}

// ---------------------------------------------------------------------------
// Stopping
// ---------------------------------------------------------------------------

/// Why the machine could not stop the model, if it could not: its own words, or
/// why it was never reached.
pub open spec fn stop_failure(reply: Reply) -> Option<Seq<char>> {
    match reply {
        Ok(outcome) => if outcome.success {
            None
        } else if trimmed(outcome.stderr).len() == 0 {
            Some(
                "the machine answered but the command failed (exit "@ + exit_label_of(outcome.code)
                    + ")"@,
            )
        } else {
            Some(
                "the machine answered (exit "@ + exit_label_of(outcome.code) + "): "@ + trimmed(
                    outcome.stderr,
                ),
            )
        },
        Err(e) => Some(full_of(e)),
    }
}

pub fn describe_stop_failure(stopped: &Result<RemoteOutcome, Failure>) -> (r: Option<String>)
    ensures
        opt_view(r) == stop_failure(reply_of(*stopped)),
{
    match stopped {
        Ok(outcome) => {
            if outcome.success {
                return None;
            }
            let stderr = trim(outcome.stderr.as_str());
            let label = outcome.exit_label();
            if stderr.as_str().is_empty() {
                let mut out = "the machine answered but the command failed (exit ".to_owned();
                out.push_str(label.as_str());
                out.push_str(")");
                Some(out)
            } else {
                let mut out = "the machine answered (exit ".to_owned();
                out.push_str(label.as_str());
                out.push_str("): ");
                out.push_str(stderr.as_str());
                Some(out)
            }
        },
        Err(e) => Some(e.full()),
    }
}

/// What is said of a session that was stopped. One that was forced while
/// something may be left is louder, not quieter.
pub open spec fn stopped_text(
    record: SessionView,
    withdrawn: bool,
    model_stopped: bool,
    forced: bool,
) -> Seq<char> {
    let word = |done: bool|
        if done {
            "yes"@
        } else {
            "NOT CONFIRMED"@
        };
    let body = "Stopped "@ + record.session_id + ".\n  endpoint withdrawn: "@ + word(withdrawn)
        + "\n  model server stopped: "@ + word(model_stopped) + "\n"@;
    if forced && !(withdrawn && model_stopped) {
        let warned = body + "\nThe session was forgotten on this machine, but "@ + record.target
            + " may still be running it.\n"@;
        let with_endpoint = if !withdrawn {
            warned
                + "  endpoint still reachable on the tailnet — clear it with:\n    ssh "@
                + record.target + " -- tailscale serve --tcp="@ + dec(record.tailnet_port as nat)
                + " off\n"@
        } else {
            warned
        };
        if !model_stopped {
            with_endpoint + "  model may still hold the GPU — check with:\n    ssh "@
                + record.target + " -- "@ + record.remote_cli + " services list\n"@
        } else {
            with_endpoint
        }
    } else {
        body
    }
}

fn confirmed(done: bool) -> (r: &'static str)
    ensures
        r@ == (if done {
            "yes"@
        } else {
            "NOT CONFIRMED"@
        }),
{
    if done {
        "yes"
    } else {
        "NOT CONFIRMED"
    }
}

pub fn render_stopped(
    record: &RemoteSessionRecord,
    withdrawn: bool,
    model_stopped: bool,
    forced: bool,
) -> (r: String)
    ensures
        r@ == stopped_text(record@, withdrawn, model_stopped, forced),
{
    let mut out = "Stopped ".to_owned();
    out.push_str(record.session_id.as_str());
    out.push_str(".\n  endpoint withdrawn: ");
    out.push_str(confirmed(withdrawn));
    out.push_str("\n  model server stopped: ");
    out.push_str(confirmed(model_stopped));
    out.push_str("\n");
    if forced && !(withdrawn && model_stopped) {
        out.push_str("\nThe session was forgotten on this machine, but ");
        out.push_str(record.target.as_str());
        out.push_str(" may still be running it.\n");
        if !withdrawn {
            out.push_str("  endpoint still reachable on the tailnet — clear it with:\n    ssh ");
            out.push_str(record.target.as_str());
            out.push_str(" -- tailscale serve --tcp=");
            push_number(&mut out, record.tailnet_port as u128);
            out.push_str(" off\n");
        }
        if !model_stopped {
            out.push_str("  model may still hold the GPU — check with:\n    ssh ");
            out.push_str(record.target.as_str());
            out.push_str(" -- ");
            out.push_str(record.remote_cli.as_str());
            out.push_str(" services list\n");
        }
    }
    out
}

pub open spec fn not_withdrawn(record: SessionView, error: Seq<char>) -> Seq<char> {
    "could not confirm the endpoint for "@ + record.session_id + " was withdrawn: "@ + error
        + "\nThe session is still listed so you can retry with `rocm remote stop "@
        + record.session_id + "`.\nTo clear it by hand: ssh "@ + record.target
        + " -- tailscale serve --tcp="@ + dec(record.tailnet_port as nat)
        + " off\nTo forget it locally anyway: rocm remote stop "@ + record.session_id + " --force"@
}

pub open spec fn not_stopped(record: SessionView, why: Seq<char>) -> Seq<char> {
    "the endpoint for "@ + record.session_id
        + " was withdrawn, but its model could not be stopped: "@ + why
        + "\nThe session is still listed so you can retry with `rocm remote stop "@
        + record.session_id + "`.\nTo check the machine: ssh "@ + record.target + " -- "@
        + record.remote_cli + " services list\nTo forget it locally anyway: rocm remote stop "@
        + record.session_id + " --force"@
}

/// Stopping a session: the endpoint first, then the model. It is forgotten, and
/// its credential with it, only where both are confirmed or it is forced.
pub open spec fn stop_talk(h: Seq<Exchange>, at: int, record: SessionView, force: bool) -> Talk<
    Result<Seq<char>, Seq<Seq<char>>>,
> {
    let w = withdraw_talk(h, at, record.tailnet_port, record.remote_port);
    let failed = stop_failure(reply_at(h, w.end));
    Talk {
        fits: w.fits && asks(h, w.end, stop_line(record.remote_cli, record.remote_service_id)),
        end: w.end + 1,
        value: if !force && w.value is Err {
            Err(plain(not_withdrawn(record, headline_of(w.value->Err_0))))
        } else if !force && failed is Some {
            Err(plain(not_stopped(record, failed->0)))
        } else {
            Ok(stopped_text(record, w.value is Ok, failed is None, force))
        },
    }
}

proof fn lemma_withdraw_goes_on(h: Seq<Exchange>, g: Seq<Exchange>, at: int, tp: u16, rp: u16)
    requires
        goes_on(h, g),
        withdraw_talk(h, at, tp, rp).fits,
        withdraw_talk(h, at, tp, rp).end <= h.len(),
    ensures
        withdraw_talk(g, at, tp, rp) == withdraw_talk(h, at, tp, rp),
{
}

/// Stops a session. Where it succeeds, the record and the credential are to be
/// deleted and the text shown; where it fails, both are to be kept.
pub fn stop_with_transport<T: Transport>(
    transport: &mut T,
    record: &RemoteSessionRecord,
    force: bool,
) -> (r: Result<String, Failure>)
    ensures
        held(
            old(transport).history(),
            final(transport).history(),
            stop_talk(
                final(transport).history(),
                old(transport).history().len() as int,
                record@,
                force,
            ),
        ),
        told_text(r) == stop_talk(
            final(transport).history(),
            old(transport).history().len() as int,
            record@,
            force,
        ).value,
{
    let ghost h0 = transport.history();
    let withdrawn = withdraw(transport, record.tailnet_port, record.remote_port);
    let ghost h1 = transport.history();
    let stopped = transport.exec(
        stop_command(record.remote_cli.as_str(), record.remote_service_id.as_str()).as_str(),
    );
    proof {
        lemma_withdraw_goes_on(
            h1,
            transport.history(),
            h0.len() as int,
            record@.tailnet_port,
            record@.remote_port,
        );
    }
    let stop_failure = describe_stop_failure(&stopped);
    if !force {
        if let Err(e) = &withdrawn {
            let mut message = "could not confirm the endpoint for ".to_owned();
            message.push_str(record.session_id.as_str());
            message.push_str(" was withdrawn: ");
            message.push_str(e.headline().as_str());
            message.push_str(
                "\nThe session is still listed so you can retry with `rocm remote stop ",
            );
            message.push_str(record.session_id.as_str());
            message.push_str("`.\nTo clear it by hand: ssh ");
            message.push_str(record.target.as_str());
            message.push_str(" -- tailscale serve --tcp=");
            push_number(&mut message, record.tailnet_port as u128);
            message.push_str(" off\nTo forget it locally anyway: rocm remote stop ");
            message.push_str(record.session_id.as_str());
            message.push_str(" --force");
            return Err(Failure::new(message));
        }
        if let Some(why) = &stop_failure {
            let mut message = "the endpoint for ".to_owned();
            message.push_str(record.session_id.as_str());
            message.push_str(" was withdrawn, but its model could not be stopped: ");
            message.push_str(why.as_str());
            message.push_str(
                "\nThe session is still listed so you can retry with `rocm remote stop ",
            );
            message.push_str(record.session_id.as_str());
            message.push_str("`.\nTo check the machine: ssh ");
            message.push_str(record.target.as_str());
            message.push_str(" -- ");
            message.push_str(record.remote_cli.as_str());
            message.push_str(" services list\nTo forget it locally anyway: rocm remote stop ");
            message.push_str(record.session_id.as_str());
            message.push_str(" --force");
            return Err(Failure::new(message));
        }
    }
    Ok(render_stopped(record, withdrawn.is_ok(), stop_failure.is_none(), force))
}

// ---------------------------------------------------------------------------
// Laws
// ---------------------------------------------------------------------------

/// Without force a session is forgotten exactly where the endpoint is confirmed
/// withdrawn and the model confirmed stopped.
pub proof fn law_a_session_is_forgotten_only_when_it_is_down(
    h: Seq<Exchange>,
    at: int,
    record: SessionView,
)
    ensures
        ({
            let w = withdraw_talk(h, at, record.tailnet_port, record.remote_port);
            stop_talk(h, at, record, false).value is Ok <==> w.value is Ok && (reply_at(
                h,
                w.end,
            ) matches Ok(outcome) && outcome.success)
        }),
{
}

/// A forced stop always forgets the session, and still sends what an unforced
/// one sends.
pub proof fn law_a_forced_stop_forgets(h: Seq<Exchange>, at: int, record: SessionView)
    ensures
        stop_talk(h, at, record, true).value is Ok,
        stop_talk(h, at, record, true).fits == stop_talk(h, at, record, false).fits,
        stop_talk(h, at, record, true).end == stop_talk(h, at, record, false).end,
{
}

/// A session is published again only over a server that is up or starting:
/// otherwise nothing is sent beyond the two questions, and it fails.
pub proof fn law_nothing_is_published_over_a_dead_server(
    h: Seq<Exchange>,
    at: int,
    record: SessionView,
)
    requires
        ({
            let server = observe_talk(h, at, record).value.server;
            !(server is Healthy) && !(server is Pending)
        }),
    ensures
        attach_talk(h, at, record).end == observe_talk(h, at, record).end,
        attach_talk(h, at, record).value is Err,
{
}

/// A machine that answers is never reported unreachable, and one that does not
/// is reported nothing else.
pub proof fn law_unreachable_means_never_reached(h: Seq<Exchange>, at: int, record: SessionView)
    ensures
        observe_talk(h, at, record).value.server is Unreachable <==> reply_at(h, at) is Err,
{
    match reply_at(h, at) {
        Ok(outcome) => {
            if outcome.success {
                match registry(outcome.stdout) {
                    Ok(entries) => {
                        lemma_health_in(entries, record.remote_service_id);
                    },
                    Err(_) => {},
                }
            }
        },
        Err(_) => {},
    }
}

proof fn lemma_health_in(entries: Seq<EntryView>, service_id: Seq<char>)
    ensures
        !(health_in(entries, service_id) is Unreachable),
    decreases entries.len(),
{
    if entries.len() > 0 && entries[0].service_id != service_id {
        lemma_health_in(entries.subrange(1, entries.len() as int), service_id);
    }
}

/// A state that the registry reports counts as what the machine means by it, and a
/// word of another version counts as none of them.
pub proof fn law_a_reported_state_counts_as_what_it_means(raw: Seq<char>)
    ensures
        health_of(raw) is Healthy <==> raw == "ready"@ || raw == "running"@,
        health_of(raw) is Pending <==> raw == "starting"@ || raw == "recovering"@,
        health_of(raw) is Failed <==> raw == "failed"@ || raw == "stopped"@,
        !(health_of(raw) is Healthy) && !(health_of(raw) is Pending) && !(health_of(raw) is Failed)
            ==> health_of(raw) == HealthView::Unrecognised(raw),
{
    reveal_strlit("ready");
    reveal_strlit("running");
    reveal_strlit("starting");
    reveal_strlit("recovering");
    reveal_strlit("failed");
    reveal_strlit("stopped");
    assert("ready"@[0] == 'r' && "running"@[1] == 'u' && "recovering"@[1] == 'e');
    assert("ready"@.len() == 5 && "running"@.len() == 7 && "recovering"@.len() == 10);
    assert("starting"@.len() == 8 && "failed"@.len() == 6);
    assert("stopped"@.len() == 7 && "stopped"@[0] == 's');
}

/// The health of a session's server is what the first entry under its id says, and
/// gone exactly where the registry has no entry under it.
pub proof fn law_a_server_is_found_by_its_id(entries: Seq<EntryView>, id: Seq<char>, i: int)
    ensures
        (forall|k: int| 0 <= k < entries.len() ==> (#[trigger] entries[k]).service_id != id)
            <==> health_in(entries, id) is Gone,
        0 <= i < entries.len() && entries[i].service_id == id && (forall|k: int|
            0 <= k < i ==> (#[trigger] entries[k]).service_id != id) ==> health_in(entries, id)
            == health_of(entries[i].status),
    decreases entries.len(),
{
    if entries.len() > 0 {
        let rest = entries.subrange(1, entries.len() as int);
        law_a_server_is_found_by_its_id(rest, id, i - 1);
        assert forall|k: int| 0 <= k < rest.len() implies rest[k] == entries[k + 1] by {}
        if entries[0].service_id != id {
            if forall|k: int| 0 <= k < rest.len() ==> (#[trigger] rest[k]).service_id != id {
                assert forall|k: int| 0 <= k < entries.len() implies (
                #[trigger] entries[k]).service_id != id by {
                    if k > 0 {
                        assert(rest[k - 1].service_id != id);
                    }
                }
            } else {
                let k = choose|k: int|
                    0 <= k < rest.len() && (#[trigger] rest[k]).service_id == id;
                assert(entries[k + 1].service_id == id);
            }
            if 0 < i < entries.len() && entries[i].service_id == id && (forall|k: int|
                0 <= k < i ==> (#[trigger] entries[k]).service_id != id) {
                assert(rest[i - 1] == entries[i]);
                assert forall|k: int| 0 <= k < i - 1 implies (#[trigger] rest[k]).service_id
                    != id by {
                    assert(entries[k + 1].service_id != id);
                }
            }
        }
    }
}

/// Looking at a session asks the machine for its services and, where it answered, for
/// what it forwards, and for nothing else. The server is judged by the first answer
/// and the endpoint by the second.
pub proof fn law_a_session_is_judged_by_two_answers(
    h: Seq<Exchange>,
    at: int,
    record: SessionView,
)
    ensures
        ({
            let o = observe_talk(h, at, record);
            let first = reply_at(h, at);
            &&& o.fits ==> asks(h, at, list_line(record.remote_cli))
            &&& first is Err ==> o.end == at + 1 && o.value.publish is Unreachable
            &&& first is Ok ==> o.end == at + 2 && (o.fits ==> asks(h, at + 1, status_line()))
                && o.value.publish == publish_observed(
                reply_at(h, at + 1),
                record.tailnet_port,
                record.remote_port,
            )
            &&& first is Ok && !first->Ok_0.success ==> o.value.server is Error
            &&& first is Ok && first->Ok_0.success ==> (match registry(first->Ok_0.stdout) {
                Ok(entries) => o.value.server == health_in(entries, record.remote_service_id),
                Err(_) => o.value.server is Error,
            })
        }),
{
}

/// The one command that repairs a session is offered where it repairs it: publishing
/// it again where a healthy server is not published, and stopping it where the server
/// failed or is gone. Nothing else is offered, and the session is named.
pub proof fn law_a_repair_is_offered_where_it_repairs(
    record: SessionView,
    seen: SessionObservationView,
)
    ensures
        ({
            let hint = hint_for(record, seen);
            let attach = seen.server is Healthy && seen.publish == ObservationView::Known(
                StateView::Absent,
            );
            let stop = seen.server is Failed || seen.server is Gone;
            &&& hint is Some <==> attach || stop
            &&& attach ==> has_text(hint->0, "rocm remote attach "@ + record.session_id)
            &&& stop ==> has_text(hint->0, "rocm remote stop "@ + record.session_id)
        }),
{
    let id = record.session_id;
    reveal_strlit("fix: rocm remote attach ");
    reveal_strlit("fix: rocm remote stop ");
    reveal_strlit("fix: ");
    reveal_strlit("rocm remote attach ");
    reveal_strlit("rocm remote stop ");
    let a = "rocm remote attach "@ + id;
    let b = " (the model is fine; only the endpoint is missing)"@;
    assert("fix: rocm remote attach "@ + id + b =~= "fix: "@ + a + b);
    lemma_has_text("fix: "@, a, b);
    let c = "rocm remote stop "@ + id;
    assert("fix: rocm remote stop "@ + id + " then serve again"@ =~= "fix: "@ + c
        + " then serve again"@);
    lemma_has_text("fix: "@, c, " then serve again"@);
}

/// An endpoint is said to be published exactly where the machine says so, and not to
/// be where the machine says that nothing of ours is on the port. Everything else is
/// said to be unknown, or exposed.
pub proof fn law_yes_and_no_are_said_of_answers_alone(publish: ObservationView, port: u16)
    ensures
        published_text(publish, port) == "yes"@ <==> publish == ObservationView::Known(
            StateView::Published,
        ),
        occurs_at(published_text(publish, port), "no"@, 0) <==> publish == ObservationView::Known(
            StateView::Absent,
        ) || (publish is Known && publish->Known_0 is Foreign),
        occurs_at(published_text(publish, port), "exposed"@, 0) <==> publish
            == ObservationView::Known(StateView::FunnelAllowed),
        occurs_at(published_text(publish, port), "unknown"@, 0) <==> publish is Failed || publish
            is Unreachable || publish == ObservationView::Known(StateView::Unreadable),
        publish matches ObservationView::Known(StateView::Foreign(to)) ==> has_text(
            published_text(publish, port),
            to,
        ),
        publish matches ObservationView::Failed(why) ==> has_text(
            published_text(publish, port),
            why,
        ),
{
    let told = published_text(publish, port);
    let none: Seq<char> = seq![];
    reveal_strlit("yes");
    reveal_strlit("no");
    reveal_strlit("exposed");
    reveal_strlit("unknown");
    reveal_strlit("no — that port now forwards to ");
    reveal_strlit(
        "exposed — Tailscale Funnel is allowed on that port, which puts it on the public internet; run `tailscale funnel --tcp=",
    );
    reveal_strlit("unknown — the machine's reply could not be read");
    reveal_strlit("unknown — the machine answered: ");
    reveal_strlit("unknown — the machine could not be asked: ");
    assert(told.len() >= 2);
    if occurs_at(told, "no"@, 0) {
        assert(told.subrange(0, 2)[0] == told[0]);
    }
    if occurs_at(told, "exposed"@, 0) {
        assert(told.subrange(0, 7)[0] == told[0]);
    }
    if occurs_at(told, "unknown"@, 0) {
        assert(told.subrange(0, 7)[0] == told[0]);
    }
    match publish {
        ObservationView::Known(StateView::Published) => {},
        ObservationView::Known(StateView::Absent) => {
            assert(told.subrange(0, 2) =~= "no"@);
        },
        ObservationView::Known(StateView::Foreign(to)) => {
            assert(told.subrange(0, 2) =~= "no"@);
            assert(told =~= "no — that port now forwards to "@ + to + none);
            lemma_has_text("no — that port now forwards to "@, to, none);
        },
        ObservationView::Known(StateView::FunnelAllowed) => {
            assert(told.subrange(0, 7) =~= "exposed"@);
        },
        ObservationView::Known(StateView::Unreadable) => {
            assert(told.subrange(0, 7) =~= "unknown"@);
        },
        ObservationView::Failed(why) => {
            assert(told.subrange(0, 7) =~= "unknown"@);
            assert(told =~= "unknown — the machine answered: "@ + why + none);
            lemma_has_text("unknown — the machine answered: "@, why, none);
        },
        ObservationView::Unreachable(why) => {
            assert(told.subrange(0, 7) =~= "unknown"@);
        },
    }
}

/// Every session is listed, with its machine, its model, its address, the file its
/// key is in, what was seen of its server and its endpoint, and the repair that is
/// offered. That a server is gone is said exactly where one is.
pub proof fn law_every_session_is_listed(all: Seq<ObservedView>, i: int)
    requires
        0 <= i < all.len(),
    ensures
        ({
            let told = status_text(all);
            let s = all[i];
            &&& has_text(told, "- "@ + s.record.session_id + "\n"@)
            &&& has_text(told, "  machine:  "@ + s.record.target + "\n"@)
            &&& has_text(told, "  model:    "@ + s.record.model + "\n"@)
            &&& has_text(told, "  endpoint: "@ + s.record.base_url + "\n"@)
            &&& has_text(told, "  key file: "@ + s.key_path + "\n"@)
            &&& has_text(told, "  model server: "@ + health_text(s.observed.server) + "\n"@)
            &&& has_text(
                told,
                "  endpoint published: "@ + published_text(
                    s.observed.publish,
                    s.record.tailnet_port,
                ) + "\n"@,
            )
            &&& hint_for(s.record, s.observed) matches Some(hint) ==> has_text(
                told,
                "  "@ + hint + "\n"@,
            )
        }),
{
    let head = "Remote Sessions\n\n"@;
    lemma_entry_listed(head, all, i);
    let body = session_entries(head, all);
    let none: Seq<char> = seq![];
    let told = status_text(all);
    let tail = if any_gone(all) {
        "\nA session whose model server is gone may still be publishing its port.\nRun `rocm remote stop <session>` to clear it.\n"@
    } else {
        none
    };
    assert(told =~= none + body + tail);
    assert forall|x: Seq<char>| #[trigger] has_text(body, x) implies has_text(told, x) by {
        lemma_stands_within(none, body, tail, x);
    }
    let s = all[i];
    assert(has_text(body, "- "@ + s.record.session_id + "\n"@));
    assert(has_text(body, "  machine:  "@ + s.record.target + "\n"@));
    assert(has_text(body, "  model:    "@ + s.record.model + "\n"@));
    assert(has_text(body, "  endpoint: "@ + s.record.base_url + "\n"@));
    assert(has_text(body, "  key file: "@ + s.key_path + "\n"@));
    assert(has_text(body, "  model server: "@ + health_text(s.observed.server) + "\n"@));
}

/// What one session adds.
spec fn entry_part(s: ObservedView) -> Seq<char> {
    session_entry(seq![], s)
}

proof fn lemma_entry_added(out: Seq<char>, s: ObservedView)
    ensures
        session_entry(out, s) == out + entry_part(s),
{
    let none: Seq<char> = seq![];
    assert(none + "- "@ =~= "- "@);
    assert(session_entry(out, s) =~= out + entry_part(s));
}

proof fn lemma_entry_says(s: ObservedView)
    ensures
        ({
            let part = entry_part(s);
            &&& has_text(part, "- "@ + s.record.session_id + "\n"@)
            &&& has_text(part, "  machine:  "@ + s.record.target + "\n"@)
            &&& has_text(part, "  model:    "@ + s.record.model + "\n"@)
            &&& has_text(part, "  endpoint: "@ + s.record.base_url + "\n"@)
            &&& has_text(part, "  key file: "@ + s.key_path + "\n"@)
            &&& has_text(part, "  model server: "@ + health_text(s.observed.server) + "\n"@)
            &&& has_text(
                part,
                "  endpoint published: "@ + published_text(
                    s.observed.publish,
                    s.record.tailnet_port,
                ) + "\n"@,
            )
            &&& hint_for(s.record, s.observed) matches Some(hint) ==> has_text(
                part,
                "  "@ + hint + "\n"@,
            )
        }),
{
    reveal_strlit("\n");
    reveal_strlit("\n  machine:  ");
    reveal_strlit("  machine:  ");
    reveal_strlit("\n  model:    ");
    reveal_strlit("  model:    ");
    reveal_strlit("\n  endpoint: ");
    reveal_strlit("  endpoint: ");
    reveal_strlit("\n  key file: ");
    reveal_strlit("  key file: ");
    reveal_strlit("\n  model server: ");
    reveal_strlit("  model server: ");
    reveal_strlit("\n  endpoint published: ");
    reveal_strlit("  endpoint published: ");
    let none: Seq<char> = seq![];
    let part = entry_part(s);
    let feed = "\n"@;
    let l0 = "- "@ + s.record.session_id + feed;
    let l1 = "  machine:  "@ + s.record.target + feed;
    let l2 = "  model:    "@ + s.record.model + feed;
    let l3 = "  endpoint: "@ + s.record.base_url + feed;
    let l4 = "  key file: "@ + s.key_path + feed;
    let l5 = "  model server: "@ + health_text(s.observed.server) + feed;
    let l6 = "  endpoint published: "@ + published_text(s.observed.publish, s.record.tailnet_port)
        + feed;
    let hint = match hint_for(s.record, s.observed) {
        Some(hint) => "  "@ + hint + feed,
        None => none,
    };
    let p0: Seq<Seq<char>> = seq![];
    let p1 = p0.push(l0);
    let p2 = p1.push(l1);
    let p3 = p2.push(l2);
    let p4 = p3.push(l3);
    let p5 = p4.push(l4);
    let p6 = p5.push(l5);
    let p7 = p6.push(l6);
    let p8 = p7.push(hint);
    lemma_flat_push(p0, l0);
    lemma_flat_push(p1, l1);
    lemma_flat_push(p2, l2);
    lemma_flat_push(p3, l3);
    lemma_flat_push(p4, l4);
    lemma_flat_push(p5, l5);
    lemma_flat_push(p6, l6);
    lemma_flat_push(p7, hint);
    let r = s.record;
    let o1 = none + "- "@ + r.session_id + "\n  machine:  "@;
    assert(o1 =~= flat(p1) + "  machine:  "@);
    let o2 = o1 + r.target + "\n  model:    "@;
    assert(o2 =~= flat(p2) + "  model:    "@);
    let o3 = o2 + r.model + "\n  endpoint: "@;
    assert(o3 =~= flat(p3) + "  endpoint: "@);
    let o4 = o3 + r.base_url + "\n  key file: "@;
    assert(o4 =~= flat(p4) + "  key file: "@);
    let o5 = o4 + s.key_path + "\n  model server: "@;
    assert(o5 =~= flat(p5) + "  model server: "@);
    let o6 = o5 + health_text(s.observed.server) + "\n  endpoint published: "@;
    assert(o6 =~= flat(p6) + "  endpoint published: "@);
    let o7 = o6 + published_text(s.observed.publish, r.tailnet_port) + feed;
    assert(o7 =~= flat(p7));
    assert(part =~= flat(p8)) by {
        if let Some(h) = hint_for(s.record, s.observed) {
            assert(o7 + "  "@ + h + feed =~= o7 + hint);
        } else {
            assert(o7 + none =~= o7);
        }
    }
    lemma_flat_holds(p8, 0);
    lemma_flat_holds(p8, 1);
    lemma_flat_holds(p8, 2);
    lemma_flat_holds(p8, 3);
    lemma_flat_holds(p8, 4);
    lemma_flat_holds(p8, 5);
    lemma_flat_holds(p8, 6);
    lemma_flat_holds(p8, 7);
}

proof fn lemma_entry_listed(head: Seq<char>, all: Seq<ObservedView>, i: int)
    requires
        0 <= i < all.len(),
    ensures
        ({
            let body = session_entries(head, all);
            let s = all[i];
            &&& has_text(body, "- "@ + s.record.session_id + "\n"@)
            &&& has_text(body, "  machine:  "@ + s.record.target + "\n"@)
            &&& has_text(body, "  model:    "@ + s.record.model + "\n"@)
            &&& has_text(body, "  endpoint: "@ + s.record.base_url + "\n"@)
            &&& has_text(body, "  key file: "@ + s.key_path + "\n"@)
            &&& has_text(body, "  model server: "@ + health_text(s.observed.server) + "\n"@)
            &&& has_text(
                body,
                "  endpoint published: "@ + published_text(
                    s.observed.publish,
                    s.record.tailnet_port,
                ) + "\n"@,
            )
            &&& hint_for(s.record, s.observed) matches Some(hint) ==> has_text(
                body,
                "  "@ + hint + "\n"@,
            )
        }),
    decreases all.len(),
{
    let s = all[i];
    let before = session_entries(head, all.drop_last());
    let part = entry_part(all.last());
    let body = session_entries(head, all);
    let none: Seq<char> = seq![];
    lemma_entry_added(before, all.last());
    assert(body =~= before + part + none);
    assert(body =~= none + before + part);
    if i == all.len() - 1 {
        lemma_entry_says(s);
        assert forall|x: Seq<char>| #[trigger] has_text(part, x) implies has_text(body, x) by {
            lemma_stands_within(before, part, none, x);
        }
    } else {
        lemma_entry_listed(head, all.drop_last(), i);
        assert forall|x: Seq<char>| #[trigger] has_text(before, x) implies has_text(body, x) by {
            lemma_stands_within(none, before, part, x);
        }
    }
}

/// A session is published again by the forward that its record says, from its tailnet
/// port to its model's port, and it is told so with the recorded address exactly where
/// its server is up or on its way and the publish is confirmed.
pub proof fn law_a_session_is_published_again_as_recorded(
    h: Seq<Exchange>,
    at: int,
    record: SessionView,
)
    ensures
        ({
            let talk = attach_talk(h, at, record);
            let o = observe_talk(h, at, record);
            let up = o.value.server is Healthy || o.value.server is Pending;
            let p = publish_talk(h, o.end, record.tailnet_port, record.remote_port);
            &&& talk.value is Ok <==> up && p.value is Ok
            &&& talk.value matches Ok(told) ==> has_text(told, record.base_url)
            &&& up ==> talk.end == p.end && (talk.fits <==> o.fits && p.fits)
            &&& !up ==> talk.end == o.end && (talk.fits <==> o.fits)
        }),
{
    lemma_has_text(
        "Endpoint re-published: "@,
        record.base_url,
        "\nThe model was not restarted.\n"@,
    );
}

/// Stopping a session takes down the forward that its record says, and then stops the
/// service that its record names, by the tool that it names, whatever came of the
/// first. That the model is stopped is confirmed exactly by a command that succeeded.
pub proof fn law_a_session_is_stopped_as_recorded(
    h: Seq<Exchange>,
    at: int,
    record: SessionView,
    force: bool,
)
    ensures
        ({
            let talk = stop_talk(h, at, record, force);
            let w = withdraw_talk(h, at, record.tailnet_port, record.remote_port);
            let stopped = reply_at(h, w.end) is Ok && reply_at(h, w.end)->Ok_0.success;
            &&& talk.end == w.end + 1
            &&& talk.fits <==> w.fits && asks(
                h,
                w.end,
                stop_line(record.remote_cli, record.remote_service_id),
            )
            &&& talk.value is Ok <==> force || (w.value is Ok && stopped)
            &&& talk.value matches Ok(told) ==> told == stopped_text(
                record,
                w.value is Ok,
                stopped,
                force,
            )
            &&& stop_failure(reply_at(h, w.end)) is None <==> stopped
        }),
{
}

/// A session that was stopped is told with what is confirmed and what is not. Where
/// it was forced while something may be left, it is told how to take down what is: the
/// endpoint by its tailnet port, and the model by the machine's own list.
pub proof fn law_what_may_be_left_is_told_with_its_remedy(
    record: SessionView,
    withdrawn: bool,
    stopped: bool,
)
    ensures
        ({
            let told = stopped_text(record, withdrawn, stopped, true);
            &&& has_text(told, record.session_id)
            &&& withdrawn ==> has_text(told, "endpoint withdrawn: yes\n"@)
            &&& !withdrawn ==> has_text(told, "endpoint withdrawn: NOT CONFIRMED\n"@) && has_text(
                told,
                "tailscale serve --tcp="@ + dec(record.tailnet_port as nat) + " off\n"@,
            )
            &&& stopped ==> has_text(told, "model server stopped: yes\n"@)
            &&& !stopped ==> has_text(told, "model server stopped: NOT CONFIRMED\n"@) && has_text(
                told,
                record.remote_cli + " services list\n"@,
            )
        }),
{
    reveal_strlit("\n");
    reveal_strlit("yes");
    reveal_strlit("NOT CONFIRMED");
    reveal_strlit(".\n  endpoint withdrawn: ");
    reveal_strlit("\n  model server stopped: ");
    reveal_strlit("endpoint withdrawn: yes\n");
    reveal_strlit("endpoint withdrawn: NOT CONFIRMED\n");
    reveal_strlit("model server stopped: yes\n");
    reveal_strlit("model server stopped: NOT CONFIRMED\n");
    reveal_strlit(" -- tailscale serve --tcp=");
    reveal_strlit("tailscale serve --tcp=");
    let told = stopped_text(record, withdrawn, stopped, true);
    let none: Seq<char> = seq![];
    let one = if withdrawn {
        "endpoint withdrawn: yes\n"@
    } else {
        "endpoint withdrawn: NOT CONFIRMED\n"@
    };
    let two = if stopped {
        "model server stopped: yes\n"@
    } else {
        "model server stopped: NOT CONFIRMED\n"@
    };
    let word = |done: bool|
        if done {
            "yes"@
        } else {
            "NOT CONFIRMED"@
        };
    let gap = "\n  model server stopped: "@.subrange(1, 3);
    let stop = ".\n  endpoint withdrawn: "@.subrange(0, 4);
    let warned = if withdrawn && stopped {
        none
    } else {
        "\nThe session was forgotten on this machine, but "@ + record.target
            + " may still be running it.\n"@
    };
    let off = "tailscale serve --tcp="@ + dec(record.tailnet_port as nat) + " off\n"@;
    let lead = "  endpoint still reachable on the tailnet — clear it with:\n    ssh "@
        + record.target + " -- tailscale serve --tcp="@.subrange(0, 4);
    let list = record.remote_cli + " services list\n"@;
    let ask = "  model may still hold the GPU — check with:\n    ssh "@ + record.target + " -- "@;
    let p0: Seq<Seq<char>> = seq![];
    let p1 = p0.push("Stopped "@);
    let p2 = p1.push(record.session_id);
    let p3 = p2.push(stop);
    let p4 = p3.push(one);
    let p5 = p4.push(gap);
    let p6 = p5.push(two);
    let p7 = p6.push(warned);
    let p8 = p7.push(if withdrawn {
        none
    } else {
        lead
    });
    let p9 = p8.push(if withdrawn {
        none
    } else {
        off
    });
    let p10 = p9.push(if stopped {
        none
    } else {
        ask
    });
    let p11 = p10.push(if stopped {
        none
    } else {
        list
    });
    lemma_flat_push(p0, p1.last());
    lemma_flat_push(p1, p2.last());
    lemma_flat_push(p2, p3.last());
    lemma_flat_push(p3, p4.last());
    lemma_flat_push(p4, p5.last());
    lemma_flat_push(p5, p6.last());
    lemma_flat_push(p6, p7.last());
    lemma_flat_push(p7, p8.last());
    lemma_flat_push(p8, p9.last());
    lemma_flat_push(p9, p10.last());
    lemma_flat_push(p10, p11.last());
    let b1 = "Stopped "@ + record.session_id + ".\n  endpoint withdrawn: "@ + word(withdrawn);
    assert(b1 + "\n"@ =~= flat(p4));
    let b2 = b1 + "\n  model server stopped: "@ + word(stopped) + "\n"@;
    assert(b2 =~= flat(p6));
    let b3 = if withdrawn && stopped {
        b2
    } else {
        b2 + "\nThe session was forgotten on this machine, but "@ + record.target
            + " may still be running it.\n"@
    };
    assert(b3 =~= flat(p7));
    let b4 = if withdrawn {
        b3
    } else {
        b3 + "  endpoint still reachable on the tailnet — clear it with:\n    ssh "@
            + record.target + " -- tailscale serve --tcp="@ + dec(record.tailnet_port as nat)
            + " off\n"@
    };
    assert(b4 =~= flat(p9));
    let b5 = if stopped {
        b4
    } else {
        b4 + "  model may still hold the GPU — check with:\n    ssh "@ + record.target + " -- "@
            + record.remote_cli + " services list\n"@
    };
    assert(b5 =~= flat(p11));
    assert(told == b5);
    lemma_flat_holds(p11, 1);
    lemma_flat_holds(p11, 3);
    lemma_flat_holds(p11, 5);
    lemma_flat_holds(p11, 8);
    lemma_flat_holds(p11, 10);
}

/// A stop that could not be confirmed names the session and what went wrong, and gives the
/// commands that try again, that put it right on the machine it is on, and that forget it.
pub proof fn law_a_stop_in_doubt_is_told_with_its_remedy(record: SessionView, error: Seq<char>)
    ensures
        has_text(
            not_withdrawn(record, error),
            "endpoint for "@ + record.session_id + " was withdrawn: "@,
        ),
        has_text(not_withdrawn(record, error), "withdrawn: "@ + error + "\n"@),
        has_text(not_withdrawn(record, error), "`rocm remote stop "@ + record.session_id + "`"@),
        has_text(
            not_withdrawn(record, error),
            "ssh "@ + record.target + " -- tailscale serve --tcp="@
                + dec(record.tailnet_port as nat) + " off"@,
        ),
        has_text(
            not_withdrawn(record, error),
            "rocm remote stop "@ + record.session_id + " --force"@,
        ),
{
    let s0 = "could not confirm the endpoint for "@;
    let s1 = record.session_id;
    let s2 = " was withdrawn: "@;
    let s3 = error;
    let s4 = "\nThe session is still listed so you can retry with `rocm remote stop "@;
    let s5 = record.session_id;
    let s6 = "`.\nTo clear it by hand: ssh "@;
    let s7 = record.target;
    let s8 = " -- tailscale serve --tcp="@;
    let s9 = dec(record.tailnet_port as nat);
    let s10 = " off\nTo forget it locally anyway: rocm remote stop "@;
    let s11 = record.session_id;
    let s12 = " --force"@;
    let x1 = s0 + s1;
    let x2 = x1 + s2;
    let x3 = x2 + s3;
    let x4 = x3 + s4;
    let x5 = x4 + s5;
    let x6 = x5 + s6;
    let x7 = x6 + s7;
    let x8 = x7 + s8;
    let x9 = x8 + s9;
    let x10 = x9 + s10;
    let x11 = x10 + s11;
    let x12 = x11 + s12;
    assert(not_withdrawn(record, error) == x12);
    let part = "endpoint for "@ + s1 + s2;
    assert(has_text(x12, part)) by {
        let h = s0.subrange(0, 22);
        assert(s0 =~= h + "endpoint for "@) by {
            reveal_strlit("could not confirm the endpoint for ");
            reveal_strlit("endpoint for ");
        }
        assert(x2 =~= h + part + Seq::<char>::empty());
        lemma_has_text(h, part, Seq::<char>::empty());
        lemma_goes_on(x2, s3, part);
        lemma_goes_on(x3, s4, part);
        lemma_goes_on(x4, s5, part);
        lemma_goes_on(x5, s6, part);
        lemma_goes_on(x6, s7, part);
        lemma_goes_on(x7, s8, part);
        lemma_goes_on(x8, s9, part);
        lemma_goes_on(x9, s10, part);
        lemma_goes_on(x10, s11, part);
        lemma_goes_on(x11, s12, part);
    }
    let part = "withdrawn: "@ + s3 + "\n"@;
    assert(has_text(x12, part)) by {
        let h = s2.subrange(0, 5);
        assert(s2 =~= h + "withdrawn: "@) by {
            reveal_strlit(" was withdrawn: ");
            reveal_strlit("withdrawn: ");
        }
        let r = s4.subrange(1, s4.len() as int);
        assert(s4 =~= "\n"@ + r) by {
            reveal_strlit("\nThe session is still listed so you can retry with `rocm remote stop ");
            reveal_strlit("\n");
        }
        assert(x4 =~= (x1 + h) + part + r);
        lemma_has_text(x1 + h, part, r);
        lemma_goes_on(x4, s5, part);
        lemma_goes_on(x5, s6, part);
        lemma_goes_on(x6, s7, part);
        lemma_goes_on(x7, s8, part);
        lemma_goes_on(x8, s9, part);
        lemma_goes_on(x9, s10, part);
        lemma_goes_on(x10, s11, part);
        lemma_goes_on(x11, s12, part);
    }
    let part = "`rocm remote stop "@ + s5 + "`"@;
    assert(has_text(x12, part)) by {
        let h = s4.subrange(0, 51);
        assert(s4 =~= h + "`rocm remote stop "@) by {
            reveal_strlit("\nThe session is still listed so you can retry with `rocm remote stop ");
            reveal_strlit("`rocm remote stop ");
        }
        let r = s6.subrange(1, s6.len() as int);
        assert(s6 =~= "`"@ + r) by {
            reveal_strlit("`.\nTo clear it by hand: ssh ");
            reveal_strlit("`");
        }
        assert(x6 =~= (x3 + h) + part + r);
        lemma_has_text(x3 + h, part, r);
        lemma_goes_on(x6, s7, part);
        lemma_goes_on(x7, s8, part);
        lemma_goes_on(x8, s9, part);
        lemma_goes_on(x9, s10, part);
        lemma_goes_on(x10, s11, part);
        lemma_goes_on(x11, s12, part);
    }
    let part = "ssh "@ + s7 + s8 + s9 + " off"@;
    assert(has_text(x12, part)) by {
        let h = s6.subrange(0, 24);
        assert(s6 =~= h + "ssh "@) by {
            reveal_strlit("`.\nTo clear it by hand: ssh ");
            reveal_strlit("ssh ");
        }
        let r = s10.subrange(4, s10.len() as int);
        assert(s10 =~= " off"@ + r) by {
            reveal_strlit(" off\nTo forget it locally anyway: rocm remote stop ");
            reveal_strlit(" off");
        }
        assert(x10 =~= (x5 + h) + part + r);
        lemma_has_text(x5 + h, part, r);
        lemma_goes_on(x10, s11, part);
        lemma_goes_on(x11, s12, part);
    }
    let part = "rocm remote stop "@ + s11 + s12;
    assert(has_text(x12, part)) by {
        let h = s10.subrange(0, 34);
        assert(s10 =~= h + "rocm remote stop "@) by {
            reveal_strlit(" off\nTo forget it locally anyway: rocm remote stop ");
            reveal_strlit("rocm remote stop ");
        }
        assert(x12 =~= (x9 + h) + part + Seq::<char>::empty());
        lemma_has_text(x9 + h, part, Seq::<char>::empty());
    }
}

/// A model that could not be stopped is told by its session, with what went wrong, and with
/// the commands that try again, that look at the machine it is on, and that forget it.
pub proof fn law_a_model_left_running_is_told_with_its_remedy(
    record: SessionView,
    error: Seq<char>,
)
    ensures
        has_text(
            not_stopped(record, error),
            "endpoint for "@ + record.session_id + " was withdrawn, but"@,
        ),
        has_text(not_stopped(record, error), "stopped: "@ + error + "\n"@),
        has_text(not_stopped(record, error), "`rocm remote stop "@ + record.session_id + "`"@),
        has_text(
            not_stopped(record, error),
            "ssh "@ + record.target + " -- "@ + record.remote_cli + " services list"@,
        ),
        has_text(not_stopped(record, error), "rocm remote stop "@ + record.session_id + " --force"@),
{
    let s0 = "the endpoint for "@;
    let s1 = record.session_id;
    let s2 = " was withdrawn, but its model could not be stopped: "@;
    let s3 = error;
    let s4 = "\nThe session is still listed so you can retry with `rocm remote stop "@;
    let s5 = record.session_id;
    let s6 = "`.\nTo check the machine: ssh "@;
    let s7 = record.target;
    let s8 = " -- "@;
    let s9 = record.remote_cli;
    let s10 = " services list\nTo forget it locally anyway: rocm remote stop "@;
    let s11 = record.session_id;
    let s12 = " --force"@;
    let x1 = s0 + s1;
    let x2 = x1 + s2;
    let x3 = x2 + s3;
    let x4 = x3 + s4;
    let x5 = x4 + s5;
    let x6 = x5 + s6;
    let x7 = x6 + s7;
    let x8 = x7 + s8;
    let x9 = x8 + s9;
    let x10 = x9 + s10;
    let x11 = x10 + s11;
    let x12 = x11 + s12;
    assert(not_stopped(record, error) == x12);
    let part = "endpoint for "@ + s1 + " was withdrawn, but"@;
    assert(has_text(x12, part)) by {
        let h = s0.subrange(0, 4);
        assert(s0 =~= h + "endpoint for "@) by {
            reveal_strlit("the endpoint for ");
            reveal_strlit("endpoint for ");
        }
        let r = s2.subrange(19, s2.len() as int);
        assert(s2 =~= " was withdrawn, but"@ + r) by {
            reveal_strlit(" was withdrawn, but its model could not be stopped: ");
            reveal_strlit(" was withdrawn, but");
        }
        assert(x2 =~= h + part + r);
        lemma_has_text(h, part, r);
        lemma_goes_on(x2, s3, part);
        lemma_goes_on(x3, s4, part);
        lemma_goes_on(x4, s5, part);
        lemma_goes_on(x5, s6, part);
        lemma_goes_on(x6, s7, part);
        lemma_goes_on(x7, s8, part);
        lemma_goes_on(x8, s9, part);
        lemma_goes_on(x9, s10, part);
        lemma_goes_on(x10, s11, part);
        lemma_goes_on(x11, s12, part);
    }
    let part = "stopped: "@ + s3 + "\n"@;
    assert(has_text(x12, part)) by {
        let h = s2.subrange(0, 43);
        assert(s2 =~= h + "stopped: "@) by {
            reveal_strlit(" was withdrawn, but its model could not be stopped: ");
            reveal_strlit("stopped: ");
        }
        let r = s4.subrange(1, s4.len() as int);
        assert(s4 =~= "\n"@ + r) by {
            reveal_strlit("\nThe session is still listed so you can retry with `rocm remote stop ");
            reveal_strlit("\n");
        }
        assert(x4 =~= (x1 + h) + part + r);
        lemma_has_text(x1 + h, part, r);
        lemma_goes_on(x4, s5, part);
        lemma_goes_on(x5, s6, part);
        lemma_goes_on(x6, s7, part);
        lemma_goes_on(x7, s8, part);
        lemma_goes_on(x8, s9, part);
        lemma_goes_on(x9, s10, part);
        lemma_goes_on(x10, s11, part);
        lemma_goes_on(x11, s12, part);
    }
    let part = "`rocm remote stop "@ + s5 + "`"@;
    assert(has_text(x12, part)) by {
        let h = s4.subrange(0, 51);
        assert(s4 =~= h + "`rocm remote stop "@) by {
            reveal_strlit("\nThe session is still listed so you can retry with `rocm remote stop ");
            reveal_strlit("`rocm remote stop ");
        }
        let r = s6.subrange(1, s6.len() as int);
        assert(s6 =~= "`"@ + r) by {
            reveal_strlit("`.\nTo check the machine: ssh ");
            reveal_strlit("`");
        }
        assert(x6 =~= (x3 + h) + part + r);
        lemma_has_text(x3 + h, part, r);
        lemma_goes_on(x6, s7, part);
        lemma_goes_on(x7, s8, part);
        lemma_goes_on(x8, s9, part);
        lemma_goes_on(x9, s10, part);
        lemma_goes_on(x10, s11, part);
        lemma_goes_on(x11, s12, part);
    }
    let part = "ssh "@ + s7 + s8 + s9 + " services list"@;
    assert(has_text(x12, part)) by {
        let h = s6.subrange(0, 25);
        assert(s6 =~= h + "ssh "@) by {
            reveal_strlit("`.\nTo check the machine: ssh ");
            reveal_strlit("ssh ");
        }
        let r = s10.subrange(14, s10.len() as int);
        assert(s10 =~= " services list"@ + r) by {
            reveal_strlit(" services list\nTo forget it locally anyway: rocm remote stop ");
            reveal_strlit(" services list");
        }
        assert(x10 =~= (x5 + h) + part + r);
        lemma_has_text(x5 + h, part, r);
        lemma_goes_on(x10, s11, part);
        lemma_goes_on(x11, s12, part);
    }
    let part = "rocm remote stop "@ + s11 + s12;
    assert(has_text(x12, part)) by {
        let h = s10.subrange(0, 44);
        assert(s10 =~= h + "rocm remote stop "@) by {
            reveal_strlit(" services list\nTo forget it locally anyway: rocm remote stop ");
            reveal_strlit("rocm remote stop ");
        }
        assert(x12 =~= (x9 + h) + part + Seq::<char>::empty());
        lemma_has_text(x9 + h, part, Seq::<char>::empty());
    }
}

/// Where there is nothing to publish again, the session, how its server stands and the
/// machine are told, and the command that clears it away.
pub proof fn law_a_dead_server_is_told_with_its_remedy(record: SessionView, health: HealthView)
    ensures
        has_text(
            nothing_behind(record, health),
            "server for "@ + record.session_id + " is "@ + health_label(health) + " on "@
                + record.target + ","@,
        ),
        has_text(nothing_behind(record, health), "`rocm remote stop "@ + record.session_id + "`"@),
        health_label(health) == (match health {
            HealthView::Healthy => "healthy"@,
            HealthView::Pending => "starting"@,
            HealthView::Failed => "failed"@,
            HealthView::Unreachable => "unreachable"@,
            HealthView::Error => "error"@,
            HealthView::Gone => "gone"@,
            HealthView::Unrecognised(_) => "unrecognised"@,
        }),
{
    let s0 = "the model server for "@;
    let s1 = record.session_id;
    let s2 = " is "@;
    let s3 = health_label(health);
    let s4 = " on "@;
    let s5 = record.target;
    let s6 =
            ", so re-publishing would give you an endpoint with nothing behind it.\nRun `rocm remote stop "@;
    let s7 = record.session_id;
    let s8 = "` and serve again."@;
    let x1 = s0 + s1;
    let x2 = x1 + s2;
    let x3 = x2 + s3;
    let x4 = x3 + s4;
    let x5 = x4 + s5;
    let x6 = x5 + s6;
    let x7 = x6 + s7;
    let x8 = x7 + s8;
    assert(nothing_behind(record, health) == x8);
    let part = "server for "@ + s1 + s2 + s3 + s4 + s5 + ","@;
    assert(has_text(x8, part)) by {
        let h = s0.subrange(0, 10);
        assert(s0 =~= h + "server for "@) by {
            reveal_strlit("the model server for ");
            reveal_strlit("server for ");
        }
        let r = s6.subrange(1, s6.len() as int);
        assert(s6 =~= ","@ + r) by {
            reveal_strlit(
                ", so re-publishing would give you an endpoint with nothing behind it.\nRun `rocm remote stop ",
            );
            reveal_strlit(",");
        }
        assert(x6 =~= h + part + r);
        lemma_has_text(h, part, r);
        lemma_goes_on(x6, s7, part);
        lemma_goes_on(x7, s8, part);
    }
    let part = "`rocm remote stop "@ + s7 + "`"@;
    assert(has_text(x8, part)) by {
        let h = s6.subrange(0, 74);
        assert(s6 =~= h + "`rocm remote stop "@) by {
            reveal_strlit(
                ", so re-publishing would give you an endpoint with nothing behind it.\nRun `rocm remote stop ",
            );
            reveal_strlit("`rocm remote stop ");
        }
        let r = s8.subrange(1, s8.len() as int);
        assert(s8 =~= "`"@ + r) by {
            reveal_strlit("` and serve again.");
            reveal_strlit("`");
        }
        assert(x8 =~= (x5 + h) + part + r);
        lemma_has_text(x5 + h, part, r);
    }
}

} // verus!
