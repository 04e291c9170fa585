//! Running local servers when another runtime is activated.
//!
//! Activating a runtime changes what the next launch uses. A server that is
//! already running keeps serving on the runtime it started with, so the report
//! names those, and on request they are moved.

use vstd::prelude::*;
use crate::failure::{full_of, plain, told, within, Failure};
use crate::text::{
    clone_opt, dec, ends_with, flat, has_text, join, joined, lemma_flat_holds, lemma_flat_push,
    lemma_goes_on, lemma_has_text, lemma_stands_in_what_it_stands_in, lemma_stands_within,
    occurs_at, opt_view, push_number, same, texts,
};

verus! {

/// Where a live server stands against the runtime being activated.
#[derive(Debug)]
pub enum ServiceRuntimeState {
    /// It runs on that runtime, or on one that no activation moves.
    Matches,
    /// It runs on another runtime, which its record names.
    Stale { recorded: String },
    /// Its record names none.
    Unknown,
}

pub enum StateView {
    Matches,
    Stale(Seq<char>),
    Unknown,
}

impl View for ServiceRuntimeState {
    type V = StateView;

    open spec fn view(&self) -> StateView {
        match self {
            ServiceRuntimeState::Matches => StateView::Matches,
            ServiceRuntimeState::Stale { recorded } => StateView::Stale(recorded@),
            ServiceRuntimeState::Unknown => StateView::Unknown,
        }
    }
}

/// A managed service, as far as it is read here.
#[derive(Debug)]
pub struct ServiceRecord {
    pub service_id: String,
    pub engine: String,
    pub runtime_id: Option<String>,
    pub env_id: Option<String>,
    /// Its process is running.
    pub live: bool,
    /// Its engine brings a runtime of its own.
    pub manages_own_runtime: bool,
    /// The key of the install that the recorded runtime selects, if it selects one.
    pub selected_key: Option<String>,
}

pub struct RecordView {
    pub service_id: Seq<char>,
    pub engine: Seq<char>,
    pub runtime_id: Option<Seq<char>>,
    pub env_id: Option<Seq<char>>,
    pub live: bool,
    pub manages_own_runtime: bool,
    pub selected_key: Option<Seq<char>>,
}

impl View for ServiceRecord {
    type V = RecordView;

    open spec fn view(&self) -> RecordView {
        RecordView {
            service_id: self.service_id@,
            engine: self.engine@,
            runtime_id: opt_view(self.runtime_id),
            env_id: opt_view(self.env_id),
            live: self.live,
            manages_own_runtime: self.manages_own_runtime,
            selected_key: opt_view(self.selected_key),
        }
    }
}

pub open spec fn record_views(s: Seq<ServiceRecord>) -> Seq<RecordView> {
    s.map_values(|r: ServiceRecord| r@)
}

/// A live server that the report names.
#[derive(Debug, PartialEq, Eq)]
pub struct RuntimeServiceEntry {
    pub service_id: String,
    pub engine: String,
    /// The runtime on its record; none where the record names none.
    pub recorded_runtime: Option<String>,
}

pub struct EntryView {
    pub service_id: Seq<char>,
    pub engine: Seq<char>,
    pub recorded_runtime: Option<Seq<char>>,
}

impl View for RuntimeServiceEntry {
    type V = EntryView;

    open spec fn view(&self) -> EntryView {
        EntryView {
            service_id: self.service_id@,
            engine: self.engine@,
            recorded_runtime: opt_view(self.recorded_runtime),
        }
    }
}

pub open spec fn entry_views(s: Seq<RuntimeServiceEntry>) -> Seq<EntryView> {
    s.map_values(|e: RuntimeServiceEntry| e@)
}

pub open spec fn recorded_text(e: EntryView) -> Seq<char> {
    match e.recorded_runtime {
        Some(r) => r,
        None => "<unset>"@,
    }
}

impl RuntimeServiceEntry {
    pub fn recorded_runtime_display(&self) -> (r: &str)
        ensures
            r@ == recorded_text(self@),
    {
        match &self.recorded_runtime {
            Some(r) => r.as_str(),
            None => "<unset>",
        }
    }
}

/// A server that could not be moved.
#[derive(Debug, PartialEq, Eq)]
pub struct FailedServiceRestart {
    pub service_id: String,
    pub error: String,
}

pub open spec fn failed_views(s: Seq<FailedServiceRestart>) -> Seq<(Seq<char>, Seq<char>)> {
    s.map_values(|f: FailedServiceRestart| (f.service_id@, f.error@))
}

/// The live servers at the time of an activation, by what it means for them.
#[derive(Debug, PartialEq, Eq)]
pub struct RuntimeServiceReconciliation {
    /// Those still on another recorded runtime.
    pub stale: Vec<RuntimeServiceEntry>,
    /// Those whose runtime is not recorded.
    pub unknown: Vec<RuntimeServiceEntry>,
    /// Those that were moved.
    pub restarted: Vec<String>,
    /// Those that could not be moved. One that still serves is in `stale` too.
    pub failed: Vec<FailedServiceRestart>,
    /// Whether moving them was tried.
    pub restart_attempted: bool,
}

pub struct ReconciliationView {
    pub stale: Seq<EntryView>,
    pub unknown: Seq<EntryView>,
    pub restarted: Seq<Seq<char>>,
    pub failed: Seq<(Seq<char>, Seq<char>)>,
    pub restart_attempted: bool,
}

impl View for RuntimeServiceReconciliation {
    type V = ReconciliationView;

    open spec fn view(&self) -> ReconciliationView {
        ReconciliationView {
            stale: entry_views(self.stale@),
            unknown: entry_views(self.unknown@),
            restarted: texts(self.restarted@),
            failed: failed_views(self.failed@),
            restart_attempted: self.restart_attempted,
        }
    }
}

impl Default for RuntimeServiceReconciliation {
    fn default() -> (r: RuntimeServiceReconciliation)
        ensures
            r@.stale.len() == 0,
            r@.unknown.len() == 0,
            r@.restarted.len() == 0,
            r@.failed.len() == 0,
            !r@.restart_attempted,
    {
        RuntimeServiceReconciliation {
            stale: Vec::new(),
            unknown: Vec::new(),
            restarted: Vec::new(),
            failed: Vec::new(),
            restart_attempted: false,
        }
    }
}

// ---------------------------------------------------------------------------
// Classifying
// ---------------------------------------------------------------------------

/// A server whose engine brings its own runtime is never left behind. One that
/// records the key, or something that selects it, is on it already. That a
/// record names an environment says nothing: engines write one on every launch.
pub open spec fn state_of(record: RecordView, runtime_key: Seq<char>) -> StateView {
    if record.manages_own_runtime {
        StateView::Matches
    } else {
        match record.runtime_id {
            None => StateView::Unknown,
            Some(recorded) => if recorded == runtime_key || record.selected_key == Some(
                runtime_key,
            ) {
                StateView::Matches
            } else {
                StateView::Stale(recorded)
            },
        }
    }
}

pub fn classify_service_runtime_state(record: &ServiceRecord, runtime_key: &str) -> (r:
    ServiceRuntimeState)
    ensures
        r@ == state_of(record@, runtime_key@),
{
    if record.manages_own_runtime {
        return ServiceRuntimeState::Matches;
    }
    match &record.runtime_id {
        None => ServiceRuntimeState::Unknown,
        Some(recorded) => {
            if same(recorded.as_str(), runtime_key) {
                return ServiceRuntimeState::Matches;
            }
            if let Some(key) = &record.selected_key {
                if same(key.as_str(), runtime_key) {
                    return ServiceRuntimeState::Matches;
                }
            }
            ServiceRuntimeState::Stale { recorded: recorded.clone() }
        },
    }
}

/// The live servers on another recorded runtime.
pub open spec fn stale_among(records: Seq<RecordView>, key: Seq<char>) -> Seq<EntryView>
    decreases records.len(),
{
    if records.len() == 0 {
        seq![]
    } else {
        let before = stale_among(records.drop_last(), key);
        let r = records.last();
        match state_of(r, key) {
            StateView::Stale(recorded) => if r.live {
                before.push(
                    EntryView {
                        service_id: r.service_id,
                        engine: r.engine,
                        recorded_runtime: Some(recorded),
                    },
                )
            } else {
                before
            },
            _ => before,
        }
    }
}

/// The live servers whose runtime is not recorded.
pub open spec fn unknown_among(records: Seq<RecordView>, key: Seq<char>) -> Seq<EntryView>
    decreases records.len(),
{
    if records.len() == 0 {
        seq![]
    } else {
        let before = unknown_among(records.drop_last(), key);
        let r = records.last();
        if r.live && state_of(r, key) is Unknown {
            before.push(
                EntryView { service_id: r.service_id, engine: r.engine, recorded_runtime: None },
            )
        } else {
            before
        }
    }
}

/// Which of the servers the activation of `runtime_key` leaves behind.
pub fn reconcile_services_for_runtime(records: &Vec<ServiceRecord>, runtime_key: &str) -> (r:
    RuntimeServiceReconciliation)
    ensures
        r@ == (ReconciliationView {
            stale: stale_among(record_views(records@), runtime_key@),
            unknown: unknown_among(record_views(records@), runtime_key@),
            restarted: seq![],
            failed: seq![],
            restart_attempted: false,
        }),
{
    let ghost all = record_views(records@);
    let mut out = RuntimeServiceReconciliation::default();
    let mut i: usize = 0;
    assert(all.subrange(0, 0) =~= seq![]);
    while i < records.len()
        invariant
            i <= records@.len(),
            all == record_views(records@),
            out@.stale == stale_among(all.subrange(0, i as int), runtime_key@),
            out@.unknown == unknown_among(all.subrange(0, i as int), runtime_key@),
            out@.restarted.len() == 0,
            out@.failed.len() == 0,
            !out@.restart_attempted,
        decreases records@.len() - i,
    {
        assert(all.subrange(0, i + 1).drop_last() =~= all.subrange(0, i as int));
        let record = &records[i];
        assert(all.subrange(0, i + 1).last() == record@);
        if record.live {
            match classify_service_runtime_state(record, runtime_key) {
                ServiceRuntimeState::Matches => {},
                ServiceRuntimeState::Stale { recorded } => {
                    let ghost before = out@.stale;
                    out.stale.push(
                        RuntimeServiceEntry {
                            service_id: record.service_id.clone(),
                            engine: record.engine.clone(),
                            recorded_runtime: Some(recorded),
                        },
                    );
                    assert(out@.stale =~= before.push(out.stale@.last()@));
                },
                ServiceRuntimeState::Unknown => {
                    let ghost before = out@.unknown;
                    out.unknown.push(
                        RuntimeServiceEntry {
                            service_id: record.service_id.clone(),
                            engine: record.engine.clone(),
                            recorded_runtime: None,
                        },
                    );
                    assert(out@.unknown =~= before.push(out.unknown@.last()@));
                },
            }
        }
        i += 1;
    }
    assert(all.subrange(0, all.len() as int) =~= all);
    assert(out@.restarted =~= seq![]);
    assert(out@.failed =~= seq![]);
    out
}

// ---------------------------------------------------------------------------
// Rendering
// ---------------------------------------------------------------------------

pub open spec fn service_lines(s: Seq<EntryView>) -> Seq<char>
    decreases s.len(),
{
    if s.len() == 0 {
        seq![]
    } else {
        service_lines(s.drop_last()) + "    - "@ + s.last().service_id + " engine="@
            + s.last().engine + " recorded_runtime="@ + recorded_text(s.last()) + "\n"@
    }
}

pub open spec fn id_lines(s: Seq<Seq<char>>) -> Seq<char>
    decreases s.len(),
{
    if s.len() == 0 {
        seq![]
    } else {
        id_lines(s.drop_last()) + "    - "@ + s.last() + "\n"@
    }
}

pub open spec fn failed_lines(s: Seq<(Seq<char>, Seq<char>)>) -> Seq<char>
    decreases s.len(),
{
    if s.len() == 0 {
        seq![]
    } else {
        failed_lines(s.drop_last()) + "    - "@ + s.last().0 + ": "@ + s.last().1 + "\n"@
    }
}

/// A heading with its count and its lines, where there is anything to count.
pub open spec fn counted(heading: Seq<char>, count: nat, lines: Seq<char>) -> Seq<char> {
    if count == 0 {
        seq![]
    } else {
        heading + dec(count) + "\n"@ + lines
    }
}

/// The service half of an activation report. The count of servers left behind is
/// always said, so that none is not mistaken for not having looked. The command
/// that moves them is offered only where moving was not just tried.
pub open spec fn reconciliation_text(s: ReconciliationView, active: Seq<char>) -> Seq<char> {
    "  services_on_previous_runtime: "@ + dec(s.stale.len()) + "\n"@ + service_lines(s.stale)
        + counted(
        "  services_with_unrecorded_runtime: "@,
        s.unknown.len(),
        service_lines(s.unknown),
    ) + counted("  services_restarted: "@, s.restarted.len(), id_lines(s.restarted)) + counted(
        "  services_restart_failed: "@,
        s.failed.len(),
        failed_lines(s.failed),
    ) + (if s.stale.len() > 0 && !s.restart_attempted {
        "  note: those keep serving on their recorded runtime until they are restarted; run `rocm runtimes activate "@
            + active + " --restart-services --yes` to move them\n"@
    } else {
        Seq::<char>::empty()
    })
}

fn show_services(entries: &Vec<RuntimeServiceEntry>) -> (r: String)
    ensures
        r@ == service_lines(entry_views(entries@)),
{
    let ghost all = entry_views(entries@);
    let mut out = String::new();
    let mut i: usize = 0;
    while i < entries.len()
        invariant
            i <= entries@.len(),
            all == entry_views(entries@),
            out@ == service_lines(all.subrange(0, i as int)),
        decreases entries@.len() - i,
    {
        assert(all.subrange(0, i + 1).drop_last() =~= all.subrange(0, i as int));
        out.push_str("    - ");
        out.push_str(entries[i].service_id.as_str());
        out.push_str(" engine=");
        out.push_str(entries[i].engine.as_str());
        out.push_str(" recorded_runtime=");
        out.push_str(entries[i].recorded_runtime_display());
        out.push_str("\n");
        i += 1;
    }
    assert(all.subrange(0, all.len() as int) =~= all);
    out
}

fn show_ids(ids: &Vec<String>) -> (r: String)
    ensures
        r@ == id_lines(texts(ids@)),
{
    let ghost all = texts(ids@);
    let mut out = String::new();
    let mut i: usize = 0;
    while i < ids.len()
        invariant
            i <= ids@.len(),
            all == texts(ids@),
            out@ == id_lines(all.subrange(0, i as int)),
        decreases ids@.len() - i,
    {
        assert(all.subrange(0, i + 1).drop_last() =~= all.subrange(0, i as int));
        out.push_str("    - ");
        out.push_str(ids[i].as_str());
        out.push_str("\n");
        i += 1;
    }
    assert(all.subrange(0, all.len() as int) =~= all);
    out
}

fn show_failed(failed: &Vec<FailedServiceRestart>) -> (r: String)
    ensures
        r@ == failed_lines(failed_views(failed@)),
{
    let ghost all = failed_views(failed@);
    let mut out = String::new();
    let mut i: usize = 0;
    while i < failed.len()
        invariant
            i <= failed@.len(),
            all == failed_views(failed@),
            out@ == failed_lines(all.subrange(0, i as int)),
        decreases failed@.len() - i,
    {
        assert(all.subrange(0, i + 1).drop_last() =~= all.subrange(0, i as int));
        out.push_str("    - ");
        out.push_str(failed[i].service_id.as_str());
        out.push_str(": ");
        out.push_str(failed[i].error.as_str());
        out.push_str("\n");
        i += 1;
    }
    assert(all.subrange(0, all.len() as int) =~= all);
    out
}

fn show_counted(heading: &str, count: usize, lines: &str) -> (r: String)
    ensures
        r@ == counted(heading@, count as nat, lines@),
{
    if count == 0 {
        return String::new();
    }
    let mut out = heading.to_owned();
    push_number(&mut out, count as u128);
    out.push_str("\n");
    out.push_str(lines);
    out
}

pub fn render_runtime_service_reconciliation(
    services: &RuntimeServiceReconciliation,
    active_runtime_key: &str,
) -> (r: String)
    ensures
        r@ == reconciliation_text(services@, active_runtime_key@),
{
    let mut out = "  services_on_previous_runtime: ".to_owned();
    push_number(&mut out, services.stale.len() as u128);
    out.push_str("\n");
    out.push_str(show_services(&services.stale).as_str());
    out.push_str(
        show_counted(
            "  services_with_unrecorded_runtime: ",
            services.unknown.len(),
            show_services(&services.unknown).as_str(),
        ).as_str(),
    );
    out.push_str(
        show_counted(
            "  services_restarted: ",
            services.restarted.len(),
            show_ids(&services.restarted).as_str(),
        ).as_str(),
    );
    out.push_str(
        show_counted(
            "  services_restart_failed: ",
            services.failed.len(),
            show_failed(&services.failed).as_str(),
        ).as_str(),
    );
    if services.stale.len() > 0 && !services.restart_attempted {
        let mut note =
            "  note: those keep serving on their recorded runtime until they are restarted; run `rocm runtimes activate ".to_owned();
        note.push_str(active_runtime_key);
        note.push_str(" --restart-services --yes` to move them\n");
        out.push_str(note.as_str());
    } else {
        assert(out@ + Seq::<char>::empty() =~= out@);
    }
    out
}

// ---------------------------------------------------------------------------
// Restarting
// ---------------------------------------------------------------------------

pub open spec fn restart_refusal(command: Seq<char>) -> Seq<Seq<char>> {
    plain(
        "restarting running local servers requires --yes.\n\nTry: rocm runtimes "@ + command
            + " --restart-services --yes"@,
    )
}

/// Stopping running servers takes `--yes`; nobody is prompted for it.
pub fn ensure_service_restart_approved(restart_services: bool, yes: bool, command: &str) -> (r:
    Result<(), Failure>)
    ensures
        told(r) == if restart_services && !yes {
            Err::<(), _>(restart_refusal(command@))
        } else {
            Ok(())
        },
{
    if restart_services && !yes {
        let mut message =
            "restarting running local servers requires --yes.\n\nTry: rocm runtimes ".to_owned();
        message.push_str(command);
        message.push_str(" --restart-services --yes");
        return Err(Failure::new(message));
    }
    Ok(())
}

/// What came of moving one server.
#[derive(Debug)]
pub enum RestartOutcome {
    Moved,
    /// It failed; and, where the server still serves, the runtime its record now
    /// names.
    Failed { error: Failure, serving: Option<Option<String>> },
}

pub enum OutcomeView {
    Moved,
    Failed(Seq<char>, Option<Option<Seq<char>>>),
}

impl View for RestartOutcome {
    type V = OutcomeView;

    open spec fn view(&self) -> OutcomeView {
        match self {
            RestartOutcome::Moved => OutcomeView::Moved,
            RestartOutcome::Failed { error, serving } => OutcomeView::Failed(
                full_of(error@),
                match serving {
                    Some(runtime) => Some(opt_view(*runtime)),
                    None => None,
                },
            ),
        }
    }
}

pub open spec fn outcome_views(s: Seq<RestartOutcome>) -> Seq<OutcomeView> {
    s.map_values(|o: RestartOutcome| o@)
}

/// A service's record where the service still runs.
pub fn service_still_serving(record: Result<ServiceRecord, Failure>) -> (r: Option<ServiceRecord>)
    ensures
        r == match record {
            Ok(found) => if found.live {
                Some(found)
            } else {
                None
            },
            Err(error) => None,
        },
{
    match record {
        Ok(found) => if found.live {
            Some(found)
        } else {
            None
        },
        Err(_) => None,
    }
}

/// The first `n` of the servers moved, in order. One that could not be moved
/// stays counted only while it still serves.
pub open spec fn after_restarts(
    s: ReconciliationView,
    outcomes: Seq<OutcomeView>,
    n: nat,
) -> ReconciliationView
    decreases n,
{
    if n == 0 {
        ReconciliationView { stale: seq![], ..s }
    } else {
        let before = after_restarts(s, outcomes, (n - 1) as nat);
        let entry = s.stale[n - 1];
        match outcomes[n - 1] {
            OutcomeView::Moved => ReconciliationView {
                restarted: before.restarted.push(entry.service_id),
                ..before
            },
            OutcomeView::Failed(error, serving) => ReconciliationView {
                failed: before.failed.push((entry.service_id, error)),
                stale: match serving {
                    Some(runtime) => before.stale.push(
                        EntryView { recorded_runtime: runtime, ..entry },
                    ),
                    None => before.stale,
                },
                ..before
            },
        }
    }
}

/// Records what came of moving each stale server, in their order. One failure
/// does not abandon the rest.
pub fn restart_stale_runtime_services(
    services: &mut RuntimeServiceReconciliation,
    outcomes: &Vec<RestartOutcome>,
)
    requires
        old(services).stale@.len() == outcomes@.len(),
    ensures
        final(services)@ == (ReconciliationView {
            restart_attempted: true,
            ..after_restarts(old(services)@, outcome_views(outcomes@), outcomes@.len())
        }),
{
    let ghost start = services@;
    let ghost all = outcome_views(outcomes@);
    let mut entries: Vec<RuntimeServiceEntry> = Vec::new();
    std::mem::swap(&mut entries, &mut services.stale);
    assert(services@.stale =~= seq![]);
    let mut i: usize = 0;
    while i < entries.len()
        invariant
            i <= entries@.len(),
            entries@.len() == outcomes@.len(),
            start.stale == entry_views(entries@),
            all == outcome_views(outcomes@),
            services@ == after_restarts(start, all, i as nat),
        decreases entries@.len() - i,
    {
        let entry = &entries[i];
        let ghost before = services@;
        assert(start.stale[i as int] == entry@);
        assert(all[i as int] == outcomes@[i as int]@);
        match &outcomes[i] {
            RestartOutcome::Moved => {
                services.restarted.push(entry.service_id.clone());
                assert(services@.restarted =~= before.restarted.push(entry@.service_id));
            },
            RestartOutcome::Failed { error, serving } => {
                services.failed.push(
                    FailedServiceRestart {
                        service_id: entry.service_id.clone(),
                        error: error.full(),
                    },
                );
                assert(services@.failed =~= before.failed.push(
                    (entry@.service_id, full_of(error@)),
                ));
                if let Some(runtime) = serving {
                    services.stale.push(
                        RuntimeServiceEntry {
                            service_id: entry.service_id.clone(),
                            engine: entry.engine.clone(),
                            recorded_runtime: clone_opt(runtime),
                        },
                    );
                    assert(services@.stale =~= before.stale.push(services.stale@.last()@));
                }
            },
        }
        i += 1;
    }
    services.restart_attempted = true;
}

/// What a record said of its runtime before a restart rewrote it.
#[derive(Debug, PartialEq, Eq)]
pub struct ServiceRuntimePin {
    pub runtime_id: Option<String>,
    pub env_id: Option<String>,
}

/// Points a record at `runtime_key` and hands back what it said. Its environment
/// is cleared with it: a record that kept one would come back on whatever runtime
/// that environment has.
pub open spec fn pinned(record: RecordView, runtime_key: Seq<char>) -> RecordView {
    RecordView { runtime_id: Some(runtime_key), env_id: None, ..record }
}

pub fn pin_service_record_to_runtime(record: &mut ServiceRecord, runtime_key: &str) -> (r:
    ServiceRuntimePin)
    ensures
        opt_view(r.runtime_id) == old(record)@.runtime_id,
        opt_view(r.env_id) == old(record)@.env_id,
        final(record)@ == pinned(old(record)@, runtime_key@),
{
    let mut runtime_id: Option<String> = Some(runtime_key.to_owned());
    let mut env_id: Option<String> = None;
    std::mem::swap(&mut runtime_id, &mut record.runtime_id);
    std::mem::swap(&mut env_id, &mut record.env_id);
    ServiceRuntimePin { runtime_id, env_id }
}

/// Puts a record back on what it said.
pub open spec fn put_back(
    record: RecordView,
    runtime_id: Option<Seq<char>>,
    env_id: Option<Seq<char>>,
) -> RecordView {
    RecordView { runtime_id, env_id, ..record }
}

pub fn restore_service_record_pin(record: &mut ServiceRecord, pin: ServiceRuntimePin)
    ensures
        final(record)@ == put_back(old(record)@, opt_view(pin.runtime_id), opt_view(pin.env_id)),
{
    record.runtime_id = pin.runtime_id;
    record.env_id = pin.env_id;
}

/// A restart that failed, with the failure to put its record back, if there was
/// one.
pub open spec fn failed_restart(
    error: Seq<Seq<char>>,
    restored: Result<(), Seq<Seq<char>>>,
    runtime_key: Seq<char>,
) -> Seq<Seq<char>> {
    match restored {
        Ok(_) => error,
        Err(also) => within(
            "the service record could not be put back on the runtime it ran on either ("@
                + full_of(also) + "), so it now names `"@ + runtime_key + "`"@,
            error,
        ),
    }
}

/// What came of the last step of moving one server.
#[derive(Debug)]
pub enum MoveEvent {
    /// The service's record was read.
    Loaded(Result<ServiceRecord, Failure>),
    /// The pinned record was written over one that said `pin`.
    Pinned { pin: ServiceRuntimePin, written: Result<(), Failure> },
    Restarted { pin: ServiceRuntimePin, restarted: Result<(), Failure> },
    /// The record was read again, to put it back after `error`.
    Reloaded { pin: ServiceRuntimePin, error: Failure, record: Result<ServiceRecord, Failure> },
    PutBack { error: Failure, written: Result<(), Failure> },
}

/// The next step of moving one server.
#[derive(Debug)]
pub enum MoveStep {
    /// Write this record.
    Pin { record: ServiceRecord, pin: ServiceRuntimePin },
    /// Restart the service from the record as it stands.
    Restart { pin: ServiceRuntimePin },
    /// Read the record again.
    Reload { pin: ServiceRuntimePin, error: Failure },
    /// Write this record.
    PutBack { record: ServiceRecord, error: Failure },
    Done(Result<(), Failure>),
}

#[verifier::ext_equal]
pub struct PinView {
    pub runtime_id: Option<Seq<char>>,
    pub env_id: Option<Seq<char>>,
}

impl View for ServiceRuntimePin {
    type V = PinView;

    open spec fn view(&self) -> PinView {
        PinView { runtime_id: opt_view(self.runtime_id), env_id: opt_view(self.env_id) }
    }
}

pub open spec fn loaded_view(r: Result<ServiceRecord, Failure>) -> Result<
    RecordView,
    Seq<Seq<char>>,
> {
    match r {
        Ok(record) => Ok(record@),
        Err(failure) => Err(failure@),
    }
}

pub enum MoveEventView {
    Loaded(Result<RecordView, Seq<Seq<char>>>),
    Pinned { pin: PinView, written: Result<(), Seq<Seq<char>>> },
    Restarted { pin: PinView, restarted: Result<(), Seq<Seq<char>>> },
    Reloaded { pin: PinView, error: Seq<Seq<char>>, record: Result<RecordView, Seq<Seq<char>>> },
    PutBack { error: Seq<Seq<char>>, written: Result<(), Seq<Seq<char>>> },
}

impl View for MoveEvent {
    type V = MoveEventView;

    open spec fn view(&self) -> MoveEventView {
        match *self {
            MoveEvent::Loaded(record) => MoveEventView::Loaded(loaded_view(record)),
            MoveEvent::Pinned { pin, written } => MoveEventView::Pinned {
                pin: pin@,
                written: told(written),
            },
            MoveEvent::Restarted { pin, restarted } => MoveEventView::Restarted {
                pin: pin@,
                restarted: told(restarted),
            },
            MoveEvent::Reloaded { pin, error, record } => MoveEventView::Reloaded {
                pin: pin@,
                error: error@,
                record: loaded_view(record),
            },
            MoveEvent::PutBack { error, written } => MoveEventView::PutBack {
                error: error@,
                written: told(written),
            },
        }
    }
}

pub enum MoveStepView {
    Pin { record: RecordView, pin: PinView },
    Restart { pin: PinView },
    Reload { pin: PinView, error: Seq<Seq<char>> },
    PutBack { record: RecordView, error: Seq<Seq<char>> },
    Done(Result<(), Seq<Seq<char>>>),
}

impl View for MoveStep {
    type V = MoveStepView;

    open spec fn view(&self) -> MoveStepView {
        match *self {
            MoveStep::Pin { record, pin } => MoveStepView::Pin { record: record@, pin: pin@ },
            MoveStep::Restart { pin } => MoveStepView::Restart { pin: pin@ },
            MoveStep::Reload { pin, error } => MoveStepView::Reload { pin: pin@, error: error@ },
            MoveStep::PutBack { record, error } => MoveStepView::PutBack {
                record: record@,
                error: error@,
            },
            MoveStep::Done(r) => MoveStepView::Done(told(r)),
        }
    }
}

/// The step after `event`. The record is written first and the service restarted
/// from it: a service restarted before that would come back on the runtime it
/// had. Where the restart fails the record is read again and put back, and where
/// that fails too the failure says so.
pub open spec fn move_step(event: MoveEventView, runtime_key: Seq<char>) -> MoveStepView {
    match event {
        MoveEventView::Loaded(Ok(record)) => MoveStepView::Pin {
            record: pinned(record, runtime_key),
            pin: PinView { runtime_id: record.runtime_id, env_id: record.env_id },
        },
        MoveEventView::Loaded(Err(error)) => MoveStepView::Done(Err(error)),
        MoveEventView::Pinned { pin, written: Ok(_) } => MoveStepView::Restart { pin },
        MoveEventView::Pinned { pin, written: Err(error) } => MoveStepView::Done(Err(error)),
        MoveEventView::Restarted { pin, restarted: Ok(_) } => MoveStepView::Done(Ok(())),
        MoveEventView::Restarted { pin, restarted: Err(error) } => MoveStepView::Reload {
            pin,
            error,
        },
        MoveEventView::Reloaded { pin, error, record: Ok(record) } => MoveStepView::PutBack {
            record: put_back(record, pin.runtime_id, pin.env_id),
            error,
        },
        MoveEventView::Reloaded { pin, error, record: Err(also) } => MoveStepView::Done(
            Err(failed_restart(error, Err(also), runtime_key)),
        ),
        MoveEventView::PutBack { error, written } => MoveStepView::Done(
            Err(failed_restart(error, written, runtime_key)),
        ),
    }
}

fn tell_failed_restart(error: Failure, restored: Result<(), Failure>, runtime_key: &str) -> (r:
    Failure)
    ensures
        r@ == failed_restart(error@, told(restored), runtime_key@),
{
    match restored {
        Ok(_) => error,
        Err(also) => {
            let mut context =
                "the service record could not be put back on the runtime it ran on either (".to_owned();
            context.push_str(also.full().as_str());
            context.push_str("), so it now names `");
            context.push_str(runtime_key);
            context.push_str("`");
            error.context(context)
        },
    }
}

/// Moves one server onto `runtime_key`, step by step: given what came of the last
/// step, what is to be done next.
pub fn restart_service_onto_runtime(event: MoveEvent, runtime_key: &str) -> (r: MoveStep)
    ensures
        r@ == move_step(event@, runtime_key@),
{
    match event {
        MoveEvent::Loaded(Ok(record)) => {
            let mut record = record;
            let pin = pin_service_record_to_runtime(&mut record, runtime_key);
            MoveStep::Pin { record, pin }
        },
        MoveEvent::Loaded(Err(error)) => MoveStep::Done(Err(error)),
        MoveEvent::Pinned { pin, written } => match written {
            Ok(_) => MoveStep::Restart { pin },
            Err(error) => MoveStep::Done(Err(error)),
        },
        MoveEvent::Restarted { pin, restarted } => match restarted {
            Ok(_) => MoveStep::Done(Ok(())),
            Err(error) => MoveStep::Reload { pin, error },
        },
        MoveEvent::Reloaded { pin, error, record } => match record {
            Ok(record) => {
                let mut record = record;
                restore_service_record_pin(&mut record, pin);
                MoveStep::PutBack { record, error }
            },
            Err(also) => MoveStep::Done(Err(tell_failed_restart(error, Err(also), runtime_key))),
        },
        MoveEvent::PutBack { error, written } => MoveStep::Done(
            Err(tell_failed_restart(error, written, runtime_key)),
        ),
    }
}

// ---------------------------------------------------------------------------
// Accounting for it
// ---------------------------------------------------------------------------

pub open spec fn audit_outcome(s: ReconciliationView) -> (Seq<char>, Seq<char>) {
    if s.failed.len() == 0 {
        (
            "info"@,
            if s.restarted.len() == 0 {
                seq![]
            } else {
                " services_restarted="@ + dec(s.restarted.len())
            },
        )
    } else {
        (
            "warn"@,
            " services_restarted="@ + dec(s.restarted.len()) + " services_restart_failed="@ + dec(
                s.failed.len(),
            ),
        )
    }
}

/// The severity and the detail of the audit line that an activation writes.
pub fn service_restart_audit_outcome(services: &RuntimeServiceReconciliation) -> (r: (
    &'static str,
    String,
))
    ensures
        (r.0@, r.1@) == audit_outcome(services@),
{
    if services.failed.len() == 0 {
        if services.restarted.len() == 0 {
            return ("info", String::new());
        }
        let mut detail = " services_restarted=".to_owned();
        push_number(&mut detail, services.restarted.len() as u128);
        return ("info", detail);
    }
    let mut detail = " services_restarted=".to_owned();
    push_number(&mut detail, services.restarted.len() as u128);
    detail.push_str(" services_restart_failed=");
    push_number(&mut detail, services.failed.len() as u128);
    ("warn", detail)
}

pub open spec fn serving_ids(s: ReconciliationView) -> Seq<Seq<char>> {
    s.stale.map_values(|e: EntryView| e.service_id)
}

/// The failed ones that no longer serve.
pub open spec fn stopped_ids(
    failed: Seq<(Seq<char>, Seq<char>)>,
    serving: Seq<Seq<char>>,
) -> Seq<Seq<char>>
    decreases failed.len(),
{
    if failed.len() == 0 {
        seq![]
    } else {
        let before = stopped_ids(failed.drop_last(), serving);
        if serving.contains(failed.last().0) {
            before
        } else {
            before.push(failed.last().0)
        }
    }
}

pub open spec fn failure_text(s: ReconciliationView) -> Seq<char> {
    let serving = serving_ids(s);
    let stopped = stopped_ids(s.failed, serving);
    "the runtime was switched, but "@ + dec(s.failed.len())
        + " local server(s) could not be restarted onto it. Each record was put back on the runtime it last ran on unless its line below says otherwise."@
        + (if stopped.len() == 0 {
        Seq::<char>::empty()
    } else {
        " These were stopped by the attempt and are no longer serving: "@ + joined(
            stopped,
            ", "@,
        ) + "."@
    }) + (if serving.len() == 0 {
        Seq::<char>::empty()
    } else {
        " These are still serving from the runtime they recorded, and stay counted under services_on_previous_runtime: "@
            + joined(serving, ", "@) + "."@
    })
        + " Check `rocm services logs <id>`, then `rocm services restart <id> --yes` once the cause is fixed."@
}

fn is_among(ids: &Vec<String>, id: &str) -> (r: bool)
    ensures
        r == texts(ids@).contains(id@),
{
    let ghost all = texts(ids@);
    let mut i: usize = 0;
    while i < ids.len()
        invariant
            i <= ids@.len(),
            all == texts(ids@),
            forall|j: int| 0 <= j < i ==> #[trigger] all[j] != id@,
        decreases ids@.len() - i,
    {
        assert(all[i as int] == ids@[i as int]@);
        if same(ids[i].as_str(), id) {
            return true;
        }
        i += 1;
    }
    false
}

/// Fails where a server could not be moved, naming each and whether it is down
/// or still serves.
pub fn bail_on_failed_service_restarts(services: &RuntimeServiceReconciliation) -> (r: Result<
    (),
    Failure,
>)
    ensures
        told(r) == if services@.failed.len() == 0 {
            Ok::<(), Seq<Seq<char>>>(())
        } else {
            Err(plain(failure_text(services@)))
        },
{
    if services.failed.len() == 0 {
        return Ok(());
    }
    let ghost view = services@;
    let ghost entries = view.stale;
    let mut serving: Vec<String> = Vec::new();
    let mut i: usize = 0;
    while i < services.stale.len()
        invariant
            i <= services.stale@.len(),
            entries == entry_views(services.stale@),
            texts(serving@) == entries.subrange(0, i as int).map_values(
                |e: EntryView| e.service_id,
            ),
        decreases services.stale@.len() - i,
    {
        let ghost before = texts(serving@);
        serving.push(services.stale[i].service_id.clone());
        assert(texts(serving@) =~= before.push(entries[i as int].service_id));
        assert(entries.subrange(0, i + 1).map_values(|e: EntryView| e.service_id)
            =~= entries.subrange(0, i as int).map_values(|e: EntryView| e.service_id).push(
            entries[i as int].service_id,
        ));
        i += 1;
    }
    assert(entries.subrange(0, entries.len() as int) =~= entries);

    let ghost all = view.failed;
    let ghost ids = texts(serving@);
    let mut stopped: Vec<String> = Vec::new();
    let mut k: usize = 0;
    assert(all.subrange(0, 0) =~= seq![]);
    assert(texts(stopped@) =~= seq![]);
    while k < services.failed.len()
        invariant
            k <= services.failed@.len(),
            all == failed_views(services.failed@),
            ids == texts(serving@),
            texts(stopped@) == stopped_ids(all.subrange(0, k as int), ids),
        decreases services.failed@.len() - k,
    {
        assert(all.subrange(0, k + 1).drop_last() =~= all.subrange(0, k as int));
        let id = &services.failed[k].service_id;
        assert(all[k as int].0 == id@);
        if !is_among(&serving, id.as_str()) {
            let ghost before = texts(stopped@);
            stopped.push(id.clone());
            assert(texts(stopped@) =~= before.push(id@));
        }
        k += 1;
    }
    assert(all.subrange(0, all.len() as int) =~= all);

    let mut message = "the runtime was switched, but ".to_owned();
    push_number(&mut message, services.failed.len() as u128);
    message.push_str(
        " local server(s) could not be restarted onto it. Each record was put back on the runtime it last ran on unless its line below says otherwise.",
    );
    if stopped.len() > 0 {
        let mut part = " These were stopped by the attempt and are no longer serving: ".to_owned();
        part.push_str(join(&stopped, ", ").as_str());
        part.push_str(".");
        message.push_str(part.as_str());
    } else {
        assert(message@ + Seq::<char>::empty() =~= message@);
    }
    if serving.len() > 0 {
        let mut part =
            " These are still serving from the runtime they recorded, and stay counted under services_on_previous_runtime: ".to_owned();
        part.push_str(join(&serving, ", ").as_str());
        part.push_str(".");
        message.push_str(part.as_str());
    } else {
        assert(message@ + Seq::<char>::empty() =~= message@);
    }
    message.push_str(
        " Check `rocm services logs <id>`, then `rocm services restart <id> --yes` once the cause is fixed.",
    );
    Err(Failure::new(message))
}

// ---------------------------------------------------------------------------
// Laws
// ---------------------------------------------------------------------------

/// Whether a server is among those that failed.
pub open spec fn has_failed(s: ReconciliationView, service_id: Seq<char>) -> bool {
    exists|f: int| 0 <= f < s.failed.len() && (#[trigger] s.failed[f]).0 == service_id
}

proof fn lemma_after_restarts(s: ReconciliationView, outcomes: Seq<OutcomeView>, n: nat)
    requires
        n <= s.stale.len(),
        n <= outcomes.len(),
    ensures
        after_restarts(s, outcomes, n).restarted.len() + after_restarts(s, outcomes, n).failed.len()
            == s.restarted.len() + s.failed.len() + n,
        after_restarts(s, outcomes, n).unknown == s.unknown,
        forall|k: int|
            0 <= k < after_restarts(s, outcomes, n).stale.len() ==> has_failed(
                after_restarts(s, outcomes, n),
                (#[trigger] after_restarts(s, outcomes, n).stale[k]).service_id,
            ),
    decreases n,
{
    if n > 0 {
        lemma_after_restarts(s, outcomes, (n - 1) as nat);
        let before = after_restarts(s, outcomes, (n - 1) as nat);
        let after = after_restarts(s, outcomes, n);
        assert forall|k: int| 0 <= k < after.stale.len() implies has_failed(
            after,
            (#[trigger] after.stale[k]).service_id,
        ) by {
            if k < before.stale.len() {
                assert(after.stale[k] == before.stale[k]);
                let f = choose|f: int|
                    0 <= f < before.failed.len() && (#[trigger] before.failed[f]).0
                        == before.stale[k].service_id;
                assert(after.failed[f] == before.failed[f]);
            } else {
                assert(after.failed[after.failed.len() - 1].0 == after.stale[k].service_id);
            }
        }
    }
}

/// Moving the servers accounts for each of them: it was moved or it failed, and
/// one that is still counted as left behind is one that failed.
pub proof fn law_every_stale_server_is_accounted_for(
    s: ReconciliationView,
    outcomes: Seq<OutcomeView>,
)
    requires
        s.stale.len() == outcomes.len(),
    ensures
        ({
            let after = after_restarts(s, outcomes, outcomes.len());
            &&& after.restarted.len() + after.failed.len() == s.restarted.len() + s.failed.len()
                + s.stale.len()
            &&& after.unknown == s.unknown
            &&& forall|k: int|
                0 <= k < after.stale.len() ==> has_failed(
                    after,
                    (#[trigger] after.stale[k]).service_id,
                )
        }),
{
    lemma_after_restarts(s, outcomes, outcomes.len());
}

/// A record that was pointed at a runtime and put back says what it said before.
pub proof fn law_a_pin_can_be_taken_back(before: RecordView, runtime_key: Seq<char>)
    ensures
        put_back(pinned(before, runtime_key), before.runtime_id, before.env_id) == before,
{
}

/// A service is restarted only after its record was written, and what was written
/// is the record that was read, naming the runtime and no environment.
pub proof fn law_a_restart_follows_the_pinned_record(event: MoveEventView, runtime_key: Seq<char>)
    ensures
        move_step(event, runtime_key) matches MoveStepView::Restart { pin } ==> (
        event matches MoveEventView::Pinned { pin: p, written: Ok(_) } && p == pin),
        move_step(event, runtime_key) matches MoveStepView::Pin { record, pin } ==> (
        event matches MoveEventView::Loaded(Ok(read)) && record == pinned(read, runtime_key) && pin
            == (PinView { runtime_id: read.runtime_id, env_id: read.env_id })),
{
}

/// A move whose restart failed writes the record as it was read at first, where
/// nothing else changed it meanwhile, and ends in the failure of the restart.
pub proof fn law_a_failed_move_puts_the_record_back(
    read: RecordView,
    error: Seq<Seq<char>>,
    runtime_key: Seq<char>,
)
    ensures
        ({
            let first = move_step(MoveEventView::Loaded(Ok(read)), runtime_key);
            let record = first->Pin_record;
            let pin = first->Pin_pin;
            &&& first is Pin
            &&& move_step(MoveEventView::Pinned { pin, written: Ok(()) }, runtime_key)
                == (MoveStepView::Restart { pin })
            &&& move_step(
                MoveEventView::Restarted { pin, restarted: Err(error) },
                runtime_key,
            ) == (MoveStepView::Reload { pin, error })
            &&& move_step(
                MoveEventView::Reloaded { pin, error, record: Ok(record) },
                runtime_key,
            ) == (MoveStepView::PutBack { record: read, error })
            &&& move_step(MoveEventView::PutBack { error, written: Ok(()) }, runtime_key)
                == MoveStepView::Done(Err(error))
        }),
{
}

/// A move succeeds only where the restart did, and a failure on the way is never
/// dropped.
pub proof fn law_a_move_succeeds_only_by_a_restart(event: MoveEventView, runtime_key: Seq<char>)
    ensures
        move_step(event, runtime_key) == MoveStepView::Done(Ok(())) <==> (
        event matches MoveEventView::Restarted { pin, restarted: Ok(_) }),
{
}

proof fn lemma_stale_from(records: Seq<RecordView>, key: Seq<char>, k: int)
    requires
        0 <= k < stale_among(records, key).len(),
    ensures
        exists|i: int|
            0 <= i < records.len() && (#[trigger] records[i]).live && state_of(records[i], key)
                is Stale && records[i].service_id == stale_among(records, key)[k].service_id,
    decreases records.len(),
{
    if records.len() > 0 {
        let before = stale_among(records.drop_last(), key);
        if k < before.len() {
            lemma_stale_from(records.drop_last(), key, k);
            let i = choose|i: int|
                0 <= i < records.len() - 1 && (#[trigger] records.drop_last()[i]).live && state_of(
                    records.drop_last()[i],
                    key,
                ) is Stale && records.drop_last()[i].service_id == before[k].service_id;
            assert(records[i] == records.drop_last()[i]);
            assert(stale_among(records, key)[k] == before[k]);
        } else {
            assert(records[records.len() - 1] == records.last());
        }
    }
}

/// A server is named as left behind only if it is live, its engine does not bring
/// its own runtime, and what it recorded is neither the runtime being activated
/// nor selects it.
pub proof fn law_only_what_is_left_behind_is_named(
    records: Seq<RecordView>,
    key: Seq<char>,
    k: int,
)
    requires
        0 <= k < stale_among(records, key).len(),
    ensures
        exists|i: int|
            0 <= i < records.len() && (#[trigger] records[i]).live
                && !records[i].manages_own_runtime && records[i].runtime_id is Some
                && records[i].runtime_id != Some(key) && records[i].selected_key != Some(key)
                && records[i].service_id == stale_among(records, key)[k].service_id,
{
    lemma_stale_from(records, key, k);
}

/// The entry that a record is named by.
spec fn entry_of(r: RecordView) -> EntryView {
    EntryView { service_id: r.service_id, engine: r.engine, recorded_runtime: r.runtime_id }
}

proof fn lemma_named(records: Seq<RecordView>, key: Seq<char>)
    ensures
        stale_among(records, key) == records.filter(
            |r: RecordView|
                r.live && !r.manages_own_runtime && r.runtime_id is Some && r.runtime_id != Some(key)
                    && r.selected_key != Some(key),
        ).map_values(|r: RecordView| entry_of(r)),
        unknown_among(records, key) == records.filter(
            |r: RecordView| r.live && !r.manages_own_runtime && r.runtime_id is None,
        ).map_values(|r: RecordView| entry_of(r)),
    decreases records.len(),
{
    reveal(Seq::filter);
    let stale = |r: RecordView|
        r.live && !r.manages_own_runtime && r.runtime_id is Some && r.runtime_id != Some(key)
            && r.selected_key != Some(key);
    let unknown = |r: RecordView| r.live && !r.manages_own_runtime && r.runtime_id is None;
    let f = |r: RecordView| entry_of(r);
    if records.len() > 0 {
        let front = records.drop_last();
        let r = records.last();
        lemma_named(front, key);
        if stale(r) {
            assert(records.filter(stale).map_values(f) =~= front.filter(stale).map_values(f).push(
                f(r),
            ));
        }
        if unknown(r) {
            assert(records.filter(unknown).map_values(f) =~= front.filter(unknown).map_values(
                f,
            ).push(f(r)));
        }
    } else {
        assert(records.filter(stale).map_values(f) =~= seq![]);
        assert(records.filter(unknown).map_values(f) =~= seq![]);
    }
}

/// The servers named as left behind are all the live ones, and no others, whose
/// engine does not bring its own runtime and which record a runtime that is neither
/// the one being activated nor selects it: in the order of their records, each under
/// its own id, engine and recorded runtime. Those whose record names no runtime are
/// named apart.
pub proof fn law_every_server_left_behind_is_named(records: Seq<RecordView>, key: Seq<char>)
    ensures
        stale_among(records, key) == records.filter(
            |r: RecordView|
                r.live && !r.manages_own_runtime && r.runtime_id is Some && r.runtime_id != Some(key)
                    && r.selected_key != Some(key),
        ).map_values(
            |r: RecordView|
                EntryView {
                    service_id: r.service_id,
                    engine: r.engine,
                    recorded_runtime: r.runtime_id,
                },
        ),
        unknown_among(records, key) == records.filter(
            |r: RecordView| r.live && !r.manages_own_runtime && r.runtime_id is None,
        ).map_values(
            |r: RecordView|
                EntryView {
                    service_id: r.service_id,
                    engine: r.engine,
                    recorded_runtime: r.runtime_id,
                },
        ),
        forall|i: int|
            0 <= i < records.len() && (#[trigger] records[i]).live
                && !records[i].manages_own_runtime && records[i].runtime_id is Some
                && records[i].runtime_id != Some(key) && records[i].selected_key != Some(key)
                ==> stale_among(records, key).contains(
                EntryView {
                    service_id: records[i].service_id,
                    engine: records[i].engine,
                    recorded_runtime: records[i].runtime_id,
                },
            ),
{
    let stale = |r: RecordView|
        r.live && !r.manages_own_runtime && r.runtime_id is Some && r.runtime_id != Some(key)
            && r.selected_key != Some(key);
    let unknown = |r: RecordView| r.live && !r.manages_own_runtime && r.runtime_id is None;
    let f = |r: RecordView|
        EntryView { service_id: r.service_id, engine: r.engine, recorded_runtime: r.runtime_id };
    lemma_named(records, key);
    assert(stale_among(records, key) =~= records.filter(stale).map_values(f));
    assert(unknown_among(records, key) =~= records.filter(unknown).map_values(f));
    broadcast use vstd::seq_lib::group_filter_ensures;

    assert forall|i: int|
        0 <= i < records.len() && (#[trigger] records[i]).live && !records[i].manages_own_runtime
            && records[i].runtime_id is Some && records[i].runtime_id != Some(key)
            && records[i].selected_key != Some(key) implies stale_among(records, key).contains(
        EntryView {
            service_id: records[i].service_id,
            engine: records[i].engine,
            recorded_runtime: records[i].runtime_id,
        },
    ) by {
        let kept = records.filter(stale);
        assert(stale(records[i]));
        assert(kept.contains(records[i]));
        let k = choose|k: int| 0 <= k < kept.len() && kept[k] == records[i];
        assert(kept.map_values(f)[k] == f(records[i]));
    }
}

/// Where a server stands against a runtime: on it, or free of it, where its engine
/// brings its own, or its record names the runtime or something that selects it;
/// unknown where its record names none; and left behind otherwise, under the runtime
/// that its record names.
pub proof fn law_a_server_stands_in_one_place(record: RecordView, key: Seq<char>)
    ensures
        state_of(record, key) is Unknown <==> !record.manages_own_runtime && record.runtime_id
            is None,
        state_of(record, key) is Matches <==> record.manages_own_runtime || record.runtime_id
            == Some(key) || (record.runtime_id is Some && record.selected_key == Some(key)),
        state_of(record, key) matches StateView::Stale(r) ==> record.runtime_id == Some(r) && r
            != key,
{
}

/// Of the servers to be moved, those that were moved are told by their ids, in
/// order, and those that were not by their ids and why; and one that was not and
/// still serves stays named, under the runtime it serves on now.
pub proof fn law_each_outcome_is_told(s: ReconciliationView, outcomes: Seq<OutcomeView>, i: int)
    requires
        s.stale.len() == outcomes.len(),
        0 <= i < outcomes.len(),
    ensures
        ({
            let after = after_restarts(s, outcomes, outcomes.len());
            let entry = s.stale[i];
            match outcomes[i] {
                OutcomeView::Moved => after.restarted.contains(entry.service_id),
                OutcomeView::Failed(error, serving) => {
                    &&& after.failed.contains((entry.service_id, error))
                    &&& serving matches Some(runtime) ==> after.stale.contains(
                        EntryView {
                            service_id: entry.service_id,
                            engine: entry.engine,
                            recorded_runtime: runtime,
                        },
                    )
                },
            }
        }),
        (forall|k: int| 0 <= k < outcomes.len() ==> #[trigger] outcomes[k] is Moved)
            ==> after_restarts(s, outcomes, outcomes.len()).stale.len() == 0 && after_restarts(
            s,
            outcomes,
            outcomes.len(),
        ).failed == s.failed,
{
    lemma_outcome_told(s, outcomes, outcomes.len(), i);
    if forall|k: int| 0 <= k < outcomes.len() ==> #[trigger] outcomes[k] is Moved {
        lemma_all_moved(s, outcomes, outcomes.len());
    }
}

proof fn lemma_all_moved(s: ReconciliationView, outcomes: Seq<OutcomeView>, n: nat)
    requires
        n <= outcomes.len(),
        forall|k: int| 0 <= k < outcomes.len() ==> #[trigger] outcomes[k] is Moved,
    ensures
        after_restarts(s, outcomes, n).stale.len() == 0,
        after_restarts(s, outcomes, n).failed == s.failed,
    decreases n,
{
    if n > 0 {
        lemma_all_moved(s, outcomes, (n - 1) as nat);
        assert(outcomes[n - 1] is Moved);
    }
}

proof fn lemma_outcome_told(s: ReconciliationView, outcomes: Seq<OutcomeView>, n: nat, i: int)
    requires
        s.stale.len() == outcomes.len(),
        0 <= i < n <= outcomes.len(),
    ensures
        ({
            let after = after_restarts(s, outcomes, n);
            let entry = s.stale[i];
            match outcomes[i] {
                OutcomeView::Moved => after.restarted.contains(entry.service_id),
                OutcomeView::Failed(error, serving) => {
                    &&& after.failed.contains((entry.service_id, error))
                    &&& serving matches Some(runtime) ==> after.stale.contains(
                        EntryView {
                            service_id: entry.service_id,
                            engine: entry.engine,
                            recorded_runtime: runtime,
                        },
                    )
                },
            }
        }),
    decreases n,
{
    let before = after_restarts(s, outcomes, (n - 1) as nat);
    let after = after_restarts(s, outcomes, n);
    let entry = s.stale[i];
    if i == n - 1 {
        match outcomes[i] {
            OutcomeView::Moved => {
                assert(after.restarted.last() == entry.service_id);
            },
            OutcomeView::Failed(error, serving) => {
                assert(after.failed.last() == (entry.service_id, error));
                if let Some(runtime) = serving {
                    assert(after.stale.last() == (EntryView { recorded_runtime: runtime, ..entry }));
                }
            },
        }
    } else {
        lemma_outcome_told(s, outcomes, (n - 1) as nat, i);
        match outcomes[i] {
            OutcomeView::Moved => {
                let k = choose|k: int|
                    0 <= k < before.restarted.len() && before.restarted[k] == entry.service_id;
                assert(after.restarted[k] == before.restarted[k]);
            },
            OutcomeView::Failed(error, serving) => {
                let k = choose|k: int|
                    0 <= k < before.failed.len() && before.failed[k] == (entry.service_id, error);
                assert(after.failed[k] == before.failed[k]);
                if let Some(runtime) = serving {
                    let e = EntryView { recorded_runtime: runtime, ..entry };
                    let j = choose|j: int| 0 <= j < before.stale.len() && before.stale[j] == e;
                    assert(after.stale[j] == before.stale[j]);
                }
            },
        }
    }
}

proof fn lemma_service_lines_hold(s: Seq<EntryView>, i: int)
    requires
        0 <= i < s.len(),
    ensures
        has_text(
            service_lines(s),
            "    - "@ + s[i].service_id + " engine="@ + s[i].engine + " recorded_runtime="@
                + recorded_text(s[i]) + "\n"@,
        ),
    decreases s.len(),
{
    let front = service_lines(s.drop_last());
    let last = "    - "@ + s.last().service_id + " engine="@ + s.last().engine
        + " recorded_runtime="@ + recorded_text(s.last()) + "\n"@;
    let none: Seq<char> = seq![];
    if i < s.len() - 1 {
        lemma_service_lines_hold(s.drop_last(), i);
        assert(service_lines(s) =~= none + front + last);
        lemma_stands_within(
            none,
            front,
            last,
            "    - "@ + s[i].service_id + " engine="@ + s[i].engine + " recorded_runtime="@
                + recorded_text(s[i]) + "\n"@,
        );
    } else {
        assert(service_lines(s) =~= front + last + none);
        lemma_has_text(front, last, none);
    }
}

proof fn lemma_id_lines_hold(s: Seq<Seq<char>>, i: int)
    requires
        0 <= i < s.len(),
    ensures
        has_text(id_lines(s), "    - "@ + s[i] + "\n"@),
    decreases s.len(),
{
    let front = id_lines(s.drop_last());
    let last = "    - "@ + s.last() + "\n"@;
    let none: Seq<char> = seq![];
    if i < s.len() - 1 {
        lemma_id_lines_hold(s.drop_last(), i);
        assert(id_lines(s) =~= none + front + last);
        lemma_stands_within(none, front, last, "    - "@ + s[i] + "\n"@);
    } else {
        assert(id_lines(s) =~= front + last + none);
        lemma_has_text(front, last, none);
    }
}

proof fn lemma_failed_lines_hold(s: Seq<(Seq<char>, Seq<char>)>, i: int)
    requires
        0 <= i < s.len(),
    ensures
        has_text(failed_lines(s), "    - "@ + s[i].0 + ": "@ + s[i].1 + "\n"@),
    decreases s.len(),
{
    let front = failed_lines(s.drop_last());
    let last = "    - "@ + s.last().0 + ": "@ + s.last().1 + "\n"@;
    let none: Seq<char> = seq![];
    if i < s.len() - 1 {
        lemma_failed_lines_hold(s.drop_last(), i);
        assert(failed_lines(s) =~= none + front + last);
        lemma_stands_within(none, front, last, "    - "@ + s[i].0 + ": "@ + s[i].1 + "\n"@);
    } else {
        assert(failed_lines(s) =~= front + last + none);
        lemma_has_text(front, last, none);
    }
}

/// A list is told with how many it holds, exactly where it holds any.
pub proof fn law_a_list_is_told_with_its_count(heading: Seq<char>, count: nat, lines: Seq<char>)
    ensures
        count == 0 ==> counted(heading, count, lines).len() == 0,
        count > 0 ==> occurs_at(counted(heading, count, lines), heading + dec(count) + "\n"@, 0)
            && ends_with(counted(heading, count, lines), lines),
{
    let all = counted(heading, count, lines);
    let head = heading + dec(count) + "\n"@;
    if count > 0 {
        assert(all.subrange(0, head.len() as int) =~= head);
        assert(all.subrange(all.len() - lines.len(), all.len() as int) =~= lines);
    }
}

/// What becomes of the running servers is told in full: how many were left behind, and of
/// each its id, its engine and the runtime it is on; the same of those on an unrecorded
/// one; the ids of those that were restarted; and of those that were not, why. How to move
/// those left behind is told exactly where there are some and it was not tried.
pub proof fn law_every_server_is_told_of(s: ReconciliationView, active: Seq<char>, i: int)
    ensures
        ({
            let text = reconciliation_text(s, active);
            let of = |e: EntryView|
                "    - "@ + e.service_id + " engine="@ + e.engine + " recorded_runtime="@ + (
                match e.recorded_runtime {
                    Some(r) => r,
                    None => "<unset>"@,
                }) + "\n"@;
            let note =
                "  note: those keep serving on their recorded runtime until they are restarted; run `rocm runtimes activate "@
                + active + " --restart-services --yes` to move them\n"@;
            &&& occurs_at(
                text,
                "  services_on_previous_runtime: "@ + dec(s.stale.len()) + "\n"@,
                0,
            )
            &&& 0 <= i < s.stale.len() ==> has_text(text, of(s.stale[i]))
            &&& 0 <= i < s.unknown.len() ==> has_text(text, of(s.unknown[i])) && has_text(
                text,
                "  services_with_unrecorded_runtime: "@ + dec(s.unknown.len()) + "\n"@,
            )
            &&& 0 <= i < s.restarted.len() ==> has_text(text, "    - "@ + s.restarted[i] + "\n"@)
                && has_text(text, "  services_restarted: "@ + dec(s.restarted.len()) + "\n"@)
            &&& 0 <= i < s.failed.len() ==> has_text(
                text,
                "    - "@ + s.failed[i].0 + ": "@ + s.failed[i].1 + "\n"@,
            ) && has_text(text, "  services_restart_failed: "@ + dec(s.failed.len()) + "\n"@)
            &&& s.stale.len() > 0 && !s.restart_attempted ==> ends_with(text, note)
            &&& s.stale.len() == 0 || s.restart_attempted ==> text == reconciliation_text(
                s,
                Seq::empty(),
            )
        }),
{
    let text = reconciliation_text(s, active);
    let parts = lemma_reconciliation_parts(s, active);
    let head = parts[0];
    lemma_flat_first(parts);
    let (h2, h3, h4) = (
        "  services_with_unrecorded_runtime: "@,
        "  services_restarted: "@,
        "  services_restart_failed: "@,
    );
    if 0 <= i < s.stale.len() {
        lemma_service_lines_hold(s.stale, i);
        lemma_flat_holds(parts, 1);
        lemma_stands_in_what_it_stands_in(text, parts[1], line_of(s.stale[i]));
    }
    if 0 <= i < s.unknown.len() {
        let lines = service_lines(s.unknown);
        lemma_service_lines_hold(s.unknown, i);
        lemma_flat_holds(parts, 2);
        lemma_counted_holds(text, h2, s.unknown.len(), lines);
        lemma_stands_in_what_it_stands_in(text, lines, line_of(s.unknown[i]));
    }
    if 0 <= i < s.restarted.len() {
        let lines = id_lines(s.restarted);
        lemma_id_lines_hold(s.restarted, i);
        lemma_flat_holds(parts, 3);
        lemma_counted_holds(text, h3, s.restarted.len(), lines);
        lemma_stands_in_what_it_stands_in(text, lines, "    - "@ + s.restarted[i] + "\n"@);
    }
    if 0 <= i < s.failed.len() {
        let lines = failed_lines(s.failed);
        lemma_failed_lines_hold(s.failed, i);
        lemma_flat_holds(parts, 4);
        lemma_counted_holds(text, h4, s.failed.len(), lines);
        lemma_stands_in_what_it_stands_in(
            text,
            lines,
            "    - "@ + s.failed[i].0 + ": "@ + s.failed[i].1 + "\n"@,
        );
    }
    let end = parts[5];
    assert(text == flat(parts.drop_last()) + end);
    assert(text.subrange(text.len() - end.len(), text.len() as int) =~= end);
}

spec fn line_of(e: EntryView) -> Seq<char> {
    "    - "@ + e.service_id + " engine="@ + e.engine + " recorded_runtime="@ + recorded_text(e)
        + "\n"@
}

proof fn lemma_reconciliation_parts(s: ReconciliationView, active: Seq<char>) -> (parts: Seq<
    Seq<char>,
>)
    ensures
        parts.len() == 6,
        flat(parts) == reconciliation_text(s, active),
        parts[0] == "  services_on_previous_runtime: "@ + dec(s.stale.len()) + "\n"@,
        parts[1] == service_lines(s.stale),
        parts[2] == counted(
            "  services_with_unrecorded_runtime: "@,
            s.unknown.len(),
            service_lines(s.unknown),
        ),
        parts[3] == counted("  services_restarted: "@, s.restarted.len(), id_lines(s.restarted)),
        parts[4] == counted(
            "  services_restart_failed: "@,
            s.failed.len(),
            failed_lines(s.failed),
        ),
        parts[5] == (if s.stale.len() > 0 && !s.restart_attempted {
            "  note: those keep serving on their recorded runtime until they are restarted; run `rocm runtimes activate "@
                + active + " --restart-services --yes` to move them\n"@
        } else {
            Seq::<char>::empty()
        }),
{
    let none: Seq<Seq<char>> = seq![];
    let a = "  services_on_previous_runtime: "@ + dec(s.stale.len()) + "\n"@;
    let b = service_lines(s.stale);
    let c = counted(
        "  services_with_unrecorded_runtime: "@,
        s.unknown.len(),
        service_lines(s.unknown),
    );
    let d = counted("  services_restarted: "@, s.restarted.len(), id_lines(s.restarted));
    let e = counted("  services_restart_failed: "@, s.failed.len(), failed_lines(s.failed));
    let f = if s.stale.len() > 0 && !s.restart_attempted {
        "  note: those keep serving on their recorded runtime until they are restarted; run `rocm runtimes activate "@
            + active + " --restart-services --yes` to move them\n"@
    } else {
        Seq::<char>::empty()
    };
    lemma_flat_push(none, a);
    assert(flat(none) + a =~= a);
    lemma_flat_push(none.push(a), b);
    lemma_flat_push(none.push(a).push(b), c);
    lemma_flat_push(none.push(a).push(b).push(c), d);
    lemma_flat_push(none.push(a).push(b).push(c).push(d), e);
    lemma_flat_push(none.push(a).push(b).push(c).push(d).push(e), f);
    none.push(a).push(b).push(c).push(d).push(e).push(f)
}

proof fn lemma_flat_first(parts: Seq<Seq<char>>)
    requires
        parts.len() > 0,
    ensures
        occurs_at(flat(parts), parts[0], 0),
    decreases parts.len(),
{
    let (all, first) = (flat(parts), parts[0]);
    let before = flat(parts.drop_last());
    if parts.len() == 1 {
        assert(before =~= seq![]);
        assert(all =~= first);
        assert(all.subrange(0, first.len() as int) =~= first);
    } else {
        lemma_flat_first(parts.drop_last());
        assert(all.subrange(0, first.len() as int) =~= before.subrange(0, first.len() as int));
    }
}

proof fn lemma_counted_holds(text: Seq<char>, heading: Seq<char>, count: nat, lines: Seq<char>)
    requires
        count > 0,
        has_text(text, counted(heading, count, lines)),
    ensures
        has_text(text, heading + dec(count) + "\n"@),
        has_text(text, lines),
{
    let all = counted(heading, count, lines);
    let head = heading + dec(count) + "\n"@;
    let none: Seq<char> = seq![];
    assert(all =~= none + head + lines);
    lemma_has_text(none, head, lines);
    assert(all =~= head + lines + none);
    lemma_has_text(head, lines, none);
    lemma_stands_in_what_it_stands_in(text, all, head);
    lemma_stands_in_what_it_stands_in(text, all, lines);
}

/// A switch is put on record as a warning exactly where a restart failed, and with how many
/// servers were restarted and how many were not, where there is anything to tell.
pub proof fn law_a_failed_restart_is_recorded_as_a_warning(s: ReconciliationView)
    ensures
        ({
            let (level, told) = audit_outcome(s);
            &&& level == "warn"@ <==> s.failed.len() > 0
            &&& level == "info"@ <==> s.failed.len() == 0
            &&& told.len() == 0 <==> s.failed.len() == 0 && s.restarted.len() == 0
            &&& told.len() > 0 ==> occurs_at(
                told,
                " services_restarted="@ + dec(s.restarted.len()),
                0,
            )
            &&& s.failed.len() > 0 ==> ends_with(
                told,
                " services_restart_failed="@ + dec(s.failed.len()),
            )
        }),
{
    reveal_strlit("warn");
    reveal_strlit("info");
    reveal_strlit(" services_restarted=");
    assert("warn"@[0] != "info"@[0]);
    let told = audit_outcome(s).1;
    let a = " services_restarted="@ + dec(s.restarted.len());
    let b = " services_restart_failed="@ + dec(s.failed.len());
    if told.len() > 0 {
        assert(told.subrange(0, a.len() as int) =~= a);
    }
    if s.failed.len() > 0 {
        assert(told =~= a + b);
        assert(told.subrange(told.len() - b.len(), told.len() as int) =~= b);
    }
}

proof fn lemma_stopped_ids(failed: Seq<(Seq<char>, Seq<char>)>, serving: Seq<Seq<char>>)
    ensures
        stopped_ids(failed, serving) == failed.filter(
            |f: (Seq<char>, Seq<char>)| !serving.contains(f.0),
        ).map_values(|f: (Seq<char>, Seq<char>)| f.0),
    decreases failed.len(),
{
    reveal(Seq::filter);
    let p = |f: (Seq<char>, Seq<char>)| !serving.contains(f.0);
    let g = |f: (Seq<char>, Seq<char>)| f.0;
    if failed.len() > 0 {
        let front = failed.drop_last();
        lemma_stopped_ids(front, serving);
        if p(failed.last()) {
            assert(failed.filter(p).map_values(g) =~= front.filter(p).map_values(g).push(
                g(failed.last()),
            ));
        }
    } else {
        assert(failed.filter(p).map_values(g) =~= seq![]);
    }
}

/// Where servers could not be restarted it is told how many, and each by its id: those that
/// still serve, and, of those that were tried, those that do not.
pub proof fn law_a_server_that_went_down_is_told_from_one_that_serves(s: ReconciliationView)
    ensures
        ({
            let text = failure_text(s);
            let serving = s.stale.map_values(|e: EntryView| e.service_id);
            let down = s.failed.filter(
                |f: (Seq<char>, Seq<char>)| !serving.contains(f.0),
            ).map_values(|f: (Seq<char>, Seq<char>)| f.0);
            &&& has_text(text, dec(s.failed.len()) + " local server(s) could not be restarted"@)
            &&& down.len() > 0 ==> has_text(
                text,
                "no longer serving: "@ + joined(down, ", "@) + "."@,
            )
            &&& serving.len() > 0 ==> has_text(
                text,
                "services_on_previous_runtime: "@ + joined(serving, ", "@) + "."@,
            )
        }),
{
    lemma_stopped_ids(s.failed, serving_ids(s));
    let text = failure_text(s);
    let serving = serving_ids(s);
    let down = stopped_ids(s.failed, serving);
    let a = "the runtime was switched, but "@;
    let n = dec(s.failed.len());
    let b =
        " local server(s) could not be restarted onto it. Each record was put back on the runtime it last ran on unless its line below says otherwise."@;
    let c = " These were stopped by the attempt and are no longer serving: "@;
    let d =
        " These are still serving from the runtime they recorded, and stay counted under services_on_previous_runtime: "@;
    let e =
        " Check `rocm services logs <id>`, then `rocm services restart <id> --yes` once the cause is fixed."@;
    let p = if down.len() == 0 {
        Seq::<char>::empty()
    } else {
        c + joined(down, ", "@) + "."@
    };
    let q = if serving.len() == 0 {
        Seq::<char>::empty()
    } else {
        d + joined(serving, ", "@) + "."@
    };
    assert(text =~= a + n + b + p + q + e);
    let (b1, b2) = lemma_cut_before();
    assert(text =~= a + (n + b1) + (b2 + p + q + e));
    lemma_has_text(a, n + b1, b2 + p + q + e);
    let (c1, d1) = lemma_cut_behind();
    if down.len() > 0 {
        let part = "no longer serving: "@ + joined(down, ", "@) + "."@;
        let lead = a + n + b + c1;
        assert(p =~= c1 + part);
        assert(text =~= lead + part + (q + e));
        lemma_has_text(lead, part, q + e);
    }
    if serving.len() > 0 {
        let part = "services_on_previous_runtime: "@ + joined(serving, ", "@) + "."@;
        let lead = a + n + b + p + d1;
        assert(q =~= d1 + part);
        assert(text =~= lead + part + e);
        lemma_has_text(lead, part, e);
    }
}

proof fn lemma_cut_before() -> (r: (Seq<char>, Seq<char>))
    ensures
        r.0 == " local server(s) could not be restarted"@,
        " local server(s) could not be restarted onto it. Each record was put back on the runtime it last ran on unless its line below says otherwise."@
            == r.0 + r.1,
{
    reveal_strlit(
        " local server(s) could not be restarted onto it. Each record was put back on the runtime it last ran on unless its line below says otherwise.",
    );
    reveal_strlit(" local server(s) could not be restarted");
    let b =
        " local server(s) could not be restarted onto it. Each record was put back on the runtime it last ran on unless its line below says otherwise."@;
    let b1 = " local server(s) could not be restarted"@;
    let b2 = b.subrange(b1.len() as int, b.len() as int);
    assert(b =~= b1 + b2);
    (b1, b2)
}

proof fn lemma_cut_behind() -> (r: (Seq<char>, Seq<char>))
    ensures
        " These were stopped by the attempt and are no longer serving: "@ == r.0
            + "no longer serving: "@,
        " These are still serving from the runtime they recorded, and stay counted under services_on_previous_runtime: "@
            == r.1 + "services_on_previous_runtime: "@,
{
    reveal_strlit(" These were stopped by the attempt and are no longer serving: ");
    reveal_strlit("no longer serving: ");
    reveal_strlit(
        " These are still serving from the runtime they recorded, and stay counted under services_on_previous_runtime: ",
    );
    reveal_strlit("services_on_previous_runtime: ");
    let c = " These were stopped by the attempt and are no longer serving: "@;
    let d =
        " These are still serving from the runtime they recorded, and stay counted under services_on_previous_runtime: "@;
    let c1 = c.subrange(0, c.len() - "no longer serving: "@.len());
    let d1 = d.subrange(0, d.len() - "services_on_previous_runtime: "@.len());
    assert(c =~= c1 + "no longer serving: "@);
    assert(d =~= d1 + "services_on_previous_runtime: "@);
    (c1, d1)
}

/// A restart that was not consented to is refused with the command that consents to it.
/// A failed restart keeps what it failed of; where the record could not be put back either,
/// that is told first, with why and with the runtime it now names.
pub proof fn law_a_failed_restart_keeps_what_it_says(
    command: Seq<char>,
    error: Seq<Seq<char>>,
    also: Seq<Seq<char>>,
    runtime_key: Seq<char>,
)
    ensures
        has_text(
            restart_refusal(command)[0],
            "rocm runtimes "@ + command + " --restart-services --yes"@,
        ),
        has_text(failed_restart(error, Err(also), runtime_key)[0], "("@ + full_of(also) + ")"@),
        has_text(
            failed_restart(error, Err(also), runtime_key)[0],
            "now names `"@ + runtime_key + "`"@,
        ),
        restart_refusal(command).len() == 1,
        failed_restart(error, Ok(()), runtime_key) == error,
        failed_restart(error, Err(also), runtime_key).drop_first() == error,
{
    assert(has_text(
        restart_refusal(command)[0],
        "rocm runtimes "@ + command + " --restart-services --yes"@,
    )) by {
        let s0 = "restarting running local servers requires --yes.\n\nTry: rocm runtimes "@;
        let s1 = command;
        let s2 = " --restart-services --yes"@;
        let x1 = s0 + s1;
        let x2 = x1 + s2;
        assert(restart_refusal(command)[0] == x2);
        let part = "rocm runtimes "@ + s1 + s2;
        assert(has_text(x2, part)) by {
            let h = s0.subrange(0, 55);
            assert(s0 =~= h + "rocm runtimes "@) by {
                reveal_strlit(
                    "restarting running local servers requires --yes.\n\nTry: rocm runtimes ",
                );
                reveal_strlit("rocm runtimes ");
            }
            assert(x2 =~= h + part + Seq::<char>::empty());
            lemma_has_text(h, part, Seq::<char>::empty());
        }
    }
    assert(has_text(failed_restart(error, Err(also), runtime_key)[0], "("@ + full_of(also) + ")"@)
        && has_text(
            failed_restart(error, Err(also), runtime_key)[0],
            "now names `"@ + runtime_key + "`"@,
        )) by {
        let s0 =
            "the service record could not be put back on the runtime it ran on either ("@;
        let s1 = full_of(also);
        let s2 = "), so it now names `"@;
        let s3 = runtime_key;
        let s4 = "`"@;
        let x1 = s0 + s1;
        let x2 = x1 + s2;
        let x3 = x2 + s3;
        let x4 = x3 + s4;
        assert(failed_restart(error, Err(also), runtime_key)[0] == x4);
        let part = "("@ + s1 + ")"@;
        assert(has_text(x4, part)) by {
            let h = s0.subrange(0, 73);
            assert(s0 =~= h + "("@) by {
                reveal_strlit(
                    "the service record could not be put back on the runtime it ran on either (",
                );
                reveal_strlit("(");
            }
            let r = s2.subrange(1, s2.len() as int);
            assert(s2 =~= ")"@ + r) by {
                reveal_strlit("), so it now names `");
                reveal_strlit(")");
            }
            assert(x2 =~= h + part + r);
            lemma_has_text(h, part, r);
            lemma_goes_on(x2, s3, part);
            lemma_goes_on(x3, s4, part);
        }
        let part = "now names `"@ + s3 + s4;
        assert(has_text(x4, part)) by {
            let h = s2.subrange(0, 9);
            assert(s2 =~= h + "now names `"@) by {
                reveal_strlit("), so it now names `");
                reveal_strlit("now names `");
            }
            assert(x4 =~= (x1 + h) + part + Seq::<char>::empty());
            lemma_has_text(x1 + h, part, Seq::<char>::empty());
        }
    }
    assert(failed_restart(error, Err(also), runtime_key).drop_first() =~= error);
}

} // verus!
