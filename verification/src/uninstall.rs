//! Removing the tool.
//!
//! While a server that the tool manages may still be serving, nothing is removed:
//! what would stop the server has to stay.

use vstd::prelude::*;
use crate::failure::{plain, told, Failure};
use crate::storage::command::{approved, consent, NextStep};
use crate::text::opt_view;

verus! {

/// A path to remove, and what it is.
#[derive(Debug)]
pub struct UninstallEntry {
    pub kind: String,
    pub path: String,
}

pub open spec fn entry_views(s: Seq<UninstallEntry>) -> Seq<(Seq<char>, Seq<char>)> {
    s.map_values(|e: UninstallEntry| (e.kind@, e.path@))
}

/// What follows the review of `count` removals.
pub open spec fn next_step(
    count: nat,
    dry_run: bool,
    yes: bool,
    interactive: bool,
) -> Result<NextStep, Seq<Seq<char>>> {
    if count == 0 || dry_run {
        Ok(NextStep::Stop)
    } else {
        consent("uninstall"@, yes, interactive)
    }
}

pub fn after_review(count: usize, dry_run: bool, yes: bool, interactive: bool) -> (r: Result<
    NextStep,
    Failure,
>)
    ensures
        told(r) == next_step(count as nat, dry_run, yes, interactive),
{
    if count == 0 || dry_run {
        return Ok(NextStep::Stop);
    }
    approved("uninstall", yes, interactive)
}

/// A server that could not be stopped, and why.
#[derive(Debug)]
pub struct FailedManagedServiceStop {
    pub service_id: String,
    pub reason: String,
}

/// What became of stopping the servers.
#[derive(Debug)]
pub struct ManagedServiceStopReport {
    pub stopped: Vec<String>,
    pub failed: Vec<FailedManagedServiceStop>,
}

impl Default for ManagedServiceStopReport {
    fn default() -> (r: ManagedServiceStopReport)
        ensures
            r.stopped@.len() == 0,
            r.failed@.len() == 0,
    {
        ManagedServiceStopReport { stopped: Vec::new(), failed: Vec::new() }
    }
}

/// What comes before the first path is removed.
#[derive(Debug, Clone, Copy, PartialEq, Eq, Structural)]
pub enum BeforeRemoval {
    /// The managed servers are stopped, and how that went is reported.
    StopServers,
    /// No server has to be stopped: the report is the default one.
    GoOn,
}

/// What comes first, given whether the means of stopping a server would go.
pub open spec fn first_of_all(removes_recovery_tooling: bool) -> BeforeRemoval {
    if removes_recovery_tooling {
        BeforeRemoval::StopServers
    } else {
        BeforeRemoval::GoOn
    }
}

/// Only a removal that takes away the means of stopping a server has to stop it
/// first. One of caches alone leaves the command and every record in place.
pub fn before_removal(removes_recovery_tooling: bool) -> (r: BeforeRemoval)
    ensures
        r == if removes_recovery_tooling {
            BeforeRemoval::StopServers
        } else {
            BeforeRemoval::GoOn
        },
        r == first_of_all(removes_recovery_tooling),
{
    if removes_recovery_tooling {
        BeforeRemoval::StopServers
    } else {
        BeforeRemoval::GoOn
    }
}

/// How a stop report reads: why nothing is removed where a server could not be
/// stopped, and what is said first where all were.
#[derive(Debug)]
pub struct GateWords {
    pub refusal: String,
    pub notice: Option<String>,
}

/// Lets removal begin only if every server was confirmed stopped.
pub fn uninstall_removal_gate(report: &ManagedServiceStopReport, words: GateWords) -> (r: Result<
    Option<String>,
    Failure,
>)
    ensures
        match r {
            Ok(notice) => report.failed@.len() == 0 && opt_view(notice) == opt_view(words.notice),
            Err(failure) => report.failed@.len() > 0 && failure@ == plain(words.refusal@),
        },
{
    if report.failed.len() > 0 {
        return Err(Failure::new(words.refusal));
    }
    Ok(words.notice)
}

/// What is to be removed, in order, and what is said first.
#[derive(Debug)]
pub struct Removal {
    pub notice: Option<String>,
    pub entries: Vec<UninstallEntry>,
}

/// What is said and what is handed out for removal, given how many servers may still be
/// serving, or why that is not known.
pub open spec fn removal_of(
    plan: Seq<UninstallEntry>,
    still_serving: Result<nat, Seq<Seq<char>>>,
    refusal: Seq<char>,
    notice: Option<Seq<char>>,
) -> Result<(Option<Seq<char>>, Seq<UninstallEntry>), Seq<Seq<char>>> {
    match still_serving {
        Err(layers) => Err(layers),
        Ok(count) => if count > 0 {
            Err(plain(refusal))
        } else {
            Ok((notice, plan))
        },
    }
}

/// Hands out the planned paths for removal, given what became of stopping the
/// servers: none of them unless every stop was confirmed.
pub fn stop_managed_services_then_remove(
    plan: Vec<UninstallEntry>,
    stopped: Result<ManagedServiceStopReport, Failure>,
    words: GateWords,
) -> (r: Result<Removal, Failure>)
    ensures
        match stopped {
            Err(failure) => r matches Err(f) && f@ == failure@,
            Ok(report) => if report.failed@.len() > 0 {
                r matches Err(f) && f@ == plain(words.refusal@)
            } else {
                r matches Ok(removal) && removal.entries@ == plan@ && opt_view(removal.notice)
                    == opt_view(words.notice)
            },
        },
        (match r {
            Ok(removal) => Ok((opt_view(removal.notice), removal.entries@)),
            Err(failure) => Err(failure@),
        }) == removal_of(
            plan@,
            (match stopped {
                Ok(report) => Ok(report.failed@.len()),
                Err(failure) => Err(failure@),
            }),
            words.refusal@,
            opt_view(words.notice),
        ),
{
    let report = match stopped {
        Ok(report) => report,
        Err(failure) => {
            return Err(failure);
        },
    };
    match uninstall_removal_gate(&report, words) {
        Ok(notice) => Ok(Removal { notice, entries: plan }),
        Err(failure) => Err(failure),
    }
}

/// What is said once a path is gone.
pub fn removed_line(entry: &UninstallEntry) -> (r: String)
    ensures
        r@ == "removed "@ + entry.kind@ + " "@ + entry.path@,
{
    let mut out = "removed ".to_owned();
    out.push_str(entry.kind.as_str());
    out.push_str(" ");
    out.push_str(entry.path.as_str());
    out
}

/// After a review, paths are removed exactly where there are some, it was no dry run, and
/// consent was given; somebody is asked where it was not and somebody is there; else a
/// removal that was meant is refused, and any other ends with the review.
pub proof fn law_a_review_leads_to_removal_by_consent(
    count: nat,
    dry_run: bool,
    yes: bool,
    interactive: bool,
)
    ensures
        ({
            let next = next_step(count, dry_run, yes, interactive);
            let meant = count > 0 && !dry_run;
            &&& next == Ok::<NextStep, Seq<Seq<char>>>(NextStep::Remove) <==> meant && yes
            &&& next == Ok::<NextStep, Seq<Seq<char>>>(NextStep::Ask) <==> meant && !yes
                && interactive
            &&& next is Err <==> meant && !yes && !interactive
            &&& next == Ok::<NextStep, Seq<Seq<char>>>(NextStep::Stop) <==> !meant
        }),
{
}

/// A path is handed out for removal only once every server is known to have stopped, and
/// then every planned path is, in its order. A failure to find that out, or a server that
/// may still be serving, hands out none: the first is told as it is, the second by the
/// words for it.
pub proof fn law_nothing_goes_while_a_server_may_be_serving(
    plan: Seq<UninstallEntry>,
    still_serving: Result<nat, Seq<Seq<char>>>,
    refusal: Seq<char>,
    notice: Option<Seq<char>>,
)
    ensures
        ({
            let r = removal_of(plan, still_serving, refusal, notice);
            &&& r is Ok <==> still_serving == Ok::<nat, Seq<Seq<char>>>(0)
            &&& r matches Ok(out) ==> out == (notice, plan)
            &&& still_serving is Err ==> r->Err_0 == still_serving->Err_0
            &&& still_serving is Ok && r is Err ==> r->Err_0 == seq![refusal]
        }),
{
}

/// The servers are stopped first exactly where the means of stopping them would go.
pub proof fn law_servers_are_stopped_before_the_means_to_go(removes_recovery_tooling: bool)
    ensures
        first_of_all(removes_recovery_tooling) is StopServers <==> removes_recovery_tooling,
        first_of_all(removes_recovery_tooling) is GoOn <==> !removes_recovery_tooling,
{
}

} // verus!
