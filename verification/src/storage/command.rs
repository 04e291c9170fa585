//! What a reviewed removal may do next.

use vstd::prelude::*;
use crate::sizes::{ask, says, takes_sizes};
use crate::failure::{plain, told, within, Failure};
use crate::text::{dec, has_text, occurs_at};

verus! {

/// What follows a review.
#[derive(Debug, Clone, Copy, PartialEq, Eq, Structural)]
pub enum NextStep {
    /// Nothing is to be changed.
    Stop,
    /// The person at the terminal is asked.
    Ask,
    /// The removal goes ahead.
    Remove,
}

/// What is done about consent: it was given, there is somebody to ask, or there
/// is not.
pub open spec fn consent(
    action: Seq<char>,
    yes: bool,
    interactive: bool,
) -> Result<NextStep, Seq<Seq<char>>> {
    if yes {
        Ok(NextStep::Remove)
    } else if interactive {
        Ok(NextStep::Ask)
    } else {
        Err(plain(action + " requires --yes outside an interactive terminal"@))
    }
}

pub fn approved(action: &str, yes: bool, interactive: bool) -> (r: Result<NextStep, Failure>)
    ensures
        told(r) == consent(action@, yes, interactive),
{
    if yes {
        return Ok(NextStep::Remove);
    }
    if !interactive {
        let mut message = action.to_owned();
        message.push_str(" requires --yes outside an interactive terminal");
        return Err(Failure::new(message));
    }
    Ok(NextStep::Ask)
}

pub open spec fn next_step(
    nothing: bool,
    dry_run: bool,
    action: Seq<char>,
    yes: bool,
    interactive: bool,
) -> Result<NextStep, Seq<Seq<char>>> {
    if nothing || dry_run {
        Ok(NextStep::Stop)
    } else {
        consent(action, yes, interactive)
    }
}

fn after_review(nothing: bool, dry_run: bool, action: &str, yes: bool, interactive: bool) -> (r:
    Result<NextStep, Failure>)
    ensures
        told(r) == next_step(nothing, dry_run, action@, yes, interactive),
{
    if nothing || dry_run {
        return Ok(NextStep::Stop);
    }
    approved(action, yes, interactive)
}

/// What follows the review of a plan to remove `count` old installs.
pub fn after_installs_review(count: usize, dry_run: bool, yes: bool, interactive: bool) -> (r:
    Result<NextStep, Failure>)
    ensures
        told(r) == next_step(
            count == 0,
            dry_run,
            "removing old ROCm installs"@,
            yes,
            interactive,
        ),
{
    after_review(count == 0, dry_run, "removing old ROCm installs", yes, interactive)
}

/// What follows the review of a plan to remove `count` downloaded files.
pub fn after_downloads_review(count: usize, dry_run: bool, yes: bool, interactive: bool) -> (r:
    Result<NextStep, Failure>)
    ensures
        told(r) == next_step(count == 0, dry_run, "removing downloaded files"@, yes, interactive),
{
    after_review(count == 0, dry_run, "removing downloaded files", yes, interactive)
}

/// What is said once an install is gone.
pub fn removed_line<F: Fn(u64) -> String>(runtime_key: &str, size_bytes: u64, size: &F) -> (r: String)
    requires
        takes_sizes(*size),
    ensures
        forall|told: spec_fn(u64) -> Seq<char>| #[trigger]
            says(*size, told) ==> r@ == "removed "@ + runtime_key@ + " ("@ + told(size_bytes) + ")"@,
{
    let mut out = "removed ".to_owned();
    out.push_str(runtime_key);
    out.push_str(" (");
    out.push_str(ask(size, size_bytes).as_str());
    out.push_str(")");
    out
}

/// What is said once the downloaded files are gone.
pub fn downloads_removed_line(count: usize) -> (r: String)
    ensures
        r@ == dec(count as nat) + " downloaded file(s) removed"@,
{
    let mut out = crate::text::number(count as u128);
    out.push_str(" downloaded file(s) removed");
    out
}

/// Why a removal stopped: at which install or file, and what went wrong.
pub fn removal_failure(what: &str, error: Failure) -> (r: Failure)
    ensures
        r@ == within("failed to remove "@ + what@, error@),
{
    let mut message = "failed to remove ".to_owned();
    message.push_str(what);
    error.context(message)
}

/// A dry run never leads to a removal, whatever else is asked.
pub proof fn law_a_dry_run_changes_nothing(
    nothing: bool,
    action: Seq<char>,
    yes: bool,
    interactive: bool,
)
    ensures
        next_step(nothing, true, action, yes, interactive) == Ok::<NextStep, Seq<Seq<char>>>(
            NextStep::Stop,
        ),
{
}

/// Nothing is removed without `--yes` unless there is somebody to ask.
pub proof fn law_nothing_goes_without_consent(
    nothing: bool,
    dry_run: bool,
    action: Seq<char>,
    interactive: bool,
)
    ensures
        next_step(nothing, dry_run, action, false, interactive) != Ok::<NextStep, Seq<Seq<char>>>(
            NextStep::Remove,
        ),
        !nothing && !dry_run && !interactive ==> next_step(
            nothing,
            dry_run,
            action,
            false,
            interactive,
        ) is Err,
{
}

/// After a review, something is removed exactly where there is anything to, it was no dry
/// run, and consent was given; somebody is asked where it was not and somebody is there;
/// else a removal that was meant is refused, by its name, and any other ends with the
/// review.
pub proof fn law_a_review_leads_to_removal_by_consent(
    nothing: bool,
    dry_run: bool,
    action: Seq<char>,
    yes: bool,
    interactive: bool,
)
    ensures
        ({
            let next = next_step(nothing, dry_run, action, yes, interactive);
            let meant = !nothing && !dry_run;
            &&& next == Ok::<NextStep, Seq<Seq<char>>>(NextStep::Remove) <==> meant && yes
            &&& next == Ok::<NextStep, Seq<Seq<char>>>(NextStep::Ask) <==> meant && !yes
                && interactive
            &&& next is Err <==> meant && !yes && !interactive
            &&& next == Ok::<NextStep, Seq<Seq<char>>>(NextStep::Stop) <==> !meant
            &&& next matches Err(e) ==> e.len() == 1 && occurs_at(e[0], action, 0) && has_text(
                e[0],
                "--yes"@,
            )
        }),
{
    let rest = " requires --yes outside an interactive terminal"@;
    reveal_strlit(" requires --yes outside an interactive terminal");
    reveal_strlit("--yes");
    let all = action + rest;
    let n = action.len() as int;
    assert(all.subrange(0, n) =~= action);
    assert(rest.subrange(10, 15) =~= "--yes"@);
    assert(all.subrange(n + 10, n + 15) =~= "--yes"@);
    assert(occurs_at(all, "--yes"@, n + 10));
}

} // verus!
