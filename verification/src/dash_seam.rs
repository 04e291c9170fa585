//! What the dashboard may run by itself, and what it must ask about.

use vstd::prelude::*;
use crate::failure::{headline_of, told, Failure};
use crate::text::{clone_texts, texts};

verus! {

/// What becomes of a tool call.
#[derive(Debug)]
pub enum ToolStep {
    /// It is refused, with the reason.
    Refuse(String),
    /// It only reads, and is run.
    Run,
    /// It changes something, and has to be approved.
    Approve,
}

pub enum StepView {
    Refuse(Seq<char>),
    Run,
    Approve,
}

impl View for ToolStep {
    type V = StepView;

    open spec fn view(&self) -> StepView {
        match self {
            ToolStep::Refuse(reason) => StepView::Refuse(reason@),
            ToolStep::Run => StepView::Run,
            ToolStep::Approve => StepView::Approve,
        }
    }
}

/// What becomes of a call, given whether it is valid and whether it only reads.
pub open spec fn step_for(validated: Result<(), Seq<Seq<char>>>, read_only: bool) -> StepView {
    match validated {
        Err(layers) => StepView::Refuse(headline_of(layers)),
        Ok(_) => if read_only {
            StepView::Run
        } else {
            StepView::Approve
        },
    }
}

/// Decides on a tool call, given whether it is valid and whether it only reads.
pub fn tool_step(validated: &Result<(), Failure>, read_only: bool) -> (r: ToolStep)
    ensures
        r@ == match *validated {
            Err(failure) => StepView::Refuse(headline_of(failure@)),
            Ok(_) => if read_only {
                StepView::Run
            } else {
                StepView::Approve
            },
        },
        r@ == step_for(told(*validated), read_only),
{
    match validated {
        Err(failure) => ToolStep::Refuse(failure.headline()),
        Ok(_) => if read_only {
            ToolStep::Run
        } else {
            ToolStep::Approve
        },
    }
}

/// What a change would do, in words and as a command.
#[derive(Debug)]
pub struct ApprovalRequest {
    pub pending_title: String,
    pub command_title: String,
    pub display_command: Option<String>,
    pub args: Vec<String>,
}

/// What a person is asked to approve.
#[derive(Debug)]
pub struct ApprovalIntent {
    pub title: String,
    pub body: Vec<String>,
    pub args: Vec<String>,
}

pub open spec fn intent_body(request: ApprovalRequest) -> Seq<Seq<char>> {
    match request.display_command {
        Some(command) => seq![request.command_title@, command@],
        None => seq![request.command_title@],
    }
}

/// Puts a request to a person: what is approved is what is run.
pub fn approval_intent(request: &ApprovalRequest) -> (r: ApprovalIntent)
    ensures
        r.title@ == request.pending_title@,
        texts(r.body@) == intent_body(*request),
        texts(r.args@) == texts(request.args@),
{
    let mut body: Vec<String> = Vec::new();
    body.push(request.command_title.clone());
    if let Some(command) = &request.display_command {
        body.push(command.clone());
    }
    assert(texts(body@) =~= intent_body(*request));
    ApprovalIntent {
        title: request.pending_title.clone(),
        body,
        args: clone_texts(&request.args),
    }
}

// ---------------------------------------------------------------------------
// Laws
// ---------------------------------------------------------------------------

/// Nothing runs by itself but a valid call that only reads; a valid one that changes
/// something is put to a person; and one that is not valid is refused, with what it is
/// refused for.
pub proof fn law_only_reading_runs_by_itself(
    validated: Result<(), Seq<Seq<char>>>,
    read_only: bool,
)
    ensures
        ({
            let step = step_for(validated, read_only);
            &&& step is Run <==> validated is Ok && read_only
            &&& step is Approve <==> validated is Ok && !read_only
            &&& step is Refuse <==> validated is Err
            &&& validated is Err && validated->Err_0.len() > 0 ==> step == StepView::Refuse(
                validated->Err_0[0],
            )
        }),
{
}

/// A person sees the command that an approval runs, behind what it is called, wherever
/// there is one to show.
pub proof fn law_a_person_sees_what_is_approved(request: ApprovalRequest)
    ensures
        ({
            let body = intent_body(request);
            &&& body[0] == request.command_title@
            &&& body.len() == 2 <==> request.display_command is Some
            &&& body.len() == 1 <==> request.display_command is None
            &&& request.display_command matches Some(command) ==> body[1] == command@
        }),
{
}

} // verus!
