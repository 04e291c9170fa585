//! A control channel that replays programmed replies and records every call.
//!
//! It stands in for a machine where there is none: a flow can be driven without
//! a network, an ssh server or a tailnet. A command nothing was programmed for
//! is a failure, so a flow that stops sending a command is noticed.

use vstd::prelude::*;
use vstd::utf8::encode_utf8;
use crate::failure::{plain, told, Failure};
use crate::remote::transport::{
    reply_of, Channel, Exchange, OutcomeView, RemoteOutcome, Reply, Transport,
};
use crate::text::{contains, has_text, opt_text, opt_view, texts};

verus! {

/// One programmed reply.
#[derive(Debug)]
pub struct ScriptedStep {
    /// Text the command has to contain.
    matches: String,
    outcome: RemoteOutcome,
}

pub struct StepView {
    pub pattern: Seq<char>,
    pub outcome: OutcomeView,
}

impl View for ScriptedStep {
    type V = StepView;

    closed spec fn view(&self) -> StepView {
        StepView { pattern: self.matches@, outcome: self.outcome@ }
    }
}

impl ScriptedStep {
    /// A command that succeeds and prints `stdout`.
    pub fn ok(matches: &str, stdout: &str) -> (r: ScriptedStep)
        ensures
            r@ == (StepView {
                pattern: matches@,
                outcome: OutcomeView {
                    success: true,
                    code: Some(0i32),
                    stdout: stdout@,
                    stderr: seq![],
                },
            }),
    {
        ScriptedStep {
            matches: matches.to_owned(),
            outcome: RemoteOutcome {
                success: true,
                code: Some(0),
                stdout: stdout.to_owned(),
                stderr: String::new(),
            },
        }
    }

    /// A command that runs and fails: the machine answering "no", as opposed to
    /// not answering.
    pub fn fails(matches: &str, code: i32, stderr: &str) -> (r: ScriptedStep)
        ensures
            r@ == (StepView {
                pattern: matches@,
                outcome: OutcomeView {
                    success: false,
                    code: Some(code),
                    stdout: seq![],
                    stderr: stderr@,
                },
            }),
    {
        ScriptedStep {
            matches: matches.to_owned(),
            outcome: RemoteOutcome {
                success: false,
                code: Some(code),
                stdout: String::new(),
                stderr: stderr.to_owned(),
            },
        }
    }
}

/// What the channel was asked to do.
#[derive(Debug, PartialEq, Eq)]
pub enum TransportCall {
    Exec { command: String, stdin: Option<String> },
    PushFile { local_path: String, remote_path: String },
}

pub enum CallView {
    Exec { command: Seq<char>, stdin: Option<Seq<char>> },
    PushFile { local_path: Seq<char>, remote_path: Seq<char> },
}

impl View for TransportCall {
    type V = CallView;

    open spec fn view(&self) -> CallView {
        match *self {
            TransportCall::Exec { command, stdin } => CallView::Exec {
                command: command@,
                stdin: opt_view(stdin),
            },
            TransportCall::PushFile { local_path, remote_path } => CallView::PushFile {
                local_path: local_path@,
                remote_path: remote_path@,
            },
        }
    }
}

/// The call an exchange began with.
pub open spec fn call_of(exchange: Exchange) -> CallView {
    match exchange {
        Exchange::Exec { command, stdin, .. } => CallView::Exec { command, stdin },
        Exchange::Push { local, remote, .. } => CallView::PushFile {
            local_path: local,
            remote_path: remote,
        },
    }
}

pub open spec fn step_views(steps: Seq<ScriptedStep>) -> Seq<StepView> {
    steps.map_values(|s: ScriptedStep| s@)
}

pub open spec fn call_views(calls: Seq<TransportCall>) -> Seq<CallView> {
    calls.map_values(|c: TransportCall| c@)
}

/// Which of the first `n` steps answers a command: of those whose text it
/// contains the one with the longest, and of equally long ones the last.
pub open spec fn answering(steps: Seq<StepView>, command: Seq<char>, n: nat) -> Option<int>
    decreases n,
{
    if n == 0 {
        None
    } else {
        let earlier = answering(steps, command, (n - 1) as nat);
        let here = steps[n - 1].pattern;
        if !has_text(command, here) {
            earlier
        } else {
            match earlier {
                Some(i) if encode_utf8(here).len() < encode_utf8(steps[i].pattern).len() => earlier,
                _ => Some(n - 1),
            }
        }
    }
}

/// How Rust's `Debug` shows a list of texts: `format!("{:?}", ..)`.
pub uninterp spec fn shown_texts(list: Seq<Seq<char>>) -> Seq<char>;

/// `format!("{:?}", list)`: the list as `Debug` shows it, a function of the
/// texts alone.
#[verifier::external_body]
fn show_texts(list: &Vec<String>) -> (r: String)
    ensures
        r@ == shown_texts(texts(list@)),
{
    format!("{:?}", list)
}

/// The reply the steps have for a command.
pub open spec fn scripted_reply(steps: Seq<StepView>, command: Seq<char>) -> Reply {
    match answering(steps, command, steps.len()) {
        Some(i) => Ok(steps[i].outcome),
        None => Err(
            plain(
                "the scripted transport has no reply for: "@ + command + "\n  programmed: "@
                    + shown_texts(steps.map_values(|s: StepView| s.pattern)),
            ),
        ),
    }
}

pub struct ScriptedTransport {
    steps: Vec<ScriptedStep>,
    calls: Vec<TransportCall>,
    push_failure: Option<String>,
    log: Ghost<Seq<Exchange>>,
}

impl ScriptedTransport {
    pub closed spec fn steps(&self) -> Seq<StepView> {
        step_views(self.steps@)
    }

    /// The calls recorded so far.
    pub closed spec fn recorded(&self) -> Seq<CallView> {
        call_views(self.calls@)
    }

    /// Why every file copy fails, where it was told to.
    pub closed spec fn push_failure(&self) -> Option<Seq<char>> {
        opt_view(self.push_failure)
    }

    /// What was recorded is what the history says was asked.
    pub open spec fn well_formed(&self) -> bool {
        self.recorded() == self.history().map_values(|e: Exchange| call_of(e))
    }

    pub fn new(steps: Vec<ScriptedStep>) -> (r: ScriptedTransport)
        ensures
            r.steps() == step_views(steps@),
            r.recorded() == Seq::<CallView>::empty(),
            r.push_failure() is None,
            r.history() == Seq::<Exchange>::empty(),
            r.well_formed(),
    {
        let r = ScriptedTransport {
            steps,
            calls: Vec::new(),
            push_failure: None,
            log: Ghost(Seq::empty()),
        };
        assert(r.recorded() =~= seq![]);
        assert(r.history().map_values(|e: Exchange| call_of(e)) =~= seq![]);
        r
    }

    /// The same channel, with every file copy failing.
    pub fn failing_push(self, message: &str) -> (r: ScriptedTransport)
        ensures
            r.steps() == self.steps(),
            r.recorded() == self.recorded(),
            r.history() == self.history(),
            r.push_failure() == Some(message@),
    {
        ScriptedTransport {
            steps: self.steps,
            calls: self.calls,
            push_failure: Some(message.to_owned()),
            log: self.log,
        }
    }

    /// Every call so far, in order.
    pub fn calls(&self) -> (r: Vec<TransportCall>)
        ensures
            call_views(r@) == self.recorded(),
    {
        let mut out: Vec<TransportCall> = Vec::new();
        let mut i: usize = 0;
        while i < self.calls.len()
            invariant
                i <= self.calls@.len(),
                out@.len() == i,
                forall|j: int| 0 <= j < i ==> out@[j]@ == self.calls@[j]@,
            decreases self.calls@.len() - i,
        {
            let call = match &self.calls[i] {
                TransportCall::Exec { command, stdin } => TransportCall::Exec {
                    command: command.clone(),
                    stdin: crate::text::clone_opt(stdin),
                },
                TransportCall::PushFile { local_path, remote_path } => TransportCall::PushFile {
                    local_path: local_path.clone(),
                    remote_path: remote_path.clone(),
                },
            };
            out.push(call);
            i += 1;
        }
        assert(call_views(out@) =~= self.recorded());
        out
    }

    fn find(&self, command: &str) -> (r: Option<usize>)
        ensures
            match r {
                Some(i) => i < self.steps@.len() && answering(
                    self.steps(),
                    command@,
                    self.steps().len(),
                ) == Some(i as int),
                None => answering(self.steps(), command@, self.steps().len()) is None,
            },
    {
        let mut best: Option<usize> = None;
        let mut i: usize = 0;
        while i < self.steps.len()
            invariant
                i <= self.steps@.len(),
                self.steps().len() == self.steps@.len(),
                match best {
                    Some(b) => b < i && answering(self.steps(), command@, i as nat) == Some(b as int),
                    None => answering(self.steps(), command@, i as nat) is None,
                },
            decreases self.steps@.len() - i,
        {
            let step = &self.steps[i];
            assert(self.steps()[i as int].pattern == step.matches@);
            if contains(command, step.matches.as_str()) {
                let keep = match best {
                    Some(b) => {
                        assert(self.steps()[b as int].pattern == self.steps@[b as int].matches@);
                        step.matches.as_str().as_bytes().len()
                            < self.steps[b].matches.as_str().as_bytes().len()
                    },
                    None => false,
                };
                if !keep {
                    best = Some(i);
                }
            }
            i += 1;
        }
        best
    }
}

impl Transport for ScriptedTransport {
    closed spec fn history(&self) -> Seq<Exchange> {
        self.log@
    }

    fn exec_with_stdin(&mut self, command: &str, stdin: Option<&str>) -> (r: Result<
        RemoteOutcome,
        Failure,
    >)
        ensures
            reply_of(r) == scripted_reply(old(self).steps(), command@),
            final(self).steps() == old(self).steps(),
            final(self).push_failure() == old(self).push_failure(),
            old(self).well_formed() ==> final(self).well_formed(),
    {
        let reply = match self.find(command) {
            Some(i) => Ok(self.steps[i].outcome.clone()),
            None => {
                let mut programmed: Vec<String> = Vec::new();
                let mut i: usize = 0;
                while i < self.steps.len()
                    invariant
                        i <= self.steps@.len(),
                        programmed@.len() == i,
                        forall|j: int| 0 <= j < i ==> programmed@[j]@ == self.steps@[j].matches@,
                    decreases self.steps@.len() - i,
                {
                    programmed.push(self.steps[i].matches.clone());
                    i += 1;
                }
                assert(texts(programmed@) =~= self.steps().map_values(|s: StepView| s.pattern));
                let mut message = "the scripted transport has no reply for: ".to_owned();
                message.push_str(command);
                message.push_str("\n  programmed: ");
                message.push_str(show_texts(&programmed).as_str());
                Err(Failure::new(message))
            },
        };
        let fed = match stdin {
            Some(s) => Some(s.to_owned()),
            None => None,
        };
        let ghost before = *self;
        let call = TransportCall::Exec { command: command.to_owned(), stdin: fed };
        let ghost exchange = Exchange::Exec {
            command: command@,
            stdin: opt_text(stdin),
            reply: reply_of(reply),
        };
        self.calls.push(call);
        self.log = Ghost(self.log@.push(exchange));
        assert(self.recorded() =~= before.recorded().push(call_of(exchange)));
        assert(self.history().map_values(|e: Exchange| call_of(e)) =~= before.history().map_values(
            |e: Exchange| call_of(e),
        ).push(call_of(exchange)));
        reply
    }

    fn push_file(&mut self, local_path: &str, remote_path: &str) -> (r: Result<(), Failure>)
        ensures
            told(r) == (match old(self).push_failure() {
                Some(message) => Err::<(), Seq<Seq<char>>>(plain(message)),
                None => Ok(()),
            }),
            final(self).steps() == old(self).steps(),
            final(self).push_failure() == old(self).push_failure(),
            old(self).well_formed() ==> final(self).well_formed(),
    {
        let reply = match &self.push_failure {
            Some(message) => Err(Failure::new(message.clone())),
            None => Ok(()),
        };
        let ghost before = *self;
        let call = TransportCall::PushFile {
            local_path: local_path.to_owned(),
            remote_path: remote_path.to_owned(),
        };
        let ghost exchange = Exchange::Push {
            local: local_path@,
            remote: remote_path@,
            copied: told(reply),
        };
        self.calls.push(call);
        self.log = Ghost(self.log@.push(exchange));
        assert(self.recorded() =~= before.recorded().push(call_of(exchange)));
        assert(self.history().map_values(|e: Exchange| call_of(e)) =~= before.history().map_values(
            |e: Exchange| call_of(e),
        ).push(call_of(exchange)));
        reply
    }
}

impl Channel for ScriptedTransport {
    /// The exchange is the next of the history, and the script stays.
    open spec fn step(before: ScriptedTransport, said: Exchange, after: ScriptedTransport) -> bool {
        &&& after.history() == before.history().push(said)
        &&& after.steps() == before.steps()
        &&& after.push_failure() == before.push_failure()
        &&& before.well_formed() ==> after.well_formed()
    }

    fn send(&mut self, command: &str, stdin: Option<&str>) -> (r: Result<RemoteOutcome, Failure>)
        ensures
            reply_of(r) == scripted_reply(old(self).steps(), command@),
    {
        self.exec_with_stdin(command, stdin)
    }

    fn copy(&mut self, local_path: &str, remote_path: &str) -> (r: Result<(), Failure>)
        ensures
            told(r) == (match old(self).push_failure() {
                Some(message) => Err::<(), Seq<Seq<char>>>(plain(message)),
                None => Ok(()),
            }),
    {
        self.push_file(local_path, remote_path)
    }
}

} // verus!
