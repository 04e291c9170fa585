//! `rocm bootstrap`.

use vstd::prelude::*;
use crate::dash::{focused, run_bootstrap, Focus, Launch};

verus! {

/// What is said where there is no terminal to set up from.
pub const NON_INTERACTIVE_MESSAGE: &'static str =
    "ROCm setup needs an interactive terminal. Run `rocm bootstrap setup` from a terminal to choose an install folder and set up ROCm/TheRock.";

/// What setup does: open its flow, or say what it needs.
#[derive(Debug)]
pub enum Setup {
    Open(Launch),
    Say(&'static str),
}

pub fn run_setup(interactive: bool) -> (r: Setup)
    ensures
        if interactive {
            r matches Setup::Open(launch) && launch@ == focused(Focus::Setup)
        } else {
            r matches Setup::Say(message) && message@ == NON_INTERACTIVE_MESSAGE@
        },
{
    if interactive {
        Setup::Open(run_bootstrap())
    } else {
        Setup::Say(NON_INTERACTIVE_MESSAGE)
    }
}

} // verus!
