use vstd::prelude::*;

pub mod text;
pub mod format_line;
pub mod commands;
pub mod parser;
pub mod history;
pub mod colors;
pub mod variables;
pub mod machine;
pub mod shell;
pub mod help;
pub mod laws;

verus! {

/// What Ctrl+C has done to the running command so far.
#[derive(PartialEq, Eq, Structural, Clone, Copy, Debug)]
pub enum Signal {
    SigInt,
    SigKill,
    Default,
}

/// The state after one more Ctrl+C: the first one interrupts, any further
/// one kills.
pub open spec fn next_signal(s: Signal) -> Signal {
    match s {
        Signal::Default => Signal::SigInt,
        Signal::SigInt => Signal::SigKill,
        Signal::SigKill => Signal::SigKill,
    }
}

/// Ctrl+C with `current_command` running (-1: none): the new state and the
/// signal to send to the command (`SigInt` or `SigKill`), if any.
pub fn ctrl_c(current_command: i32, signal: Signal) -> (r: (Signal, Option<Signal>))
    ensures
        current_command == -1 ==> r == (signal, None::<Signal>),
        current_command != -1 ==> r == (next_signal(signal), Some(next_signal(signal))),
{
    if current_command == -1 {
        return (signal, None);
    }
    let s = match signal {
        Signal::Default => Signal::SigInt,
        Signal::SigInt => Signal::SigKill,
        Signal::SigKill => Signal::SigKill,
    };
    (s, Some(s))
}

} // verus!
