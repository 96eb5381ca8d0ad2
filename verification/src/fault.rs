//! The panic discipline: a first panic reports and halts, a panic during
//! that reporting gets one second message, and any further re-entry halts
//! silently.
use vstd::prelude::*;

verus! {

/// What the panic path does on one entry.
#[derive(Clone, Copy, Debug, PartialEq, Eq, Hash, Structural)]
pub enum PanicAction {
    /// The first panic: report it and halt forever.
    ReportAndHalt,
    /// A panic while reporting a panic: emit the second message over the
    /// emergency path and halt forever.
    ReportDoubleAndHalt,
    /// A third entry: spin on halt without touching anything.
    HaltSilently,
}

/// Decides the panic path's action from the two re-entry flags, and gives
/// the flags to store back: the path is re-entrant at most twice.
pub fn panic_step(has_panicked: bool, has_panicked_again: bool) -> (r: (PanicAction, bool, bool))
    ensures
        !has_panicked ==> r == (PanicAction::ReportAndHalt, true, has_panicked_again),
        has_panicked && !has_panicked_again ==> r == (
            PanicAction::ReportDoubleAndHalt,
            true,
            true,
        ),
        has_panicked && has_panicked_again ==> r == (PanicAction::HaltSilently, true, true),
{
    if !has_panicked {
        (PanicAction::ReportAndHalt, true, has_panicked_again)
    } else if !has_panicked_again {
        (PanicAction::ReportDoubleAndHalt, true, true)
    } else {
        (PanicAction::HaltSilently, true, true)
    }
}

} // verus!
