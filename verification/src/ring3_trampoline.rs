//! The controlled ring-3 trampoline model: a ready user context is entered
//! and traps straight back through the user trap vector.
use vstd::prelude::*;

verus! {

/// The interrupt vector user code traps back through.
pub const USER_TRAP_VECTOR: u8 = 0x80;

#[derive(Debug, Clone, Copy, PartialEq, Eq, Structural)]
pub struct UserEntry {
    pub rip: u64,
    pub rsp: u64,
}

/// What the trampoline needs of a user context: whether its selectors and
/// its entry point are set up, and the entry point.
#[derive(Debug, Clone, Copy, PartialEq, Eq, Structural)]
pub struct UserContextDescriptor {
    pub selectors_ready: bool,
    pub entry_ready: bool,
    pub entry: UserEntry,
}

#[derive(Debug, Clone, Copy, PartialEq, Eq, Structural)]
pub enum UserTrapReason {
    ControlledReturn,
}

#[derive(Debug, Clone, Copy, PartialEq, Eq, Structural)]
pub struct Ring3TrampolineResult {
    pub entry_rip: u64,
    pub user_rsp: u64,
    pub trap_vector: u8,
    pub reason: UserTrapReason,
    pub ring3_entered: bool,
    pub trapped_back: bool,
}

#[derive(Debug, Clone, Copy, PartialEq, Eq, Structural)]
pub enum Ring3TrampolineError {
    ContextNotReady,
}

/// Enter a ready context and return through the trap vector.
pub fn enter_controlled_trampoline(context: &UserContextDescriptor) -> (r: Result<Ring3TrampolineResult, Ring3TrampolineError>)
    ensures
        !(context.selectors_ready && context.entry_ready) ==> r == Err::<Ring3TrampolineResult, Ring3TrampolineError>(
            Ring3TrampolineError::ContextNotReady,
        ),
        context.selectors_ready && context.entry_ready ==> r == Ok::<Ring3TrampolineResult, Ring3TrampolineError>(
            Ring3TrampolineResult {
                entry_rip: context.entry.rip,
                user_rsp: context.entry.rsp,
                trap_vector: USER_TRAP_VECTOR,
                reason: UserTrapReason::ControlledReturn,
                ring3_entered: true,
                trapped_back: true,
            },
        ),
{
    if !context.selectors_ready || !context.entry_ready {
        return Err(Ring3TrampolineError::ContextNotReady);
    }
    Ok(
        Ring3TrampolineResult {
            entry_rip: context.entry.rip,
            user_rsp: context.entry.rsp,
            trap_vector: USER_TRAP_VECTOR,
            reason: UserTrapReason::ControlledReturn,
            ring3_entered: true,
            trapped_back: true,
        },
    )
}

} // verus!
