//! The data carried by the registry: opaque function handles, the per-hook
//! state machine, pending batch intents, and exported symbols.

use vstd::prelude::*;

verus! {

/// An opaque, address-sized handle to a function entry point. Callers receive
/// and return handles whole; the newtype keeps them out of arithmetic.
#[derive(Debug, Clone, Copy, PartialEq, Eq, Structural)]
pub struct Address(pub u64);

/// The lifecycle state of one hook record.
///
/// `Created` is the state right after installation: the engine installs every
/// hook disabled. `Removed` is terminal: the record must not be reused, and a
/// fresh creation is required to hook the same target again.
#[derive(Debug, Clone, Copy, PartialEq, Eq, Structural)]
pub enum HookState {
    Created,
    Enabled,
    Disabled,
    Removed,
}

impl HookState {
    /// A record in any state but `Removed` is live: its target counts as
    /// registered and its trampoline handle is valid.
    pub open spec fn is_live(self) -> bool {
        self != HookState::Removed
    }

    /// A hook redirects calls only while `Enabled`.
    pub open spec fn is_enabled(self) -> bool {
        self == HookState::Enabled
    }
}

/// One target→detour binding. The target is the identity key; the detour is
/// immutable after creation; the trampoline is produced by the engine at
/// creation time and stays valid until the record is removed.
#[derive(Debug, Clone, Copy, PartialEq, Eq, Structural)]
pub struct HookRecord {
    pub target: Address,
    pub detour: Address,
    pub trampoline: Address,
    pub state: HookState,
}

/// A pending intent in the batch queue: toggle the hook for `target` to
/// enabled (`enable == true`) or disabled, at the next atomic commit.
#[derive(Debug, Clone, Copy, PartialEq, Eq, Structural)]
pub struct Intent {
    pub target: Address,
    pub enable: bool,
}

/// One exported symbol known to the symbol-resolution collaborator: the loaded
/// module's name, the exported symbol's name, and its entry address.
#[derive(Debug, Clone)]
pub struct Export {
    pub module: String,
    pub symbol: String,
    pub address: Address,
}

} // verus!
