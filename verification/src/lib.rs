//! A verified model of an inline-function-hooking subsystem: hook records are
//! created for a target address, individually enabled and disabled, queued for
//! one atomic batch commit, and removed, all behind a process-wide
//! initialize/uninitialize guard that runs the engine's global setup and
//! teardown exactly once.
//!
//! The architecture-specific patch engine (the machinery that rewrites machine
//! code at an address) is kept as state of the [`MinHook`] registry: installed
//! hooks, pending intents and the one-time guard flags are plain data, and
//! every operation's effect on them is stated in its contract and proved.
//! Where a call actually lands once patches are in place can be observed
//! through [`MinHook::call_destination`].

pub mod laws;
pub mod model;
pub mod record;
pub mod registry;
pub mod status;

pub use record::Address;
pub use record::Export;
pub use record::HookRecord;
pub use record::HookState;
pub use record::Intent;
pub use registry::MinHook;
pub use status::MH_STATUS;
