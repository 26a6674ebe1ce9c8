//! Status codes: the closed enumeration of patch-engine outcomes, and the
//! mapping from a raw status to a typed `Result`.

use vstd::prelude::*;

verus! {

/// Status codes reported by the patch engine and surfaced unmodified to
/// callers; success is mapped to a unit value by [`MH_STATUS::ok`].
#[allow(non_camel_case_types)]
#[must_use]
#[derive(Debug, Clone, Copy, PartialEq, Eq, Structural)]
pub enum MH_STATUS {
    /// Unknown error. Should not be returned.
    MH_UNKNOWN,
    /// Successful.
    MH_OK,
    /// MinHook is already initialized.
    MH_ERROR_ALREADY_INITIALIZED,
    /// MinHook is not initialized yet, or already uninitialized.
    MH_ERROR_NOT_INITIALIZED,
    /// The hook for the specified target function is already created.
    MH_ERROR_ALREADY_CREATED,
    /// The hook for the specified target function is not created yet.
    MH_ERROR_NOT_CREATED,
    /// The hook for the specified target function is already enabled.
    MH_ERROR_ENABLED,
    /// The hook for the specified target function is not enabled yet, or
    /// already disabled.
    MH_ERROR_DISABLED,
    /// The specified pointer is invalid. It points the address of non-allocated
    /// and/or non-executable region.
    MH_ERROR_NOT_EXECUTABLE,
    /// The specified target function cannot be hooked.
    MH_ERROR_UNSUPPORTED_FUNCTION,
    /// Failed to allocate memory.
    MH_ERROR_MEMORY_ALLOC,
    /// Failed to change the memory protection.
    MH_ERROR_MEMORY_PROTECT,
    /// The specified module is not loaded.
    MH_ERROR_MODULE_NOT_FOUND,
    /// The specified function is not found.
    MH_ERROR_FUNCTION_NOT_FOUND,
}

impl MH_STATUS {
    /// Maps a raw status to a typed result: `MH_OK` becomes `Ok(())` and every
    /// other status is surfaced unchanged as the error, never swallowed.
    pub fn ok(self) -> (r: Result<(), MH_STATUS>)
        ensures
            r == (if self == MH_STATUS::MH_OK {
                Result::<(), MH_STATUS>::Ok(())
            } else {
                Result::<(), MH_STATUS>::Err(self)
            }),
    {
        if self == MH_STATUS::MH_OK {
            Ok(())
        } else {
            Err(self)
        }
    }
}

} // verus!
