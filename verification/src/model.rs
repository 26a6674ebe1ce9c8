//! The mathematical model of the subsystem and the transition of each
//! operation.
//!
//! [`Model`] is the ghost image of a [`crate::MinHook`] registry: the one-time
//! guard flags with their engine-call counters, the sequence of hook records,
//! the pending batch queue, the export table of the symbol-resolution
//! collaborator, and the trampoline allocator's cursor. Every executable
//! operation promises in its contract to take the registry from `m` to
//! `step_<op>(m, ...)`, so all reasoning about behavior happens here.

use vstd::prelude::*;

use crate::record::Address;
use crate::record::HookRecord;
use crate::record::HookState;
use crate::record::Intent;
use crate::status::MH_STATUS;

verus! {

/// The ghost image of one export-table entry: names as character sequences.
#[verifier::ext_equal]
pub ghost struct ExportModel {
    pub module: Seq<char>,
    pub symbol: Seq<char>,
    pub address: Address,
}

/// The ghost state of the whole subsystem.
#[verifier::ext_equal]
pub ghost struct Model {
    /// The one-time guard has run the engine's global setup.
    pub initialized: bool,
    /// The one-time guard has run the engine's global teardown; terminal.
    pub uninitialized: bool,
    /// How many times the engine's global setup actually ran.
    pub engine_init_calls: u64,
    /// How many times the engine's global teardown actually ran.
    pub engine_uninit_calls: u64,
    /// All hook records ever created, removed ones kept as tombstones;
    /// at most one record per target address.
    pub hooks: Seq<HookRecord>,
    /// Pending batch intents, at most one per target address.
    pub queue: Seq<Intent>,
    /// The exported symbols the resolution collaborator knows.
    pub exports: Seq<ExportModel>,
    /// The next trampoline handle the modeled engine will hand out.
    pub next_trampoline: u64,
}

// ---------------------------------------------------------------------------
// Lookups
// ---------------------------------------------------------------------------

/// Some record (live or removed) has this target.
pub open spec fn has_hook(hooks: Seq<HookRecord>, target: Address) -> bool {
    exists|i: int| 0 <= i < hooks.len() && hooks[i].target == target
}

/// The index of the record with this target; well defined when targets are
/// unique and `has_hook` holds.
pub open spec fn hook_index(hooks: Seq<HookRecord>, target: Address) -> int {
    choose|i: int| 0 <= i < hooks.len() && hooks[i].target == target
}

/// The record with this target.
pub open spec fn hook_at(hooks: Seq<HookRecord>, target: Address) -> HookRecord {
    hooks[hook_index(hooks, target)]
}

/// The target is registered and not removed.
pub open spec fn has_live_hook(hooks: Seq<HookRecord>, target: Address) -> bool {
    has_hook(hooks, target) && hook_at(hooks, target).state.is_live()
}

/// Some live record owns this trampoline handle.
pub open spec fn has_live_trampoline(hooks: Seq<HookRecord>, tramp: Address) -> bool {
    exists|i: int| 0 <= i < hooks.len() && hooks[i].state.is_live() && hooks[i].trampoline == tramp
}

/// The live record owning this trampoline handle; well defined when
/// trampolines are unique and `has_live_trampoline` holds.
pub open spec fn trampoline_owner(hooks: Seq<HookRecord>, tramp: Address) -> HookRecord {
    hooks[choose|i: int|
        0 <= i < hooks.len() && hooks[i].state.is_live() && hooks[i].trampoline == tramp]
}

/// A pending intent for this target is queued.
pub open spec fn has_intent(queue: Seq<Intent>, target: Address) -> bool {
    exists|i: int| 0 <= i < queue.len() && queue[i].target == target
}

/// The index of the pending intent for this target; well defined when queued
/// targets are unique and `has_intent` holds.
pub open spec fn intent_index(queue: Seq<Intent>, target: Address) -> int {
    choose|i: int| 0 <= i < queue.len() && queue[i].target == target
}

/// Whether the pending intent for this target asks for enabling.
pub open spec fn intent_enable(queue: Seq<Intent>, target: Address) -> bool {
    queue[intent_index(queue, target)].enable
}

/// Some export entry belongs to this module.
pub open spec fn has_module(exports: Seq<ExportModel>, module: Seq<char>) -> bool {
    exists|i: int| 0 <= i < exports.len() && exports[i].module == module
}

/// This module exports this symbol.
pub open spec fn has_export(exports: Seq<ExportModel>, module: Seq<char>, symbol: Seq<char>) -> bool {
    exists|i: int|
        0 <= i < exports.len() && exports[i].module == module && exports[i].symbol == symbol
}

/// The index of the export entry for (module, symbol); well defined when
/// entries are unique and `has_export` holds.
pub open spec fn export_index(exports: Seq<ExportModel>, module: Seq<char>, symbol: Seq<char>) -> int {
    choose|i: int|
        0 <= i < exports.len() && exports[i].module == module && exports[i].symbol == symbol
}

/// The entry address this module exports this symbol at.
pub open spec fn export_address(exports: Seq<ExportModel>, module: Seq<char>, symbol: Seq<char>) -> Address {
    exports[export_index(exports, module, symbol)].address
}

// ---------------------------------------------------------------------------
// Well-formedness
// ---------------------------------------------------------------------------

/// No two records share a target address.
pub open spec fn targets_unique(hooks: Seq<HookRecord>) -> bool {
    forall|i: int, j: int|
        #![trigger hooks[i].target, hooks[j].target]
        0 <= i < j < hooks.len() ==> hooks[i].target != hooks[j].target
}

/// No two records share a trampoline handle.
pub open spec fn trampolines_unique(hooks: Seq<HookRecord>) -> bool {
    forall|i: int, j: int|
        #![trigger hooks[i].trampoline, hooks[j].trampoline]
        0 <= i < j < hooks.len() ==> hooks[i].trampoline != hooks[j].trampoline
}

/// No two queued intents share a target address.
pub open spec fn queue_targets_unique(queue: Seq<Intent>) -> bool {
    forall|i: int, j: int|
        #![trigger queue[i].target, queue[j].target]
        0 <= i < j < queue.len() ==> queue[i].target != queue[j].target
}

/// No two export entries share a (module, symbol) pair.
pub open spec fn exports_unique(exports: Seq<ExportModel>) -> bool {
    forall|i: int, j: int|
        #![trigger exports[i], exports[j]]
        0 <= i < j < exports.len() ==> !(exports[i].module == exports[j].module
            && exports[i].symbol == exports[j].symbol)
}

/// The well-formedness invariant: constructors establish it and every
/// operation preserves it.
pub open spec fn inv(m: Model) -> bool {
    &&& targets_unique(m.hooks)
    &&& trampolines_unique(m.hooks)
    &&& forall|i: int| 0 <= i < m.hooks.len() ==> (#[trigger] m.hooks[i]).trampoline.0
        < m.next_trampoline
    &&& m.engine_init_calls == (if m.initialized { 1u64 } else { 0u64 })
    &&& m.engine_uninit_calls == (if m.uninitialized { 1u64 } else { 0u64 })
    &&& (m.uninitialized ==> m.initialized)
    &&& (m.hooks.len() > 0 ==> m.initialized && !m.uninitialized)
    &&& queue_targets_unique(m.queue)
    &&& forall|i: int| 0 <= i < m.queue.len() ==> has_live_hook(
        m.hooks,
        (#[trigger] m.queue[i]).target,
    )
    &&& exports_unique(m.exports)
}

/// The state of a freshly constructed registry: nothing initialized, nothing
/// registered; trampoline handles start at 1 so none is ever the null handle.
pub open spec fn init_model() -> Model {
    Model {
        initialized: false,
        uninitialized: false,
        engine_init_calls: 0,
        engine_uninit_calls: 0,
        hooks: Seq::empty(),
        queue: Seq::empty(),
        exports: Seq::empty(),
        next_trampoline: 1,
    }
}

// ---------------------------------------------------------------------------
// Transitions
// ---------------------------------------------------------------------------

/// The one-time initialization guard: on the first call the engine's global
/// setup runs once; afterwards the guard is a no-op.
pub open spec fn step_ensure_initialized(m: Model) -> Model {
    if m.initialized {
        m
    } else {
        Model {
            initialized: true,
            engine_init_calls: (m.engine_init_calls + 1) as u64,
            ..m
        }
    }
}

/// The one-time teardown guard: initializes first (so teardown before any use
/// is well defined), then on the first call runs the engine's global teardown
/// once, which removes every installed patch and drops every pending intent;
/// afterwards the guard is a no-op.
pub open spec fn step_uninitialize(m: Model) -> Model {
    let m1 = step_ensure_initialized(m);
    if m1.uninitialized {
        m1
    } else {
        Model {
            uninitialized: true,
            engine_uninit_calls: (m1.engine_uninit_calls + 1) as u64,
            hooks: Seq::empty(),
            queue: Seq::empty(),
            ..m1
        }
    }
}

/// Creating a hook: installs a record in `Created` (disabled) state with a
/// fresh trampoline handle. Fails with `MH_ERROR_NOT_INITIALIZED` after
/// teardown, `MH_ERROR_ALREADY_CREATED` if the target is registered and not
/// removed, and `MH_ERROR_MEMORY_ALLOC` if the modeled engine cannot hand out
/// one more trampoline. A removed record's slot is reused by a fresh creation.
pub open spec fn step_create(m: Model, target: Address, detour: Address) -> (Model, Result<
    Address,
    MH_STATUS,
>) {
    let m1 = step_ensure_initialized(m);
    if m1.uninitialized {
        (m1, Err(MH_STATUS::MH_ERROR_NOT_INITIALIZED))
    } else if has_live_hook(m1.hooks, target) {
        (m1, Err(MH_STATUS::MH_ERROR_ALREADY_CREATED))
    } else if m1.next_trampoline == u64::MAX {
        (m1, Err(MH_STATUS::MH_ERROR_MEMORY_ALLOC))
    } else {
        let tramp = Address(m1.next_trampoline);
        let rec = HookRecord { target, detour, trampoline: tramp, state: HookState::Created };
        let hooks2 = if has_hook(m1.hooks, target) {
            m1.hooks.update(hook_index(m1.hooks, target), rec)
        } else {
            m1.hooks.push(rec)
        };
        (
            Model { hooks: hooks2, next_trampoline: (m1.next_trampoline + 1) as u64, ..m1 },
            Ok(tramp),
        )
    }
}

/// Creating a hook by module and symbol name: the resolution collaborator maps
/// the pair to a target address, then creation proceeds as by address. Name
/// lookup happens before the engine is involved, so an unknown module or
/// symbol is reported even after teardown.
pub open spec fn step_create_api(
    m: Model,
    module: Seq<char>,
    symbol: Seq<char>,
    detour: Address,
) -> (Model, Result<(Address, Address), MH_STATUS>) {
    let m1 = step_ensure_initialized(m);
    if !has_module(m1.exports, module) {
        (m1, Err(MH_STATUS::MH_ERROR_MODULE_NOT_FOUND))
    } else if !has_export(m1.exports, module, symbol) {
        (m1, Err(MH_STATUS::MH_ERROR_FUNCTION_NOT_FOUND))
    } else {
        let target = export_address(m1.exports, module, symbol);
        let (m2, r) = step_create(m1, target, detour);
        (
            m2,
            match r {
                Ok(tramp) => Ok((tramp, target)),
                Err(e) => Err(e),
            },
        )
    }
}

/// Enabling one hook immediately: `Created | Disabled → Enabled`. Fails with
/// `MH_ERROR_ENABLED` if already enabled and `MH_ERROR_NOT_CREATED` if the
/// target was never created or is removed.
pub open spec fn step_enable(m: Model, target: Address) -> (Model, Result<(), MH_STATUS>) {
    let m1 = step_ensure_initialized(m);
    if m1.uninitialized {
        (m1, Err(MH_STATUS::MH_ERROR_NOT_INITIALIZED))
    } else if !has_live_hook(m1.hooks, target) {
        (m1, Err(MH_STATUS::MH_ERROR_NOT_CREATED))
    } else if hook_at(m1.hooks, target).state.is_enabled() {
        (m1, Err(MH_STATUS::MH_ERROR_ENABLED))
    } else {
        let i = hook_index(m1.hooks, target);
        let rec = HookRecord { state: HookState::Enabled, ..m1.hooks[i] };
        (Model { hooks: m1.hooks.update(i, rec), ..m1 }, Ok(()))
    }
}

/// Disabling one hook immediately: `Enabled → Disabled`. Fails with
/// `MH_ERROR_DISABLED` if the hook is not enabled (freshly created counts as
/// disabled) and `MH_ERROR_NOT_CREATED` if never created or removed.
pub open spec fn step_disable(m: Model, target: Address) -> (Model, Result<(), MH_STATUS>) {
    let m1 = step_ensure_initialized(m);
    if m1.uninitialized {
        (m1, Err(MH_STATUS::MH_ERROR_NOT_INITIALIZED))
    } else if !has_live_hook(m1.hooks, target) {
        (m1, Err(MH_STATUS::MH_ERROR_NOT_CREATED))
    } else if !hook_at(m1.hooks, target).state.is_enabled() {
        (m1, Err(MH_STATUS::MH_ERROR_DISABLED))
    } else {
        let i = hook_index(m1.hooks, target);
        let rec = HookRecord { state: HookState::Disabled, ..m1.hooks[i] };
        (Model { hooks: m1.hooks.update(i, rec), ..m1 }, Ok(()))
    }
}

/// Removing one hook: `Created | Enabled | Disabled → Removed` (terminal).
/// The record stays as a tombstone, its trampoline handle becomes dangling,
/// and any pending intent for the target is dropped from the batch queue.
pub open spec fn step_remove(m: Model, target: Address) -> (Model, Result<(), MH_STATUS>) {
    let m1 = step_ensure_initialized(m);
    if m1.uninitialized {
        (m1, Err(MH_STATUS::MH_ERROR_NOT_INITIALIZED))
    } else if !has_live_hook(m1.hooks, target) {
        (m1, Err(MH_STATUS::MH_ERROR_NOT_CREATED))
    } else {
        let i = hook_index(m1.hooks, target);
        let rec = HookRecord { state: HookState::Removed, ..m1.hooks[i] };
        let queue2 = if has_intent(m1.queue, target) {
            m1.queue.remove(intent_index(m1.queue, target))
        } else {
            m1.queue
        };
        (Model { hooks: m1.hooks.update(i, rec), queue: queue2, ..m1 }, Ok(()))
    }
}

/// Queuing an intent without touching the engine: the record must be created
/// and not removed; a later intent for the same target overwrites the earlier
/// one within the unapplied batch (last writer wins).
pub open spec fn step_queue(m: Model, target: Address, enable: bool) -> (Model, Result<
    (),
    MH_STATUS,
>) {
    let m1 = step_ensure_initialized(m);
    if m1.uninitialized {
        (m1, Err(MH_STATUS::MH_ERROR_NOT_INITIALIZED))
    } else if !has_live_hook(m1.hooks, target) {
        (m1, Err(MH_STATUS::MH_ERROR_NOT_CREATED))
    } else {
        let it = Intent { target, enable };
        let queue2 = if has_intent(m1.queue, target) {
            m1.queue.update(intent_index(m1.queue, target), it)
        } else {
            m1.queue.push(it)
        };
        (Model { queue: queue2, ..m1 }, Ok(()))
    }
}

/// One record after a batch commit: a live record with a pending intent moves
/// to the intended state, every other record is untouched.
pub open spec fn apply_intents_to(rec: HookRecord, queue: Seq<Intent>) -> HookRecord {
    if rec.state.is_live() && has_intent(queue, rec.target) {
        HookRecord {
            state: if intent_enable(queue, rec.target) {
                HookState::Enabled
            } else {
                HookState::Disabled
            },
            ..rec
        }
    } else {
        rec
    }
}

/// All records after a batch commit.
pub open spec fn applied_hooks(hooks: Seq<HookRecord>, queue: Seq<Intent>) -> Seq<HookRecord> {
    Seq::new(hooks.len(), |j: int| apply_intents_to(hooks[j], queue))
}

/// Committing the batch: every pending intent takes effect in one transition
/// and the queue is drained, whatever the outcome.
pub open spec fn step_apply_queued(m: Model) -> (Model, Result<(), MH_STATUS>) {
    let m1 = step_ensure_initialized(m);
    if m1.uninitialized {
        (m1, Err(MH_STATUS::MH_ERROR_NOT_INITIALIZED))
    } else {
        (
            Model { hooks: applied_hooks(m1.hooks, m1.queue), queue: Seq::empty(), ..m1 },
            Ok(()),
        )
    }
}

/// All records after an immediate all-hooks toggle: every live record moves to
/// `state`, tombstones stay.
pub open spec fn all_hooks_set(hooks: Seq<HookRecord>, state: HookState) -> Seq<HookRecord> {
    Seq::new(
        hooks.len(),
        |j: int|
            if hooks[j].state.is_live() {
                HookRecord { state, ..hooks[j] }
            } else {
                hooks[j]
            },
    )
}

/// Toggling every registered hook at once, immediately (distinct from the
/// queue/apply path). Toggling zero hooks succeeds.
pub open spec fn step_set_all(m: Model, state: HookState) -> (Model, Result<(), MH_STATUS>) {
    let m1 = step_ensure_initialized(m);
    if m1.uninitialized {
        (m1, Err(MH_STATUS::MH_ERROR_NOT_INITIALIZED))
    } else {
        (Model { hooks: all_hooks_set(m1.hooks, state), ..m1 }, Ok(()))
    }
}

/// Registering an export with the resolution collaborator; a later entry for
/// the same (module, symbol) pair overwrites the earlier one.
pub open spec fn step_register_export(
    m: Model,
    module: Seq<char>,
    symbol: Seq<char>,
    address: Address,
) -> Model {
    let e = ExportModel { module, symbol, address };
    let exports2 = if has_export(m.exports, module, symbol) {
        m.exports.update(export_index(m.exports, module, symbol), e)
    } else {
        m.exports.push(e)
    };
    Model { exports: exports2, ..m }
}

// ---------------------------------------------------------------------------
// Determinism of the lookups
// ---------------------------------------------------------------------------

/// With unique targets, an index whose record has the target is the one
/// `hook_index` picks.
pub proof fn lemma_hook_index_of(hooks: Seq<HookRecord>, target: Address, i: int)
    requires
        targets_unique(hooks),
        0 <= i < hooks.len(),
        hooks[i].target == target,
    ensures
        has_hook(hooks, target),
        hook_index(hooks, target) == i,
{
    assert(has_hook(hooks, target));
    let j = hook_index(hooks, target);
    assert(0 <= j < hooks.len() && hooks[j].target == target);
    if i < j {
        assert(hooks[i].target != hooks[j].target);
    }
    if j < i {
        assert(hooks[j].target != hooks[i].target);
    }
}

/// With unique trampolines, a live record holding the trampoline is the one
/// `trampoline_owner` picks.
pub proof fn lemma_trampoline_owner_of(hooks: Seq<HookRecord>, tramp: Address, i: int)
    requires
        trampolines_unique(hooks),
        0 <= i < hooks.len(),
        hooks[i].state.is_live(),
        hooks[i].trampoline == tramp,
    ensures
        has_live_trampoline(hooks, tramp),
        trampoline_owner(hooks, tramp) == hooks[i],
{
    assert(has_live_trampoline(hooks, tramp));
    let j = choose|j: int|
        0 <= j < hooks.len() && hooks[j].state.is_live() && hooks[j].trampoline == tramp;
    assert(0 <= j < hooks.len() && hooks[j].state.is_live() && hooks[j].trampoline == tramp);
    if i < j {
        assert(hooks[i].trampoline != hooks[j].trampoline);
    }
    if j < i {
        assert(hooks[j].trampoline != hooks[i].trampoline);
    }
}

/// With unique queued targets, an index whose intent has the target is the
/// one `intent_index` picks.
pub proof fn lemma_intent_index_of(queue: Seq<Intent>, target: Address, i: int)
    requires
        queue_targets_unique(queue),
        0 <= i < queue.len(),
        queue[i].target == target,
    ensures
        has_intent(queue, target),
        intent_index(queue, target) == i,
{
    assert(has_intent(queue, target));
    let j = intent_index(queue, target);
    assert(0 <= j < queue.len() && queue[j].target == target);
    if i < j {
        assert(queue[i].target != queue[j].target);
    }
    if j < i {
        assert(queue[j].target != queue[i].target);
    }
}

/// With unique export entries, an index whose entry has the pair is the one
/// `export_index` picks.
pub proof fn lemma_export_index_of(
    exports: Seq<ExportModel>,
    module: Seq<char>,
    symbol: Seq<char>,
    i: int,
)
    requires
        exports_unique(exports),
        0 <= i < exports.len(),
        exports[i].module == module,
        exports[i].symbol == symbol,
    ensures
        has_export(exports, module, symbol),
        export_index(exports, module, symbol) == i,
{
    assert(has_export(exports, module, symbol));
    let j = export_index(exports, module, symbol);
    assert(0 <= j < exports.len() && exports[j].module == module && exports[j].symbol == symbol);
    if i < j {
        assert(!(exports[i].module == exports[j].module && exports[i].symbol
            == exports[j].symbol));
    }
    if j < i {
        assert(!(exports[j].module == exports[i].module && exports[j].symbol
            == exports[i].symbol));
    }
}

// ---------------------------------------------------------------------------
// Every transition preserves well-formedness
// ---------------------------------------------------------------------------

pub proof fn lemma_ensure_initialized_preserves_inv(m: Model)
    requires
        inv(m),
    ensures
        inv(step_ensure_initialized(m)),
        step_ensure_initialized(m).initialized,
{
}

pub proof fn lemma_uninitialize_preserves_inv(m: Model)
    requires
        inv(m),
    ensures
        inv(step_uninitialize(m)),
        step_uninitialize(m).initialized,
        step_uninitialize(m).uninitialized,
{
}

pub proof fn lemma_create_preserves_inv(m: Model, target: Address, detour: Address)
    requires
        inv(m),
    ensures
        inv(step_create(m, target, detour).0),
{
    let m1 = step_ensure_initialized(m);
    lemma_ensure_initialized_preserves_inv(m);
    let (m2, r) = step_create(m, target, detour);
    if !m1.uninitialized && !has_live_hook(m1.hooks, target) && m1.next_trampoline != u64::MAX {
        let tramp = Address(m1.next_trampoline);
        let rec = HookRecord { target, detour, trampoline: tramp, state: HookState::Created };
        if has_hook(m1.hooks, target) {
            let i = hook_index(m1.hooks, target);
            assert(0 <= i < m1.hooks.len() && m1.hooks[i].target == target);
            let hooks2 = m1.hooks.update(i, rec);
            assert(forall|k: int| 0 <= k < hooks2.len() ==> (#[trigger] hooks2[k]).target
                == m1.hooks[k].target);
            assert(targets_unique(hooks2));
            assert(trampolines_unique(hooks2));
            assert forall|k: int| 0 <= k < m2.queue.len() implies has_live_hook(
                m2.hooks,
                (#[trigger] m2.queue[k]).target,
            ) by {
                let t = m1.queue[k].target;
                assert(has_live_hook(m1.hooks, t));
                let w = hook_index(m1.hooks, t);
                assert(0 <= w < m1.hooks.len() && m1.hooks[w].target == t);
                assert(w != i);
                lemma_hook_index_of(hooks2, t, w);
            }
        } else {
            let hooks2 = m1.hooks.push(rec);
            assert(forall|k: int| 0 <= k < m1.hooks.len() ==> (#[trigger] hooks2[k])
                == m1.hooks[k]);
            assert(targets_unique(hooks2));
            assert(trampolines_unique(hooks2));
            assert forall|k: int| 0 <= k < m2.queue.len() implies has_live_hook(
                m2.hooks,
                (#[trigger] m2.queue[k]).target,
            ) by {
                let t = m1.queue[k].target;
                assert(has_live_hook(m1.hooks, t));
                let w = hook_index(m1.hooks, t);
                assert(0 <= w < m1.hooks.len() && m1.hooks[w].target == t);
                lemma_hook_index_of(hooks2, t, w);
            }
        }
    }
}

/// Shared by enable, disable and remove: updating one record's state, leaving
/// its target and trampoline in place, preserves everything but the
/// queue-liveness clause, which holds again if the new state is live or no
/// queued intent names the record's target.
proof fn lemma_state_update_preserves_inv(m: Model, i: int, rec: HookRecord, queue2: Seq<Intent>)
    requires
        inv(m),
        0 <= i < m.hooks.len(),
        rec.target == m.hooks[i].target,
        rec.trampoline == m.hooks[i].trampoline,
        queue_targets_unique(queue2),
        forall|k: int| 0 <= k < queue2.len() ==> has_intent(m.queue, (#[trigger] queue2[k]).target),
        rec.state.is_live() || forall|k: int| 0 <= k < queue2.len() ==> (#[trigger] queue2[k]).target
            != rec.target,
    ensures
        inv(Model { hooks: m.hooks.update(i, rec), queue: queue2, ..m }),
{
    let hooks2 = m.hooks.update(i, rec);
    assert(forall|k: int| 0 <= k < hooks2.len() ==> (#[trigger] hooks2[k]).target
        == m.hooks[k].target);
    assert(forall|k: int| 0 <= k < hooks2.len() ==> (#[trigger] hooks2[k]).trampoline
        == m.hooks[k].trampoline);
    assert(targets_unique(hooks2));
    assert(trampolines_unique(hooks2));
    assert forall|k: int| 0 <= k < queue2.len() implies has_live_hook(
        hooks2,
        (#[trigger] queue2[k]).target,
    ) by {
        let t = queue2[k].target;
        assert(has_intent(m.queue, t));
        let q = intent_index(m.queue, t);
        assert(0 <= q < m.queue.len() && m.queue[q].target == t);
        assert(has_live_hook(m.hooks, t));
        let w = hook_index(m.hooks, t);
        assert(0 <= w < m.hooks.len() && m.hooks[w].target == t);
        lemma_hook_index_of(hooks2, t, w);
        if w == i {
            assert(rec.state.is_live());
        }
    }
}

pub proof fn lemma_enable_preserves_inv(m: Model, target: Address)
    requires
        inv(m),
    ensures
        inv(step_enable(m, target).0),
{
    let m1 = step_ensure_initialized(m);
    lemma_ensure_initialized_preserves_inv(m);
    if !m1.uninitialized && has_live_hook(m1.hooks, target) && !hook_at(
        m1.hooks,
        target,
    ).state.is_enabled() {
        let i = hook_index(m1.hooks, target);
        let rec = HookRecord { state: HookState::Enabled, ..m1.hooks[i] };
        assert forall|k: int| 0 <= k < m1.queue.len() implies has_intent(
            m1.queue,
            (#[trigger] m1.queue[k]).target,
        ) by {
            assert(0 <= k < m1.queue.len() && m1.queue[k].target == m1.queue[k].target);
        }
        lemma_state_update_preserves_inv(m1, i, rec, m1.queue);
    }
}

pub proof fn lemma_disable_preserves_inv(m: Model, target: Address)
    requires
        inv(m),
    ensures
        inv(step_disable(m, target).0),
{
    let m1 = step_ensure_initialized(m);
    lemma_ensure_initialized_preserves_inv(m);
    if !m1.uninitialized && has_live_hook(m1.hooks, target) && hook_at(
        m1.hooks,
        target,
    ).state.is_enabled() {
        let i = hook_index(m1.hooks, target);
        let rec = HookRecord { state: HookState::Disabled, ..m1.hooks[i] };
        assert forall|k: int| 0 <= k < m1.queue.len() implies has_intent(
            m1.queue,
            (#[trigger] m1.queue[k]).target,
        ) by {
            assert(0 <= k < m1.queue.len() && m1.queue[k].target == m1.queue[k].target);
        }
        lemma_state_update_preserves_inv(m1, i, rec, m1.queue);
    }
}

pub proof fn lemma_remove_preserves_inv(m: Model, target: Address)
    requires
        inv(m),
    ensures
        inv(step_remove(m, target).0),
{
    let m1 = step_ensure_initialized(m);
    lemma_ensure_initialized_preserves_inv(m);
    if !m1.uninitialized && has_live_hook(m1.hooks, target) {
        let i = hook_index(m1.hooks, target);
        let rec = HookRecord { state: HookState::Removed, ..m1.hooks[i] };
        let queue2 = if has_intent(m1.queue, target) {
            m1.queue.remove(intent_index(m1.queue, target))
        } else {
            m1.queue
        };
        if has_intent(m1.queue, target) {
            let r = intent_index(m1.queue, target);
            assert(0 <= r < m1.queue.len() && m1.queue[r].target == target);
            assert(forall|k: int| 0 <= k < queue2.len() ==> #[trigger] queue2[k] == (if k < r {
                m1.queue[k]
            } else {
                m1.queue[k + 1]
            }));
            assert(queue_targets_unique(queue2));
            assert forall|k: int| 0 <= k < queue2.len() implies has_intent(
                m1.queue,
                (#[trigger] queue2[k]).target,
            ) && queue2[k].target != target by {
                let src = if k < r {
                    k
                } else {
                    k + 1
                };
                assert(m1.queue[src].target == queue2[k].target);
                assert(m1.queue[src].target != target);
            }
            lemma_state_update_preserves_inv(m1, i, rec, queue2);
        } else {
            assert forall|k: int| 0 <= k < queue2.len() implies has_intent(
                m1.queue,
                (#[trigger] queue2[k]).target,
            ) && queue2[k].target != target by {
                assert(0 <= k < m1.queue.len() && m1.queue[k].target == queue2[k].target);
            }
            lemma_state_update_preserves_inv(m1, i, rec, queue2);
        }
    }
}

pub proof fn lemma_queue_preserves_inv(m: Model, target: Address, enable: bool)
    requires
        inv(m),
    ensures
        inv(step_queue(m, target, enable).0),
{
    let m1 = step_ensure_initialized(m);
    lemma_ensure_initialized_preserves_inv(m);
    if !m1.uninitialized && has_live_hook(m1.hooks, target) {
        let it = Intent { target, enable };
        if has_intent(m1.queue, target) {
            let q = intent_index(m1.queue, target);
            assert(0 <= q < m1.queue.len() && m1.queue[q].target == target);
            let queue2 = m1.queue.update(q, it);
            assert(forall|k: int| 0 <= k < queue2.len() ==> (#[trigger] queue2[k]).target
                == m1.queue[k].target);
            assert(queue_targets_unique(queue2));
            assert forall|k: int| 0 <= k < queue2.len() implies has_live_hook(
                m1.hooks,
                (#[trigger] queue2[k]).target,
            ) by {
                assert(queue2[k].target == m1.queue[k].target);
            }
        } else {
            let queue2 = m1.queue.push(it);
            assert(forall|k: int| 0 <= k < m1.queue.len() ==> #[trigger] queue2[k]
                == m1.queue[k]);
            assert(queue_targets_unique(queue2));
            assert forall|k: int| 0 <= k < queue2.len() implies has_live_hook(
                m1.hooks,
                (#[trigger] queue2[k]).target,
            ) by {
                if k < m1.queue.len() {
                    assert(queue2[k] == m1.queue[k]);
                }
            }
        }
    }
}

/// A queue prefix of unique targets still has unique targets.
pub proof fn lemma_take_queue_unique(q: Seq<Intent>, k: int)
    requires
        queue_targets_unique(q),
        0 <= k <= q.len(),
    ensures
        queue_targets_unique(q.take(k)),
{
    let qk = q.take(k);
    assert forall|i: int, j: int| 0 <= i < j < qk.len() implies (#[trigger] qk[i]).target != (
    #[trigger] qk[j]).target by {
        assert(qk[i] == q[i]);
        assert(qk[j] == q[j]);
    }
}

/// Processing one more queued intent changes nothing for a record whose
/// target the intent does not name.
pub proof fn lemma_apply_intents_extend_other(rec: HookRecord, q: Seq<Intent>, k: int)
    requires
        queue_targets_unique(q),
        0 <= k < q.len(),
        rec.target != q[k].target,
    ensures
        apply_intents_to(rec, q.take(k + 1)) == apply_intents_to(rec, q.take(k)),
{
    let t = rec.target;
    let qk = q.take(k);
    let qk1 = q.take(k + 1);
    lemma_take_queue_unique(q, k);
    lemma_take_queue_unique(q, k + 1);
    if has_intent(qk, t) {
        let w = intent_index(qk, t);
        assert(0 <= w < qk.len() && qk[w].target == t);
        assert(qk[w] == q[w]);
        assert(qk1[w] == q[w]);
        lemma_intent_index_of(qk1, t, w);
        lemma_intent_index_of(qk, t, w);
    } else {
        if has_intent(qk1, t) {
            let w = intent_index(qk1, t);
            assert(0 <= w < qk1.len() && qk1[w].target == t);
            assert(qk1[w] == q[w]);
            if w < k {
                assert(qk[w] == q[w]);
                assert(has_intent(qk, t));
            }
        }
    }
}

/// Processing the queued intent that names a record's target: no earlier
/// intent named it (targets are unique within a batch), so the record was
/// untouched, and now moves to the intended state if it is live.
pub proof fn lemma_apply_intents_extend_hit(rec: HookRecord, q: Seq<Intent>, k: int)
    requires
        queue_targets_unique(q),
        0 <= k < q.len(),
        rec.target == q[k].target,
    ensures
        apply_intents_to(rec, q.take(k)) == rec,
        apply_intents_to(rec, q.take(k + 1)) == (if rec.state.is_live() {
            HookRecord {
                state: if q[k].enable {
                    HookState::Enabled
                } else {
                    HookState::Disabled
                },
                ..rec
            }
        } else {
            rec
        }),
{
    let t = rec.target;
    let qk = q.take(k);
    let qk1 = q.take(k + 1);
    lemma_take_queue_unique(q, k);
    lemma_take_queue_unique(q, k + 1);
    if has_intent(qk, t) {
        let w = intent_index(qk, t);
        assert(0 <= w < qk.len() && qk[w].target == t);
        assert(qk[w] == q[w]);
        assert(q[w].target == q[k].target);
        assert(false);
    }
    assert(qk1[k] == q[k]);
    lemma_intent_index_of(qk1, t, k);
}

pub proof fn lemma_apply_queued_preserves_inv(m: Model)
    requires
        inv(m),
    ensures
        inv(step_apply_queued(m).0),
{
    let m1 = step_ensure_initialized(m);
    lemma_ensure_initialized_preserves_inv(m);
    if !m1.uninitialized {
        let hooks2 = applied_hooks(m1.hooks, m1.queue);
        assert(forall|k: int| 0 <= k < hooks2.len() ==> (#[trigger] hooks2[k]).target
            == m1.hooks[k].target && hooks2[k].trampoline == m1.hooks[k].trampoline);
        assert(targets_unique(hooks2));
        assert(trampolines_unique(hooks2));
    }
}

pub proof fn lemma_set_all_preserves_inv(m: Model, state: HookState)
    requires
        inv(m),
        state.is_live(),
    ensures
        inv(step_set_all(m, state).0),
{
    let m1 = step_ensure_initialized(m);
    lemma_ensure_initialized_preserves_inv(m);
    if !m1.uninitialized {
        let hooks2 = all_hooks_set(m1.hooks, state);
        assert(forall|k: int| 0 <= k < hooks2.len() ==> (#[trigger] hooks2[k]).target
            == m1.hooks[k].target && hooks2[k].trampoline == m1.hooks[k].trampoline);
        assert(targets_unique(hooks2));
        assert(trampolines_unique(hooks2));
        assert forall|k: int| 0 <= k < m1.queue.len() implies has_live_hook(
            hooks2,
            (#[trigger] m1.queue[k]).target,
        ) by {
            let t = m1.queue[k].target;
            assert(has_live_hook(m1.hooks, t));
            let w = hook_index(m1.hooks, t);
            assert(0 <= w < m1.hooks.len() && m1.hooks[w].target == t);
            lemma_hook_index_of(hooks2, t, w);
            assert(hooks2[w].state.is_live());
        }
    }
}

pub proof fn lemma_register_export_preserves_inv(
    m: Model,
    module: Seq<char>,
    symbol: Seq<char>,
    address: Address,
)
    requires
        inv(m),
    ensures
        inv(step_register_export(m, module, symbol, address)),
{
    let e = ExportModel { module, symbol, address };
    if has_export(m.exports, module, symbol) {
        let i = export_index(m.exports, module, symbol);
        assert(0 <= i < m.exports.len() && m.exports[i].module == module && m.exports[i].symbol
            == symbol);
        let exports2 = m.exports.update(i, e);
        assert forall|k: int, l: int| 0 <= k < l < exports2.len() implies !((
        #[trigger] exports2[k]).module == (#[trigger] exports2[l]).module && exports2[k].symbol
            == exports2[l].symbol) by {
            assert(exports2[k] == if k == i {
                e
            } else {
                m.exports[k]
            });
            assert(exports2[l] == if l == i {
                e
            } else {
                m.exports[l]
            });
        }
        assert(exports_unique(exports2));
    } else {
        let exports2 = m.exports.push(e);
        assert forall|k: int, l: int| 0 <= k < l < exports2.len() implies !((
        #[trigger] exports2[k]).module == (#[trigger] exports2[l]).module && exports2[k].symbol
            == exports2[l].symbol) by {
            if l < m.exports.len() {
                assert(exports2[k] == m.exports[k]);
                assert(exports2[l] == m.exports[l]);
            } else {
                assert(exports2[l] == e);
                assert(exports2[k] == m.exports[k]);
                assert(!has_export(m.exports, module, symbol));
                if exports2[k].module == module && exports2[k].symbol == symbol {
                    lemma_export_index_of(m.exports, module, symbol, k);
                }
            }
        }
        assert(exports_unique(exports2));
    }
}

pub proof fn lemma_create_api_preserves_inv(
    m: Model,
    module: Seq<char>,
    symbol: Seq<char>,
    detour: Address,
)
    requires
        inv(m),
    ensures
        inv(step_create_api(m, module, symbol, detour).0),
{
    let m1 = step_ensure_initialized(m);
    lemma_ensure_initialized_preserves_inv(m);
    if has_module(m1.exports, module) && has_export(m1.exports, module, symbol) {
        let target = export_address(m1.exports, module, symbol);
        lemma_create_preserves_inv(m1, target, detour);
        assert(step_ensure_initialized(m1) == m1);
    }
}

// ---------------------------------------------------------------------------
// Observation
// ---------------------------------------------------------------------------

/// Where a call to `address` lands, one redirection step deep: a call to an
/// enabled hook's target runs the detour; a call to a disabled or freshly
/// created hook's target runs the target's own body; a call to a live
/// record's trampoline runs its target's original body (written here as the
/// target address); any other address runs itself. A hooked target takes
/// precedence over a trampoline at the same address.
pub open spec fn spec_destination(m: Model, address: Address) -> Address {
    if has_live_hook(m.hooks, address) {
        if hook_at(m.hooks, address).state.is_enabled() {
            hook_at(m.hooks, address).detour
        } else {
            address
        }
    } else if has_live_trampoline(m.hooks, address) {
        trampoline_owner(m.hooks, address).target
    } else {
        address
    }
}

} // verus!
