//! The laws the subsystem obeys, stated over the model of [`crate::model`]
//! and proved once and for all: guard idempotence, state-machine safety,
//! atomic batch semantics, last-writer-wins queuing, and the enable/disable
//! round trip.

use vstd::prelude::*;

use crate::model::applied_hooks;
use crate::model::has_hook;
use crate::model::has_intent;
use crate::model::has_live_hook;
use crate::model::hook_at;
use crate::model::hook_index;
use crate::model::intent_enable;
use crate::model::intent_index;
use crate::model::inv;
use crate::model::lemma_apply_queued_preserves_inv;
use crate::model::lemma_create_preserves_inv;
use crate::model::lemma_enable_preserves_inv;
use crate::model::lemma_hook_index_of;
use crate::model::lemma_intent_index_of;
use crate::model::lemma_queue_preserves_inv;
use crate::model::lemma_remove_preserves_inv;
use crate::model::lemma_trampoline_owner_of;
use crate::model::lemma_uninitialize_preserves_inv;
use crate::model::spec_destination;
use crate::model::step_apply_queued;
use crate::model::step_create;
use crate::model::step_disable;
use crate::model::step_enable;
use crate::model::step_ensure_initialized;
use crate::model::step_queue;
use crate::model::step_remove;
use crate::model::step_uninitialize;
use crate::model::Model;
use crate::record::Address;
use crate::record::HookRecord;
use crate::record::HookState;
use crate::record::Intent;
use crate::status::MH_STATUS;

verus! {

/// The state after running the initialization guard `n` times in turn.
pub open spec fn repeat_ensure_initialized(m: Model, n: nat) -> Model
    decreases n,
{
    if n == 0 {
        m
    } else {
        step_ensure_initialized(repeat_ensure_initialized(m, (n - 1) as nat))
    }
}

/// The state after running the teardown guard `n` times in turn.
pub open spec fn repeat_uninitialize(m: Model, n: nat) -> Model
    decreases n,
{
    if n == 0 {
        m
    } else {
        step_uninitialize(repeat_uninitialize(m, (n - 1) as nat))
    }
}

/// In a well-formed state, any live hook implies the engine is up: records
/// exist only between setup and teardown, so the guard is a no-op.
proof fn lemma_live_hook_engine_ready(m: Model, target: Address)
    requires
        inv(m),
        has_live_hook(m.hooks, target),
    ensures
        m.initialized,
        !m.uninitialized,
        step_ensure_initialized(m) == m,
{
    let i = hook_index(m.hooks, target);
    assert(0 <= i < m.hooks.len() && m.hooks[i].target == target);
}

/// Guard idempotence: however many times the initialization guard runs — once
/// or from any number of callers in turn — the engine's global setup has run
/// exactly once afterwards, and every call after the first changes nothing.
pub proof fn lemma_initialize_exactly_once(m: Model, n: nat)
    requires
        inv(m),
        n >= 1,
    ensures
        repeat_ensure_initialized(m, n).engine_init_calls == 1,
        repeat_ensure_initialized(m, n) == step_ensure_initialized(m),
    decreases n,
{
    if n == 1 {
        assert(repeat_ensure_initialized(m, 1) == step_ensure_initialized(
            repeat_ensure_initialized(m, 0),
        ));
        assert(repeat_ensure_initialized(m, 0) == m);
    } else {
        lemma_initialize_exactly_once(m, (n - 1) as nat);
        assert(repeat_ensure_initialized(m, n) == step_ensure_initialized(
            repeat_ensure_initialized(m, (n - 1) as nat),
        ));
    }
}

/// Guard idempotence for teardown: however many times the teardown guard runs,
/// the engine's global setup and teardown have each run exactly once
/// afterwards, and every call after the first changes nothing.
pub proof fn lemma_uninitialize_exactly_once(m: Model, n: nat)
    requires
        inv(m),
        n >= 1,
    ensures
        repeat_uninitialize(m, n).engine_uninit_calls == 1,
        repeat_uninitialize(m, n).engine_init_calls == 1,
        repeat_uninitialize(m, n) == step_uninitialize(m),
    decreases n,
{
    lemma_uninitialize_preserves_inv(m);
    if n == 1 {
        assert(repeat_uninitialize(m, 1) == step_uninitialize(repeat_uninitialize(m, 0)));
        assert(repeat_uninitialize(m, 0) == m);
    } else {
        lemma_uninitialize_exactly_once(m, (n - 1) as nat);
        assert(repeat_uninitialize(m, n) == step_uninitialize(
            repeat_uninitialize(m, (n - 1) as nat),
        ));
    }
}

/// State-machine safety: enabling a hook that is already enabled reports
/// `MH_ERROR_ENABLED` and leaves the whole state unchanged.
pub proof fn lemma_enable_when_enabled_unchanged(m: Model, target: Address)
    requires
        inv(m),
        has_live_hook(m.hooks, target),
        hook_at(m.hooks, target).state == HookState::Enabled,
    ensures
        step_enable(m, target).0 == m,
        step_enable(m, target).1 == Err::<(), MH_STATUS>(MH_STATUS::MH_ERROR_ENABLED),
{
    lemma_live_hook_engine_ready(m, target);
}

/// State-machine safety: disabling a hook that is not enabled (freshly created
/// or already disabled) reports `MH_ERROR_DISABLED` and leaves the whole state
/// unchanged.
pub proof fn lemma_disable_when_disabled_unchanged(m: Model, target: Address)
    requires
        inv(m),
        has_live_hook(m.hooks, target),
        hook_at(m.hooks, target).state != HookState::Enabled,
    ensures
        step_disable(m, target).0 == m,
        step_disable(m, target).1 == Err::<(), MH_STATUS>(MH_STATUS::MH_ERROR_DISABLED),
{
    lemma_live_hook_engine_ready(m, target);
}

/// State-machine safety: removing a live hook succeeds, and afterwards
/// enabling, disabling or removing the same target reports
/// `MH_ERROR_NOT_CREATED` and changes nothing.
pub proof fn lemma_removed_rejects_operations(m: Model, target: Address)
    requires
        inv(m),
        has_live_hook(m.hooks, target),
    ensures
        ({
            let (m1, r1) = step_remove(m, target);
            r1 == Ok::<(), MH_STATUS>(())
                && step_enable(m1, target) == (m1, Err::<(), MH_STATUS>(
                MH_STATUS::MH_ERROR_NOT_CREATED,
            )) && step_disable(m1, target) == (m1, Err::<(), MH_STATUS>(
                MH_STATUS::MH_ERROR_NOT_CREATED,
            )) && step_remove(m1, target) == (m1, Err::<(), MH_STATUS>(
                MH_STATUS::MH_ERROR_NOT_CREATED,
            ))
        }),
{
    lemma_live_hook_engine_ready(m, target);
    lemma_remove_preserves_inv(m, target);
    let (m1, r1) = step_remove(m, target);
    let i = hook_index(m.hooks, target);
    assert(0 <= i < m.hooks.len() && m.hooks[i].target == target);
    assert(m1.hooks[i].target == target && m1.hooks[i].state == HookState::Removed);
    lemma_hook_index_of(m1.hooks, target, i);
    assert(!has_live_hook(m1.hooks, target));
    assert(step_ensure_initialized(m1) == m1);
}

/// Batch atomicity for a pair: queuing enable for `a` and disable for `b`,
/// then committing once, yields a state in which `a` is redirected to its
/// detour and `b` runs its own body — both effects established by the one
/// commit transition, so no caller can observe one without the other — with
/// the queue drained.
pub proof fn lemma_batch_pair_atomic(m: Model, a: Address, b: Address)
    requires
        inv(m),
        a != b,
        has_live_hook(m.hooks, a),
        has_live_hook(m.hooks, b),
    ensures
        ({
            let (ma, ra) = step_queue(m, a, true);
            let (mb, rb) = step_queue(ma, b, false);
            let (mf, rf) = step_apply_queued(mb);
            ra == Ok::<(), MH_STATUS>(()) && rb == Ok::<(), MH_STATUS>(()) && rf == Ok::<
                (),
                MH_STATUS,
            >(()) && hook_at(mf.hooks, a).state == HookState::Enabled
                && hook_at(mf.hooks, b).state == HookState::Disabled
                && spec_destination(mf, a) == hook_at(m.hooks, a).detour
                && spec_destination(mf, b) == b
                && mf.queue.len() == 0
        }),
{
    lemma_live_hook_engine_ready(m, a);
    lemma_queue_preserves_inv(m, a, true);
    let (ma, ra) = step_queue(m, a, true);
    let ia = hook_index(m.hooks, a);
    assert(0 <= ia < m.hooks.len() && m.hooks[ia].target == a);
    let ib = hook_index(m.hooks, b);
    assert(0 <= ib < m.hooks.len() && m.hooks[ib].target == b);

    // where the enable intent for `a` sits after the first queue call
    let pa: int = if has_intent(m.queue, a) {
        intent_index(m.queue, a)
    } else {
        m.queue.len() as int
    };
    assert(0 <= pa < ma.queue.len() && ma.queue[pa] == Intent { target: a, enable: true });

    assert(has_live_hook(ma.hooks, b));
    lemma_queue_preserves_inv(ma, b, false);
    let (mb, rb) = step_queue(ma, b, false);

    // the intent for `a` survives the queue call for `b`
    let pb: int = if has_intent(ma.queue, b) {
        intent_index(ma.queue, b)
    } else {
        ma.queue.len() as int
    };
    if has_intent(ma.queue, b) {
        assert(ma.queue[pb].target == b);
    }
    assert(0 <= pb < mb.queue.len() && mb.queue[pb] == Intent { target: b, enable: false });
    assert(pa != pb);
    assert(mb.queue[pa] == Intent { target: a, enable: true });

    lemma_intent_index_of(mb.queue, a, pa);
    lemma_intent_index_of(mb.queue, b, pb);
    assert(intent_enable(mb.queue, a) == true);
    assert(intent_enable(mb.queue, b) == false);

    lemma_apply_queued_preserves_inv(mb);
    let (mf, rf) = step_apply_queued(mb);
    assert(mb.hooks == m.hooks);
    assert(mf.hooks == applied_hooks(m.hooks, mb.queue));
    assert(mf.hooks[ia].target == a && mf.hooks[ia].state == HookState::Enabled
        && mf.hooks[ia].detour == m.hooks[ia].detour);
    assert(mf.hooks[ib].target == b && mf.hooks[ib].state == HookState::Disabled);
    lemma_hook_index_of(mf.hooks, a, ia);
    lemma_hook_index_of(mf.hooks, b, ib);
    lemma_hook_index_of(m.hooks, a, ia);
    lemma_hook_index_of(m.hooks, b, ib);
}

/// Last writer wins: queuing enable and then disable for the same target
/// before one commit leaves the target disabled — running its own body —
/// after the commit.
pub proof fn lemma_last_writer_wins(m: Model, target: Address)
    requires
        inv(m),
        has_live_hook(m.hooks, target),
    ensures
        ({
            let (ma, ra) = step_queue(m, target, true);
            let (mb, rb) = step_queue(ma, target, false);
            let (mf, rf) = step_apply_queued(mb);
            ra == Ok::<(), MH_STATUS>(()) && rb == Ok::<(), MH_STATUS>(()) && rf == Ok::<
                (),
                MH_STATUS,
            >(()) && hook_at(mf.hooks, target).state == HookState::Disabled
                && spec_destination(mf, target) == target && mf.queue.len() == 0
        }),
{
    lemma_live_hook_engine_ready(m, target);
    lemma_queue_preserves_inv(m, target, true);
    let (ma, ra) = step_queue(m, target, true);
    let i = hook_index(m.hooks, target);
    assert(0 <= i < m.hooks.len() && m.hooks[i].target == target);

    let pa: int = if has_intent(m.queue, target) {
        intent_index(m.queue, target)
    } else {
        m.queue.len() as int
    };
    assert(0 <= pa < ma.queue.len() && ma.queue[pa] == Intent { target, enable: true });

    assert(has_live_hook(ma.hooks, target));
    lemma_queue_preserves_inv(ma, target, false);
    let (mb, rb) = step_queue(ma, target, false);
    lemma_intent_index_of(ma.queue, target, pa);
    assert(mb.queue == ma.queue.update(pa, Intent { target, enable: false }));
    assert(mb.queue[pa] == Intent { target, enable: false });
    lemma_intent_index_of(mb.queue, target, pa);
    assert(intent_enable(mb.queue, target) == false);

    lemma_apply_queued_preserves_inv(mb);
    let (mf, rf) = step_apply_queued(mb);
    assert(mf.hooks[i].target == target && mf.hooks[i].state == HookState::Disabled);
    lemma_hook_index_of(mf.hooks, target, i);
}

/// The enable/disable round trip: creating a hook, enabling it, then disabling
/// it succeeds on any target with no live hook, and calls to the target land
/// on the detour exactly while the hook is enabled — on the target's own body
/// again after disabling, so the original behavior is reproduced.
pub proof fn lemma_round_trip(m: Model, target: Address, detour: Address)
    requires
        inv(m),
        !m.uninitialized,
        !has_live_hook(m.hooks, target),
        m.next_trampoline < u64::MAX,
    ensures
        ({
            let (mc, rc) = step_create(m, target, detour);
            let (me, re) = step_enable(mc, target);
            let (md, rd) = step_disable(me, target);
            rc == Ok::<Address, MH_STATUS>(Address(m.next_trampoline)) && re == Ok::<
                (),
                MH_STATUS,
            >(()) && rd == Ok::<(), MH_STATUS>(()) && spec_destination(me, target) == detour
                && spec_destination(md, target) == target
        }),
{
    lemma_create_preserves_inv(m, target, detour);
    let m1 = step_ensure_initialized(m);
    let (mc, rc) = step_create(m, target, detour);
    let rec = HookRecord {
        target,
        detour,
        trampoline: Address(m.next_trampoline),
        state: HookState::Created,
    };
    let ic: int = if has_hook(m.hooks, target) {
        hook_index(m.hooks, target)
    } else {
        m.hooks.len() as int
    };
    assert(0 <= ic < mc.hooks.len() && mc.hooks[ic] == rec);
    lemma_hook_index_of(mc.hooks, target, ic);
    assert(has_live_hook(mc.hooks, target));
    assert(step_ensure_initialized(mc) == mc);

    lemma_enable_preserves_inv(mc, target);
    let (me, re) = step_enable(mc, target);
    assert(me.hooks[ic].target == target && me.hooks[ic].state == HookState::Enabled
        && me.hooks[ic].detour == detour);
    lemma_hook_index_of(me.hooks, target, ic);
    assert(spec_destination(me, target) == detour);
    assert(step_ensure_initialized(me) == me);

    let (md, rd) = step_disable(me, target);
    assert(md.hooks[ic].target == target && md.hooks[ic].state == HookState::Disabled);
    lemma_hook_index_of(md.hooks, target, ic);
}

/// A live hook's trampoline bypasses the redirect: as long as the trampoline
/// handle is not itself a hooked target, a call to it lands on the target's
/// original body, whether the hook is enabled or not.
pub proof fn lemma_trampoline_calls_original(m: Model, target: Address)
    requires
        inv(m),
        has_live_hook(m.hooks, target),
        !has_live_hook(m.hooks, hook_at(m.hooks, target).trampoline),
    ensures
        spec_destination(m, hook_at(m.hooks, target).trampoline) == target,
{
    let i = hook_index(m.hooks, target);
    assert(0 <= i < m.hooks.len() && m.hooks[i].target == target);
    lemma_trampoline_owner_of(m.hooks, m.hooks[i].trampoline, i);
}

/// Creating a hook for the same target twice without an intervening removal
/// fails: the second creation reports `MH_ERROR_ALREADY_CREATED` and changes
/// nothing.
pub proof fn lemma_create_twice_rejected(m: Model, target: Address, d1: Address, d2: Address)
    requires
        inv(m),
        !m.uninitialized,
        !has_live_hook(m.hooks, target),
        m.next_trampoline < u64::MAX,
    ensures
        ({
            let (mc, rc) = step_create(m, target, d1);
            rc == Ok::<Address, MH_STATUS>(Address(m.next_trampoline)) && step_create(
                mc,
                target,
                d2,
            ) == (mc, Err::<Address, MH_STATUS>(MH_STATUS::MH_ERROR_ALREADY_CREATED))
        }),
{
    lemma_create_preserves_inv(m, target, d1);
    let (mc, rc) = step_create(m, target, d1);
    let ic: int = if has_hook(m.hooks, target) {
        hook_index(m.hooks, target)
    } else {
        m.hooks.len() as int
    };
    assert(0 <= ic < mc.hooks.len() && mc.hooks[ic].target == target && mc.hooks[ic].state
        == HookState::Created);
    lemma_hook_index_of(mc.hooks, target, ic);
    assert(has_live_hook(mc.hooks, target));
    assert(step_ensure_initialized(mc) == mc);
}

} // verus!
