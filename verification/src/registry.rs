//! The hook registry: the executable state of the subsystem and every
//! operation on it, each proved to follow its transition in [`crate::model`].

use vstd::prelude::*;

use crate::model::all_hooks_set;
use crate::model::applied_hooks;
use crate::model::apply_intents_to;
use crate::model::export_address;
use crate::model::has_export;
use crate::model::has_hook;
use crate::model::has_intent;
use crate::model::has_live_hook;
use crate::model::has_module;
use crate::model::hook_index;
use crate::model::init_model;
use crate::model::inv;
use crate::model::lemma_apply_intents_extend_hit;
use crate::model::lemma_apply_intents_extend_other;
use crate::model::lemma_apply_queued_preserves_inv;
use crate::model::lemma_create_api_preserves_inv;
use crate::model::lemma_create_preserves_inv;
use crate::model::lemma_disable_preserves_inv;
use crate::model::lemma_enable_preserves_inv;
use crate::model::lemma_export_index_of;
use crate::model::lemma_hook_index_of;
use crate::model::lemma_intent_index_of;
use crate::model::lemma_queue_preserves_inv;
use crate::model::lemma_register_export_preserves_inv;
use crate::model::lemma_remove_preserves_inv;
use crate::model::lemma_set_all_preserves_inv;
use crate::model::lemma_trampoline_owner_of;
use crate::model::spec_destination;
use crate::model::step_apply_queued;
use crate::model::step_create;
use crate::model::step_create_api;
use crate::model::step_disable;
use crate::model::step_enable;
use crate::model::step_ensure_initialized;
use crate::model::step_queue;
use crate::model::step_register_export;
use crate::model::step_remove;
use crate::model::step_set_all;
use crate::model::step_uninitialize;
use crate::model::ExportModel;
use crate::model::Model;
use crate::record::Address;
use crate::record::Export;
use crate::record::HookRecord;
use crate::record::HookState;
use crate::record::Intent;
use crate::status::MH_STATUS;

verus! {

/// One isolated hooking context: the one-time guard, the hook records, the
/// batch queue, the export table, and the modeled engine's trampoline
/// allocator. The original-behavior path of every installed hook can be
/// observed through [`MinHook::call_destination`].
///
/// Values are driven through the methods below; every contract requires and
/// preserves the well-formedness invariant [`inv`], which
/// [`MinHook::new`] establishes.
pub struct MinHook {
    /// The engine's global setup has run.
    pub initialized: bool,
    /// The engine's global teardown has run; terminal for this context.
    pub uninitialized: bool,
    /// How many times the engine's global setup actually ran.
    pub engine_init_calls: u64,
    /// How many times the engine's global teardown actually ran.
    pub engine_uninit_calls: u64,
    /// All hook records, removed ones kept as tombstones.
    pub hooks: Vec<HookRecord>,
    /// Pending batch intents, at most one per target.
    pub queue: Vec<Intent>,
    /// The exported symbols the resolution collaborator knows.
    pub exports: Vec<Export>,
    /// The next trampoline handle the modeled engine will hand out.
    pub next_trampoline: u64,
}

impl View for MinHook {
    type V = Model;

    open spec fn view(&self) -> Model {
        Model {
            initialized: self.initialized,
            uninitialized: self.uninitialized,
            engine_init_calls: self.engine_init_calls,
            engine_uninit_calls: self.engine_uninit_calls,
            hooks: self.hooks@,
            queue: self.queue@,
            exports: self.exports@.map_values(
                |e: Export| ExportModel { module: e.module@, symbol: e.symbol@, address: e.address },
            ),
            next_trampoline: self.next_trampoline,
        }
    }
}

impl MinHook {
    /// A fresh, isolated context: nothing initialized, nothing registered.
    pub fn new() -> (r: MinHook)
        ensures
            r@ == init_model(),
            inv(r@),
    {
        let r = MinHook {
            initialized: false,
            uninitialized: false,
            engine_init_calls: 0,
            engine_uninit_calls: 0,
            hooks: Vec::new(),
            queue: Vec::new(),
            exports: Vec::new(),
            next_trampoline: 1,
        };
        proof {
            assert(r@ =~~= init_model());
        }
        r
    }

    /// The index of the record for `target`, if any record (live or removed)
    /// has it.
    fn find_hook_index(&self, target: Address) -> (r: Option<usize>)
        ensures
            match r {
                Some(i) => i < self.hooks@.len() && self.hooks@[i as int].target == target,
                None => !has_hook(self.hooks@, target),
            },
    {
        let n = self.hooks.len();
        let mut i: usize = 0;
        while i < n
            invariant
                i <= n,
                n == self.hooks@.len(),
                forall|j: int| 0 <= j < i ==> (#[trigger] self.hooks@[j]).target != target,
            decreases n - i,
        {
            if self.hooks[i].target == target {
                return Some(i);
            }
            i += 1;
        }
        None
    }

    /// Idempotent one-time initialization: the first call on a context runs
    /// the engine's global setup exactly once; later calls change nothing.
    pub fn ensure_initialized(&mut self)
        requires
            inv(old(self)@),
        ensures
            final(self)@ == step_ensure_initialized(old(self)@),
            inv(final(self)@),
    {
        if !self.initialized {
            self.initialized = true;
            self.engine_init_calls = self.engine_init_calls + 1;
        }
        proof {
            assert(self@ =~~= step_ensure_initialized(old(self)@));
        }
    }

    /// Idempotent one-time teardown: initializes first (so tearing down before
    /// any use is well defined), then the first call runs the engine's global
    /// teardown exactly once, removing every installed patch and dropping
    /// every pending intent. Afterwards every hook operation on this context
    /// fails with `MH_ERROR_NOT_INITIALIZED`; the engine cannot be
    /// reinitialized in-process.
    pub fn uninitialize(&mut self)
        requires
            inv(old(self)@),
        ensures
            final(self)@ == step_uninitialize(old(self)@),
            inv(final(self)@),
    {
        self.ensure_initialized();
        if !self.uninitialized {
            self.uninitialized = true;
            self.engine_uninit_calls = self.engine_uninit_calls + 1;
            self.hooks.clear();
            self.queue.clear();
        }
        proof {
            assert(self@ =~~= step_uninitialize(old(self)@));
        }
    }

    /// The index of the pending intent for `target`, if one is queued.
    fn find_intent_index(&self, target: Address) -> (r: Option<usize>)
        ensures
            match r {
                Some(i) => i < self.queue@.len() && self.queue@[i as int].target == target,
                None => !has_intent(self.queue@, target),
            },
    {
        let n = self.queue.len();
        let mut i: usize = 0;
        while i < n
            invariant
                i <= n,
                n == self.queue@.len(),
                forall|j: int| 0 <= j < i ==> (#[trigger] self.queue@[j]).target != target,
            decreases n - i,
        {
            if self.queue[i].target == target {
                return Some(i);
            }
            i += 1;
        }
        None
    }

    /// Creates a hook for the target function and detours it to the detour
    /// function, in disabled state, returning the trampoline handle for
    /// calling the original behavior. Initializes the engine first if this is
    /// the context's first use. Fails with `MH_ERROR_NOT_INITIALIZED` after
    /// teardown, `MH_ERROR_ALREADY_CREATED` if the target is registered and
    /// not removed, and `MH_ERROR_MEMORY_ALLOC` if no trampoline can be
    /// allocated; after a removal the same target can be hooked afresh.
    pub fn create_hook(&mut self, target: Address, detour: Address) -> (r: Result<
        Address,
        MH_STATUS,
    >)
        requires
            inv(old(self)@),
        ensures
            inv(final(self)@),
            final(self)@ == step_create(old(self)@, target, detour).0,
            r == step_create(old(self)@, target, detour).1,
    {
        proof {
            lemma_create_preserves_inv(old(self)@, target, detour);
        }
        self.ensure_initialized();
        if self.uninitialized {
            return Err(MH_STATUS::MH_ERROR_NOT_INITIALIZED);
        }
        let idx_opt = self.find_hook_index(target);
        if let Some(i) = idx_opt {
            proof {
                lemma_hook_index_of(self@.hooks, target, i as int);
            }
            if self.hooks[i].state != HookState::Removed {
                return Err(MH_STATUS::MH_ERROR_ALREADY_CREATED);
            }
        }
        if self.next_trampoline == u64::MAX {
            return Err(MH_STATUS::MH_ERROR_MEMORY_ALLOC);
        }
        let tramp = Address(self.next_trampoline);
        let rec = HookRecord { target, detour, trampoline: tramp, state: HookState::Created };
        match idx_opt {
            Some(i) => {
                let elt = &mut self.hooks[i];
                *elt = rec;
            },
            None => {
                self.hooks.push(rec);
            },
        }
        self.next_trampoline = self.next_trampoline + 1;
        proof {
            assert(self@ =~~= step_create(old(self)@, target, detour).0);
        }
        Ok(tramp)
    }

    /// Enables the hook for the target function immediately:
    /// `Created | Disabled → Enabled`. Fails with `MH_ERROR_NOT_INITIALIZED`
    /// after teardown, `MH_ERROR_NOT_CREATED` if the target was never created
    /// or is removed, and `MH_ERROR_ENABLED` if already enabled, leaving the
    /// record unchanged.
    pub fn enable_hook(&mut self, target: Address) -> (r: Result<(), MH_STATUS>)
        requires
            inv(old(self)@),
        ensures
            inv(final(self)@),
            final(self)@ == step_enable(old(self)@, target).0,
            r == step_enable(old(self)@, target).1,
    {
        proof {
            lemma_enable_preserves_inv(old(self)@, target);
        }
        self.ensure_initialized();
        if self.uninitialized {
            return Err(MH_STATUS::MH_ERROR_NOT_INITIALIZED);
        }
        match self.find_hook_index(target) {
            Some(i) => {
                proof {
                    lemma_hook_index_of(self@.hooks, target, i as int);
                }
                let state = self.hooks[i].state;
                if state == HookState::Removed {
                    return Err(MH_STATUS::MH_ERROR_NOT_CREATED);
                }
                if state == HookState::Enabled {
                    return Err(MH_STATUS::MH_ERROR_ENABLED);
                }
                let elt = &mut self.hooks[i];
                elt.state = HookState::Enabled;
                proof {
                    assert(self@ =~~= step_enable(old(self)@, target).0);
                }
                Ok(())
            },
            None => Err(MH_STATUS::MH_ERROR_NOT_CREATED),
        }
    }

    /// Disables the hook for the target function immediately:
    /// `Enabled → Disabled`. Fails with `MH_ERROR_NOT_INITIALIZED` after
    /// teardown, `MH_ERROR_NOT_CREATED` if the target was never created or is
    /// removed, and `MH_ERROR_DISABLED` if the hook is not enabled (a freshly
    /// created hook counts as disabled), leaving the record unchanged.
    pub fn disable_hook(&mut self, target: Address) -> (r: Result<(), MH_STATUS>)
        requires
            inv(old(self)@),
        ensures
            inv(final(self)@),
            final(self)@ == step_disable(old(self)@, target).0,
            r == step_disable(old(self)@, target).1,
    {
        proof {
            lemma_disable_preserves_inv(old(self)@, target);
        }
        self.ensure_initialized();
        if self.uninitialized {
            return Err(MH_STATUS::MH_ERROR_NOT_INITIALIZED);
        }
        match self.find_hook_index(target) {
            Some(i) => {
                proof {
                    lemma_hook_index_of(self@.hooks, target, i as int);
                }
                let state = self.hooks[i].state;
                if state == HookState::Removed {
                    return Err(MH_STATUS::MH_ERROR_NOT_CREATED);
                }
                if state != HookState::Enabled {
                    return Err(MH_STATUS::MH_ERROR_DISABLED);
                }
                let elt = &mut self.hooks[i];
                elt.state = HookState::Disabled;
                proof {
                    assert(self@ =~~= step_disable(old(self)@, target).0);
                }
                Ok(())
            },
            None => Err(MH_STATUS::MH_ERROR_NOT_CREATED),
        }
    }

    /// Removes the hook for the target function: the record becomes `Removed`
    /// (terminal), its trampoline handle must no longer be used, and any
    /// pending batch intent for the target is dropped. Fails with
    /// `MH_ERROR_NOT_INITIALIZED` after teardown and `MH_ERROR_NOT_CREATED`
    /// if the target was never created or is already removed.
    pub fn remove_hook(&mut self, target: Address) -> (r: Result<(), MH_STATUS>)
        requires
            inv(old(self)@),
        ensures
            inv(final(self)@),
            final(self)@ == step_remove(old(self)@, target).0,
            r == step_remove(old(self)@, target).1,
    {
        proof {
            lemma_remove_preserves_inv(old(self)@, target);
        }
        self.ensure_initialized();
        if self.uninitialized {
            return Err(MH_STATUS::MH_ERROR_NOT_INITIALIZED);
        }
        match self.find_hook_index(target) {
            Some(i) => {
                proof {
                    lemma_hook_index_of(self@.hooks, target, i as int);
                }
                if self.hooks[i].state == HookState::Removed {
                    return Err(MH_STATUS::MH_ERROR_NOT_CREATED);
                }
                let elt = &mut self.hooks[i];
                elt.state = HookState::Removed;
                match self.find_intent_index(target) {
                    Some(q) => {
                        proof {
                            lemma_intent_index_of(self@.queue, target, q as int);
                        }
                        self.queue.remove(q);
                    },
                    None => {},
                }
                proof {
                    assert(self@ =~~= step_remove(old(self)@, target).0);
                }
                Ok(())
            },
            None => Err(MH_STATUS::MH_ERROR_NOT_CREATED),
        }
    }

    /// Records an intent to toggle the target's hook at the next batch commit,
    /// without touching the engine; a later intent for the same target within
    /// the unapplied batch overwrites the earlier one.
    fn queue_set(&mut self, target: Address, enable: bool) -> (r: Result<(), MH_STATUS>)
        requires
            inv(old(self)@),
        ensures
            inv(final(self)@),
            final(self)@ == step_queue(old(self)@, target, enable).0,
            r == step_queue(old(self)@, target, enable).1,
    {
        proof {
            lemma_queue_preserves_inv(old(self)@, target, enable);
        }
        self.ensure_initialized();
        if self.uninitialized {
            return Err(MH_STATUS::MH_ERROR_NOT_INITIALIZED);
        }
        match self.find_hook_index(target) {
            Some(i) => {
                proof {
                    lemma_hook_index_of(self@.hooks, target, i as int);
                }
                if self.hooks[i].state == HookState::Removed {
                    return Err(MH_STATUS::MH_ERROR_NOT_CREATED);
                }
                let it = Intent { target, enable };
                match self.find_intent_index(target) {
                    Some(q) => {
                        proof {
                            lemma_intent_index_of(self@.queue, target, q as int);
                        }
                        let elt = &mut self.queue[q];
                        *elt = it;
                    },
                    None => {
                        self.queue.push(it);
                    },
                }
                proof {
                    assert(self@ =~~= step_queue(old(self)@, target, enable).0);
                }
                Ok(())
            },
            None => Err(MH_STATUS::MH_ERROR_NOT_CREATED),
        }
    }

    /// Commits every pending intent in one atomic batch: each queued target's
    /// hook moves to its last queued state, all of them logically before this
    /// call returns, and the queue is drained whatever the outcome. Fails
    /// with `MH_ERROR_NOT_INITIALIZED` after teardown; committing an empty
    /// batch succeeds.
    pub fn apply_queued(&mut self) -> (r: Result<(), MH_STATUS>)
        requires
            inv(old(self)@),
        ensures
            inv(final(self)@),
            final(self)@ == step_apply_queued(old(self)@).0,
            r == step_apply_queued(old(self)@).1,
    {
        proof {
            lemma_apply_queued_preserves_inv(old(self)@);
        }
        self.ensure_initialized();
        if self.uninitialized {
            return Err(MH_STATUS::MH_ERROR_NOT_INITIALIZED);
        }
        let ghost m1 = self@;
        let n = self.queue.len();
        let mut k: usize = 0;
        while k < n
            invariant
                k <= n,
                inv(m1),
                n == m1.queue.len(),
                self.queue@ == m1.queue,
                self.hooks@.len() == m1.hooks.len(),
                forall|l: int| 0 <= l < m1.hooks.len() ==> #[trigger] self.hooks@[l]
                    == apply_intents_to(m1.hooks[l], m1.queue.take(k as int)),
                self@ == (Model { hooks: self.hooks@, ..m1 }),
            decreases n - k,
        {
            let it = self.queue[k];
            proof {
                assert(it == m1.queue[k as int]);
                assert(has_live_hook(m1.hooks, it.target));
                let w = hook_index(m1.hooks, it.target);
                assert(0 <= w < m1.hooks.len() && m1.hooks[w].target == it.target
                    && m1.hooks[w].state.is_live());
                assert(self.hooks@[w] == apply_intents_to(m1.hooks[w], m1.queue.take(k as int)));
                assert(self.hooks@[w].target == it.target);
            }
            let idx_opt = self.find_hook_index(it.target);
            match idx_opt {
                Some(i) => {
                    proof {
                        assert(self.hooks@[i as int] == apply_intents_to(
                            m1.hooks[i as int],
                            m1.queue.take(k as int),
                        ));
                        assert(m1.hooks[i as int].target == it.target);
                        lemma_hook_index_of(m1.hooks, it.target, i as int);
                        assert(m1.hooks[i as int].state.is_live());
                        lemma_apply_intents_extend_hit(m1.hooks[i as int], m1.queue, k as int);
                    }
                    let elt = &mut self.hooks[i];
                    elt.state = if it.enable {
                        HookState::Enabled
                    } else {
                        HookState::Disabled
                    };
                    proof {
                        assert forall|l: int| 0 <= l < m1.hooks.len() implies #[trigger] self.hooks@[l]
                            == apply_intents_to(m1.hooks[l], m1.queue.take(k as int + 1)) by {
                            if l != i as int {
                                lemma_apply_intents_extend_other(
                                    m1.hooks[l],
                                    m1.queue,
                                    k as int,
                                );
                            }
                        }
                    }
                },
                None => {
                    proof {
                        assert(false);
                    }
                },
            }
            k += 1;
        }
        self.queue.clear();
        proof {
            assert(m1.queue.take(n as int) =~= m1.queue);
            assert(self.hooks@ =~= applied_hooks(m1.hooks, m1.queue));
            assert(self@ =~~= step_apply_queued(old(self)@).0);
        }
        Ok(())
    }

    /// Toggles every registered hook to `state` immediately.
    fn set_all(&mut self, state: HookState) -> (r: Result<(), MH_STATUS>)
        requires
            inv(old(self)@),
            state.is_live(),
        ensures
            inv(final(self)@),
            final(self)@ == step_set_all(old(self)@, state).0,
            r == step_set_all(old(self)@, state).1,
    {
        proof {
            lemma_set_all_preserves_inv(old(self)@, state);
        }
        self.ensure_initialized();
        if self.uninitialized {
            return Err(MH_STATUS::MH_ERROR_NOT_INITIALIZED);
        }
        let ghost m1 = self@;
        let n = self.hooks.len();
        let mut j: usize = 0;
        while j < n
            invariant
                j <= n,
                n == m1.hooks.len(),
                self.hooks@.len() == n,
                forall|l: int| 0 <= l < j ==> #[trigger] self.hooks@[l] == all_hooks_set(
                    m1.hooks,
                    state,
                )[l],
                forall|l: int| j <= l < n ==> #[trigger] self.hooks@[l] == m1.hooks[l],
                self@ == (Model { hooks: self.hooks@, ..m1 }),
            decreases n - j,
        {
            if self.hooks[j].state != HookState::Removed {
                let elt = &mut self.hooks[j];
                elt.state = state;
            }
            j += 1;
        }
        proof {
            assert(self.hooks@ =~= all_hooks_set(m1.hooks, state));
            assert(self@ =~~= step_set_all(old(self)@, state).0);
        }
        Ok(())
    }

    /// Enables all currently registered hooks in one immediate call (the
    /// all-hooks counterpart of [`MinHook::enable_hook`], distinct from the
    /// queue/apply path). Enabling zero hooks succeeds; fails only with
    /// `MH_ERROR_NOT_INITIALIZED` after teardown.
    pub fn enable_all_hooks(&mut self) -> (r: Result<(), MH_STATUS>)
        requires
            inv(old(self)@),
        ensures
            inv(final(self)@),
            final(self)@ == step_set_all(old(self)@, HookState::Enabled).0,
            r == step_set_all(old(self)@, HookState::Enabled).1,
    {
        self.set_all(HookState::Enabled)
    }

    /// Disables all currently registered hooks in one immediate call (the
    /// all-hooks counterpart of [`MinHook::disable_hook`], distinct from the
    /// queue/apply path). Disabling zero hooks succeeds; fails only with
    /// `MH_ERROR_NOT_INITIALIZED` after teardown.
    pub fn disable_all_hooks(&mut self) -> (r: Result<(), MH_STATUS>)
        requires
            inv(old(self)@),
        ensures
            inv(final(self)@),
            final(self)@ == step_set_all(old(self)@, HookState::Disabled).0,
            r == step_set_all(old(self)@, HookState::Disabled).1,
    {
        self.set_all(HookState::Disabled)
    }

    /// Where a call to `address` lands, one redirection step deep: an enabled
    /// hook's target runs its detour; a disabled (or freshly created) hook's
    /// target runs its own body; a live record's trampoline runs its target's
    /// original body (reported as the target address); anything else runs
    /// itself.
    pub fn call_destination(&self, address: Address) -> (r: Address)
        requires
            inv(self@),
        ensures
            r == spec_destination(self@, address),
    {
        match self.find_hook_index(address) {
            Some(i) => {
                proof {
                    lemma_hook_index_of(self@.hooks, address, i as int);
                }
                let rec = self.hooks[i];
                if rec.state != HookState::Removed {
                    if rec.state == HookState::Enabled {
                        return rec.detour;
                    }
                    return address;
                }
            },
            None => {},
        }
        proof {
            assert(!has_live_hook(self@.hooks, address));
        }
        let n = self.hooks.len();
        let mut j: usize = 0;
        while j < n
            invariant
                j <= n,
                n == self.hooks@.len(),
                inv(self@),
                !has_live_hook(self@.hooks, address),
                forall|l: int| 0 <= l < j ==> !((#[trigger] self.hooks@[l]).state.is_live()
                    && self.hooks@[l].trampoline == address),
            decreases n - j,
        {
            let rec = self.hooks[j];
            if rec.state != HookState::Removed && rec.trampoline == address {
                proof {
                    lemma_trampoline_owner_of(self@.hooks, address, j as int);
                }
                return rec.target;
            }
            j += 1;
        }
        address
    }

    /// The index of the export entry for this (module, symbol) pair, if the
    /// resolution collaborator knows it.
    fn find_export_index(&self, module_name: &str, proc_name: &str) -> (r: Option<usize>)
        ensures
            match r {
                Some(i) => i < self@.exports.len() && self@.exports[i as int].module
                    == module_name@ && self@.exports[i as int].symbol == proc_name@,
                None => !has_export(self@.exports, module_name@, proc_name@),
            },
    {
        let module_owned = module_name.to_owned();
        let proc_owned = proc_name.to_owned();
        let n = self.exports.len();
        let mut i: usize = 0;
        while i < n
            invariant
                i <= n,
                n == self.exports@.len(),
                module_owned@ == module_name@,
                proc_owned@ == proc_name@,
                forall|j: int| 0 <= j < i ==> !((#[trigger] self.exports@[j]).module@
                    == module_name@ && self.exports@[j].symbol@ == proc_name@),
            decreases n - i,
        {
            if self.exports[i].module == module_owned && self.exports[i].symbol == proc_owned {
                return Some(i);
            }
            i += 1;
        }
        None
    }

    /// Whether the resolution collaborator knows any export of this module.
    fn module_known(&self, module_name: &str) -> (r: bool)
        ensures
            r == has_module(self@.exports, module_name@),
    {
        let module_owned = module_name.to_owned();
        let n = self.exports.len();
        let mut i: usize = 0;
        while i < n
            invariant
                i <= n,
                n == self.exports@.len(),
                module_owned@ == module_name@,
                forall|j: int| 0 <= j < i ==> (#[trigger] self.exports@[j]).module@
                    != module_name@,
            decreases n - i,
        {
            if self.exports[i].module == module_owned {
                proof {
                    assert(self@.exports[i as int].module == module_name@);
                }
                return true;
            }
            i += 1;
        }
        false
    }

    /// Makes an exported symbol known to this context's resolution
    /// collaborator, so [`MinHook::create_hook_api`] can find it; a later
    /// entry for the same (module, symbol) pair overwrites the earlier one.
    pub fn register_export(&mut self, module_name: &str, proc_name: &str, address: Address)
        requires
            inv(old(self)@),
        ensures
            inv(final(self)@),
            final(self)@ == step_register_export(old(self)@, module_name@, proc_name@, address),
    {
        proof {
            lemma_register_export_preserves_inv(old(self)@, module_name@, proc_name@, address);
        }
        let e = Export {
            module: module_name.to_owned(),
            symbol: proc_name.to_owned(),
            address,
        };
        match self.find_export_index(module_name, proc_name) {
            Some(i) => {
                proof {
                    lemma_export_index_of(self@.exports, module_name@, proc_name@, i as int);
                }
                let elt = &mut self.exports[i];
                *elt = e;
            },
            None => {
                self.exports.push(e);
            },
        }
        proof {
            assert(self@ =~~= step_register_export(old(self)@, module_name@, proc_name@, address));
        }
    }

    /// Creates a hook for the named exported function of a loaded module,
    /// detouring it to `detour`, and returns the trampoline handle together
    /// with the resolved target handle. Name resolution runs before the
    /// engine: an unknown module fails with `MH_ERROR_MODULE_NOT_FOUND`, a
    /// known module without the symbol with `MH_ERROR_FUNCTION_NOT_FOUND`;
    /// otherwise creation proceeds exactly as [`MinHook::create_hook`] on the
    /// resolved address.
    pub fn create_hook_api_ex(
        &mut self,
        module_name: &str,
        proc_name: &str,
        detour: Address,
    ) -> (r: Result<(Address, Address), MH_STATUS>)
        requires
            inv(old(self)@),
        ensures
            inv(final(self)@),
            final(self)@ == step_create_api(old(self)@, module_name@, proc_name@, detour).0,
            r == step_create_api(old(self)@, module_name@, proc_name@, detour).1,
    {
        proof {
            lemma_create_api_preserves_inv(old(self)@, module_name@, proc_name@, detour);
        }
        self.ensure_initialized();
        if !self.module_known(module_name) {
            return Err(MH_STATUS::MH_ERROR_MODULE_NOT_FOUND);
        }
        match self.find_export_index(module_name, proc_name) {
            Some(i) => {
                proof {
                    lemma_export_index_of(self@.exports, module_name@, proc_name@, i as int);
                    assert(export_address(self@.exports, module_name@, proc_name@)
                        == self@.exports[i as int].address);
                }
                let target = self.exports[i].address;
                let created = self.create_hook(target, detour);
                match created {
                    Ok(tramp) => Ok((tramp, target)),
                    Err(e) => Err(e),
                }
            },
            None => Err(MH_STATUS::MH_ERROR_FUNCTION_NOT_FOUND),
        }
    }

    /// Creates a hook for the named exported function of a loaded module,
    /// detouring it to `detour`, and returns the trampoline handle for
    /// calling the original behavior; otherwise exactly
    /// [`MinHook::create_hook_api_ex`].
    pub fn create_hook_api(
        &mut self,
        module_name: &str,
        proc_name: &str,
        detour: Address,
    ) -> (r: Result<Address, MH_STATUS>)
        requires
            inv(old(self)@),
        ensures
            inv(final(self)@),
            final(self)@ == step_create_api(old(self)@, module_name@, proc_name@, detour).0,
            r == (match step_create_api(old(self)@, module_name@, proc_name@, detour).1 {
                Ok(p) => Ok(p.0),
                Err(e) => Err(e),
            }),
    {
        match self.create_hook_api_ex(module_name, proc_name, detour) {
            Ok((tramp, _)) => Ok(tramp),
            Err(e) => Err(e),
        }
    }

    /// Queues the target's hook for enabling at the next [`MinHook::apply_queued`];
    /// requires the hook to be created and not removed, nothing more. A later
    /// queued intent for the same target overwrites this one.
    pub fn queue_enable_hook(&mut self, target: Address) -> (r: Result<(), MH_STATUS>)
        requires
            inv(old(self)@),
        ensures
            inv(final(self)@),
            final(self)@ == step_queue(old(self)@, target, true).0,
            r == step_queue(old(self)@, target, true).1,
    {
        self.queue_set(target, true)
    }

    /// Queues the target's hook for disabling at the next [`MinHook::apply_queued`];
    /// requires the hook to be created and not removed, nothing more. A later
    /// queued intent for the same target overwrites this one.
    pub fn queue_disable_hook(&mut self, target: Address) -> (r: Result<(), MH_STATUS>)
        requires
            inv(old(self)@),
        ensures
            inv(final(self)@),
            final(self)@ == step_queue(old(self)@, target, false).0,
            r == step_queue(old(self)@, target, false).1,
    {
        self.queue_set(target, false)
    }
}

} // verus!
