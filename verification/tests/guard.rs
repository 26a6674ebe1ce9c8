use minhook::Address;
use minhook::MinHook;
use minhook::MH_STATUS;

#[test]
fn guard_runs_engine_setup_exactly_once() {
    let mut minhook = MinHook::new();
    assert_eq!(minhook.engine_init_calls, 0);
    minhook.ensure_initialized();
    assert_eq!(minhook.engine_init_calls, 1);
    minhook.ensure_initialized();
    minhook.ensure_initialized();
    assert_eq!(minhook.engine_init_calls, 1);
}

#[test]
fn guard_runs_engine_teardown_exactly_once() {
    let mut minhook = MinHook::new();
    minhook.uninitialize();
    assert_eq!(minhook.engine_init_calls, 1);
    assert_eq!(minhook.engine_uninit_calls, 1);
    minhook.uninitialize();
    minhook.uninitialize();
    assert_eq!(minhook.engine_init_calls, 1);
    assert_eq!(minhook.engine_uninit_calls, 1);
}

#[test]
fn operations_are_initialized_lazily() {
    let mut minhook = MinHook::new();
    assert_eq!(minhook.engine_init_calls, 0);
    minhook.create_hook(Address(10), Address(11)).unwrap();
    assert_eq!(minhook.engine_init_calls, 1);
}

#[test]
fn every_operation_fails_after_teardown() {
    let mut minhook = MinHook::new();
    minhook.create_hook(Address(10), Address(11)).unwrap();
    minhook.uninitialize();

    let e = MH_STATUS::MH_ERROR_NOT_INITIALIZED;
    assert_eq!(minhook.create_hook(Address(12), Address(13)), Err(e));
    assert_eq!(minhook.enable_hook(Address(10)), Err(e));
    assert_eq!(minhook.disable_hook(Address(10)), Err(e));
    assert_eq!(minhook.remove_hook(Address(10)), Err(e));
    assert_eq!(minhook.queue_enable_hook(Address(10)), Err(e));
    assert_eq!(minhook.queue_disable_hook(Address(10)), Err(e));
    assert_eq!(minhook.apply_queued(), Err(e));
    assert_eq!(minhook.enable_all_hooks(), Err(e));
    assert_eq!(minhook.disable_all_hooks(), Err(e));
}

#[test]
fn teardown_removes_installed_patches() {
    let mut minhook = MinHook::new();
    minhook.create_hook(Address(10), Address(11)).unwrap();
    minhook.enable_hook(Address(10)).unwrap();
    assert_eq!(minhook.call_destination(Address(10)), Address(11));
    minhook.uninitialize();
    assert_eq!(minhook.call_destination(Address(10)), Address(10));
}
