use minhook::Address;
use minhook::MinHook;
use minhook::MH_STATUS;

#[test]
fn enable_twice_reports_enabled_and_changes_nothing() {
    let mut minhook = MinHook::new();
    minhook.create_hook(Address(10), Address(11)).unwrap();
    minhook.enable_hook(Address(10)).unwrap();
    assert_eq!(minhook.enable_hook(Address(10)), Err(MH_STATUS::MH_ERROR_ENABLED));
    // still redirected: the failed call left the record enabled
    assert_eq!(minhook.call_destination(Address(10)), Address(11));
}

#[test]
fn disable_when_not_enabled_reports_disabled() {
    let mut minhook = MinHook::new();
    minhook.create_hook(Address(10), Address(11)).unwrap();
    // freshly created counts as disabled
    assert_eq!(minhook.disable_hook(Address(10)), Err(MH_STATUS::MH_ERROR_DISABLED));
    minhook.enable_hook(Address(10)).unwrap();
    minhook.disable_hook(Address(10)).unwrap();
    assert_eq!(minhook.disable_hook(Address(10)), Err(MH_STATUS::MH_ERROR_DISABLED));
    assert_eq!(minhook.call_destination(Address(10)), Address(10));
}

#[test]
fn removed_target_reports_not_created() {
    let mut minhook = MinHook::new();
    minhook.create_hook(Address(10), Address(11)).unwrap();
    minhook.remove_hook(Address(10)).unwrap();
    assert_eq!(minhook.enable_hook(Address(10)), Err(MH_STATUS::MH_ERROR_NOT_CREATED));
    assert_eq!(minhook.disable_hook(Address(10)), Err(MH_STATUS::MH_ERROR_NOT_CREATED));
    assert_eq!(minhook.remove_hook(Address(10)), Err(MH_STATUS::MH_ERROR_NOT_CREATED));
    assert_eq!(minhook.queue_enable_hook(Address(10)), Err(MH_STATUS::MH_ERROR_NOT_CREATED));
}

#[test]
fn unknown_target_reports_not_created() {
    let mut minhook = MinHook::new();
    assert_eq!(minhook.enable_hook(Address(99)), Err(MH_STATUS::MH_ERROR_NOT_CREATED));
    assert_eq!(minhook.disable_hook(Address(99)), Err(MH_STATUS::MH_ERROR_NOT_CREATED));
    assert_eq!(minhook.remove_hook(Address(99)), Err(MH_STATUS::MH_ERROR_NOT_CREATED));
    assert_eq!(minhook.queue_disable_hook(Address(99)), Err(MH_STATUS::MH_ERROR_NOT_CREATED));
}

#[test]
fn create_twice_reports_already_created() {
    let mut minhook = MinHook::new();
    minhook.create_hook(Address(10), Address(11)).unwrap();
    assert_eq!(
        minhook.create_hook(Address(10), Address(12)),
        Err(MH_STATUS::MH_ERROR_ALREADY_CREATED)
    );
    // the first hook is untouched by the failed creation
    minhook.enable_hook(Address(10)).unwrap();
    assert_eq!(minhook.call_destination(Address(10)), Address(11));
}

#[test]
fn removed_target_can_be_hooked_afresh() {
    let mut minhook = MinHook::new();
    minhook.create_hook(Address(10), Address(11)).unwrap();
    minhook.remove_hook(Address(10)).unwrap();
    let trampoline = minhook.create_hook(Address(10), Address(12)).unwrap();
    minhook.enable_hook(Address(10)).unwrap();
    assert_eq!(minhook.call_destination(Address(10)), Address(12));
    assert_eq!(minhook.call_destination(trampoline), Address(10));
}

#[test]
fn trampoline_reaches_original_while_enabled_or_disabled() {
    let mut minhook = MinHook::new();
    let trampoline = minhook.create_hook(Address(10), Address(11)).unwrap();
    assert_eq!(minhook.call_destination(trampoline), Address(10));
    minhook.enable_hook(Address(10)).unwrap();
    assert_eq!(minhook.call_destination(trampoline), Address(10));
    minhook.disable_hook(Address(10)).unwrap();
    assert_eq!(minhook.call_destination(trampoline), Address(10));
    // after removal the trampoline handle is dangling and resolves no more
    minhook.remove_hook(Address(10)).unwrap();
    assert_eq!(minhook.call_destination(trampoline), trampoline);
}

#[test]
fn all_hooks_toggles_every_live_record() {
    let mut minhook = MinHook::new();
    minhook.create_hook(Address(10), Address(11)).unwrap();
    minhook.create_hook(Address(20), Address(21)).unwrap();
    minhook.create_hook(Address(30), Address(31)).unwrap();
    minhook.remove_hook(Address(30)).unwrap();

    minhook.enable_all_hooks().unwrap();
    assert_eq!(minhook.call_destination(Address(10)), Address(11));
    assert_eq!(minhook.call_destination(Address(20)), Address(21));
    assert_eq!(minhook.call_destination(Address(30)), Address(30));

    minhook.disable_all_hooks().unwrap();
    assert_eq!(minhook.call_destination(Address(10)), Address(10));
    assert_eq!(minhook.call_destination(Address(20)), Address(20));
}
