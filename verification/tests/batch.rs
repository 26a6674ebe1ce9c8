use minhook::Address;
use minhook::MinHook;
use minhook::MH_STATUS;

#[test]
fn one_commit_applies_enable_and_disable_together() {
    let mut minhook = MinHook::new();
    minhook.create_hook(Address(10), Address(11)).unwrap();
    minhook.create_hook(Address(20), Address(21)).unwrap();
    minhook.enable_hook(Address(20)).unwrap();

    // queue: enable A, disable B; nothing takes effect before the commit
    minhook.queue_enable_hook(Address(10)).unwrap();
    minhook.queue_disable_hook(Address(20)).unwrap();
    assert_eq!(minhook.call_destination(Address(10)), Address(10));
    assert_eq!(minhook.call_destination(Address(20)), Address(21));

    // after the one commit both effects hold
    minhook.apply_queued().unwrap();
    assert_eq!(minhook.call_destination(Address(10)), Address(11));
    assert_eq!(minhook.call_destination(Address(20)), Address(20));
}

#[test]
fn later_intent_for_same_target_wins() {
    let mut minhook = MinHook::new();
    minhook.create_hook(Address(10), Address(11)).unwrap();
    minhook.queue_enable_hook(Address(10)).unwrap();
    minhook.queue_disable_hook(Address(10)).unwrap();
    minhook.apply_queued().unwrap();
    assert_eq!(minhook.call_destination(Address(10)), Address(10));

    minhook.queue_disable_hook(Address(10)).unwrap();
    minhook.queue_enable_hook(Address(10)).unwrap();
    minhook.apply_queued().unwrap();
    assert_eq!(minhook.call_destination(Address(10)), Address(11));
}

#[test]
fn queue_does_not_care_about_current_state() {
    let mut minhook = MinHook::new();
    minhook.create_hook(Address(10), Address(11)).unwrap();
    // queuing enable on a hook that is already enabled is fine
    minhook.enable_hook(Address(10)).unwrap();
    minhook.queue_enable_hook(Address(10)).unwrap();
    minhook.apply_queued().unwrap();
    assert_eq!(minhook.call_destination(Address(10)), Address(11));
}

#[test]
fn empty_commit_succeeds() {
    let mut minhook = MinHook::new();
    assert_eq!(minhook.apply_queued(), Ok(()));
}

#[test]
fn commit_drains_the_queue() {
    let mut minhook = MinHook::new();
    minhook.create_hook(Address(10), Address(11)).unwrap();
    minhook.queue_enable_hook(Address(10)).unwrap();
    minhook.apply_queued().unwrap();
    minhook.disable_hook(Address(10)).unwrap();
    // the already-applied intent is gone: a second commit re-enables nothing
    minhook.apply_queued().unwrap();
    assert_eq!(minhook.call_destination(Address(10)), Address(10));
}

#[test]
fn removing_a_hook_drops_its_pending_intent() {
    let mut minhook = MinHook::new();
    minhook.create_hook(Address(10), Address(11)).unwrap();
    minhook.create_hook(Address(20), Address(21)).unwrap();
    minhook.queue_enable_hook(Address(10)).unwrap();
    minhook.queue_enable_hook(Address(20)).unwrap();
    minhook.remove_hook(Address(10)).unwrap();
    assert_eq!(minhook.apply_queued(), Ok(()));
    assert_eq!(minhook.call_destination(Address(10)), Address(10));
    assert_eq!(minhook.call_destination(Address(20)), Address(21));
}

#[test]
fn queueing_unknown_target_reports_not_created() {
    let mut minhook = MinHook::new();
    assert_eq!(minhook.queue_enable_hook(Address(10)), Err(MH_STATUS::MH_ERROR_NOT_CREATED));
}
