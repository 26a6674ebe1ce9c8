use minhook::Address;
use minhook::MinHook;

// The behavior table of this test's functions: test_fn1 at address 30 returns
// 0 and its hook at 31 returns 1; test_fn2 at address 40 is the identity and
// its hook at 41 adds one.
fn call_test_fn1(minhook: &MinHook) -> i32 {
    let dest = minhook.call_destination(Address(30));
    if dest == Address(30) {
        0
    } else if dest == Address(31) {
        1
    } else {
        panic!("call landed on an unknown address");
    }
}

fn call_test_fn2(minhook: &MinHook, x: i32) -> i32 {
    let dest = minhook.call_destination(Address(40));
    if dest == Address(40) {
        x
    } else if dest == Address(41) {
        x + 1
    } else {
        panic!("call landed on an unknown address");
    }
}

#[test]
fn test_hooks_queue() {
    let mut minhook = MinHook::new();
    minhook.create_hook(Address(30), Address(31)).unwrap();
    minhook.create_hook(Address(40), Address(41)).unwrap();

    // Queue to enable the hooks, then apply them.
    minhook.queue_enable_hook(Address(30)).unwrap();
    minhook.queue_enable_hook(Address(40)).unwrap();
    minhook.apply_queued().unwrap();

    // Test that the hooks are enabled.
    assert_eq!(call_test_fn1(&minhook), 1);
    assert_eq!(call_test_fn2(&minhook, 1), 2);

    // Queue to disable the hooks, then apply them.
    minhook.queue_disable_hook(Address(30)).unwrap();
    minhook.queue_disable_hook(Address(40)).unwrap();
    minhook.apply_queued().unwrap();

    // Test that the hooks are disabled.
    assert_eq!(call_test_fn1(&minhook), 0);
    assert_eq!(call_test_fn2(&minhook, 1), 1);
}
