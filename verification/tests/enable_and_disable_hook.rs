use minhook::Address;
use minhook::MinHook;

// The behavior table of this test's functions: the target at address 10
// returns 0, the detour at address 11 returns 1. A call executes whatever
// body the registry says the address lands on.
fn call_test_fn(minhook: &MinHook) -> i32 {
    let dest = minhook.call_destination(Address(10));
    if dest == Address(10) {
        0
    } else if dest == Address(11) {
        1
    } else {
        panic!("call landed on an unknown address");
    }
}

#[test]
fn enable_and_disable_hook_test_hook() {
    let mut minhook = MinHook::new();
    minhook.create_hook(Address(10), Address(11)).unwrap();

    // Test that the hook is enabled.
    minhook.enable_hook(Address(10)).unwrap();
    assert_eq!(call_test_fn(&minhook), 1);

    // Test that the hook is disabled.
    minhook.disable_hook(Address(10)).unwrap();
    assert_eq!(call_test_fn(&minhook), 0);
}
