use minhook::Address;
use minhook::MinHook;

// The behavior table of this test's functions: the target at address 20
// returns 0, the detour at address 21 returns 1.
fn call(minhook: &MinHook, addr: Address) -> i32 {
    let dest = minhook.call_destination(addr);
    if dest == Address(20) {
        0
    } else if dest == Address(21) {
        1
    } else {
        panic!("call landed on an unknown address");
    }
}

#[test]
fn test_remove_hook() {
    let mut minhook = MinHook::new();
    minhook.create_hook(Address(20), Address(21)).unwrap();

    // Remove the hook.
    minhook.remove_hook(Address(20)).unwrap();

    // Now enable all hooks.
    minhook.enable_all_hooks().unwrap();

    // Test that the hook is removed and never got enabled.
    assert_eq!(call(&minhook, Address(20)), 0);
    assert_eq!(call(&minhook, Address(21)), 1);
}
