use minhook::Address;
use minhook::MinHook;

// The behavior table of this test's functions: the target at address 50 is
// the identity; the detour at address 51 ignores its argument and calls the
// original behavior through the trampoline with the value it wants to return.
fn call(minhook: &MinHook, addr: Address, x: i32, trampoline: Address) -> i32 {
    let dest = minhook.call_destination(addr);
    if dest == Address(50) {
        x
    } else if dest == Address(51) {
        // Set a value that we want to return for the test, and call the
        // trampoline function with the new value.
        let val: i32 = 42;
        call(minhook, trampoline, val, trampoline)
    } else {
        panic!("call landed on an unknown address");
    }
}

#[test]
fn test_hook_trampoline_enable_and_disable_hook() {
    let mut minhook = MinHook::new();

    // Create a hook for the identity function.
    let trampoline = minhook.create_hook(Address(50), Address(51)).unwrap();

    // Enable the hook.
    minhook.enable_hook(Address(50)).unwrap();

    assert_eq!(call(&minhook, Address(50), 69, trampoline), 42);

    // Disable the hook.
    minhook.disable_hook(Address(50)).unwrap();

    assert_eq!(call(&minhook, Address(50), 69, trampoline), 69);
}
