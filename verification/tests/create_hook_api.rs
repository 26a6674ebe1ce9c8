use minhook::Address;
use minhook::MinHook;

// The behavior table of this test: the exported GetCurrentProcessId at
// address 60 returns the process id; the detour at address 61 returns 42.
fn call(minhook: &MinHook, addr: Address, original_pid: u32) -> u32 {
    let dest = minhook.call_destination(addr);
    if dest == Address(60) {
        original_pid
    } else if dest == Address(61) {
        42
    } else {
        panic!("call landed on an unknown address");
    }
}

#[test]
fn test_create_hook_api() {
    // Hook the get-process-id function.
    let mut minhook = MinHook::new();
    minhook.register_export("kernel32.dll", "GetCurrentProcessId", Address(60));

    // Create a hook for the `GetCurrentProcessId` function.
    let original = minhook
        .create_hook_api("kernel32.dll", "GetCurrentProcessId", Address(61))
        .unwrap();

    // The current process id, as the unhooked function would report it.
    let original_pid: u32 = 31337;

    // Enable all hooks (this is necessary since we do not have a handle to
    // the GetCurrentProcessId function).
    minhook.enable_all_hooks().unwrap();

    // Call the hooked function; it should return the value the detour
    // `get_current_process_id_hook` returns.
    assert_eq!(call(&minhook, Address(60), original_pid), 42);

    // Call the original function through the trampoline handle.
    assert_eq!(call(&minhook, original, original_pid), original_pid);

    // Disable the hook.
    minhook.disable_all_hooks().unwrap();

    // Ensure the original function is restored.
    assert_eq!(call(&minhook, Address(60), original_pid), original_pid);
}
