use minhook::Address;
use minhook::MinHook;

// The behavior table of this test: the exported GetCurrentProcessId at
// address 70 returns the process id; the detour at address 71 returns 42.
fn call(minhook: &MinHook, addr: Address, original_pid: u32) -> u32 {
    let dest = minhook.call_destination(addr);
    if dest == Address(70) {
        original_pid
    } else if dest == Address(71) {
        42
    } else {
        panic!("call landed on an unknown address");
    }
}

#[test]
fn test_create_hook_api_ex() {
    // Hook the get-process-id function.
    let mut minhook = MinHook::new();
    minhook.register_export("kernel32.dll", "GetCurrentProcessId", Address(70));

    // Create a hook for the `GetCurrentProcessId` function using the extended
    // API, which also resolves the target handle.
    let (original, target) = minhook
        .create_hook_api_ex("kernel32.dll", "GetCurrentProcessId", Address(71))
        .unwrap();

    // The current process id, as the unhooked function would report it.
    let original_pid: u32 = 31337;

    // Enable the hook through the resolved target handle.
    minhook.enable_hook(target).unwrap();

    // Call the hooked function; it should return the value the detour
    // `get_current_process_id_hook` returns.
    assert_eq!(call(&minhook, Address(70), original_pid), 42);

    // Call the original function through the trampoline handle.
    assert_eq!(call(&minhook, original, original_pid), original_pid);

    // Disable the hook.
    minhook.disable_hook(target).unwrap();
}
