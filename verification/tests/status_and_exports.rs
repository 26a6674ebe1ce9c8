use minhook::Address;
use minhook::Export;
use minhook::MinHook;
use minhook::MH_STATUS;

#[test]
fn ok_maps_success_and_surfaces_every_error() {
    assert_eq!(MH_STATUS::MH_OK.ok(), Ok(()));
    assert_eq!(
        MH_STATUS::MH_ERROR_ALREADY_INITIALIZED.ok(),
        Err(MH_STATUS::MH_ERROR_ALREADY_INITIALIZED)
    );
    assert_eq!(MH_STATUS::MH_ERROR_ENABLED.ok(), Err(MH_STATUS::MH_ERROR_ENABLED));
    assert_eq!(MH_STATUS::MH_UNKNOWN.ok(), Err(MH_STATUS::MH_UNKNOWN));
}

#[test]
fn unknown_module_reports_module_not_found() {
    let mut minhook = MinHook::new();
    minhook.register_export("kernel32.dll", "GetCurrentProcessId", Address(60));
    assert_eq!(
        minhook.create_hook_api("user32.dll", "GetCurrentProcessId", Address(61)),
        Err(MH_STATUS::MH_ERROR_MODULE_NOT_FOUND)
    );
}

#[test]
fn unknown_symbol_reports_function_not_found() {
    let mut minhook = MinHook::new();
    minhook.register_export("kernel32.dll", "GetCurrentProcessId", Address(60));
    assert_eq!(
        minhook.create_hook_api("kernel32.dll", "GetTickCount", Address(61)),
        Err(MH_STATUS::MH_ERROR_FUNCTION_NOT_FOUND)
    );
    assert_eq!(
        minhook.create_hook_api_ex("kernel32.dll", "GetTickCount", Address(61)),
        Err(MH_STATUS::MH_ERROR_FUNCTION_NOT_FOUND)
    );
}

#[test]
fn reregistering_an_export_overwrites_its_address() {
    let mut minhook = MinHook::new();
    minhook.register_export("kernel32.dll", "GetCurrentProcessId", Address(60));
    minhook.register_export("kernel32.dll", "GetCurrentProcessId", Address(70));
    let (_, target) = minhook
        .create_hook_api_ex("kernel32.dll", "GetCurrentProcessId", Address(71))
        .unwrap();
    assert_eq!(target, Address(70));
}

#[test]
fn exhausted_trampoline_allocator_reports_memory_alloc() {
    // a context whose modeled engine has no trampoline handle left
    let mut minhook = MinHook {
        initialized: false,
        uninitialized: false,
        engine_init_calls: 0,
        engine_uninit_calls: 0,
        hooks: Vec::new(),
        queue: Vec::new(),
        exports: Vec::new(),
        next_trampoline: u64::MAX,
    };
    assert_eq!(
        minhook.create_hook(Address(10), Address(11)),
        Err(MH_STATUS::MH_ERROR_MEMORY_ALLOC)
    );
}

#[test]
fn export_entries_carry_what_was_registered() {
    let mut minhook = MinHook::new();
    minhook.register_export("kernel32.dll", "GetCurrentProcessId", Address(60));
    let entry: &Export = &minhook.exports[0];
    assert_eq!(entry.module, "kernel32.dll");
    assert_eq!(entry.symbol, "GetCurrentProcessId");
    assert_eq!(entry.address, Address(60));
}
