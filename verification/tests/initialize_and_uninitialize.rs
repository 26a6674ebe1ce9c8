use minhook::MinHook;

#[test]
fn initialize_and_uninitialize_test_hook() {
    // The registry initializes itself lazily, so there is no need to ever call
    // ensure_initialized(). However, we can call uninitialize() when we are
    // done with the context. It is safe to call uninitialize(), even multiple
    // times, but it will only run the engine teardown once.
    let mut minhook = MinHook::new();
    minhook.uninitialize();
}
