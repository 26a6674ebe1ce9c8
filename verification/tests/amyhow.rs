use minhook::MinHook;
use minhook::MH_STATUS;

#[test]
fn test_anyhow() -> Result<(), MH_STATUS> {
    let mut minhook = MinHook::new();
    minhook.enable_all_hooks()?;

    Ok(())
}
