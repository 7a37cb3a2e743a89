//! Toolchain lifecycle scenarios: resolving descriptors, creating and
//! removing toolchains, and switching the default pointer.
use fuelup::errors::Error;
use fuelup::target::TargetTriple;
use fuelup::toolchain::resolve;
use fuelup::toolchain::Date;
use fuelup::toolchain::StagedDir;
use fuelup::toolchain::ToolchainDescription;
use fuelup::toolchain::ToolchainStore;
use fuelup::toolchain::unpack_and_relocate;

fn host() -> TargetTriple {
    TargetTriple::new("x86_64-unknown-linux-gnu").unwrap()
}

#[test]
fn fuelup_toolchain_install_latest() {
    let host = host();
    let desc = resolve("latest", &host).unwrap();
    assert!(matches!(desc, ToolchainDescription::Latest { .. }));
    let name = desc.dir_name();
    assert!(name.starts_with("latest-"));
    let mut store = ToolchainStore::empty();
    store.ensure_toolchain(&name);
    assert_eq!(store.toolchains.len(), 1);
    assert_eq!(store.toolchains[0].name, name);
}

#[test]
fn fuelup_toolchain_install_nightly() {
    let host = host();
    let desc = resolve("nightly", &host).unwrap();
    assert!(matches!(desc, ToolchainDescription::Nightly { ref date, .. } if date.is_none()));
    let name = desc.dir_name();
    assert!(name.starts_with("nightly-"));
    let mut store = ToolchainStore::empty();
    store.ensure_toolchain(&name);
    assert_eq!(store.toolchains.len(), 1);
    assert_eq!(store.toolchains[0].name, name);
}

#[test]
fn fuelup_toolchain_install_nightly_date() {
    let host = host();
    let desc = resolve("nightly-2022-08-31", &host).unwrap();
    let name = desc.dir_name();
    assert!(name.starts_with("nightly-2022-08-31-"));
    assert_eq!(name, "nightly-2022-08-31-x86_64-unknown-linux-gnu");
    let mut store = ToolchainStore::empty();
    store.ensure_toolchain(&name);
    let bins: &Vec<String> = &store.toolchains[0].bins;
    assert!(bins.is_empty());
}

#[test]
fn fuelup_toolchain_install_malformed_date() {
    let host = host();
    let r = resolve("nightly-2022-08-31-", &host);
    let msg = r.unwrap_err().message();
    assert_eq!(
        msg,
        "specifying a target is not supported yet: '' (in 'nightly-2022-08-31-')"
    );
    let r = resolve("nightly-2022-8-31", &host);
    let msg = r.unwrap_err().message();
    assert_eq!(msg, "unable to parse date: '2022-8-31' (in 'nightly-2022-8-31')");
}

#[test]
fn fuelup_toolchain_install_date_target_disallowed() {
    let host = host();
    let r = resolve("nightly-2022-08-31-x86_64-apple-darwin", &host);
    let msg = match r {
        Err(e) => e.message(),
        Ok(_) => panic!("a dated nightly with a target must be rejected"),
    };
    assert!(msg.contains("x86_64-apple-darwin"));
    assert!(msg.contains("nightly-2022-08-31-x86_64-apple-darwin"));
}

#[test]
fn fuelup_toolchain_uninstall() {
    let host = host();
    for channel in ["latest", "nightly", "nightly-2022-08-31"] {
        let desc = resolve(channel, &host).unwrap();
        let toolchain_with_target = desc.dir_name();
        let mut store = ToolchainStore::empty();
        let (msg, removed) = store.uninstall(&toolchain_with_target);
        assert!(!removed);
        assert_eq!(
            msg,
            format!("toolchain '{toolchain_with_target}' does not exist\n")
        );
        store.ensure_toolchain(&toolchain_with_target);
        let (msg, removed) = store.uninstall(&toolchain_with_target);
        assert!(removed);
        assert_eq!(msg, format!("toolchain '{toolchain_with_target}' uninstalled\n"));
        assert!(store.toolchains.is_empty());
    }
}

#[test]
fn fuelup_toolchain_uninstall_active_switches_default() {
    let host = host();
    let latest = resolve("latest", &host).unwrap().dir_name();
    let mut store = ToolchainStore::empty();
    store.ensure_toolchain(&latest);
    store.default_toolchain = Some(latest.clone());
    store.new_toolchain("my-toolchain", &host).unwrap();
    store.default_toolchain = Some(latest.clone());
    let (_, removed) = store.uninstall(&latest);
    assert!(removed);
    assert_eq!(store.show_default().unwrap(), "my-toolchain (default)\n");
}

#[test]
fn fuelup_toolchain_new() {
    let host = host();
    let name = "my-toolchain";
    let mut store = ToolchainStore::empty();
    let msg = store.new_toolchain(name, &host).unwrap();
    assert_eq!(
        msg,
        format!("New toolchain initialized: {name}\ndefault toolchain set to '{name}'\n")
    );
    assert_eq!(store.toolchains.len(), 1);
    assert_eq!(store.default_toolchain.as_deref(), Some(name));
}

#[test]
fn fuelup_toolchain_new_disallowed() {
    let host = host();
    let mut store = ToolchainStore::empty();
    assert!(matches!(
        store.new_toolchain("latest", &host),
        Err(Error::Resolution { .. })
    ));
    assert!(matches!(
        store.new_toolchain("nightly", &host),
        Err(Error::Resolution { .. })
    ));
    assert!(store.toolchains.is_empty());
    assert!(store.default_toolchain.is_none());
}

#[test]
fn fuelup_toolchain_new_disallowed_with_target() {
    let host = host();
    let mut store = ToolchainStore::empty();
    let name = format!("latest-{}", host.text);
    assert!(matches!(
        store.new_toolchain(&name, &host),
        Err(Error::Resolution { .. })
    ));
    let name = format!("nightly-{}", host.text);
    assert!(matches!(
        store.new_toolchain(&name, &host),
        Err(Error::Resolution { .. })
    ));
}

#[test]
fn date_parsing_follows_the_calendar() {
    assert!(Date::parse("2022-08-31").is_some());
    assert!(Date::parse("2022-12-31").is_some());
    assert!(Date::parse("2024-02-29").is_some());
    assert!(Date::parse("2000-02-29").is_some());
    assert!(Date::parse("2023-02-29").is_none());
    assert!(Date::parse("1900-02-29").is_none());
    assert!(Date::parse("2022-02-30").is_none());
    assert!(Date::parse("2022-04-31").is_none());
    assert!(Date::parse("2022-13-01").is_none());
    assert!(Date::parse("2022-00-10").is_none());
    assert!(Date::parse("2022-01-00").is_none());
    assert!(Date::parse("2022-1-01").is_none());
}

#[test]
fn resolving_a_reserved_custom_name_fails() {
    let host = host();
    let name = format!("latest-{}", host.text);
    let msg = resolve(&name, &host).unwrap_err().message();
    assert_eq!(
        msg,
        format!("cannot use reserved toolchain name '{name}'")
    );
    assert!(resolve("my-toolchain", &host).is_ok());
}

#[test]
fn test_unpack_and_link_bins() {
    let staging = vec![StagedDir {
        name: String::from("forc-binaries"),
        files: vec![
            String::from("forc-mock-exec-1"),
            String::from("forc-mock-exec-2"),
        ],
    }];
    let mut bin_dir: Vec<String> = Vec::new();
    assert!(!bin_dir.iter().any(|b| b == "forc-mock-exec-1"));
    assert!(!bin_dir.iter().any(|b| b == "forc-mock-exec-2"));
    let moved = unpack_and_relocate(&staging, &mut bin_dir);
    assert!(bin_dir.iter().any(|b| b == "forc-mock-exec-1"));
    assert!(bin_dir.iter().any(|b| b == "forc-mock-exec-2"));
    assert_eq!(moved, vec!["forc-mock-exec-1", "forc-mock-exec-2"]);
    assert_eq!(bin_dir.len(), 2);
    // relocating again overwrites: same names, no duplicates
    let moved_again = unpack_and_relocate(&staging, &mut bin_dir);
    assert_eq!(moved_again.len(), 2);
    assert_eq!(bin_dir.len(), 2);
}
