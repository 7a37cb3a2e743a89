//! Download engine scenarios: descriptors, integrity verification, and the
//! retry policy.
use fuelup::channel::HashedBinary;
use fuelup::channel::Package;
use fuelup::channel::TargetEntry;
use fuelup::download::check_integrity;
use fuelup::download::give_up_error;
use fuelup::download::hex_digests_equal;
use fuelup::download::next_step;
use fuelup::download::sha256_hex;
use fuelup::download::tarball_name;
use fuelup::download::AttemptOutcome;
use fuelup::download::DownloadCfg;
use fuelup::download::NextStep;
use fuelup::download::RetryPolicy;
use fuelup::errors::Error;
use fuelup::github_releases_download_url;
use fuelup::components::Component;
use fuelup::target::TargetTriple;
use fuelup::toolchain::install_step;
use fuelup::toolchain::InstallEvent;
use fuelup::toolchain::InstallState;
use fuelup::toolchain::StagedDir;
use fuelup::toolchain::ToolchainStore;
use fuelup::version::Version;

fn host() -> TargetTriple {
    TargetTriple::new("x86_64-unknown-linux-gnu").unwrap()
}

const EMPTY_SHA256: &str = "e3b0c44298fc1c149afbf4c8996fb92427ae41e4649b934ca495991b7852b855";
const ABC_SHA256: &str = "ba7816bf8f01cfea414140de5dae2223b00361a396177a9cb410ff61f20015ad";

#[test]
fn sha256_of_known_inputs() {
    assert_eq!(sha256_hex(&Vec::new()), EMPTY_SHA256);
    assert_eq!(sha256_hex(&vec![b'a', b'b', b'c']), ABC_SHA256);
}

#[test]
fn hex_digest_comparison_ignores_case() {
    assert!(hex_digests_equal("ab12CD", "AB12cd"));
    assert!(!hex_digests_equal("ab12cd", "ab12ce"));
    assert!(!hex_digests_equal("ab12cd", "ab12c"));
}

#[test]
fn integrity_check_passes_on_match_and_warns_without_hash() {
    let declared = Some(String::from(ABC_SHA256));
    let digest = sha256_hex(&vec![b'a', b'b', b'c']);
    assert_eq!(check_integrity(&declared, &digest).unwrap(), true);
    let upper = ABC_SHA256.to_uppercase();
    assert_eq!(check_integrity(&Some(upper), &digest).unwrap(), true);
    assert_eq!(check_integrity(&None, &digest).unwrap(), false);
}

#[test]
fn integrity_mismatch_is_fatal_and_names_both_digests() {
    let declared = Some(String::from(ABC_SHA256));
    let r = check_integrity(&declared, EMPTY_SHA256);
    let e = r.unwrap_err();
    assert!(matches!(e, Error::Integrity { .. }));
    let msg = e.message();
    assert!(msg.contains(ABC_SHA256));
    assert!(msg.contains(EMPTY_SHA256));
    assert!(msg.contains("sha256 checksum failed"));
}

#[test]
fn retry_three_not_found_then_success() {
    let policy = RetryPolicy::standard();
    assert!(matches!(
        next_step(&policy, 1, &AttemptOutcome::NotFoundStatus { retry_after_secs: None }),
        NextStep::RetryAfter { delay_secs: 3 }
    ));
    assert!(matches!(
        next_step(&policy, 2, &AttemptOutcome::NotFoundStatus { retry_after_secs: Some(7) }),
        NextStep::RetryAfter { delay_secs: 7 }
    ));
    assert!(matches!(
        next_step(&policy, 3, &AttemptOutcome::NotFoundStatus { retry_after_secs: None }),
        NextStep::RetryAfter { delay_secs: 3 }
    ));
    assert!(matches!(
        next_step(&policy, 4, &AttemptOutcome::Success),
        NextStep::Finish
    ));
}

#[test]
fn retry_budget_spent_and_fatal_errors() {
    let policy = RetryPolicy::standard();
    assert!(matches!(
        next_step(&policy, 4, &AttemptOutcome::NotFoundStatus { retry_after_secs: None }),
        NextStep::GiveUp { not_found: true }
    ));
    assert!(matches!(
        next_step(&policy, 1, &AttemptOutcome::FatalError),
        NextStep::GiveUp { not_found: false }
    ));
}

#[test]
fn give_up_errors_name_the_failure() {
    let e = give_up_error(true, "https://example.org/a");
    assert!(matches!(e, Error::NotFound { .. }));
    assert_eq!(e.message(), "Could not download file");
    let e = give_up_error(false, "https://example.org/a");
    assert!(matches!(e, Error::Network { .. }));
    assert_eq!(e.message(), "Unexpected error downloading https://example.org/a");
    let e = Error::Filesystem {
        message: String::from("permission denied"),
    };
    assert_eq!(e.message(), "permission denied");
}

#[test]
fn tarball_names() {
    let v = Version::parse("0.17.3").unwrap();
    let t = host();
    assert_eq!(
        tarball_name("forc-binaries", &v, &t),
        "forc-binaries-x86_64-unknown-linux-gnu.tar.gz"
    );
    assert_eq!(
        tarball_name("fuel-core", &v, &t),
        "fuel-core-0.17.3-x86_64-unknown-linux-gnu.tar.gz"
    );
}

#[test]
fn release_download_url() {
    assert_eq!(
        github_releases_download_url("sway", "0.1.0", "forc.tar.gz"),
        "https://github.com/FuelLabs/sway/releases/download/v0.1.0/forc.tar.gz"
    );
}

fn registry() -> Vec<Component> {
    vec![
        Component {
            name: String::from("forc"),
            repository_name: String::from("sway"),
            tarball_prefix: String::from("forc-binaries"),
            targets: vec![String::from("x86_64-unknown-linux-gnu")],
        },
        Component {
            name: String::from("fuel-core"),
            repository_name: String::from("fuel-core"),
            tarball_prefix: String::from("fuel-core"),
            targets: vec![String::from("x86_64-unknown-linux-gnu")],
        },
    ]
}

#[test]
fn download_cfg_new_from_registry() {
    let v = Version::parse("0.1.0").unwrap();
    let cfg = DownloadCfg::new("forc", host(), Some(v), None, &registry()).unwrap();
    assert_eq!(cfg.name, "forc");
    assert_eq!(cfg.version.text, "0.1.0");
    assert_eq!(
        cfg.tarball_name,
        "forc-binaries-x86_64-unknown-linux-gnu.tar.gz"
    );
    assert_eq!(
        cfg.tarball_url,
        "https://github.com/FuelLabs/sway/releases/download/v0.1.0/forc-binaries-x86_64-unknown-linux-gnu.tar.gz"
    );
    assert!(cfg.hash.is_none());
}

#[test]
fn download_cfg_new_rejects_unknown_component() {
    let v = Version::parse("0.1.0").unwrap();
    let r = DownloadCfg::new("no-such-tool", host(), Some(v), None, &registry());
    let msg = r.unwrap_err().message();
    assert_eq!(msg, "Unrecognized component: no-such-tool");
}

#[test]
fn download_cfg_new_needs_some_version() {
    let r = DownloadCfg::new("forc", host(), None, None, &registry());
    let msg = r.unwrap_err().message();
    assert_eq!(msg, "Error getting latest tag for 'forc'");
    let latest = Version::parse("0.2.0").unwrap();
    let cfg = DownloadCfg::new("forc", host(), None, Some(latest), &registry()).unwrap();
    assert_eq!(cfg.version.text, "0.2.0");
}

fn sample_package() -> Package {
    Package {
        version: String::from("0.17.3"),
        targets: vec![TargetEntry {
            target: String::from("x86_64-unknown-linux-gnu"),
            binary: HashedBinary {
                url: String::from("https://example.org/fuel-core.tar.gz"),
                hash: String::from(ABC_SHA256),
            },
        }],
    }
}

#[test]
fn download_cfg_from_package_always_carries_a_hash() {
    let cfg = DownloadCfg::from_package("fuel-core", &sample_package(), host()).unwrap();
    assert!(cfg.hash.is_some());
    assert_eq!(cfg.hash.as_deref(), Some(ABC_SHA256));
    assert_eq!(cfg.tarball_url, "https://example.org/fuel-core.tar.gz");
    assert_eq!(
        cfg.tarball_name,
        "fuel-core-0.17.3-x86_64-unknown-linux-gnu.tar.gz"
    );
}

#[test]
fn download_cfg_from_package_rejects_missing_target() {
    let other = TargetTriple::new("aarch64-apple-darwin").unwrap();
    let r = DownloadCfg::from_package("fuel-core", &sample_package(), other);
    let msg = r.unwrap_err().message();
    assert_eq!(
        msg,
        "no target 'aarch64-apple-darwin' in package 'fuel-core'"
    );
    let bad = Package {
        version: String::from("not-a-version"),
        targets: Vec::new(),
    };
    let r = DownloadCfg::from_package("fuel-core", &bad, host());
    let msg = r.unwrap_err().message();
    assert_eq!(msg, "invalid version: not-a-version");
}

#[test]
fn install_state_machine_gates_extraction_on_verification() {
    let s = install_step(&InstallState::Absent, &InstallEvent::RequestInstall);
    assert!(matches!(s, InstallState::Downloading));
    let s = install_step(&s, &InstallEvent::TransferComplete);
    assert!(matches!(s, InstallState::Verifying));
    assert!(matches!(
        install_step(&s, &InstallEvent::HashMismatch),
        InstallState::Failed
    ));
    let s = install_step(&s, &InstallEvent::HashVerified);
    assert!(matches!(s, InstallState::Extracting));
    let s = install_step(&s, &InstallEvent::UnpackSucceeded);
    assert!(matches!(s, InstallState::Installed));
}

#[test]
fn failed_verification_leaves_toolchain_bins_unchanged() {
    let mut store = ToolchainStore::empty();
    store.ensure_toolchain("latest-x86_64-unknown-linux-gnu");
    let existing = String::from("forc");
    store.toolchains[0].bins.push(existing);
    let cfg = DownloadCfg {
        name: String::from("fuel-core"),
        target: host(),
        version: Version::parse("0.17.3").unwrap(),
        tarball_name: String::from("fuel-core-0.17.3-x86_64-unknown-linux-gnu.tar.gz"),
        tarball_url: String::from("https://example.org/fuel-core.tar.gz"),
        hash: Some(String::from(ABC_SHA256)),
    };
    let staging = vec![StagedDir {
        name: String::from("fuel-core-0.17.3"),
        files: vec![String::from("fuel-core")],
    }];
    let r = store.verify_and_install(
        "latest-x86_64-unknown-linux-gnu",
        &cfg,
        EMPTY_SHA256,
        &staging,
    );
    assert!(matches!(r, Err(Error::Integrity { .. })));
    assert_eq!(store.toolchains[0].bins, vec!["forc"]);
    // with the right digest the staged binary is installed
    let digest = sha256_hex(&vec![b'a', b'b', b'c']);
    let r = store.verify_and_install("latest-x86_64-unknown-linux-gnu", &cfg, &digest, &staging);
    assert_eq!(r.unwrap(), true);
    assert_eq!(store.toolchains[0].bins.len(), 2);
    assert!(store.toolchains[0].bins.iter().any(|b| b == "fuel-core"));
}
