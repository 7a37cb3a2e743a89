//! Channel-builder scenarios: argument parsing, validation, asset matching,
//! planning, and assembly with skipped targets.
use fuelup::build_channel::assemble_channel;
use fuelup::build_channel::components_exists;
use fuelup::build_channel::nightly_entry;
use fuelup::build_channel::parse_key_val;
use fuelup::build_channel::plan_latest;
use fuelup::build_channel::plan_nightly;
use fuelup::build_channel::resolve_latest_version;
use fuelup::build_channel::validate_components;
use fuelup::build_channel::Asset;
use fuelup::components::lookup;
use fuelup::components::Component;
use fuelup::components::FUELUP;
use fuelup::download::latest_version_from_channel;
use fuelup::errors::Error;
use fuelup::manifest::parse;
use fuelup::manifest::serialize;
use fuelup::target::TargetTriple;
use fuelup::version::Version;

#[test]
fn key_value_arguments_split_at_the_first_equals() {
    let (k, v) = parse_key_val("forc=0.31.1").unwrap();
    assert_eq!(k, "forc");
    assert_eq!(v, "0.31.1");
    let (k, v) = parse_key_val("a=b=c").unwrap();
    assert_eq!(k, "a");
    assert_eq!(v, "b=c");
    let msg = parse_key_val("no-separator").unwrap_err().message();
    assert_eq!(msg, "invalid KEY=value: no `=` found in `no-separator`");
}

fn explicit(pairs: &[(&str, &str)]) -> Vec<(String, Version)> {
    pairs
        .iter()
        .map(|(n, v)| (String::from(*n), Version::parse(v).unwrap()))
        .collect()
}

#[test]
fn component_validation_per_channel() {
    assert!(validate_components("nightly", &Vec::new()).is_ok());
    let msg = validate_components("nightly", &explicit(&[("forc", "1.0.0")]))
        .unwrap_err()
        .message();
    assert_eq!(msg, "Cannot specify versions when building 'nightly' channel");
    let both = explicit(&[("forc", "1.0.0"), ("fuel-core", "2.0.0")]);
    assert!(components_exists(&both));
    assert!(validate_components("latest", &both).is_ok());
    let one = explicit(&[("forc", "1.0.0")]);
    assert!(!components_exists(&one));
    let msg = validate_components("latest", &one).unwrap_err().message();
    assert_eq!(
        msg,
        "You must specify versions for 'forc' and 'fuel-core' when building 'latest' channel"
    );
    let msg = validate_components("beta", &both).unwrap_err().message();
    assert_eq!(msg, "Invalid channel 'beta'");
}

#[test]
fn asset_names_split_into_version_and_target() {
    let (version, target) = nightly_entry(
        "fuel-core",
        "fuel-core-0.15.1+nightly.20230111.a5514420e5-x86_64-unknown-linux-gnu.tar.gz",
    )
    .unwrap();
    assert_eq!(version, "0.15.1+nightly.20230111.a5514420e5");
    assert_eq!(target, "x86_64-unknown-linux-gnu");
    assert!(nightly_entry("forc-binaries", "fuel-core-0.1.0-x.tar.gz").is_none());
    assert!(nightly_entry("fuel-core", "fuel-core").is_none());
}

fn registry() -> Vec<Component> {
    vec![
        Component {
            name: String::from("forc"),
            repository_name: String::from("sway"),
            tarball_prefix: String::from("forc-binaries"),
            targets: vec![
                String::from("linux_amd64"),
                String::from("darwin_arm64"),
            ],
        },
        Component {
            name: String::from("fuel-core"),
            repository_name: String::from("fuel-core"),
            tarball_prefix: String::from("fuel-core"),
            targets: vec![String::from("linux_amd64")],
        },
    ]
}

#[test]
fn registry_lookup_by_name() {
    let reg = registry();
    let c = lookup(&reg, "fuel-core").unwrap();
    assert_eq!(c.repository_name, "fuel-core");
    assert!(lookup(&reg, "no-such").is_none());
    assert_eq!(FUELUP, "fuelup");
}

#[test]
fn nightly_planning_matches_assets_against_prefixes() {
    let assets = vec![
        Asset {
            name: String::from("fuel-core-0.15.1+nightly.20230111.aa-x86_64-unknown-linux-gnu.tar.gz"),
            url: String::from("https://example.org/a1.tar.gz"),
        },
        Asset {
            name: String::from("unrelated-file.txt.sig"),
            url: String::from("https://example.org/a2"),
        },
    ];
    let plan = plan_nightly(&registry(), &assets);
    assert_eq!(plan.len(), 1);
    assert_eq!(plan[0].name, "fuel-core");
    assert_eq!(plan[0].version, "0.15.1+nightly.20230111.aa");
    assert_eq!(plan[0].target, "x86_64-unknown-linux-gnu");
    assert_eq!(plan[0].url, "https://example.org/a1.tar.gz");
}

#[test]
fn latest_planning_builds_canonical_urls() {
    let versions = vec![
        Version::parse("0.31.1").unwrap(),
        Version::parse("0.15.1").unwrap(),
    ];
    let plan = plan_latest(&registry(), &versions);
    assert_eq!(plan.len(), 3);
    assert_eq!(plan[0].name, "forc");
    assert_eq!(plan[0].target, "linux_amd64");
    assert_eq!(
        plan[0].url,
        "https://github.com/FuelLabs/sway/releases/download/v0.31.1/forc-binaries-linux_amd64.tar.gz"
    );
    assert_eq!(plan[1].target, "darwin_arm64");
    assert_eq!(
        plan[2].url,
        "https://github.com/FuelLabs/fuel-core/releases/download/v0.15.1/fuel-core-0.15.1-linux_amd64.tar.gz"
    );
}

#[test]
fn latest_version_resolution_prefers_explicit() {
    let explicit_versions = explicit(&[("forc", "0.31.1")]);
    let fetched = Some(Version::parse("0.99.0").unwrap());
    let v = resolve_latest_version("forc", &explicit_versions, fetched).unwrap();
    assert_eq!(v.text, "0.31.1");
    let v = resolve_latest_version("fuel-core", &explicit_versions, Some(Version::parse("0.15.1").unwrap()))
        .unwrap();
    assert_eq!(v.text, "0.15.1");
    let r = resolve_latest_version("fuel-core", &explicit_versions, None);
    assert!(matches!(r, Err(Error::NotFound { .. })));
}

#[test]
fn assembly_skips_failed_fetches_and_keeps_the_rest() {
    let versions = vec![
        Version::parse("0.31.1").unwrap(),
        Version::parse("0.15.1").unwrap(),
    ];
    let plan = plan_latest(&registry(), &versions);
    let hashes = vec![
        Some(String::from("aa11")),
        None,
        Some(String::from("cc33")),
    ];
    let (channel, skipped) = assemble_channel(
        String::from("publisher"),
        String::from("2023-01-12"),
        &plan,
        &hashes,
    );
    assert_eq!(skipped.len(), 1);
    assert_eq!(skipped[0].name, "forc");
    assert_eq!(skipped[0].target, "darwin_arm64");
    assert_eq!(channel.pkg.len(), 2);
    assert_eq!(channel.pkg[0].name, "forc");
    assert_eq!(channel.pkg[0].package.targets.len(), 1);
    assert_eq!(channel.pkg[0].package.targets[0].target, "linux_amd64");
    assert_eq!(channel.pkg[0].package.targets[0].binary.hash, "aa11");
    assert_eq!(channel.pkg[1].name, "fuel-core");
    // the assembled channel serializes and parses back
    let text = serialize(&channel);
    let back = parse(&text).unwrap();
    assert_eq!(serialize(&back), text);
}

#[test]
fn latest_channel_version_lookup() {
    let versions = vec![
        Version::parse("0.31.1").unwrap(),
        Version::parse("0.15.1").unwrap(),
    ];
    let plan = plan_latest(&registry(), &versions);
    let hashes = vec![
        Some(String::from("aa11")),
        Some(String::from("bb22")),
        Some(String::from("cc33")),
    ];
    let (channel, skipped) = assemble_channel(
        String::from("publisher"),
        String::from("2023-01-12"),
        &plan,
        &hashes,
    );
    assert!(skipped.is_empty());
    let v = latest_version_from_channel(&channel, "forc").unwrap();
    assert_eq!(v.text, "0.31.1");
    let r = latest_version_from_channel(&channel, "no-such");
    let msg = r.unwrap_err().message();
    assert_eq!(
        msg,
        "'no-such' is not a valid, downloadable package in the 'latest' channel."
    );
}

#[test]
fn host_triple_detection() {
    let t = TargetTriple::from_host("x86_64", "linux").unwrap();
    assert_eq!(t.text, "x86_64-unknown-linux-gnu");
    let t = TargetTriple::from_host("aarch64", "macos").unwrap();
    assert_eq!(t.text, "aarch64-apple-darwin");
    assert!(TargetTriple::from_host("riscv64", "linux").is_err());
    assert!(TargetTriple::from_host("x86_64", "windows").is_err());
    assert!(TargetTriple::new("").is_err());
    assert!(TargetTriple::new("has.dot").is_err());
}
