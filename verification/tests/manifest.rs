//! Channel manifest round-trip scenarios.
use fuelup::channel::Channel;
use fuelup::channel::ChannelPackage;
use fuelup::channel::HashedBinary;
use fuelup::channel::Package;
use fuelup::channel::TargetEntry;
use fuelup::manifest::parse;
use fuelup::manifest::parse_lines;
use fuelup::manifest::serialize;
use fuelup::manifest::serialize_lines;
use fuelup::version::Version;

fn sample_channel() -> Channel {
    Channel {
        published_by: String::from("https://github.com/FuelLabs/fuelup/actions/runs/99"),
        date: String::from("2023-01-12"),
        pkg: vec![
            ChannelPackage {
                name: String::from("forc"),
                package: Package {
                    version: String::from("0.31.1"),
                    targets: vec![
                        TargetEntry {
                            target: String::from("linux_amd64"),
                            binary: HashedBinary {
                                url: String::from("https://example.org/forc-linux.tar.gz"),
                                hash: String::from("aa11"),
                            },
                        },
                        TargetEntry {
                            target: String::from("darwin_arm64"),
                            binary: HashedBinary {
                                url: String::from("https://example.org/forc-darwin.tar.gz"),
                                hash: String::from("bb22"),
                            },
                        },
                    ],
                },
            },
            ChannelPackage {
                name: String::from("fuel-core"),
                package: Package {
                    version: String::from("0.15.1"),
                    targets: vec![TargetEntry {
                        target: String::from("linux_amd64"),
                        binary: HashedBinary {
                            url: String::from("https://example.org/fuel-core.tar.gz"),
                            hash: String::from("cc33"),
                        },
                    }],
                },
            },
        ],
    }
}

fn sample_text() -> String {
    String::from("published_by = \"https://github.com/FuelLabs/fuelup/actions/runs/99\"\ndate = \"2023-01-12\"\n[pkg.forc]\nversion = \"0.31.1\"\n[pkg.forc.target.linux_amd64]\nurl = \"https://example.org/forc-linux.tar.gz\"\nhash = \"aa11\"\n[pkg.forc.target.darwin_arm64]\nurl = \"https://example.org/forc-darwin.tar.gz\"\nhash = \"bb22\"\n[pkg.fuel-core]\nversion = \"0.15.1\"\n[pkg.fuel-core.target.linux_amd64]\nurl = \"https://example.org/fuel-core.tar.gz\"\nhash = \"cc33\"\n")
}

#[test]
fn serialize_emits_canonical_text() {
    assert_eq!(serialize(&sample_channel()), sample_text());
}

#[test]
fn parse_reads_the_model_back() {
    let c = parse(&sample_text()).unwrap();
    assert_eq!(c.published_by, "https://github.com/FuelLabs/fuelup/actions/runs/99");
    assert_eq!(c.date, "2023-01-12");
    assert_eq!(c.pkg.len(), 2);
    assert_eq!(c.pkg[0].name, "forc");
    assert_eq!(c.pkg[0].package.version, "0.31.1");
    assert_eq!(c.pkg[0].package.targets.len(), 2);
    assert_eq!(c.pkg[0].package.targets[1].target, "darwin_arm64");
    assert_eq!(c.pkg[0].package.targets[1].binary.hash, "bb22");
    assert_eq!(c.pkg[1].name, "fuel-core");
    assert_eq!(c.pkg[1].package.targets[0].binary.url, "https://example.org/fuel-core.tar.gz");
}

#[test]
fn serialize_after_parse_reproduces_the_text() {
    let text = sample_text();
    let c = parse(&text).unwrap();
    assert_eq!(serialize(&c), text);
}

#[test]
fn serialize_lines_after_parse_lines_reproduces_the_lines() {
    let lines: Vec<String> = sample_text().lines().map(String::from).collect();
    let c = parse_lines(&lines).unwrap();
    assert_eq!(serialize_lines(&c), lines);
}

#[test]
fn parse_rejects_malformed_documents() {
    // no trailing newline on the last line
    assert!(parse("published_by = \"p\"\ndate = \"d\"").is_err());
    // missing header
    assert!(parse("[pkg.forc]\nversion = \"1.0.0\"\n").is_err());
    // a target table before any package table
    assert!(parse(
        "published_by = \"p\"\ndate = \"d\"\n[pkg.forc.target.linux_amd64]\nurl = \"u\"\nhash = \"h\"\n"
    )
    .is_err());
    // a target table under a different package than the last one opened
    assert!(parse(
        "published_by = \"p\"\ndate = \"d\"\n[pkg.forc]\nversion = \"1.0.0\"\n[pkg.fuel-core.target.linux_amd64]\nurl = \"u\"\nhash = \"h\"\n"
    )
    .is_err());
    // a package table without its version line
    assert!(parse("published_by = \"p\"\ndate = \"d\"\n[pkg.forc]\n").is_err());
}

#[test]
fn empty_channel_round_trips() {
    let c = Channel {
        published_by: String::from("p"),
        date: String::from("2024-02-29"),
        pkg: Vec::new(),
    };
    let text = serialize(&c);
    assert_eq!(text, "published_by = \"p\"\ndate = \"2024-02-29\"\n");
    let back = parse(&text).unwrap();
    assert_eq!(serialize(&back), text);
}

#[test]
fn channel_lookup_finds_packages_by_name() {
    let c = sample_channel();
    let p = c.get("fuel-core").unwrap();
    assert_eq!(p.version, "0.15.1");
    assert!(c.get("no-such-package").is_none());
    let te = p.target_entry("linux_amd64").unwrap();
    assert_eq!(te.binary.hash, "cc33");
    assert!(p.target_entry("windows_amd64").is_none());
}

#[test]
fn version_parsing() {
    let v = Version::parse("0.15.1").unwrap();
    assert_eq!(v.text, "0.15.1");
    assert!(Version::parse("0.15.1+nightly.20230111.a5514420e5").is_ok());
    assert!(Version::parse("not-a-version").is_err());
    assert!(Version::parse("").is_err());
    let v = Version::from_tag("v1.2.3").unwrap();
    assert_eq!(v.text, "1.2.3");
    assert!(Version::from_tag("1.2.3").is_err());
    assert!(Version::from_tag("vx.y.z").is_err());
}
