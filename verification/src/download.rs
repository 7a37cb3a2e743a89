//! Download descriptors, the retry policy, and integrity verification.
use vstd::prelude::*;

use sha2::Digest;

verus! {

/// The digest of a byte sequence as 64 lowercase hex characters.
pub uninterp spec fn sha256_hex_of(data: Seq<u8>) -> Seq<char>;

/// Relies on sha2::Sha256 (the Digest impl): the digest of the input bytes
/// alone, 32 bytes long, rendered as 64 lowercase hex characters.
#[verifier::external_body]
pub fn sha256_hex(data: &Vec<u8>) -> (r: String)
    ensures
        r@ == sha256_hex_of(data@),
        r@.len() == 64,
{
    let mut hasher = sha2::Sha256::new();
    hasher.update(data.as_slice());
    format!("{:x}", hasher.finalize())
}

/// Folds an uppercase hex digit to its lowercase form; other characters are
/// kept as they are.
pub open spec fn lower_hex_char(c: char) -> char {
    if c == 'A' {
        'a'
    } else if c == 'B' {
        'b'
    } else if c == 'C' {
        'c'
    } else if c == 'D' {
        'd'
    } else if c == 'E' {
        'e'
    } else if c == 'F' {
        'f'
    } else {
        c
    }
}

/// Case-insensitive equality of two hex digests.
pub open spec fn hex_eq_ci(a: Seq<char>, b: Seq<char>) -> bool {
    a.len() == b.len() && forall|i: int|
        0 <= i < a.len() ==> lower_hex_char(#[trigger] a[i]) == lower_hex_char(b[i])
}

fn lower_hex_char_exec(c: char) -> (r: char)
    ensures
        r == lower_hex_char(c),
{
    if c == 'A' {
        'a'
    } else if c == 'B' {
        'b'
    } else if c == 'C' {
        'c'
    } else if c == 'D' {
        'd'
    } else if c == 'E' {
        'e'
    } else if c == 'F' {
        'f'
    } else {
        c
    }
}

/// Compares two hex digests, ignoring hex-digit case.
pub fn hex_digests_equal(a: &str, b: &str) -> (r: bool)
    ensures
        r == hex_eq_ci(a@, b@),
{
    let alen = vstd::string::StrSliceExecFns::unicode_len(a);
    let blen = vstd::string::StrSliceExecFns::unicode_len(b);
    if alen != blen {
        return false;
    }
    let mut i: usize = 0;
    while i < alen
        invariant
            alen == a@.len(),
            alen == b@.len(),
            i <= alen,
            forall|j: int|
                0 <= j < i ==> lower_hex_char(#[trigger] a@[j]) == lower_hex_char(b@[j]),
        decreases alen - i,
    {
        let ca = lower_hex_char_exec(vstd::string::StrSliceExecFns::get_char(a, i));
        let cb = lower_hex_char_exec(vstd::string::StrSliceExecFns::get_char(b, i));
        if ca != cb {
            return false;
        }
        i = i + 1;
    }
    true
}

/// The verify-then-install gate: compares the computed digest against the
/// declared hash before anything touches the toolchain directory.
///
/// `Ok(true)` means the digest matched a declared hash; `Ok(false)` means no
/// hash was declared, and the caller must surface a warning that integrity
/// was not checked. A declared hash that does not match is fatal.
pub fn check_integrity(declared: &Option<String>, actual: &str) -> (r: Result<
    bool,
    crate::errors::Error,
>)
    ensures
        r is Err <==> (declared matches Some(h) && !hex_eq_ci(h@, actual@)),
        r matches Ok(verified) ==> (match declared {
            Some(h) => verified && hex_eq_ci(h@, actual@),
            None => !verified,
        }),
        r matches Err(e) ==> (e matches crate::errors::Error::Integrity {
            actual: got,
            expected,
        } && got@ == actual@ && expected@ == declared->Some_0@),
{
    match declared {
        None => Ok(false),
        Some(h) => {
            if hex_digests_equal(h.as_str(), actual) {
                Ok(true)
            } else {
                Err(
                    crate::errors::Error::Integrity {
                        actual: crate::strutil::str_to_string(actual),
                        expected: crate::strutil::str_to_string(h.as_str()),
                    },
                )
            }
        },
    }
}

/// The retry configuration of the download engine.
pub struct RetryPolicy {
    /// Total attempts allowed, first try included.
    pub max_attempts: u64,
    /// Delay before a retry when the response named none.
    pub default_delay_secs: u64,
}

impl RetryPolicy {
    /// The engine's fixed policy: four attempts in all, three seconds
    /// between them unless the server asks otherwise.
    pub fn standard() -> (r: RetryPolicy)
        ensures
            r.max_attempts == 4,
            r.default_delay_secs == 3,
    {
        RetryPolicy { max_attempts: 4, default_delay_secs: 3 }
    }
}

/// What one fetch attempt produced.
pub enum AttemptOutcome {
    /// The response body arrived whole.
    Success,
    /// HTTP 404, with the parsed retry-after header if one came.
    NotFoundStatus { retry_after_secs: Option<u64> },
    /// Any other transport or status error.
    FatalError,
}

/// The engine's decision after an attempt.
pub enum NextStep {
    /// Hand the received bytes out.
    Finish,
    /// Sleep this many seconds, then try again.
    RetryAfter { delay_secs: u64 },
    /// Stop: `not_found` tells a spent retry budget from a fatal error.
    GiveUp { not_found: bool },
}

/// Decides what follows attempt number `attempt` (counted from one).
///
/// Only HTTP 404 is retried, until the attempt budget is spent; the delay
/// honors a retry-after header and falls back to the policy's default.
/// Every other error is fatal at once.
pub fn next_step(policy: &RetryPolicy, attempt: u64, outcome: &AttemptOutcome) -> (r: NextStep)
    ensures
        outcome is Success ==> r is Finish,
        outcome is FatalError ==> r == (NextStep::GiveUp { not_found: false }),
        outcome matches AttemptOutcome::NotFoundStatus { retry_after_secs } ==> (
        if attempt < policy.max_attempts {
            r == (NextStep::RetryAfter {
                delay_secs: (match retry_after_secs {
                    Some(d) => *d,
                    None => policy.default_delay_secs,
                }),
            })
        } else {
            r == (NextStep::GiveUp { not_found: true })
        }),
{
    match outcome {
        AttemptOutcome::Success => NextStep::Finish,
        AttemptOutcome::FatalError => NextStep::GiveUp { not_found: false },
        AttemptOutcome::NotFoundStatus { retry_after_secs } => {
            if attempt < policy.max_attempts {
                let delay = match retry_after_secs {
                    Some(d) => *d,
                    None => policy.default_delay_secs,
                };
                NextStep::RetryAfter { delay_secs: delay }
            } else {
                NextStep::GiveUp { not_found: true }
            }
        },
    }
}

/// The fatal error after the engine gave up on a URL: a spent retry budget
/// is a not-found failure; anything else is a network failure.
pub fn give_up_error(not_found: bool, url: &str) -> (r: crate::errors::Error)
    ensures
        not_found ==> (r matches crate::errors::Error::NotFound { message } && message@
            == "Could not download file"@),
        !not_found ==> (r matches crate::errors::Error::Network { message } && message@
            == "Unexpected error downloading "@ + url@),
{
    if not_found {
        crate::errors::Error::NotFound {
            message: crate::strutil::str_to_string("Could not download file"),
        }
    } else {
        crate::errors::Error::Network {
            message: crate::strutil::str_concat("Unexpected error downloading ", url),
        }
    }
}

/// What a tarball is called: `<prefix>[-<version>]-<target>.tar.gz`, the
/// version being left out for the one prefix that is published unversioned.
pub open spec fn tarball_name_spec(prefix: Seq<char>, version: Seq<char>, target: Seq<char>) -> Seq<
    char,
> {
    if prefix == "forc-binaries"@ {
        prefix + "-"@ + target + ".tar.gz"@
    } else {
        prefix + "-"@ + version + "-"@ + target + ".tar.gz"@
    }
}

/// Builds the tarball file name for a component release.
pub fn tarball_name(tarball_prefix: &str, version: &crate::version::Version, target: &crate::target::TargetTriple) -> (r: String)
    ensures
        r@ == tarball_name_spec(tarball_prefix@, version.text@, target.text@),
{
    if crate::strutil::str_eq(tarball_prefix, "forc-binaries") {
        let s1 = crate::strutil::str_concat(tarball_prefix, "-");
        let s2 = crate::strutil::str_concat(s1.as_str(), target.text.as_str());
        let r = crate::strutil::str_concat(s2.as_str(), ".tar.gz");
        proof {
            assert(r@ =~= tarball_name_spec(tarball_prefix@, version.text@, target.text@));
        }
        r
    } else {
        let s1 = crate::strutil::str_concat(tarball_prefix, "-");
        let s2 = crate::strutil::str_concat(s1.as_str(), version.text.as_str());
        let s3 = crate::strutil::str_concat(s2.as_str(), "-");
        let s4 = crate::strutil::str_concat(s3.as_str(), target.text.as_str());
        let r = crate::strutil::str_concat(s4.as_str(), ".tar.gz");
        proof {
            assert(r@ =~= tarball_name_spec(tarball_prefix@, version.text@, target.text@));
        }
        r
    }
}

/// The canonical release-download URL of a tarball.
pub open spec fn download_url_spec(repo: Seq<char>, tag: Seq<char>, tarball: Seq<char>) -> Seq<
    char,
> {
    "https://github.com/FuelLabs/"@ + repo + "/releases/download/v"@ + tag + "/"@ + tarball
}

/// A resolved, ready-to-fetch unit of work.
#[derive(Debug)]
pub struct DownloadCfg {
    pub name: String,
    pub target: crate::target::TargetTriple,
    pub version: crate::version::Version,
    pub tarball_name: String,
    pub tarball_url: String,
    pub hash: Option<String>,
}

impl DownloadCfg {
    /// Builds a descriptor by direct lookup, without a channel: no hash is
    /// declared, so integrity cannot be verified on this path.
    ///
    /// `version` is the explicitly requested version; `latest` is what the
    /// latest-release lookup returned when no version was requested, `None`
    /// when that lookup failed or was not made.
    pub fn new(
        name: &str,
        target: crate::target::TargetTriple,
        version: Option<crate::version::Version>,
        latest: Option<crate::version::Version>,
        registry: &Vec<crate::components::Component>,
    ) -> (r: Result<DownloadCfg, crate::errors::Error>)
        ensures
            r is Ok <==> ((version is Some || latest is Some) && (name@ == "fuelup"@ || exists|i:
            int|
                0 <= i < registry@.len() && (#[trigger] registry@[i]).name@ == name@)),
            r matches Ok(c) ==> {
                let v = if version is Some {
                    version->0
                } else {
                    latest->0
                };
                &&& c.name@ == name@
                &&& c.target == target
                &&& c.version == v
                &&& c.hash is None
                &&& (name@ == "fuelup"@ ==> c.tarball_name@ == tarball_name_spec(
                    "fuelup"@,
                    v.text@,
                    target.text@,
                ) && c.tarball_url@ == download_url_spec("fuelup"@, v.text@, c.tarball_name@))
                &&& (name@ != "fuelup"@ ==> exists|i: int|
                    0 <= i < registry@.len() && (#[trigger] registry@[i]).name@ == name@
                        && c.tarball_name@ == tarball_name_spec(
                        registry@[i].tarball_prefix@,
                        v.text@,
                        target.text@,
                    ) && c.tarball_url@ == download_url_spec(
                        registry@[i].repository_name@,
                        v.text@,
                        c.tarball_name@,
                    ))
            },
            r matches Err(e) ==> (if version is None && latest is None {
                e matches crate::errors::Error::NotFound { message } && message@
                    == "Error getting latest tag for '"@ + name@ + "'"@
            } else {
                e matches crate::errors::Error::Resolution { message } && message@
                    == "Unrecognized component: "@ + name@
            }),
    {
        let v = match version {
            Some(v) => v,
            None => match latest {
                Some(v) => v,
                None => {
                    let m1 = crate::strutil::str_concat("Error getting latest tag for '", name);
                    let message = crate::strutil::str_concat(m1.as_str(), "'");
                    proof {
                        assert(message@ =~= "Error getting latest tag for '"@ + name@ + "'"@);
                    }
                    return Err(crate::errors::Error::NotFound { message });
                },
            },
        };
        if crate::strutil::str_eq(name, "fuelup") {
            let tn = tarball_name("fuelup", &v, &target);
            let tu = crate::github_releases_download_url(
                "fuelup",
                v.text.as_str(),
                tn.as_str(),
            );
            Ok(
                DownloadCfg {
                    name: crate::strutil::str_to_string(name),
                    target,
                    version: v,
                    tarball_name: tn,
                    tarball_url: tu,
                    hash: None,
                },
            )
        } else {
            match crate::components::lookup(registry, name) {
                Some(component) => {
                    let tn = tarball_name(component.tarball_prefix.as_str(), &v, &target);
                    let tu = crate::github_releases_download_url(
                        component.repository_name.as_str(),
                        v.text.as_str(),
                        tn.as_str(),
                    );
                    Ok(
                        DownloadCfg {
                            name: crate::strutil::str_to_string(name),
                            target,
                            version: v,
                            tarball_name: tn,
                            tarball_url: tu,
                            hash: None,
                        },
                    )
                },
                None => {
                    let message = crate::strutil::str_concat("Unrecognized component: ", name);
                    Err(crate::errors::Error::Resolution { message })
                },
            }
        }
    }

    /// Builds a descriptor from a channel package.
    ///
    /// The hash is always present on this path: verification is mandatory
    /// for anything that came out of a channel.
    pub fn from_package(
        name: &str,
        package: &crate::channel::Package,
        target: crate::target::TargetTriple,
    ) -> (r: Result<DownloadCfg, crate::errors::Error>)
        ensures
            r is Ok <==> (crate::version::semver_ok(package.version@) && exists|i: int|
                0 <= i < package.targets@.len() && (#[trigger] package.targets@[i]).target@
                    == target.text@),
            r matches Ok(c) ==> {
                &&& c.hash is Some
                &&& c.name@ == name@
                &&& c.target == target
                &&& c.version.text@ == package.version@
                &&& c.tarball_name@ == tarball_name_spec(name@, package.version@, target.text@)
                &&& exists|i: int|
                    0 <= i < package.targets@.len() && (#[trigger] package.targets@[i]).target@
                        == target.text@ && c.tarball_url@ == package.targets@[i].binary.url@
                        && c.hash->Some_0@ == package.targets@[i].binary.hash@
            },
            r matches Err(e) ==> (if !crate::version::semver_ok(package.version@) {
                e matches crate::errors::Error::Resolution { message } && message@
                    == "invalid version: "@ + package.version@
            } else {
                e matches crate::errors::Error::NotFound { message } && message@ == "no target '"@
                    + target.text@ + "' in package '"@ + name@ + "'"@
            }),
    {
        let version = match crate::version::Version::parse(package.version.as_str()) {
            Ok(v) => v,
            Err(e) => {
                return Err(e);
            },
        };
        let entry = match package.target_entry(target.text.as_str()) {
            Some(te) => te,
            None => {
                let m1 = crate::strutil::str_concat("no target '", target.text.as_str());
                let m2 = crate::strutil::str_concat(m1.as_str(), "' in package '");
                let m3 = crate::strutil::str_concat(m2.as_str(), name);
                let message = crate::strutil::str_concat(m3.as_str(), "'");
                proof {
                    assert(message@ =~= "no target '"@ + target.text@ + "' in package '"@ + name@
                        + "'"@);
                }
                return Err(crate::errors::Error::NotFound { message });
            },
        };
        let tn = tarball_name(name, &version, &target);
        Ok(
            DownloadCfg {
                name: crate::strutil::str_to_string(name),
                target,
                version,
                tarball_name: tn,
                tarball_url: entry.binary.url.clone(),
                hash: Some(entry.binary.hash.clone()),
            },
        )
    }
}


/// The version that the latest channel publishes for a component: the pure
/// half of a latest-version lookup, once the channel itself was fetched.
pub fn latest_version_from_channel(
    channel: &crate::channel::Channel,
    name: &str,
) -> (r: Result<crate::version::Version, crate::errors::Error>)
    ensures
        r is Ok <==> exists|i: int|
            {
                &&& 0 <= i < channel.pkg@.len()
                &&& (#[trigger] channel.pkg@[i]).name@ == name@
                &&& (forall|j: int| 0 <= j < i ==> channel.pkg@[j].name@ != name@)
                &&& crate::version::semver_ok(channel.pkg@[i].package.version@)
            },
        r matches Ok(v) ==> exists|i: int|
            {
                &&& 0 <= i < channel.pkg@.len()
                &&& (#[trigger] channel.pkg@[i]).name@ == name@
                &&& (forall|j: int| 0 <= j < i ==> channel.pkg@[j].name@ != name@)
                &&& v.text@ == channel.pkg@[i].package.version@
            },
        r matches Err(e) ==> (if (forall|i: int|
            0 <= i < channel.pkg@.len() ==> (#[trigger] channel.pkg@[i]).name@ != name@) {
            e matches crate::errors::Error::NotFound { message } && message@ == "'"@ + name@
                + "' is not a valid, downloadable package in the 'latest' channel."@
        } else {
            exists|i: int|
                {
                    &&& 0 <= i < channel.pkg@.len()
                    &&& (#[trigger] channel.pkg@[i]).name@ == name@
                    &&& (forall|j: int| 0 <= j < i ==> channel.pkg@[j].name@ != name@)
                    &&& (e matches crate::errors::Error::Resolution { message } && message@
                        == "invalid version: "@ + channel.pkg@[i].package.version@)
                }
        }),
{
    match channel.get(name) {
        Some(package) => crate::version::Version::parse(package.version.as_str()),
        None => {
            let m1 = crate::strutil::str_concat("'", name);
            let message = crate::strutil::str_concat(
                m1.as_str(),
                "' is not a valid, downloadable package in the 'latest' channel.",
            );
            proof {
                assert(message@ =~= "'"@ + name@
                    + "' is not a valid, downloadable package in the 'latest' channel."@);
            }
            Err(crate::errors::Error::NotFound { message })
        },
    }
}

} // verus!
