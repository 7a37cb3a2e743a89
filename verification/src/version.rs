//! Semantic-version tokens.
//!
//! A `Version` keeps the exact text it was parsed from; validity is decided by
//! the `semver` crate behind a trusted wrapper.
use vstd::prelude::*;

verus! {

/// Whether `s` is a valid semantic-version string.
pub uninterp spec fn semver_ok(s: Seq<char>) -> bool;

/// Relies on semver::Version::parse: whether a version string is accepted
/// depends on its characters alone.
#[verifier::external_body]
fn semver_accepts(s: &str) -> (r: bool)
    ensures
        r == semver_ok(s@),
{
    semver::Version::parse(s).is_ok()
}

/// A validated semantic-version token, kept as its source text.
#[derive(Debug, Clone)]
pub struct Version {
    pub text: String,
}

impl Version {
    /// Parses a version string, accepting exactly what SemVer allows.
    pub fn parse(s: &str) -> (r: Result<Version, crate::errors::Error>)
        ensures
            r is Ok <==> semver_ok(s@),
            r matches Ok(v) ==> v.text@ == s@,
            r matches Err(e) ==> (e matches crate::errors::Error::Resolution { message } && message@
                == "invalid version: "@ + s@),
    {
        if semver_accepts(s) {
            Ok(Version { text: crate::strutil::str_to_string(s) })
        } else {
            Err(
                crate::errors::Error::Resolution {
                    message: crate::strutil::str_concat("invalid version: ", s),
                },
            )
        }
    }

    /// Parses a release tag of the form `v<version>`.
    pub fn from_tag(tag: &str) -> (r: Result<Version, crate::errors::Error>)
        ensures
            r is Ok <==> (tag@.len() >= 1 && tag@[0] == 'v' && semver_ok(
                tag@.subrange(1, tag@.len() as int),
            )),
            r matches Ok(v) ==> v.text@ == tag@.subrange(1, tag@.len() as int),
    {
        proof {
            reveal_strlit("v");
        }
        if !crate::strutil::str_starts_with(tag, "v") {
            proof {
                if tag@.len() >= 1 && tag@[0] == 'v' {
                    assert(tag@.subrange(0, 1) =~= "v"@);
                }
            }
            return Err(
                crate::errors::Error::Resolution {
                    message: crate::strutil::str_concat("invalid release tag: ", tag),
                },
            );
        }
        proof {
            assert(tag@.subrange(0, 1)[0] == tag@[0]);
        }
        let len = vstd::string::StrSliceExecFns::unicode_len(tag);
        let rest = crate::strutil::substr(tag, 1, len);
        match Version::parse(rest.as_str()) {
            Ok(v) => Ok(v),
            Err(_) => Err(
                crate::errors::Error::Resolution {
                    message: crate::strutil::str_concat("invalid release tag: ", tag),
                },
            ),
        }
    }
}

} // verus!
