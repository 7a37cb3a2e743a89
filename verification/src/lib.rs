use vstd::prelude::*;

pub mod build_channel;
pub mod channel;
pub mod components;
pub mod download;
pub mod errors;
pub mod manifest;
pub mod strutil;
pub mod target;
pub mod toolchain;
pub mod version;

verus! {

/// Builds the canonical release-download URL for a repository, release tag and
/// tarball name.
pub fn github_releases_download_url(repo: &str, tag: &str, tarball: &str) -> (r: String)
    ensures
        r@ == crate::download::download_url_spec(repo@, tag@, tarball@),
{
    let s = crate::strutil::str_to_string("https://github.com/FuelLabs/");
    let s1 = crate::strutil::str_concat(s.as_str(), repo);
    let s2 = crate::strutil::str_concat(s1.as_str(), "/releases/download/v");
    let s3 = crate::strutil::str_concat(s2.as_str(), tag);
    let s4 = crate::strutil::str_concat(s3.as_str(), "/");
    let s5 = crate::strutil::str_concat(s4.as_str(), tarball);
    proof {
        assert(s5@ =~= crate::download::download_url_spec(repo@, tag@, tarball@));
    }
    s5
}

} // verus!
