//! Building a channel manifest: validating the requested component set,
//! matching release assets against declared tarball prefixes, planning the
//! per-target downloads, and assembling the channel from the digests the
//! fetches produced.
use vstd::prelude::*;

use crate::channel::Channel;
use crate::channel::ChannelPackage;
use crate::channel::HashedBinary;
use crate::channel::Package;
use crate::channel::TargetEntry;
use crate::components::Component;

verus! {

/// Splits a `KEY=value` argument at its first `=`.
pub fn parse_key_val(s: &str) -> (r: Result<(String, String), crate::errors::Error>)
    ensures
        r is Ok <==> (exists|i: int| 0 <= i < s@.len() && s@[i] == '='),
        r matches Ok(kv) ==> exists|i: int|
            {
                &&& 0 <= i < s@.len() && s@[i] == '='
                &&& forall|j: int| 0 <= j < i ==> s@[j] != '='
                &&& kv.0@ == s@.subrange(0, i)
                &&& kv.1@ == s@.subrange(i + 1, s@.len() as int)
            },
        r matches Err(e) ==> (e matches crate::errors::Error::Resolution { message } && message@
            == "invalid KEY=value: no `=` found in `"@ + s@ + "`"@),
{
    match crate::strutil::find_char(s, '=') {
        Some(i) => {
            let len = vstd::string::StrSliceExecFns::unicode_len(s);
            let key = crate::strutil::substr(s, 0, i);
            let value_part = crate::strutil::substr(s, i + 1, len);
            Ok((key, value_part))
        },
        None => {
            let m1 = crate::strutil::str_concat("invalid KEY=value: no `=` found in `", s);
            let message = crate::strutil::str_concat(m1.as_str(), "`");
            proof {
                assert(message@ =~= "invalid KEY=value: no `=` found in `"@ + s@ + "`"@);
            }
            Err(crate::errors::Error::Resolution { message })
        },
    }
}

/// Does the explicit version list carry an entry for this component name?
pub open spec fn has_key(v: Seq<(String, crate::version::Version)>, k: Seq<char>) -> bool {
    exists|i: int| 0 <= i < v.len() && (#[trigger] v[i]).0@ == k
}

fn has_key_exec(v: &Vec<(String, crate::version::Version)>, k: &str) -> (r: bool)
    ensures
        r == has_key(v@, k@),
{
    let mut i: usize = 0;
    while i < v.len()
        invariant
            i <= v@.len(),
            forall|j: int| 0 <= j < i ==> (#[trigger] v@[j]).0@ != k@,
        decreases v@.len() - i,
    {
        if crate::strutil::str_eq(v[i].0.as_str(), k) {
            return true;
        }
        i = i + 1;
    }
    false
}

/// Are the two mandatory components both given explicit versions?
pub fn components_exists(components: &Vec<(String, crate::version::Version)>) -> (r: bool)
    ensures
        r == (has_key(components@, "forc"@) && has_key(components@, "fuel-core"@)),
{
    has_key_exec(components, "forc") && has_key_exec(components, "fuel-core")
}

/// Validates the explicit version set against the channel being built:
/// `nightly` takes none, `latest` must name the compiler and the execution
/// engine, and no other channel can be built.
pub fn validate_components(
    channel: &str,
    components: &Vec<(String, crate::version::Version)>,
) -> (r: Result<(), crate::errors::Error>)
    ensures
        channel@ == "nightly"@ ==> (r is Ok <==> components@.len() == 0),
        channel@ == "latest"@ ==> (r is Ok <==> (has_key(components@, "forc"@) && has_key(
            components@,
            "fuel-core"@,
        ))),
        (channel@ != "nightly"@ && channel@ != "latest"@) ==> r is Err,
        r matches Err(e) ==> (e matches crate::errors::Error::Resolution { message } && (
        if channel@ == "nightly"@ {
            message@ == "Cannot specify versions when building 'nightly' channel"@
        } else if channel@ == "latest"@ {
            message@
                == "You must specify versions for 'forc' and 'fuel-core' when building 'latest' channel"@
        } else {
            message@ == "Invalid channel '"@ + channel@ + "'"@
        })),
{
    proof {
        reveal_strlit("nightly");
        reveal_strlit("latest");
        assert("nightly"@.len() == 7);
        assert("latest"@.len() == 6);
        assert("nightly"@ != "latest"@);
    }
    if crate::strutil::str_eq(channel, "nightly") {
        if components.len() != 0 {
            return Err(
                crate::errors::Error::Resolution {
                    message: crate::strutil::str_to_string(
                        "Cannot specify versions when building 'nightly' channel",
                    ),
                },
            );
        }
        Ok(())
    } else if crate::strutil::str_eq(channel, "latest") {
        if !components_exists(components) {
            return Err(
                crate::errors::Error::Resolution {
                    message: crate::strutil::str_to_string(
                        "You must specify versions for 'forc' and 'fuel-core' when building 'latest' channel",
                    ),
                },
            );
        }
        Ok(())
    } else {
        let m1 = crate::strutil::str_concat("Invalid channel '", channel);
        let message = crate::strutil::str_concat(m1.as_str(), "'");
        proof {
            assert(message@ =~= "Invalid channel '"@ + channel@ + "'"@);
        }
        Err(crate::errors::Error::Resolution { message })
    }
}

/// A release asset: its published name and download URL.
pub struct Asset {
    pub name: String,
    pub url: String,
}

/// An asset name matches a tarball prefix when the prefix starts it and the
/// remaining suffix, its first character skipped, splits on a `-` into a
/// version token followed by text that holds a `.`.
pub open spec fn asset_matches(prefix: Seq<char>, name: Seq<char>) -> bool {
    &&& prefix.len() + 1 < name.len()
    &&& name.subrange(0, prefix.len() as int) == prefix
    &&& exists|p: int|
        {
            &&& prefix.len() + 1 <= p < name.len()
            &&& #[trigger] name[p] == '-'
            &&& (forall|j: int| prefix.len() + 1 <= j < p ==> name[j] != '-')
            &&& exists|q: int| p < q < name.len() && #[trigger] name[q] == '.'
        }
}

/// The version and target tokens of a matching asset name: the version runs
/// from after the skipped character to the first `-`, the target from there
/// to the first following `.`.
pub open spec fn asset_tokens(prefix: Seq<char>, name: Seq<char>, v: Seq<char>, t: Seq<char>) -> bool {
    exists|p: int, q: int|
        {
            &&& prefix.len() + 1 <= p < q < name.len()
            &&& #[trigger] name[p] == '-' && #[trigger] name[q] == '.'
            &&& (forall|j: int| prefix.len() + 1 <= j < p ==> name[j] != '-')
            &&& (forall|j: int| p < j < q ==> name[j] != '.')
            &&& v == name.subrange(prefix.len() as int + 1, p)
            &&& t == name.subrange(p + 1, q)
        }
}

/// Parses the version and target tokens out of an asset name, as far as the
/// declared tarball prefix exactly starts it.
pub fn nightly_entry(tarball_prefix: &str, asset_name: &str) -> (r: Option<(String, String)>)
    ensures
        r is Some <==> asset_matches(tarball_prefix@, asset_name@),
        r matches Some(vt) ==> asset_tokens(tarball_prefix@, asset_name@, vt.0@, vt.1@),
{
    if !crate::strutil::str_starts_with(asset_name, tarball_prefix) {
        return None;
    }
    let nlen = vstd::string::StrSliceExecFns::unicode_len(asset_name);
    let plen = vstd::string::StrSliceExecFns::unicode_len(tarball_prefix);
    if nlen - plen < 2 {
        return None;
    }
    let rest = crate::strutil::substr(asset_name, plen + 1, nlen);
    match crate::strutil::find_char(rest.as_str(), '-') {
        None => {
            proof {
                if asset_matches(tarball_prefix@, asset_name@) {
                    let p = choose|p: int|
                        {
                            &&& tarball_prefix@.len() + 1 <= p < asset_name@.len()
                            &&& #[trigger] asset_name@[p] == '-'
                            &&& (forall|j: int|
                                tarball_prefix@.len() + 1 <= j < p ==> asset_name@[j] != '-')
                            &&& exists|q: int|
                                p < q < asset_name@.len() && #[trigger] asset_name@[q] == '.'
                        };
                    assert(rest@[p - plen - 1] == '-');
                }
            }
            None
        },
        Some(pi) => {
            let rlen = vstd::string::StrSliceExecFns::unicode_len(rest.as_str());
            let tail = crate::strutil::substr(rest.as_str(), pi + 1, rlen);
            match crate::strutil::find_char(tail.as_str(), '.') {
                None => {
                    proof {
                        if asset_matches(tarball_prefix@, asset_name@) {
                            let p = choose|p: int|
                                {
                                    &&& tarball_prefix@.len() + 1 <= p < asset_name@.len()
                                    &&& #[trigger] asset_name@[p] == '-'
                                    &&& (forall|j: int|
                                        tarball_prefix@.len() + 1 <= j < p ==> asset_name@[j]
                                            != '-')
                                    &&& exists|q: int|
                                        p < q < asset_name@.len() && #[trigger] asset_name@[q]
                                            == '.'
                                };
                            assert(p - plen - 1 >= pi) by {
                                if p - plen - 1 < pi {
                                    assert(rest@[p - plen - 1] == '-');
                                }
                            }
                            assert(p - plen - 1 <= pi) by {
                                if p - plen - 1 > pi {
                                    assert(asset_name@[pi + plen + 1] == rest@[pi as int]);
                                }
                            }
                            let q = choose|q: int|
                                p < q < asset_name@.len() && #[trigger] asset_name@[q] == '.';
                            assert(tail@[q - p - 1] == asset_name@[q]);
                        }
                    }
                    None
                },
                Some(qi) => {
                    let version_tok = crate::strutil::substr(rest.as_str(), 0, pi);
                    let target_tok = crate::strutil::substr(tail.as_str(), 0, qi);
                    proof {
                        let p = pi + plen + 1;
                        let q = p + 1 + qi;
                        assert(asset_name@[p] == rest@[pi as int]);
                        assert forall|j: int|
                            tarball_prefix@.len() + 1 <= j < p implies asset_name@[j] != '-' by {
                            assert(asset_name@[j] == rest@[j - plen - 1]);
                        }
                        assert forall|j: int| p < j < q implies asset_name@[j] != '.' by {
                            assert(asset_name@[j] == tail@[j - p - 1]);
                        }
                        assert(asset_name@[q] == tail@[qi as int]);
                        assert(version_tok@ =~= asset_name@.subrange(plen + 1, p));
                        assert(target_tok@ =~= asset_name@.subrange(p + 1, q));
                        assert(asset_tokens(
                            tarball_prefix@,
                            asset_name@,
                            version_tok@,
                            target_tok@,
                        ));
                        assert(asset_matches(tarball_prefix@, asset_name@));
                    }
                    Some((version_tok, target_tok))
                },
            }
        },
    }
}

/// One planned per-target download of a channel build.
pub struct PlannedEntry {
    pub name: String,
    pub version: String,
    pub target: String,
    pub url: String,
}

/// `e` records a match of asset `a` against component `c`: the component's
/// name, the tokens parsed from the asset name, and the asset's URL.
pub open spec fn entry_for(c: Component, a: Asset, e: PlannedEntry) -> bool {
    &&& e.name@ == c.name@
    &&& e.url@ == a.url@
    &&& asset_tokens(c.tarball_prefix@, a.name@, e.version@, e.target@)
}

/// `e` comes from some declared component and some offered asset.
pub open spec fn entry_sound(components: Seq<Component>, assets: Seq<Asset>, e: PlannedEntry) -> bool {
    exists|i: int, j: int|
        0 <= i < assets.len() && 0 <= j < components.len() && entry_for(
            #[trigger] components[j],
            #[trigger] assets[i],
            e,
        )
}

/// Some planned entry records the match of `a` against `c`.
pub open spec fn pair_planned(r: Seq<PlannedEntry>, c: Component, a: Asset) -> bool {
    exists|k: int| 0 <= k < r.len() && entry_for(c, a, #[trigger] r[k])
}

/// Plans the nightly channel: every release asset is held against every
/// declared component, and each prefix match yields one planned download;
/// assets that match no declared prefix are silently skipped.
pub fn plan_nightly(components: &Vec<Component>, assets: &Vec<Asset>) -> (r: Vec<PlannedEntry>)
    ensures
        forall|k: int|
            0 <= k < r@.len() ==> entry_sound(components@, assets@, #[trigger] r@[k]),
        forall|i: int, j: int|
            0 <= i < assets@.len() && 0 <= j < components@.len() && asset_matches(
                (#[trigger] components@[j]).tarball_prefix@,
                (#[trigger] assets@[i]).name@,
            ) ==> pair_planned(r@, components@[j], assets@[i]),
{
    let mut r: Vec<PlannedEntry> = Vec::new();
    let mut i: usize = 0;
    while i < assets.len()
        invariant
            i <= assets@.len(),
            forall|k: int|
                0 <= k < r@.len() ==> entry_sound(components@, assets@, #[trigger] r@[k]),
            forall|ii: int, jj: int|
                0 <= ii < i && 0 <= jj < components@.len() && asset_matches(
                    (#[trigger] components@[jj]).tarball_prefix@,
                    (#[trigger] assets@[ii]).name@,
                ) ==> pair_planned(r@, components@[jj], assets@[ii]),
        decreases assets@.len() - i,
    {
        let asset = &assets[i];
        let mut j: usize = 0;
        while j < components.len()
            invariant
                i < assets@.len(),
                j <= components@.len(),
                asset == assets@[i as int],
                forall|k: int|
                    0 <= k < r@.len() ==> entry_sound(components@, assets@, #[trigger] r@[k]),
                forall|ii: int, jj: int|
                    0 <= ii < i && 0 <= jj < components@.len() && asset_matches(
                        (#[trigger] components@[jj]).tarball_prefix@,
                        (#[trigger] assets@[ii]).name@,
                    ) ==> pair_planned(r@, components@[jj], assets@[ii]),
                forall|jj: int|
                    0 <= jj < j && asset_matches(
                        (#[trigger] components@[jj]).tarball_prefix@,
                        assets@[i as int].name@,
                    ) ==> pair_planned(r@, components@[jj], assets@[i as int]),
            decreases components@.len() - j,
        {
            let component = &components[j];
            match nightly_entry(component.tarball_prefix.as_str(), asset.name.as_str()) {
                Some(vt) => {
                    let e = PlannedEntry {
                        name: crate::strutil::str_to_string(component.name.as_str()),
                        version: vt.0,
                        target: vt.1,
                        url: crate::strutil::str_to_string(asset.url.as_str()),
                    };
                    let ghost r0: Seq<PlannedEntry> = r@;
                    proof {
                        assert(entry_for(components@[j as int], assets@[i as int], e));
                    }
                    r.push(e);
                    proof {
                        assert(r@ == r0.push(e));
                        assert(r@[r@.len() - 1] == e);
                        assert(entry_sound(components@, assets@, e));
                        assert forall|k: int|
                            0 <= k < r@.len() implies entry_sound(
                            components@,
                            assets@,
                            #[trigger] r@[k],
                        ) by {
                            if k < r0.len() {
                                assert(r@[k] == r0[k]);
                            }
                        }
                        assert forall|c: Component, a: Asset|
                            pair_planned(r0, c, a) implies #[trigger] pair_planned(r@, c, a) by {
                            let k = choose|k: int| 0 <= k < r0.len() && entry_for(c, a, #[trigger] r0[k]);
                            assert(r@[k] == r0[k]);
                            assert(entry_for(c, a, r@[k]));
                        }
                        assert(pair_planned(r@, components@[j as int], assets@[i as int])) by {
                            assert(entry_for(components@[j as int], assets@[i as int], r@[r@.len() - 1]));
                        }
                    }
                },
                None => {
                    proof {
                        if asset_matches(components@[j as int].tarball_prefix@, assets@[i as int].name@) {
                            assert(false);
                        }
                    }
                },
            }
            j = j + 1;
        }
        i = i + 1;
    }
    r
}

/// The version a latest-channel component is built with: the explicitly
/// supplied one where one was given, else the latest-release version the
/// caller looked up; with neither, the build of this component fails.
pub fn resolve_latest_version(
    name: &str,
    explicit: &Vec<(String, crate::version::Version)>,
    fetched: Option<crate::version::Version>,
) -> (r: Result<crate::version::Version, crate::errors::Error>)
    ensures
        r is Ok <==> (has_key(explicit@, name@) || fetched is Some),
        r matches Ok(v) ==> (if has_key(explicit@, name@) {
            exists|i: int|
                {
                    &&& 0 <= i < explicit@.len()
                    &&& (#[trigger] explicit@[i]).0@ == name@
                    &&& v.text@ == explicit@[i].1.text@
                    &&& forall|j: int| 0 <= j < i ==> explicit@[j].0@ != name@
                }
        } else {
            v == fetched->0
        }),
{
    let mut i: usize = 0;
    while i < explicit.len()
        invariant
            i <= explicit@.len(),
            forall|j: int| 0 <= j < i ==> (#[trigger] explicit@[j]).0@ != name@,
        decreases explicit@.len() - i,
    {
        if crate::strutil::str_eq(explicit[i].0.as_str(), name) {
            proof {
                assert(explicit@[i as int].0@ == name@);
            }
            return Ok(
                crate::version::Version {
                    text: crate::strutil::str_to_string(explicit[i].1.text.as_str()),
                },
            );
        }
        i = i + 1;
    }
    match fetched {
        Some(v) => Ok(v),
        None => {
            let m1 = crate::strutil::str_concat("Error getting latest tag for '", name);
            let message = crate::strutil::str_concat(m1.as_str(), "'");
            Err(crate::errors::Error::NotFound { message })
        },
    }
}

/// The tag prefix a latest-channel component publishes under: the compiler
/// ships as its binaries bundle, every other component under its own name.
pub open spec fn latest_prefix(name: Seq<char>) -> Seq<char> {
    if name == "forc"@ {
        "forc-binaries"@
    } else {
        name
    }
}

/// `e` is the planned download of component `c` at version `v` for target
/// `t` in the latest channel: the canonical tarball name and release URL.
pub open spec fn latest_entry_ok(c: Component, v: Seq<char>, t: Seq<char>, e: PlannedEntry) -> bool {
    &&& e.name@ == c.name@
    &&& e.version@ == v
    &&& e.target@ == t
    &&& e.url@ == crate::download::download_url_spec(
        c.repository_name@,
        v,
        crate::download::tarball_name_spec(latest_prefix(c.name@), v, t),
    )
}

/// Some planned entry is the latest-channel download of `c` for target `t`.
pub open spec fn latest_planned(r: Seq<PlannedEntry>, c: Component, v: Seq<char>, t: Seq<char>) -> bool {
    exists|k: int| 0 <= k < r.len() && latest_entry_ok(c, v, t, #[trigger] r[k])
}

/// `e` is the latest-channel download of some declared component and target.
pub open spec fn latest_sound(components: Seq<Component>, versions: Seq<crate::version::Version>, e: PlannedEntry) -> bool {
    exists|j: int, ti: int|
        0 <= j < components.len() && 0 <= ti < (#[trigger] components[j]).targets@.len()
            && latest_entry_ok(
            components[j],
            versions[j].text@,
            #[trigger] components[j].targets@[ti]@,
            e,
        )
}

/// Plans the latest channel: one download per declared component and target,
/// at the version the caller resolved for that component.
pub fn plan_latest(components: &Vec<Component>, versions: &Vec<crate::version::Version>) -> (r:
    Vec<PlannedEntry>)
    requires
        components@.len() == versions@.len(),
    ensures
        forall|k: int|
            0 <= k < r@.len() ==> latest_sound(components@, versions@, #[trigger] r@[k]),
        forall|j: int, ti: int|
            0 <= j < components@.len() && 0 <= ti < (#[trigger] components@[j]).targets@.len()
                ==> latest_planned(
                r@,
                components@[j],
                versions@[j].text@,
                (#[trigger] components@[j].targets@[ti])@,
            ),
{
    let mut r: Vec<PlannedEntry> = Vec::new();
    let mut j: usize = 0;
    while j < components.len()
        invariant
            components@.len() == versions@.len(),
            j <= components@.len(),
            forall|k: int|
                0 <= k < r@.len() ==> latest_sound(components@, versions@, #[trigger] r@[k]),
            forall|jj: int, ti: int|
                0 <= jj < j && 0 <= ti < (#[trigger] components@[jj]).targets@.len()
                    ==> latest_planned(
                    r@,
                    components@[jj],
                    versions@[jj].text@,
                    (#[trigger] components@[jj].targets@[ti])@,
                ),
        decreases components@.len() - j,
    {
        let component = &components[j];
        let version = &versions[j];
        let mut ti: usize = 0;
        while ti < component.targets.len()
            invariant
                components@.len() == versions@.len(),
                j < components@.len(),
                ti <= component.targets@.len(),
                component == components@[j as int],
                version == versions@[j as int],
                forall|k: int|
                    0 <= k < r@.len() ==> latest_sound(components@, versions@, #[trigger] r@[k]),
                forall|jj: int, tii: int|
                    0 <= jj < j && 0 <= tii < (#[trigger] components@[jj]).targets@.len()
                        ==> latest_planned(
                        r@,
                        components@[jj],
                        versions@[jj].text@,
                        (#[trigger] components@[jj].targets@[tii])@,
                    ),
                forall|tii: int|
                    0 <= tii < ti ==> latest_planned(
                        r@,
                        components@[j as int],
                        versions@[j as int].text@,
                        (#[trigger] components@[j as int].targets@[tii])@,
                    ),
            decreases component.targets@.len() - ti,
        {
            let target_text = crate::strutil::str_to_string(component.targets[ti].as_str());
            let triple = crate::target::TargetTriple {
                text: crate::strutil::str_to_string(target_text.as_str()),
            };
            let prefix: &str = if crate::strutil::str_eq(component.name.as_str(), "forc") {
                "forc-binaries"
            } else {
                component.name.as_str()
            };
            let tarball = crate::download::tarball_name(prefix, version, &triple);
            let url = crate::github_releases_download_url(
                component.repository_name.as_str(),
                version.text.as_str(),
                tarball.as_str(),
            );
            proof {
                assert(prefix@ == latest_prefix(component.name@));
                assert(url@ =~= crate::download::download_url_spec(
                    component.repository_name@,
                    version.text@,
                    tarball@,
                ));
            }
            let e = PlannedEntry {
                name: crate::strutil::str_to_string(component.name.as_str()),
                version: crate::strutil::str_to_string(version.text.as_str()),
                target: target_text,
                url,
            };
            let ghost r0: Seq<PlannedEntry> = r@;
            proof {
                assert(latest_entry_ok(
                    components@[j as int],
                    versions@[j as int].text@,
                    components@[j as int].targets@[ti as int]@,
                    e,
                ));
            }
            r.push(e);
            proof {
                assert(r@ == r0.push(e));
                assert(r@[r@.len() - 1] == e);
                assert(latest_sound(components@, versions@, e)) by {
                    assert((j as int) < components@.len());
                    assert((ti as int) < components@[j as int].targets@.len());
                    assert(latest_entry_ok(
                        components@[j as int],
                        versions@[j as int].text@,
                        components@[j as int].targets@[ti as int]@,
                        e,
                    ));
                }
                assert forall|k: int|
                    0 <= k < r@.len() implies latest_sound(
                    components@,
                    versions@,
                    #[trigger] r@[k],
                ) by {
                    if k < r0.len() {
                        assert(r@[k] == r0[k]);
                    } else {
                        assert(r@[k] == e);
                    }
                }
                assert forall|c: Component, v: Seq<char>, t: Seq<char>|
                    latest_planned(r0, c, v, t) implies #[trigger] latest_planned(r@, c, v, t) by {
                    let k = choose|k: int|
                        0 <= k < r0.len() && latest_entry_ok(c, v, t, #[trigger] r0[k]);
                    assert(r@[k] == r0[k]);
                    assert(latest_entry_ok(c, v, t, r@[k]));
                }
                assert(latest_planned(
                    r@,
                    components@[j as int],
                    versions@[j as int].text@,
                    components@[j as int].targets@[ti as int]@,
                )) by {
                    assert(latest_entry_ok(
                        components@[j as int],
                        versions@[j as int].text@,
                        components@[j as int].targets@[ti as int]@,
                        r@[r@.len() - 1],
                    ));
                }
                assert forall|k: int| 0 <= k < r@.len() - 1 implies r@[k] == r0[k] by {}
            }
            ti = ti + 1;
        }
        j = j + 1;
    }
    r
}


/// The view tuple of a planned entry: name, version, target, URL.
pub open spec fn entry_views(e: PlannedEntry) -> (Seq<char>, Seq<char>, Seq<char>, Seq<char>) {
    (e.name@, e.version@, e.target@, e.url@)
}

/// The entries whose fetch produced no digest, in plan order.
pub open spec fn skipped_spec(entries: Seq<PlannedEntry>, hashes: Seq<Option<String>>) -> Seq<
    (Seq<char>, Seq<char>, Seq<char>, Seq<char>),
>
    decreases entries.len(),
{
    if entries.len() == 0 {
        Seq::empty()
    } else {
        let prior = skipped_spec(entries.drop_last(), hashes.drop_last());
        if hashes.len() == entries.len() && hashes.last() is None {
            prior.push(entry_views(entries.last()))
        } else {
            prior
        }
    }
}

/// The package stems from some fetched entry: same name, same version.
pub open spec fn pkg_from_entry(
    entries: Seq<PlannedEntry>,
    hashes: Seq<Option<String>>,
    cp: ChannelPackage,
) -> bool {
    exists|k: int|
        0 <= k < entries.len() && (#[trigger] hashes[k]) is Some && cp.name@ == entries[k].name@
            && cp.package.version@ == entries[k].version@
}

/// The target entry of a package named `name` stems from some planned entry
/// whose fetch produced a hash: same name, target, URL and hash.
pub open spec fn entry_backed(
    entries: Seq<PlannedEntry>,
    hashes: Seq<Option<String>>,
    name: Seq<char>,
    te: TargetEntry,
) -> bool {
    exists|k: int|
        {
            &&& 0 <= k < entries.len()
            &&& (#[trigger] hashes[k]) is Some
            &&& entries[k].name@ == name
            &&& entries[k].target@ == te.target@
            &&& entries[k].url@ == te.binary.url@
            &&& hashes[k]->0@ == te.binary.hash@
        }
}

/// Some package carries this name, target, URL and hash.
pub open spec fn pkgs_have_entry(
    ps: Seq<ChannelPackage>,
    name: Seq<char>,
    target: Seq<char>,
    url: Seq<char>,
    hash: Seq<char>,
) -> bool {
    exists|pi: int, ti: int|
        {
            &&& 0 <= pi < ps.len()
            &&& (#[trigger] ps[pi]).name@ == name
            &&& 0 <= ti < ps[pi].package.targets@.len()
            &&& (#[trigger] ps[pi].package.targets@[ti]).target@ == target
            &&& ps[pi].package.targets@[ti].binary.url@ == url
            &&& ps[pi].package.targets@[ti].binary.hash@ == hash
        }
}

fn find_pkg(pkg: &Vec<ChannelPackage>, name: &str) -> (r: Option<usize>)
    ensures
        match r {
            Some(i) => i < pkg@.len() && pkg@[i as int].name@ == name@,
            None => forall|i: int| 0 <= i < pkg@.len() ==> (#[trigger] pkg@[i]).name@ != name@,
        },
{
    let mut i: usize = 0;
    while i < pkg.len()
        invariant
            i <= pkg@.len(),
            forall|j: int| 0 <= j < i ==> (#[trigger] pkg@[j]).name@ != name@,
        decreases pkg@.len() - i,
    {
        if crate::strutil::str_eq(pkg[i].name.as_str(), name) {
            return Some(i);
        }
        i = i + 1;
    }
    None
}

/// Assembles a channel from the planned downloads and the digest each live
/// fetch produced. A failed fetch (`None`) does not abort the build: that
/// target's entry is left out of the manifest and reported in the skipped
/// list, in plan order.
pub fn assemble_channel(
    published_by: String,
    date: String,
    entries: &Vec<PlannedEntry>,
    hashes: &Vec<Option<String>>,
) -> (r: (Channel, Vec<PlannedEntry>))
    requires
        entries@.len() == hashes@.len(),
    ensures
        r.0.published_by == published_by,
        r.0.date == date,
        forall|a: int, b: int|
            0 <= a < b < r.0.pkg@.len() ==> (#[trigger] r.0.pkg@[a]).name@ != (
            #[trigger] r.0.pkg@[b]).name@,
        forall|k: int|
            0 <= k < entries@.len() && (#[trigger] hashes@[k]) is Some ==> pkgs_have_entry(
                r.0.pkg@,
                entries@[k].name@,
                entries@[k].target@,
                entries@[k].url@,
                hashes@[k]->0@,
            ),
        forall|pi: int|
            0 <= pi < r.0.pkg@.len() ==> pkg_from_entry(entries@, hashes@, #[trigger] r.0.pkg@[pi]),
        forall|pi: int, ti: int|
            0 <= pi < r.0.pkg@.len() && 0 <= ti < (#[trigger] r.0.pkg@[pi]).package.targets@.len()
                ==> entry_backed(
                entries@,
                hashes@,
                r.0.pkg@[pi].name@,
                (#[trigger] r.0.pkg@[pi].package.targets@[ti]),
            ),
        (r.1)@.map_values(|e: PlannedEntry| entry_views(e)) == skipped_spec(entries@, hashes@),
{
    let mut pkg: Vec<ChannelPackage> = Vec::new();
    let mut skipped: Vec<PlannedEntry> = Vec::new();
    let mut k: usize = 0;
    while k < entries.len()
        invariant
            entries@.len() == hashes@.len(),
            k <= entries@.len(),
            forall|a: int, b: int|
                0 <= a < b < pkg@.len() ==> (#[trigger] pkg@[a]).name@ != (
                #[trigger] pkg@[b]).name@,
            forall|kk: int|
                0 <= kk < k && (#[trigger] hashes@[kk]) is Some ==> pkgs_have_entry(
                    pkg@,
                    entries@[kk].name@,
                    entries@[kk].target@,
                    entries@[kk].url@,
                    hashes@[kk]->0@,
                ),
            forall|pi: int|
                0 <= pi < pkg@.len() ==> pkg_from_entry(
                    entries@.take(k as int),
                    hashes@.take(k as int),
                    #[trigger] pkg@[pi],
                ),
            forall|pi: int, ti: int|
                0 <= pi < pkg@.len() && 0 <= ti < (#[trigger] pkg@[pi]).package.targets@.len()
                    ==> entry_backed(
                    entries@.take(k as int),
                    hashes@.take(k as int),
                    pkg@[pi].name@,
                    (#[trigger] pkg@[pi].package.targets@[ti]),
                ),
            skipped@.map_values(|e: PlannedEntry| entry_views(e)) == skipped_spec(
                entries@.take(k as int),
                hashes@.take(k as int),
            ),
        decreases entries@.len() - k,
    {
        let entry = &entries[k];
        let ghost pkg0: Seq<ChannelPackage> = pkg@;
        match &hashes[k] {
            None => {
                let copy = PlannedEntry {
                    name: crate::strutil::str_to_string(entry.name.as_str()),
                    version: crate::strutil::str_to_string(entry.version.as_str()),
                    target: crate::strutil::str_to_string(entry.target.as_str()),
                    url: crate::strutil::str_to_string(entry.url.as_str()),
                };
                skipped.push(copy);
                proof {
                    assert forall|pi: int, ti: int|
                        0 <= pi < pkg@.len() && 0 <= ti < (#[trigger] pkg@[pi]).package.targets@.len()
                            implies entry_backed(
                        entries@.take(k + 1),
                        hashes@.take(k + 1),
                        pkg@[pi].name@,
                        (#[trigger] pkg@[pi].package.targets@[ti]),
                    ) by {
                        if entry_backed(
                            entries@.take(k as int),
                            hashes@.take(k as int),
                            pkg@[pi].name@,
                            pkg@[pi].package.targets@[ti],
                        ) {
                            let kk = choose|kk: int|
                                {
                                    &&& 0 <= kk < entries@.take(k as int).len()
                                    &&& (#[trigger] hashes@.take(k as int)[kk]) is Some
                                    &&& entries@.take(k as int)[kk].name@ == pkg@[pi].name@
                                    &&& entries@.take(k as int)[kk].target@ == pkg@[pi].package.targets@[ti].target@
                                    &&& entries@.take(k as int)[kk].url@ == pkg@[pi].package.targets@[ti].binary.url@
                                    &&& hashes@.take(k as int)[kk]->0@ == pkg@[pi].package.targets@[ti].binary.hash@
                                };
                            assert(entries@.take(k + 1)[kk] == entries@[kk]);
                            assert(hashes@.take(k + 1)[kk] == hashes@[kk]);
                        }
                    }
                    assert forall|pi: int| 0 <= pi < pkg@.len() implies pkg_from_entry(
                        entries@.take(k + 1),
                        hashes@.take(k + 1),
                        #[trigger] pkg@[pi],
                    ) by {
                        let kk = choose|kk: int|
                            0 <= kk < entries@.take(k as int).len() && (#[trigger] hashes@.take(
                                k as int,
                            )[kk]) is Some && pkg@[pi].name@ == entries@.take(k as int)[kk].name@
                                && pkg@[pi].package.version@ == entries@.take(
                                k as int,
                            )[kk].version@;
                        assert(hashes@.take(k + 1)[kk] is Some);
                        assert(entries@.take(k + 1)[kk] == entries@[kk]);
                    }
                    assert(entries@.take(k + 1).drop_last() =~= entries@.take(k as int));
                    assert(hashes@.take(k + 1).drop_last() =~= hashes@.take(k as int));
                    assert(entries@.take(k + 1).last() == entries@[k as int]);
                    assert(hashes@.take(k + 1).last() == hashes@[k as int]);
                    assert(entry_views(copy) == entry_views(entries@[k as int]));
                    assert(skipped@.map_values(|e: PlannedEntry| entry_views(e)) =~= skipped_spec(
                        entries@.take(k + 1),
                        hashes@.take(k + 1),
                    ));
                }
            },
            Some(h) => {
                let te = TargetEntry {
                    target: crate::strutil::str_to_string(entry.target.as_str()),
                    binary: HashedBinary {
                        url: crate::strutil::str_to_string(entry.url.as_str()),
                        hash: crate::strutil::str_to_string(h.as_str()),
                    },
                };
                match find_pkg(&pkg, entry.name.as_str()) {
                    Some(pi) => {
                        let mut cp = pkg.remove(pi);
                        let ghost cp0 = pkg0[pi as int];
                        cp.package.targets.push(te);
                        pkg.insert(pi, cp);
                        proof {
                            assert(pkg@ =~= pkg0.update(pi as int, cp));
                            assert(cp.package.targets@ == cp0.package.targets@.push(te));
                            assert forall|kk: int|
                                0 <= kk < k && (#[trigger] hashes@[kk]) is Some implies pkgs_have_entry(
                                pkg@,
                                entries@[kk].name@,
                                entries@[kk].target@,
                                entries@[kk].url@,
                                hashes@[kk]->0@,
                            ) by {
                                let (wpi, wti): (int, int) = choose|wpi: int, wti: int|
                                    {
                                        &&& 0 <= wpi < pkg0.len()
                                        &&& (#[trigger] pkg0[wpi]).name@ == entries@[kk].name@
                                        &&& 0 <= wti < pkg0[wpi].package.targets@.len()
                                        &&& (#[trigger] pkg0[wpi].package.targets@[wti]).target@
                                            == entries@[kk].target@
                                        &&& pkg0[wpi].package.targets@[wti].binary.url@
                                            == entries@[kk].url@
                                        &&& pkg0[wpi].package.targets@[wti].binary.hash@
                                            == hashes@[kk]->0@
                                    };
                                if wpi == pi {
                                    assert(pkg@[wpi].package.targets@[wti]
                                        == pkg0[wpi].package.targets@[wti]);
                                } else {
                                    assert(pkg@[wpi] == pkg0[wpi]);
                                }
                            }
                            let ghost nti = pkg@[pi as int].package.targets@.len() - 1;
                            assert(pkg@[pi as int].package.targets@[nti] == te);
                            assert(pkgs_have_entry(
                                pkg@,
                                entries@[k as int].name@,
                                entries@[k as int].target@,
                                entries@[k as int].url@,
                                hashes@[k as int]->0@,
                            ));
                            assert forall|xpi: int, xti: int|
                                0 <= xpi < pkg@.len() && 0 <= xti < (
                            #[trigger] pkg@[xpi]).package.targets@.len() implies entry_backed(
                                entries@.take(k + 1),
                                hashes@.take(k + 1),
                                pkg@[xpi].name@,
                                (#[trigger] pkg@[xpi].package.targets@[xti]),
                            ) by {
                                assert(entries@.take(k + 1)[k as int] == entries@[k as int]);
                                assert(hashes@.take(k + 1)[k as int] == hashes@[k as int]);
                                if xpi == pi as int && xti == pkg@[xpi].package.targets@.len()
                                    - 1 {
                                    assert(pkg@[xpi].package.targets@[xti] == te);
                                    assert(pkg@[xpi].name@ == entries@[k as int].name@);
                                } else {
                                    assert(pkg@[xpi].name@ == pkg0[xpi].name@);
                                    assert(pkg@[xpi].package.targets@[xti]
                                        == pkg0[xpi].package.targets@[xti]);
                                    let kk = choose|kk: int|
                                        {
                                            &&& 0 <= kk < entries@.take(k as int).len()
                                            &&& (#[trigger] hashes@.take(k as int)[kk]) is Some
                                            &&& entries@.take(k as int)[kk].name@ == pkg0[
                                                xpi].name@
                                            &&& entries@.take(k as int)[kk].target@ == pkg0[
                                                xpi].package.targets@[xti].target@
                                            &&& entries@.take(k as int)[kk].url@ == pkg0[
                                                xpi].package.targets@[xti].binary.url@
                                            &&& hashes@.take(k as int)[kk]->0@ == pkg0[
                                                xpi].package.targets@[xti].binary.hash@
                                        };
                                    assert(entries@.take(k + 1)[kk] == entries@[kk]);
                                    assert(hashes@.take(k + 1)[kk] == hashes@[kk]);
                                }
                            }
                        }
                    },
                    None => {
                        let mut targets: Vec<TargetEntry> = Vec::new();
                        targets.push(te);
                        let cp = ChannelPackage {
                            name: crate::strutil::str_to_string(entry.name.as_str()),
                            package: Package {
                                version: crate::strutil::str_to_string(entry.version.as_str()),
                                targets,
                            },
                        };
                        pkg.push(cp);
                        proof {
                            assert(pkg@ == pkg0.push(cp));
                            assert(pkg@[pkg@.len() - 1] == cp);
                            assert forall|kk: int|
                                0 <= kk < k && (#[trigger] hashes@[kk]) is Some implies pkgs_have_entry(
                                pkg@,
                                entries@[kk].name@,
                                entries@[kk].target@,
                                entries@[kk].url@,
                                hashes@[kk]->0@,
                            ) by {
                                let (wpi, wti): (int, int) = choose|wpi: int, wti: int|
                                    {
                                        &&& 0 <= wpi < pkg0.len()
                                        &&& (#[trigger] pkg0[wpi]).name@ == entries@[kk].name@
                                        &&& 0 <= wti < pkg0[wpi].package.targets@.len()
                                        &&& (#[trigger] pkg0[wpi].package.targets@[wti]).target@
                                            == entries@[kk].target@
                                        &&& pkg0[wpi].package.targets@[wti].binary.url@
                                            == entries@[kk].url@
                                        &&& pkg0[wpi].package.targets@[wti].binary.hash@
                                            == hashes@[kk]->0@
                                    };
                                assert(pkg@[wpi] == pkg0[wpi]);
                            }
                            assert(pkg@[pkg@.len() - 1].package.targets@[0] == te);
                            assert(pkgs_have_entry(
                                pkg@,
                                entries@[k as int].name@,
                                entries@[k as int].target@,
                                entries@[k as int].url@,
                                hashes@[k as int]->0@,
                            ));
                            assert forall|xpi: int, xti: int|
                                0 <= xpi < pkg@.len() && 0 <= xti < (
                            #[trigger] pkg@[xpi]).package.targets@.len() implies entry_backed(
                                entries@.take(k + 1),
                                hashes@.take(k + 1),
                                pkg@[xpi].name@,
                                (#[trigger] pkg@[xpi].package.targets@[xti]),
                            ) by {
                                assert(entries@.take(k + 1)[k as int] == entries@[k as int]);
                                assert(hashes@.take(k + 1)[k as int] == hashes@[k as int]);
                                if xpi == pkg@.len() - 1 {
                                    assert(pkg@[xpi].package.targets@[xti] == te);
                                    assert(pkg@[xpi].name@ == entries@[k as int].name@);
                                } else {
                                    assert(pkg@[xpi] == pkg0[xpi]);
                                    let kk = choose|kk: int|
                                        {
                                            &&& 0 <= kk < entries@.take(k as int).len()
                                            &&& (#[trigger] hashes@.take(k as int)[kk]) is Some
                                            &&& entries@.take(k as int)[kk].name@ == pkg0[
                                                xpi].name@
                                            &&& entries@.take(k as int)[kk].target@ == pkg0[
                                                xpi].package.targets@[xti].target@
                                            &&& entries@.take(k as int)[kk].url@ == pkg0[
                                                xpi].package.targets@[xti].binary.url@
                                            &&& hashes@.take(k as int)[kk]->0@ == pkg0[
                                                xpi].package.targets@[xti].binary.hash@
                                        };
                                    assert(entries@.take(k + 1)[kk] == entries@[kk]);
                                    assert(hashes@.take(k + 1)[kk] == hashes@[kk]);
                                }
                            }
                        }
                    },
                }
                proof {
                    assert forall|pi: int| 0 <= pi < pkg@.len() implies pkg_from_entry(
                        entries@.take(k + 1),
                        hashes@.take(k + 1),
                        #[trigger] pkg@[pi],
                    ) by {
                        if pkg@[pi].name@ == entries@[k as int].name@ && pkg@[pi].package.version@
                            == entries@[k as int].version@ {
                            assert(entries@.take(k + 1)[k as int] == entries@[k as int]);
                            assert(hashes@.take(k + 1)[k as int] is Some);
                        } else {
                            assert(pkg_from_entry(
                                entries@.take(k as int),
                                hashes@.take(k as int),
                                pkg0[pi],
                            ));
                            let kk = choose|kk: int|
                                0 <= kk < entries@.take(k as int).len() && (#[trigger] hashes@.take(
                                    k as int,
                                )[kk]) is Some && pkg0[pi].name@ == entries@.take(
                                    k as int,
                                )[kk].name@ && pkg0[pi].package.version@ == entries@.take(
                                    k as int,
                                )[kk].version@;
                            assert(hashes@.take(k + 1)[kk] is Some);
                            assert(entries@.take(k + 1)[kk] == entries@[kk]);
                        }
                    }
                    assert(entries@.take(k + 1).drop_last() =~= entries@.take(k as int));
                    assert(hashes@.take(k + 1).drop_last() =~= hashes@.take(k as int));
                    assert(hashes@.take(k + 1).last() == hashes@[k as int]);
                    assert(skipped@.map_values(|e: PlannedEntry| entry_views(e)) =~= skipped_spec(
                        entries@.take(k + 1),
                        hashes@.take(k + 1),
                    ));
                }
            },
        }
        k = k + 1;
    }
    proof {
        assert(entries@.take(entries@.len() as int) =~= entries@);
        assert(hashes@.take(hashes@.len() as int) =~= hashes@);
    }
    (Channel { published_by, date, pkg }, skipped)
}

} // verus!
