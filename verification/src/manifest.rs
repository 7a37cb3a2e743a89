//! The channel manifest format.
//!
//! A manifest is a line-oriented document: two header fields, then for each
//! package a `[pkg.<name>]` header with its `version`, and for each published
//! target a `[pkg.<name>.target.<triple>]` header with `url` and `hash`.
//! `serialize` emits the canonical form; `parse` accepts exactly that form and
//! guarantees that serializing its result reproduces the input text.
use vstd::prelude::*;

use crate::channel::Channel;
use crate::channel::ChannelPackage;
use crate::channel::HashedBinary;
use crate::channel::Package;
use crate::channel::TargetEntry;

verus! {

pub open spec fn published_by_line(s: Seq<char>) -> Seq<char> {
    "published_by = \""@ + s + "\""@
}

pub open spec fn date_line(s: Seq<char>) -> Seq<char> {
    "date = \""@ + s + "\""@
}

pub open spec fn version_line(s: Seq<char>) -> Seq<char> {
    "version = \""@ + s + "\""@
}

pub open spec fn url_line(s: Seq<char>) -> Seq<char> {
    "url = \""@ + s + "\""@
}

pub open spec fn hash_line(s: Seq<char>) -> Seq<char> {
    "hash = \""@ + s + "\""@
}

pub open spec fn pkg_header_line(n: Seq<char>) -> Seq<char> {
    "[pkg."@ + n + "]"@
}

pub open spec fn target_header_line(n: Seq<char>, t: Seq<char>) -> Seq<char> {
    "[pkg."@ + n + ".target."@ + t + "]"@
}

/// The three lines of one target entry.
pub open spec fn target_lines(n: Seq<char>, te: TargetEntry) -> Seq<Seq<char>> {
    seq![
        target_header_line(n, te.target@),
        url_line(te.binary.url@),
        hash_line(te.binary.hash@),
    ]
}

/// The lines of a package's target entries, in order.
pub open spec fn targets_lines(n: Seq<char>, ts: Seq<TargetEntry>) -> Seq<Seq<char>>
    decreases ts.len(),
{
    if ts.len() == 0 {
        Seq::empty()
    } else {
        targets_lines(n, ts.drop_last()) + target_lines(n, ts.last())
    }
}

/// The lines of one package: header, version, then its targets.
pub open spec fn pkg_lines(cp: ChannelPackage) -> Seq<Seq<char>> {
    seq![pkg_header_line(cp.name@), version_line(cp.package.version@)] + targets_lines(
        cp.name@,
        cp.package.targets@,
    )
}

/// The lines of all packages, in order.
pub open spec fn pkgs_lines(ps: Seq<ChannelPackage>) -> Seq<Seq<char>>
    decreases ps.len(),
{
    if ps.len() == 0 {
        Seq::empty()
    } else {
        pkgs_lines(ps.drop_last()) + pkg_lines(ps.last())
    }
}

/// The canonical line sequence of a whole channel.
pub open spec fn channel_lines(c: Channel) -> Seq<Seq<char>> {
    seq![published_by_line(c.published_by@), date_line(c.date@)] + pkgs_lines(c.pkg@)
}

/// The views of a vector of owned lines.
pub open spec fn lines_view(v: Seq<String>) -> Seq<Seq<char>> {
    v.map_values(|s: String| s@)
}

proof fn lemma_pkgs_lines_first(ps: Seq<ChannelPackage>)
    requires
        ps.len() > 0,
    ensures
        pkgs_lines(ps) == pkg_lines(ps[0]) + pkgs_lines(ps.skip(1)),
    decreases ps.len(),
{
    assert(pkgs_lines(ps) == pkgs_lines(ps.drop_last()) + pkg_lines(ps.last()));
    if ps.len() == 1 {
        assert(ps.drop_last() =~= Seq::<ChannelPackage>::empty());
        assert(ps.skip(1) =~= Seq::<ChannelPackage>::empty());
        assert(pkgs_lines(ps.drop_last()) == Seq::<Seq<char>>::empty());
        assert(pkgs_lines(ps.skip(1)) == Seq::<Seq<char>>::empty());
        assert(ps.last() == ps[0]);
        assert(pkgs_lines(ps) =~= pkg_lines(ps[0]) + pkgs_lines(ps.skip(1)));
    } else {
        lemma_pkgs_lines_first(ps.drop_last());
        assert(ps.drop_last()[0] == ps[0]);
        assert(ps.skip(1).len() > 0);
        assert(pkgs_lines(ps.skip(1)) == pkgs_lines(ps.skip(1).drop_last()) + pkg_lines(
            ps.skip(1).last(),
        ));
        assert(ps.skip(1).drop_last() =~= ps.drop_last().skip(1));
        assert(ps.skip(1).last() == ps.last());
        assert(pkgs_lines(ps) =~= pkg_lines(ps[0]) + pkgs_lines(ps.skip(1)));
    }
}

proof fn lemma_targets_lines_first(n: Seq<char>, ts: Seq<TargetEntry>)
    requires
        ts.len() > 0,
    ensures
        targets_lines(n, ts) == target_lines(n, ts[0]) + targets_lines(n, ts.skip(1)),
    decreases ts.len(),
{
    assert(targets_lines(n, ts) == targets_lines(n, ts.drop_last()) + target_lines(n, ts.last()));
    if ts.len() == 1 {
        assert(ts.drop_last() =~= Seq::<TargetEntry>::empty());
        assert(ts.skip(1) =~= Seq::<TargetEntry>::empty());
        assert(targets_lines(n, ts.drop_last()) == Seq::<Seq<char>>::empty());
        assert(targets_lines(n, ts.skip(1)) == Seq::<Seq<char>>::empty());
        assert(ts.last() == ts[0]);
        assert(targets_lines(n, ts) =~= target_lines(n, ts[0]) + targets_lines(n, ts.skip(1)));
    } else {
        lemma_targets_lines_first(n, ts.drop_last());
        assert(ts.drop_last()[0] == ts[0]);
        assert(ts.skip(1).len() > 0);
        assert(targets_lines(n, ts.skip(1)) == targets_lines(n, ts.skip(1).drop_last())
            + target_lines(n, ts.skip(1).last()));
        assert(ts.skip(1).drop_last() =~= ts.drop_last().skip(1));
        assert(ts.skip(1).last() == ts.last());
        assert(targets_lines(n, ts) =~= target_lines(n, ts[0]) + targets_lines(n, ts.skip(1)));
    }
}

/// `prefix`, the value, and a closing quote.
fn quoted_line(prefix: &str, v: &str) -> (r: String)
    ensures
        r@ == prefix@ + v@ + "\""@,
{
    let s = crate::strutil::str_concat(prefix, v);
    let r = crate::strutil::str_concat(s.as_str(), "\"");
    proof {
        assert(r@ =~= prefix@ + v@ + "\""@);
    }
    r
}

fn make_pkg_header(name: &str) -> (r: String)
    ensures
        r@ == pkg_header_line(name@),
{
    let s = crate::strutil::str_concat("[pkg.", name);
    let r = crate::strutil::str_concat(s.as_str(), "]");
    proof {
        assert(r@ =~= pkg_header_line(name@));
    }
    r
}

fn make_target_header(name: &str, triple: &str) -> (r: String)
    ensures
        r@ == target_header_line(name@, triple@),
{
    let s1 = crate::strutil::str_concat("[pkg.", name);
    let s2 = crate::strutil::str_concat(s1.as_str(), ".target.");
    let s3 = crate::strutil::str_concat(s2.as_str(), triple);
    let r = crate::strutil::str_concat(s3.as_str(), "]");
    proof {
        assert(r@ =~= target_header_line(name@, triple@));
    }
    r
}

/// Serializes a channel into its canonical lines, keys in stable order.
pub fn serialize_lines(c: &Channel) -> (r: Vec<String>)
    ensures
        lines_view(r@) == channel_lines(*c),
{
    let mut out: Vec<String> = Vec::new();
    out.push(quoted_line("published_by = \"", c.published_by.as_str()));
    out.push(quoted_line("date = \"", c.date.as_str()));
    proof {
        assert(lines_view(out@) =~= seq![
            published_by_line(c.published_by@),
            date_line(c.date@),
        ]);
    }
    let ghost header: Seq<Seq<char>> = lines_view(out@);
    let mut i: usize = 0;
    while i < c.pkg.len()
        invariant
            i <= c.pkg@.len(),
            header == seq![published_by_line(c.published_by@), date_line(c.date@)],
            lines_view(out@) == header + pkgs_lines(c.pkg@.take(i as int)),
        decreases c.pkg@.len() - i,
    {
        let cp = &c.pkg[i];
        let ghost before_pkg: Seq<Seq<char>> = lines_view(out@);
        out.push(make_pkg_header(cp.name.as_str()));
        out.push(quoted_line("version = \"", cp.package.version.as_str()));
        proof {
            assert(lines_view(out@) =~= before_pkg + seq![
                pkg_header_line(cp.name@),
                version_line(cp.package.version@),
            ]);
        }
        let ghost pkg_base: Seq<Seq<char>> = lines_view(out@);
        let mut j: usize = 0;
        while j < cp.package.targets.len()
            invariant
                j <= cp.package.targets@.len(),
                pkg_base == before_pkg + seq![
                    pkg_header_line(cp.name@),
                    version_line(cp.package.version@),
                ],
                lines_view(out@) == pkg_base + targets_lines(
                    cp.name@,
                    cp.package.targets@.take(j as int),
                ),
            decreases cp.package.targets@.len() - j,
        {
            let te = &cp.package.targets[j];
            let ghost before_te: Seq<Seq<char>> = lines_view(out@);
            out.push(make_target_header(cp.name.as_str(), te.target.as_str()));
            out.push(quoted_line("url = \"", te.binary.url.as_str()));
            out.push(quoted_line("hash = \"", te.binary.hash.as_str()));
            proof {
                assert(lines_view(out@) =~= before_te + target_lines(
                    cp.name@,
                    cp.package.targets@[j as int],
                ));
                assert(cp.package.targets@.take(j + 1).drop_last() =~= cp.package.targets@.take(
                    j as int,
                ));
                assert(cp.package.targets@.take(j + 1).last() == cp.package.targets@[j as int]);
                assert(lines_view(out@) =~= pkg_base + targets_lines(
                    cp.name@,
                    cp.package.targets@.take(j + 1),
                ));
            }
            j = j + 1;
        }
        proof {
            assert(cp.package.targets@.take(cp.package.targets@.len() as int) =~= cp
                .package
                .targets@);
            assert(c.pkg@.take(i + 1).drop_last() =~= c.pkg@.take(i as int));
            assert(c.pkg@.take(i + 1).last() == c.pkg@[i as int]);
            assert(pkg_lines(c.pkg@[i as int]) =~= seq![
                pkg_header_line(cp.name@),
                version_line(cp.package.version@),
            ] + targets_lines(cp.name@, cp.package.targets@));
            assert(lines_view(out@) =~= header + pkgs_lines(c.pkg@.take(i + 1)));
        }
        i = i + 1;
    }
    proof {
        assert(c.pkg@.take(c.pkg@.len() as int) =~= c.pkg@);
    }
    out
}

/// The value between `prefix` and a closing quote, where the line has exactly
/// that shape.
fn parse_quoted(line: &str, prefix: &str) -> (r: Option<String>)
    ensures
        r matches Some(v) ==> line@ == prefix@ + v@ + "\""@,
        r is Some <==> (prefix@.len() < line@.len() && line@.subrange(0, prefix@.len() as int)
            == prefix@ && line@[line@.len() - 1] == '"'),
{
    proof {
        reveal_strlit("\"");
    }
    if !crate::strutil::str_starts_with(line, prefix) {
        return None;
    }
    let llen = vstd::string::StrSliceExecFns::unicode_len(line);
    let plen = vstd::string::StrSliceExecFns::unicode_len(prefix);
    if llen - plen < 1 {
        return None;
    }
    if vstd::string::StrSliceExecFns::get_char(line, llen - 1) != '"' {
        return None;
    }
    let v = crate::strutil::substr(line, plen, llen - 1);
    proof {
        assert(line@.subrange(0, plen as int) == prefix@);
        assert(line@ =~= line@.subrange(0, plen as int) + line@.subrange(
            plen as int,
            (llen - 1) as int,
        ) + line@.subrange((llen - 1) as int, llen as int));
        assert(line@.subrange((llen - 1) as int, llen as int) =~= "\""@);
    }
    Some(v)
}

proof fn lemma_pkg_header_shape(n: Seq<char>, line: Seq<char>)
    requires
        line == pkg_header_line(n),
    ensures
        line.len() == 6 + n.len(),
        line.subrange(0, 5) == "[pkg."@,
        line[line.len() - 1] == ']',
        line.subrange(5, line.len() - 1) == n,
{
    reveal_strlit("[pkg.");
    reveal_strlit("]");
    assert(line =~= "[pkg."@ + n + "]"@);
    assert(line.subrange(0, 5) =~= "[pkg."@);
    assert(line[line.len() - 1] == "]"@[0]);
    assert(line.subrange(5, line.len() - 1) =~= n);
}

proof fn lemma_target_header_shape(n: Seq<char>, t: Seq<char>, line: Seq<char>)
    requires
        line == target_header_line(n, t),
    ensures
        line.len() == 14 + n.len() + t.len(),
        line.subrange(0, 5) == "[pkg."@,
        line[line.len() - 1] == ']',
        line.subrange(5, line.len() - 1) == n + ".target."@ + t,
{
    reveal_strlit("[pkg.");
    reveal_strlit("]");
    reveal_strlit(".target.");
    assert(line =~= "[pkg."@ + (n + ".target."@ + t) + "]"@);
    assert(line.subrange(0, 5) =~= "[pkg."@);
    assert(line[line.len() - 1] == "]"@[0]);
    assert(line.subrange(5, line.len() - 1) =~= n + ".target."@ + t);
}

proof fn lemma_middle_target(n: Seq<char>, t: Seq<char>, middle: Seq<char>)
    requires
        middle == n + ".target."@ + t,
        !n.contains('.'),
    ensures
        middle.len() == n.len() + 8 + t.len(),
        middle[n.len() as int] == '.',
        forall|j: int| 0 <= j < n.len() ==> middle[j] != '.',
        middle.subrange(0, n.len() as int) == n,
        middle.subrange(n.len() as int + 1, middle.len() as int) == "target."@ + t,
        ("target."@ + t).subrange(0, 7) == "target."@,
        ("target."@ + t).subrange(7, ("target."@ + t).len() as int) == t,
{
    reveal_strlit(".target.");
    reveal_strlit("target.");
    assert(middle[n.len() as int] == ".target."@[0]);
    assert forall|j: int| 0 <= j < n.len() implies middle[j] != '.' by {
        assert(middle[j] == n[j]);
        if n[j] == '.' {
            assert(n.contains('.'));
        }
    }
    assert(middle.subrange(0, n.len() as int) =~= n);
    assert(middle.subrange(n.len() as int + 1, middle.len() as int) =~= "target."@ + t) by {
        assert(".target."@ =~= seq!['.'] + "target."@);
    }
    assert(("target."@ + t).subrange(0, 7) =~= "target."@);
    assert(("target."@ + t).subrange(7, ("target."@ + t).len() as int) =~= t);
}

/// The shape of a table-header line.
enum HeaderKind {
    PkgHeader { name: String },
    TargetHeader { name: String, triple: String },
    NotHeader,
}

/// Classifies a `[pkg....]` line. For names free of `.` the classification
/// is complete: every well-shaped header line is recognized as itself.
fn parse_header(line: &str) -> (r: HeaderKind)
    ensures
        r matches HeaderKind::PkgHeader { name } ==> line@ == pkg_header_line(name@),
        r matches HeaderKind::TargetHeader { name, triple } ==> line@ == target_header_line(
            name@,
            triple@,
        ),
        forall|n: Seq<char>|
            line@ == #[trigger] pkg_header_line(n) && !n.contains('.') ==> (r
                matches HeaderKind::PkgHeader { name } && name@ == n),
        forall|n: Seq<char>, t: Seq<char>|
            line@ == #[trigger] target_header_line(n, t) && !n.contains('.') ==> (r
                matches HeaderKind::TargetHeader { name, triple } && name@ == n && triple@ == t),
{
    proof {
        reveal_strlit("[pkg.");
        reveal_strlit("]");
        reveal_strlit(".target.");
        reveal_strlit("target.");
        reveal_strlit(".");
    }
    if !crate::strutil::str_starts_with(line, "[pkg.") {
        proof {
            assert forall|n: Seq<char>| !(line@ == #[trigger] pkg_header_line(n)) by {
                if line@ == pkg_header_line(n) {
                    lemma_pkg_header_shape(n, line@);
                }
            }
            assert forall|n: Seq<char>, t: Seq<char>|
                !(line@ == #[trigger] target_header_line(n, t)) by {
                if line@ == target_header_line(n, t) {
                    lemma_target_header_shape(n, t, line@);
                }
            }
        }
        return HeaderKind::NotHeader;
    }
    let llen = vstd::string::StrSliceExecFns::unicode_len(line);
    if llen - 5 < 1 {
        proof {
            assert forall|n: Seq<char>| !(line@ == #[trigger] pkg_header_line(n)) by {
                if line@ == pkg_header_line(n) {
                    lemma_pkg_header_shape(n, line@);
                }
            }
            assert forall|n: Seq<char>, t: Seq<char>|
                !(line@ == #[trigger] target_header_line(n, t)) by {
                if line@ == target_header_line(n, t) {
                    lemma_target_header_shape(n, t, line@);
                }
            }
        }
        return HeaderKind::NotHeader;
    }
    if vstd::string::StrSliceExecFns::get_char(line, llen - 1) != ']' {
        proof {
            assert forall|n: Seq<char>| !(line@ == #[trigger] pkg_header_line(n)) by {
                if line@ == pkg_header_line(n) {
                    lemma_pkg_header_shape(n, line@);
                }
            }
            assert forall|n: Seq<char>, t: Seq<char>|
                !(line@ == #[trigger] target_header_line(n, t)) by {
                if line@ == target_header_line(n, t) {
                    lemma_target_header_shape(n, t, line@);
                }
            }
        }
        return HeaderKind::NotHeader;
    }
    let middle = crate::strutil::substr(line, 5, llen - 1);
    proof {
        assert(line@.subrange(0, 5) == "[pkg."@);
        assert(line@ =~= line@.subrange(0, 5) + line@.subrange(5, (llen - 1) as int)
            + line@.subrange((llen - 1) as int, llen as int));
        assert(line@.subrange((llen - 1) as int, llen as int) =~= "]"@);
    }
    match crate::strutil::find_char(middle.as_str(), '.') {
        None => {
            proof {
                assert(line@ =~= pkg_header_line(middle@));
                assert forall|n: Seq<char>|
                    line@ == #[trigger] pkg_header_line(n) implies middle@ == n by {
                    lemma_pkg_header_shape(n, line@);
                }
                assert forall|n: Seq<char>, t: Seq<char>|
                    !(line@ == #[trigger] target_header_line(n, t) && !n.contains('.')) by {
                    if line@ == target_header_line(n, t) && !n.contains('.') {
                        lemma_target_header_shape(n, t, line@);
                        lemma_middle_target(n, t, middle@);
                        assert(middle@[n.len() as int] == '.');
                    }
                }
            }
            HeaderKind::PkgHeader { name: middle }
        },
        Some(d) => {
            let mlen = vstd::string::StrSliceExecFns::unicode_len(middle.as_str());
            let name = crate::strutil::substr(middle.as_str(), 0, d);
            let rest = crate::strutil::substr(middle.as_str(), d + 1, mlen);
            proof {
                assert forall|n: Seq<char>|
                    !(line@ == #[trigger] pkg_header_line(n) && !n.contains('.')) by {
                    if line@ == pkg_header_line(n) && !n.contains('.') {
                        lemma_pkg_header_shape(n, line@);
                        assert(middle@ == n);
                        assert(n.contains('.')) by {
                            assert(n[d as int] == '.');
                        }
                    }
                }
                assert forall|n: Seq<char>, t: Seq<char>|
                    line@ == #[trigger] target_header_line(n, t) && !n.contains('.') implies (d
                    as int == n.len() && name@ == n && rest@ == "target."@ + t) by {
                    lemma_target_header_shape(n, t, line@);
                    lemma_middle_target(n, t, middle@);
                    assert(d as int >= n.len()) by {
                        if (d as int) < n.len() {
                            assert(middle@[d as int] != '.');
                        }
                    }
                    assert(d as int <= n.len()) by {
                        if (d as int) > n.len() {
                            assert(middle@[n.len() as int] == '.');
                        }
                    }
                    assert(name@ =~= n);
                    assert(rest@ =~= "target."@ + t);
                }
            }
            if !crate::strutil::str_starts_with(rest.as_str(), "target.") {
                proof {
                    assert forall|n: Seq<char>, t: Seq<char>|
                        !(line@ == #[trigger] target_header_line(n, t) && !n.contains('.')) by {
                        if line@ == target_header_line(n, t) && !n.contains('.') {
                            lemma_target_header_shape(n, t, line@);
                            lemma_middle_target(n, t, middle@);
                            assert(rest@.subrange(0, 7) == "target."@);
                        }
                    }
                }
                return HeaderKind::NotHeader;
            }
            let rlen = vstd::string::StrSliceExecFns::unicode_len(rest.as_str());
            let triple = crate::strutil::substr(rest.as_str(), 7, rlen);
            proof {
                assert(rest@.subrange(0, 7) == "target."@);
                assert(rest@ =~= rest@.subrange(0, 7) + rest@.subrange(7, rlen as int));
                assert(middle@ =~= middle@.subrange(0, d as int) + middle@.subrange(
                    d as int,
                    (d + 1) as int,
                ) + middle@.subrange((d + 1) as int, mlen as int));
                assert(middle@.subrange(d as int, (d + 1) as int) =~= "."@);
                assert(middle@ =~= name@ + "."@ + "target."@ + triple@);
                assert("."@ + "target."@ =~= ".target."@);
                assert(middle@ =~= name@ + ".target."@ + triple@);
                assert(line@ =~= target_header_line(name@, triple@));
                assert forall|n: Seq<char>, t: Seq<char>|
                    line@ == #[trigger] target_header_line(n, t) && !n.contains('.') implies (
                name@ == n && triple@ == t) by {
                    lemma_target_header_shape(n, t, line@);
                    lemma_middle_target(n, t, middle@);
                    assert(triple@ =~= t);
                }
            }
            HeaderKind::TargetHeader { name, triple }
        },
    }
}

proof fn lemma_quoted_shape(prefix: Seq<char>, v: Seq<char>, line: Seq<char>)
    requires
        line == prefix + v + "\""@,
    ensures
        prefix.len() < line.len(),
        line.subrange(0, prefix.len() as int) == prefix,
        line[line.len() - 1] == '"',
{
    reveal_strlit("\"");
    assert(line.subrange(0, prefix.len() as int) =~= prefix);
    assert(line[line.len() - 1] == "\""@[0]);
}

/// Every package name is free of `.`, so its table headers read back
/// unambiguously.
pub open spec fn unambiguous_names(c: Channel) -> bool {
    forall|i: int| 0 <= i < c.pkg@.len() ==> !(#[trigger] c.pkg@[i]).name@.contains('.')
}

/// The channel's manifest lines hold no line break, so its document splits
/// back into exactly those lines.
pub open spec fn newline_free(c: Channel) -> bool {
    forall|k: int|
        0 <= k < channel_lines(c).len() ==> !(#[trigger] channel_lines(c)[k]).contains('\n')
}

/// The lines still owed by `c0` once the packages of `pkg` — the last one
/// possibly with only part of its targets — have been emitted.
spec fn rest_lines(c0: Channel, pkg: Seq<ChannelPackage>) -> Seq<Seq<char>> {
    if pkg.len() == 0 {
        pkgs_lines(c0.pkg@)
    } else {
        targets_lines(
            c0.pkg@[pkg.len() - 1].name@,
            c0.pkg@[pkg.len() - 1].package.targets@.skip(
                pkg.last().package.targets@.len() as int,
            ),
        ) + pkgs_lines(c0.pkg@.skip(pkg.len() as int))
    }
}

/// One manifest-parse failure.
fn manifest_error() -> (r: crate::errors::Error)
    ensures
        r matches crate::errors::Error::Resolution { message },
{
    crate::errors::Error::Resolution {
        message: crate::strutil::str_to_string("invalid channel manifest"),
    }
}

/// Parses canonical manifest lines back into a channel.
///
/// Round trip: on success, serializing the result yields exactly the input
/// lines, so `serialize` after `parse` reproduces the document. Success is
/// owed whenever the lines are the serialization of some channel whose
/// package names read back unambiguously.
#[verifier::rlimit(100)]
pub fn parse_lines(lines: &Vec<String>) -> (r: Result<Channel, crate::errors::Error>)
    ensures
        r matches Ok(c) ==> channel_lines(c) == lines_view(lines@),
        (exists|c0: Channel| #[trigger] unambiguous_names(c0) && channel_lines(c0) == lines_view(
            lines@,
        )) ==> r is Ok,
{
    let ghost can: bool = exists|c0: Channel| #[trigger] unambiguous_names(c0) && channel_lines(
        c0,
    ) == lines_view(lines@);
    let ghost c0: Channel = choose|c0: Channel| #[trigger] unambiguous_names(c0) && channel_lines(
        c0,
    ) == lines_view(lines@);
    proof {
        if can {
            assert(channel_lines(c0) == lines_view(lines@));
            assert(lines_view(lines@).len() == lines@.len());
        }
    }
    if lines.len() < 2 {
        proof {
            assert(!can) by {
                if can {
                    assert(channel_lines(c0).len() >= 2);
                }
            }
        }
        return Err(manifest_error());
    }
    proof {
        if can {
            assert(lines_view(lines@)[0] == lines@[0]@);
            assert(channel_lines(c0)[0] == published_by_line(c0.published_by@));
            lemma_quoted_shape("published_by = \""@, c0.published_by@, lines@[0]@);
            assert(lines_view(lines@)[1] == lines@[1]@);
            assert(channel_lines(c0)[1] == date_line(c0.date@));
            lemma_quoted_shape("date = \""@, c0.date@, lines@[1]@);
        }
    }
    let published_by = match parse_quoted(lines[0].as_str(), "published_by = \"") {
        Some(v) => v,
        None => {
            proof {
                assert(!can);
            }
            return Err(manifest_error());
        },
    };
    let date = match parse_quoted(lines[1].as_str(), "date = \"") {
        Some(v) => v,
        None => {
            proof {
                assert(!can);
            }
            return Err(manifest_error());
        },
    };
    let ghost header: Seq<Seq<char>> = seq![published_by_line(published_by@), date_line(date@)];
    proof {
        assert(header =~= lines_view(lines@).take(2));
        if can {
            assert(lines_view(lines@).skip(2) =~= rest_lines(c0, Seq::<ChannelPackage>::empty()));
        }
    }
    let mut pkg: Vec<ChannelPackage> = Vec::new();
    let mut i: usize = 2;
    while i < lines.len()
        invariant
            2 <= i <= lines@.len(),
            header == seq![published_by_line(published_by@), date_line(date@)],
            header + pkgs_lines(pkg@) == lines_view(lines@).take(i as int),
            can == (exists|cc: Channel| #[trigger] unambiguous_names(cc) && channel_lines(cc)
                == lines_view(lines@)),
            can ==> unambiguous_names(c0) && channel_lines(c0) == lines_view(lines@),
            can ==> pkg@.len() <= c0.pkg@.len(),
            can && pkg@.len() > 0 ==> (pkg@.last().name@ == c0.pkg@[pkg@.len() - 1].name@
                && pkg@.last().package.targets@.len() <= c0.pkg@[pkg@.len()
                - 1].package.targets@.len()),
            can ==> lines_view(lines@).skip(i as int) == rest_lines(c0, pkg@),
        decreases lines@.len() - i,
    {
        proof {
            if can {
                let rest = rest_lines(c0, pkg@);
                assert(rest.len() == lines@.len() - i);
                assert(rest[0] == lines_view(lines@).skip(i as int)[0]);
                assert(lines_view(lines@)[i as int] == lines@[i as int]@);
                let kk = pkg@.len() as int;
                if kk > 0 {
                    let t = pkg@.last().package.targets@.len() as int;
                    let tc = c0.pkg@[kk - 1].package.targets@;
                    if t < tc.len() {
                        lemma_targets_lines_first(c0.pkg@[kk - 1].name@, tc.skip(t));
                        assert(tc.skip(t)[0] == tc[t]);
                        assert(rest[0] == target_header_line(
                            c0.pkg@[kk - 1].name@,
                            tc[t].target@,
                        ));
                        assert(rest[1] == url_line(tc[t].binary.url@));
                        assert(rest[2] == hash_line(tc[t].binary.hash@));
                    } else {
                        assert(tc.skip(t) =~= Seq::<TargetEntry>::empty());
                        assert(targets_lines(c0.pkg@[kk - 1].name@, tc.skip(t)) == Seq::<
                            Seq<char>,
                        >::empty());
                        assert(rest =~= pkgs_lines(c0.pkg@.skip(kk)));
                        assert(c0.pkg@.skip(kk).len() > 0);
                        lemma_pkgs_lines_first(c0.pkg@.skip(kk));
                        assert(c0.pkg@.skip(kk)[0] == c0.pkg@[kk]);
                        assert(rest[0] == pkg_header_line(c0.pkg@[kk].name@));
                        assert(rest[1] == version_line(c0.pkg@[kk].package.version@));
                    }
                } else {
                    assert(rest == pkgs_lines(c0.pkg@));
                    assert(c0.pkg@.len() > 0);
                    lemma_pkgs_lines_first(c0.pkg@);
                    assert(c0.pkg@.skip(0) =~= c0.pkg@);
                    assert(rest[0] == pkg_header_line(c0.pkg@[0].name@));
                    assert(rest[1] == version_line(c0.pkg@[0].package.version@));
                }
            }
        }
        match parse_header(lines[i].as_str()) {
            HeaderKind::PkgHeader { name } => {
                proof {
                    if can {
                        let kk = pkg@.len() as int;
                        if kk > 0 && (pkg@.last().package.targets@.len() as int) < c0.pkg@[kk
                            - 1].package.targets@.len() {
                            assert(!c0.pkg@[kk - 1].name@.contains('.'));
                            assert(false);
                        }
                        let np = c0.pkg@[kk];
                        assert(!np.name@.contains('.'));
                        assert(lines@[i as int]@ == pkg_header_line(np.name@));
                        assert(name@ == np.name@);
                        assert(lines_view(lines@).skip(i as int)[1] == lines_view(lines@)[i + 1]);
                        assert(lines_view(lines@)[i + 1] == lines@[i + 1]@);
                        assert(lines@[i + 1]@ == version_line(np.package.version@));
                        lemma_quoted_shape("version = \""@, np.package.version@, lines@[i + 1]@);
                    }
                }
                if lines.len() - i < 2 {
                    proof {
                        assert(!can);
                    }
                    return Err(manifest_error());
                }
                let version = match parse_quoted(lines[i + 1].as_str(), "version = \"") {
                    Some(v) => v,
                    None => {
                        proof {
                            assert(!can);
                        }
                        return Err(manifest_error());
                    },
                };
                let cp = ChannelPackage {
                    name,
                    package: Package { version, targets: Vec::new() },
                };
                proof {
                    assert(pkg@.push(cp).drop_last() =~= pkg@);
                    assert(pkg@.push(cp).last() == cp);
                    assert(targets_lines(cp.name@, cp.package.targets@) =~= Seq::<
                        Seq<char>,
                    >::empty());
                    assert(pkg_lines(cp) =~= seq![
                        pkg_header_line(cp.name@),
                        version_line(cp.package.version@),
                    ]);
                    assert(lines_view(lines@)[i as int] == lines@[i as int]@);
                    assert(lines_view(lines@)[i + 1] == lines@[i + 1]@);
                    assert(lines_view(lines@).take(i + 2) =~= lines_view(lines@).take(i as int)
                        + seq![lines@[i as int]@, lines@[i + 1]@]);
                    assert(header + pkgs_lines(pkg@.push(cp)) =~= lines_view(lines@).take(
                        i + 2,
                    ));
                    if can {
                        let kk = pkg@.len() as int;
                        let np = c0.pkg@[kk];
                        assert(pkg_lines(np) == seq![
                            pkg_header_line(np.name@),
                            version_line(np.package.version@),
                        ] + targets_lines(np.name@, np.package.targets@));
                        assert(np.package.targets@.skip(0) =~= np.package.targets@);
                        assert(lines_view(lines@).skip(i + 2) =~= rest_lines(c0, pkg@.push(cp)))
                            by {
                            assert(lines_view(lines@).skip(i + 2) =~= lines_view(lines@).skip(
                                i as int,
                            ).skip(2));
                            assert(rest_lines(c0, pkg@).skip(2) =~= targets_lines(
                                np.name@,
                                np.package.targets@,
                            ) + pkgs_lines(c0.pkg@.skip(kk + 1))) by {
                                if kk > 0 {
                                    let t = pkg@.last().package.targets@.len() as int;
                                    let tc = c0.pkg@[kk - 1].package.targets@;
                                    assert(tc.skip(t) =~= Seq::<TargetEntry>::empty());
                                    assert(rest_lines(c0, pkg@) =~= pkgs_lines(c0.pkg@.skip(kk)));
                                    lemma_pkgs_lines_first(c0.pkg@.skip(kk));
                                    assert(c0.pkg@.skip(kk).skip(1) =~= c0.pkg@.skip(kk + 1));
                                } else {
                                    lemma_pkgs_lines_first(c0.pkg@);
                                    assert(c0.pkg@.skip(0) =~= c0.pkg@);
                                    assert(c0.pkg@.skip(1) =~= c0.pkg@.skip(kk + 1));
                                }
                            }
                        }
                    }
                }
                pkg.push(cp);
                i = i + 2;
            },
            HeaderKind::TargetHeader { name, triple } => {
                proof {
                    if can {
                        let kk = pkg@.len() as int;
                        if kk == 0 {
                            assert(!c0.pkg@[0].name@.contains('.'));
                            assert(false);
                        }
                        let t = pkg@.last().package.targets@.len() as int;
                        let tc = c0.pkg@[kk - 1].package.targets@;
                        if t >= tc.len() {
                            assert(!c0.pkg@[kk].name@.contains('.'));
                            assert(false);
                        }
                        assert(!c0.pkg@[kk - 1].name@.contains('.'));
                        assert(lines@[i as int]@ == target_header_line(
                            c0.pkg@[kk - 1].name@,
                            tc[t].target@,
                        ));
                        assert(name@ == c0.pkg@[kk - 1].name@ && triple@ == tc[t].target@);
                        assert(lines_view(lines@).skip(i as int)[1] == lines_view(lines@)[i + 1]);
                        assert(lines_view(lines@).skip(i as int)[2] == lines_view(lines@)[i + 2]);
                        assert(lines@[i + 1]@ == url_line(tc[t].binary.url@));
                        assert(lines@[i + 2]@ == hash_line(tc[t].binary.hash@));
                        lemma_quoted_shape("url = \""@, tc[t].binary.url@, lines@[i + 1]@);
                        lemma_quoted_shape("hash = \""@, tc[t].binary.hash@, lines@[i + 2]@);
                    }
                }
                if pkg.len() == 0 {
                    proof {
                        assert(!can);
                    }
                    return Err(manifest_error());
                }
                if lines.len() - i < 3 {
                    proof {
                        assert(!can);
                    }
                    return Err(manifest_error());
                }
                if !crate::strutil::str_eq(name.as_str(), pkg[pkg.len() - 1].name.as_str()) {
                    proof {
                        assert(!can);
                    }
                    return Err(manifest_error());
                }
                let url = match parse_quoted(lines[i + 1].as_str(), "url = \"") {
                    Some(v) => v,
                    None => {
                        proof {
                            assert(!can);
                        }
                        return Err(manifest_error());
                    },
                };
                let hash = match parse_quoted(lines[i + 2].as_str(), "hash = \"") {
                    Some(v) => v,
                    None => {
                        proof {
                            assert(!can);
                        }
                        return Err(manifest_error());
                    },
                };
                let ghost old_pkg: Seq<ChannelPackage> = pkg@;
                let mut cp = pkg.pop().unwrap();
                let te = TargetEntry { target: triple, binary: HashedBinary { url, hash } };
                cp.package.targets.push(te);
                proof {
                    let ghost cpa = old_pkg.last();
                    assert(cp.name@ == cpa.name@);
                    assert(cp.package.version@ == cpa.package.version@);
                    assert(cp.package.targets@ =~= cpa.package.targets@.push(te));
                    assert(targets_lines(cp.name@, cpa.package.targets@.push(te))
                        == targets_lines(cp.name@, cpa.package.targets@) + target_lines(
                        cp.name@,
                        te,
                    )) by {
                        assert(cpa.package.targets@.push(te).drop_last() =~= cpa.package.targets@);
                        assert(cpa.package.targets@.push(te).last() == te);
                    }
                    assert(pkg_lines(cp) =~= pkg_lines(cpa) + target_lines(cp.name@, te));
                    assert(old_pkg.drop_last().push(cp).drop_last() =~= old_pkg.drop_last());
                    assert(old_pkg.drop_last().push(cp).last() == cp);
                    assert(pkgs_lines(old_pkg.drop_last().push(cp)) =~= pkgs_lines(
                        old_pkg.drop_last(),
                    ) + pkg_lines(cp));
                    assert(pkgs_lines(old_pkg) == pkgs_lines(old_pkg.drop_last()) + pkg_lines(
                        cpa,
                    ));
                    assert(target_lines(cp.name@, te) =~= seq![
                        target_header_line(name@, te.target@),
                        url_line(te.binary.url@),
                        hash_line(te.binary.hash@),
                    ]);
                    assert(lines_view(lines@)[i as int] == lines@[i as int]@);
                    assert(lines_view(lines@)[i + 1] == lines@[i + 1]@);
                    assert(lines_view(lines@)[i + 2] == lines@[i + 2]@);
                    assert(lines_view(lines@).take(i + 3) =~= lines_view(lines@).take(i as int)
                        + seq![lines@[i as int]@, lines@[i + 1]@, lines@[i + 2]@]);
                    assert(header + pkgs_lines(old_pkg.drop_last().push(cp)) =~= lines_view(
                        lines@,
                    ).take(i + 3));
                    if can {
                        let kk = old_pkg.len() as int;
                        let t = cpa.package.targets@.len() as int;
                        let tc = c0.pkg@[kk - 1].package.targets@;
                        assert(old_pkg.drop_last().push(cp).len() == kk);
                        assert(cp.package.targets@.len() == t + 1);
                        assert(lines_view(lines@).skip(i + 3) =~= rest_lines(
                            c0,
                            old_pkg.drop_last().push(cp),
                        )) by {
                            assert(lines_view(lines@).skip(i + 3) =~= lines_view(lines@).skip(
                                i as int,
                            ).skip(3));
                            lemma_targets_lines_first(c0.pkg@[kk - 1].name@, tc.skip(t));
                            assert(tc.skip(t).skip(1) =~= tc.skip(t + 1));
                            assert(rest_lines(c0, old_pkg).skip(3) =~= targets_lines(
                                c0.pkg@[kk - 1].name@,
                                tc.skip(t + 1),
                            ) + pkgs_lines(c0.pkg@.skip(kk)));
                        }
                    }
                }
                pkg.push(cp);
                i = i + 3;
            },
            HeaderKind::NotHeader => {
                proof {
                    assert(!can) by {
                        if can {
                            let kk = pkg@.len() as int;
                            if kk > 0 {
                                assert(!c0.pkg@[kk - 1].name@.contains('.'));
                                if pkg@.last().package.targets@.len() as int >= c0.pkg@[kk
                                    - 1].package.targets@.len() {
                                    assert(!c0.pkg@[kk].name@.contains('.'));
                                }
                            } else {
                                assert(!c0.pkg@[0].name@.contains('.'));
                            }
                        }
                    }
                }
                return Err(manifest_error());
            },
        }
    }
    let c = Channel { published_by, date, pkg };
    proof {
        assert(lines_view(lines@).take(lines@.len() as int) =~= lines_view(lines@));
        assert(channel_lines(c) =~= header + pkgs_lines(c.pkg@));
    }
    Ok(c)
}

/// The text of a line sequence: every line followed by a newline.
pub open spec fn join_lines(ls: Seq<Seq<char>>) -> Seq<char>
    decreases ls.len(),
{
    if ls.len() == 0 {
        Seq::empty()
    } else {
        join_lines(ls.drop_last()) + ls.last() + seq!['\n']
    }
}

/// A value that can stand in a manifest field: free of line breaks.
pub open spec fn field_ok(s: Seq<char>) -> bool {
    !s.contains('\n')
}

pub open spec fn wf_manifest_target(te: TargetEntry) -> bool {
    field_ok(te.target@) && field_ok(te.binary.url@) && field_ok(te.binary.hash@)
}

pub open spec fn wf_manifest_pkg(cp: ChannelPackage) -> bool {
    &&& !cp.name@.contains('.')
    &&& field_ok(cp.name@)
    &&& field_ok(cp.package.version@)
    &&& forall|j: int|
        0 <= j < cp.package.targets@.len() ==> wf_manifest_target(
            #[trigger] cp.package.targets@[j],
        )
}

/// A channel whose document reads back: no field holds a line break, and no
/// package name holds a `.`.
pub open spec fn wf_manifest(c: Channel) -> bool {
    &&& field_ok(c.published_by@)
    &&& field_ok(c.date@)
    &&& forall|i: int| 0 <= i < c.pkg@.len() ==> wf_manifest_pkg(#[trigger] c.pkg@[i])
}

proof fn lemma_concat_nl(a: Seq<char>, b: Seq<char>)
    requires
        !a.contains('\n'),
        !b.contains('\n'),
    ensures
        !(a + b).contains('\n'),
{
    if (a + b).contains('\n') {
        let x = choose|x: int| 0 <= x < (a + b).len() && #[trigger] (a + b)[x] == '\n';
        if x < a.len() {
            assert(a[x] == '\n');
        } else {
            assert(b[x - a.len()] == '\n');
        }
    }
}

proof fn lemma_literals_nl_free()
    ensures
        !"published_by = \""@.contains('\n'),
        !"date = \""@.contains('\n'),
        !"version = \""@.contains('\n'),
        !"url = \""@.contains('\n'),
        !"hash = \""@.contains('\n'),
        !"[pkg."@.contains('\n'),
        !"]"@.contains('\n'),
        !".target."@.contains('\n'),
        !"\""@.contains('\n'),
{
    reveal_strlit("published_by = \"");
    reveal_strlit("date = \"");
    reveal_strlit("version = \"");
    reveal_strlit("url = \"");
    reveal_strlit("hash = \"");
    reveal_strlit("[pkg.");
    reveal_strlit("]");
    reveal_strlit(".target.");
    reveal_strlit("\"");
}

proof fn lemma_quoted_nl(prefix: Seq<char>, v: Seq<char>)
    requires
        !prefix.contains('\n'),
        !v.contains('\n'),
    ensures
        !(prefix + v + "\""@).contains('\n'),
{
    lemma_literals_nl_free();
    lemma_concat_nl(prefix, v);
    lemma_concat_nl(prefix + v, "\""@);
}

proof fn lemma_targets_lines_nl(n: Seq<char>, ts: Seq<TargetEntry>)
    requires
        !n.contains('\n'),
        forall|j: int| 0 <= j < ts.len() ==> wf_manifest_target(#[trigger] ts[j]),
    ensures
        forall|k: int|
            0 <= k < targets_lines(n, ts).len() ==> !(#[trigger] targets_lines(n, ts)[k]).contains(
                '\n',
            ),
    decreases ts.len(),
{
    lemma_literals_nl_free();
    if ts.len() > 0 {
        lemma_targets_lines_nl(n, ts.drop_last());
        let te = ts.last();
        assert(wf_manifest_target(te));
        lemma_concat_nl("[pkg."@, n);
        lemma_concat_nl("[pkg."@ + n, ".target."@);
        lemma_concat_nl("[pkg."@ + n + ".target."@, te.target@);
        lemma_concat_nl("[pkg."@ + n + ".target."@ + te.target@, "]"@);
        lemma_quoted_nl("url = \""@, te.binary.url@);
        lemma_quoted_nl("hash = \""@, te.binary.hash@);
        assert forall|k: int|
            0 <= k < targets_lines(n, ts).len() implies !(#[trigger] targets_lines(n, ts)[
        k]).contains('\n') by {
            if k < targets_lines(n, ts.drop_last()).len() {
                assert(targets_lines(n, ts)[k] == targets_lines(n, ts.drop_last())[k]);
            } else {
                assert(targets_lines(n, ts)[k] == target_lines(n, te)[k - targets_lines(
                    n,
                    ts.drop_last(),
                ).len()]);
            }
        }
    }
}

proof fn lemma_pkgs_lines_nl(ps: Seq<ChannelPackage>)
    requires
        forall|i: int| 0 <= i < ps.len() ==> wf_manifest_pkg(#[trigger] ps[i]),
    ensures
        forall|k: int|
            0 <= k < pkgs_lines(ps).len() ==> !(#[trigger] pkgs_lines(ps)[k]).contains('\n'),
    decreases ps.len(),
{
    lemma_literals_nl_free();
    if ps.len() > 0 {
        lemma_pkgs_lines_nl(ps.drop_last());
        let cp = ps.last();
        assert(wf_manifest_pkg(cp));
        lemma_concat_nl("[pkg."@, cp.name@);
        lemma_concat_nl("[pkg."@ + cp.name@, "]"@);
        lemma_quoted_nl("version = \""@, cp.package.version@);
        lemma_targets_lines_nl(cp.name@, cp.package.targets@);
        assert forall|k: int|
            0 <= k < pkgs_lines(ps).len() implies !(#[trigger] pkgs_lines(ps)[k]).contains('\n')
            by {
            if k < pkgs_lines(ps.drop_last()).len() {
                assert(pkgs_lines(ps)[k] == pkgs_lines(ps.drop_last())[k]);
            } else {
                let kk = k - pkgs_lines(ps.drop_last()).len();
                assert(pkgs_lines(ps)[k] == pkg_lines(cp)[kk]);
                if kk >= 2 {
                    assert(pkg_lines(cp)[kk] == targets_lines(cp.name@, cp.package.targets@)[kk
                        - 2]);
                }
            }
        }
    }
}

/// A channel with well-formed fields reads back: its document's lines hold
/// no line break and its package headers are unambiguous, so `parse` accepts
/// exactly what `serialize` emits for it.
pub proof fn lemma_wf_manifest_parses(c: Channel)
    requires
        wf_manifest(c),
    ensures
        unambiguous_names(c),
        newline_free(c),
{
    assert(unambiguous_names(c));
    lemma_literals_nl_free();
    lemma_quoted_nl("published_by = \""@, c.published_by@);
    lemma_quoted_nl("date = \""@, c.date@);
    lemma_pkgs_lines_nl(c.pkg@);
    assert forall|k: int|
        0 <= k < channel_lines(c).len() implies !(#[trigger] channel_lines(c)[k]).contains('\n')
        by {
        if k >= 2 {
            assert(channel_lines(c)[k] == pkgs_lines(c.pkg@)[k - 2]);
        }
    }
}

proof fn lemma_join_ends_newline(ls: Seq<Seq<char>>)
    ensures
        join_lines(ls).len() > 0 ==> join_lines(ls)[join_lines(ls).len() - 1] == '\n',
        ls.len() > 0 ==> join_lines(ls).len() > 0,
{
    if ls.len() > 0 {
        assert(join_lines(ls) == join_lines(ls.drop_last()) + ls.last() + seq!['\n']);
    }
}

proof fn lemma_join_injective(a: Seq<Seq<char>>, b: Seq<Seq<char>>)
    requires
        forall|k: int| 0 <= k < a.len() ==> !(#[trigger] a[k]).contains('\n'),
        forall|k: int| 0 <= k < b.len() ==> !(#[trigger] b[k]).contains('\n'),
        join_lines(a) == join_lines(b),
    ensures
        a == b,
    decreases a.len(),
{
    if a.len() == 0 {
        if b.len() > 0 {
            lemma_join_ends_newline(b);
        }
        assert(a =~= b);
    } else if b.len() == 0 {
        lemma_join_ends_newline(a);
        assert(a =~= b);
    } else {
        let j = join_lines(a);
        let al = a.last();
        let bl = b.last();
        let ja = join_lines(a.drop_last());
        let jb = join_lines(b.drop_last());
        assert(j == ja + al + seq!['\n']);
        assert(join_lines(b) == jb + bl + seq!['\n']);
        lemma_join_ends_newline(a.drop_last());
        lemma_join_ends_newline(b.drop_last());
        assert(!al.contains('\n'));
        assert(!bl.contains('\n'));
        assert(al.len() == bl.len()) by {
            if al.len() < bl.len() {
                // the char just before a's last line is a newline (or nothing),
                // yet it falls inside b's newline-free last line
                assert(ja.len() > 0);
                assert(j[ja.len() - 1] == '\n');
                assert(j[ja.len() - 1] == bl[ja.len() - 1 - (j.len() - 1 - bl.len())]);
                assert(bl.contains('\n'));
            }
            if bl.len() < al.len() {
                assert(jb.len() > 0);
                assert(j[jb.len() - 1] == '\n');
                assert(j[jb.len() - 1] == al[jb.len() - 1 - (j.len() - 1 - al.len())]);
                assert(al.contains('\n'));
            }
        }
        assert(al =~= bl) by {
            assert forall|x: int| 0 <= x < al.len() implies al[x] == bl[x] by {
                assert(al[x] == j[ja.len() + x]);
                assert(bl[x] == j[jb.len() + x]);
            }
        }
        assert(ja =~= jb) by {
            assert forall|x: int| 0 <= x < ja.len() implies ja[x] == jb[x] by {
                assert(ja[x] == j[x]);
                assert(jb[x] == j[x]);
            }
        }
        lemma_join_injective(a.drop_last(), b.drop_last());
        assert(a.len() == b.len());
        assert forall|k: int| 0 <= k < a.len() implies a[k] == b[k] by {
            if k < a.len() - 1 {
                assert(a[k] == a.drop_last()[k]);
                assert(b[k] == b.drop_last()[k]);
            }
        }
        assert(a =~= b);
    }
}

/// Serializes a channel into its canonical manifest text.
pub fn serialize(c: &Channel) -> (r: String)
    ensures
        r@ == join_lines(channel_lines(*c)),
{
    let lines = serialize_lines(c);
    let mut out = String::new();
    let mut i: usize = 0;
    while i < lines.len()
        invariant
            i <= lines@.len(),
            lines_view(lines@) == channel_lines(*c),
            out@ == join_lines(lines_view(lines@).take(i as int)),
        decreases lines@.len() - i,
    {
        vstd::string::StringExecFns::append(&mut out, lines[i].as_str());
        vstd::string::StringExecFns::append(&mut out, "\n");
        proof {
            reveal_strlit("\n");
            assert("\n"@ =~= seq!['\n']);
            assert(lines_view(lines@).take(i + 1).drop_last() =~= lines_view(lines@).take(
                i as int,
            ));
            assert(lines_view(lines@).take(i + 1).last() == lines@[i as int]@);
            assert(out@ =~= join_lines(lines_view(lines@).take(i + 1)));
        }
        i = i + 1;
    }
    proof {
        assert(lines_view(lines@).take(lines@.len() as int) =~= lines_view(lines@));
    }
    out
}

/// Splits text into its newline-terminated lines; text whose last line lacks
/// a final newline is refused, and any joined line sequence is accepted.
fn split_lines(text: &str) -> (r: Option<Vec<String>>)
    ensures
        r matches Some(ls) ==> join_lines(lines_view(ls@)) == text@,
        r matches Some(ls) ==> forall|k: int|
            0 <= k < lines_view(ls@).len() ==> !(#[trigger] lines_view(ls@)[k]).contains('\n'),
        (exists|ls: Seq<Seq<char>>| #[trigger] join_lines(ls) == text@) ==> r is Some,
{
    proof {
        reveal_strlit("\n");
    }
    let tlen = vstd::string::StrSliceExecFns::unicode_len(text);
    let mut out: Vec<String> = Vec::new();
    let mut start: usize = 0;
    let mut i: usize = 0;
    while i < tlen
        invariant
            start <= i <= tlen,
            tlen == text@.len(),
            join_lines(lines_view(out@)) == text@.take(start as int),
            forall|j: int| start <= j < i ==> text@[j] != '\n',
            forall|k: int|
                0 <= k < lines_view(out@).len() ==> !(#[trigger] lines_view(out@)[k]).contains(
                    '\n',
                ),
        decreases tlen - i,
    {
        let c = vstd::string::StrSliceExecFns::get_char(text, i);
        if c == '\n' {
            let line = crate::strutil::substr(text, start, i);
            proof {
                assert(lines_view(out@.push(line)).drop_last() =~= lines_view(out@));
                assert(lines_view(out@.push(line)).last() == line@);
                assert(text@.take(i + 1) =~= text@.take(start as int) + line@ + seq![
                    text@[i as int],
                ]);
                assert(join_lines(lines_view(out@.push(line))) =~= text@.take(i + 1));
                assert(!line@.contains('\n')) by {
                    if line@.contains('\n') {
                        let x = choose|x: int|
                            0 <= x < line@.len() && #[trigger] line@[x] == '\n';
                        assert(text@[start + x] == '\n');
                    }
                }
                assert forall|k: int|
                    0 <= k < lines_view(out@.push(line)).len() implies !(#[trigger] lines_view(
                    out@.push(line),
                )[k]).contains('\n') by {
                    if k < lines_view(out@).len() {
                        assert(lines_view(out@.push(line))[k] == lines_view(out@)[k]);
                    } else {
                        assert(lines_view(out@.push(line))[k] == line@);
                    }
                }
            }
            out.push(line);
            start = i + 1;
        }
        i = i + 1;
    }
    if start != tlen {
        proof {
            assert(!(exists|ls: Seq<Seq<char>>| #[trigger] join_lines(ls) == text@)) by {
                if exists|ls: Seq<Seq<char>>| #[trigger] join_lines(ls) == text@ {
                    let ls = choose|ls: Seq<Seq<char>>| #[trigger] join_lines(ls) == text@;
                    lemma_join_ends_newline(ls);
                    assert(text@[tlen - 1] == '\n');
                }
            }
        }
        return None;
    }
    proof {
        assert(text@.take(tlen as int) =~= text@);
    }
    Some(out)
}

/// Parses a channel manifest document.
///
/// Round trip: whenever parsing succeeds, `serialize` of the result is
/// exactly the input text. Success is owed whenever the text is the
/// serialized form of some channel that reads back unambiguously.
pub fn parse(text: &str) -> (r: Result<Channel, crate::errors::Error>)
    ensures
        r matches Ok(c) ==> join_lines(channel_lines(c)) == text@,
        (exists|c0: Channel| #[trigger] unambiguous_names(c0) && newline_free(c0) && join_lines(
            channel_lines(c0),
        ) == text@) ==> r is Ok,
{
    let ghost can: bool = exists|c0: Channel| #[trigger] unambiguous_names(c0) && newline_free(
        c0,
    ) && join_lines(channel_lines(c0)) == text@;
    let ghost c0: Channel = choose|c0: Channel| #[trigger] unambiguous_names(c0) && newline_free(
        c0,
    ) && join_lines(channel_lines(c0)) == text@;
    match split_lines(text) {
        None => {
            proof {
                assert(!can) by {
                    if can {
                        assert(join_lines(channel_lines(c0)) == text@);
                    }
                }
            }
            Err(manifest_error())
        },
        Some(ls) => {
            proof {
                if can {
                    lemma_join_injective(lines_view(ls@), channel_lines(c0));
                }
            }
            let r = parse_lines(&ls);
            proof {
                if can {
                    assert(channel_lines(c0) == lines_view(ls@));
                    assert(r is Ok);
                }
            }
            r
        },
    }
}

} // verus!
