//! Toolchain descriptors and the toolchain lifecycle.
//!
//! A descriptor names either a distributable channel (with an optional pinned
//! date) or a custom toolchain; the store tracks the installed toolchain
//! directories and the default pointer.
use vstd::prelude::*;

verus! {

/// A decimal digit.
pub open spec fn is_digit(c: char) -> bool {
    c == '0' || c == '1' || c == '2' || c == '3' || c == '4' || c == '5' || c == '6' || c == '7'
        || c == '8' || c == '9'
}

/// The numeric value of a decimal digit; other characters count as zero.
pub open spec fn digit_val(c: char) -> int {
    if c == '1' {
        1
    } else if c == '2' {
        2
    } else if c == '3' {
        3
    } else if c == '4' {
        4
    } else if c == '5' {
        5
    } else if c == '6' {
        6
    } else if c == '7' {
        7
    } else if c == '8' {
        8
    } else if c == '9' {
        9
    } else {
        0
    }
}

pub open spec fn leap_year(y: int) -> bool {
    (y % 4 == 0 && y % 100 != 0) || y % 400 == 0
}

/// How many days the month has in that year.
pub open spec fn days_in_month(m: int, y: int) -> int {
    if m == 4 || m == 6 || m == 9 || m == 11 {
        30
    } else if m == 2 {
        if leap_year(y) {
            29
        } else {
            28
        }
    } else {
        31
    }
}

/// A calendar-valid `YYYY-MM-DD` date: four digit year, month `01`-`12`, and
/// a day the month actually has in that year.
pub open spec fn date_ok(s: Seq<char>) -> bool {
    &&& s.len() == 10
    &&& is_digit(s[0]) && is_digit(s[1]) && is_digit(s[2]) && is_digit(s[3])
    &&& s[4] == '-'
    &&& is_digit(s[5]) && is_digit(s[6])
    &&& s[7] == '-'
    &&& is_digit(s[8]) && is_digit(s[9])
    &&& {
        let y = digit_val(s[0]) * 1000 + digit_val(s[1]) * 100 + digit_val(s[2]) * 10 + digit_val(
            s[3],
        );
        let m = digit_val(s[5]) * 10 + digit_val(s[6]);
        let d = digit_val(s[8]) * 10 + digit_val(s[9]);
        1 <= m <= 12 && 1 <= d <= days_in_month(m, y)
    }
}

/// A calendar date kept as its `YYYY-MM-DD` text.
#[derive(Debug)]
pub struct Date {
    pub text: String,
}

impl Date {
    pub open spec fn wf(&self) -> bool {
        date_ok(self.text@)
    }

    /// Parses a `YYYY-MM-DD` date, rejecting out-of-range months and days.
    pub fn parse(s: &str) -> (r: Option<Date>)
        ensures
            r is Some <==> date_ok(s@),
            r matches Some(d) ==> d.text@ == s@ && d.wf(),
    {
        let len = vstd::string::StrSliceExecFns::unicode_len(s);
        if len != 10 {
            return None;
        }
        let c0 = vstd::string::StrSliceExecFns::get_char(s, 0);
        let c1 = vstd::string::StrSliceExecFns::get_char(s, 1);
        let c2 = vstd::string::StrSliceExecFns::get_char(s, 2);
        let c3 = vstd::string::StrSliceExecFns::get_char(s, 3);
        let c4 = vstd::string::StrSliceExecFns::get_char(s, 4);
        let c5 = vstd::string::StrSliceExecFns::get_char(s, 5);
        let c6 = vstd::string::StrSliceExecFns::get_char(s, 6);
        let c7 = vstd::string::StrSliceExecFns::get_char(s, 7);
        let c8 = vstd::string::StrSliceExecFns::get_char(s, 8);
        let c9 = vstd::string::StrSliceExecFns::get_char(s, 9);
        if !(digit_exec(c0) && digit_exec(c1) && digit_exec(c2) && digit_exec(c3)) {
            return None;
        }
        if c4 != '-' || c7 != '-' {
            return None;
        }
        if !(digit_exec(c5) && digit_exec(c6) && digit_exec(c8) && digit_exec(c9)) {
            return None;
        }
        let y: u32 = digit_val_exec(c0) * 1000 + digit_val_exec(c1) * 100 + digit_val_exec(c2)
            * 10 + digit_val_exec(c3);
        let m: u32 = digit_val_exec(c5) * 10 + digit_val_exec(c6);
        let d: u32 = digit_val_exec(c8) * 10 + digit_val_exec(c9);
        if !(1 <= m && m <= 12) {
            return None;
        }
        if !(1 <= d && d <= days_in_month_exec(m, y)) {
            return None;
        }
        Some(Date { text: crate::strutil::str_to_string(s) })
    }
}

fn digit_val_exec(c: char) -> (r: u32)
    ensures
        r == digit_val(c),
        r <= 9,
{
    if c == '1' {
        1
    } else if c == '2' {
        2
    } else if c == '3' {
        3
    } else if c == '4' {
        4
    } else if c == '5' {
        5
    } else if c == '6' {
        6
    } else if c == '7' {
        7
    } else if c == '8' {
        8
    } else if c == '9' {
        9
    } else {
        0
    }
}

fn days_in_month_exec(m: u32, y: u32) -> (r: u32)
    ensures
        r == days_in_month(m as int, y as int),
{
    if m == 4 || m == 6 || m == 9 || m == 11 {
        30
    } else if m == 2 {
        let leap = (y % 4 == 0 && y % 100 != 0) || y % 400 == 0;
        proof {
            assert(leap == leap_year(y as int));
        }
        if leap {
            29
        } else {
            28
        }
    } else {
        31
    }
}

fn digit_exec(c: char) -> (r: bool)
    ensures
        r == is_digit(c),
{
    c == '0' || c == '1' || c == '2' || c == '3' || c == '4' || c == '5' || c == '6' || c == '7'
        || c == '8' || c == '9'
}

/// What a toolchain descriptor resolves to.
#[derive(Debug)]
pub enum ToolchainDescription {
    /// The most recent published channel, for the host's target.
    Latest { target: crate::target::TargetTriple },
    /// A nightly channel, today's unless a date is pinned.
    Nightly { date: Option<Date>, target: crate::target::TargetTriple },
    /// A user-named toolchain, not distributable.
    Custom { name: String },
}

impl ToolchainDescription {
    /// The directory name this description installs under.
    pub fn dir_name(&self) -> (r: String)
        ensures
            match self {
                ToolchainDescription::Latest { target } => r@ == "latest-"@ + target.text@,
                ToolchainDescription::Nightly { date, target } => (match date {
                    None => r@ == "nightly-"@ + target.text@,
                    Some(d) => r@ == "nightly-"@ + d.text@ + "-"@ + target.text@,
                }),
                ToolchainDescription::Custom { name } => r@ == name@,
            },
    {
        match self {
            ToolchainDescription::Latest { target } => crate::strutil::str_concat(
                "latest-",
                target.text.as_str(),
            ),
            ToolchainDescription::Nightly { date, target } => match date {
                None => crate::strutil::str_concat("nightly-", target.text.as_str()),
                Some(d) => {
                    let s1 = crate::strutil::str_concat("nightly-", d.text.as_str());
                    let s2 = crate::strutil::str_concat(s1.as_str(), "-");
                    let r = crate::strutil::str_concat(s2.as_str(), target.text.as_str());
                    proof {
                        assert(r@ =~= "nightly-"@ + d.text@ + "-"@ + target.text@);
                    }
                    r
                },
            },
            ToolchainDescription::Custom { name } => crate::strutil::str_to_string(name.as_str()),
        }
    }
}

/// The error text when a dated nightly descriptor pins a target.
pub open spec fn target_not_supported_message(target: Seq<char>, input: Seq<char>) -> Seq<char> {
    "specifying a target is not supported yet: '"@ + target + "' (in '"@ + input + "')"@
}

/// The error text when the date segment of a descriptor does not parse.
pub open spec fn bad_date_message(date_part: Seq<char>, input: Seq<char>) -> Seq<char> {
    "unable to parse date: '"@ + date_part + "' (in '"@ + input + "')"@
}

/// Resolves a textual toolchain descriptor against the host's target triple.
///
/// `latest` and `nightly` name the distributable channels; `nightly-YYYY-MM-DD`
/// pins a date; a dated nightly with a trailing target suffix is rejected,
/// naming the offending target and the full input; a name that collides with
/// a distributable name plus the host triple is rejected; anything else is a
/// custom toolchain name.
pub fn resolve(descriptor: &str, host: &crate::target::TargetTriple) -> (r: Result<
    ToolchainDescription,
    crate::errors::Error,
>)
    ensures
        descriptor@ == "latest"@ ==> (r matches Ok(d) && d matches ToolchainDescription::Latest {
            target,
        } && target.text@ == host.text@),
        descriptor@ == "nightly"@ ==> (r matches Ok(d) && d
            matches ToolchainDescription::Nightly { date: dt, target } && dt is None && target.text@ == host.text@),
        (descriptor@ != "latest"@ && descriptor@ != "nightly"@ && descriptor@.len() > 8
            && descriptor@.subrange(0, 8) == "nightly-"@) ==> {
            let rest = descriptor@.subrange(8, descriptor@.len() as int);
            if date_ok(rest) {
                r matches Ok(d) && d matches ToolchainDescription::Nightly { date: dt, target }
                    && dt matches Some(dd) && dd.text@ == rest && target.text@ == host.text@
            } else if rest.len() > 10 && date_ok(rest.subrange(0, 10)) && rest[10] == '-' {
                r matches Err(e) && e matches crate::errors::Error::Resolution { message }
                    && message@ == target_not_supported_message(
                    rest.subrange(11, rest.len() as int),
                    descriptor@,
                )
            } else {
                r matches Err(e) && e matches crate::errors::Error::Resolution { message }
                    && message@ == bad_date_message(rest, descriptor@)
            }
        },
        (descriptor@ != "latest"@ && descriptor@ != "nightly"@ && !(descriptor@.len() > 8
            && descriptor@.subrange(0, 8) == "nightly-"@)) ==> (
        if reserved_name(descriptor@, host.text@) {
            r matches Err(e) && e matches crate::errors::Error::Resolution { message } && message@
                == "cannot use reserved toolchain name '"@ + descriptor@ + "'"@
        } else {
            r matches Ok(d) && d matches ToolchainDescription::Custom { name } && name@
                == descriptor@
        }),
{
    proof {
        reveal_strlit("latest");
        reveal_strlit("nightly");
        reveal_strlit("nightly-");
    }
    if crate::strutil::str_eq(descriptor, "latest") {
        return Ok(ToolchainDescription::Latest { target: clone_triple(host) });
    }
    if crate::strutil::str_eq(descriptor, "nightly") {
        return Ok(ToolchainDescription::Nightly { date: None, target: clone_triple(host) });
    }
    let dlen = vstd::string::StrSliceExecFns::unicode_len(descriptor);
    if crate::strutil::str_starts_with(descriptor, "nightly-") && dlen > 8 {
        proof {
            reveal_strlit("nightly-");
        }
        let rest = crate::strutil::substr(descriptor, 8, dlen);
        let rest_len = vstd::string::StrSliceExecFns::unicode_len(rest.as_str());
        match Date::parse(rest.as_str()) {
            Some(d) => {
                return Ok(
                    ToolchainDescription::Nightly { date: Some(d), target: clone_triple(host) },
                );
            },
            None => {
                if rest_len > 10 {
                    let date_part = crate::strutil::substr(rest.as_str(), 0, 10);
                    let sep = vstd::string::StrSliceExecFns::get_char(rest.as_str(), 10);
                    if date_exec_ok(date_part.as_str()) && sep == '-' {
                        let target_part = crate::strutil::substr(rest.as_str(), 11, rest_len);
                        let m1 = crate::strutil::str_concat(
                            "specifying a target is not supported yet: '",
                            target_part.as_str(),
                        );
                        let m2 = crate::strutil::str_concat(m1.as_str(), "' (in '");
                        let m3 = crate::strutil::str_concat(m2.as_str(), descriptor);
                        let message = crate::strutil::str_concat(m3.as_str(), "')");
                        proof {
                            assert(message@ =~= target_not_supported_message(
                                rest@.subrange(11, rest@.len() as int),
                                descriptor@,
                            ));
                        }
                        return Err(crate::errors::Error::Resolution { message });
                    }
                }
                let m1 = crate::strutil::str_concat("unable to parse date: '", rest.as_str());
                let m2 = crate::strutil::str_concat(m1.as_str(), "' (in '");
                let m3 = crate::strutil::str_concat(m2.as_str(), descriptor);
                let message = crate::strutil::str_concat(m3.as_str(), "')");
                proof {
                    assert(message@ =~= bad_date_message(rest@, descriptor@));
                }
                return Err(crate::errors::Error::Resolution { message });
            },
        }
    }
    proof {
        reveal_strlit("nightly-");
        if descriptor@.len() > 8 && descriptor@.subrange(0, 8) == "nightly-"@ {
            assert("nightly-"@.len() <= descriptor@.len() && descriptor@.subrange(
                0,
                "nightly-"@.len() as int,
            ) == "nightly-"@);
        }
    }
    if is_reserved(descriptor, host) {
        let m1 = crate::strutil::str_concat("cannot use reserved toolchain name '", descriptor);
        let message = crate::strutil::str_concat(m1.as_str(), "'");
        proof {
            assert(message@ =~= "cannot use reserved toolchain name '"@ + descriptor@ + "'"@);
        }
        return Err(crate::errors::Error::Resolution { message });
    }
    Ok(ToolchainDescription::Custom { name: crate::strutil::str_to_string(descriptor) })
}

/// An owned copy of a target triple.
pub fn clone_triple(t: &crate::target::TargetTriple) -> (r: crate::target::TargetTriple)
    ensures
        r.text@ == t.text@,
{
    crate::target::TargetTriple { text: crate::strutil::str_to_string(t.text.as_str()) }
}

fn date_exec_ok(s: &str) -> (r: bool)
    ensures
        r == date_ok(s@),
{
    match Date::parse(s) {
        Some(_) => true,
        None => false,
    }
}

/// A name reserved for the distributable channels: a channel name itself or
/// a channel name suffixed with the host's target triple.
pub open spec fn reserved_name(name: Seq<char>, host: Seq<char>) -> bool {
    name == "latest"@ || name == "nightly"@ || name == "latest-"@ + host || name == "nightly-"@
        + host
}

/// Whether a custom toolchain name collides with a distributable name.
pub fn is_reserved(name: &str, host: &crate::target::TargetTriple) -> (r: bool)
    ensures
        r == reserved_name(name@, host.text@),
{
    if crate::strutil::str_eq(name, "latest") || crate::strutil::str_eq(name, "nightly") {
        return true;
    }
    let latest_host = crate::strutil::str_concat("latest-", host.text.as_str());
    let nightly_host = crate::strutil::str_concat("nightly-", host.text.as_str());
    crate::strutil::str_eq(name, latest_host.as_str()) || crate::strutil::str_eq(
        name,
        nightly_host.as_str(),
    )
}

/// One installed toolchain directory: its name and the files of its `bin`
/// subdirectory.
pub struct Toolchain {
    pub name: String,
    pub bins: Vec<String>,
}

/// All installed toolchains and the default pointer.
pub struct ToolchainStore {
    pub toolchains: Vec<Toolchain>,
    pub default_toolchain: Option<String>,
}

impl ToolchainStore {
    /// Is a toolchain of this name installed?
    pub open spec fn has(self, name: Seq<char>) -> bool {
        exists|i: int|
            0 <= i < self.toolchains@.len() && (#[trigger] self.toolchains@[i]).name@ == name
    }

    /// Names are unique and the default pointer names an installed toolchain.
    pub open spec fn wf(self) -> bool {
        &&& forall|i: int, j: int|
            0 <= i < j < self.toolchains@.len() ==> (#[trigger] self.toolchains@[i]).name@ != (
            #[trigger] self.toolchains@[j]).name@
        &&& (self.default_toolchain matches Some(d) ==> self.has(d@))
    }

    /// An empty store: nothing installed, no default.
    pub fn empty() -> (r: ToolchainStore)
        ensures
            r.wf(),
            r.toolchains@.len() == 0,
            r.default_toolchain is None,
    {
        ToolchainStore { toolchains: Vec::new(), default_toolchain: None }
    }

    fn find(&self, name: &str) -> (r: Option<usize>)
        ensures
            match r {
                Some(i) => i < self.toolchains@.len() && self.toolchains@[i as int].name@ == name@,
                None => !self.has(name@),
            },
    {
        let mut i: usize = 0;
        while i < self.toolchains.len()
            invariant
                i <= self.toolchains@.len(),
                forall|j: int|
                    0 <= j < i ==> (#[trigger] self.toolchains@[j]).name@ != name@,
            decreases self.toolchains@.len() - i,
        {
            if crate::strutil::str_eq(self.toolchains[i].name.as_str(), name) {
                return Some(i);
            }
            i = i + 1;
        }
        None
    }

    /// Creates an empty custom toolchain and makes it the new default.
    ///
    /// A name that collides with a reserved distributable channel name, with
    /// such a name suffixed by the host triple, or with an installed
    /// toolchain, is rejected and the store is left untouched.
    pub fn new_toolchain(&mut self, name: &str, host: &crate::target::TargetTriple) -> (r: Result<
        String,
        crate::errors::Error,
    >)
        requires
            old(self).wf(),
        ensures
            final(self).wf(),
            r is Ok <==> (!reserved_name(name@, host.text@) && !old(self).has(name@)),
            r is Err ==> *final(self) == *old(self),
            r matches Err(e) ==> (e matches crate::errors::Error::Resolution { message } && (
            if reserved_name(name@, host.text@) {
                message@ == "cannot use reserved toolchain name '"@ + name@ + "'"@
            } else {
                message@ == "toolchain '"@ + name@ + "' already exists"@
            })),
            r matches Ok(msg) ==> {
                &&& final(self).toolchains@.len() == old(self).toolchains@.len() + 1
                &&& final(self).toolchains@.drop_last() == old(self).toolchains@
                &&& final(self).toolchains@.last().name@ == name@
                &&& final(self).toolchains@.last().bins@.len() == 0
                &&& final(self).default_toolchain matches Some(d) && d@ == name@
                &&& msg@ == "New toolchain initialized: "@ + name@
                    + "\ndefault toolchain set to '"@ + name@ + "'\n"@
            },
    {
        if is_reserved(name, host) {
            let m1 = crate::strutil::str_concat("cannot use reserved toolchain name '", name);
            let message = crate::strutil::str_concat(m1.as_str(), "'");
            proof {
                assert(message@ =~= "cannot use reserved toolchain name '"@ + name@ + "'"@);
            }
            return Err(crate::errors::Error::Resolution { message });
        }
        match self.find(name) {
            Some(_) => {
                let m1 = crate::strutil::str_concat("toolchain '", name);
                let message = crate::strutil::str_concat(m1.as_str(), "' already exists");
                proof {
                    assert(message@ =~= "toolchain '"@ + name@ + "' already exists"@);
                }
                Err(crate::errors::Error::Resolution { message })
            },
            None => {
                let tc = Toolchain { name: crate::strutil::str_to_string(name), bins: Vec::new() };
                self.toolchains.push(tc);
                self.default_toolchain = Some(crate::strutil::str_to_string(name));
                let m1 = crate::strutil::str_concat("New toolchain initialized: ", name);
                let m2 = crate::strutil::str_concat(m1.as_str(), "\ndefault toolchain set to '");
                let m3 = crate::strutil::str_concat(m2.as_str(), name);
                let msg = crate::strutil::str_concat(m3.as_str(), "'\n");
                proof {
                    assert(self.toolchains@.drop_last() =~= old(self).toolchains@);
                    assert(self.has(name@)) by {
                        assert(self.toolchains@[self.toolchains@.len() - 1].name@ == name@);
                    }
                    assert(msg@ =~= "New toolchain initialized: "@ + name@
                        + "\ndefault toolchain set to '"@ + name@ + "'\n"@);
                }
                Ok(msg)
            },
        }
    }

    /// After removing `name`: a default that named another toolchain is
    /// kept; one that named `name` moves to the first remaining toolchain in
    /// store order, or is cleared when none remain.
    pub open spec fn default_moved(before: ToolchainStore, after: ToolchainStore, name: Seq<char>) -> bool {
        match before.default_toolchain {
            Some(d) => if d@ == name {
                &&& (after.toolchains@.len() == 0 ==> after.default_toolchain is None)
                &&& (after.toolchains@.len() > 0 ==> (after.default_toolchain matches Some(nd)
                    && nd@ == after.toolchains@[0].name@))
            } else {
                after.default_toolchain matches Some(nd) && nd@ == d@
            },
            None => after.default_toolchain is None,
        }
    }

    /// Removes a toolchain; an absent name is reported, not fatal.
    ///
    /// When the removed toolchain was the default, the first remaining
    /// toolchain (in store order) becomes the new default, or the pointer is
    /// cleared if none remain.
    pub fn uninstall(&mut self, name: &str) -> (r: (String, bool))
        requires
            old(self).wf(),
        ensures
            final(self).wf(),
            r.1 == old(self).has(name@),
            !old(self).has(name@) ==> *final(self) == *old(self) && r.0@ == "toolchain '"@ + name@
                + "' does not exist\n"@,
            old(self).has(name@) ==> {
                &&& r.0@ == "toolchain '"@ + name@ + "' uninstalled\n"@
                &&& exists|i: int|
                    0 <= i < old(self).toolchains@.len() && (#[trigger] old(
                        self,
                    ).toolchains@[i]).name@ == name@ && final(self).toolchains@ == old(
                        self,
                    ).toolchains@.remove(i)
                &&& ToolchainStore::default_moved(*old(self), *final(self), name@)
            },
    {
        let idx = match self.find(name) {
            None => {
                let m1 = crate::strutil::str_concat("toolchain '", name);
                let msg = crate::strutil::str_concat(m1.as_str(), "' does not exist\n");
                proof {
                    assert(msg@ =~= "toolchain '"@ + name@ + "' does not exist\n"@);
                }
                return (msg, false);
            },
            Some(i) => i,
        };
        proof {
            assert(old(self).has(name@)) by {
                assert(old(self).toolchains@[idx as int].name@ == name@);
            }
        }
        self.toolchains.remove(idx);
        let ghost removed: Seq<Toolchain> = old(self).toolchains@.remove(idx as int);
        proof {
            assert forall|i: int, j: int| 0 <= i < j < removed.len() implies (
            #[trigger] removed[i]).name@ != (#[trigger] removed[j]).name@ by {
                let oi = if i < idx { i } else { i + 1 };
                let oj = if j < idx { j } else { j + 1 };
                assert(removed[i] == old(self).toolchains@[oi]);
                assert(removed[j] == old(self).toolchains@[oj]);
            }
        }
        let switch = match &self.default_toolchain {
            Some(d) => crate::strutil::str_eq(d.as_str(), name),
            None => false,
        };
        if switch {
            if self.toolchains.len() > 0 {
                self.default_toolchain = Some(
                    crate::strutil::str_to_string(self.toolchains[0].name.as_str()),
                );
            } else {
                self.default_toolchain = None;
            }
        }
        proof {
            match &self.default_toolchain {
                Some(nd) => {
                    if !switch {
                        let d = old(self).default_toolchain->0;
                        let k = choose|k: int|
                            0 <= k < old(self).toolchains@.len() && (#[trigger] old(
                                self,
                            ).toolchains@[k]).name@ == d@;
                        assert(k != idx);
                        let nk = if k < idx {
                            k
                        } else {
                            k - 1
                        };
                        assert(removed[nk].name@ == d@);
                        assert(self.has(nd@));
                    } else {
                        assert(self.toolchains@[0].name@ == nd@);
                        assert(self.has(nd@));
                    }
                },
                None => {},
            }
        }
        let m1 = crate::strutil::str_concat("toolchain '", name);
        let msg = crate::strutil::str_concat(m1.as_str(), "' uninstalled\n");
        proof {
            assert(msg@ =~= "toolchain '"@ + name@ + "' uninstalled\n"@);
        }
        (msg, true)
    }

    /// Creates an empty toolchain directory when `name` is absent; an
    /// installed toolchain is left exactly as it is.
    pub fn ensure_toolchain(&mut self, name: &str)
        requires
            old(self).wf(),
        ensures
            final(self).wf(),
            final(self).has(name@),
            old(self).has(name@) ==> *final(self) == *old(self),
            !old(self).has(name@) ==> {
                &&& final(self).toolchains@.len() == old(self).toolchains@.len() + 1
                &&& final(self).toolchains@.drop_last() == old(self).toolchains@
                &&& final(self).toolchains@.last().name@ == name@
                &&& final(self).toolchains@.last().bins@.len() == 0
                &&& final(self).default_toolchain == old(self).default_toolchain
            },
    {
        match self.find(name) {
            Some(_) => {},
            None => {
                let tc = Toolchain { name: crate::strutil::str_to_string(name), bins: Vec::new() };
                self.toolchains.push(tc);
                proof {
                    assert(self.toolchains@.drop_last() =~= old(self).toolchains@);
                    assert(self.toolchains@[self.toolchains@.len() - 1].name@ == name@);
                    match old(self).default_toolchain {
                        Some(d) => {
                            let k = choose|k: int|
                                0 <= k < old(self).toolchains@.len() && (#[trigger] old(
                                    self,
                                ).toolchains@[k]).name@ == d@;
                            assert(self.toolchains@[k].name@ == d@);
                        },
                        None => {},
                    }
                }
            },
        }
    }

    /// The `default` listing line of the active toolchain, if one is set.
    pub fn show_default(&self) -> (r: Option<String>)
        ensures
            r is Some <==> self.default_toolchain is Some,
            r matches Some(s) ==> s@ == self.default_toolchain->0@ + " (default)\n"@,
    {
        match &self.default_toolchain {
            Some(d) => Some(crate::strutil::str_concat(d.as_str(), " (default)\n")),
            None => None,
        }
    }
}

/// One extracted subdirectory of a staging area: its name and the files it
/// holds.
pub struct StagedDir {
    pub name: String,
    pub files: Vec<String>,
}

/// The views of a vector of file names.
pub open spec fn names_view(v: Seq<String>) -> Seq<Seq<char>> {
    v.map_values(|s: String| s@)
}

/// Every staged file name, in staging order.
pub open spec fn staged_names(s: Seq<StagedDir>) -> Seq<Seq<char>>
    decreases s.len(),
{
    if s.len() == 0 {
        Seq::empty()
    } else {
        staged_names(s.drop_last()) + names_view(s.last().files@)
    }
}

/// Does the vector hold a file of this name?
pub open spec fn contains_name(v: Seq<String>, n: Seq<char>) -> bool {
    exists|i: int| 0 <= i < v.len() && (#[trigger] v[i])@ == n
}

/// No two entries share a name.
pub open spec fn distinct_names(v: Seq<String>) -> bool {
    forall|i: int, j: int| 0 <= i < j < v.len() ==> (#[trigger] v[i])@ != (#[trigger] v[j])@
}

/// Relocates every file of every staged subdirectory into the bin directory.
///
/// A file whose name is already present overwrites the old one — it is not
/// duplicated — and afterwards the bin directory holds exactly the old names
/// and the staged names. The returned vector lists every staged file, in
/// order, as the subdirectories are emptied and dropped.
pub fn unpack_and_relocate(staging: &Vec<StagedDir>, bin_dir: &mut Vec<String>) -> (moved: Vec<
    String,
>)
    ensures
        names_view(moved@) == staged_names(staging@),
        forall|n: Seq<char>|
            #[trigger] contains_name(final(bin_dir)@, n) <==> (contains_name(old(bin_dir)@, n)
                || staged_names(staging@).contains(n)),
        distinct_names(old(bin_dir)@) ==> distinct_names(final(bin_dir)@),
{
    let mut moved: Vec<String> = Vec::new();
    let mut i: usize = 0;
    while i < staging.len()
        invariant
            i <= staging@.len(),
            names_view(moved@) == staged_names(staging@.take(i as int)),
            forall|n: Seq<char>|
                #[trigger] contains_name(bin_dir@, n) <==> (contains_name(old(bin_dir)@, n)
                    || staged_names(staging@.take(i as int)).contains(n)),
            distinct_names(old(bin_dir)@) ==> distinct_names(bin_dir@),
        decreases staging@.len() - i,
    {
        let dir_entry = &staging[i];
        let ghost staged_before: Seq<Seq<char>> = staged_names(staging@.take(i as int));
        let mut j: usize = 0;
        while j < dir_entry.files.len()
            invariant
                j <= dir_entry.files@.len(),
                dir_entry == staging@[i as int],
                names_view(moved@) == staged_before + names_view(dir_entry.files@.take(j as int)),
                forall|n: Seq<char>|
                    #[trigger] contains_name(bin_dir@, n) <==> (contains_name(old(bin_dir)@, n)
                        || staged_before.contains(n) || names_view(
                        dir_entry.files@.take(j as int),
                    ).contains(n)),
                distinct_names(old(bin_dir)@) ==> distinct_names(bin_dir@),
                staged_before == staged_names(staging@.take(i as int)),
            decreases dir_entry.files@.len() - j,
        {
            let f = crate::strutil::str_to_string(dir_entry.files[j].as_str());
            let ghost bins_before: Seq<String> = bin_dir@;
            let ghost moved_before: Seq<String> = moved@;
            if !crate::strutil::vec_contains_str(bin_dir, f.as_str()) {
                bin_dir.push(crate::strutil::str_to_string(f.as_str()));
                proof {
                    assert forall|n: Seq<char>| #[trigger]
                        contains_name(bin_dir@, n) implies (contains_name(bins_before, n) || n
                        == f@) by {
                        let k = choose|k: int|
                            0 <= k < bin_dir@.len() && (#[trigger] bin_dir@[k])@ == n;
                        if k < bins_before.len() {
                            assert(bins_before[k]@ == n);
                        }
                    }
                    assert forall|n: Seq<char>|
                        (contains_name(bins_before, n) || n == f@) implies #[trigger]
                        contains_name(bin_dir@, n) by {
                        if contains_name(bins_before, n) {
                            let k = choose|k: int|
                                0 <= k < bins_before.len() && (#[trigger] bins_before[k])@ == n;
                            assert(bin_dir@[k]@ == n);
                        } else {
                            assert(bin_dir@[bin_dir@.len() - 1]@ == n);
                        }
                    }
                    if distinct_names(old(bin_dir)@) {
                        assert forall|a: int, b: int|
                            0 <= a < b < bin_dir@.len() implies (#[trigger] bin_dir@[a])@ != (
                        #[trigger] bin_dir@[b])@ by {
                            if b == bin_dir@.len() - 1 {
                                assert(!contains_name(bins_before, f@));
                                assert(bins_before[a]@ != f@);
                            }
                        }
                    }
                }
            }
            moved.push(f);
            proof {
                assert(names_view(moved@) =~= names_view(moved_before).push(
                    dir_entry.files@[j as int]@,
                ));
                assert(names_view(dir_entry.files@.take(j + 1)) =~= names_view(
                    dir_entry.files@.take(j as int),
                ).push(dir_entry.files@[j as int]@));
                assert(names_view(moved@) =~= staged_before + names_view(
                    dir_entry.files@.take(j + 1),
                ));
                let ghost fseq = names_view(dir_entry.files@.take(j + 1));
                assert forall|n: Seq<char>| #[trigger]
                    contains_name(bin_dir@, n) implies (contains_name(old(bin_dir)@, n)
                    || staged_before.contains(n) || fseq.contains(n)) by {
                    if !(contains_name(old(bin_dir)@, n) || staged_before.contains(n)) {
                        if n == dir_entry.files@[j as int]@ {
                            assert(fseq[fseq.len() - 1] == n);
                        } else {
                            let k = choose|k: int|
                                0 <= k < names_view(dir_entry.files@.take(j as int)).len() && (
                                #[trigger] names_view(dir_entry.files@.take(j as int))[k]) == n;
                            assert(fseq[k] == n);
                        }
                    }
                }
                assert forall|n: Seq<char>|
                    (contains_name(old(bin_dir)@, n) || staged_before.contains(n)
                        || fseq.contains(n)) implies #[trigger] contains_name(bin_dir@, n) by {
                    if fseq.contains(n) {
                        let k = choose|k: int| 0 <= k < fseq.len() && (#[trigger] fseq[k]) == n;
                        if k < j {
                            assert(names_view(dir_entry.files@.take(j as int))[k] == n);
                        } else {
                            assert(n == dir_entry.files@[j as int]@);
                            assert(contains_name(bins_before, n) || n == dir_entry.files@[j
                                as int]@);
                        }
                    }
                }
            }
            j = j + 1;
        }
        proof {
            assert(dir_entry.files@.take(dir_entry.files@.len() as int) =~= dir_entry.files@);
            assert(staging@.take(i + 1).drop_last() =~= staging@.take(i as int));
            assert(staging@.take(i + 1).last() == staging@[i as int]);
            assert(staged_names(staging@.take(i + 1)) == staged_before + names_view(
                staging@[i as int].files@,
            ));
            let ghost snew = staged_names(staging@.take(i + 1));
            assert forall|n: Seq<char>| #[trigger] snew.contains(n) implies (
            staged_before.contains(n) || names_view(dir_entry.files@).contains(n)) by {
                let k = choose|k: int| 0 <= k < snew.len() && (#[trigger] snew[k]) == n;
                if k < staged_before.len() {
                    assert(staged_before[k] == n);
                } else {
                    assert(names_view(dir_entry.files@)[k - staged_before.len()] == n);
                }
            }
            assert forall|n: Seq<char>|
                (staged_before.contains(n) || names_view(dir_entry.files@).contains(n)) implies
                #[trigger] snew.contains(n) by {
                if staged_before.contains(n) {
                    let k = choose|k: int|
                        0 <= k < staged_before.len() && (#[trigger] staged_before[k]) == n;
                    assert(snew[k] == n);
                } else {
                    let k = choose|k: int|
                        0 <= k < names_view(dir_entry.files@).len() && (#[trigger] names_view(
                            dir_entry.files@,
                        )[k]) == n;
                    assert(snew[staged_before.len() + k] == n);
                }
            }
        }
        i = i + 1;
    }
    proof {
        assert(staging@.take(staging@.len() as int) =~= staging@);
    }
    moved
}

/// The states of one toolchain's installation.
pub enum InstallState {
    Absent,
    Downloading,
    Verifying,
    Extracting,
    Installed,
    Failed,
}

/// What the surrounding pipeline observed.
pub enum InstallEvent {
    /// An install of this toolchain was requested.
    RequestInstall,
    /// The transfer completed in full.
    TransferComplete,
    /// The computed digest matched the declared hash.
    HashVerified,
    /// No hash was declared; verification is skipped with a warning.
    HashSkipped,
    /// The computed digest did not match the declared hash.
    HashMismatch,
    /// The archive was unpacked and relocated.
    UnpackSucceeded,
    /// Any other failure: transport, filesystem, or a spent retry budget.
    OperationFailed,
}

/// The installation state machine: extraction is reached only after the
/// hash matched (or none was declared), and installation only after
/// extraction; every failure is terminal.
pub fn install_step(state: &InstallState, event: &InstallEvent) -> (r: InstallState)
    ensures
        r is Downloading <==> (state is Absent && event is RequestInstall),
        r is Verifying <==> (state is Downloading && event is TransferComplete),
        r is Extracting <==> (state is Verifying && (event is HashVerified
            || event is HashSkipped)),
        r is Installed <==> (state is Extracting && event is UnpackSucceeded),
        r is Absent == false,
{
    match (state, event) {
        (InstallState::Absent, InstallEvent::RequestInstall) => InstallState::Downloading,
        (InstallState::Downloading, InstallEvent::TransferComplete) => InstallState::Verifying,
        (InstallState::Verifying, InstallEvent::HashVerified) => InstallState::Extracting,
        (InstallState::Verifying, InstallEvent::HashSkipped) => InstallState::Extracting,
        (InstallState::Extracting, InstallEvent::UnpackSucceeded) => InstallState::Installed,
        _ => InstallState::Failed,
    }
}

impl ToolchainStore {
    /// Verify-then-install for one downloaded component: the digest is held
    /// against the descriptor's declared hash strictly before anything is
    /// placed into the toolchain, and on a mismatch the store — and so the
    /// destination bin directory — is exactly as it was before the attempt.
    ///
    /// `Ok(true)` means the artifact was verified; `Ok(false)` that no hash
    /// was declared and the caller must surface a warning.
    pub fn verify_and_install(
        &mut self,
        toolchain: &str,
        cfg: &crate::download::DownloadCfg,
        digest: &str,
        staging: &Vec<StagedDir>,
    ) -> (r: Result<bool, crate::errors::Error>)
        requires
            old(self).wf(),
            old(self).has(toolchain@),
        ensures
            final(self).wf(),
            r is Err <==> (cfg.hash matches Some(h) && !crate::download::hex_eq_ci(h@, digest@)),
            r is Err ==> *final(self) == *old(self),
            r matches Err(e) ==> e matches crate::errors::Error::Integrity { .. },
            r matches Ok(verified) ==> verified == (cfg.hash is Some),
            r is Ok ==> final(self).default_toolchain == old(self).default_toolchain,
            r is Ok ==> exists|i: int|
                {
                    &&& 0 <= i < old(self).toolchains@.len()
                    &&& (#[trigger] old(self).toolchains@[i]).name@ == toolchain@
                    &&& final(self).toolchains@.len() == old(self).toolchains@.len()
                    &&& forall|k: int|
                        0 <= k < old(self).toolchains@.len() && k != i
                            ==> #[trigger] final(self).toolchains@[k] == old(self).toolchains@[k]
                    &&& final(self).toolchains@[i].name@ == toolchain@
                    &&& (forall|n: Seq<char>|
                        #[trigger] contains_name(final(self).toolchains@[i].bins@, n) <==> (
                        contains_name(old(self).toolchains@[i].bins@, n) || staged_names(
                            staging@,
                        ).contains(n)))
                    &&& (distinct_names(old(self).toolchains@[i].bins@) ==> distinct_names(
                        final(self).toolchains@[i].bins@,
                    ))
                },
    {
        match crate::download::check_integrity(&cfg.hash, digest) {
            Err(e) => Err(e),
            Ok(verified) => {
                let idx = match self.find(toolchain) {
                    Some(i) => i,
                    None => {
                        proof {
                            assert(false);
                        }
                        return Err(
                            crate::errors::Error::Filesystem {
                                message: crate::strutil::str_to_string("missing toolchain"),
                            },
                        );
                    },
                };
                let mut tc = self.toolchains.remove(idx);
                let ghost tc0 = old(self).toolchains@[idx as int];
                let _moved = unpack_and_relocate(staging, &mut tc.bins);
                self.toolchains.insert(idx, tc);
                proof {
                    assert(self.toolchains@ =~= old(self).toolchains@.update(idx as int, tc));
                    assert forall|k: int|
                        0 <= k < old(self).toolchains@.len() && k != idx implies #[trigger] self
                        .toolchains@[k] == old(self).toolchains@[k] by {}
                    assert(self.wf()) by {
                        match old(self).default_toolchain {
                            Some(d) => {
                                let k = choose|k: int|
                                    0 <= k < old(self).toolchains@.len() && (#[trigger] old(
                                        self,
                                    ).toolchains@[k]).name@ == d@;
                                assert(self.toolchains@[k].name@ == d@);
                            },
                            None => {},
                        }
                    }
                }
                Ok(verified)
            },
        }
    }
}

} // verus!
