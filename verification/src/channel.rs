//! In-memory model of a published release channel.
//!
//! A channel is the publisher, the publish date, and a mapping from component
//! name to a resolved version with per-target download descriptors.
use vstd::prelude::*;

verus! {

/// A downloadable artifact: its URL and the lowercase hex SHA-256 digest of
/// its contents.
pub struct HashedBinary {
    pub url: String,
    pub hash: String,
}

/// One target's entry inside a package: the target triple and its binary.
pub struct TargetEntry {
    pub target: String,
    pub binary: HashedBinary,
}

/// One component inside a channel: its resolved version and the download
/// descriptor of every published target.
pub struct Package {
    pub version: String,
    pub targets: Vec<TargetEntry>,
}

/// A named package of a channel.
pub struct ChannelPackage {
    pub name: String,
    pub package: Package,
}

/// A release channel: publisher, date, and its packages in emission order.
pub struct Channel {
    pub published_by: String,
    pub date: String,
    pub pkg: Vec<ChannelPackage>,
}

impl Package {
    /// The first entry for `target`, if the package publishes one.
    pub fn target_entry(&self, target: &str) -> (r: Option<&TargetEntry>)
        ensures
            match r {
                Some(te) => exists|i: int|
                    0 <= i < self.targets@.len() && (#[trigger] self.targets@[i]).target@
                        == target@ && te == self.targets@[i],
                None => forall|i: int|
                    0 <= i < self.targets@.len() ==> (#[trigger] self.targets@[i]).target@
                        != target@,
            },
    {
        let mut i: usize = 0;
        while i < self.targets.len()
            invariant
                i <= self.targets@.len(),
                forall|j: int|
                    0 <= j < i ==> (#[trigger] self.targets@[j]).target@ != target@,
            decreases self.targets@.len() - i,
        {
            if crate::strutil::str_eq(self.targets[i].target.as_str(), target) {
                return Some(&self.targets[i]);
            }
            i = i + 1;
        }
        None
    }
}

impl Channel {
    /// The first package named `name`, if the channel carries one.
    pub fn get(&self, name: &str) -> (r: Option<&Package>)
        ensures
            match r {
                Some(p) => exists|i: int|
                    {
                        &&& 0 <= i < self.pkg@.len()
                        &&& (#[trigger] self.pkg@[i]).name@ == name@
                        &&& (forall|j: int| 0 <= j < i ==> self.pkg@[j].name@ != name@)
                        &&& p == &self.pkg@[i].package
                    },
                None => forall|i: int|
                    0 <= i < self.pkg@.len() ==> (#[trigger] self.pkg@[i]).name@ != name@,
            },
    {
        let mut i: usize = 0;
        while i < self.pkg.len()
            invariant
                i <= self.pkg@.len(),
                forall|j: int| 0 <= j < i ==> (#[trigger] self.pkg@[j]).name@ != name@,
            decreases self.pkg@.len() - i,
        {
            if crate::strutil::str_eq(self.pkg[i].name.as_str(), name) {
                return Some(&self.pkg[i].package);
            }
            i = i + 1;
        }
        None
    }
}

} // verus!
