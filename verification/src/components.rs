//! The component registry as the library consumes it: a read-only lookup
//! table supplied by the caller, one entry per installable component.
use vstd::prelude::*;

verus! {

/// The name of the tool's own self-update component.
pub const FUELUP: &'static str = "fuelup";

/// One installable component as the registry declares it.
pub struct Component {
    pub name: String,
    pub repository_name: String,
    pub tarball_prefix: String,
    pub targets: Vec<String>,
}

/// The first registry entry named `name`, if one exists.
pub fn lookup<'a>(registry: &'a Vec<Component>, name: &str) -> (r: Option<&'a Component>)
    ensures
        match r {
            Some(c) => exists|i: int|
                0 <= i < registry@.len() && (#[trigger] registry@[i]).name@ == name@ && c
                    == &registry@[i],
            None => forall|i: int|
                0 <= i < registry@.len() ==> (#[trigger] registry@[i]).name@ != name@,
        },
{
    let mut i: usize = 0;
    while i < registry.len()
        invariant
            i <= registry@.len(),
            forall|j: int| 0 <= j < i ==> (#[trigger] registry@[j]).name@ != name@,
        decreases registry@.len() - i,
    {
        if crate::strutil::str_eq(registry[i].name.as_str(), name) {
            return Some(&registry[i]);
        }
        i = i + 1;
    }
    None
}

} // verus!
