pub mod action_description;
pub mod profile;
pub mod yaml;

pub use action_description::ActionDescription;
pub use profile::Profile;

use vstd::prelude::*;
use crate::profiles::action_description::str_eq;
use crate::profiles::profile::combined_actions;

verus! {

/// Name of the profile that holds the defaults of every platform.
pub const DEFAULT_PROFILE_NAME: &'static str = "default";

/// The first of `profiles` named `name`.
pub open spec fn first_named(profiles: Seq<Profile>, name: Seq<char>) -> Option<int> {
    if exists|k: int| 0 <= k < profiles.len() && #[trigger] profiles[k].spec_name() == name {
        Some(choose|k: int| 0 <= k < profiles.len() && #[trigger] profiles[k].spec_name() == name
            && forall|j: int| 0 <= j < k ==> profiles[j].spec_name() != name)
    } else {
        None
    }
}

/// The index of the first of `profiles` named `name`, if any.
pub fn find_profile(profiles: &Vec<Profile>, name: &str) -> (r: Option<usize>)
    ensures
        match r {
            Some(k) => k < profiles@.len() && profiles@[k as int].spec_name() == name@
                && forall|j: int| 0 <= j < k ==> profiles@[j].spec_name() != name@,
            None => forall|j: int| 0 <= j < profiles@.len() ==> profiles@[j].spec_name() != name@,
        },
        r == match first_named(profiles@, name@) {
            Some(k) => Some(k as usize),
            None => None::<usize>,
        },
{
    let mut i: usize = 0;
    while i < profiles.len()
        invariant
            i <= profiles@.len(),
            forall|j: int| 0 <= j < i ==> profiles@[j].spec_name() != name@,
        decreases profiles@.len() - i,
    {
        if str_eq(profiles[i].name(), name) {
            proof {
                let k = choose|k: int| 0 <= k < profiles@.len() && #[trigger] profiles@[k].spec_name() == name@
                    && forall|j: int| 0 <= j < k ==> profiles@[j].spec_name() != name@;
                assert(k == i as int) by {
                    if k < i {
                    } else if k > i {
                        assert(profiles@[i as int].spec_name() == name@);
                    }
                }
            }
            return Some(i);
        }
        i += 1;
    }
    None
}

/// The profile of the platform `os`: the default profile overridden by the profile named
/// `os`, when there is one, else the default profile. The default profile must be among
/// `profiles`.
pub fn os_profile(profiles: &Vec<Profile>, os: &str) -> (r: Profile)
    requires
        first_named(profiles@, DEFAULT_PROFILE_NAME@) is Some,
    ensures
        ({
            let d = profiles@[first_named(profiles@, DEFAULT_PROFILE_NAME@).unwrap()];
            match first_named(profiles@, os@) {
                Some(k) => r.spec_name() == profiles@[k].spec_name()
                    && r.spec_actions() == combined_actions(d.spec_actions(), profiles@[k].spec_actions()),
                None => r.spec_name() == d.spec_name() && r.spec_actions() == d.spec_actions(),
            }
        }),
{
    let d = find_profile(profiles, DEFAULT_PROFILE_NAME).unwrap();
    match find_profile(profiles, os) {
        Some(k) => profiles[d].combine(&profiles[k]),
        None => profiles[d].clone(),
    }
}

} // verus!
