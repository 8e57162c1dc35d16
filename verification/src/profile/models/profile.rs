use vstd::prelude::*;

verus! {

/// What is known of a profile.
#[derive(Debug)]
pub struct Profile {
    pub name: String,
}

} // verus!
