use vstd::prelude::*;

verus! {

/// A profile lookup: the subject whose page is asked for.
pub struct FacebookProfileRequest {
    pub profile: String,
}

impl FacebookProfileRequest {
    pub fn new(profile: &str) -> (request: Self)
        ensures
            request.profile@ == profile@,
    {
        FacebookProfileRequest { profile: profile.to_owned() }
    }
}

} // verus!
