use super::models::Profile;
use vstd::prelude::*;

verus! {

/// The record of one profile.
#[derive(Debug)]
pub struct FacebookProfileResponse {
    pub profile: Profile,
}

impl FacebookProfileResponse {
    pub fn new(profile: Profile) -> (response: Self)
        ensures
            response.profile == profile,
    {
        FacebookProfileResponse { profile }
    }
}

} // verus!
