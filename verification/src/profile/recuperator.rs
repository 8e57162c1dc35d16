use super::models::Profile;
use super::request::FacebookProfileRequest;
use super::response::FacebookProfileResponse;
use crate::dom::Dom;
use crate::transport::Requester;
use vstd::prelude::*;

verus! {

/// The name given to every profile for as long as no rule reads one from the
/// page.
pub const PLACEHOLDER_NAME: &'static str = "Test";

/// What is answered to a lookup for which the transport returned `fetched`:
/// the record with the placeholder name, or the transport's error as it
/// came.
pub open spec fn answers<E>(
    fetched: Result<String, E>,
    answer: Result<FacebookProfileResponse, E>,
) -> bool {
    match fetched {
        Ok(html) => answer matches Ok(response) && response.profile.name@ == PLACEHOLDER_NAME@,
        Err(error) => answer == Err::<FacebookProfileResponse, E>(error),
    }
}

/// Turns the answer to a profile lookup into the record of that profile.
pub struct FacebookProfileRecuperator<T: Requester> {
    requester: T,
}

impl<T: Requester> FacebookProfileRecuperator<T> {
    pub fn new(requester: T) -> (recuperator: Self)
        ensures
            recuperator.requester() == requester,
    {
        FacebookProfileRecuperator { requester }
    }

    /// The transport that pages are fetched with.
    pub closed spec fn requester(&self) -> T {
        self.requester
    }

    /// The record of the profile that `document` shows. No field is read
    /// from the page yet: every profile gets the placeholder name.
    pub fn extract_profile(&self, document: Dom) -> (profile: Profile)
        ensures
            profile.name@ == PLACEHOLDER_NAME@,
    {
        Profile { name: PLACEHOLDER_NAME.to_owned() }
    }

    /// The answer to a lookup, given what the transport returned for it: the
    /// record of the profile, or the transport's error as it came.
    pub fn respond(&self, fetched: Result<String, T::Error>) -> (answer: Result<
        FacebookProfileResponse,
        T::Error,
    >)
        ensures
            answers(fetched, answer),
    {
        match fetched {
            Ok(html) => {
                let document = Dom::load(html.as_str());
                let profile = self.extract_profile(document);
                Ok(FacebookProfileResponse::new(profile))
            },
            Err(error) => Err(error),
        }
    }

    /// Fetches the page of the subject of `request` and answers with its
    /// record. The transport is asked once, for the subject of the request,
    /// and the answer is the one that `respond` gives to what the transport
    /// returned: only the transport can fail, and its error is handed on as
    /// it came.
    pub fn compute(&self, request: FacebookProfileRequest) -> (answer: Result<
        FacebookProfileResponse,
        T::Error,
    >)
        ensures
            exists|subject: &str, fetched: Result<String, T::Error>|
                subject@ == request.profile@ && #[trigger] call_ensures(
                    T::request,
                    (&self.requester(), subject),
                    fetched,
                ) && answers(fetched, answer),
    {
        let subject = request.profile.as_str();
        let fetched = self.requester.request(subject);
        let ghost returned = fetched;
        let answer = self.respond(fetched);
        proof {
            assert(call_ensures(T::request, (&self.requester(), subject), returned));
        }
        answer
    }
}

} // verus!
