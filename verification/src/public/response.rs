use super::models::{people_views, People, PeopleView};
use vstd::prelude::*;

verus! {

/// The people found, in the order in which the page lists them.
pub struct FacebookPublicResponse {
    pub results: Vec<People>,
}

impl View for FacebookPublicResponse {
    type V = Seq<PeopleView>;

    open spec fn view(&self) -> Seq<PeopleView> {
        people_views(self.results@)
    }
}

impl FacebookPublicResponse {
    pub fn new(results: Vec<People>) -> (response: Self)
        ensures
            response.results == results,
    {
        FacebookPublicResponse { results }
    }
}

} // verus!
