use super::details::{views, Details, DetailsView};
use vstd::prelude::*;

verus! {

/// One person of a result list.
#[derive(Eq, PartialEq, PartialOrd, Ord, Debug, Clone)]
pub struct People {
    pub name: String,
    pub profile_url: String,
    pub profile_picture: String,
    pub current_activity: Option<Details>,
    pub additional_information: Vec<Details>,
}

/// What a `People` stands for.
pub struct PeopleView {
    pub name: Seq<char>,
    pub profile_url: Seq<char>,
    pub profile_picture: Seq<char>,
    pub current_activity: Option<DetailsView>,
    pub additional_information: Seq<DetailsView>,
}

impl View for People {
    type V = PeopleView;

    open spec fn view(&self) -> PeopleView {
        PeopleView {
            name: self.name@,
            profile_url: self.profile_url@,
            profile_picture: self.profile_picture@,
            current_activity: match self.current_activity {
                Some(details) => Some(details@),
                None => None,
            },
            additional_information: views(self.additional_information@),
        }
    }
}

/// What each of `people` stands for, in order.
pub open spec fn people_views(people: Seq<People>) -> Seq<PeopleView> {
    people.map_values(|p: People| p@)
}

impl People {
    /// Puts the fields of a record together, as they are given.
    pub fn new(
        name: &str,
        profile_url: &str,
        profile_picture: &str,
        current_activity: Option<Details>,
        additional_information: Vec<Details>,
    ) -> (people: Self)
        ensures
            people.name@ == name@,
            people.profile_url@ == profile_url@,
            people.profile_picture@ == profile_picture@,
            people.current_activity == current_activity,
            people.additional_information == additional_information,
    {
        People {
            name: name.to_owned(),
            profile_url: profile_url.to_owned(),
            profile_picture: profile_picture.to_owned(),
            current_activity,
            additional_information,
        }
    }
}

} // verus!
