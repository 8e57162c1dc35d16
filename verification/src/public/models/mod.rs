//! The records that a search yields.

pub mod details;
pub use self::details::{views, Details, DetailsView};

pub mod people;
pub use self::people::{people_views, People, PeopleView};
