//! Search results: a query gives a list of people.

pub mod request;
pub use self::request::FacebookPublicRequest;

pub mod response;
pub use self::response::FacebookPublicResponse;

pub mod recuperator;
pub use self::recuperator::FacebookPublicRecuperator;

pub mod models;
