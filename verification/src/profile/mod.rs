//! Profiles: a subject gives one record.

pub mod request;
pub use self::request::FacebookProfileRequest;

pub mod response;
pub use self::response::FacebookProfileResponse;

pub mod recuperator;
pub use self::recuperator::FacebookProfileRecuperator;

pub mod models;
