//! The record that a profile page yields.

pub mod profile;
pub use self::profile::Profile;
