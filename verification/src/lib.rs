//! Release metadata for the Ansible family of packages: version strings and
//! their order, the latest release within a range of versions, and a guess at
//! the date of the release that follows.

pub mod ansible;
pub mod pypi;
pub mod timestamp;
