//! Versions, products and releases of the Ansible packages.

pub mod error;
pub mod order;
pub mod parse;
pub mod product;
pub mod release;
pub mod round_trip;
pub mod text;
pub mod version;
pub mod write;

pub use error::AnsibleError;
pub use product::Product;
pub use release::Bound;
pub use release::Release;
pub use release::ReleaseView;
pub use release::VersionRange;
pub use version::Stage;
pub use version::Version;
pub use version::VersionView;
