pub mod bootstrapper;
pub mod database;
pub mod snippet;

pub use bootstrapper::Bootstrapper;
pub use database::Database;
pub use snippet::Snippet;
