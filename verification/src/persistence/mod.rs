pub mod error;
pub mod pages_repo;
pub mod split;
pub mod zip;
