//! A small package registry: the catalogue of packages and their releases,
//! the rules that decide which uploaded parts become releases, and the
//! checks that a stored snapshot of the catalogue must pass to be loaded.

pub mod clock;
pub mod error;
pub mod filename;
pub mod registry;
pub mod upload;
