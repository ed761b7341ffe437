//! Memory: the objects that meet the storage contract.

pub mod composite;
pub mod io;

pub use crate::storage::{Image, Memory, Storage};
