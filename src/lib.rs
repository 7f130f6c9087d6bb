//! The transfer engine of an object-storage migration: which objects still
//! have to be sent, how each is sent, how a large one is cut into numbered
//! parts and its completion manifest assembled, how a destination bucket is
//! provided, and how a bucket is emptied and deleted. Requests to the storage
//! service are made by the caller; this crate decides what they are.

use vstd::prelude::*;

pub mod bucket;
pub mod config;
pub mod diff;
pub mod manifest;
pub mod parts;
pub mod purge;
pub mod strategy;

verus! {

} // verus!
