//! What the operations are for, stated of what they are given and what they give back.
//!
//! Each law speaks of a call that was made: `call_ensures` holds of its arguments and its
//! result. The laws say what is then true in terms of texts, numbers and the maps that the
//! catalog holds.

pub mod collections;
pub mod files;
pub mod gateway;
pub mod jobs;
pub mod library;
pub mod listings;
pub mod mime;
pub mod numbers;
pub mod options;
pub mod paths;
pub mod posters;
pub mod scan;
pub mod streaming;
pub mod uploads;
