//! Models: records whose private fields are stored encrypted.

pub mod content;
pub mod laws;
pub mod meaning;
pub mod model;
pub mod protected;
pub mod roundtrip;
