//! The core of an encrypted note store: protected models, their JSON and
//! encryption layer, and the rules by which messages enter and leave the core.

pub mod capi;
pub mod crypto;
pub mod error;
pub mod json;
pub mod messaging;
pub mod models;
pub mod sock;
pub mod startup;
pub mod text;
