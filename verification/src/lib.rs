//! Verified core of an interactive HTTP workflow runner: an ordered list of
//! request steps is executed one at a time, values extracted from each
//! response are bound to named variables, and those variables are substituted
//! into the payloads of later steps.

pub mod engine;
pub mod extract;
pub mod request;
pub mod step;
pub mod json;
pub mod response;
pub mod store;
pub mod text;
