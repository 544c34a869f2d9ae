//! Exports Terraform output values to the variables of HCP Terraform
//! workspaces: values are classified and encoded for the remote API, the
//! targets are matched against the variables that already exist, and the
//! creates and updates are applied in order under the API's rate limit.
//! The network calls themselves are made by the caller, from the requests
//! this library builds, and their answers are read back by it.
use vstd::prelude::*;

pub mod text;
pub mod value;
pub mod json;
pub mod codec;
pub mod client;
pub mod limiter;
pub mod export;
pub mod sync;
pub mod workspace;

verus! {

} // verus!
