use vstd::prelude::*;

pub mod auth;
pub mod config;
pub mod download;
pub mod gpu;
pub mod keys;
pub mod logs;
pub mod models;
pub mod order;
pub mod queue;
pub mod requests;
pub mod resources;
pub mod scheduler;
pub mod system;
pub mod text;
pub mod worker;

verus! {

} // verus!
