use vstd::prelude::*;

pub mod text;
pub mod types;
pub mod lineup;
pub mod draft;
pub mod waiver;
pub mod config;
pub mod anthropic;
pub mod providers;
pub mod ffi;
pub mod server;
pub mod ui;
pub mod scheduler;
pub mod news;

verus! {
} // verus!
