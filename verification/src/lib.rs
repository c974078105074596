use vstd::prelude::*;

pub mod api;
pub mod models;
pub mod offline;
pub mod protocol;
pub mod naming;
pub mod config;
pub mod crypto;
pub mod daemon;
pub mod hooks;
pub mod hub;
pub mod jsontext;
pub mod secrets;
pub mod shell;
pub mod stats;
pub mod sortutil;
pub mod store;
pub mod strutil;
pub mod tui;

verus! {

} // verus!
