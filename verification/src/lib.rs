use vstd::prelude::*;

pub mod adb;
pub mod firmware;
pub mod forms;
pub mod host;
pub mod logs;
pub mod mcp;
pub mod models;
pub mod order;
pub mod path;
pub mod serial;
pub mod store;
pub mod text;
pub mod tunnel;
pub mod util;

verus! {

} // verus!
