use vstd::prelude::*;

pub mod app_context;
pub mod caret;
pub mod chinese;
pub mod cleanup;
pub mod ghost;
pub mod json;
pub mod models;
pub mod output;
pub mod preview;
pub mod pull;
pub mod reply;
pub mod session;
pub mod settings;
pub mod text;
pub mod tone;

verus! {

} // verus!
