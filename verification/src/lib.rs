use vstd::prelude::*;

pub mod text;
pub mod editor;
pub mod markdown;
pub mod finished;
pub mod keys;
pub mod pane;
pub mod app;
pub mod git_sync;
pub mod settings;

verus! {

} // verus!
