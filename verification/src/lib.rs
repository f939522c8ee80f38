use vstd::prelude::*;

pub mod actions;
pub mod classic;
pub mod control;
pub mod filter;
pub mod input;
pub mod pins;
pub mod preview;
pub mod state;
pub mod store;
pub mod sync;
pub mod text;
pub mod theme;
pub mod tmux;
pub mod tree_view;

verus! {

} // verus!
