use vstd::prelude::*;

pub mod cli;
pub mod config;
pub mod document;
pub mod git;
pub mod gui;
pub mod home;
pub mod pager;
pub mod plugins;
pub mod search;
pub mod text;

verus! {
} // verus!
