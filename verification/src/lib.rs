//! MoonDisk's verified core: the disk and partition model, the rules an
//! operation is checked against, the confirmation phrase, and the USB
//! writer's file-system builders.
use vstd::prelude::*;

pub mod models;
pub mod operations;
pub mod platform;
pub mod flash;
pub mod security;
pub mod service;
pub mod helper;
pub mod commands;
pub mod text;

verus! {

} // verus!
