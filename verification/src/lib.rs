//! Review annotations, markdown outline extraction and viewer state logic
//! for a small markdown reader.

use vstd::prelude::*;

pub mod annotate;
pub mod config;
pub mod events;
pub mod ipc;
pub mod markdown;
pub mod navigate;
pub mod paths;
pub mod text;
pub mod viewer;
pub mod theme;

verus! {

} // verus!
