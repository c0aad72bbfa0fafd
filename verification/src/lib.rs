//! Arx: declarative package manifests for Arch Linux, with the manifest
//! rules, the include resolution, the install plan and the pacman
//! configuration reader verified.
use vstd::prelude::*;

pub mod loader;
pub mod manifest;
pub mod pacman_conf;
pub mod plan;
pub mod resolution;
pub mod text;

verus! {

} // verus!
