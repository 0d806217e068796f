//! The engine of an application launcher: the catalog of installed
//! applications, the record of what the user said of them, and the rules by
//! which the two are joined, refreshed and categorized.
//!
//! The library decides and computes; it never touches the machine. Its
//! callers search for bundles, look at files and run tools, and hand over
//! what they found as plain values.

use vstd::prelude::*;

pub mod apps;
pub mod config;
pub mod digest;
pub mod icons;
pub mod laws;
pub mod path_map;
pub mod paths;
pub mod scripts;
pub mod shortcuts;
pub mod sorting;
pub mod text;
pub mod wallpaper;
