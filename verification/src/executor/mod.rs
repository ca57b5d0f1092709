//! Transformer layers composed of the kernel compositions in [`crate::ops`].

pub mod action;
pub mod attention;
pub mod blocks;
pub mod caches;
pub mod frame;
pub mod language;
pub mod layers;
pub mod laws;
pub mod linear;
pub mod rotate;
pub mod vision;
pub mod words;

pub use caches::{AscendCaches, NzCache};
