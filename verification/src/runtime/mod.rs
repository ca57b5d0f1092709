//! The model as a whole: vision tower, language prefix and action expert.

pub mod denoise;
pub mod flow;
pub mod infer;
pub mod laws;
pub mod methods;
pub mod pi05;
pub mod prefix;
pub mod prepare;
pub mod styles;
pub mod vision;
pub mod words;
