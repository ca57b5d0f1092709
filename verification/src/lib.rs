//! Recording, planning and running of device programs for an Ascend accelerator.
pub mod ada_rms;
pub mod backend;
pub mod cache;
pub mod capture;
pub mod context;
pub mod device;
pub mod driver;
pub mod encode;
pub mod error;
pub mod exchange;
pub mod executor;
pub mod ge_builder;
pub mod graph;
pub mod heap;
pub mod host;
pub mod kernel;
pub mod library;
pub mod model;
pub mod opening;
pub mod ops;
pub mod refusals;
pub mod rope;
pub mod runtime;
pub mod semantics;
pub mod stream;
pub mod tensor;
pub mod text;
pub mod transfer;
pub mod vla;
