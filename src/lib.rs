//! Runtime support for Python-semantics code running as Rust: a dynamic value type
//! and its coercions, Python string and sequence primitives, an interval-based type
//! registry, self-contained PNG and GIF byte-stream encoders, and programs written
//! against them (grid animations, a small interpreted language, small routines).

pub mod checksum;
pub mod gif;
pub mod grids;
pub mod minilang;
pub mod numtext;
pub mod path;
pub mod png;
pub mod routines;
pub mod semantics;
pub mod slicing;
pub mod text;
pub mod types;
pub mod value;
