//! Dense matrix multiplication under different compute-dispatch strategies.
//!
//! The library holds the parts that decide: the matrix shape model, the per-variant dispatch
//! geometry, the enumeration of launched work items, the kernels and the CPU drivers that run
//! them, the planning of a GPU multiply, and a corner check against directly computed dot
//! products. The element type is left generic: the caller supplies the zero value and the
//! multiply-add step, so the same kernel serves any number type.
//!
//! The device kernels are compiled from their own sources into blobs that the host program
//! loads; nothing here ties them to the kernels of this crate. Their agreement rests on running
//! both over the same grid and comparing the outputs, which `oracle::verify_results` does.
pub mod settings;
pub mod variants;
pub mod grid;
pub mod kernel;
pub mod error;
pub mod cpu;
pub mod gpu;
pub mod oracle;
pub mod laws;
