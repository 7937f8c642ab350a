//! Generation of server-handler skeletons from an API description document.
//!
//! A document lists paths, the operations that each path declares, and the
//! parameters and request bodies of those operations. For every declared
//! operation one function is generated: its documentation comment, its
//! normalized name, the binders of its arguments, a placeholder for its
//! return type and a placeholder for its body. The functions are emitted as
//! one formatted unit, in the order of their names.
//!
//! - `document`: the document as generation reads it, and the fixed order of
//!   the methods of a path.
//! - `walker`: the order in which the path table is walked.
//! - `types`: the type that a parameter's schema resolves to.
//! - `binder`: the argument list of an operation.
//! - `synth`: the generated operation of a declared one.
//! - `registry`: the generated operations by name.
//! - `emitter`: the source text of the unit, and what the formatter makes of
//!   it.
//! - `generator`: the run as a whole.
//! - `laws`: what holds of every run.
//! - `outside`: the calls into other crates, whose contracts are believed.
//! - `text`, `error`: helpers on text, and the failures of a run.

pub mod binder;
pub mod document;
pub mod emitter;
pub mod error;
pub mod generator;
pub mod laws;
pub mod outside;
pub mod registry;
pub mod synth;
pub mod text;
pub mod types;
pub mod walker;
