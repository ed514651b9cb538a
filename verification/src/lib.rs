//! Symbolic construction and scalarisation of numerical kernels.
//!
//! Scalars, vectors and matrices record every operation applied to them as a
//! node of a single-assignment program. The program can then be lowered to
//! scalar nodes only, rendered for a range analyser, annotated with the number
//! formats the analyser reports, and emitted as fixed-point C.

pub mod codegen_c;
pub mod codegen_dsl;
pub mod config;
pub mod daisy;
pub mod expr;
pub mod fresh;
pub mod identifier;
pub mod idmap;
pub mod lowering;
pub mod matrix;
pub mod meaning;
pub mod namemap;
pub mod naming;
pub mod plan;
pub mod precision;
pub mod preserve;
pub mod program;
pub mod rational;
pub mod results;
pub mod scalar;
pub mod session;
pub mod shape;
pub mod spread;
pub mod text;
pub mod unroll;
pub mod values;
pub mod vector;

pub use config::Config;
pub use matrix::{add_input_matrix, register_matrix_output, Matrix};
pub use precision::Precision;
pub use rational::Real;
pub use scalar::{add_input_scalar, register_scalar_output, Scalar};
pub use session::Session;
pub use vector::{add_input_vector, register_vector_output, Vector};
