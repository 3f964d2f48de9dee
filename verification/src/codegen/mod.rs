//! Helpers of the Ruby code generator: string escaping, an indenting
//! line buffer, the table from prelude names to the Ruby the generator
//! emits for them, patterns as Ruby patterns, the parts of a module's
//! file that do not depend on how expressions are translated, and where
//! each module's Ruby file goes.
pub mod decl;
pub mod emit;
pub mod output;
pub mod pattern;
pub mod runtime;

pub use output::{module_output_path, module_rb_path, to_snake_case, GeneratedFile, GeneratedProgram};
