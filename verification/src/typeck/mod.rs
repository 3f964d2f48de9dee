//! The type checker: Hindley–Milner inference with let-polymorphism over
//! data types, structural records, patterns, single-parameter classes
//! with higher-kinded variables, the prelude, and the `Ruby` monad.
//!
//! [`check_program`] checks a resolved program module by module, each
//! after the modules it imports; [`check_module_standalone`] checks one
//! module against the prelude alone.
pub mod classes;
pub mod display;
pub mod env;
pub mod error;
pub mod infer;
pub mod prelude;
pub mod subst_spec;
pub mod ty;
pub mod unify;
pub mod program;

pub use program::{check_module_standalone, check_program, TypedModule, TypedProgram};
