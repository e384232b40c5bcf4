//! The engine of a small concatenative language: values, vocabularies,
//! words and the machine that runs them.
pub mod collections;
pub mod compiler;
pub mod number;
pub mod spec_get_vm;
pub mod value;
pub mod vm;
pub mod vocabulary;
pub mod words;

pub use value::{AsOdraType, AsOdraValue, FromOdraValue, OdraRef, OdraType, OdraValue};
pub use vm::{Fibre, OdraError, Vm};
pub use vocabulary::Vocabulary;
pub use words::{Behavior, StackEffect, Word};
