//! The target languages that come with the compiler.

pub mod python;
pub mod typescript;

pub use python::PythonGenerator;
pub use typescript::TypeScriptGenerator;
