pub mod text;
pub mod types;
pub mod token;
pub mod ast;
pub mod scope;
pub mod hir;
pub mod semantic;
pub mod code;
pub mod loader;
pub mod compile;
