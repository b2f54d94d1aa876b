//! CSS parsing helpers: import path resolution and the import index,
//! warnings, keywords, and the substitution of custom properties.

pub mod check_trait;
pub mod ffi;
pub mod group;
pub mod parser;
pub mod path;
pub mod selector;
pub mod shorthand;
pub mod text;
pub mod tokens;
pub mod values;
pub mod var;
pub mod var_laws;
