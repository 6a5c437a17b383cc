//! Compile-time transformations of command-line argument declarations: one
//! builds a default instance from the fields' `#[arg(...)]` defaults, the
//! other namespaces each field's identifiers by the struct's name.
//!
//! Both work on a plain-value model of the struct declaration (`syntax`),
//! and each is proved to compute exactly what its specification describes.
pub mod syntax;
pub mod util;
pub mod prefix;
pub mod defaults;

pub use defaults::derive_default;
pub use prefix::prefix;
