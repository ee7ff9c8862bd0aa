//! Core logic of a composable shell status line: a declarative module
//! activation scanner over cached directory listings, and a directory
//! path renderer that abbreviates, substitutes, truncates and contracts
//! the working-directory path for display.

pub mod context;
pub mod nodejs;
pub mod render;
pub mod repo;
pub mod scan;
pub mod segments;
pub mod subst;
pub mod text;
