//! Static single assignment for a type-checked program tree.
//!
//! The pass rebuilds a [`tree::Program`] so that every variable is bound by
//! exactly one definition. Names are resolved through a stack of rename
//! frames ([`rename_table::RenameTable`]), functions and their finalize blocks
//! are renamed in scopes of their own, and records get their two reserved
//! members moved to the front.
//!
//! [`assigner::StaticSingleAssigner`] is the pass; its methods rebuild one
//! kind of node each. What each of them returns is stated over the views of
//! [`tree`] by the functions `renamed_*` and `normalized`, and [`theorems`]
//! holds what follows for every tree.
pub mod assigner;
pub mod error;
pub mod expression;
pub mod ordered_map;
pub mod function;
pub mod metadata;
pub mod program;
pub mod record;
pub mod rename_table;
pub mod single_assignment;
pub mod statement;
pub mod symbol;
pub mod theorems;
pub mod tree;
