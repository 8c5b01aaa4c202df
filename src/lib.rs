//! A handle-based facade over a hierarchical (tree or list) data model:
//! persistent [`TreePath`] locations, volatile [`TreeIter`] navigation tokens,
//! a reference-counted [`TreeModel`] handle and the row change-notification
//! protocol that observers of the model rely on.

pub mod path;
pub mod store;
pub mod model;

pub use path::{PathParseError, TreePath};
pub use model::{is_permutation, ModelError, RowSignal, TreeModel};
pub use store::{ColumnType, TreeIter, TreeModelFlags, TreeStore};
