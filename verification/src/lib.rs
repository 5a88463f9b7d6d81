//! Symbol indexing, route extraction and search ranking for source trees.

pub mod indexing;
pub mod model;
pub mod routes;
pub mod search;
pub mod syntax;
pub mod text;
pub mod tools;
pub mod watch;
