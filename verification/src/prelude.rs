//! This module exports all the important types & traits to use the library
//! effectively.

pub use crate::find::{AttrQuery, NodeIterator, Query, QueryBuilder, TagQuery};
pub use crate::node_ext::NodeHandle;
pub use crate::pattern::{Pattern, RegexPattern};
pub use crate::qb_ext::{NodeChildIter, NodeParentIter, QueryBuilderExt};
pub use crate::Soup;
