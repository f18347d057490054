//! Pure domain model: nodes, metadata, the catalog graph and search queries.

pub mod catalog;
pub mod error;
pub mod graph;
pub mod metadata;
pub mod node;
pub mod search;

pub use catalog::{CatalogSnapshot, RenderError};
pub use error::DomainError;
pub use metadata::{Metadata, Tag};
pub use node::{
    Node, NodeBody, NodeHeader, NodeId, NodeKind, NonEmptyChildren, Revision, Symbol, XmlText,
    is_xml_10_char,
};
pub use search::{SearchField, SearchHit, SearchMatcher, SearchQuery, SearchScope};
