//! Composition of federated GraphQL subgraphs into a single supergraph.
//!
//! A set of independently authored partial schemas ("subgraphs") is expanded,
//! upgraded and validated, then merged into one supergraph schema, which is
//! finally checked for satisfiability: every field of the merged schema must
//! be resolvable by some combination of subgraphs.

pub mod composition;
pub mod error;
pub mod render;
pub mod model;
pub mod laws;
pub mod merge;
pub mod satisfiability;
pub mod subgraph;
pub mod supergraph;

pub use composition::CompositionOptions;
pub use composition::compose;
pub use composition::compose_with_options;
pub use error::CompositionError;
pub use error::Hint;
pub use model::FieldDef;
pub use model::FieldSet;
pub use model::FieldType;
pub use model::SchemaDoc;
pub use model::TypeDef;
pub use render::render_sdl;
pub use supergraph::Supergraph;
