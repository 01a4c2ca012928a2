//! A tool abstraction and name-addressed registry for agents that invoke
//! host-defined functions through a uniform, type-erased calling convention.
//!
//! Tool authors implement the strongly typed [`tool::Tool`] capability; the
//! adapter layer erases its types behind a string-valued interface; the
//! [`toolset::ToolSet`] registry stores erased tools under their names and
//! dispatches calls by exact name match.
//!
//! Arguments and results cross the erasure boundary as JSON text.  The JSON
//! value model, its serializer and its parser are part of this library and
//! carry proofs; the parser is proved to invert the serializer.

pub mod definition;
pub mod errors;
pub mod json;
pub mod json_laws;
pub mod parser;
pub mod tool;
pub mod toolset;

pub use definition::ToolDefinition;
pub use errors::ToolError;
pub use errors::ToolSetError;
pub use json::Json;
pub use parser::JsonError;
pub use tool::EmbeddingAdapter;
pub use tool::Tool;
pub use tool::ToolAdapter;
pub use tool::ToolDyn;
pub use tool::ToolEmbedding;
pub use tool::ToolEmbeddingDyn;
pub use toolset::Document;
pub use toolset::ToolSet;
pub use toolset::ToolSetBuilder;
pub use toolset::ToolType;
