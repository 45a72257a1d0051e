//! A literate-programming toolkit: a tangle pass extracts named, possibly
//! nested code fragments from annotated source files, and a weave pass
//! re-inserts those fragments (and metadata about them) into prose documents.

pub mod annotations;
pub mod chars;
pub mod errors;
pub mod extract;
pub mod fragment;
pub mod ids;
pub mod paths;
pub mod pattern;
pub mod recto;
pub mod symbols;
pub mod text;
pub mod verso;
pub mod weaving;

pub use annotations::AnnotationMap;
pub use errors::{FileError, IdExtractError, ParseError, PatternExtractError, WeaveError};
pub use extract::extract_fragments;
pub use fragment::Fragment;
pub use ids::extract_id;
pub use paths::find_relative_path;
pub use pattern::{extract_pattern, CompiledPattern};
pub use symbols::SymbolKey;
pub use weaving::{expand_metadata, expand_metadata_refs, weave};
