//! Reading, indexing and re-emitting Terra Invicta save documents.
//!
//! A save is JSON5-flavoured text, optionally gzip-compressed. This crate holds the typed
//! document model, the two text renderings of it, format and line-ending detection, the
//! entity index and the document facade that ties them together.
//!
//! The crate works on bytes and values. Reading files, parsing JSON5 text into values and
//! formatting native floats are left to the caller: a float enters as its bit pattern
//! together with its two decimal renderings (see [`number::TiFloat`]).

pub mod format;
pub mod index;
pub mod number;
pub mod render;
pub mod save;
pub mod shape;
pub mod statics;
pub mod text;
pub mod value;

pub use format::{LineEnding, SaveFormat};
pub use save::LoadedSave;
pub use value::TiValue;
