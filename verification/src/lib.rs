//! A runtime text-translation resolver.
//!
//! A [`Translator`](translator::Translator) holds a default table of
//! translations and a list of context-scoped tables. Given a key, an optional
//! number, optional named values and a context, it picks one template and
//! renders it, substituting `%n` and `%{name}` tokens. A key that no table
//! resolves is rendered itself, so that translating never fails.
//!
//! Every function is specified over sequences of characters and maps of
//! them, and proved against that specification.

pub mod text;
pub mod decimal;
pub mod assoc;
pub mod textmap;
pub mod value;
pub mod table;
pub mod data;
pub mod render;
pub mod resolve;
pub mod context;
pub mod laws;
pub mod translator;

pub use context::get_context_data;
pub use data::{ContextOptions, DataOptions};
pub use render::{apply_formatting, apply_numbers, use_original_text};
pub use table::Table;
pub use textmap::TextMap;
pub use translator::Translator;
pub use value::{NumOrFormatting, Value};
