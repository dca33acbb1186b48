//! Literate programming: a source file becomes a page that shows its
//! comments, as prose, beside the code they describe.

pub mod docco;
pub mod error;
pub mod language;
pub mod markdown;
pub mod path;
pub mod section;
pub mod segment;
pub mod template;
pub mod text;

pub use docco::{Docco, Location, PathKind, RenderTarget};
pub use error::Error;
pub use language::{Language, LanguageTable};
pub use section::Section;
