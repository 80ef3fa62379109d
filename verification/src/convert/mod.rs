//! Source-format conversion: Brief exported to Markdown.
pub mod to_md;

pub use to_md::{to_markdown, MdDiag, MdHole, MdResult};
