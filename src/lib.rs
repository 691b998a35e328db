//! A small writer of PDF files: a page tree, its resources and content streams,
//! numbered as indirect objects and closed by a cross-reference table.

pub mod color_spaces;
pub mod contents;
pub mod doc;
pub mod fmt;
pub mod fonts;
pub mod functions;
pub mod indent;
pub mod node;
pub mod objects;
pub mod page;
pub mod pdf_string;
pub mod resources;

pub use color_spaces::ColorSpace;
pub use contents::Contents;
pub use doc::Doc;
pub use fmt::Decimal;
pub use objects::{Id, IdFactory, MediaBox, Name, Pos, Version};
pub use page::{Page, PageList};
pub use pdf_string::ToPdfString;
pub use resources::Resources;
