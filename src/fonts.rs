//! Fonts.

use vstd::prelude::*;
use crate::indent::{indent, indent_text};
use crate::objects::Name;
use crate::pdf_string::ToPdfString;

verus! {

/// The dictionary of a standard Type 1 font with the given base font name.
pub open spec fn type1_text(base_font: Seq<char>) -> Seq<char> {
    "<<\n  /Type /Font\n  /Subtype /Type1\n  /BaseFont "@ + base_font + "\n>>"@
}

/// A Type 1 font, named by its base font.
#[derive(Debug)]
pub struct Type1 {
    base_font_name: Name,
}

impl Type1 {
    pub closed spec fn base_font(&self) -> Seq<char> {
        self.base_font_name@
    }

    pub fn new(base_font_name: &str) -> (r: Type1)
        ensures
            r.base_font() == base_font_name@,
    {
        Type1 { base_font_name: Name::new(base_font_name) }
    }
}

impl ToPdfString for Type1 {
    open spec fn pdf_text(&self) -> Seq<char> {
        type1_text("/"@ + self.base_font())
    }

    fn to_pdf_string(&self) -> (r: String) {
        let s = String::from_str("<<\n  /Type /Font\n  /Subtype /Type1\n  /BaseFont ");
        let name = self.base_font_name.to_pdf_string();
        let s = s.concat(name.as_str());
        s.concat("\n>>")
    }
}

/// A font of a page's resources.
#[derive(Debug)]
pub enum Font {
    Type1(Type1),
}

impl Font {
    /// A Type 1 font with the given base font name.
    pub fn new(base_font_name: &str) -> (r: Font)
        ensures
            r.pdf_text() == type1_text("/"@ + base_font_name@),
    {
        Font::new_type1(base_font_name)
    }

    /// A Type 1 font with the given base font name.
    pub fn new_type1(base_font_name: &str) -> (r: Font)
        ensures
            r.pdf_text() == type1_text("/"@ + base_font_name@),
    {
        Font::Type1(Type1::new(base_font_name))
    }

    /// The font dictionary, each line indented by `indent_size` times two spaces.
    pub fn to_string(&self, indent_size: usize) -> (r: String)
        requires
            2 * indent_size <= usize::MAX,
        ensures
            r@ == indent_text(self.pdf_text(), indent_size as nat, false),
    {
        let s = self.to_pdf_string();
        indent(s.as_str(), indent_size)
    }
}

impl ToPdfString for Font {
    open spec fn pdf_text(&self) -> Seq<char> {
        match self {
            Font::Type1(f) => f.pdf_text(),
        }
    }

    fn to_pdf_string(&self) -> (r: String) {
        match self {
            Font::Type1(f) => f.to_pdf_string(),
        }
    }
}

} // verus!
