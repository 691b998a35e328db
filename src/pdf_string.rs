//! The text that a value takes in a PDF file.

use vstd::prelude::*;
use crate::fmt::{dec, push_dec, Decimal};

verus! {

/// A value with a fixed text in a PDF file.
pub trait ToPdfString {
    spec fn pdf_text(&self) -> Seq<char>;

    fn to_pdf_string(&self) -> (r: String)
        ensures
            r@ == self.pdf_text(),
    ;
}

/// The parts one after another, with `sep` between two neighbours.
pub open spec fn join(parts: Seq<Seq<char>>, sep: Seq<char>) -> Seq<char>
    decreases parts.len(),
{
    if parts.len() == 0 {
        Seq::empty()
    } else if parts.len() == 1 {
        parts[0]
    } else {
        join(parts.drop_last(), sep) + sep + parts.last()
    }
}

/// A PDF array: the parts between brackets, separated by single spaces.
pub open spec fn array_text(parts: Seq<Seq<char>>) -> Seq<char> {
    "["@ + join(parts, " "@) + "]"@
}

pub open spec fn texts_of<T: ToPdfString>(items: Seq<T>) -> Seq<Seq<char>> {
    items.map_values(|x: T| x.pdf_text())
}

/// The items' texts separated by single spaces.
pub fn join_texts<T: ToPdfString>(items: &[T]) -> (r: String)
    ensures
        r@ == join(texts_of(items@), " "@),
{
    let mut s = String::new();
    let mut i: usize = 0;
    while i < items.len()
        invariant
            i <= items@.len(),
            s@ == join(texts_of(items@).take(i as int), " "@),
        decreases items@.len() - i,
    {
        if i > 0 {
            s.append(" ");
        }
        let t = items[i].to_pdf_string();
        s.append(t.as_str());
        proof {
            let parts = texts_of(items@).take(i + 1);
            assert(parts.drop_last() =~= texts_of(items@).take(i as int));
            assert(parts.last() == t@);
            if i == 0 {
                assert(parts.len() == 1);
                assert(join(texts_of(items@).take(0), " "@) =~= Seq::<char>::empty());
            }
        }
        i = i + 1;
        assert(s@ =~= join(texts_of(items@).take(i as int), " "@));
    }
    assert(texts_of(items@).take(i as int) =~= texts_of(items@));
    s
}

/// The PDF array of the items' texts.
pub fn ite_to_pdf_string<T: ToPdfString>(items: &[T]) -> (r: String)
    ensures
        r@ == array_text(texts_of(items@)),
{
    let s = String::from_str("[");
    let inner = join_texts(items);
    let s = s.concat(inner.as_str());
    s.concat("]")
}

impl ToPdfString for u32 {
    open spec fn pdf_text(&self) -> Seq<char> {
        dec(*self as nat)
    }

    fn to_pdf_string(&self) -> (r: String) {
        let mut s = String::new();
        push_dec(&mut s, *self as u64);
        assert(s@ =~= dec(*self as nat));
        s
    }
}

impl ToPdfString for Decimal {
    open spec fn pdf_text(&self) -> Seq<char> {
        self.text()
    }

    fn to_pdf_string(&self) -> (r: String) {
        let mut s = String::new();
        self.push_text(&mut s);
        assert(s@ =~= self.text());
        s
    }
}

/// A pair is written as its two texts with a space between.
impl<T: ToPdfString> ToPdfString for (T, T) {
    open spec fn pdf_text(&self) -> Seq<char> {
        self.0.pdf_text() + " "@ + self.1.pdf_text()
    }

    fn to_pdf_string(&self) -> (r: String) {
        let mut s = self.0.to_pdf_string();
        s.append(" ");
        let t = self.1.to_pdf_string();
        s.append(t.as_str());
        s
    }
}

impl<T: ToPdfString> ToPdfString for Vec<T> {
    open spec fn pdf_text(&self) -> Seq<char> {
        array_text(texts_of(self@))
    }

    fn to_pdf_string(&self) -> (r: String) {
        ite_to_pdf_string(self.as_slice())
    }
}

impl<T: ToPdfString, const N: usize> ToPdfString for [T; N] {
    open spec fn pdf_text(&self) -> Seq<char> {
        array_text(texts_of(self@))
    }

    fn to_pdf_string(&self) -> (r: String) {
        ite_to_pdf_string(self.as_slice())
    }
}

} // verus!
