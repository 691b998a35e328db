//! Content streams: the operators that paint a page.

use vstd::prelude::*;
use vstd::utf8::encode_utf8;
use crate::fmt::{dec, push_dec, Decimal};
use crate::indent::{indent, indent_text};
use crate::functions::string_bytes;
use crate::node::{headed_from, lemma_headed_one, Node};
use crate::objects::{id_text, Id, IdFactory, Pos};
use crate::pdf_string::{join, join_texts, texts_of};

verus! {

/// The dictionary of a stream whose payload is `len` bytes long.
pub open spec fn stream_dict_text(len: nat) -> Seq<char> {
    "<<\n  /Length "@ + dec(len) + "\n>>"@
}

/// A content stream object: the dictionary, whose lines are indented by `depth`,
/// then the payload as it is, whose length in bytes the dictionary declares.
pub open spec fn contents_text(num: nat, generation: nat, stream: Seq<char>, depth: nat) -> Seq<char> {
    id_text(num, generation) + " obj\n"@ + indent_text(
        stream_dict_text(encode_utf8(stream).len()),
        depth,
        false,
    ) + "\nstream\n"@ + stream + "\nendstream\nendobj"@
}

/// `/<name> cs`
pub open spec fn fill_color_space_op(name: Seq<char>) -> Seq<char> {
    "/"@ + name + " cs"@
}

/// `<c1> ... <cn> scn`
pub open spec fn fill_color_space_color_op(colors: Seq<Decimal>) -> Seq<char> {
    join(texts_of(colors), " "@) + " scn"@
}

/// `<a> <b> <c> <op>`
pub open spec fn three_op(a: Decimal, b: Decimal, c: Decimal, op: Seq<char>) -> Seq<char> {
    a.text() + " "@ + b.text() + " "@ + c.text() + " "@ + op
}

/// `<c> <m> <y> <k> k`
pub open spec fn cmyk_op(c: Decimal, m: Decimal, y: Decimal, k: Decimal) -> Seq<char> {
    c.text() + " "@ + m.text() + " "@ + y.text() + " "@ + k.text() + " k"@
}

/// `<x> <y> <width> <height> re f`
pub open spec fn fill_rect_op(x: nat, y: nat, width: nat, height: nat) -> Seq<char> {
    dec(x) + " "@ + dec(y) + " "@ + dec(width) + " "@ + dec(height) + " re f"@
}

/// A text object that shows `text` with the font `font_name` at `pos`.
pub open spec fn fill_text_op(font_name: Seq<char>, font_size: nat, pos: Pos, text: Seq<char>) -> Seq<char> {
    "BT\n  /"@ + font_name + " "@ + dec(font_size) + " Tf\n  "@ + dec(pos.x as nat) + " "@ + dec(
        pos.y as nat,
    ) + " Td\n  0 Tr\n  ("@ + text + ") Tj\nET"@
}

/// The content stream of a page.
#[derive(Debug)]
pub struct Contents {
    id: Id,
    operators: Vec<String>,
}

impl Contents {
    pub closed spec fn spec_id(&self) -> Id {
        self.id
    }

    /// The operators, in the order they were added.
    pub closed spec fn ops(&self) -> Seq<Seq<char>> {
        self.operators@.map_values(|s: String| s@)
    }

    /// The payload: the operators, one per line.
    pub open spec fn stream(&self) -> Seq<char> {
        join(self.ops(), "\n"@)
    }

    pub open spec fn text(&self, depth: nat) -> Seq<char> {
        contents_text(self.spec_id().num(), self.spec_id().generation(), self.stream(), depth)
    }

    /// The number of indirect objects: the stream alone.
    pub open spec fn count(&self) -> nat {
        1
    }

    pub open spec fn numbered(&self, start: nat) -> bool {
        self.spec_id().num() == start && self.spec_id().generation() == 0
    }

    pub open spec fn objects_from(&self, start: nat) -> Seq<Seq<u8>> {
        seq![encode_utf8(contents_text(start, 0, self.stream(), 0))]
    }

    /// The stream object opens with its number.
    pub proof fn lemma_headed(&self, start: nat)
        ensures
            headed_from(self.objects_from(start), start),
            self.objects_from(start).len() == self.count(),
    {
        let stream = self.stream();
        let rest = indent_text(stream_dict_text(encode_utf8(stream).len()), 0, false) + "\nstream\n"@ + stream
            + "\nendstream\nendobj"@;
        assert(contents_text(start, 0, stream, 0) =~= id_text(start, 0) + " obj\n"@ + rest);
        lemma_headed_one(contents_text(start, 0, stream, 0), start, rest);
    }

    pub fn id(&self) -> (r: Id)
        ensures
            r == self.spec_id(),
    {
        self.id
    }

    /// Numbers the stream with the next identifier.
    pub fn assign_ids(&mut self, id_factory: &mut IdFactory)
        requires
            old(id_factory).next_num() < u32::MAX,
        ensures
            final(self).numbered(old(id_factory).next_num()),
            final(id_factory).next_num() == old(id_factory).next_num() + final(self).count(),
            final(self).ops() == old(self).ops(),
    {
        self.id = id_factory.next_id();
    }

    /// The stream as the one object it is.
    pub fn get_objects(&self) -> (r: Vec<Node<'_>>)
        ensures
            r@ == seq![Node::Contents(self)],
    {
        let mut v: Vec<Node<'_>> = Vec::new();
        v.push(Node::Contents(self));
        assert(v@ =~= seq![Node::Contents(self)]);
        v
    }

    pub fn to_bytes(&self, indent_depth: usize) -> (r: Vec<u8>)
        requires
            2 * indent_depth <= usize::MAX,
        ensures
            r@ == encode_utf8(self.text(indent_depth as nat)),
    {
        let s = self.to_string(indent_depth);
        string_bytes(&s)
    }

    pub fn new() -> (r: Contents)
        ensures
            r.ops() == Seq::<Seq<char>>::empty(),
            r.spec_id().num() == 0,
            r.spec_id().generation() == 0,
    {
        let r = Contents { id: Id::new_0(), operators: Vec::new() };
        assert(r.ops() =~= Seq::<Seq<char>>::empty());
        r
    }

    fn push_op(&mut self, op: String)
        ensures
            final(self).ops() == old(self).ops().push(op@),
            final(self).spec_id() == old(self).spec_id(),
    {
        self.operators.push(op);
        assert(self.ops() =~= old(self).ops().push(op@));
    }

    /// Selects the named colour space for filling.
    pub fn set_fill_color_space(&mut self, name: &str)
        ensures
            final(self).ops() == old(self).ops().push(fill_color_space_op(name@)),
            final(self).spec_id() == old(self).spec_id(),
    {
        let s = String::from_str("/");
        let s = s.concat(name);
        let s = s.concat(" cs");
        self.push_op(s);
    }

    /// Sets the fill colour in the selected colour space, one value per component.
    pub fn set_fill_color_space_color<const COLOR_NUM: usize>(&mut self, colors: [Decimal; COLOR_NUM])
        ensures
            final(self).ops() == old(self).ops().push(fill_color_space_color_op(colors@)),
            final(self).spec_id() == old(self).spec_id(),
    {
        let s = join_texts(colors.as_slice());
        let s = s.concat(" scn");
        self.push_op(s);
    }

    fn push_three(&mut self, a: Decimal, b: Decimal, c: Decimal, op: &str)
        ensures
            final(self).ops() == old(self).ops().push(three_op(a, b, c, op@)),
            final(self).spec_id() == old(self).spec_id(),
    {
        let mut s = String::new();
        a.push_text(&mut s);
        s.append(" ");
        b.push_text(&mut s);
        s.append(" ");
        c.push_text(&mut s);
        s.append(" ");
        s.append(op);
        assert(s@ =~= three_op(a, b, c, op@));
        self.push_op(s);
    }

    /// Sets the stroke colour in DeviceRGB.
    pub fn set_stroke_color(&mut self, r: Decimal, g: Decimal, b: Decimal)
        ensures
            final(self).ops() == old(self).ops().push(three_op(r, g, b, "RG"@)),
            final(self).spec_id() == old(self).spec_id(),
    {
        self.push_three(r, g, b, "RG");
    }

    /// Sets the fill colour in DeviceRGB.
    pub fn set_fill_color(&mut self, r: Decimal, g: Decimal, b: Decimal)
        ensures
            final(self).ops() == old(self).ops().push(three_op(r, g, b, "rg"@)),
            final(self).spec_id() == old(self).spec_id(),
    {
        self.push_three(r, g, b, "rg");
    }

    /// Sets the fill colour in DeviceCMYK.
    pub fn set_fill_cmyk_color(&mut self, c: Decimal, m: Decimal, y: Decimal, k: Decimal)
        ensures
            final(self).ops() == old(self).ops().push(cmyk_op(c, m, y, k)),
            final(self).spec_id() == old(self).spec_id(),
    {
        let mut s = String::new();
        c.push_text(&mut s);
        s.append(" ");
        m.push_text(&mut s);
        s.append(" ");
        y.push_text(&mut s);
        s.append(" ");
        k.push_text(&mut s);
        s.append(" k");
        assert(s@ =~= cmyk_op(c, m, y, k));
        self.push_op(s);
    }

    /// Fills a rectangle with the fill colour.
    pub fn fill_rect(&mut self, x: u32, y: u32, width: u32, height: u32)
        ensures
            final(self).ops() == old(self).ops().push(
                fill_rect_op(x as nat, y as nat, width as nat, height as nat),
            ),
            final(self).spec_id() == old(self).spec_id(),
    {
        let mut s = String::new();
        push_dec(&mut s, x as u64);
        s.append(" ");
        push_dec(&mut s, y as u64);
        s.append(" ");
        push_dec(&mut s, width as u64);
        s.append(" ");
        push_dec(&mut s, height as u64);
        s.append(" re f");
        assert(s@ =~= fill_rect_op(x as nat, y as nat, width as nat, height as nat));
        self.push_op(s);
    }

    /// Shows `text` with the named font of the page's resources, at `pos`.
    pub fn fill_text(&mut self, font_name: &str, font_size: u32, pos: Pos, text: &str)
        ensures
            final(self).ops() == old(self).ops().push(
                fill_text_op(font_name@, font_size as nat, pos, text@),
            ),
            final(self).spec_id() == old(self).spec_id(),
    {
        let mut s = String::from_str("BT\n  /");
        s.append(font_name);
        s.append(" ");
        push_dec(&mut s, font_size as u64);
        s.append(" Tf\n  ");
        push_dec(&mut s, pos.x as u64);
        s.append(" ");
        push_dec(&mut s, pos.y as u64);
        s.append(" Td\n  0 Tr\n  (");
        s.append(text);
        s.append(") Tj\nET");
        assert(s@ =~= fill_text_op(font_name@, font_size as nat, pos, text@));
        self.push_op(s);
    }

    /// The payload: the operators joined by line feeds.
    fn get_stream_string(&self) -> (r: String)
        ensures
            r@ == self.stream(),
    {
        let mut s = String::new();
        let mut i: usize = 0;
        while i < self.operators.len()
            invariant
                i <= self.operators@.len(),
                s@ == join(self.ops().take(i as int), "\n"@),
            decreases self.operators@.len() - i,
        {
            if i > 0 {
                s.append("\n");
            }
            s.append(self.operators[i].as_str());
            proof {
                let parts = self.ops().take(i + 1);
                assert(parts.drop_last() =~= self.ops().take(i as int));
                if i == 0 {
                    assert(join(self.ops().take(0), "\n"@) =~= Seq::<char>::empty());
                }
            }
            i = i + 1;
            assert(s@ =~= join(self.ops().take(i as int), "\n"@));
        }
        assert(self.ops().take(i as int) =~= self.ops());
        s
    }

    /// The stream object; the dictionary's lines are indented by `indent_size` levels.
    pub fn to_string(&self, indent_size: usize) -> (r: String)
        requires
            2 * indent_size <= usize::MAX,
        ensures
            r@ == self.text(indent_size as nat),
    {
        let stream = self.get_stream_string();
        let len = stream.as_str().as_bytes().len();
        let mut dict = String::from_str("<<\n  /Length ");
        push_dec(&mut dict, len as u64);
        dict.append("\n>>");
        assert(len == encode_utf8(stream@).len());
        assert(dict@ =~= stream_dict_text(encode_utf8(stream@).len()));
        let mut s = self.id.to_string();
        s.append(" obj\n");
        let d = indent(dict.as_str(), indent_size);
        s.append(d.as_str());
        s.append("\nstream\n");
        s.append(stream.as_str());
        s.append("\nendstream\nendobj");
        assert(s@ =~= self.text(indent_size as nat));
        s
    }
}

} // verus!
