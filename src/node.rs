//! The indirect objects of a document, and what holds of their bytes.

use vstd::prelude::*;
use vstd::utf8::encode_utf8;
use crate::color_spaces::DeviceN;
use crate::contents::Contents;
use crate::functions::Type0;
use crate::objects::{id_text, Id};
use crate::page::{Page, PageList};
use crate::resources::Resources;

verus! {

/// `<num> 0 obj`, the line that opens an object of generation 0.
pub open spec fn header_text(num: nat) -> Seq<char> {
    id_text(num, 0) + " obj"@
}

pub open spec fn starts_with(a: Seq<u8>, prefix: Seq<u8>) -> bool {
    prefix.len() <= a.len() && a.subrange(0, prefix.len() as int) == prefix
}

/// Object `i` of `objs` opens as object number `start + i`.
pub open spec fn headed_from(objs: Seq<Seq<u8>>, start: nat) -> bool {
    forall|i: int| 0 <= i < objs.len() ==> starts_with(#[trigger] objs[i], encode_utf8(header_text((start + i) as nat)))
}

/// The bytes of a string followed by another are the bytes of the first followed by
/// those of the second.
pub proof fn lemma_encode_concat(a: Seq<char>, b: Seq<char>)
    ensures
        encode_utf8(a + b) == encode_utf8(a) + encode_utf8(b),
    decreases a.len(),
{
    if a.len() > 0 {
        assert((a + b).drop_first() =~= a.drop_first() + b);
        lemma_encode_concat(a.drop_first(), b);
        assert(encode_utf8(a + b) =~= encode_utf8(a) + encode_utf8(b));
    } else {
        assert(a + b =~= b);
        assert(encode_utf8(a) =~= Seq::<u8>::empty());
        assert(encode_utf8(a) + encode_utf8(b) =~= encode_utf8(b));
    }
}

/// An object written as `<num> <gen> obj` and a line feed opens with its header.
pub proof fn lemma_object_opens(num: nat, rest: Seq<char>, tail: Seq<u8>)
    ensures
        starts_with(encode_utf8(id_text(num, 0) + " obj\n"@ + rest) + tail, encode_utf8(header_text(num))),
{
    reveal_strlit(" obj\n");
    reveal_strlit(" obj");
    let h = header_text(num);
    assert(id_text(num, 0) + " obj\n"@ + rest =~= h + ("\n"@ + rest)) by {
        reveal_strlit("\n");
    }
    lemma_encode_concat(h, "\n"@ + rest);
    let all = encode_utf8(h) + encode_utf8("\n"@ + rest) + tail;
    assert(encode_utf8(id_text(num, 0) + " obj\n"@ + rest) + tail =~= all);
    assert(all.subrange(0, encode_utf8(h).len() as int) =~= encode_utf8(h));
}

/// A single object that opens with the header of `num`.
pub proof fn lemma_headed_one(text: Seq<char>, num: nat, rest: Seq<char>)
    requires
        text == id_text(num, 0) + " obj\n"@ + rest,
    ensures
        headed_from(seq![encode_utf8(text)], num),
{
    lemma_object_opens(num, rest, Seq::empty());
    assert(encode_utf8(text) + Seq::<u8>::empty() =~= encode_utf8(text));
    assert(seq![encode_utf8(text)][0] == encode_utf8(text));
}

pub proof fn lemma_headed_concat(a: Seq<Seq<u8>>, b: Seq<Seq<u8>>, start: nat)
    requires
        headed_from(a, start),
        headed_from(b, start + a.len()),
    ensures
        headed_from(a + b, start),
{
    assert forall|i: int| 0 <= i < (a + b).len() implies starts_with(
        #[trigger] (a + b)[i],
        encode_utf8(header_text((start + i) as nat)),
    ) by {
        if i >= a.len() {
            assert((a + b)[i] == b[i - a.len()]);
            assert(start + a.len() + (i - a.len()) == start + i);
        } else {
            assert((a + b)[i] == a[i]);
        }
    }
}

/// An indirect object of a document.
pub enum Node<'a> {
    PageList(&'a PageList),
    Page(&'a Page),
    Resources(&'a Resources),
    Contents(&'a Contents),
    DeviceN(&'a DeviceN),
    Type0(&'a Type0),
}

impl<'a> Node<'a> {
    /// The bytes of the object, written at the given depth.
    pub open spec fn bytes(&self, depth: nat) -> Seq<u8> {
        match self {
            Node::PageList(n) => encode_utf8(n.text()),
            Node::Page(n) => encode_utf8(n.text()),
            Node::Resources(n) => encode_utf8(n.text()),
            Node::Contents(n) => encode_utf8(n.text(depth)),
            Node::DeviceN(n) => encode_utf8(n.text(depth)),
            Node::Type0(n) => n.bytes(depth),
        }
    }

    pub open spec fn spec_id(&self) -> Id {
        match self {
            Node::PageList(n) => n.spec_id(),
            Node::Page(n) => n.spec_id(),
            Node::Resources(n) => n.spec_id(),
            Node::Contents(n) => n.spec_id(),
            Node::DeviceN(n) => n.spec_id(),
            Node::Type0(n) => n.spec_id(),
        }
    }

    pub fn id(&self) -> (r: Id)
        ensures
            r == self.spec_id(),
    {
        match self {
            Node::PageList(n) => n.id(),
            Node::Page(n) => n.id(),
            Node::Resources(n) => n.id(),
            Node::Contents(n) => n.id(),
            Node::DeviceN(n) => n.id(),
            Node::Type0(n) => n.id(),
        }
    }

    /// The object as bytes; `indent_depth` indents the lines of those that nest.
    pub fn to_bytes(&self, indent_depth: usize) -> (r: Vec<u8>)
        requires
            2 * indent_depth + 2 <= usize::MAX,
        ensures
            r@ == self.bytes(indent_depth as nat),
    {
        match self {
            Node::PageList(n) => n.to_bytes(),
            Node::Page(n) => n.to_bytes(),
            Node::Resources(n) => n.to_bytes(),
            Node::Contents(n) => n.to_bytes(indent_depth),
            Node::DeviceN(n) => n.to_bytes(indent_depth),
            Node::Type0(n) => n.to_bytes(indent_depth),
        }
    }
}

/// The bytes of each node, written at depth 0.
pub open spec fn nodes_bytes(nodes: Seq<Node>) -> Seq<Seq<u8>> {
    nodes.map_values(|n: Node| n.bytes(0))
}

} // verus!
