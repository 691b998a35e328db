//! The document: numbering its objects, writing them, and closing the file with a
//! cross-reference table and a trailer.

use vstd::prelude::*;
use vstd::utf8::encode_utf8;
use crate::fmt::{dec, padded, push_dec, push_padded};
use crate::functions::string_bytes;
use crate::node::{header_text, headed_from, lemma_headed_concat, lemma_headed_one, nodes_bytes, starts_with};
use crate::objects::{id_text, ref_text, version_text, Id, IdFactory, Version, PAGE_LIST_NUM};
use crate::page::{kids_from, page_list_text, Page, PageList};

verus! {

/// The header: the version comment line, which for a file marked as binary goes
/// on with four bytes above 0x7F.
pub open spec fn header_bytes(ver: Version, is_binary: bool) -> Seq<u8> {
    encode_utf8(version_text(ver)) + if is_binary {
        seq![0x80u8, 0x80u8, 0x80u8, 0x80u8]
    } else {
        Seq::<u8>::empty()
    }
}

/// The body: each object after a line feed.
pub open spec fn body_bytes(objs: Seq<Seq<u8>>) -> Seq<u8>
    decreases objs.len(),
{
    if objs.len() == 0 {
        Seq::empty()
    } else {
        body_bytes(objs.drop_last()) + seq![0x0Au8] + objs.last()
    }
}

/// Where each object starts when the body starts at `base`.
pub open spec fn body_offsets(objs: Seq<Seq<u8>>, base: nat) -> Seq<nat> {
    Seq::new(objs.len(), |i: int| base + body_bytes(objs.take(i)).len() + 1)
}

proof fn lemma_body_push(done: Seq<Seq<u8>>, obj: Seq<u8>, base: nat)
    ensures
        body_bytes(done.push(obj)) == body_bytes(done) + seq![0x0Au8] + obj,
        body_offsets(done.push(obj), base) == body_offsets(done, base).push(base + body_bytes(done).len() + 1),
{
    assert(done.push(obj).drop_last() =~= done);
    assert forall|k: int| 0 <= k < done.len() implies done.push(obj).take(k) == done.take(k) by {
        assert(done.push(obj).take(k) =~= done.take(k));
    }
    assert(done.push(obj).take(done.len() as int) =~= done);
    assert(body_offsets(done.push(obj), base) =~= body_offsets(done, base).push(base + body_bytes(done).len() + 1));
}

/// Appends a line feed and an object, and records where the object starts.
fn append_object(
    bytes: &mut Vec<u8>,
    byte_offsets: &mut Vec<usize>,
    obj: &mut Vec<u8>,
    Ghost(header): Ghost<Seq<u8>>,
    Ghost(done): Ghost<Seq<Seq<u8>>>,
)
    requires
        old(bytes)@ == header + body_bytes(done),
        old(byte_offsets)@.map_values(|o: usize| o as nat) == body_offsets(done, header.len()),
    ensures
        final(bytes)@ == header + body_bytes(done.push(old(obj)@)),
        final(byte_offsets)@.map_values(|o: usize| o as nat) == body_offsets(done.push(old(obj)@), header.len()),
{
    let ghost o = obj@;
    let ghost offs = byte_offsets@;
    bytes.push(0x0A);
    byte_offsets.push(bytes.len());
    bytes.append(obj);
    proof {
        lemma_body_push(done, o, header.len());
        assert(bytes@ =~= header + body_bytes(done.push(o)));
        assert(byte_offsets@.map_values(|x: usize| x as nat) =~= offs.map_values(|x: usize| x as nat).push(
            header.len() + body_bytes(done).len() + 1,
        ));
    }
}

proof fn lemma_body_object(objs: Seq<Seq<u8>>, base: nat, i: int)
    requires
        0 <= i < objs.len(),
    ensures
        ({
            let o = body_offsets(objs, base)[i] - base;
            &&& 0 <= o
            &&& o + objs[i].len() <= body_bytes(objs).len()
            &&& body_bytes(objs).subrange(o, o + objs[i].len()) == objs[i]
        }),
    decreases objs.len(),
{
    let prev = objs.drop_last();
    let last = objs.len() - 1;
    assert(body_bytes(objs) == body_bytes(prev) + seq![0x0Au8] + objs.last());
    if i == last {
        assert(objs.take(i) =~= prev);
        assert((body_bytes(prev) + seq![0x0Au8] + objs.last()).subrange(
            body_bytes(prev).len() + 1 as int,
            body_bytes(prev).len() + 1 + objs.last().len() as int,
        ) =~= objs.last());
    } else {
        lemma_body_object(prev, base, i);
        assert(prev.take(i) =~= objs.take(i));
        let o = body_offsets(objs, base)[i] - base;
        assert(body_offsets(prev, base)[i] == body_offsets(objs, base)[i]);
        assert(body_bytes(objs).subrange(o, o + objs[i].len()) =~= body_bytes(prev).subrange(o, o + objs[i].len()));
    }
}

/// The document catalog, numbered `num`, naming the page collection by the
/// reference `pages`.
pub open spec fn catalog_text(num: nat, generation: nat, pages: Seq<char>) -> Seq<char> {
    id_text(num, generation) + " obj\n<< /Type /Catalog\n   /Pages "@ + pages + "\n>>\nendobj"@
}

/// The line of the cross-reference table for an object in use at `offset`.
pub open spec fn xref_entry(offset: nat) -> Seq<char> {
    padded(offset, 10) + " 00000 n \n"@
}

/// The lines for objects 1, 2, ..., one per offset, in order.
pub open spec fn xref_entries(offsets: Seq<nat>) -> Seq<char>
    decreases offsets.len(),
{
    if offsets.len() == 0 {
        Seq::empty()
    } else {
        xref_entries(offsets.drop_last()) + xref_entry(offsets.last())
    }
}

/// The cross-reference table: the range of numbers, the free entry of object 0,
/// then the entries of the objects that follow.
pub open spec fn xref_table_text(offsets: Seq<nat>) -> Seq<char> {
    "0 "@ + dec(offsets.len() + 1) + "\n0000000000 65535 f \n"@ + xref_entries(offsets)
}

/// The trailer, naming the root by the reference `root`.
pub open spec fn trailer_text(root: Seq<char>, size: nat) -> Seq<char> {
    "trailer\n<< /Root "@ + root + "\n   /Size "@ + dec(size) + "\n>>\n"@
}

/// What follows the body, when the `xref` keyword stands at `xref_pos`.
pub open spec fn closing_text(offsets: Seq<nat>, xref_pos: nat) -> Seq<char> {
    "xref\n"@ + xref_table_text(offsets) + trailer_text(ref_text(offsets.len(), 0), offsets.len() + 1) + "startxref\n"@
        + dec(xref_pos) + "\n%%EOF\n"@
}

/// A file with the given header and objects, numbered 1, 2, ... in order; the
/// last is the root.
pub open spec fn file_bytes(header: Seq<u8>, objs: Seq<Seq<u8>>) -> Seq<u8> {
    let body = body_bytes(objs);
    header + body + seq![0x0Au8] + encode_utf8(
        closing_text(body_offsets(objs, header.len()), header.len() + body.len() + 1),
    )
}

/// PDF document
#[derive(Debug)]
pub struct Doc {
    ver: Version,
    is_binary: bool,
    page_list: PageList,
}

impl Doc {
    pub closed spec fn spec_version(&self) -> Version {
        self.ver
    }

    pub closed spec fn spec_is_binary(&self) -> bool {
        self.is_binary
    }

    pub closed spec fn spec_page_list(&self) -> PageList {
        self.page_list
    }

    /// The objects of the file in order: those of the page tree, then the catalog.
    pub open spec fn objects(&self) -> Seq<Seq<u8>> {
        self.spec_page_list().objects().push(
            encode_utf8(
                catalog_text(self.spec_page_list().count() + 1, 0, ref_text(PAGE_LIST_NUM as nat, 0)),
            ),
        )
    }

    /// The bytes of the file.
    pub open spec fn bytes(&self) -> Seq<u8> {
        file_bytes(header_bytes(self.spec_version(), self.spec_is_binary()), self.objects())
    }

    /// Creates new PDF document
    pub fn new(ver: Version) -> (r: Doc)
        ensures
            r.spec_version() == ver,
            r.spec_is_binary(),
            r.spec_page_list().spec_pages().len() == 0,
            r.spec_page_list().spec_id().num() == 0,
            r.spec_page_list().spec_id().generation() == 0,
    {
        Doc { ver, is_binary: true, page_list: PageList::new() }
    }

    /// Adds the page to the back, and hands it back to be filled in.
    pub fn push_page(&mut self, page: Page) -> (r: &mut Page)
        ensures
            *r == page,
            final(self).spec_page_list().spec_pages() == old(self).spec_page_list().spec_pages().push(
                *final(r),
            ),
            final(self).spec_version() == old(self).spec_version(),
            final(self).spec_is_binary() == old(self).spec_is_binary(),
    {
        self.page_list.push(page)
    }

    /// Whether the objects of the document can be numbered: `to_bytes` asks this.
    pub fn fits(&self) -> (r: bool)
        ensures
            r == (self.spec_page_list().count() + 2 <= u32::MAX),
    {
        self.page_list.count_up_to(u32::MAX as u64 - 2).is_some()
    }

    fn get_header_bytes(&self) -> (r: Vec<u8>)
        ensures
            r@ == header_bytes(self.ver, self.is_binary),
    {
        let mut bytes = self.ver.to_bytes();
        if self.is_binary {
            bytes.push(0x80);
            bytes.push(0x80);
            bytes.push(0x80);
            bytes.push(0x80);
        }
        assert(bytes@ =~= header_bytes(self.ver, self.is_binary));
        bytes
    }

    fn get_doc_catalog_bytes(&self, id: &Id, page_list_id: &Id) -> (r: Vec<u8>)
        ensures
            r@ == encode_utf8(catalog_text(id.num(), id.generation(), page_list_id.ref_text())),
    {
        let mut s = id.to_string();
        s.append(" obj\n<< /Type /Catalog\n   /Pages ");
        let t = page_list_id.to_ref_string();
        s.append(t.as_str());
        s.append("\n>>\nendobj");
        assert(s@ =~= catalog_text(id.num(), id.generation(), page_list_id.ref_text()));
        string_bytes(&s)
    }

    fn get_cross_ref_table(&self, byte_offsets: &Vec<usize>) -> (r: String)
        requires
            byte_offsets@.len() < u32::MAX,
        ensures
            r@ == xref_table_text(byte_offsets@.map_values(|o: usize| o as nat)),
    {
        let ghost offs = byte_offsets@.map_values(|o: usize| o as nat);
        let mut s = String::from_str("0 ");
        push_dec(&mut s, byte_offsets.len() as u64 + 1);
        s.append("\n0000000000 65535 f \n");
        let ghost head = s@;
        let mut i: usize = 0;
        while i < byte_offsets.len()
            invariant
                i <= byte_offsets@.len(),
                offs == byte_offsets@.map_values(|o: usize| o as nat),
                s@ == head + xref_entries(offs.take(i as int)),
            decreases byte_offsets@.len() - i,
        {
            push_padded(&mut s, byte_offsets[i] as u64, 10);
            s.append(" 00000 n \n");
            proof {
                assert(offs.take(i + 1).drop_last() =~= offs.take(i as int));
                assert(offs.take(i + 1).last() == byte_offsets@[i as int] as nat);
            }
            i = i + 1;
            assert(s@ =~= head + xref_entries(offs.take(i as int)));
        }
        assert(offs.take(i as int) =~= offs);
        assert(offs.len() == byte_offsets@.len());
        assert(s@ =~= xref_table_text(offs));
        s
    }

    fn get_trailer(&self, doc_catalog_id: &Id, object_count: usize) -> (r: String)
        ensures
            r@ == trailer_text(doc_catalog_id.ref_text(), object_count as nat),
    {
        let mut s = String::from_str("trailer\n<< /Root ");
        let t = doc_catalog_id.to_ref_string();
        s.append(t.as_str());
        s.append("\n   /Size ");
        push_dec(&mut s, object_count as u64);
        s.append("\n>>\n");
        assert(s@ =~= trailer_text(doc_catalog_id.ref_text(), object_count as nat));
        s
    }

    /// The cross-reference section, the trailer and the end of the file, where the
    /// `xref` keyword stands at `cross_ref_offset`.
    fn get_closing_bytes(&self, byte_offsets: &Vec<usize>, doc_catalog_id: &Id, cross_ref_offset: usize) -> (r: Vec<
        u8,
    >)
        requires
            byte_offsets@.len() < u32::MAX,
            doc_catalog_id.num() == byte_offsets@.len(),
            doc_catalog_id.generation() == 0,
        ensures
            r@ == encode_utf8(
                closing_text(byte_offsets@.map_values(|o: usize| o as nat), cross_ref_offset as nat),
            ),
    {
        let mut s = String::from_str("xref\n");
        let t = self.get_cross_ref_table(byte_offsets);
        s.append(t.as_str());
        let t = self.get_trailer(doc_catalog_id, byte_offsets.len() + 1);
        s.append(t.as_str());
        s.append("startxref\n");
        push_dec(&mut s, cross_ref_offset as u64);
        s.append("\n%%EOF\n");
        assert(s@ =~= closing_text(byte_offsets@.map_values(|o: usize| o as nat), cross_ref_offset as nat));
        string_bytes(&s)
    }

    /// Numbers the objects afresh and writes the file: the header, each object of
    /// the page tree in the order it was numbered, the catalog, the cross-reference
    /// table and the trailer. The bytes depend on the pages alone, so writing again
    /// gives the same bytes.
    pub fn to_bytes(&mut self) -> (r: Vec<u8>)
        requires
            old(self).spec_page_list().count() + 2 <= u32::MAX,
        ensures
            r@ == old(self).bytes(),
            final(self).bytes() == old(self).bytes(),
            final(self).spec_page_list().numbered(),
            final(self).spec_page_list().count() == old(self).spec_page_list().count(),
            final(self).spec_version() == old(self).spec_version(),
            final(self).spec_is_binary() == old(self).spec_is_binary(),
    {
        let mut id_factory = IdFactory::new();
        self.page_list.assign_ids(&mut id_factory);
        let ghost objs = self.objects();
        let ghost tree = self.page_list.objects();
        let mut bytes = self.get_header_bytes();
        let ghost header = bytes@;
        let mut byte_offsets: Vec<usize> = Vec::new();
        let objects = self.page_list.get_objects();
        let ghost nodes = objects@;
        assert(nodes_bytes(nodes) == tree);
        assert(body_offsets(tree.take(0), header.len()) =~= Seq::<nat>::empty());
        assert(byte_offsets@.map_values(|o: usize| o as nat) =~= Seq::<nat>::empty());
        assert(tree.take(0) =~= Seq::<Seq<u8>>::empty());
        assert(bytes@ =~= header + body_bytes(tree.take(0)));
        let mut i: usize = 0;
        while i < objects.len()
            invariant
                i <= objects@.len() == nodes.len() == tree.len(),
                nodes == objects@,
                nodes_bytes(nodes) == tree,
                bytes@ == header + body_bytes(tree.take(i as int)),
                byte_offsets@.map_values(|o: usize| o as nat) == body_offsets(tree.take(i as int), header.len()),
            decreases nodes.len() - i,
        {
            let mut b = objects[i].to_bytes(0);
            proof {
                assert(tree.take(i + 1) =~= tree.take(i as int).push(b@));
            }
            append_object(&mut bytes, &mut byte_offsets, &mut b, Ghost(header), Ghost(tree.take(i as int)));
            i = i + 1;
        }
        assert(tree.take(i as int) =~= tree);
        proof {
            self.page_list.lemma_objects_len();
        }
        let doc_catalog_id = id_factory.next_id();
        let pl_id = self.page_list.id();
        let mut b = self.get_doc_catalog_bytes(&doc_catalog_id, &pl_id);
        assert(objs =~= tree.push(b@));
        append_object(&mut bytes, &mut byte_offsets, &mut b, Ghost(header), Ghost(tree));
        assert(byte_offsets@.map_values(|o: usize| o as nat).len() == byte_offsets@.len());
        assert(byte_offsets@.len() == objs.len());
        assert(objs.len() == tree.len() + 1);
        assert(doc_catalog_id.num() == byte_offsets@.len());
        bytes.push(0x0A);
        let cross_ref_offset = bytes.len();
        let mut tail = self.get_closing_bytes(&byte_offsets, &doc_catalog_id, cross_ref_offset);
        bytes.append(&mut tail);
        proof {
            assert(bytes@ =~= file_bytes(header, objs));
        }
        bytes
    }

    /// Where each object of the file starts, object 1 first: the offsets that the
    /// cross-reference table lists in this order.
    pub open spec fn xref_offsets(&self) -> Seq<nat> {
        body_offsets(self.objects(), header_bytes(self.spec_version(), self.spec_is_binary()).len())
    }

    /// Where the trailer starts.
    pub open spec fn trailer_pos(&self) -> nat {
        let header = header_bytes(self.spec_version(), self.spec_is_binary());
        header.len() + body_bytes(self.objects()).len() + 1 + encode_utf8(
            "xref\n"@ + xref_table_text(self.xref_offsets()),
        ).len()
    }

    /// The objects of the file open with their numbers, 1, 2, ... in order.
    pub proof fn lemma_objects_headed(&self)
        ensures
            headed_from(self.objects(), 1),
            self.objects().len() == self.spec_page_list().count() + 1,
    {
        let pl = self.spec_page_list();
        pl.lemma_headed();
        pl.lemma_objects_len();
        let n = pl.count();
        let t = catalog_text(n + 1, 0, ref_text(PAGE_LIST_NUM as nat, 0));
        let rest = "<< /Type /Catalog\n   /Pages "@ + ref_text(PAGE_LIST_NUM as nat, 0) + "\n>>\nendobj"@;
        assert(" obj\n<< /Type /Catalog\n   /Pages "@ =~= " obj\n"@ + "<< /Type /Catalog\n   /Pages "@) by {
            reveal_strlit(" obj\n<< /Type /Catalog\n   /Pages ");
            reveal_strlit(" obj\n");
            reveal_strlit("<< /Type /Catalog\n   /Pages ");
        }
        assert(t =~= id_text(n + 1, 0) + " obj\n"@ + rest);
        lemma_headed_one(t, n + 1, rest);
        lemma_headed_concat(pl.objects(), seq![encode_utf8(t)], 1);
        assert(self.objects() =~= pl.objects() + seq![encode_utf8(t)]);
    }

    /// Entry `k` of the cross-reference table gives the offset at which the bytes of
    /// the file open with `k 0 obj`, for every object number `k` the table lists.
    pub proof fn lemma_xref_points_at_objects(&self, k: nat)
        requires
            1 <= k <= self.objects().len(),
        ensures
            self.xref_offsets().len() == self.objects().len(),
            ({
                let o = self.xref_offsets()[k - 1];
                let h = encode_utf8(header_text(k));
                &&& o + h.len() <= self.bytes().len()
                &&& self.bytes().subrange(o as int, (o + h.len()) as int) == h
            }),
    {
        let objs = self.objects();
        let header = header_bytes(self.spec_version(), self.spec_is_binary());
        let i = k - 1;
        self.lemma_objects_headed();
        assert(starts_with(objs[i], encode_utf8(header_text((1 + i) as nat))));
        lemma_body_object(objs, header.len(), i);
        let o = self.xref_offsets()[i];
        let h = encode_utf8(header_text(k));
        let body = body_bytes(objs);
        let ob = o - header.len();
        let all = self.bytes();
        assert(all == header + body + (seq![0x0Au8] + encode_utf8(
            closing_text(body_offsets(objs, header.len()), header.len() + body.len() + 1),
        )));
        assert(all.subrange(o as int, (o + h.len()) as int) =~= body.subrange(ob, ob + h.len()));
        assert(body.subrange(ob, ob + h.len()) =~= body.subrange(ob, ob + objs[i].len()).subrange(0, h.len() as int));
    }

    /// The trailer names object `n + 1`, the catalog, as the root, and gives
    /// `n + 2` as the size: one more than the highest object number, counting the `n`
    /// objects of the page tree, the catalog, and the free object 0.
    pub proof fn lemma_trailer(&self)
        ensures
            ({
                let n = self.spec_page_list().count();
                let t = encode_utf8(trailer_text(ref_text(n + 1, 0), n + 2));
                &&& self.trailer_pos() + t.len() <= self.bytes().len()
                &&& self.bytes().subrange(self.trailer_pos() as int, (self.trailer_pos() + t.len()) as int) == t
            }),
    {
        self.lemma_objects_headed();
        let objs = self.objects();
        let header = header_bytes(self.spec_version(), self.spec_is_binary());
        let body = body_bytes(objs);
        let offs = self.xref_offsets();
        let n = self.spec_page_list().count();
        let pos = header.len() + body.len() + 1;
        let a = "xref\n"@ + xref_table_text(offs);
        let b = trailer_text(ref_text(n + 1, 0), n + 2);
        let c = "startxref\n"@ + dec(pos) + "\n%%EOF\n"@;
        assert(closing_text(offs, pos) =~= a + b + c);
        crate::node::lemma_encode_concat(a + b, c);
        crate::node::lemma_encode_concat(a, b);
        let t = encode_utf8(b);
        let all = self.bytes();
        assert(all =~= header + body + seq![0x0Au8] + encode_utf8(a) + t + encode_utf8(c));
        assert(all.subrange(self.trailer_pos() as int, (self.trailer_pos() + t.len()) as int) =~= t);
    }

    /// Whatever the number of pages, object 1 is the page collection, with the
    /// number reserved for it, and the root that the trailer names is the catalog,
    /// which refers to object 1 as its pages.
    pub proof fn lemma_root_reaches_page_list(&self)
        ensures
            ({
                let n = self.spec_page_list().count();
                &&& self.objects()[n as int] == encode_utf8(
                    catalog_text(n + 1, 0, ref_text(PAGE_LIST_NUM as nat, 0)),
                )
                &&& self.objects()[0] == encode_utf8(
                    page_list_text(
                        PAGE_LIST_NUM as nat,
                        0,
                        self.spec_page_list().spec_pages().len(),
                        kids_from(self.spec_page_list().spec_pages(), (PAGE_LIST_NUM + 1) as nat),
                    ),
                )
            }),
    {
        self.spec_page_list().lemma_objects_len();
        reveal(PageList::objects);
    }

    /// The page collection counts the `N` pages of the document and lists `N` kids,
    /// the reference to each page in order, numbered as the file numbers them.
    pub proof fn lemma_kids_count(&self)
        ensures
            ({
                let pages = self.spec_page_list().spec_pages();
                let kids = kids_from(pages, (PAGE_LIST_NUM + 1) as nat);
                &&& kids.len() == pages.len()
                &&& self.objects()[0] == encode_utf8(page_list_text(PAGE_LIST_NUM as nat, 0, pages.len(), kids))
            }),
    {
        self.spec_page_list().lemma_objects_len();
        reveal(PageList::objects);
    }
}

} // verus!
