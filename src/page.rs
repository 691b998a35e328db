//! Pages and the page collection.

use vstd::prelude::*;
use vstd::utf8::encode_utf8;
use crate::contents::Contents;
use crate::fmt::{dec, push_dec};
use crate::functions::string_bytes;
use crate::indent::{indent, indent_text};
use crate::node::{headed_from, lemma_headed_concat, lemma_headed_one, nodes_bytes, Node};
use crate::objects::{names_of, id_text, media_box_text, ref_text, Id, IdFactory, MediaBox, PAGE_LIST_NUM};
use crate::pdf_string::{array_text, join};
use crate::resources::Resources;

verus! {

/// A page object.
pub open spec fn page_text(
    num: nat,
    generation: nat,
    media_box: Seq<char>,
    parent: Seq<char>,
    resources: Seq<char>,
    contents: Seq<char>,
) -> Seq<char> {
    id_text(num, generation) + " obj\n<<\n  /Type /Page\n  /MediaBox "@ + media_box + "\n  /Parent "@ + parent
        + "\n  /Resources "@ + resources + "\n  /Contents "@ + contents + "\n>>\nendobj"@
}

/// A page: its size, its resources and its content stream. It names the page
/// collection that holds it by identifier.
#[derive(Debug)]
pub struct Page {
    id: Id,
    parent_id: Id,
    media_box: MediaBox,
    resources: Resources,
    content: Contents,
}

impl Page {
    pub closed spec fn spec_id(&self) -> Id {
        self.id
    }

    pub closed spec fn spec_parent_id(&self) -> Id {
        self.parent_id
    }

    pub closed spec fn spec_media_box(&self) -> MediaBox {
        self.media_box
    }

    pub closed spec fn spec_resources(&self) -> Resources {
        self.resources
    }

    pub closed spec fn spec_content(&self) -> Contents {
        self.content
    }

    pub open spec fn text(&self) -> Seq<char> {
        page_text(
            self.spec_id().num(),
            self.spec_id().generation(),
            media_box_text(self.spec_media_box()),
            self.spec_parent_id().ref_text(),
            self.spec_resources().spec_id().ref_text(),
            self.spec_content().spec_id().ref_text(),
        )
    }

    /// The number of indirect objects: the page, its resources with theirs, and its
    /// content stream.
    pub open spec fn count(&self) -> nat {
        1 + self.spec_resources().count() + 1
    }

    pub open spec fn numbered(&self, start: nat) -> bool {
        &&& self.spec_id().num() == start
        &&& self.spec_id().generation() == 0
        &&& self.spec_parent_id().num() == PAGE_LIST_NUM
        &&& self.spec_parent_id().generation() == 0
        &&& self.spec_resources().numbered(start + 1)
        &&& self.spec_content().numbered(start + 1 + self.spec_resources().count())
    }

    /// The bytes of the objects when numbered from `start`: the page, its resources
    /// with theirs, then its content stream.
    #[verifier::opaque]
    pub open spec fn objects_from(&self, start: nat) -> Seq<Seq<u8>> {
        let contents_num = start + 1 + self.spec_resources().count();
        seq![
            encode_utf8(
                page_text(
                    start,
                    0,
                    media_box_text(self.spec_media_box()),
                    ref_text(PAGE_LIST_NUM as nat, 0),
                    ref_text(start + 1, 0),
                    ref_text(contents_num, 0),
                ),
            ),
        ] + self.spec_resources().objects_from(start + 1) + self.spec_content().objects_from(contents_num)
    }

    pub fn new(media_box: MediaBox) -> (r: Page)
        ensures
            r.spec_media_box() == media_box,
            r.spec_id().num() == 0,
            r.spec_id().generation() == 0,
            r.spec_parent_id().num() == 0,
            r.spec_parent_id().generation() == 0,
            r.spec_resources().spec_id().num() == 0,
            r.spec_resources().spec_id().generation() == 0,
            r.spec_content().spec_id().num() == 0,
            r.spec_content().spec_id().generation() == 0,
            r.spec_resources().spec_fonts().len() == 0,
            r.spec_resources().spec_color_spaces().len() == 0,
            r.spec_content().ops().len() == 0,
    {
        Page {
            id: Id::new_0(),
            parent_id: Id::new_0(),
            media_box,
            resources: Resources::new(),
            content: Contents::new(),
        }
    }

    /// The page's resources, to register fonts and colour spaces.
    pub fn resources(&mut self) -> (r: &mut Resources)
        ensures
            *r == old(self).spec_resources(),
            final(self).spec_resources() == *final(r),
            final(self).spec_content() == old(self).spec_content(),
            final(self).spec_media_box() == old(self).spec_media_box(),
            final(self).spec_id() == old(self).spec_id(),
            final(self).spec_parent_id() == old(self).spec_parent_id(),
    {
        &mut self.resources
    }

    /// The page's content stream, to paint on the page.
    pub fn content(&mut self) -> (r: &mut Contents)
        ensures
            *r == old(self).spec_content(),
            final(self).spec_content() == *final(r),
            final(self).spec_resources() == old(self).spec_resources(),
            final(self).spec_media_box() == old(self).spec_media_box(),
            final(self).spec_id() == old(self).spec_id(),
            final(self).spec_parent_id() == old(self).spec_parent_id(),
    {
        &mut self.content
    }

    /// The page's content stream, to paint on the page.
    pub fn contents(&mut self) -> (r: &mut Contents)
        ensures
            *r == old(self).spec_content(),
            final(self).spec_content() == *final(r),
            final(self).spec_resources() == old(self).spec_resources(),
            final(self).spec_media_box() == old(self).spec_media_box(),
            final(self).spec_id() == old(self).spec_id(),
            final(self).spec_parent_id() == old(self).spec_parent_id(),
    {
        &mut self.content
    }

    pub fn id(&self) -> (r: Id)
        ensures
            r == self.spec_id(),
    {
        self.id
    }

    /// Numbers the page, its resources with theirs, then its content stream, and
    /// records the page collection as its parent.
    pub fn assign_ids(&mut self, id_factory: &mut IdFactory)
        requires
            old(id_factory).next_num() + old(self).count() <= u32::MAX,
        ensures
            final(self).numbered(old(id_factory).next_num()),
            final(id_factory).next_num() == old(id_factory).next_num() + final(self).count(),
            final(self).count() == old(self).count(),
            forall|s: nat| #[trigger] final(self).objects_from(s) == old(self).objects_from(s),
            final(self).spec_media_box() == old(self).spec_media_box(),
            final(self).spec_resources().spec_fonts() == old(self).spec_resources().spec_fonts(),
            names_of(final(self).spec_resources().spec_color_spaces()) == names_of(
                old(self).spec_resources().spec_color_spaces(),
            ),
            final(self).spec_content().ops() == old(self).spec_content().ops(),
    {
        self.id = id_factory.next_id();
        self.parent_id = *id_factory.page_list_id();
        self.resources.assign_ids(id_factory);
        self.content.assign_ids(id_factory);
        assert forall|s: nat| #[trigger] self.objects_from(s) == old(self).objects_from(s) by {
            reveal(Page::objects_from);
            assert(self.spec_content().stream() == old(self).spec_content().stream());
            assert(self.objects_from(s) =~= old(self).objects_from(s));
        }
    }

    /// The objects in the order they are numbered: the page, its resources with
    /// theirs, then its content stream.
    pub fn get_objects(&self) -> (r: Vec<Node<'_>>)
        ensures
            r@.len() == self.count(),
            r@[0] == Node::Page(self),
            forall|s: nat| self.numbered(s) ==> nodes_bytes(r@) == #[trigger] self.objects_from(s),
    {
        let mut v: Vec<Node<'_>> = Vec::new();
        v.push(Node::Page(self));
        let ghost first = v@;
        let mut res = self.resources.get_objects();
        let ghost res_nodes = res@;
        v.append(&mut res);
        let mut con = self.content.get_objects();
        let ghost con_nodes = con@;
        v.append(&mut con);
        proof {
            assert forall|s: nat| self.numbered(s) implies nodes_bytes(v@) == #[trigger] self.objects_from(s) by {
                reveal(Page::objects_from);
                assert(nodes_bytes(v@) =~= nodes_bytes(first) + nodes_bytes(res_nodes) + nodes_bytes(con_nodes));
                assert(nodes_bytes(first) =~= seq![encode_utf8(self.text())]);
                assert(nodes_bytes(res_nodes) == self.spec_resources().objects_from(s + 1));
                assert(nodes_bytes(con_nodes) =~= self.spec_content().objects_from(
                    s + 1 + self.spec_resources().count(),
                ));
            }
        }
        v
    }

    /// The number of objects, when it is at most `limit`.
    pub fn count_up_to(&self, limit: u64) -> (r: Option<u64>)
        ensures
            r matches Some(c) ==> c == self.count() && c <= limit,
            r is None ==> self.count() > limit,
    {
        match self.resources.count_up_to(limit) {
            Some(c) => {
                if 2 > limit - c {
                    None
                } else {
                    Some(c + 2)
                }
            },
            None => None,
        }
    }

    /// Numbers the page and what it owns anew; see `assign_ids`.
    pub fn reassign_ids(&mut self, id_factory: &mut IdFactory)
        requires
            old(id_factory).next_num() + old(self).count() <= u32::MAX,
        ensures
            final(self).numbered(old(id_factory).next_num()),
            final(id_factory).next_num() == old(id_factory).next_num() + final(self).count(),
            final(self).count() == old(self).count(),
            forall|s: nat| #[trigger] final(self).objects_from(s) == old(self).objects_from(s),
            final(self).spec_media_box() == old(self).spec_media_box(),
            final(self).spec_resources().spec_fonts() == old(self).spec_resources().spec_fonts(),
            names_of(final(self).spec_resources().spec_color_spaces()) == names_of(
                old(self).spec_resources().spec_color_spaces(),
            ),
            final(self).spec_content().ops() == old(self).spec_content().ops(),
    {
        self.assign_ids(id_factory);
    }

    /// The page object.
    pub fn to_pdf_obj_string(&self) -> (r: String)
        ensures
            r@ == self.text(),
    {
        let mut s = self.id.to_string();
        s.append(" obj\n<<\n  /Type /Page\n  /MediaBox ");
        let t = self.media_box.to_string();
        s.append(t.as_str());
        s.append("\n  /Parent ");
        let t = self.parent_id.to_ref_string();
        s.append(t.as_str());
        s.append("\n  /Resources ");
        let t = self.resources.id().to_ref_string();
        s.append(t.as_str());
        s.append("\n  /Contents ");
        let t = self.content.id().to_ref_string();
        s.append(t.as_str());
        s.append("\n>>\nendobj");
        assert(s@ =~= self.text());
        s
    }

    /// The page object, each line indented by `indent_size` levels.
    pub fn to_string(&self, indent_size: usize) -> (r: String)
        requires
            2 * indent_size <= usize::MAX,
        ensures
            r@ == indent_text(self.text(), indent_size as nat, false),
    {
        let s = self.to_pdf_obj_string();
        indent(s.as_str(), indent_size)
    }

    pub fn to_bytes(&self) -> (r: Vec<u8>)
        ensures
            r@ == encode_utf8(self.text()),
    {
        let s = self.to_pdf_obj_string();
        string_bytes(&s)
    }
}

/// The number of indirect objects of the pages.
pub open spec fn pages_count(pages: Seq<Page>) -> nat
    decreases pages.len(),
{
    if pages.len() == 0 {
        0
    } else {
        pages_count(pages.drop_last()) + pages.last().count()
    }
}

/// Each page is numbered after those before it, from `start`.
pub open spec fn pages_numbered(pages: Seq<Page>, start: nat) -> bool {
    forall|i: int| 0 <= i < pages.len() ==> (#[trigger] pages[i]).numbered(start + pages_count(pages.take(i)))
}

/// The bytes of the objects of the pages, in order, when numbered from `start`.
pub open spec fn pages_objects_from(pages: Seq<Page>, start: nat) -> Seq<Seq<u8>>
    decreases pages.len(),
{
    if pages.len() == 0 {
        Seq::empty()
    } else {
        pages_objects_from(pages.drop_last(), start) + pages.last().objects_from(
            start + pages_count(pages.drop_last()),
        )
    }
}

/// References to the pages, with the identifiers they carry.
pub open spec fn kids(pages: Seq<Page>) -> Seq<Seq<char>> {
    pages.map_values(|p: Page| p.spec_id().ref_text())
}

/// References to the pages when they are numbered from `start`.
pub open spec fn kids_from(pages: Seq<Page>, start: nat) -> Seq<Seq<char>> {
    Seq::new(pages.len(), |i: int| ref_text(start + pages_count(pages.take(i)), 0))
}

/// The page collection object.
pub open spec fn page_list_text(num: nat, generation: nat, count: nat, kids: Seq<Seq<char>>) -> Seq<char> {
    id_text(num, generation) + " obj\n<<\n  /Type /Pages\n  /Count "@ + dec(count) + "\n  /Kids "@
        + array_text(kids) + "\n>>\nendobj"@
}

/// A page brings as many objects as it counts.
pub proof fn lemma_page_objects_len(page: Page, start: nat)
    ensures
        page.objects_from(start).len() == page.count(),
{
    reveal(Page::objects_from);
    page.spec_resources().lemma_objects_len(start + 1);
}

/// The pages bring as many objects as they count.
pub proof fn lemma_pages_objects_len(pages: Seq<Page>, start: nat)
    ensures
        pages_objects_from(pages, start).len() == pages_count(pages),
    decreases pages.len(),
{
    if pages.len() > 0 {
        lemma_pages_objects_len(pages.drop_last(), start);
        lemma_page_objects_len(pages.last(), start + pages_count(pages.drop_last()));
    }
}

/// The objects of a page open with their numbers, counting up from `start`.
pub proof fn lemma_page_headed(page: Page, start: nat)
    ensures
        headed_from(page.objects_from(start), start),
{
    reveal(Page::objects_from);
    let res = page.spec_resources();
    let contents_num = start + 1 + res.count();
    let media = media_box_text(page.spec_media_box());
    let t = page_text(
        start,
        0,
        media,
        ref_text(PAGE_LIST_NUM as nat, 0),
        ref_text(start + 1, 0),
        ref_text(contents_num, 0),
    );
    let rest = "<<\n  /Type /Page\n  /MediaBox "@ + media + "\n  /Parent "@ + ref_text(PAGE_LIST_NUM as nat, 0)
        + "\n  /Resources "@ + ref_text(start + 1, 0) + "\n  /Contents "@ + ref_text(contents_num, 0)
        + "\n>>\nendobj"@;
    assert(" obj\n<<\n  /Type /Page\n  /MediaBox "@ =~= " obj\n"@ + "<<\n  /Type /Page\n  /MediaBox "@) by {
        reveal_strlit(" obj\n<<\n  /Type /Page\n  /MediaBox ");
        reveal_strlit(" obj\n");
        reveal_strlit("<<\n  /Type /Page\n  /MediaBox ");
    }
    assert(t =~= id_text(start, 0) + " obj\n"@ + rest);
    lemma_headed_one(t, start, rest);
    res.lemma_headed(start + 1);
    res.lemma_objects_len(start + 1);
    lemma_headed_concat(seq![encode_utf8(t)], res.objects_from(start + 1), start);
    page.spec_content().lemma_headed(contents_num);
    lemma_headed_concat(
        seq![encode_utf8(t)] + res.objects_from(start + 1),
        page.spec_content().objects_from(contents_num),
        start,
    );
}

/// The objects of the pages open with their numbers, counting up from `start`.
pub proof fn lemma_pages_headed(pages: Seq<Page>, start: nat)
    ensures
        headed_from(pages_objects_from(pages, start), start),
    decreases pages.len(),
{
    if pages.len() > 0 {
        let prev = pages.drop_last();
        lemma_pages_headed(prev, start);
        lemma_pages_objects_len(prev, start);
        lemma_page_headed(pages.last(), start + pages_count(prev));
        lemma_headed_concat(
            pages_objects_from(prev, start),
            pages.last().objects_from(start + pages_count(prev)),
            start,
        );
    }
}

/// Two pages that differ at most in the identifiers they carry.
pub open spec fn same_page(a: Page, b: Page) -> bool {
    &&& a.count() == b.count()
    &&& forall|s: nat| #[trigger] a.objects_from(s) == b.objects_from(s)
}

pub open spec fn same_pages(a: Seq<Page>, b: Seq<Page>) -> bool {
    a.len() == b.len() && forall|i: int| 0 <= i < a.len() ==> same_page(#[trigger] a[i], b[i])
}

proof fn lemma_same_pages(a: Seq<Page>, b: Seq<Page>, start: nat)
    requires
        same_pages(a, b),
    ensures
        pages_count(a) == pages_count(b),
        pages_objects_from(a, start) == pages_objects_from(b, start),
    decreases a.len(),
{
    if a.len() > 0 {
        assert(same_pages(a.drop_last(), b.drop_last())) by {
            assert forall|i: int| 0 <= i < a.drop_last().len() implies same_page(
                #[trigger] a.drop_last()[i],
                b.drop_last()[i],
            ) by {
                assert(same_page(a[i], b[i]));
            }
        }
        lemma_same_pages(a.drop_last(), b.drop_last(), start);
        assert(same_page(a[a.len() - 1], b[b.len() - 1]));
    }
}

proof fn lemma_same_pages_kids(a: Seq<Page>, b: Seq<Page>, start: nat)
    requires
        same_pages(a, b),
    ensures
        kids_from(a, start) == kids_from(b, start),
{
    assert forall|i: int| 0 <= i < a.len() implies kids_from(a, start)[i] == kids_from(b, start)[i] by {
        assert(same_pages(a.take(i), b.take(i))) by {
            assert forall|j: int| 0 <= j < a.take(i).len() implies same_page(#[trigger] a.take(i)[j], b.take(i)[j]) by {
                assert(same_page(a[j], b[j]));
            }
        }
        lemma_same_pages(a.take(i), b.take(i), 0);
    }
    assert(kids_from(a, start) =~= kids_from(b, start));
}

pub proof fn lemma_pages_count_prefix(pages: Seq<Page>, i: int)
    requires
        0 <= i < pages.len(),
    ensures
        pages_count(pages.take(i + 1)) == pages_count(pages.take(i)) + pages[i].count(),
        pages_count(pages.take(i + 1)) <= pages_count(pages),
    decreases pages.len(),
{
    assert(pages.take(i + 1).drop_last() =~= pages.take(i));
    if i + 1 < pages.len() {
        lemma_pages_count_prefix(pages.drop_last(), i);
        assert(pages.drop_last().take(i + 1) =~= pages.take(i + 1));
    } else {
        assert(pages.take(i + 1) =~= pages);
    }
}

proof fn lemma_pages_before_step(before: Seq<Page>, old_pages: Seq<Page>, i: int)
    requires
        0 <= i < before.len() == old_pages.len(),
        forall|j: int| 0 <= j < i ==> same_page(#[trigger] before[j], old_pages[j]),
        forall|j: int| i <= j < old_pages.len() ==> #[trigger] before[j] == old_pages[j],
    ensures
        pages_count(before.take(i)) == pages_count(old_pages.take(i)),
        pages_count(before.take(i)) + before[i].count() <= pages_count(old_pages),
{
    assert(same_pages(before.take(i), old_pages.take(i))) by {
        assert forall|j: int| 0 <= j < i implies same_page(#[trigger] before.take(i)[j], old_pages.take(i)[j]) by {
            assert(same_page(before[j], old_pages[j]));
        }
    }
    lemma_same_pages(before.take(i), old_pages.take(i), 0);
    lemma_pages_count_prefix(old_pages, i);
    assert(before[i] == old_pages[i]);
}

#[verifier::rlimit(50)]
proof fn lemma_pages_after_step(before: Seq<Page>, after: Seq<Page>, old_pages: Seq<Page>, i: int, start: nat)
    requires
        0 <= i < before.len() == old_pages.len(),
        after == before.update(i, after[i]),
        forall|j: int| 0 <= j < i ==> same_page(#[trigger] before[j], old_pages[j]),
        forall|j: int| i <= j < old_pages.len() ==> #[trigger] before[j] == old_pages[j],
        same_page(after[i], before[i]),
        after[i].numbered(start + pages_count(before.take(i))),
        pages_numbered(before.take(i), start),
    ensures
        forall|j: int| 0 <= j < i + 1 ==> same_page(#[trigger] after[j], old_pages[j]),
        forall|j: int| i + 1 <= j < old_pages.len() ==> #[trigger] after[j] == old_pages[j],
        pages_numbered(after.take(i + 1), start),
        pages_count(after.take(i + 1)) == pages_count(before.take(i)) + after[i].count(),
{
    assert(after.take(i) =~= before.take(i));
    lemma_pages_count_prefix(after, i);
    assert forall|j: int| 0 <= j < i + 1 implies same_page(#[trigger] after[j], old_pages[j]) by {
        if j < i {
            assert(after[j] == before[j]);
        }
    }
    assert forall|j: int| 0 <= j < i + 1 implies (#[trigger] after.take(i + 1)[j]).numbered(
        start + pages_count(after.take(i + 1).take(j)),
    ) by {
        assert(after.take(i + 1).take(j) =~= after.take(j));
        if j < i {
            assert(after.take(i).take(j) =~= after.take(j));
            assert(before.take(i)[j] == after[j]);
        }
    }
}

proof fn lemma_pages_numbered_kids(pages: Seq<Page>, start: nat)
    requires
        pages_numbered(pages, start),
    ensures
        kids(pages) == kids_from(pages, start),
{
    assert forall|i: int| 0 <= i < pages.len() implies kids(pages)[i] == kids_from(pages, start)[i] by {
        assert(pages[i].numbered(start + pages_count(pages.take(i))));
    }
    assert(kids(pages) =~= kids_from(pages, start));
}

/// The page collection: the pages of a document, in the order they were added.
#[derive(Debug)]
pub struct PageList {
    id: Id,
    pages: Vec<Page>,
}

impl PageList {
    pub closed spec fn spec_id(&self) -> Id {
        self.id
    }

    pub closed spec fn spec_pages(&self) -> Seq<Page> {
        self.pages@
    }

    pub open spec fn text(&self) -> Seq<char> {
        page_list_text(
            self.spec_id().num(),
            self.spec_id().generation(),
            self.spec_pages().len(),
            kids(self.spec_pages()),
        )
    }

    /// The number of indirect objects: the collection and those of its pages.
    pub open spec fn count(&self) -> nat {
        1 + pages_count(self.spec_pages())
    }

    /// The collection has the number reserved for it, and its pages are numbered
    /// from the one after.
    pub open spec fn numbered(&self) -> bool {
        &&& self.spec_id().num() == PAGE_LIST_NUM
        &&& self.spec_id().generation() == 0
        &&& pages_numbered(self.spec_pages(), (PAGE_LIST_NUM + 1) as nat)
    }

    /// The bytes of the objects when numbered: the collection, then the objects of
    /// each page in order.
    #[verifier::opaque]
    pub open spec fn objects(&self) -> Seq<Seq<u8>> {
        seq![
            encode_utf8(
                page_list_text(
                    PAGE_LIST_NUM as nat,
                    0,
                    self.spec_pages().len(),
                    kids_from(self.spec_pages(), (PAGE_LIST_NUM + 1) as nat),
                ),
            ),
        ] + pages_objects_from(self.spec_pages(), (PAGE_LIST_NUM + 1) as nat)
    }

    /// The page tree brings as many objects as it counts.
    pub proof fn lemma_objects_len(&self)
        ensures
            self.objects().len() == self.count(),
    {
        reveal(PageList::objects);
        lemma_pages_objects_len(self.spec_pages(), (PAGE_LIST_NUM + 1) as nat);
    }

    /// The objects of the page tree open with their numbers, counting up from that
    /// of the collection.
    pub proof fn lemma_headed(&self)
        ensures
            headed_from(self.objects(), PAGE_LIST_NUM as nat),
    {
        reveal(PageList::objects);
        let ps = self.spec_pages();
        let kids = kids_from(ps, (PAGE_LIST_NUM + 1) as nat);
        let t = page_list_text(PAGE_LIST_NUM as nat, 0, ps.len(), kids);
        let rest = "<<\n  /Type /Pages\n  /Count "@ + dec(ps.len()) + "\n  /Kids "@ + array_text(kids)
            + "\n>>\nendobj"@;
        assert(" obj\n<<\n  /Type /Pages\n  /Count "@ =~= " obj\n"@ + "<<\n  /Type /Pages\n  /Count "@) by {
            reveal_strlit(" obj\n<<\n  /Type /Pages\n  /Count ");
            reveal_strlit(" obj\n");
            reveal_strlit("<<\n  /Type /Pages\n  /Count ");
        }
        assert(t =~= id_text(PAGE_LIST_NUM as nat, 0) + " obj\n"@ + rest);
        lemma_headed_one(t, PAGE_LIST_NUM as nat, rest);
        lemma_pages_headed(ps, (PAGE_LIST_NUM + 1) as nat);
        lemma_headed_concat(seq![encode_utf8(t)], pages_objects_from(ps, (PAGE_LIST_NUM + 1) as nat), PAGE_LIST_NUM as nat);
    }

    pub fn new() -> (r: PageList)
        ensures
            r.spec_id().num() == 0,
            r.spec_id().generation() == 0,
            r.spec_pages() == Seq::<Page>::empty(),
    {
        PageList { id: Id::new_0(), pages: Vec::new() }
    }

    /// Appends `page` to the back of the pages, and hands it back to be filled in.
    pub fn push(&mut self, page: Page) -> (r: &mut Page)
        ensures
            *r == page,
            final(self).spec_pages() == old(self).spec_pages().push(*final(r)),
            final(self).spec_id() == old(self).spec_id(),
    {
        let last_index = self.pages.len();
        self.pages.push(page);
        &mut self.pages[last_index]
    }

    pub fn id(&self) -> (r: Id)
        ensures
            r == self.spec_id(),
    {
        self.id
    }

    /// Gives the collection its reserved number, then numbers each page in order.
    pub fn assign_ids(&mut self, id_factory: &mut IdFactory)
        requires
            old(id_factory).next_num() == PAGE_LIST_NUM + 1,
            old(self).count() + PAGE_LIST_NUM + 1 <= u32::MAX,
        ensures
            final(self).numbered(),
            final(id_factory).next_num() == PAGE_LIST_NUM + final(self).count(),
            final(self).count() == old(self).count(),
            final(self).objects() == old(self).objects(),
    {
        let ghost start: nat = (PAGE_LIST_NUM + 1) as nat;
        let ghost old_pages = self.spec_pages();
        self.id = *id_factory.page_list_id();
        let mut i: usize = 0;
        while i < self.pages.len()
            invariant
                i <= self.pages@.len() == old_pages.len(),
                start + pages_count(old_pages) <= u32::MAX,
                forall|j: int| 0 <= j < i ==> same_page(#[trigger] self.spec_pages()[j], old_pages[j]),
                forall|j: int| i <= j < old_pages.len() ==> #[trigger] self.spec_pages()[j] == old_pages[j],
                pages_numbered(self.spec_pages().take(i as int), start),
                id_factory.next_num() == start + pages_count(self.spec_pages().take(i as int)),
                self.spec_id().num() == PAGE_LIST_NUM,
                self.spec_id().generation() == 0,
            decreases old_pages.len() - i,
        {
            let ghost before = self.spec_pages();
            proof {
                lemma_pages_before_step(before, old_pages, i as int);
            }
            self.pages[i].assign_ids(id_factory);
            proof {
                let after = self.spec_pages();
                assert(after =~= before.update(i as int, after[i as int]));
                lemma_pages_after_step(before, after, old_pages, i as int, start);
            }
            i = i + 1;
        }
        proof {
            let ps = self.spec_pages();
            assert(ps.take(i as int) =~= ps);
            assert(same_pages(ps, old_pages));
            lemma_same_pages(ps, old_pages, start);
            lemma_same_pages_kids(ps, old_pages, start);
            reveal(PageList::objects);
            assert(self.objects() =~= old(self).objects());
        }
    }

    /// The number of objects, when it is at most `limit`.
    pub fn count_up_to(&self, limit: u64) -> (r: Option<u64>)
        ensures
            r matches Some(c) ==> c == self.count() && c <= limit,
            r is None ==> self.count() > limit,
    {
        if limit < 1 {
            return None;
        }
        let ghost ps = self.spec_pages();
        let mut acc: u64 = 1;
        let mut i: usize = 0;
        assert(ps.take(0) =~= Seq::<Page>::empty());
        while i < self.pages.len()
            invariant
                i <= ps.len() == self.pages@.len(),
                ps == self.spec_pages(),
                acc == 1 + pages_count(ps.take(i as int)),
                acc <= limit,
            decreases ps.len() - i,
        {
            proof {
                lemma_pages_count_prefix(ps, i as int);
            }
            match self.pages[i].count_up_to(limit - acc) {
                Some(c) => {
                    acc = acc + c;
                },
                None => {
                    return None;
                },
            }
            i = i + 1;
        }
        assert(ps.take(i as int) =~= ps);
        Some(acc)
    }

    fn get_page_objects(&self) -> (r: Vec<Node<'_>>)
        ensures
            r@.len() == pages_count(self.spec_pages()),
            forall|s: nat|
                pages_numbered(self.spec_pages(), s) ==> nodes_bytes(r@) == #[trigger] pages_objects_from(
                    self.spec_pages(),
                    s,
                ),
    {
        let mut v: Vec<Node<'_>> = Vec::new();
        let ghost ps = self.spec_pages();
        assert(ps.take(0) =~= Seq::<Page>::empty());
        assert(nodes_bytes(v@) =~= Seq::<Seq<u8>>::empty());
        let mut i: usize = 0;
        while i < self.pages.len()
            invariant
                i <= self.pages@.len() == ps.len(),
                ps == self.spec_pages(),
                forall|s: nat| pages_numbered(ps, s) ==> nodes_bytes(v@) == #[trigger] pages_objects_from(ps.take(i as int), s),
                v@.len() == pages_count(ps.take(i as int)),
            decreases ps.len() - i,
        {
            let ghost prev = v@;
            let mut more = self.pages[i].get_objects();
            let ghost added = more@;
            v.append(&mut more);
            proof {
                lemma_pages_count_prefix(ps, i as int);
                assert forall|s: nat| pages_numbered(ps, s) implies nodes_bytes(v@) == #[trigger] pages_objects_from(
                    ps.take(i + 1),
                    s,
                ) by {
                    assert(nodes_bytes(prev) == pages_objects_from(ps.take(i as int), s));
                    let t = ps.take(i + 1);
                    assert(t.drop_last() =~= ps.take(i as int));
                    assert(t.last() == ps[i as int]);
                    assert(ps[i as int].numbered(s + pages_count(ps.take(i as int))));
                    assert(pages_objects_from(t, s) == pages_objects_from(t.drop_last(), s) + t.last().objects_from(
                        s + pages_count(t.drop_last()),
                    ));
                    assert(nodes_bytes(v@) =~= nodes_bytes(prev) + nodes_bytes(added));
                }
            }
            i = i + 1;
        }
        assert(ps.take(i as int) =~= ps);
        v
    }

    /// The objects in the order they are numbered: the collection, then those of
    /// each page in order.
    pub fn get_objects(&self) -> (r: Vec<Node<'_>>)
        ensures
            r@.len() == self.count(),
            r@[0] == Node::PageList(self),
            self.numbered() ==> nodes_bytes(r@) == self.objects(),
    {
        let mut v: Vec<Node<'_>> = Vec::new();
        v.push(Node::PageList(self));
        let ghost first = v@;
        let mut more = self.get_page_objects();
        let ghost rest = more@;
        v.append(&mut more);
        proof {
            reveal(PageList::objects);
            if self.numbered() {
                let ps = self.spec_pages();
                lemma_pages_numbered_kids(ps, (PAGE_LIST_NUM + 1) as nat);
                assert(nodes_bytes(v@) =~= nodes_bytes(first) + nodes_bytes(rest));
                assert(nodes_bytes(first) =~= seq![encode_utf8(self.text())]);
                assert(nodes_bytes(rest) == pages_objects_from(ps, (PAGE_LIST_NUM + 1) as nat));
            }
        }
        v
    }

    fn get_kids_string(&self) -> (r: String)
        ensures
            r@ == array_text(kids(self.spec_pages())),
    {
        let mut s = String::new();
        let mut i: usize = 0;
        while i < self.pages.len()
            invariant
                i <= self.pages@.len(),
                s@ == join(kids(self.spec_pages()).take(i as int), " "@),
            decreases self.pages@.len() - i,
        {
            if i > 0 {
                s.append(" ");
            }
            let t = self.pages[i].id().to_ref_string();
            s.append(t.as_str());
            proof {
                let parts = kids(self.spec_pages()).take(i + 1);
                assert(parts.drop_last() =~= kids(self.spec_pages()).take(i as int));
                if i == 0 {
                    assert(join(kids(self.spec_pages()).take(0), " "@) =~= Seq::<char>::empty());
                }
            }
            i = i + 1;
            assert(s@ =~= join(kids(self.spec_pages()).take(i as int), " "@));
        }
        assert(kids(self.spec_pages()).take(i as int) =~= kids(self.spec_pages()));
        let r = String::from_str("[");
        let r = r.concat(s.as_str());
        r.concat("]")
    }

    /// The page collection object.
    pub fn to_pdf_obj_string(&self) -> (r: String)
        ensures
            r@ == self.text(),
    {
        let mut s = self.id.to_string();
        s.append(" obj\n<<\n  /Type /Pages\n  /Count ");
        push_dec(&mut s, self.pages.len() as u64);
        s.append("\n  /Kids ");
        let k = self.get_kids_string();
        s.append(k.as_str());
        s.append("\n>>\nendobj");
        assert(s@ =~= self.text());
        s
    }

    /// The page collection object, each line indented by `indent_size` levels.
    pub fn to_string(&self, indent_size: usize) -> (r: String)
        requires
            2 * indent_size <= usize::MAX,
        ensures
            r@ == indent_text(self.text(), indent_size as nat, false),
    {
        let s = self.to_pdf_obj_string();
        indent(s.as_str(), indent_size)
    }

    pub fn to_bytes(&self) -> (r: Vec<u8>)
        ensures
            r@ == encode_utf8(self.text()),
    {
        let s = self.to_pdf_obj_string();
        string_bytes(&s)
    }
}

} // verus!
