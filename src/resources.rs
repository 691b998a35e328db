//! The resources of a page: its fonts and colour spaces, by name.

use vstd::prelude::*;
use vstd::utf8::encode_utf8;
use crate::color_spaces::ColorSpace;
use crate::fonts::Font;
use crate::functions::string_bytes;
use crate::indent::{indent_skip1, indent_text};
use crate::node::{headed_from, lemma_headed_concat, lemma_headed_one, nodes_bytes, Node};
use crate::objects::{
    entries_view, id_text, lemma_put_entry_unique, names_of, put, put_entry, unique_names, Id, IdFactory, Name,
};
use crate::pdf_string::ToPdfString;

verus! {

/// A dictionary with the given entry lines.
pub open spec fn dict_of(entries: Seq<char>) -> Seq<char> {
    "<<\n"@ + entries + ">>"@
}

/// The lines of the font dictionary: each name, then its font written inline.
pub open spec fn fonts_text(fonts: Seq<(Seq<char>, Font)>) -> Seq<char>
    decreases fonts.len(),
{
    if fonts.len() == 0 {
        Seq::empty()
    } else {
        fonts_text(fonts.drop_last()) + "  /"@ + fonts.last().0 + " "@ + indent_text(
            fonts.last().1.pdf_text(),
            1,
            true,
        ) + "\n"@
    }
}

/// The number of indirect objects the colour spaces bring.
pub open spec fn cs_count(spaces: Seq<(Seq<char>, ColorSpace)>) -> nat
    decreases spaces.len(),
{
    if spaces.len() == 0 {
        0
    } else {
        cs_count(spaces.drop_last()) + spaces.last().1.count()
    }
}

/// The lines of the colour space dictionary, with the identifiers the spaces carry.
pub open spec fn cs_entries(spaces: Seq<(Seq<char>, ColorSpace)>) -> Seq<char>
    decreases spaces.len(),
{
    if spaces.len() == 0 {
        Seq::empty()
    } else {
        cs_entries(spaces.drop_last()) + "/"@ + spaces.last().0 + " "@
            + spaces.last().1.entry_text() + "\n"@
    }
}

/// The lines of the colour space dictionary when the spaces are numbered from `start`.
pub open spec fn cs_entries_from(spaces: Seq<(Seq<char>, ColorSpace)>, start: nat) -> Seq<char>
    decreases spaces.len(),
{
    if spaces.len() == 0 {
        Seq::empty()
    } else {
        cs_entries_from(spaces.drop_last(), start) + "/"@ + spaces.last().0 + " "@
            + spaces.last().1.entry_text_from(start + cs_count(spaces.drop_last())) + "\n"@
    }
}

/// The objects of the colour spaces, in order, when numbered from `start`.
pub open spec fn cs_objects_from(spaces: Seq<(Seq<char>, ColorSpace)>, start: nat) -> Seq<Seq<u8>>
    decreases spaces.len(),
{
    if spaces.len() == 0 {
        Seq::empty()
    } else {
        cs_objects_from(spaces.drop_last(), start) + spaces.last().1.objects_from(
            start + cs_count(spaces.drop_last()),
        )
    }
}

/// Each colour space is numbered after those before it, from `start`.
pub open spec fn cs_numbered(spaces: Seq<(Seq<char>, ColorSpace)>, start: nat) -> bool {
    forall|i: int| 0 <= i < spaces.len() ==> (#[trigger] spaces[i]).1.numbered(start + cs_count(spaces.take(i)))
}

/// Two entries that differ at most in the identifiers they carry.
pub open spec fn same_space(a: (Seq<char>, ColorSpace), b: (Seq<char>, ColorSpace)) -> bool {
    &&& a.0 == b.0
    &&& a.1.count() == b.1.count()
    &&& forall|s: nat| #[trigger] a.1.objects_from(s) == b.1.objects_from(s)
    &&& forall|s: nat| #[trigger] a.1.entry_text_from(s) == b.1.entry_text_from(s)
}

pub open spec fn same_spaces(a: Seq<(Seq<char>, ColorSpace)>, b: Seq<(Seq<char>, ColorSpace)>) -> bool {
    a.len() == b.len() && forall|i: int| 0 <= i < a.len() ==> same_space(#[trigger] a[i], b[i])
}

proof fn lemma_same_spaces(a: Seq<(Seq<char>, ColorSpace)>, b: Seq<(Seq<char>, ColorSpace)>, start: nat)
    requires
        same_spaces(a, b),
    ensures
        cs_count(a) == cs_count(b),
        cs_objects_from(a, start) == cs_objects_from(b, start),
        cs_entries_from(a, start) == cs_entries_from(b, start),
    decreases a.len(),
{
    if a.len() > 0 {
        assert(same_spaces(a.drop_last(), b.drop_last())) by {
            assert forall|i: int| 0 <= i < a.drop_last().len() implies same_space(
                #[trigger] a.drop_last()[i],
                b.drop_last()[i],
            ) by {
                assert(same_space(a[i], b[i]));
            }
        }
        lemma_same_spaces(a.drop_last(), b.drop_last(), start);
        assert(same_space(a[a.len() - 1], b[b.len() - 1]));
    }
}

pub proof fn lemma_cs_count_prefix(spaces: Seq<(Seq<char>, ColorSpace)>, i: int)
    requires
        0 <= i < spaces.len(),
    ensures
        cs_count(spaces.take(i + 1)) == cs_count(spaces.take(i)) + spaces[i].1.count(),
        cs_count(spaces.take(i + 1)) <= cs_count(spaces),
    decreases spaces.len(),
{
    assert(spaces.take(i + 1).drop_last() =~= spaces.take(i));
    if i + 1 < spaces.len() {
        lemma_cs_count_prefix(spaces.drop_last(), i);
        assert(spaces.drop_last().take(i + 1) =~= spaces.take(i + 1));
    } else {
        assert(spaces.take(i + 1) =~= spaces);
    }
}

proof fn lemma_cs_before_step(before: Seq<(Seq<char>, ColorSpace)>, old_cs: Seq<(Seq<char>, ColorSpace)>, i: int)
    requires
        0 <= i < before.len() == old_cs.len(),
        forall|j: int| 0 <= j < i ==> same_space(#[trigger] before[j], old_cs[j]),
        forall|j: int| i <= j < old_cs.len() ==> #[trigger] before[j] == old_cs[j],
    ensures
        cs_count(before.take(i)) == cs_count(old_cs.take(i)),
        cs_count(before.take(i)) + before[i].1.count() <= cs_count(old_cs),
{
    assert(same_spaces(before.take(i), old_cs.take(i))) by {
        assert forall|j: int| 0 <= j < i implies same_space(#[trigger] before.take(i)[j], old_cs.take(i)[j]) by {
            assert(same_space(before[j], old_cs[j]));
        }
    }
    lemma_same_spaces(before.take(i), old_cs.take(i), 0);
    lemma_cs_count_prefix(old_cs, i);
    assert(before[i] == old_cs[i]);
}

proof fn lemma_cs_after_step(
    before: Seq<(Seq<char>, ColorSpace)>,
    after: Seq<(Seq<char>, ColorSpace)>,
    old_cs: Seq<(Seq<char>, ColorSpace)>,
    i: int,
    start: nat,
)
    requires
        0 <= i < before.len() == old_cs.len(),
        after == before.update(i, (before[i].0, after[i].1)),
        forall|j: int| 0 <= j < i ==> same_space(#[trigger] before[j], old_cs[j]),
        forall|j: int| i <= j < old_cs.len() ==> #[trigger] before[j] == old_cs[j],
        same_space(after[i], before[i]),
        after[i].1.numbered(start + cs_count(before.take(i))),
        cs_numbered(before.take(i), start),
    ensures
        forall|j: int| 0 <= j < i + 1 ==> same_space(#[trigger] after[j], old_cs[j]),
        forall|j: int| i + 1 <= j < old_cs.len() ==> #[trigger] after[j] == old_cs[j],
        cs_numbered(after.take(i + 1), start),
        cs_count(after.take(i + 1)) == cs_count(before.take(i)) + after[i].1.count(),
{
    assert(after.take(i) =~= before.take(i));
    lemma_cs_count_prefix(after, i);
    assert forall|j: int| 0 <= j < i + 1 implies same_space(#[trigger] after[j], old_cs[j]) by {
        if j < i {
            assert(after[j] == before[j]);
        }
    }
    assert forall|j: int| 0 <= j < i + 1 implies (#[trigger] after.take(i + 1)[j]).1.numbered(
        start + cs_count(after.take(i + 1).take(j)),
    ) by {
        assert(after.take(i + 1).take(j) =~= after.take(j));
        if j < i {
            assert(after.take(i).take(j) =~= after.take(j));
            assert(before.take(i)[j] == after[j]);
        }
    }
}

/// The colour spaces bring as many objects as they count.
pub proof fn lemma_cs_objects_len(spaces: Seq<(Seq<char>, ColorSpace)>, start: nat)
    ensures
        cs_objects_from(spaces, start).len() == cs_count(spaces),
    decreases spaces.len(),
{
    if spaces.len() > 0 {
        lemma_cs_objects_len(spaces.drop_last(), start);
    }
}

/// The objects of the colour spaces open with their numbers, counting up from `start`.
pub proof fn lemma_cs_headed(spaces: Seq<(Seq<char>, ColorSpace)>, start: nat)
    ensures
        headed_from(cs_objects_from(spaces, start), start),
    decreases spaces.len(),
{
    if spaces.len() > 0 {
        let prev = spaces.drop_last();
        lemma_cs_headed(prev, start);
        lemma_cs_objects_len(prev, start);
        spaces.last().1.lemma_headed(start + cs_count(prev));
        lemma_headed_concat(
            cs_objects_from(prev, start),
            spaces.last().1.objects_from(start + cs_count(prev)),
            start,
        );
    }
}

proof fn lemma_cs_numbered_entries(spaces: Seq<(Seq<char>, ColorSpace)>, start: nat)
    requires
        cs_numbered(spaces, start),
    ensures
        cs_entries(spaces) == cs_entries_from(spaces, start),
    decreases spaces.len(),
{
    if spaces.len() > 0 {
        let prev = spaces.drop_last();
        assert(cs_numbered(prev, start)) by {
            assert forall|i: int| 0 <= i < prev.len() implies (#[trigger] prev[i]).1.numbered(
                start + cs_count(prev.take(i)),
            ) by {
                assert(prev.take(i) =~= spaces.take(i));
                assert(spaces[i].1.numbered(start + cs_count(spaces.take(i))));
            }
        }
        lemma_cs_numbered_entries(prev, start);
        let last = spaces.len() - 1;
        assert(spaces.take(last) =~= prev);
        assert(spaces[last].1.numbered(start + cs_count(spaces.take(last))));
    }
}

/// The resources object.
pub open spec fn resources_text(num: nat, generation: nat, fonts: Seq<char>, color_spaces: Seq<char>) -> Seq<
    char,
> {
    id_text(num, generation) + " obj\n<<\n  /Font "@ + indent_text(fonts, 1, true) + "\n  /ColorSpace "@
        + indent_text(color_spaces, 1, true) + "\n>>\nendobj"@
}

/// The resources of a page: fonts and colour spaces, each under a name that is
/// unique among its kind.
#[derive(Debug)]
pub struct Resources {
    id: Id,
    fonts: Vec<(Name, Font)>,
    color_spaces: Vec<(Name, ColorSpace)>,
}

impl Resources {
    pub closed spec fn spec_id(&self) -> Id {
        self.id
    }

    pub closed spec fn spec_fonts(&self) -> Seq<(Seq<char>, Font)> {
        entries_view(self.fonts@)
    }

    pub closed spec fn spec_color_spaces(&self) -> Seq<(Seq<char>, ColorSpace)> {
        entries_view(self.color_spaces@)
    }

    /// The names of the fonts, and those of the colour spaces, are unique.
    pub open spec fn wf(&self) -> bool {
        unique_names(names_of(self.spec_fonts())) && unique_names(names_of(self.spec_color_spaces()))
    }

    pub open spec fn text(&self) -> Seq<char> {
        resources_text(
            self.spec_id().num(),
            self.spec_id().generation(),
            dict_of(fonts_text(self.spec_fonts())),
            dict_of(cs_entries(self.spec_color_spaces())),
        )
    }

    /// The number of indirect objects: the resources, and those of the colour spaces.
    pub open spec fn count(&self) -> nat {
        1 + cs_count(self.spec_color_spaces())
    }

    pub open spec fn numbered(&self, start: nat) -> bool {
        &&& self.spec_id().num() == start
        &&& self.spec_id().generation() == 0
        &&& cs_numbered(self.spec_color_spaces(), start + 1)
    }

    /// The bytes of the objects, the resources first, when numbered from `start`.
    #[verifier::opaque]
    pub open spec fn objects_from(&self, start: nat) -> Seq<Seq<u8>> {
        seq![
            encode_utf8(
                resources_text(
                    start,
                    0,
                    dict_of(fonts_text(self.spec_fonts())),
                    dict_of(cs_entries_from(self.spec_color_spaces(), start + 1)),
                ),
            ),
        ] + cs_objects_from(self.spec_color_spaces(), start + 1)
    }

    /// The resources bring as many objects as they count.
    pub proof fn lemma_objects_len(&self, start: nat)
        ensures
            self.objects_from(start).len() == self.count(),
    {
        reveal(Resources::objects_from);
        lemma_cs_objects_len(self.spec_color_spaces(), start + 1);
    }

    /// The resources and the objects of its colour spaces open with their numbers.
    pub proof fn lemma_headed(&self, start: nat)
        ensures
            headed_from(self.objects_from(start), start),
    {
        reveal(Resources::objects_from);
        let cs = self.spec_color_spaces();
        let fonts = dict_of(fonts_text(self.spec_fonts()));
        let spaces = dict_of(cs_entries_from(cs, start + 1));
        let t = resources_text(start, 0, fonts, spaces);
        let rest = "<<\n  /Font "@ + indent_text(fonts, 1, true) + "\n  /ColorSpace "@ + indent_text(spaces, 1, true)
            + "\n>>\nendobj"@;
        assert(" obj\n<<\n  /Font "@ =~= " obj\n"@ + "<<\n  /Font "@) by {
            reveal_strlit(" obj\n<<\n  /Font ");
            reveal_strlit(" obj\n");
            reveal_strlit("<<\n  /Font ");
        }
        assert(t =~= id_text(start, 0) + " obj\n"@ + rest);
        lemma_headed_one(t, start, rest);
        lemma_cs_headed(cs, start + 1);
        lemma_headed_concat(seq![encode_utf8(t)], cs_objects_from(cs, start + 1), start);
    }

    pub fn new() -> (r: Resources)
        ensures
            r.wf(),
            r.spec_id().num() == 0,
            r.spec_id().generation() == 0,
            r.spec_fonts() == Seq::<(Seq<char>, Font)>::empty(),
            r.spec_color_spaces() == Seq::<(Seq<char>, ColorSpace)>::empty(),
    {
        Resources { id: Id::new_0(), fonts: Vec::new(), color_spaces: Vec::new() }
    }

    pub fn id(&self) -> (r: Id)
        ensures
            r == self.spec_id(),
    {
        self.id
    }

    /// The number of objects, when it is at most `limit`.
    pub fn count_up_to(&self, limit: u64) -> (r: Option<u64>)
        ensures
            r matches Some(c) ==> c == self.count() && c <= limit,
            r is None ==> self.count() > limit,
    {
        if limit < 1 {
            return None;
        }
        let ghost cs = self.spec_color_spaces();
        let mut acc: u64 = 1;
        let mut i: usize = 0;
        assert(cs.take(0) =~= Seq::<(Seq<char>, ColorSpace)>::empty());
        while i < self.color_spaces.len()
            invariant
                i <= cs.len() == self.color_spaces@.len(),
                cs == self.spec_color_spaces(),
                acc == 1 + cs_count(cs.take(i as int)),
                acc <= limit,
            decreases cs.len() - i,
        {
            proof {
                lemma_cs_count_prefix(cs, i as int);
            }
            let c: u64 = match &self.color_spaces[i].1 {
                ColorSpace::DeviceN(_) => 2,
                _ => 0,
            };
            assert(c == cs[i as int].1.count());
            if c > limit - acc {
                return None;
            }
            acc = acc + c;
            i = i + 1;
        }
        assert(cs.take(i as int) =~= cs);
        Some(acc)
    }

    /// Registers `font` under `name`, replacing a font of that name.
    pub fn add_font(&mut self, name: &str, font: Font)
        ensures
            final(self).spec_fonts() == put_entry(old(self).spec_fonts(), name@, font),
            old(self).wf() ==> final(self).wf(),
            final(self).spec_color_spaces() == old(self).spec_color_spaces(),
            final(self).spec_id() == old(self).spec_id(),
    {
        let n = Name::new(name);
        proof {
            if self.wf() {
                lemma_put_entry_unique(self.spec_fonts(), name@, font);
            }
        }
        put(&mut self.fonts, n, font);
    }

    /// Registers `space` under `name`, replacing a colour space of that name.
    pub fn add_color_space(&mut self, name: &str, space: ColorSpace)
        ensures
            final(self).spec_color_spaces() == put_entry(old(self).spec_color_spaces(), name@, space),
            old(self).wf() ==> final(self).wf(),
            final(self).spec_fonts() == old(self).spec_fonts(),
            final(self).spec_id() == old(self).spec_id(),
    {
        let n = Name::new(name);
        proof {
            if self.wf() {
                lemma_put_entry_unique(self.spec_color_spaces(), name@, space);
            }
        }
        put(&mut self.color_spaces, n, space);
    }

    fn get_font_string(&self) -> (r: String)
        ensures
            r@ == dict_of(fonts_text(self.spec_fonts())),
    {
        let mut s = String::new();
        let mut i: usize = 0;
        while i < self.fonts.len()
            invariant
                i <= self.fonts@.len(),
                s@ == fonts_text(self.spec_fonts().take(i as int)),
            decreases self.fonts@.len() - i,
        {
            s.append("  /");
            s.append(self.fonts[i].0.as_str());
            s.append(" ");
            let f = self.fonts[i].1.to_pdf_string();
            let f = indent_skip1(f.as_str(), 1);
            s.append(f.as_str());
            s.append("\n");
            proof {
                assert(self.spec_fonts().take(i + 1).drop_last() =~= self.spec_fonts().take(i as int));
                assert(self.spec_fonts().take(i + 1).last() == self.spec_fonts()[i as int]);
            }
            i = i + 1;
            assert(s@ =~= fonts_text(self.spec_fonts().take(i as int)));
        }
        assert(self.spec_fonts().take(i as int) =~= self.spec_fonts());
        let r = String::from_str("<<\n");
        let r = r.concat(s.as_str());
        r.concat(">>")
    }

    fn get_color_space_string(&self) -> (r: String)
        ensures
            r@ == dict_of(cs_entries(self.spec_color_spaces())),
    {
        let mut s = String::new();
        let mut i: usize = 0;
        while i < self.color_spaces.len()
            invariant
                i <= self.color_spaces@.len(),
                s@ == cs_entries(self.spec_color_spaces().take(i as int)),
            decreases self.color_spaces@.len() - i,
        {
            s.append("/");
            s.append(self.color_spaces[i].0.as_str());
            s.append(" ");
            let e = self.color_spaces[i].1.entry_string();
            s.append(e.as_str());
            s.append("\n");
            proof {
                assert(self.spec_color_spaces().take(i + 1).drop_last() =~= self.spec_color_spaces().take(
                    i as int,
                ));
                assert(self.spec_color_spaces().take(i + 1).last() == self.spec_color_spaces()[i as int]);
            }
            i = i + 1;
            assert(s@ =~= cs_entries(self.spec_color_spaces().take(i as int)));
        }
        assert(self.spec_color_spaces().take(i as int) =~= self.spec_color_spaces());
        let r = String::from_str("<<\n");
        let r = r.concat(s.as_str());
        r.concat(">>")
    }

    /// The resources object.
    pub fn to_pdf_string(&self) -> (r: String)
        ensures
            r@ == self.text(),
    {
        let mut s = self.id.to_string();
        s.append(" obj\n<<\n  /Font ");
        let f = self.get_font_string();
        let f = indent_skip1(f.as_str(), 1);
        s.append(f.as_str());
        s.append("\n  /ColorSpace ");
        let c = self.get_color_space_string();
        let c = indent_skip1(c.as_str(), 1);
        s.append(c.as_str());
        s.append("\n>>\nendobj");
        assert(s@ =~= self.text());
        s
    }

    pub fn to_bytes(&self) -> (r: Vec<u8>)
        ensures
            r@ == encode_utf8(self.text()),
    {
        let s = self.to_pdf_string();
        string_bytes(&s)
    }

    /// Numbers the resources, then the objects of its colour spaces in order.
    pub fn assign_ids(&mut self, id_factory: &mut IdFactory)
        requires
            old(id_factory).next_num() + old(self).count() <= u32::MAX,
        ensures
            final(self).numbered(old(id_factory).next_num()),
            final(id_factory).next_num() == old(id_factory).next_num() + final(self).count(),
            final(self).count() == old(self).count(),
            final(self).spec_fonts() == old(self).spec_fonts(),
            names_of(final(self).spec_color_spaces()) == names_of(old(self).spec_color_spaces()),
            old(self).wf() ==> final(self).wf(),
            forall|s: nat| #[trigger] final(self).objects_from(s) == old(self).objects_from(s),
    {
        let ghost start: nat = id_factory.next_num() + 1;
        let ghost old_cs = self.spec_color_spaces();
        self.id = id_factory.next_id();
        let mut i: usize = 0;
        while i < self.color_spaces.len()
            invariant
                i <= self.color_spaces@.len() == old_cs.len(),
                start + cs_count(old_cs) <= u32::MAX,
                forall|j: int| 0 <= j < i ==> same_space(#[trigger] self.spec_color_spaces()[j], old_cs[j]),
                forall|j: int| i <= j < old_cs.len() ==> #[trigger] self.spec_color_spaces()[j] == old_cs[j],
                cs_numbered(self.spec_color_spaces().take(i as int), start),
                id_factory.next_num() == start + cs_count(self.spec_color_spaces().take(i as int)),
                self.spec_fonts() == old(self).spec_fonts(),
                self.spec_id().num() + 1 == start,
                self.spec_id().generation() == 0,
            decreases old_cs.len() - i,
        {
            let ghost before = self.spec_color_spaces();
            proof {
                lemma_cs_before_step(before, old_cs, i as int);
            }
            self.color_spaces[i].1.assign_ids(id_factory);
            proof {
                let after = self.spec_color_spaces();
                assert(after =~= before.update(i as int, (before[i as int].0, after[i as int].1)));
                lemma_cs_after_step(before, after, old_cs, i as int, start);
            }
            i = i + 1;
        }
        proof {
            let cs = self.spec_color_spaces();
            assert(cs.take(i as int) =~= cs);
            assert(same_spaces(cs, old_cs));
            assert forall|s: nat| #[trigger] self.objects_from(s) == old(self).objects_from(s) by {
                reveal(Resources::objects_from);
                lemma_same_spaces(cs, old_cs, s + 1);
            }
            assert(names_of(cs) =~= names_of(old_cs)) by {
                assert forall|j: int| 0 <= j < cs.len() implies names_of(cs)[j] == names_of(old_cs)[j] by {
                    assert(same_space(cs[j], old_cs[j]));
                }
            }
            lemma_same_spaces(cs, old_cs, 0);
        }
    }

    /// The objects of the colour spaces, in the order they are numbered.
    fn get_color_space_objects(&self) -> (r: Vec<Node<'_>>)
        ensures
            r@.len() == cs_count(self.spec_color_spaces()),
            forall|s: nat|
                cs_numbered(self.spec_color_spaces(), s) ==> nodes_bytes(r@) == #[trigger] cs_objects_from(
                    self.spec_color_spaces(),
                    s,
                ),
    {
        let mut v: Vec<Node<'_>> = Vec::new();
        let ghost cs = self.spec_color_spaces();
        assert(cs.take(0) =~= Seq::<(Seq<char>, ColorSpace)>::empty());
        assert(nodes_bytes(v@) =~= Seq::<Seq<u8>>::empty());
        let mut i: usize = 0;
        while i < self.color_spaces.len()
            invariant
                i <= self.color_spaces@.len() == cs.len(),
                cs == self.spec_color_spaces(),
                forall|s: nat| cs_numbered(cs, s) ==> nodes_bytes(v@) == #[trigger] cs_objects_from(cs.take(i as int), s),
                v@.len() == cs_count(cs.take(i as int)),
            decreases cs.len() - i,
        {
            let ghost prev = v@;
            let mut more: Vec<Node<'_>> = Vec::new();
            match &self.color_spaces[i].1 {
                ColorSpace::DeviceN(dn) => {
                    more = dn.get_objects();
                },
                _ => {},
            }
            proof {
                assert forall|s: nat| cs_numbered(cs, s) implies nodes_bytes(more@) == cs[i as int].1.objects_from(
                    s + cs_count(cs.take(i as int)),
                ) by {
                    assert(cs[i as int].1.numbered(s + cs_count(cs.take(i as int))));
                    if !(cs[i as int].1 is DeviceN) {
                        assert(nodes_bytes(more@) =~= Seq::<Seq<u8>>::empty());
                    }
                }
            }
            assert(more@.len() == cs[i as int].1.count());
            v.append(&mut more);
            proof {
                lemma_cs_count_prefix(cs, i as int);
                assert(cs.take(i + 1).drop_last() =~= cs.take(i as int));
                assert forall|s: nat| cs_numbered(cs, s) implies nodes_bytes(v@) == #[trigger] cs_objects_from(
                    cs.take(i + 1),
                    s,
                ) by {
                    assert(nodes_bytes(prev) == cs_objects_from(cs.take(i as int), s));
                    let t = cs.take(i + 1);
                    assert(t.drop_last() =~= cs.take(i as int));
                    assert(t.last() == cs[i as int]);
                    assert(cs_objects_from(t, s) == cs_objects_from(t.drop_last(), s) + t.last().1.objects_from(
                        s + cs_count(t.drop_last()),
                    ));
                    assert(nodes_bytes(v@) =~= nodes_bytes(prev) + nodes_bytes(v@).subrange(
                        prev.len() as int,
                        v@.len() as int,
                    ));
                    assert(nodes_bytes(v@).subrange(prev.len() as int, v@.len() as int) =~= cs[i as int].1.objects_from(
                        s + cs_count(cs.take(i as int)),
                    ));
                }
            }
            i = i + 1;
        }
        assert(cs.take(i as int) =~= cs);
        v
    }

    /// The objects in the order they are numbered: the resources, then those of its
    /// colour spaces in order.
    pub fn get_objects(&self) -> (r: Vec<Node<'_>>)
        ensures
            r@.len() == self.count(),
            r@[0] == Node::Resources(self),
            forall|s: nat| self.numbered(s) ==> nodes_bytes(r@) == #[trigger] self.objects_from(s),
    {
        let mut v: Vec<Node<'_>> = Vec::new();
        v.push(Node::Resources(self));
        let mut more = self.get_color_space_objects();
        let ghost first = v@;
        let ghost rest = more@;
        v.append(&mut more);
        proof {
            assert forall|s: nat| self.numbered(s) implies nodes_bytes(v@) == #[trigger] self.objects_from(s) by {
                reveal(Resources::objects_from);
                let cs = self.spec_color_spaces();
                lemma_cs_numbered_entries(cs, s + 1);
                assert(nodes_bytes(v@) =~= nodes_bytes(first) + nodes_bytes(rest));
                assert(first[0] == Node::Resources(self));
                assert(nodes_bytes(first) =~= seq![encode_utf8(self.text())]);
                assert(nodes_bytes(rest) == cs_objects_from(cs, s + 1));
                assert(self.text() == resources_text(
                    s,
                    0,
                    dict_of(fonts_text(self.spec_fonts())),
                    dict_of(cs_entries_from(cs, s + 1)),
                ));
            }
        }
        v
    }
}

} // verus!
