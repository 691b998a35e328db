//! Colour spaces: the device spaces, CIE Lab, Separation and DeviceN.

use vstd::prelude::*;
use vstd::utf8::encode_utf8;
use crate::fmt::Decimal;
use crate::functions::{string_bytes, Type0, Type2};
use crate::node::{header_text, headed_from, lemma_headed_one, lemma_object_opens, nodes_bytes, starts_with, Node};
use crate::indent::{indent, indent_skip1, indent_text};
use crate::objects::{entries_view, id_text, put, put_entry, ref_text, Id, IdFactory, Name};
use crate::pdf_string::{array_text, texts_of, ToPdfString};

verus! {

/// DeviceRGB Colour Space
#[derive(Clone, Copy, Debug, PartialEq, Eq)]
pub struct DeviceRGB {}

impl ToPdfString for DeviceRGB {
    open spec fn pdf_text(&self) -> Seq<char> {
        "/DeviceRGB"@
    }

    fn to_pdf_string(&self) -> (r: String) {
        String::from_str("/DeviceRGB")
    }
}

/// DeviceCMYK Colour Space
#[derive(Clone, Copy, Debug, PartialEq, Eq)]
pub struct DeviceCMYK {}

impl ToPdfString for DeviceCMYK {
    open spec fn pdf_text(&self) -> Seq<char> {
        "/DeviceCMYK"@
    }

    fn to_pdf_string(&self) -> (r: String) {
        String::from_str("/DeviceCMYK")
    }
}

/// The array of a CIE Lab colour space.
pub open spec fn lab_text(white: Seq<Seq<char>>, black: Seq<Seq<char>>, range: Seq<Seq<char>>) -> Seq<
    char,
> {
    "[\n  /Lab\n  <<\n    /WhitePoint "@ + array_text(white) + "\n    /BlackPoint "@ + array_text(black)
        + "\n    /Range "@ + array_text(range) + "\n  >>\n]"@
}

/// A CIE Lab colour space: its white point, black point, and the range of a* and b*.
#[derive(Clone, Copy, Debug)]
pub struct Lab {
    white: [Decimal; 3],
    black: [Decimal; 3],
    range: [Decimal; 4],
}

impl Lab {
    /// The array, each line indented by `depth` levels.
    pub open spec fn text(&self, depth: nat) -> Seq<char> {
        indent_text(
            lab_text(texts_of(self.spec_white()), texts_of(self.spec_black()), texts_of(self.spec_range())),
            depth,
            false,
        )
    }

    pub closed spec fn spec_white(&self) -> Seq<Decimal> {
        self.white@
    }

    pub closed spec fn spec_black(&self) -> Seq<Decimal> {
        self.black@
    }

    pub closed spec fn spec_range(&self) -> Seq<Decimal> {
        self.range@
    }

    pub fn new(white: [Decimal; 3], black: [Decimal; 3], range: [Decimal; 4]) -> (r: Lab)
        ensures
            r.spec_white() == white@,
            r.spec_black() == black@,
            r.spec_range() == range@,
    {
        Lab { white, black, range }
    }

    /// A Lab space with the given white point, a black point of zero and a* and b*
    /// in -128 to 127.
    pub fn new_with_white(cie_x: Decimal, cie_y: Decimal, cie_z: Decimal) -> (r: Lab)
        ensures
            r.spec_white() == seq![cie_x, cie_y, cie_z],
            r.spec_black().len() == 3,
            forall|i: int| 0 <= i < 3 ==> (#[trigger] r.spec_black()[i]).numerator() == 0,
            r.spec_range().len() == 4,
            r.spec_range()[0].numerator() == -128 && r.spec_range()[0].spec_scale() == 0,
            r.spec_range()[1].numerator() == 127 && r.spec_range()[1].spec_scale() == 0,
            r.spec_range()[2].numerator() == -128 && r.spec_range()[2].spec_scale() == 0,
            r.spec_range()[3].numerator() == 127 && r.spec_range()[3].spec_scale() == 0,
    {
        let zero = Decimal::from_int(0);
        let low = Decimal::from_int(-128);
        let high = Decimal::from_int(127);
        let r = Lab::new([cie_x, cie_y, cie_z], [zero, zero, zero], [low, high, low, high]);
        assert(r.spec_white() =~= seq![cie_x, cie_y, cie_z]);
        r
    }

    /// The array, each line indented by `indent_depth` levels.
    pub fn to_pdf_string(&self, indent_depth: usize) -> (r: String)
        requires
            2 * indent_depth <= usize::MAX,
        ensures
            r@ == self.text(indent_depth as nat),
    {
        let mut s = String::from_str("[\n  /Lab\n  <<\n    /WhitePoint ");
        let t = self.white.to_pdf_string();
        s.append(t.as_str());
        s.append("\n    /BlackPoint ");
        let t = self.black.to_pdf_string();
        s.append(t.as_str());
        s.append("\n    /Range ");
        let t = self.range.to_pdf_string();
        s.append(t.as_str());
        s.append("\n  >>\n]");
        assert(s@ =~= lab_text(
            texts_of(self.spec_white()),
            texts_of(self.spec_black()),
            texts_of(self.spec_range()),
        ));
        indent(s.as_str(), indent_depth)
    }

    /// The array as bytes, each line indented by `indent_depth` levels.
    pub fn to_bytes(&self, indent_depth: usize) -> (r: Vec<u8>)
        requires
            2 * indent_depth <= usize::MAX,
        ensures
            r@ == encode_utf8(self.text(indent_depth as nat)),
    {
        let s = self.to_pdf_string(indent_depth);
        string_bytes(&s)
    }
}

/// The array of a Separation colour space, with its alternate space and tint
/// transform written inline one level deeper.
pub open spec fn separation_text(name: Seq<char>, alt_space: Seq<char>, tint_transform: Seq<char>) -> Seq<
    char,
> {
    "[\n  /Separation\n  /"@ + name + "\n  "@ + indent_text(alt_space, 1, true) + "\n  "@ + indent_text(
        tint_transform,
        1,
        true,
    ) + "\n]"@
}

/// A Separation colour space: one colorant, shown in a Lab space through a tint
/// transform.
#[derive(Debug)]
pub struct Separation {
    name: String,
    alt_space: Lab,
    tint_transform: Type2,
}

impl Separation {
    pub closed spec fn spec_name(&self) -> Seq<char> {
        self.name@
    }

    pub closed spec fn spec_alt_space(&self) -> Lab {
        self.alt_space
    }

    pub closed spec fn spec_tint_transform(&self) -> &Type2 {
        &self.tint_transform
    }

    /// The array, each line indented by `depth` levels.
    pub open spec fn text(&self, depth: nat) -> Seq<char> {
        indent_text(
            separation_text(
                self.spec_name(),
                self.spec_alt_space().text(0),
                self.spec_tint_transform().text(0),
            ),
            depth,
            false,
        )
    }

    pub fn new(name: &str, alt_space: Lab, tint_transform: Type2) -> (r: Separation)
        ensures
            r.spec_name() == name@,
            r.spec_alt_space() == alt_space,
            r.spec_tint_transform() == tint_transform,
    {
        Separation { name: String::from_str(name), alt_space, tint_transform }
    }

    /// The array, each line indented by `indent_depth` levels.
    pub fn to_pdf_string(&self, indent_depth: usize) -> (r: String)
        requires
            2 * indent_depth <= usize::MAX,
        ensures
            r@ == self.text(indent_depth as nat),
    {
        let mut s = String::from_str("[\n  /Separation\n  /");
        s.append(self.name.as_str());
        s.append("\n  ");
        let alt = self.alt_space.to_pdf_string(0);
        let alt = indent_skip1(alt.as_str(), 1);
        s.append(alt.as_str());
        s.append("\n  ");
        let tint = self.tint_transform.to_pdf_string(0);
        let tint = indent_skip1(tint.as_str(), 1);
        s.append(tint.as_str());
        s.append("\n]");
        assert(s@ =~= separation_text(
            self.spec_name(),
            self.spec_alt_space().text(0),
            self.spec_tint_transform().text(0),
        ));
        indent(s.as_str(), indent_depth)
    }

    /// The array as bytes, each line indented by `indent_depth` levels.
    pub fn to_bytes(&self, indent_depth: usize) -> (r: Vec<u8>)
        requires
            2 * indent_depth <= usize::MAX,
        ensures
            r@ == encode_utf8(self.text(indent_depth as nat)),
    {
        let s = self.to_pdf_string(indent_depth);
        string_bytes(&s)
    }
}

/// The entries of the colorants dictionary: each name on a line of its own, then
/// its Separation space two levels deep.
pub open spec fn colorants_text(colorants: Seq<(Seq<char>, Separation)>) -> Seq<char>
    decreases colorants.len(),
{
    if colorants.len() == 0 {
        Seq::empty()
    } else {
        colorants_text(colorants.drop_last()) + "  /"@ + colorants.last().0 + "\n"@
            + colorants.last().1.text(2) + "\n"@
    }
}

/// The attributes dictionary of an NChannel DeviceN space.
pub open spec fn nchannel_text(colorants: Seq<(Seq<char>, Separation)>, components: Seq<Seq<char>>) -> Seq<
    char,
> {
    "<<\n  /Subtype /NChannel\n  /Colorants\n  "@ + "<<\n"@ + colorants_text(colorants) + ">>"@
        + "\n  /Process\n    <<\n      /ColorSpace /DeviceCMYK\n      /Components "@ + array_text(components)
        + "\n    >>\n\n>>"@
}

/// The attributes of an NChannel DeviceN space: the spot colorants by name, and the
/// process components in DeviceCMYK.
#[derive(Debug)]
pub struct NChannel {
    colorants: Vec<(Name, Separation)>,
    process_space: DeviceCMYK,
    process_component_names: Vec<Name>,
}

/// Names from strings, in order.
fn names_from(names: &Vec<&str>) -> (r: Vec<Name>)
    ensures
        r@.len() == names@.len(),
        forall|i: int| 0 <= i < names@.len() ==> (#[trigger] r@[i])@ == names@[i]@,
{
    let mut out: Vec<Name> = Vec::new();
    let mut i: usize = 0;
    while i < names.len()
        invariant
            i <= names@.len(),
            out@.len() == i,
            forall|k: int| 0 <= k < i ==> (#[trigger] out@[k])@ == names@[k]@,
        decreases names@.len() - i,
    {
        out.push(Name::new(names[i]));
        i = i + 1;
    }
    out
}

/// Named entries whose names are given as strings, each seen as its text.
pub open spec fn str_entries_view<V>(entries: Seq<(&str, V)>) -> Seq<(Seq<char>, V)> {
    entries.map_values(|e: (&str, V)| (e.0@, e.1))
}

/// The colorants after putting each of `given`, in order.
pub open spec fn put_all(entries: Seq<(Seq<char>, Separation)>, given: Seq<(Seq<char>, Separation)>) -> Seq<
    (Seq<char>, Separation),
>
    decreases given.len(),
{
    if given.len() == 0 {
        entries
    } else {
        put_entry(put_all(entries, given.drop_last()), given.last().0, given.last().1)
    }
}

impl NChannel {
    pub closed spec fn spec_colorants(&self) -> Seq<(Seq<char>, Separation)> {
        entries_view(self.colorants@)
    }

    pub closed spec fn spec_components(&self) -> Seq<Name> {
        self.process_component_names@
    }

    /// The dictionary, each line indented by `depth` levels.
    pub open spec fn text(&self, depth: nat) -> Seq<char> {
        indent_text(nchannel_text(self.spec_colorants(), texts_of(self.spec_components())), depth, false)
    }

    /// The attributes with the given colorants, a later one replacing an earlier one
    /// of the same name, and the given process component names.
    pub fn new(colorants: Vec<(&str, Separation)>, process_component_names: Vec<&str>) -> (r: NChannel)
        ensures
            r.spec_colorants() == put_all(Seq::empty(), str_entries_view(colorants@)),
            r.spec_components().len() == process_component_names@.len(),
            forall|i: int|
                0 <= i < process_component_names@.len() ==> (#[trigger] r.spec_components()[i])@
                    == process_component_names@[i]@,
    {
        let mut m: Vec<(Name, Separation)> = Vec::new();
        let ghost given = colorants@;
        let ghost gv = str_entries_view(given);
        let mut i: usize = 0;
        for c in it: colorants
            invariant
                it.seq() == given,
                gv == str_entries_view(given),
                entries_view(m@) == put_all(Seq::empty(), gv.take(it.index() as int)),
        {
            proof {
                assert(gv.take(it.index() + 1).drop_last() =~= gv.take(it.index() as int));
                assert(gv.take(it.index() + 1).last() == (c.0@, c.1));
            }
            put(&mut m, Name::new(c.0), c.1);
        }
        proof {
            assert(gv.take(gv.len() as int) =~= gv);
        }
        NChannel {
            colorants: m,
            process_space: DeviceCMYK {},
            process_component_names: names_from(&process_component_names),
        }
    }

    fn get_colorants_pdf_string(&self) -> (r: String)
        ensures
            r@ == "<<\n"@ + colorants_text(self.spec_colorants()) + ">>"@,
    {
        let mut s = String::new();
        let mut i: usize = 0;
        while i < self.colorants.len()
            invariant
                i <= self.colorants@.len(),
                s@ == colorants_text(self.spec_colorants().take(i as int)),
            decreases self.colorants@.len() - i,
        {
            s.append("  /");
            let name = &self.colorants[i].0;
            s.append(name.as_str());
            s.append("\n");
            let sep = self.colorants[i].1.to_pdf_string(2);
            s.append(sep.as_str());
            s.append("\n");
            proof {
                assert(self.spec_colorants().take(i + 1).drop_last() =~= self.spec_colorants().take(i as int));
                assert(self.spec_colorants().take(i + 1).last() == self.spec_colorants()[i as int]);
            }
            i = i + 1;
            assert(s@ =~= colorants_text(self.spec_colorants().take(i as int)));
        }
        assert(self.spec_colorants().take(i as int) =~= self.spec_colorants());
        let r = String::from_str("<<\n");
        let r = r.concat(s.as_str());
        r.concat(">>")
    }

    /// The dictionary, each line indented by `indent_depth` levels.
    pub fn to_pdf_string(&self, indent_depth: usize) -> (r: String)
        requires
            2 * indent_depth <= usize::MAX,
        ensures
            r@ == self.text(indent_depth as nat),
    {
        let mut s = String::from_str("<<\n  /Subtype /NChannel\n  /Colorants\n  ");
        let c = self.get_colorants_pdf_string();
        s.append(c.as_str());
        s.append("\n  /Process\n    <<\n      /ColorSpace /DeviceCMYK\n      /Components ");
        let names = self.process_component_names.to_pdf_string();
        s.append(names.as_str());
        s.append("\n    >>\n\n>>");
        assert(s@ =~= nchannel_text(self.spec_colorants(), texts_of(self.spec_components())));
        indent(s.as_str(), indent_depth)
    }
}

/// The array of a DeviceN colour space whose tint transform is the object `tint`,
/// with its attributes dictionary as given.
pub open spec fn devicen_text(names: Seq<Seq<char>>, tint: Seq<char>, attributes: Seq<char>) -> Seq<char> {
    "[\n  /DeviceN\n  "@ + array_text(names) + "\n  /DeviceCMYK\n  "@ + tint + "\n  "@ + attributes + "\n]"@
}

/// A DeviceN colour space with DeviceCMYK as its alternate space. It is an indirect
/// object of its own, and owns its tint transform, a sampled function that is one too.
#[derive(Debug)]
pub struct DeviceN {
    id: Id,
    names: Vec<Name>,
    alt_space: DeviceCMYK,
    tint_transform: Type0,
    attributes: NChannel,
}

impl DeviceN {
    pub closed spec fn spec_id(&self) -> Id {
        self.id
    }

    pub closed spec fn spec_tint_transform(&self) -> &Type0 {
        &self.tint_transform
    }

    pub closed spec fn spec_names(&self) -> Seq<Name> {
        self.names@
    }

    pub closed spec fn spec_attributes(&self) -> &NChannel {
        &self.attributes
    }

    /// The object numbered `num`, whose tint transform is numbered `tint_num`.
    pub open spec fn text_as(&self, num: nat, generation: nat, tint_num: nat, tint_gen: nat, depth: nat) -> Seq<
        char,
    > {
        id_text(num, generation) + " obj\n"@ + indent_text(
            devicen_text(
                texts_of(self.spec_names()),
                ref_text(tint_num, tint_gen),
                self.spec_attributes().text(depth + 1),
            ),
            depth,
            false,
        ) + "\nendobj"@
    }

    pub open spec fn text(&self, depth: nat) -> Seq<char> {
        self.text_as(
            self.spec_id().num(),
            self.spec_id().generation(),
            self.spec_tint_transform().spec_id().num(),
            self.spec_tint_transform().spec_id().generation(),
            depth,
        )
    }

    /// The number of indirect objects: the space and its tint transform.
    pub open spec fn count(&self) -> nat {
        2
    }

    /// The space is numbered `start`, and its tint transform the number after.
    pub open spec fn numbered(&self, start: nat) -> bool {
        &&& self.spec_id().num() == start
        &&& self.spec_id().generation() == 0
        &&& self.spec_tint_transform().spec_id().num() == start + 1
        &&& self.spec_tint_transform().spec_id().generation() == 0
    }

    /// The bytes of the objects, the space first, when numbered from `start`.
    pub open spec fn objects_from(&self, start: nat) -> Seq<Seq<u8>> {
        seq![
            encode_utf8(self.text_as(start, 0, start + 1, 0, 0)),
            self.spec_tint_transform().bytes_as(start + 1, 0, 0),
        ]
    }

    /// The space and its tint transform open with their numbers.
    pub proof fn lemma_headed(&self, start: nat)
        ensures
            headed_from(self.objects_from(start), start),
            self.objects_from(start).len() == self.count(),
    {
        let objs = self.objects_from(start);
        let t = self.text_as(start, 0, start + 1, 0, 0);
        let rest = indent_text(
            devicen_text(texts_of(self.spec_names()), ref_text(start + 1, 0), self.spec_attributes().text(1)),
            0,
            false,
        ) + "\nendobj"@;
        assert(t =~= id_text(start, 0) + " obj\n"@ + rest);
        lemma_headed_one(t, start, rest);
        let f = self.spec_tint_transform();
        let rest2 = f.dict_text(0) + "\nstream\n"@;
        let tail2 = f.samples() + encode_utf8("\nendstream\nendobj"@);
        assert(id_text(start + 1, 0) + " obj\n"@ + f.dict_text(0) + "\nstream\n"@ =~= id_text(start + 1, 0)
            + " obj\n"@ + rest2);
        assert(f.bytes_as(start + 1, 0, 0) =~= encode_utf8(id_text(start + 1, 0) + " obj\n"@ + rest2) + tail2);
        lemma_object_opens(start + 1, rest2, tail2);
        assert(seq![encode_utf8(t)][0] == objs[0]);
        assert forall|i: int| 0 <= i < objs.len() implies starts_with(
            #[trigger] objs[i],
            encode_utf8(header_text((start + i) as nat)),
        ) by {
            if i == 1 {
                assert((start + 1) as nat == start + i);
            }
        }
    }

    /// The space with the given colorant names, or `None` when there are none: a
    /// DeviceN space has at least one component.
    pub fn new(names: Vec<&str>, tint_transform: Type0, attributes: NChannel) -> (r: Option<DeviceN>)
        ensures
            r is None <==> names@.len() == 0,
            r matches Some(cs) ==> ({
                &&& cs.spec_id().num() == 0
                &&& cs.spec_names().len() == names@.len()
                &&& forall|i: int| 0 <= i < names@.len() ==> (#[trigger] cs.spec_names()[i])@ == names@[i]@
                &&& cs.spec_tint_transform() == tint_transform
                &&& cs.spec_attributes() == attributes
            }),
    {
        if names.len() == 0 {
            return None;
        }
        Some(
            DeviceN {
                id: Id::new_0(),
                names: names_from(&names),
                alt_space: DeviceCMYK {},
                tint_transform,
                attributes,
            },
        )
    }

    pub fn id(&self) -> (r: Id)
        ensures
            r == self.spec_id(),
    {
        self.id
    }

    /// The objects in the order they are numbered: the space, then its tint transform.
    pub fn get_objects(&self) -> (r: Vec<Node<'_>>)
        ensures
            r@ == seq![Node::DeviceN(self), Node::Type0(self.spec_tint_transform())],
            forall|s: nat| self.numbered(s) ==> nodes_bytes(r@) == #[trigger] self.objects_from(s),
    {
        let mut v: Vec<Node<'_>> = Vec::new();
        v.push(Node::DeviceN(self));
        v.push(Node::Type0(&self.tint_transform));
        assert(v@ =~= seq![Node::DeviceN(self), Node::Type0(self.spec_tint_transform())]);
        assert forall|s: nat| self.numbered(s) implies nodes_bytes(v@) == #[trigger] self.objects_from(s) by {
            assert(nodes_bytes(v@) =~= self.objects_from(s));
        }
        v
    }

    /// Numbers the space, then its tint transform.
    pub fn assign_ids(&mut self, id_factory: &mut IdFactory)
        requires
            old(id_factory).next_num() + 2 <= u32::MAX,
        ensures
            final(self).numbered(old(id_factory).next_num()),
            final(id_factory).next_num() == old(id_factory).next_num() + final(self).count(),
            forall|s: nat| #[trigger] final(self).objects_from(s) == old(self).objects_from(s),
    {
        self.id = id_factory.next_id();
        self.tint_transform.assign_ids(id_factory);
        assert forall|s: nat| #[trigger] self.objects_from(s) == old(self).objects_from(s) by {
            assert(self.objects_from(s) =~= old(self).objects_from(s));
        }
    }

    /// The object; the lines of the array are indented by `indent_depth` levels.
    pub fn to_pdf_string(&self, indent_depth: usize) -> (r: String)
        requires
            2 * indent_depth + 2 <= usize::MAX,
        ensures
            r@ == self.text(indent_depth as nat),
    {
        let mut a = String::from_str("[\n  /DeviceN\n  ");
        let names = self.names.to_pdf_string();
        a.append(names.as_str());
        a.append("\n  /DeviceCMYK\n  ");
        let tint = self.tint_transform.id().to_ref_string();
        a.append(tint.as_str());
        a.append("\n  ");
        let attrs = self.attributes.to_pdf_string(indent_depth + 1);
        a.append(attrs.as_str());
        a.append("\n]");
        let mut s = self.id.to_string();
        s.append(" obj\n");
        let a = indent(a.as_str(), indent_depth);
        s.append(a.as_str());
        s.append("\nendobj");
        assert(s@ =~= self.text(indent_depth as nat));
        s
    }

    pub fn to_bytes(&self, indent_depth: usize) -> (r: Vec<u8>)
        requires
            2 * indent_depth + 2 <= usize::MAX,
        ensures
            r@ == encode_utf8(self.text(indent_depth as nat)),
    {
        let s = self.to_pdf_string(indent_depth);
        string_bytes(&s)
    }
}

/// A colour space of a page's resources.
#[derive(Debug)]
pub enum ColorSpace {
    DeviceRGB(DeviceRGB),
    Lab(Lab),
    Separation(Separation),
    DeviceN(DeviceN),
}

impl ColorSpace {
    /// What stands for the space in the resources: a reference for a DeviceN space,
    /// which is an object of its own, else the space written inline.
    pub open spec fn entry_text(&self) -> Seq<char> {
        match self {
            ColorSpace::DeviceRGB(cs) => cs.pdf_text(),
            ColorSpace::Lab(cs) => cs.text(0),
            ColorSpace::Separation(cs) => cs.text(0),
            ColorSpace::DeviceN(cs) => cs.spec_id().ref_text(),
        }
    }

    /// The entry when the space is numbered from `start`.
    pub open spec fn entry_text_from(&self, start: nat) -> Seq<char> {
        match self {
            ColorSpace::DeviceN(cs) => ref_text(start, 0),
            _ => self.entry_text(),
        }
    }

    /// The number of indirect objects the space brings.
    pub open spec fn count(&self) -> nat {
        match self {
            ColorSpace::DeviceN(cs) => cs.count(),
            _ => 0,
        }
    }

    pub open spec fn numbered(&self, start: nat) -> bool {
        match self {
            ColorSpace::DeviceN(cs) => cs.numbered(start),
            _ => true,
        }
    }

    pub open spec fn objects_from(&self, start: nat) -> Seq<Seq<u8>> {
        match self {
            ColorSpace::DeviceN(cs) => cs.objects_from(start),
            _ => Seq::empty(),
        }
    }

    /// The objects of the space open with their numbers.
    pub proof fn lemma_headed(&self, start: nat)
        ensures
            headed_from(self.objects_from(start), start),
            self.objects_from(start).len() == self.count(),
    {
        match self {
            ColorSpace::DeviceN(cs) => cs.lemma_headed(start),
            _ => {},
        }
    }

    pub fn entry_string(&self) -> (r: String)
        ensures
            r@ == self.entry_text(),
    {
        match self {
            ColorSpace::DeviceRGB(cs) => cs.to_pdf_string(),
            ColorSpace::Lab(cs) => cs.to_pdf_string(0),
            ColorSpace::Separation(cs) => cs.to_pdf_string(0),
            ColorSpace::DeviceN(cs) => cs.id().to_ref_string(),
        }
    }

    /// Numbers the objects of the space, if it has any.
    pub fn assign_ids(&mut self, id_factory: &mut IdFactory)
        requires
            old(id_factory).next_num() + old(self).count() <= u32::MAX,
        ensures
            final(self).numbered(old(id_factory).next_num()),
            final(id_factory).next_num() == old(id_factory).next_num() + final(self).count(),
            final(self).count() == old(self).count(),
            forall|s: nat| #[trigger] final(self).objects_from(s) == old(self).objects_from(s),
            forall|s: nat| #[trigger] final(self).entry_text_from(s) == old(self).entry_text_from(s),
    {
        match self {
            ColorSpace::DeviceN(cs) => cs.assign_ids(id_factory),
            _ => {},
        }
    }
}

} // verus!
