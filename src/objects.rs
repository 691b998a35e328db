//! The basic objects: positions, names, versions, page sizes and identifiers.

use vstd::prelude::*;
use crate::fmt::{dec, push_dec};
use crate::pdf_string::ToPdfString;
use vstd::utf8::encode_utf8;

verus! {

/// A point on a page, in units of 1/72 inch.
#[derive(Clone, Copy, Debug, PartialEq, Eq)]
pub struct Pos {
    pub x: u32,
    pub y: u32,
}

impl Pos {
    pub fn new(x: u32, y: u32) -> (r: Pos)
        ensures
            r.x == x,
            r.y == y,
    {
        Pos { x, y }
    }
}

/// A PDF name, written with a leading slash.
#[derive(Debug)]
pub struct Name {
    name: String,
}

impl View for Name {
    type V = Seq<char>;

    /// The name without its slash.
    closed spec fn view(&self) -> Seq<char> {
        self.name@
    }
}

impl Name {
    pub fn new(name: &str) -> (r: Name)
        ensures
            r@ == name@,
    {
        Name { name: String::from_str(name) }
    }

    /// The name without its slash.
    pub fn as_str(&self) -> (r: &str)
        ensures
            r@ == self@,
    {
        self.name.as_str()
    }

    /// Whether this is the name `other`.
    pub fn is(&self, other: &Name) -> (r: bool)
        ensures
            r == (self@ == other@),
    {
        self.name == other.name
    }
}

impl ToPdfString for Name {
    open spec fn pdf_text(&self) -> Seq<char> {
        "/"@ + self@
    }

    fn to_pdf_string(&self) -> (r: String) {
        let s = String::from_str("/");
        s.concat(self.name.as_str())
    }
}

/// Named entries, each name seen as its text.
pub open spec fn entries_view<V>(entries: Seq<(Name, V)>) -> Seq<(Seq<char>, V)> {
    entries.map_values(|e: (Name, V)| (e.0@, e.1))
}

/// The names of named entries, in their order.
pub open spec fn names_of<V>(entries: Seq<(Seq<char>, V)>) -> Seq<Seq<char>> {
    entries.map_values(|e: (Seq<char>, V)| e.0)
}

/// The index of the first entry named `name`, or the number of entries when none is.
pub open spec fn find_name(names: Seq<Seq<char>>, name: Seq<char>) -> nat
    decreases names.len(),
{
    if names.len() == 0 {
        0
    } else if names[0] == name {
        0
    } else {
        1 + find_name(names.drop_first(), name)
    }
}

/// The entries after `value` was put under `name`: it replaces the entry of that
/// name, or comes last when there was none.
pub open spec fn put_entry<V>(entries: Seq<(Seq<char>, V)>, name: Seq<char>, value: V) -> Seq<
    (Seq<char>, V),
> {
    let i = find_name(names_of(entries), name);
    if i < entries.len() {
        entries.update(i as int, (name, value))
    } else {
        entries.push((name, value))
    }
}

/// No two entries have the same name.
pub open spec fn unique_names(names: Seq<Seq<char>>) -> bool {
    forall|i: int, j: int| 0 <= i < j < names.len() ==> names[i] != names[j]
}

proof fn lemma_find_name(names: Seq<Seq<char>>, name: Seq<char>, j: int)
    requires
        0 <= j <= names.len(),
        forall|k: int| 0 <= k < j ==> names[k] != name,
        j == names.len() || names[j] == name,
    ensures
        find_name(names, name) == j,
    decreases j,
{
    if j > 0 {
        lemma_find_name(names.drop_first(), name, j - 1);
    }
}

proof fn lemma_find_name_bounds(names: Seq<Seq<char>>, name: Seq<char>)
    ensures
        find_name(names, name) <= names.len(),
        find_name(names, name) < names.len() ==> names[find_name(names, name) as int] == name,
        forall|k: int| 0 <= k < find_name(names, name) ==> names[k] != name,
    decreases names.len(),
{
    if names.len() > 0 && names[0] != name {
        lemma_find_name_bounds(names.drop_first(), name);
        assert forall|k: int| 0 <= k < find_name(names, name) implies names[k] != name by {
            if k > 0 {
                assert(names[k] == names.drop_first()[k - 1]);
            }
        }
    }
}

/// Putting an entry keeps the names unique, and the name is then among them.
pub proof fn lemma_put_entry_unique<V>(entries: Seq<(Seq<char>, V)>, name: Seq<char>, value: V)
    requires
        unique_names(names_of(entries)),
    ensures
        unique_names(names_of(put_entry(entries, name, value))),
        names_of(put_entry(entries, name, value)).contains(name),
{
    let names = names_of(entries);
    let j = find_name(names, name) as int;
    lemma_find_name_bounds(names, name);
    let after = names_of(put_entry(entries, name, value));
    if j < names.len() {
        assert(after =~= names.update(j, name));
        assert(after[j] == name);
    } else {
        assert(after =~= names.push(name));
        assert(after[names.len() as int] == name);
        assert forall|a: int, b: int| 0 <= a < b < after.len() implies after[a] != after[b] by {
            if b == names.len() {
                assert(names[a] != name);
            }
        }
    }
}

/// Puts `value` under `name`, replacing the entry of that name if there is one.
pub fn put<V>(entries: &mut Vec<(Name, V)>, name: Name, value: V)
    ensures
        entries_view(final(entries)@) == put_entry(entries_view(old(entries)@), name@, value),
{
    let ghost before = entries_view(entries@);
    let mut j: usize = 0;
    while j < entries.len() && !entries[j].0.is(&name)
        invariant
            0 <= j <= entries@.len(),
            before == entries_view(entries@),
            forall|k: int| 0 <= k < j ==> names_of(before)[k] != name@,
        decreases entries@.len() - j,
    {
        j = j + 1;
    }
    proof {
        lemma_find_name(names_of(before), name@, j as int);
    }
    let ghost nv = name@;
    if j < entries.len() {
        entries.set(j, (name, value));
        assert(entries_view(entries@) =~= put_entry(before, nv, value));
    } else {
        entries.push((name, value));
        assert(entries_view(entries@) =~= put_entry(before, nv, value));
    }
}

/// PDF versions.
#[derive(Clone, Copy, Debug, PartialEq, Eq)]
pub enum Version {
    V1_4,
    V1_7,
}

/// The header line of a version.
pub open spec fn version_text(v: Version) -> Seq<char> {
    match v {
        Version::V1_4 => "%PDF-1.4"@,
        Version::V1_7 => "%PDF-1.7"@,
    }
}

impl Version {
    /// Returns the header line of the version.
    pub fn to_str(&self) -> (r: &'static str)
        ensures
            r@ == version_text(*self),
    {
        match self {
            Version::V1_4 => "%PDF-1.4",
            Version::V1_7 => "%PDF-1.7",
        }
    }

    /// Returns the header line of the version as bytes.
    pub fn to_bytes(&self) -> (r: Vec<u8>)
        ensures
            r@ == encode_utf8(version_text(*self)),
    {
        self.to_str().as_bytes_vec()
    }
}

/// Page sizes.
#[derive(Clone, Copy, Debug, PartialEq, Eq)]
pub enum MediaBox {
    /// 0, 0, 612, 792
    Letter,
    /// 0, 0, 595, 842
    A4,
    Custom(u32, u32, u32, u32),
}

/// The four numbers of a rectangle as a PDF array.
pub open spec fn rect_text(a: nat, b: nat, c: nat, d: nat) -> Seq<char> {
    "["@ + dec(a) + " "@ + dec(b) + " "@ + dec(c) + " "@ + dec(d) + "]"@
}

pub open spec fn media_box_text(m: MediaBox) -> Seq<char> {
    match m {
        MediaBox::Letter => rect_text(0, 0, 612, 792),
        MediaBox::A4 => rect_text(0, 0, 595, 842),
        MediaBox::Custom(a, b, c, d) => rect_text(a as nat, b as nat, c as nat, d as nat),
    }
}

fn rect_string(a: u32, b: u32, c: u32, d: u32) -> (r: String)
    ensures
        r@ == rect_text(a as nat, b as nat, c as nat, d as nat),
{
    let mut s = String::from_str("[");
    push_dec(&mut s, a as u64);
    s.append(" ");
    push_dec(&mut s, b as u64);
    s.append(" ");
    push_dec(&mut s, c as u64);
    s.append(" ");
    push_dec(&mut s, d as u64);
    s.append("]");
    s
}

impl MediaBox {
    /// Returns the rectangle as a PDF array.
    pub fn to_string(&self) -> (r: String)
        ensures
            r@ == media_box_text(*self),
    {
        match self {
            MediaBox::Letter => rect_string(0, 0, 612, 792),
            MediaBox::A4 => rect_string(0, 0, 595, 842),
            MediaBox::Custom(a, b, c, d) => rect_string(*a, *b, *c, *d),
        }
    }
}

/// The identifier of an indirect object: its number and its generation.
#[derive(Clone, Copy, Debug, PartialEq, Eq)]
pub struct Id {
    id: u32,
    generation: u32,
}

/// `<num> <gen>`, as an object header and a reference begin.
pub open spec fn id_text(num: nat, generation: nat) -> Seq<char> {
    dec(num) + " "@ + dec(generation)
}

/// `<num> <gen> R`, a reference to an object.
pub open spec fn ref_text(num: nat, generation: nat) -> Seq<char> {
    id_text(num, generation) + " R"@
}

impl Id {
    pub closed spec fn num(&self) -> nat {
        self.id as nat
    }

    pub closed spec fn generation(&self) -> nat {
        self.generation as nat
    }

    pub open spec fn text(&self) -> Seq<char> {
        id_text(self.num(), self.generation())
    }

    pub open spec fn ref_text(&self) -> Seq<char> {
        ref_text(self.num(), self.generation())
    }

    /// Creates a new Id.
    pub fn new(id: u32, generation: u32) -> (r: Id)
        ensures
            r.num() == id,
            r.generation() == generation,
    {
        Id { id, generation }
    }

    /// The placeholder identifier `0 0`, which objects carry before they are numbered.
    pub fn new_0() -> (r: Id)
        ensures
            r.num() == 0,
            r.generation() == 0,
    {
        Id { id: 0, generation: 0 }
    }

    /// Returns `<num> <gen>`.
    pub fn to_string(&self) -> (r: String)
        ensures
            r@ == self.text(),
    {
        let mut s = String::new();
        push_dec(&mut s, self.id as u64);
        s.append(" ");
        push_dec(&mut s, self.generation as u64);
        assert(s@ =~= self.text());
        s
    }

    /// Returns `<num> <gen> R`.
    pub fn to_ref_string(&self) -> (r: String)
        ensures
            r@ == self.ref_text(),
    {
        let s = self.to_string();
        s.concat(" R")
    }
}

/// The number of the page collection, fixed before any other is handed out.
pub const PAGE_LIST_NUM: u32 = 1;

/// Hands out the object numbers of one build: first the page collection's, then
/// fresh numbers counting up from the one after it.
#[derive(Debug)]
pub struct IdFactory {
    page_list_id: Id,
    next_id: u32,
}

impl IdFactory {
    #[verifier::type_invariant]
    spec fn root_fixed(&self) -> bool {
        &&& self.page_list_id.id == PAGE_LIST_NUM
        &&& self.page_list_id.generation == 0
        &&& self.next_id > PAGE_LIST_NUM
    }

    /// The number that the next call of `next_id` hands out.
    pub closed spec fn next_num(&self) -> nat {
        self.next_id as nat
    }

    pub fn new() -> (r: IdFactory)
        ensures
            r.next_num() == PAGE_LIST_NUM + 1,
    {
        IdFactory { page_list_id: Id::new(PAGE_LIST_NUM, 0), next_id: PAGE_LIST_NUM + 1 }
    }

    /// The identifier of the page collection.
    pub fn page_list_id(&self) -> (r: &Id)
        ensures
            r.num() == PAGE_LIST_NUM,
            r.generation() == 0,
            PAGE_LIST_NUM < self.next_num(),
    {
        proof {
            use_type_invariant(self);
        }
        &self.page_list_id
    }

    /// Hands out a fresh identifier, one above the last.
    pub fn next_id(&mut self) -> (r: Id)
        requires
            old(self).next_num() < u32::MAX,
        ensures
            r.num() == old(self).next_num(),
            r.generation() == 0,
            final(self).next_num() == old(self).next_num() + 1,
    {
        proof {
            use_type_invariant(&*self);
        }
        let id = Id::new(self.next_id, 0);
        self.next_id = self.next_id + 1;
        id
    }
}

} // verus!
