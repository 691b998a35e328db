//! Function objects: sampled (type 0) and exponential interpolation (type 2).

use vstd::prelude::*;
use vstd::slice::slice_to_vec;
use vstd::utf8::encode_utf8;
use crate::fmt::{dec, push_dec, Decimal};
use crate::indent::{indent, indent_text};
use crate::objects::{id_text, Id, IdFactory};
use crate::pdf_string::{array_text, texts_of, ToPdfString};

verus! {

/// The bytes of a string.
pub(crate) fn string_bytes(s: &String) -> (r: Vec<u8>)
    ensures
        r@ == encode_utf8(s@),
{
    slice_to_vec(s.as_str().as_bytes())
}

/// The dictionary of an exponential interpolation function into the Lab space.
pub open spec fn type2_text(c0: Seq<Seq<char>>, c1: Seq<Seq<char>>, n: Seq<char>) -> Seq<char> {
    "<<\n  /FunctionType 2\n  /Domain [0.0 1.0]\n  /Range [0.0 100.0 -128.0 127.0 -128.0 127.0]\n  /C0 "@
        + array_text(c0) + "\n  /C1 "@ + array_text(c1) + "\n  /N "@ + n + "\n>>"@
}

/// An exponential interpolation function from `c0` to `c1` with exponent `n`.
#[derive(Debug)]
pub struct Type2 {
    c0: Vec<Decimal>,
    c1: Vec<Decimal>,
    n: Decimal,
}

impl Type2 {
    pub closed spec fn spec_c0(&self) -> Seq<Decimal> {
        self.c0@
    }

    pub closed spec fn spec_c1(&self) -> Seq<Decimal> {
        self.c1@
    }

    pub closed spec fn spec_n(&self) -> Decimal {
        self.n
    }

    /// The dictionary, each line indented by `depth` levels.
    pub open spec fn text(&self, depth: nat) -> Seq<char> {
        indent_text(
            type2_text(texts_of(self.spec_c0()), texts_of(self.spec_c1()), self.spec_n().text()),
            depth,
            false,
        )
    }

    pub fn new<const OUTPUT_NUM: usize>(
        c0: [Decimal; OUTPUT_NUM],
        c1: [Decimal; OUTPUT_NUM],
        n: Decimal,
    ) -> (r: Type2)
        ensures
            r.spec_c0() == c0@,
            r.spec_c1() == c1@,
            r.spec_n() == n,
    {
        Type2 { c0: slice_to_vec(c0.as_slice()), c1: slice_to_vec(c1.as_slice()), n }
    }

    pub(crate) fn to_pdf_string(&self, indent_size: usize) -> (r: String)
        requires
            2 * indent_size <= usize::MAX,
        ensures
            r@ == self.text(indent_size as nat),
    {
        let mut s = String::from_str(
            "<<\n  /FunctionType 2\n  /Domain [0.0 1.0]\n  /Range [0.0 100.0 -128.0 127.0 -128.0 127.0]\n  /C0 ",
        );
        let c0 = self.c0.to_pdf_string();
        s.append(c0.as_str());
        s.append("\n  /C1 ");
        let c1 = self.c1.to_pdf_string();
        s.append(c1.as_str());
        s.append("\n  /N ");
        self.n.push_text(&mut s);
        s.append("\n>>");
        assert(s@ =~= type2_text(texts_of(self.spec_c0()), texts_of(self.spec_c1()), self.spec_n().text()));
        indent(s.as_str(), indent_size)
    }

    /// The dictionary as bytes, each line indented by `indent_size` levels.
    pub fn to_bytes(&self, indent_size: usize) -> (r: Vec<u8>)
        requires
            2 * indent_size <= usize::MAX,
        ensures
            r@ == encode_utf8(self.text(indent_size as nat)),
    {
        let s = self.to_pdf_string(indent_size);
        string_bytes(&s)
    }
}

/// The dictionary of a sampled function.
pub open spec fn type0_dict_text(
    domain: Seq<Seq<char>>,
    range: Seq<Seq<char>>,
    size: Seq<Seq<char>>,
    bits_per_sample: nat,
    length: nat,
) -> Seq<char> {
    "<<\n  /FunctionType 0\n  /Domain "@ + array_text(domain) + "\n  /Range "@ + array_text(range)
        + "\n  /Size "@ + array_text(size) + "\n  /BitsPerSample "@ + dec(bits_per_sample)
        + "\n  /Length "@ + dec(length) + "\n>>"@
}

/// A sampled function: its input domain, output range, the number of samples in
/// each input dimension, the bits of one sample, and the sample bytes.
#[derive(Debug)]
pub struct Type0 {
    id: Id,
    domain: Vec<(Decimal, Decimal)>,
    range: Vec<(Decimal, Decimal)>,
    size: Vec<u32>,
    bits_per_sample: u8,
    samples: Vec<u8>,
}

impl Type0 {
    pub closed spec fn spec_id(&self) -> Id {
        self.id
    }

    pub closed spec fn samples(&self) -> Seq<u8> {
        self.samples@
    }

    pub closed spec fn spec_domain(&self) -> Seq<(Decimal, Decimal)> {
        self.domain@
    }

    pub closed spec fn spec_range(&self) -> Seq<(Decimal, Decimal)> {
        self.range@
    }

    pub closed spec fn spec_size(&self) -> Seq<u32> {
        self.size@
    }

    pub closed spec fn spec_bits_per_sample(&self) -> u8 {
        self.bits_per_sample
    }

    /// The dictionary, each line indented by `depth` levels.
    pub open spec fn dict_text(&self, depth: nat) -> Seq<char> {
        indent_text(
            type0_dict_text(
                texts_of(self.spec_domain()),
                texts_of(self.spec_range()),
                texts_of(self.spec_size()),
                self.spec_bits_per_sample() as nat,
                self.samples().len(),
            ),
            depth,
            false,
        )
    }

    /// The stream object numbered `num`: its dictionary, then the samples as they are.
    pub open spec fn bytes_as(&self, num: nat, generation: nat, depth: nat) -> Seq<u8> {
        encode_utf8(id_text(num, generation) + " obj\n"@ + self.dict_text(depth) + "\nstream\n"@)
            + self.samples() + encode_utf8("\nendstream\nendobj"@)
    }

    pub open spec fn bytes(&self, depth: nat) -> Seq<u8> {
        self.bytes_as(self.spec_id().num(), self.spec_id().generation(), depth)
    }

    pub fn new_with_vec(
        in_domain: Vec<(Decimal, Decimal)>,
        out_range: Vec<(Decimal, Decimal)>,
        sample_sizes: Vec<u32>,
        bit_per_sample: u8,
        samples: Vec<u8>,
    ) -> (r: Type0)
        ensures
            r.spec_id().num() == 0,
            r.dict_text(0) == indent_text(
                type0_dict_text(
                    texts_of(in_domain@),
                    texts_of(out_range@),
                    texts_of(sample_sizes@),
                    bit_per_sample as nat,
                    samples@.len(),
                ),
                0,
                false,
            ),
            r.samples() == samples@,
            r.spec_domain() == in_domain@,
            r.spec_range() == out_range@,
            r.spec_size() == sample_sizes@,
            r.spec_bits_per_sample() == bit_per_sample,
    {
        Type0 {
            id: Id::new_0(),
            domain: in_domain,
            range: out_range,
            size: sample_sizes,
            bits_per_sample: bit_per_sample,
            samples,
        }
    }

    pub fn new<const IN_DOMAIN_SIZE: usize, const OUT_RANGE_SIZE: usize>(
        in_domain: [(Decimal, Decimal); IN_DOMAIN_SIZE],
        out_range: [(Decimal, Decimal); OUT_RANGE_SIZE],
        sample_sizes: [u32; IN_DOMAIN_SIZE],
        bit_per_sample: u8,
        samples: Vec<u8>,
    ) -> (r: Type0)
        ensures
            r.spec_id().num() == 0,
            r.dict_text(0) == indent_text(
                type0_dict_text(
                    texts_of(in_domain@),
                    texts_of(out_range@),
                    texts_of(sample_sizes@),
                    bit_per_sample as nat,
                    samples@.len(),
                ),
                0,
                false,
            ),
            r.samples() == samples@,
            r.spec_domain() == in_domain@,
            r.spec_range() == out_range@,
            r.spec_size() == sample_sizes@,
            r.spec_bits_per_sample() == bit_per_sample,
    {
        Type0::new_with_vec(
            slice_to_vec(in_domain.as_slice()),
            slice_to_vec(out_range.as_slice()),
            slice_to_vec(sample_sizes.as_slice()),
            bit_per_sample,
            samples,
        )
    }

    pub fn id(&self) -> (r: Id)
        ensures
            r == self.spec_id(),
    {
        self.id
    }

    /// Numbers the function with the next identifier.
    pub fn assign_ids(&mut self, id_factory: &mut IdFactory)
        requires
            old(id_factory).next_num() < u32::MAX,
        ensures
            final(self).spec_id().num() == old(id_factory).next_num(),
            final(self).spec_id().generation() == 0,
            final(id_factory).next_num() == old(id_factory).next_num() + 1,
            forall|n: nat, g: nat, d: nat| final(self).bytes_as(n, g, d) == old(self).bytes_as(n, g, d),
    {
        self.id = id_factory.next_id();
    }

    fn get_stream_bytes(&self) -> (r: Vec<u8>)
        ensures
            r@ == self.samples() + encode_utf8("\nendstream\nendobj"@),
    {
        let mut bytes = slice_to_vec(self.samples.as_slice());
        let tail = String::from_str("\nendstream\nendobj");
        let mut t = string_bytes(&tail);
        bytes.append(&mut t);
        bytes
    }

    /// The stream object; the dictionary's lines are indented by `indent_depth` levels.
    pub fn to_bytes(&self, indent_depth: usize) -> (r: Vec<u8>)
        requires
            2 * indent_depth <= usize::MAX,
        ensures
            r@ == self.bytes(indent_depth as nat),
    {
        let mut d = String::from_str("<<\n  /FunctionType 0\n  /Domain ");
        let t = self.domain.to_pdf_string();
        d.append(t.as_str());
        d.append("\n  /Range ");
        let t = self.range.to_pdf_string();
        d.append(t.as_str());
        d.append("\n  /Size ");
        let t = self.size.to_pdf_string();
        d.append(t.as_str());
        d.append("\n  /BitsPerSample ");
        push_dec(&mut d, self.bits_per_sample as u64);
        d.append("\n  /Length ");
        push_dec(&mut d, self.samples.len() as u64);
        d.append("\n>>");
        assert(d@ =~= type0_dict_text(
            texts_of(self.domain@),
            texts_of(self.range@),
            texts_of(self.size@),
            self.bits_per_sample as nat,
            self.samples@.len(),
        ));
        let mut s = self.id.to_string();
        s.append(" obj\n");
        let d = indent(d.as_str(), indent_depth);
        s.append(d.as_str());
        s.append("\nstream\n");
        assert(s@ =~= id_text(self.id.num(), self.id.generation()) + " obj\n"@ + self.dict_text(
            indent_depth as nat,
        ) + "\nstream\n"@);
        let mut bytes = string_bytes(&s);
        let mut tail = self.get_stream_bytes();
        bytes.append(&mut tail);
        assert(bytes@ =~= self.bytes(indent_depth as nat));
        bytes
    }
}

} // verus!
