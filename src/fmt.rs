//! Decimal text of integers and of exact decimal numbers.

use vstd::prelude::*;

verus! {

/// Appends one character to a string.
/// Relies on `String::push`, which adds the character at the end.
#[verifier::external_body]
pub(crate) fn push_char(s: &mut String, c: char)
    ensures
        final(s)@ == old(s)@.push(c),
{
    s.push(c);
}

/// The character of a decimal digit.
pub open spec fn digit_char(d: int) -> char {
    if d == 0 {
        '0'
    } else if d == 1 {
        '1'
    } else if d == 2 {
        '2'
    } else if d == 3 {
        '3'
    } else if d == 4 {
        '4'
    } else if d == 5 {
        '5'
    } else if d == 6 {
        '6'
    } else if d == 7 {
        '7'
    } else if d == 8 {
        '8'
    } else {
        '9'
    }
}

/// The shortest decimal text of a natural number.
pub open spec fn dec(n: nat) -> Seq<char>
    decreases n,
{
    if n < 10 {
        seq![digit_char(n as int)]
    } else {
        dec(n / 10).push(digit_char((n % 10) as int))
    }
}

/// The last `w` decimal digits of `f`, with leading zeros.
pub open spec fn fixed_digits(f: nat, w: nat) -> Seq<char>
    decreases w,
{
    if w == 0 {
        seq![]
    } else {
        fixed_digits(f / 10, (w - 1) as nat).push(digit_char((f % 10) as int))
    }
}

/// `s` without its trailing `'0'` characters.
pub open spec fn trim_zeros(s: Seq<char>) -> Seq<char>
    decreases s.len(),
{
    if s.len() > 0 && s.last() == '0' {
        trim_zeros(s.drop_last())
    } else {
        s
    }
}

pub open spec fn pow10(n: nat) -> nat
    decreases n,
{
    if n == 0 {
        1
    } else {
        10 * pow10((n - 1) as nat)
    }
}

fn digit(d: u64) -> (c: char)
    requires
        d < 10,
    ensures
        c == digit_char(d as int),
{
    if d == 0 {
        '0'
    } else if d == 1 {
        '1'
    } else if d == 2 {
        '2'
    } else if d == 3 {
        '3'
    } else if d == 4 {
        '4'
    } else if d == 5 {
        '5'
    } else if d == 6 {
        '6'
    } else if d == 7 {
        '7'
    } else if d == 8 {
        '8'
    } else {
        '9'
    }
}

/// Appends the decimal text of `n`.
pub fn push_dec(out: &mut String, n: u64)
    ensures
        final(out)@ == old(out)@ + dec(n as nat),
    decreases n,
{
    if n >= 10 {
        push_dec(out, n / 10);
    }
    push_char(out, digit(n % 10));
    assert(dec(n as nat) == if n < 10 { seq![digit_char(n as int)] } else {
        dec((n / 10) as nat).push(digit_char((n % 10) as int))
    });
    assert(final(out)@ =~= old(out)@ + dec(n as nat));
}

/// The decimal text of `n`.
pub fn dec_string(n: u64) -> (r: String)
    ensures
        r@ == dec(n as nat),
{
    let mut s = String::new();
    push_dec(&mut s, n);
    assert(s@ =~= dec(n as nat));
    s
}

fn push_fixed_digits(out: &mut Vec<char>, f: u64, w: u32)
    ensures
        final(out)@ == old(out)@ + fixed_digits(f as nat, w as nat),
    decreases w,
{
    if w > 0 {
        push_fixed_digits(out, f / 10, w - 1);
        out.push(digit(f % 10));
    }
    assert(final(out)@ =~= old(out)@ + fixed_digits(f as nat, w as nat));
}

proof fn lemma_pow10_positive(n: nat)
    ensures
        pow10(n) >= 1,
    decreases n,
{
    if n > 0 {
        lemma_pow10_positive((n - 1) as nat);
    }
}

proof fn lemma_pow10_monotonic(a: nat, b: nat)
    requires
        a <= b,
    ensures
        pow10(a) <= pow10(b),
    decreases b,
{
    if a < b {
        lemma_pow10_monotonic(a, (b - 1) as nat);
        lemma_pow10_positive((b - 1) as nat);
    }
}

/// The largest scale a [`Decimal`] may have.
pub const MAX_SCALE: u32 = 19;

fn pow10_u64(n: u32) -> (r: u64)
    requires
        n <= MAX_SCALE,
    ensures
        r == pow10(n as nat),
{
    let mut r: u64 = 1;
    let mut i: u32 = 0;
    while i < n
        invariant
            i <= n <= MAX_SCALE,
            r == pow10(i as nat),
        decreases n - i,
    {
        proof {
            reveal_with_fuel(pow10, 20);
            lemma_pow10_monotonic((i + 1) as nat, 19);
        }
        r = r * 10;
        i = i + 1;
    }
    r
}

/// `n` in `w` digits with leading zeros, or in as many as it needs when they do not
/// suffice.
pub open spec fn padded(n: nat, w: nat) -> Seq<char> {
    if n < pow10(w) {
        fixed_digits(n, w)
    } else {
        dec(n)
    }
}

fn push_fixed_string(out: &mut String, f: u64, w: u32)
    ensures
        final(out)@ == old(out)@ + fixed_digits(f as nat, w as nat),
    decreases w,
{
    if w > 0 {
        push_fixed_string(out, f / 10, w - 1);
        push_char(out, digit(f % 10));
    }
    assert(final(out)@ =~= old(out)@ + fixed_digits(f as nat, w as nat));
}

/// Appends `n` in at least `w` digits, with leading zeros.
pub fn push_padded(out: &mut String, n: u64, w: u32)
    requires
        w <= MAX_SCALE,
    ensures
        final(out)@ == old(out)@ + padded(n as nat, w as nat),
{
    let p = pow10_u64(w);
    if n < p {
        push_fixed_string(out, n, w);
    } else {
        push_dec(out, n);
    }
}

/// An exact decimal number: `magnitude / 10^scale`, negative when `negative` is set
/// and the magnitude is not zero.
#[derive(Clone, Copy, Debug, PartialEq, Eq)]
pub struct Decimal {
    negative: bool,
    magnitude: u64,
    scale: u32,
}

impl Decimal {
    #[verifier::type_invariant]
    spec fn scale_in_range(&self) -> bool {
        self.scale <= MAX_SCALE
    }
}

/// The text of a decimal number: its integral part, a point, and its fraction in
/// the fewest digits, or `0` when it has none.
pub open spec fn decimal_text(negative: bool, magnitude: nat, scale: nat) -> Seq<char> {
    let sign = if negative && magnitude != 0 {
        seq!['-']
    } else {
        Seq::<char>::empty()
    };
    let whole = magnitude / pow10(scale);
    let fraction = magnitude % pow10(scale);
    if fraction == 0 {
        sign + dec(whole) + seq!['.', '0']
    } else {
        sign + dec(whole) + seq!['.'] + trim_zeros(fixed_digits(fraction, scale))
    }
}

/// `n` zero digits.
pub open spec fn zeros(n: nat) -> Seq<char> {
    Seq::new(n, |i: int| '0')
}

proof fn lemma_trim_zeros(s: Seq<char>)
    ensures
        trim_zeros(s).len() <= s.len(),
        s == trim_zeros(s) + zeros((s.len() - trim_zeros(s).len()) as nat),
        trim_zeros(s).len() > 0 ==> trim_zeros(s).last() != '0',
    decreases s.len(),
{
    if s.len() > 0 && s.last() == '0' {
        lemma_trim_zeros(s.drop_last());
        let t = trim_zeros(s.drop_last());
        let k = (s.len() - 1 - t.len()) as nat;
        assert(s.drop_last() == t + zeros(k));
        assert(s =~= s.drop_last().push('0'));
        assert(zeros(k).push('0') =~= zeros(k + 1));
        assert(s =~= t + zeros((s.len() - t.len()) as nat));
    } else {
        assert(s =~= s + zeros(0));
    }
}

proof fn lemma_digit_zero(d: int)
    requires
        0 <= d < 10,
        digit_char(d) == '0',
    ensures
        d == 0,
{
}

proof fn lemma_fixed_digits_zero(f: nat, w: nat)
    requires
        fixed_digits(f, w) == zeros(w),
    ensures
        f % pow10(w) == 0,
    decreases w,
{
    if w > 0 {
        let prev = fixed_digits(f / 10, (w - 1) as nat);
        assert(fixed_digits(f, w) == prev.push(digit_char((f % 10) as int)));
        assert(fixed_digits(f, w).last() == '0');
        lemma_digit_zero((f % 10) as int);
        assert(prev =~= zeros((w - 1) as nat)) by {
            assert forall|i: int| 0 <= i < prev.len() implies prev[i] == '0' by {
                assert(prev[i] == fixed_digits(f, w)[i]);
            }
        }
        lemma_fixed_digits_zero(f / 10, (w - 1) as nat);
        let p = pow10((w - 1) as nat);
        lemma_pow10_positive((w - 1) as nat);
        let q = (f / 10) / p;
        assert(f / 10 == q * p) by {
            vstd::arithmetic::div_mod::lemma_fundamental_div_mod((f / 10) as int, p as int);
        }
        assert(f == 10 * (f / 10)) by {
            vstd::arithmetic::div_mod::lemma_fundamental_div_mod(f as int, 10);
        }
        assert(f == q * (10 * p)) by (nonlinear_arith)
            requires
                f == 10 * (f / 10),
                f / 10 == q * p,
        ;
        assert(pow10(w) == 10 * p);
        vstd::arithmetic::div_mod::lemma_mod_multiples_basic(q as int, (10 * p) as int);
    }
}

/// A number without a fraction is written as its integral part and `.0`. Any other
/// is written as its integral part, a point, and the fewest digits that hold the
/// fraction: the last of them is not `0`, and only zeros follow them among the
/// `scale` digits of the fraction.
pub proof fn lemma_decimal_text(d: Decimal)
    ensures
        ({
            let p = pow10(d.spec_scale());
            let whole = d.spec_magnitude() / p;
            let fraction = d.spec_magnitude() % p;
            let sign = if d.spec_negative() {
                seq!['-']
            } else {
                Seq::<char>::empty()
            };
            &&& fraction == 0 ==> d.text() == sign + dec(whole) + ".0"@
            &&& fraction != 0 ==> exists|digits: Seq<char>|
                {
                    &&& d.text() == sign + dec(whole) + seq!['.'] + digits
                    &&& digits.len() > 0
                    &&& digits.last() != '0'
                    &&& digits.len() <= d.spec_scale()
                    &&& fixed_digits(fraction, d.spec_scale()) == digits + zeros(
                        (d.spec_scale() - digits.len()) as nat,
                    )
                }
        }),
{
    let p = pow10(d.spec_scale());
    lemma_pow10_positive(d.spec_scale());
    let fraction = d.spec_magnitude() % p;
    if fraction == 0 {
        assert(seq!['.', '0'] =~= ".0"@) by {
            reveal_strlit(".0");
        }
    } else {
        let fd = fixed_digits(fraction, d.spec_scale());
        let digits = trim_zeros(fd);
        lemma_trim_zeros(fd);
        assert(fd.len() == d.spec_scale()) by {
            lemma_fixed_digits_len(fraction, d.spec_scale());
        }
        if digits.len() == 0 {
            assert(fd =~= zeros(d.spec_scale()));
            lemma_fixed_digits_zero(fraction, d.spec_scale());
            vstd::arithmetic::div_mod::lemma_mod_twice(d.spec_magnitude() as int, p as int);
        }
        assert(d.text() == (if d.spec_negative() { seq!['-'] } else { Seq::<char>::empty() }) + dec(
            d.spec_magnitude() / p,
        ) + seq!['.'] + digits);
    }
}

proof fn lemma_fixed_digits_len(f: nat, w: nat)
    ensures
        fixed_digits(f, w).len() == w,
    decreases w,
{
    if w > 0 {
        lemma_fixed_digits_len(f / 10, (w - 1) as nat);
    }
}

impl Decimal {
    pub closed spec fn spec_negative(&self) -> bool {
        self.negative && self.magnitude != 0
    }

    pub closed spec fn spec_magnitude(&self) -> nat {
        self.magnitude as nat
    }

    pub closed spec fn spec_scale(&self) -> nat {
        self.scale as nat
    }

    /// The value as a fraction over a power of ten.
    pub open spec fn numerator(&self) -> int {
        if self.spec_negative() {
            -(self.spec_magnitude() as int)
        } else {
            self.spec_magnitude() as int
        }
    }

    pub open spec fn text(&self) -> Seq<char> {
        decimal_text(self.spec_negative(), self.spec_magnitude(), self.spec_scale())
    }

    /// The number `mantissa / 10^scale`.
    pub fn new(mantissa: i64, scale: u32) -> (r: Decimal)
        requires
            scale <= MAX_SCALE,
        ensures
            r.numerator() == mantissa as int,
            r.spec_scale() == scale as nat,
    {
        let negative = mantissa < 0;
        let magnitude: u64 = if negative {
            (-(mantissa as i128)) as u64
        } else {
            mantissa as u64
        };
        Decimal { negative, magnitude, scale }
    }

    /// The integer `value`.
    pub fn from_int(value: i64) -> (r: Decimal)
        ensures
            r.numerator() == value as int,
            r.spec_scale() == 0,
    {
        Decimal::new(value, 0)
    }

    /// Appends the text of the number.
    pub fn push_text(&self, out: &mut String)
        ensures
            final(out)@ == old(out)@ + self.text(),
    {
        proof {
            use_type_invariant(self);
        }
        let ghost start = out@;
        let ghost sign: Seq<char> = if self.spec_negative() { seq!['-'] } else { seq![] };
        if self.negative && self.magnitude != 0 {
            push_char(out, '-');
        }
        assert(out@ =~= start + sign);
        let p = pow10_u64(self.scale);
        proof {
            lemma_pow10_positive(self.scale as nat);
        }
        let whole = self.magnitude / p;
        let fraction = self.magnitude % p;
        push_dec(out, whole);
        push_char(out, '.');
        if fraction == 0 {
            push_char(out, '0');
            assert(out@ =~= start + self.text());
        } else {
            let mut digits: Vec<char> = Vec::new();
            push_fixed_digits(&mut digits, fraction, self.scale);
            assert(digits@ =~= fixed_digits(fraction as nat, self.scale as nat));
            while digits.len() > 0 && digits[digits.len() - 1] == '0'
                invariant
                    trim_zeros(digits@) == trim_zeros(fixed_digits(fraction as nat, self.scale as nat)),
                decreases digits.len(),
            {
                let ghost prev = digits@;
                digits.pop();
                assert(digits@ =~= prev.drop_last());
            }
            let ghost before = out@;
            let mut i: usize = 0;
            while i < digits.len()
                invariant
                    i <= digits.len(),
                    out@ == before + digits@.take(i as int),
                decreases digits.len() - i,
            {
                push_char(out, digits[i]);
                i = i + 1;
                assert(out@ =~= before + digits@.take(i as int));
            }
            assert(digits@.take(i as int) =~= digits@);
            assert(trim_zeros(digits@) == digits@);
            assert(out@ =~= start + self.text());
        }
    }
}

} // verus!
