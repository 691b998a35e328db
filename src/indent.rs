//! Indentation of multi-line text.

use vstd::prelude::*;
use crate::fmt::push_char;

verus! {

/// The index of the first line feed in `s`, or its length when there is none.
pub open spec fn find_nl(s: Seq<char>) -> nat
    decreases s.len(),
{
    if s.len() == 0 {
        0
    } else if s[0] == '\n' {
        0
    } else {
        1 + find_nl(s.drop_first())
    }
}

/// A line without the carriage return that ended it.
pub open spec fn strip_cr(line: Seq<char>) -> Seq<char> {
    if line.len() > 0 && line.last() == '\r' {
        line.drop_last()
    } else {
        line
    }
}

pub open spec fn spaces(n: nat) -> Seq<char> {
    Seq::new(n, |i: int| ' ')
}

/// Each line of `s` behind `2 * depth` spaces, but the first line when `skip_first`
/// holds. A line ends at a line feed, or at a carriage return and a line feed, which
/// become a single line feed; `s` ends with a line feed exactly when the result does.
#[verifier::opaque]
pub open spec fn indent_text(s: Seq<char>, depth: nat, skip_first: bool) -> Seq<char>
    decreases s.len(),
{
    if s.len() == 0 {
        Seq::empty()
    } else {
        let j = find_nl(s) as int;
        let prefix = if skip_first {
            Seq::empty()
        } else {
            spaces(2 * depth)
        };
        if j >= s.len() {
            prefix + s
        } else {
            prefix + strip_cr(s.subrange(0, j)) + seq!['\n'] + indent_text(
                s.subrange(j + 1, s.len() as int),
                depth,
                false,
            )
        }
    }
}

proof fn lemma_find_nl(s: Seq<char>, j: int)
    requires
        0 <= j <= s.len(),
        forall|k: int| 0 <= k < j ==> s[k] != '\n',
        j == s.len() || s[j] == '\n',
    ensures
        find_nl(s) == j,
    decreases j,
{
    if j > 0 {
        lemma_find_nl(s.drop_first(), j - 1);
    }
}

proof fn lemma_indent_step(rest: Seq<char>, depth: nat, skip_first: bool, j: int)
    requires
        rest.len() > 0,
        0 <= j <= rest.len(),
        forall|k: int| 0 <= k < j ==> rest[k] != '\n',
        j == rest.len() || rest[j] == '\n',
    ensures
        ({
            let prefix = if skip_first {
                Seq::empty()
            } else {
                spaces(2 * depth)
            };
            indent_text(rest, depth, skip_first) == if j == rest.len() {
                prefix + rest
            } else {
                prefix + strip_cr(rest.subrange(0, j)) + seq!['\n'] + indent_text(
                    rest.subrange(j + 1, rest.len() as int),
                    depth,
                    false,
                )
            }
        }),
{
    lemma_find_nl(rest, j);
    reveal(indent_text);
}

fn chars_of(s: &str) -> (r: Vec<char>)
    ensures
        r@ == s@,
{
    let mut out: Vec<char> = Vec::new();
    for c in it: s.chars()
        invariant
            it.seq() == s@,
            out@ == it.seq().take(it.index() as int),
    {
        out.push(c);
    }
    out
}

fn push_spaces(out: &mut String, n: usize)
    ensures
        final(out)@ == old(out)@ + spaces(n as nat),
{
    let ghost start = out@;
    let mut i: usize = 0;
    while i < n
        invariant
            i <= n,
            out@ == start + spaces(i as nat),
        decreases n - i,
    {
        push_char(out, ' ');
        i = i + 1;
        assert(out@ =~= start + spaces(i as nat));
    }
}

fn push_range(out: &mut String, v: &Vec<char>, from: usize, to: usize)
    requires
        from <= to <= v@.len(),
    ensures
        final(out)@ == old(out)@ + v@.subrange(from as int, to as int),
{
    let ghost start = out@;
    let mut i: usize = from;
    while i < to
        invariant
            from <= i <= to <= v@.len(),
            out@ == start + v@.subrange(from as int, i as int),
        decreases to - i,
    {
        push_char(out, v[i]);
        i = i + 1;
        assert(out@ =~= start + v@.subrange(from as int, i as int));
    }
}

/// Writes the line of `v` that starts at `i`, and returns where the next one starts.
fn indent_line(out: &mut String, v: &Vec<char>, i: usize, depth: usize, skip: bool) -> (next: usize)
    requires
        i < v@.len(),
        2 * depth <= usize::MAX,
    ensures
        i < next <= v@.len(),
        final(out)@ + indent_text(v@.subrange(next as int, v@.len() as int), depth as nat, false)
            == old(out)@ + indent_text(v@.subrange(i as int, v@.len() as int), depth as nat, skip),
{
    let n = v.len();
    let ghost rest = v@.subrange(i as int, n as int);
    let ghost before = out@;
    let mut j = i;
    while j < n && v[j] != '\n'
        invariant
            i <= j <= n == v@.len(),
            forall|k: int| i <= k < j ==> v@[k] != '\n',
        decreases n - j,
    {
        j = j + 1;
    }
    proof {
        lemma_indent_step(rest, depth as nat, skip, j - i);
    }
    let ghost prefix = if skip { Seq::<char>::empty() } else { spaces(2 * depth as nat) };
    if !skip {
        push_spaces(out, 2 * depth);
    }
    assert(out@ == before + prefix);
    if j == n {
        push_range(out, v, i, n);
        assert(out@ =~= before + prefix + rest);
        assert(indent_text(v@.subrange(n as int, n as int), depth as nat, false) =~= Seq::<char>::empty()) by {
            reveal(indent_text);
        }
        assert(out@ + indent_text(v@.subrange(n as int, n as int), depth as nat, false)
            =~= before + indent_text(rest, depth as nat, skip));
        n
    } else {
        let end = if j > i && v[j - 1] == '\r' { j - 1 } else { j };
        assert(v@.subrange(i as int, end as int) =~= strip_cr(rest.subrange(0, j - i)));
        push_range(out, v, i, end);
        push_char(out, '\n');
        assert(rest.subrange(j - i + 1, rest.len() as int) =~= v@.subrange(j + 1, n as int));
        assert(out@ =~= before + prefix + strip_cr(rest.subrange(0, j - i)) + seq!['\n']);
        assert(out@ + indent_text(v@.subrange(j + 1, n as int), depth as nat, false)
            =~= before + indent_text(rest, depth as nat, skip));
        j + 1
    }
}

/// Indents every line of `s`, or every line but the first when `skip1` holds, by
/// `indent_depth` times two spaces.
fn indent_all_or_skip1(s: &str, indent_depth: usize, skip1: bool) -> (r: String)
    requires
        2 * indent_depth <= usize::MAX,
    ensures
        r@ == indent_text(s@, indent_depth as nat, skip1),
{
    let v = chars_of(s);
    let n = v.len();
    let mut out = String::new();
    let mut i: usize = 0;
    let mut first = true;
    assert(v@.subrange(0, n as int) =~= s@);
    while i < n
        invariant
            i <= n == v@.len(),
            v@ == s@,
            2 * indent_depth <= usize::MAX,
            first ==> i == 0,
            out@ + indent_text(v@.subrange(i as int, n as int), indent_depth as nat, skip1 && first)
                == indent_text(s@, indent_depth as nat, skip1),
        decreases n - i,
    {
        i = indent_line(&mut out, &v, i, indent_depth, skip1 && first);
        first = false;
    }
    assert(v@.subrange(n as int, n as int) =~= Seq::<char>::empty());
    assert(indent_text(Seq::<char>::empty(), indent_depth as nat, skip1 && first) =~= Seq::<char>::empty()) by {
        reveal(indent_text);
    }
    assert(out@ =~= indent_text(s@, indent_depth as nat, skip1));
    out
}

/// Indents every line of `s` by `indent_depth` times two spaces.
pub fn indent(s: &str, indent_depth: usize) -> (r: String)
    requires
        2 * indent_depth <= usize::MAX,
    ensures
        r@ == indent_text(s@, indent_depth as nat, false),
{
    indent_all_or_skip1(s, indent_depth, false)
}

/// Indents every line of `s` but the first by `indent_depth` times two spaces.
pub fn indent_skip1(s: &str, indent_depth: usize) -> (r: String)
    requires
        2 * indent_depth <= usize::MAX,
    ensures
        r@ == indent_text(s@, indent_depth as nat, true),
{
    indent_all_or_skip1(s, indent_depth, true)
}

} // verus!
