//! Diagnostics: each error shown under the source line it points into.
use vstd::prelude::*;
use vstd::utf8::*;

use crate::text::{byte_offset, lemma_offset_mono, source_chars, string_of};
use crate::token::Token;

verus! {

/// Index of the first character of `s`, from `k` on, that starts at or after byte `index`
/// (`s.len()` if there is none).
pub open spec fn first_from(s: Seq<char>, index: int, k: int) -> int
    decreases s.len() - k,
{
    if k < 0 || k >= s.len() || byte_offset(s, k) >= index {
        k
    } else {
        first_from(s, index, k + 1)
    }
}

/// Number of characters of `s` that start before byte `index`.
pub open spec fn chars_before(s: Seq<char>, index: int) -> int {
    first_from(s, index, 0)
}

/// Start of the line holding character position `p`: just after the last newline before it.
pub open spec fn line_start(s: Seq<char>, p: int) -> int
    decreases p,
{
    if p <= 0 {
        0
    } else if s[p - 1] == '\n' {
        p
    } else {
        line_start(s, p - 1)
    }
}

/// End of the line holding character position `p`: the next newline, or the end of `s`.
pub open spec fn line_end(s: Seq<char>, p: int) -> int
    decreases s.len() - p,
{
    if p < 0 || p >= s.len() || s[p] == '\n' {
        p
    } else {
        line_end(s, p + 1)
    }
}

/// Number of newlines among the first `p` characters of `s`.
pub open spec fn newlines(s: Seq<char>, p: int) -> nat
    decreases p,
{
    if p <= 0 {
        0
    } else {
        newlines(s, p - 1) + if s[p - 1] == '\n' {
            1nat
        } else {
            0nat
        }
    }
}

pub open spec fn digit_char(d: nat) -> char {
    ((d + 48) as u8) as char
}

/// Decimal digits of `n`.
pub open spec fn decimal(n: nat) -> Seq<char>
    decreases n,
{
    if n < 10 {
        seq![digit_char(n)]
    } else {
        decimal(n / 10).push(digit_char(n % 10))
    }
}

/// The rendering of one error: the source line that holds byte `index`, then a
/// line with a caret under that byte, the message and the 1-based line number.
pub open spec fn render(s: Seq<char>, index: int, msg: Seq<char>) -> Seq<char> {
    let p = chars_before(s, index);
    let ls = line_start(s, p);
    let le = line_end(s, p);
    s.subrange(ls, le).push('\n') + Seq::new((index - byte_offset(s, ls)) as nat, |i: int| ' ')
        + seq!['^', ' '] + msg + seq![',', ' ', 'i', 'n', ' ', 'l', 'i', 'n', 'e', ' ']
        + decimal(newlines(s, p) + 1)
}

/// A finalized set of rendered diagnostics.
#[derive(Debug)]
pub struct ParsingErr {
    errors: Vec<String>,
}

impl View for ParsingErr {
    type V = Seq<Seq<char>>;

    closed spec fn view(&self) -> Seq<Seq<char>> {
        self.errors@.map_values(|e: String| e@)
    }
}

/// Appends the characters of `s`.
pub(crate) fn push_str(out: &mut Vec<char>, s: &str)
    ensures
        final(out)@ == old(out)@ + s@,
{
    let (cs, _) = source_chars(s);
    let mut i: usize = 0;
    while i < cs.len()
        invariant
            cs@ == s@,
            i <= cs@.len(),
            out@ == old(out)@ + s@.subrange(0, i as int),
        decreases cs@.len() - i,
    {
        out.push(cs[i]);
        i = i + 1;
        assert(out@ =~= old(out)@ + s@.subrange(0, i as int));
    }
    assert(s@.subrange(0, s@.len() as int) =~= s@);
}

/// Appends the decimal digits of `n`.
pub(crate) fn push_decimal(out: &mut Vec<char>, n: u64)
    ensures
        final(out)@ == old(out)@ + decimal(n as nat),
    decreases n,
{
    if n >= 10 {
        push_decimal(out, n / 10);
    }
    let d = (n % 10) as u8;
    let c = (d + 48) as char;
    out.push(c);
    assert(out@ =~= old(out)@ + decimal(n as nat));
}

impl ParsingErr {
    /// The rendered diagnostics, in order.
    pub fn messages(&self) -> (r: &Vec<String>)
        ensures
            r@.len() == self@.len(),
            forall|i: int| 0 <= i < r@.len() ==> (#[trigger] r@[i])@ == self@[i],
    {
        &self.errors
    }

    /// One diagnostic at the start of `token`, in the source it was scanned from.
    pub fn token(token: &Token, msg: &str) -> (r: Self)
        requires
            token.start <= encode_utf8(token.src@).len(),
        ensures
            r@ == seq![render(token.src@, token.start as int, msg@)],
    {
        let src = token.src();
        let start = token.start();
        let errs = [(start, msg)];
        let r = ParsingErr::new(src, &errs);
        assert(r@ =~= seq![render(token.src@, token.start as int, msg@)]);
        r
    }

    /// Renders each `(byte offset, message)` pair of `err` against `src`, in order.
    pub fn new(src: &str, err: &[(usize, &str)]) -> (r: Self)
        requires
            forall|i: int| 0 <= i < err@.len() ==> (#[trigger] err@[i]).0 <= encode_utf8(src@).len(),
        ensures
            r@ == Seq::new(err@.len(), |i: int| render(src@, err@[i].0 as int, err@[i].1@)),
    {
        let (chars, offs) = source_chars(src);
        let ghost s = src@;
        let n = chars.len();
        let n_offs = offs.len();
        assert(n < n_offs);
        let mut errors: Vec<String> = Vec::new();
        let mut e: usize = 0;
        while e < err.len()
            invariant
                chars@ == s,
                s == src@,
                n == s.len(),
                offs@.len() == n + 1,
                n < usize::MAX,
                forall|k: int| 0 <= k <= n ==> offs@[k] == byte_offset(s, k),
                forall|i: int| 0 <= i < err@.len() ==> (#[trigger] err@[i]).0 <= encode_utf8(s).len(),
                offs@[n as int] == encode_utf8(s).len(),
                e <= err@.len(),
                errors@.len() == e,
                forall|i: int| 0 <= i < e ==> (#[trigger] errors@[i])@ == render(s, err@[i].0 as int, err@[i].1@),
            decreases err@.len() - e,
        {
            let (index, msg) = err[e];
            // characters that start before `index`
            let mut p: usize = 0;
            while p < n && offs[p] < index
                invariant
                    p <= n,
                    n == s.len(),
                    offs@.len() == n + 1,
                    forall|k: int| 0 <= k <= n ==> offs@[k] == byte_offset(s, k),
                    first_from(s, index as int, p as int) == chars_before(s, index as int),
                    p > 0 ==> byte_offset(s, p - 1) < index,
                decreases n - p,
            {
                p = p + 1;
            }
            let mut ls: usize = p;
            while ls > 0 && chars[ls - 1] != '\n'
                invariant
                    ls <= p,
                    p <= n,
                    chars@ == s,
                    n == s.len(),
                    line_start(s, ls as int) == line_start(s, p as int),
                decreases ls,
            {
                ls = ls - 1;
            }
            let mut le: usize = p;
            while le < n && chars[le] != '\n'
                invariant
                    p <= le <= n,
                    chars@ == s,
                    n == s.len(),
                    line_end(s, le as int) == line_end(s, p as int),
                decreases n - le,
            {
                le = le + 1;
            }
            let mut lines: usize = 1;
            let mut k: usize = 0;
            while k < p
                invariant
                    k <= p,
                    p <= n,
                    chars@ == s,
                    n == s.len(),
                    lines == newlines(s, k as int) + 1,
                    lines <= k + 1,
                    n < usize::MAX,
                decreases p - k,
            {
                if chars[k] == '\n' {
                    lines = lines + 1;
                }
                k = k + 1;
            }
            proof {
                lemma_offset_mono(s, ls as int, p as int);
                if ls < p {
                    lemma_offset_mono(s, ls as int, p - 1);
                } else if p > 0 {
                    crate::text::lemma_offset_step(s, p - 1);
                    assert(s[p - 1] == '\n');
                    assert(crate::text::char_width('\n') == 1) by {
                        assert(('\n' as u32) == 10);
                    }
                }
            }
            let mut out: Vec<char> = Vec::new();
            let mut j: usize = ls;
            while j < le
                invariant
                    ls <= j <= le,
                    le <= n,
                    chars@ == s,
                    n == s.len(),
                    out@ == s.subrange(ls as int, j as int),
                decreases le - j,
            {
                out.push(chars[j]);
                j = j + 1;
                assert(out@ =~= s.subrange(ls as int, j as int));
            }
            out.push('\n');
            let ghost before_spaces = out@;
            let width = index - offs[ls];
            let mut w: usize = 0;
            while w < width
                invariant
                    w <= width,
                    out@ == before_spaces + Seq::new(w as nat, |i: int| ' '),
                decreases width - w,
            {
                out.push(' ');
                w = w + 1;
                assert(out@ =~= before_spaces + Seq::new(w as nat, |i: int| ' '));
            }
            out.push('^');
            out.push(' ');
            push_str(&mut out, msg);
            push_str(&mut out, ", in line ");
            push_decimal(&mut out, lines as u64);
            proof {
                reveal_strlit(", in line ");
            }
            assert(out@ =~= render(s, index as int, msg@));
            errors.push(string_of(out.as_slice()));
            e = e + 1;
        }
        let r = ParsingErr { errors };
        assert(r@ =~= Seq::new(err@.len(), |i: int| render(src@, err@[i].0 as int, err@[i].1@)));
        r
    }
}

} // verus!
