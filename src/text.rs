//! Characters of a source text and their byte offsets in its UTF-8 encoding.
use vstd::prelude::*;
use vstd::string::*;
use vstd::utf8::*;

verus! {

/// Byte offset, in the UTF-8 encoding of `s`, of the character at index `k`.
pub open spec fn byte_offset(s: Seq<char>, k: int) -> nat {
    encode_utf8(s.subrange(0, k)).len()
}

/// Number of bytes that `c` takes in UTF-8.
pub open spec fn char_width(c: char) -> nat {
    encode_scalar(c as u32).len()
}

proof fn lemma_encode_append(a: Seq<char>, b: Seq<char>)
    ensures
        encode_utf8(a + b) == encode_utf8(a) + encode_utf8(b),
    decreases a.len(),
{
    if a.len() == 0 {
        assert(a + b =~= b);
        assert(encode_utf8(a) + encode_utf8(b) =~= encode_utf8(b));
    } else {
        assert((a + b).drop_first() =~= a.drop_first() + b);
        lemma_encode_append(a.drop_first(), b);
        assert(encode_utf8(a + b) =~= encode_utf8(a) + encode_utf8(b));
    }
}

pub proof fn lemma_offset_step(s: Seq<char>, k: int)
    requires
        0 <= k < s.len(),
    ensures
        byte_offset(s, k + 1) == byte_offset(s, k) + char_width(s[k]),
{
    assert(s.subrange(0, k + 1) =~= s.subrange(0, k) + seq![s[k]]);
    lemma_encode_append(s.subrange(0, k), seq![s[k]]);
    let one = seq![s[k]];
    assert(one.drop_first() =~= Seq::<char>::empty());
    assert(encode_utf8(one.drop_first()) =~= Seq::<u8>::empty());
    assert(encode_utf8(one) =~= encode_scalar(s[k] as u32));
}

pub proof fn lemma_offset_mono(s: Seq<char>, j: int, k: int)
    requires
        0 <= j <= k <= s.len(),
    ensures
        byte_offset(s, j) <= byte_offset(s, k),
{
    assert(s.subrange(0, k) =~= s.subrange(0, j) + s.subrange(j, k));
    lemma_encode_append(s.subrange(0, j), s.subrange(j, k));
}

/// The UTF-8 width of `c`, from its scalar value.
pub fn utf8_width(c: char) -> (w: usize)
    ensures
        w == char_width(c),
        1 <= w <= 4,
{
    broadcast use char_is_scalar;
    let u = c as u32;
    if u < 0x80 {
        1
    } else if u < 0x800 {
        2
    } else if u < 0x10000 {
        3
    } else {
        4
    }
}

/// The characters of `src`, with the byte offset of each and, last, the length in bytes.
pub fn source_chars(src: &str) -> (r: (Vec<char>, Vec<usize>))
    ensures
        r.0@ == src@,
        r.1@.len() == src@.len() + 1,
        forall|k: int| 0 <= k <= src@.len() ==> r.1@[k] == byte_offset(src@, k),
        r.1@[src@.len() as int] == encode_utf8(src@).len(),
{
    let mut chars: Vec<char> = Vec::new();
    for c in it: src.chars()
        invariant
            chars@ == it.seq().take(it.index() as int),
    {
        chars.push(c);
    }
    assert(chars@ == src@);
    let mut offsets: Vec<usize> = Vec::new();
    offsets.push(0);
    assert(src@.subrange(0, 0) =~= Seq::<char>::empty());
    let total = src.as_bytes().len();
    let mut i: usize = 0;
    while i < chars.len()
        invariant
            chars@ == src@,
            total == encode_utf8(src@).len(),
            i <= chars@.len(),
            offsets@.len() == i + 1,
            forall|k: int| 0 <= k <= i ==> offsets@[k] == byte_offset(src@, k),
        decreases chars@.len() - i,
    {
        proof {
            lemma_offset_step(src@, i as int);
            lemma_offset_mono(src@, i as int + 1, src@.len() as int);
            assert(src@.subrange(0, src@.len() as int) =~= src@);
        }
        let w = utf8_width(chars[i]);
        let next = offsets[i] + w;
        offsets.push(next);
        i = i + 1;
    }
    assert(src@.subrange(0, src@.len() as int) =~= src@);
    (chars, offsets)
}

/// Relies on std's `FromIterator<char>` for `String`: the string holds the given characters, in order.
#[verifier::external_body]
pub(crate) fn string_of(chars: &[char]) -> (r: String)
    ensures
        r@ == chars@,
{
    chars.iter().collect()
}

} // verus!
