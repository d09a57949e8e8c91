//! The scanner: source text to tokens, or every lexical error at once.
use vstd::prelude::*;
use vstd::slice::slice_subrange;
use vstd::utf8::*;

use crate::error::{render, ParsingErr};
use crate::parser::within_source;
use crate::text::{byte_offset, lemma_offset_mono, source_chars, string_of};
pub use crate::token::{Kind, Token, TokenType, TokenView};
use crate::token::{keyword_from, keyword_of, keyword_table};

verus! {

pub open spec fn is_digit(c: char) -> bool {
    '0' <= c <= '9'
}

pub open spec fn is_ident_start(c: char) -> bool {
    ('a' <= c <= 'z') || ('A' <= c <= 'Z') || c == '_'
}

pub open spec fn is_ident_char(c: char) -> bool {
    is_ident_start(c) || is_digit(c)
}

pub open spec fn is_space(c: char) -> bool {
    c == ' ' || c == '\t' || c == '\n' || c == '\r'
}

/// End of the run of digits that starts at `i`.
pub open spec fn digits_end(s: Seq<char>, i: int) -> int
    decreases s.len() - i,
{
    if 0 <= i < s.len() && is_digit(s[i]) {
        digits_end(s, i + 1)
    } else {
        i
    }
}

/// End of the run of identifier characters that starts at `i`.
pub open spec fn ident_end(s: Seq<char>, i: int) -> int
    decreases s.len() - i,
{
    if 0 <= i < s.len() && is_ident_char(s[i]) {
        ident_end(s, i + 1)
    } else {
        i
    }
}

/// Position just after the first newline (or, if `at_semi`, newline or `;`) from `i`
/// on; the end of `s` if there is none.
pub open spec fn skip_end(s: Seq<char>, i: int, at_semi: bool) -> int
    decreases s.len() - i,
{
    if i < 0 || i >= s.len() {
        s.len() as int
    } else if s[i] == '\n' || (at_semi && s[i] == ';') {
        i + 1
    } else {
        skip_end(s, i + 1, at_semi)
    }
}

/// Position, from `k` on, of the quote that closes the string opened at `open`: the
/// first character equal to the opening one that does not follow a backslash (the
/// character right after the opening quote follows nothing). `s.len()` if there is none.
pub open spec fn string_close(s: Seq<char>, open: int, k: int) -> int
    decreases s.len() - k,
{
    if k < 0 || k >= s.len() {
        s.len() as int
    } else if s[k] == s[open] && (k == open + 1 || s[k - 1] != '\\') {
        k
    } else {
        string_close(s, open, k + 1)
    }
}

/// Value of a run of decimal digits.
pub open spec fn decimal_value(d: Seq<char>) -> int
    decreases d.len(),
{
    if d.len() == 0 {
        0
    } else {
        decimal_value(d.drop_last()) * 10 + (d.last() as u32 - 48)
    }
}

/// Kind of a character that is a token by itself.
pub open spec fn single_kind(c: char) -> Option<Kind> {
    if c == '(' {
        Some(TokenType::LeftParen)
    } else if c == ')' {
        Some(TokenType::RightParen)
    } else if c == '{' {
        Some(TokenType::LeftBrace)
    } else if c == '}' {
        Some(TokenType::RightBrace)
    } else if c == '[' {
        Some(TokenType::LeftSquare)
    } else if c == ']' {
        Some(TokenType::RightSquare)
    } else if c == '+' {
        Some(TokenType::Plus)
    } else if c == '-' {
        Some(TokenType::Minus)
    } else if c == '*' {
        Some(TokenType::Mul)
    } else if c == '/' {
        Some(TokenType::Div)
    } else if c == '%' {
        Some(TokenType::Modulo)
    } else if c == ',' {
        Some(TokenType::Comma)
    } else if c == ';' {
        Some(TokenType::SemiColon)
    } else if c == ':' {
        Some(TokenType::Colon)
    } else {
        None
    }
}

/// Kinds of a character that starts a one- or two-character operator: alone, and followed by `=`.
pub open spec fn pair_kinds(c: char) -> Option<(Kind, Kind)> {
    if c == '=' {
        Some((TokenType::Equal, TokenType::EqualEqual))
    } else if c == '<' {
        Some((TokenType::Less, TokenType::LessEqual))
    } else if c == '>' {
        Some((TokenType::Greater, TokenType::GreaterEqual))
    } else if c == '!' {
        Some((TokenType::Not, TokenType::NotEqual))
    } else {
        None
    }
}

/// What one step of the scanner yields: at most one token (its kind and the
/// character positions of its first and last character), at most one error (its
/// character position and message), and the position where scanning resumes.
pub struct Scanned {
    pub token: Option<(Kind, int, int)>,
    pub error: Option<(int, Seq<char>)>,
    pub next: int,
}

pub open spec fn emit(kind: Kind, first: int, last: int, next: int) -> Scanned {
    Scanned { token: Some((kind, first, last)), error: None, next }
}

pub open spec fn fail(at: int, msg: Seq<char>, next: int) -> Scanned {
    Scanned { token: None, error: Some((at, msg)), next }
}

/// The fractional part of a number whose text starts at `start`; `end` is its last
/// character so far and `c` the next character to read.
pub open spec fn scan_fraction(s: Seq<char>, start: int, end: int, c: int) -> Scanned {
    let j = digits_end(s, c);
    if j < s.len() && s[j] == '.' {
        fail(j, "'.' is not expected here"@, skip_end(s, j, true))
    } else {
        let last = if j > c {
            j - 1
        } else {
            end
        };
        if start == last {
            emit(TokenType::Dot, start, start, j)
        } else {
            emit(TokenType::Float(s.subrange(start, last + 1)), start, last, j)
        }
    }
}

pub open spec fn scan_number(s: Seq<char>, i: int) -> Scanned {
    let j = digits_end(s, i + 1);
    if j < s.len() && s[j] == '.' {
        scan_fraction(s, i, j, j + 1)
    } else if decimal_value(s.subrange(i, j)) <= i64::MAX {
        emit(TokenType::Int(decimal_value(s.subrange(i, j)) as i64), i, j - 1, j)
    } else {
        fail(i, "Integer literal is too large"@, j)
    }
}

pub open spec fn scan_string(s: Seq<char>, i: int) -> Scanned {
    let k = string_close(s, i, i + 1);
    if k < s.len() {
        emit(TokenType::Str(s.subrange(i + 1, k)), i, k, k + 1)
    } else {
        fail(i, "String literal is not terminated"@, s.len() as int)
    }
}

pub open spec fn scan_word(s: Seq<char>, i: int) -> Scanned {
    let j = ident_end(s, i + 1);
    let w = s.subrange(i, j);
    let kind = match keyword_of(w) {
        Some(k) => k,
        None => TokenType::Identifier(w),
    };
    emit(kind, i, j - 1, j)
}

/// One step of the scanner at character position `i`.
pub open spec fn scan_step(s: Seq<char>, i: int) -> Scanned {
    let c = s[i];
    if c == '#' {
        Scanned { token: None, error: None, next: skip_end(s, i + 1, false) }
    } else if single_kind(c) is Some {
        emit(single_kind(c)->0, i, i, i + 1)
    } else if let Some((alone, with_eq)) = pair_kinds(c) {
        if i + 1 < s.len() && s[i + 1] == '=' {
            emit(with_eq, i, i + 1, i + 2)
        } else {
            emit(alone, i, i, i + 1)
        }
    } else if c == '.' {
        scan_fraction(s, i, i, i + 1)
    } else if is_digit(c) {
        scan_number(s, i)
    } else if c == '\'' || c == '"' {
        scan_string(s, i)
    } else if is_ident_start(c) {
        scan_word(s, i)
    } else if is_space(c) {
        Scanned { token: None, error: None, next: i + 1 }
    } else {
        fail(i, "Illegal character"@, i + 1)
    }
}

pub open spec fn token_at(s: Seq<char>, t: Option<(Kind, int, int)>) -> Seq<TokenView> {
    match t {
        Some((kind, first, last)) => seq![
            TokenView { kind, start: byte_offset(s, first), end: byte_offset(s, last) },
        ],
        None => seq![],
    }
}

pub open spec fn error_at(s: Seq<char>, e: Option<(int, Seq<char>)>) -> Seq<(nat, Seq<char>)> {
    match e {
        Some((at, msg)) => seq![(byte_offset(s, at), msg)],
        None => seq![],
    }
}

/// Tokens and errors (byte offset, message) that scanning `s` from character position `i` yields.
pub open spec fn scan_from(s: Seq<char>, i: int) -> (Seq<TokenView>, Seq<(nat, Seq<char>)>)
    decreases s.len() - i,
    via scan_from_decreases
{
    if i < 0 || i >= s.len() {
        (seq![], seq![])
    } else {
        let st = scan_step(s, i);
        let rest = scan_from(s, st.next);
        (token_at(s, st.token) + rest.0, error_at(s, st.error) + rest.1)
    }
}

#[via_fn]
proof fn scan_from_decreases(s: Seq<char>, i: int) {
    if 0 <= i < s.len() {
        lemma_step_advances(s, i);
    }
}

/// A `=` followed by another `=` scans as one `==` token spanning both; a `=` not
/// followed by `=` scans as a `=` token by itself.
pub proof fn lemma_equal_signs(s: Seq<char>, i: int)
    requires
        0 <= i < s.len(),
        s[i] == '=',
    ensures
        i + 1 < s.len() && s[i + 1] == '=' ==> scan_step(s, i) == emit(TokenType::EqualEqual, i, i + 1, i + 2),
        !(i + 1 < s.len() && s[i + 1] == '=') ==> scan_step(s, i) == emit(TokenType::Equal, i, i, i + 1),
{
}

proof fn lemma_digits_end(s: Seq<char>, i: int)
    requires
        0 <= i <= s.len(),
    ensures
        i <= digits_end(s, i) <= s.len(),
    decreases s.len() - i,
{
    if i < s.len() && is_digit(s[i]) {
        lemma_digits_end(s, i + 1);
    }
}

proof fn lemma_ident_end(s: Seq<char>, i: int)
    requires
        0 <= i <= s.len(),
    ensures
        i <= ident_end(s, i) <= s.len(),
    decreases s.len() - i,
{
    if i < s.len() && is_ident_char(s[i]) {
        lemma_ident_end(s, i + 1);
    }
}

proof fn lemma_skip_end(s: Seq<char>, i: int, at_semi: bool)
    requires
        0 <= i <= s.len(),
    ensures
        i < skip_end(s, i, at_semi) <= s.len() || (i == s.len() && skip_end(s, i, at_semi)
            == s.len()),
    decreases s.len() - i,
{
    if i < s.len() && !(s[i] == '\n' || (at_semi && s[i] == ';')) {
        lemma_skip_end(s, i + 1, at_semi);
    }
}

proof fn lemma_string_close(s: Seq<char>, open: int, k: int)
    requires
        0 <= k <= s.len(),
    ensures
        k <= string_close(s, open, k) <= s.len(),
    decreases s.len() - k,
{
    if k < s.len() && !(s[k] == s[open] && (k == open + 1 || s[k - 1] != '\\')) {
        lemma_string_close(s, open, k + 1);
    }
}

/// Each step of the scanner moves forward, and not past the end.
pub proof fn lemma_step_advances(s: Seq<char>, i: int)
    requires
        0 <= i < s.len(),
    ensures
        i < scan_step(s, i).next <= s.len(),
        match scan_step(s, i).error {
            Some((at, _m)) => 0 <= at < s.len(),
            None => true,
        },
        match scan_step(s, i).token {
            Some((_k, first, _last)) => 0 <= first < s.len(),
            None => true,
        },
{
    lemma_skip_end(s, i + 1, false);
    lemma_digits_end(s, i + 1);
    lemma_ident_end(s, i + 1);
    lemma_string_close(s, i, i + 1);
    let j = digits_end(s, i + 1);
    if j < s.len() {
        lemma_digits_end(s, j + 1);
        lemma_skip_end(s, j, true);
        lemma_skip_end(s, digits_end(s, j + 1), true);
    }
}

/// Everything that scanning `s` yields.
pub open spec fn scan(s: Seq<char>) -> (Seq<TokenView>, Seq<(nat, Seq<char>)>) {
    scan_from(s, 0)
}

/// Byte offset of the synthetic closing brace: the last byte of the source (0 if it is empty).
pub open spec fn closing_offset(s: Seq<char>) -> nat {
    if encode_utf8(s).len() == 0 {
        0
    } else {
        (encode_utf8(s).len() - 1) as nat
    }
}

/// The tokens of a successful scan: the scanned ones between a synthetic `{` at byte 0
/// and a synthetic `}` at the last byte.
pub open spec fn wrapped(s: Seq<char>) -> Seq<TokenView> {
    seq![TokenView { kind: TokenType::LeftBrace, start: 0, end: 0 }] + scan(s).0 + seq![
        TokenView { kind: TokenType::RightBrace, start: closing_offset(s), end: closing_offset(s) },
    ]
}

pub open spec fn views<'a>(t: Seq<Token<'a>>) -> Seq<TokenView> {
    t.map_values(|x: Token<'a>| x@)
}

pub open spec fn error_views(e: Seq<(usize, &str)>) -> Seq<(nat, Seq<char>)> {
    e.map_values(|x: (usize, &str)| (x.0 as nat, x.1@))
}

proof fn lemma_decimal_nonneg(d: Seq<char>)
    requires
        forall|k: int| 0 <= k < d.len() ==> is_digit(#[trigger] d[k]),
    ensures
        decimal_value(d) >= 0,
    decreases d.len(),
{
    if d.len() > 0 {
        lemma_decimal_nonneg(d.drop_last());
    }
}

proof fn lemma_decimal_prefix(d: Seq<char>, m: int)
    requires
        0 <= m <= d.len(),
        forall|k: int| 0 <= k < d.len() ==> is_digit(#[trigger] d[k]),
    ensures
        decimal_value(d.take(m)) <= decimal_value(d),
    decreases d.len(),
{
    if m < d.len() {
        lemma_decimal_prefix(d.drop_last(), m);
        assert(d.drop_last().take(m) =~= d.take(m));
        lemma_decimal_nonneg(d.drop_last());
    } else {
        assert(d.take(m) =~= d);
    }
}

fn ident_char(c: char) -> (r: bool)
    ensures
        r == is_ident_char(c),
{
    ('a' <= c && c <= 'z') || ('A' <= c && c <= 'Z') || c == '_' || ('0' <= c && c <= '9')
}

fn single(c: char) -> (r: Option<TokenType>)
    ensures
        match (r, single_kind(c)) {
            (Some(t), Some(k)) => t@ == k,
            (None, None) => true,
            _ => false,
        },
{
    match c {
        '(' => Some(TokenType::LeftParen),
        ')' => Some(TokenType::RightParen),
        '{' => Some(TokenType::LeftBrace),
        '}' => Some(TokenType::RightBrace),
        '[' => Some(TokenType::LeftSquare),
        ']' => Some(TokenType::RightSquare),
        '+' => Some(TokenType::Plus),
        '-' => Some(TokenType::Minus),
        '*' => Some(TokenType::Mul),
        '/' => Some(TokenType::Div),
        '%' => Some(TokenType::Modulo),
        ',' => Some(TokenType::Comma),
        ';' => Some(TokenType::SemiColon),
        ':' => Some(TokenType::Colon),
        _ => None,
    }
}

fn pair(c: char) -> (r: Option<(TokenType, TokenType)>)
    ensures
        match (r, pair_kinds(c)) {
            (Some((a, b)), Some((x, y))) => a@ == x && b@ == y,
            (None, None) => true,
            _ => false,
        },
{
    match c {
        '=' => Some((TokenType::Equal, TokenType::EqualEqual)),
        '<' => Some((TokenType::Less, TokenType::LessEqual)),
        '>' => Some((TokenType::Greater, TokenType::GreaterEqual)),
        '!' => Some((TokenType::Not, TokenType::NotEqual)),
        _ => None,
    }
}

proof fn lemma_digits_run(s: Seq<char>, i: int)
    requires
        0 <= i <= s.len(),
    ensures
        forall|k: int| i <= k < digits_end(s, i) ==> is_digit(#[trigger] s[k]),
    decreases s.len() - i,
{
    if i < s.len() && is_digit(s[i]) {
        lemma_digits_run(s, i + 1);
    }
}

/// One step of the scanner: the token and the error (byte offset, message) it
/// yields, if any, and the position where scanning resumes.
pub type Stepped<'a> = (Option<Token<'a>>, Option<(usize, &'static str)>, usize);

/// Scanner over one source text.
pub struct Lexer<'a> {
    src: &'a str,
    chars: Vec<char>,
    offs: Vec<usize>,
    keywords: Vec<(String, TokenType)>,
}

impl<'a> Lexer<'a> {
    /// The source this lexer scans.
    pub closed spec fn source(&self) -> &'a str {
        self.src
    }

    pub closed spec fn wf(&self) -> bool {
        &&& self.chars@ == self.src@
        &&& self.offs@.len() == self.chars@.len() + 1
        &&& self.chars@.len() < usize::MAX
        &&& forall|k: int| 0 <= k <= self.chars@.len() ==> self.offs@[k] == byte_offset(self.src@, k)
        &&& self.offs@[self.chars@.len() as int] == encode_utf8(self.src@).len()
        &&& self.keywords@.len() == keyword_table().len()
        &&& forall|i: int|
            0 <= i < self.keywords@.len() ==> (#[trigger] self.keywords@[i]).0@ == keyword_table()[i].0
                && self.keywords@[i].1@ == keyword_table()[i].1
    }

    pub fn new(src: &'a str) -> (r: Self)
        ensures
            r.wf(),
            r.source() == src,
    {
        let (chars, offs) = source_chars(src);
        let n_offs = offs.len();
        assert(chars@.len() < n_offs);
        let keywords = TokenType::keywords();
        Lexer { src, chars, offs, keywords }
    }

    fn make(&self, tt: TokenType, first: usize, last: usize) -> (r: Token<'a>)
        requires
            self.wf(),
            first <= last < self.chars@.len(),
        ensures
            r.src == self.src,
            r@ == (TokenView { kind: tt@, start: byte_offset(self.src@, first as int), end: byte_offset(self.src@, last as int) }),
    {
        Token::new(self.src, self.offs[first], self.offs[last], tt)
    }

    fn digits_end(&self, i: usize) -> (j: usize)
        requires
            self.wf(),
            i <= self.chars@.len(),
        ensures
            j == digits_end(self.src@, i as int),
    {
        let mut j = i;
        while j < self.chars.len() && '0' <= self.chars[j] && self.chars[j] <= '9'
            invariant
                self.wf(),
                i <= j <= self.chars@.len(),
                digits_end(self.src@, j as int) == digits_end(self.src@, i as int),
            decreases self.chars@.len() - j,
        {
            j = j + 1;
        }
        j
    }

    fn ident_end(&self, i: usize) -> (j: usize)
        requires
            self.wf(),
            i <= self.chars@.len(),
        ensures
            j == ident_end(self.src@, i as int),
    {
        let mut j = i;
        while j < self.chars.len() && ident_char(self.chars[j])
            invariant
                self.wf(),
                i <= j <= self.chars@.len(),
                ident_end(self.src@, j as int) == ident_end(self.src@, i as int),
            decreases self.chars@.len() - j,
        {
            j = j + 1;
        }
        j
    }

    fn skip_end(&self, i: usize, at_semi: bool) -> (j: usize)
        requires
            self.wf(),
            i <= self.chars@.len(),
        ensures
            j == skip_end(self.src@, i as int, at_semi),
    {
        let mut j = i;
        while j < self.chars.len()
            invariant
                self.wf(),
                i <= j <= self.chars@.len(),
                skip_end(self.src@, j as int, at_semi) == skip_end(self.src@, i as int, at_semi),
            decreases self.chars@.len() - j,
        {
            let c = self.chars[j];
            if c == '\n' || (at_semi && c == ';') {
                return j + 1;
            }
            j = j + 1;
        }
        j
    }

    fn string_close(&self, open: usize) -> (k: usize)
        requires
            self.wf(),
            open < self.chars@.len(),
        ensures
            k == string_close(self.src@, open as int, open + 1),
    {
        let q = self.chars[open];
        let mut k = open + 1;
        while k < self.chars.len()
            invariant
                self.wf(),
                open < k <= self.chars@.len(),
                q == self.src@[open as int],
                string_close(self.src@, open as int, k as int) == string_close(self.src@, open as int, open + 1),
            decreases self.chars@.len() - k,
        {
            if self.chars[k] == q && (k == open + 1 || self.chars[k - 1] != '\\') {
                return k;
            }
            k = k + 1;
        }
        k
    }

    fn substring(&self, a: usize, b: usize) -> (r: String)
        requires
            self.wf(),
            a <= b <= self.chars@.len(),
        ensures
            r@ == self.src@.subrange(a as int, b as int),
    {
        string_of(slice_subrange(self.chars.as_slice(), a, b))
    }

    fn decimal(&self, i: usize, j: usize) -> (r: Option<i64>)
        requires
            self.wf(),
            i <= j <= self.chars@.len(),
            forall|k: int| i <= k < j ==> is_digit(#[trigger] self.src@[k]),
        ensures
            r is Some <==> decimal_value(self.src@.subrange(i as int, j as int)) <= i64::MAX,
            r is Some ==> r->0 == decimal_value(self.src@.subrange(i as int, j as int)),
    {
        let ghost s = self.src@;
        let ghost d = s.subrange(i as int, j as int);
        let mut v: i64 = 0;
        let mut k = i;
        proof {
            assert(s.subrange(i as int, i as int) =~= Seq::<char>::empty());
        }
        while k < j
            invariant
                self.wf(),
                s == self.src@,
                d == s.subrange(i as int, j as int),
                i <= k <= j <= self.chars@.len(),
                forall|m: int| i <= m < j ==> is_digit(#[trigger] s[m]),
                v == decimal_value(s.subrange(i as int, k as int)),
            decreases j - k,
        {
            let digit = (self.chars[k] as u32 - 48) as i64;
            proof {
                assert(s.subrange(i as int, k + 1).drop_last() =~= s.subrange(i as int, k as int));
                assert(d.take(k + 1 - i) =~= s.subrange(i as int, k + 1));
                assert forall|m: int| 0 <= m < d.len() implies is_digit(#[trigger] d[m]) by {
                    assert(d[m] == s[i + m]);
                }
                lemma_decimal_prefix(d, k + 1 - i);
            }
            match v.checked_mul(10) {
                Some(t) => match t.checked_add(digit) {
                    Some(u) => {
                        v = u;
                    },
                    None => {
                        return None;
                    },
                },
                None => {
                    proof {
                        lemma_decimal_nonneg(s.subrange(i as int, k as int));
                    }
                    return None;
                },
            }
            k = k + 1;
        }
        assert(s.subrange(i as int, j as int) =~= d);
        Some(v)
    }

    fn keyword(&self, w: &String) -> (r: Option<TokenType>)
        requires
            self.wf(),
        ensures
            match (r, keyword_of(w@)) {
                (Some(t), Some(k)) => t@ == k,
                (None, None) => true,
                _ => false,
            },
    {
        let mut i: usize = 0;
        while i < self.keywords.len()
            invariant
                self.wf(),
                i <= self.keywords@.len(),
                keyword_from(w@, i as int) == keyword_of(w@),
            decreases self.keywords@.len() - i,
        {
            if self.keywords[i].0 == *w {
                return Some(self.keywords[i].1.copied());
            }
            i = i + 1;
        }
        None
    }
    /// The result of one step, as its token, its error and the next position.
    pub closed spec fn step_matches(&self, r: Stepped<'a>, st: Scanned) -> bool {
        &&& r.2 == st.next
        &&& match r.0 {
            Some(t) => t.src == self.src && seq![t@] == token_at(self.src@, st.token),
            None => token_at(self.src@, st.token) == Seq::<TokenView>::empty(),
        }
        &&& match r.1 {
            Some(e) => seq![(e.0 as nat, e.1@)] == error_at(self.src@, st.error),
            None => error_at(self.src@, st.error) == Seq::<(nat, Seq<char>)>::empty(),
        }
    }

    fn fraction(&self, start: usize, end: usize, c: usize) -> (r: Stepped<'a>)
        requires
            self.wf(),
            start <= end < c <= self.chars@.len(),
        ensures
            self.step_matches(r, scan_fraction(self.src@, start as int, end as int, c as int)),
    {
        proof {
            lemma_digits_end(self.src@, c as int);
        }
        let j = self.digits_end(c);
        if j < self.chars.len() && self.chars[j] == '.' {
            let next = self.skip_end(j, true);
            (None, Some((self.offs[j], "'.' is not expected here")), next)
        } else {
            let last = if j > c {
                j - 1
            } else {
                end
            };
            if start == last {
                (Some(self.make(TokenType::Dot, start, start)), None, j)
            } else {
                let text = self.substring(start, last + 1);
                (Some(self.make(TokenType::Float(text), start, last)), None, j)
            }
        }
    }

    fn number(&self, i: usize) -> (r: Stepped<'a>)
        requires
            self.wf(),
            i < self.chars@.len(),
            is_digit(self.src@[i as int]),
        ensures
            self.step_matches(r, scan_number(self.src@, i as int)),
    {
        proof {
            lemma_digits_end(self.src@, i + 1);
            lemma_digits_run(self.src@, i + 1);
        }
        let j = self.digits_end(i + 1);
        if j < self.chars.len() && self.chars[j] == '.' {
            self.fraction(i, j, j + 1)
        } else {
            match self.decimal(i, j) {
                Some(v) => (Some(self.make(TokenType::Int(v), i, j - 1)), None, j),
                None => (None, Some((self.offs[i], "Integer literal is too large")), j),
            }
        }
    }

    fn string(&self, i: usize) -> (r: Stepped<'a>)
        requires
            self.wf(),
            i < self.chars@.len(),
        ensures
            self.step_matches(r, scan_string(self.src@, i as int)),
    {
        proof {
            lemma_string_close(self.src@, i as int, i + 1);
        }
        let k = self.string_close(i);
        if k < self.chars.len() {
            let text = self.substring(i + 1, k);
            (Some(self.make(TokenType::Str(text), i, k)), None, k + 1)
        } else {
            (None, Some((self.offs[i], "String literal is not terminated")), self.chars.len())
        }
    }

    fn word(&self, i: usize) -> (r: Stepped<'a>)
        requires
            self.wf(),
            i < self.chars@.len(),
        ensures
            self.step_matches(r, scan_word(self.src@, i as int)),
    {
        proof {
            lemma_ident_end(self.src@, i + 1);
        }
        let j = self.ident_end(i + 1);
        let w = self.substring(i, j);
        let tt = match self.keyword(&w) {
            Some(k) => k,
            None => TokenType::Identifier(w),
        };
        (Some(self.make(tt, i, j - 1)), None, j)
    }

    fn step(&self, i: usize) -> (r: Stepped<'a>)
        requires
            self.wf(),
            i < self.chars@.len(),
        ensures
            self.step_matches(r, scan_step(self.src@, i as int)),
    {
        let c = self.chars[i];
        if c == '#' {
            proof {
                lemma_skip_end(self.src@, i + 1, false);
            }
            return (None, None, self.skip_end(i + 1, false));
        }
        if let Some(tt) = single(c) {
            return (Some(self.make(tt, i, i)), None, i + 1);
        }
        if let Some((alone, with_eq)) = pair(c) {
            if i + 1 < self.chars.len() && self.chars[i + 1] == '=' {
                return (Some(self.make(with_eq, i, i + 1)), None, i + 2);
            } else {
                return (Some(self.make(alone, i, i)), None, i + 1);
            }
        }
        if c == '.' {
            self.fraction(i, i, i + 1)
        } else if '0' <= c && c <= '9' {
            self.number(i)
        } else if c == '\'' || c == '"' {
            self.string(i)
        } else if ('a' <= c && c <= 'z') || ('A' <= c && c <= 'Z') || c == '_' {
            self.word(i)
        } else if c == ' ' || c == '\t' || c == '\n' || c == '\r' {
            (None, None, i + 1)
        } else {
            (None, Some((self.offs[i], "Illegal character")), i + 1)
        }
    }
    /// Scans the whole source. Succeeds exactly when no lexical error occurs, with the
    /// tokens wrapped in a synthetic `{` … `}`; otherwise renders every error, in order.
    pub fn tokenize(self) -> (r: Result<Vec<Token<'a>>, ParsingErr>)
        requires
            self.wf(),
        ensures
            match r {
                Ok(t) => {
                    &&& scan(self.source()@).1.len() == 0
                    &&& views(t@) == wrapped(self.source()@)
                    &&& t@.len() >= 2
                    &&& t@[0].tt@ is LeftBrace && t@[0].start == 0
                    &&& t@.last().tt@ is RightBrace && t@.last().start == closing_offset(self.source()@)
                    &&& forall|k: int| 0 <= k < t@.len() ==> (#[trigger] t@[k]).src == self.source()
                    &&& within_source(t@)
                },
                Err(e) => {
                    &&& scan(self.source()@).1.len() > 0
                    &&& e@ == Seq::new(
                        scan(self.source()@).1.len(),
                        |k: int| render(self.source()@, scan(self.source()@).1[k].0 as int, scan(self.source()@).1[k].1),
                    )
                },
            },
    {
        let ghost s = self.src@;
        let n = self.chars.len();
        let mut tokens: Vec<Token<'a>> = Vec::new();
        tokens.push(Token::new(self.src, 0, 0, TokenType::LeftBrace));
        let mut errors: Vec<(usize, &'static str)> = Vec::new();
        let mut i: usize = 0;
        proof {
            assert(views(tokens@) =~= seq![TokenView { kind: TokenType::LeftBrace, start: 0, end: 0 }]);
            assert(error_views(errors@) =~= Seq::<(nat, Seq<char>)>::empty());
        }
        while i < n
            invariant
                self.wf(),
                s == self.src@,
                n == s.len(),
                i <= n,
                views(tokens@) + scan_from(s, i as int).0 == seq![TokenView { kind: TokenType::LeftBrace, start: 0, end: 0 }] + scan(s).0,
                error_views(errors@) + scan_from(s, i as int).1 == scan(s).1,
                forall|k: int| 0 <= k < tokens@.len() ==> (#[trigger] tokens@[k]).src == self.src,
                within_source(tokens@),
                forall|k: int| 0 <= k < errors@.len() ==> (#[trigger] errors@[k]).0 <= encode_utf8(s).len(),
            decreases n - i,
        {
            let (tok, err, next) = self.step(i);
            proof {
                lemma_step_advances(s, i as int);
            }
            let ghost old_tokens = tokens@;
            let ghost old_errors = errors@;
            match tok {
                Some(t) => {
                    proof {
                        let first = match scan_step(s, i as int).token { Some((_k, f, _l)) => f, None => 0 };
                        lemma_offset_mono(s, first, n as int);
                        assert(s.subrange(0, n as int) =~= s);
                        assert(seq![t@][0] == token_at(s, scan_step(s, i as int).token)[0]);
                    }
                    tokens.push(t);
                },
                None => {},
            }
            match err {
                Some(e) => {
                    proof {
                        let at = match scan_step(s, i as int).error { Some((at, _m)) => at, None => 0 };
                        lemma_offset_mono(s, at, n as int);
                        assert(s.subrange(0, n as int) =~= s);
                        assert(seq![(e.0 as nat, e.1@)][0] == error_at(s, scan_step(s, i as int).error)[0]);
                    }
                    errors.push(e);
                },
                None => {},
            }
            proof {
                assert(views(tokens@) =~= views(old_tokens) + token_at(s, scan_step(s, i as int).token));
                assert(error_views(errors@) =~= error_views(old_errors) + error_at(s, scan_step(s, i as int).error));
            }
            i = next;
        }
        if errors.len() == 0 {
            let last = self.offs[n];
            let close = if last == 0 {
                0
            } else {
                last - 1
            };
            let ghost before = tokens@;
            proof {
                assert(s.subrange(0, n as int) =~= s);
            }
            tokens.push(Token::new(self.src, close, close, TokenType::RightBrace));
            proof {
                assert(scan_from(s, n as int).0 =~= Seq::<TokenView>::empty());
                assert(views(before) =~= seq![TokenView { kind: TokenType::LeftBrace, start: 0, end: 0 }] + scan(s).0);
                assert(views(tokens@) =~= wrapped(s));
                assert(views(tokens@)[0] == tokens@[0]@);
                assert(views(tokens@)[tokens@.len() - 1] == tokens@.last()@);
            }
            Ok(tokens)
        } else {
            proof {
                assert(scan_from(s, n as int).1 =~= Seq::<(nat, Seq<char>)>::empty());
                assert(error_views(errors@) =~= scan(s).1);
            }
            let e = ParsingErr::new(self.src, errors.as_slice());
            proof {
                assert(e@ =~= Seq::new(scan(s).1.len(), |k: int| render(s, scan(s).1[k].0 as int, scan(s).1[k].1)));
            }
            Err(e)
        }
    }
}

} // verus!
