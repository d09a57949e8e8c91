//! Token kinds, their infix binding powers, and tokens with their spans.
use vstd::prelude::*;

use crate::error::{decimal, push_decimal, push_str};
use crate::text::{source_chars, string_of};

verus! {

/// What a token is. `S` is the type of the text that literals and
/// identifiers carry: `String` for running code, `Seq<char>` in contracts.
#[derive(Debug)]
pub enum TokenType<S = String> {
    LeftParen,
    RightParen,
    LeftBrace,
    RightBrace,
    LeftSquare,
    RightSquare,
    Plus,
    Minus,
    Mul,
    Div,
    Modulo,
    Comma,
    SemiColon,
    Colon,
    Equal,
    EqualEqual,
    Less,
    LessEqual,
    Greater,
    GreaterEqual,
    Not,
    NotEqual,
    Dot,
    Str(S),
    Int(i64),
    /// A floating-point literal, held as its source text (digits and one `.`).
    Float(S),
    Boolean(bool),
    Identifier(S),
    Let,
    Function,
    Return,
    For,
    While,
    If,
    Else,
    Null,
    Print,
}

/// The kind of a token as contracts see it.
pub type Kind = TokenType<Seq<char>>;

impl View for TokenType<String> {
    type V = Kind;

    open spec fn view(&self) -> Kind {
        match self {
            TokenType::LeftParen => TokenType::LeftParen,
            TokenType::RightParen => TokenType::RightParen,
            TokenType::LeftBrace => TokenType::LeftBrace,
            TokenType::RightBrace => TokenType::RightBrace,
            TokenType::LeftSquare => TokenType::LeftSquare,
            TokenType::RightSquare => TokenType::RightSquare,
            TokenType::Plus => TokenType::Plus,
            TokenType::Minus => TokenType::Minus,
            TokenType::Mul => TokenType::Mul,
            TokenType::Div => TokenType::Div,
            TokenType::Modulo => TokenType::Modulo,
            TokenType::Comma => TokenType::Comma,
            TokenType::SemiColon => TokenType::SemiColon,
            TokenType::Colon => TokenType::Colon,
            TokenType::Equal => TokenType::Equal,
            TokenType::EqualEqual => TokenType::EqualEqual,
            TokenType::Less => TokenType::Less,
            TokenType::LessEqual => TokenType::LessEqual,
            TokenType::Greater => TokenType::Greater,
            TokenType::GreaterEqual => TokenType::GreaterEqual,
            TokenType::Not => TokenType::Not,
            TokenType::NotEqual => TokenType::NotEqual,
            TokenType::Dot => TokenType::Dot,
            TokenType::Str(s) => TokenType::Str(s@),
            TokenType::Int(v) => TokenType::Int(*v),
            TokenType::Float(s) => TokenType::Float(s@),
            TokenType::Boolean(b) => TokenType::Boolean(*b),
            TokenType::Identifier(s) => TokenType::Identifier(s@),
            TokenType::Let => TokenType::Let,
            TokenType::Function => TokenType::Function,
            TokenType::Return => TokenType::Return,
            TokenType::For => TokenType::For,
            TokenType::While => TokenType::While,
            TokenType::If => TokenType::If,
            TokenType::Else => TokenType::Else,
            TokenType::Null => TokenType::Null,
            TokenType::Print => TokenType::Print,
        }
    }
}

/// Binding power of a kind in infix position; 0 for a kind that is no infix operator.
pub open spec fn preced_of(k: Kind) -> int {
    match k {
        TokenType::Equal => 1,
        TokenType::EqualEqual | TokenType::Less | TokenType::LessEqual | TokenType::Greater
        | TokenType::GreaterEqual | TokenType::NotEqual => 2,
        TokenType::Plus | TokenType::Minus => 3,
        TokenType::Mul | TokenType::Div | TokenType::Modulo => 4,
        TokenType::LeftParen => 5,
        _ => 0,
    }
}

/// The reserved words, each with the kind it scans as.
pub open spec fn keyword_table() -> Seq<(Seq<char>, Kind)> {
    seq![
        (seq!['l', 'e', 't'], TokenType::Let),
        (seq!['f', 'n'], TokenType::Function),
        (seq!['r', 'e', 't', 'u', 'r', 'n'], TokenType::Return),
        (seq!['f', 'o', 'r'], TokenType::For),
        (seq!['w', 'h', 'i', 'l', 'e'], TokenType::While),
        (seq!['i', 'f'], TokenType::If),
        (seq!['e', 'l', 's', 'e'], TokenType::Else),
        (seq!['n', 'u', 'l', 'l'], TokenType::Null),
        (seq!['p', 'r', 'i', 'n', 't'], TokenType::Print),
        (seq!['t', 'r', 'u', 'e'], TokenType::Boolean(true)),
        (seq!['f', 'a', 'l', 's', 'e'], TokenType::Boolean(false)),
    ]
}

/// The kind of the first entry of `keyword_table()` from index `i` on whose word is `w`.
pub open spec fn keyword_from(w: Seq<char>, i: int) -> Option<Kind>
    decreases keyword_table().len() - i,
{
    if i < 0 || i >= keyword_table().len() {
        None
    } else if keyword_table()[i].0 == w {
        Some(keyword_table()[i].1)
    } else {
        keyword_from(w, i + 1)
    }
}

/// The kind that the word `w` scans as, if it is reserved.
pub open spec fn keyword_of(w: Seq<char>) -> Option<Kind> {
    keyword_from(w, 0)
}

impl TokenType<String> {
    /// The reserved words and their kinds, in the order of `keyword_table()`. Held as a
    /// vector searched in order rather than a map keyed by strings, on which lookups
    /// could not be proved against `keyword_of`.
    pub fn keywords() -> (r: Vec<(String, TokenType)>)
        ensures
            r@.len() == keyword_table().len(),
            forall|i: int|
                0 <= i < r@.len() ==> (#[trigger] r@[i]).0@ == keyword_table()[i].0
                    && r@[i].1@ == keyword_table()[i].1,
    {
        let mut r: Vec<(String, TokenType)> = Vec::new();
        r.push((String::from_str("let"), TokenType::Let));
        r.push((String::from_str("fn"), TokenType::Function));
        r.push((String::from_str("return"), TokenType::Return));
        r.push((String::from_str("for"), TokenType::For));
        r.push((String::from_str("while"), TokenType::While));
        r.push((String::from_str("if"), TokenType::If));
        r.push((String::from_str("else"), TokenType::Else));
        r.push((String::from_str("null"), TokenType::Null));
        r.push((String::from_str("print"), TokenType::Print));
        r.push((String::from_str("true"), TokenType::Boolean(true)));
        r.push((String::from_str("false"), TokenType::Boolean(false)));
        proof {
            reveal_strlit("let");
            reveal_strlit("fn");
            reveal_strlit("return");
            reveal_strlit("for");
            reveal_strlit("while");
            reveal_strlit("if");
            reveal_strlit("else");
            reveal_strlit("null");
            reveal_strlit("print");
            reveal_strlit("true");
            reveal_strlit("false");
            assert forall|i: int| 0 <= i < r@.len() implies (#[trigger] r@[i]).0@
                == keyword_table()[i].0 && r@[i].1@ == keyword_table()[i].1 by {
                if i == 0 {
                    assert(r@[0].0@ =~= keyword_table()[0].0);
                } else if i == 1 {
                    assert(r@[1].0@ =~= keyword_table()[1].0);
                } else if i == 2 {
                    assert(r@[2].0@ =~= keyword_table()[2].0);
                } else if i == 3 {
                    assert(r@[3].0@ =~= keyword_table()[3].0);
                } else if i == 4 {
                    assert(r@[4].0@ =~= keyword_table()[4].0);
                } else if i == 5 {
                    assert(r@[5].0@ =~= keyword_table()[5].0);
                } else if i == 6 {
                    assert(r@[6].0@ =~= keyword_table()[6].0);
                } else if i == 7 {
                    assert(r@[7].0@ =~= keyword_table()[7].0);
                } else if i == 8 {
                    assert(r@[8].0@ =~= keyword_table()[8].0);
                } else if i == 9 {
                    assert(r@[9].0@ =~= keyword_table()[9].0);
                } else {
                    assert(r@[10].0@ =~= keyword_table()[10].0);
                }
            }
        }
        r
    }

    /// A copy of this kind, text included.
    pub fn copied(&self) -> (r: TokenType)
        ensures
            r@ == self@,
    {
        match self {
            TokenType::LeftParen => TokenType::LeftParen,
            TokenType::RightParen => TokenType::RightParen,
            TokenType::LeftBrace => TokenType::LeftBrace,
            TokenType::RightBrace => TokenType::RightBrace,
            TokenType::LeftSquare => TokenType::LeftSquare,
            TokenType::RightSquare => TokenType::RightSquare,
            TokenType::Plus => TokenType::Plus,
            TokenType::Minus => TokenType::Minus,
            TokenType::Mul => TokenType::Mul,
            TokenType::Div => TokenType::Div,
            TokenType::Modulo => TokenType::Modulo,
            TokenType::Comma => TokenType::Comma,
            TokenType::SemiColon => TokenType::SemiColon,
            TokenType::Colon => TokenType::Colon,
            TokenType::Equal => TokenType::Equal,
            TokenType::EqualEqual => TokenType::EqualEqual,
            TokenType::Less => TokenType::Less,
            TokenType::LessEqual => TokenType::LessEqual,
            TokenType::Greater => TokenType::Greater,
            TokenType::GreaterEqual => TokenType::GreaterEqual,
            TokenType::Not => TokenType::Not,
            TokenType::NotEqual => TokenType::NotEqual,
            TokenType::Dot => TokenType::Dot,
            TokenType::Let => TokenType::Let,
            TokenType::Function => TokenType::Function,
            TokenType::Return => TokenType::Return,
            TokenType::For => TokenType::For,
            TokenType::While => TokenType::While,
            TokenType::If => TokenType::If,
            TokenType::Else => TokenType::Else,
            TokenType::Null => TokenType::Null,
            TokenType::Print => TokenType::Print,
            TokenType::Str(s) => TokenType::Str(s.clone()),
            TokenType::Int(v) => TokenType::Int(*v),
            TokenType::Float(s) => TokenType::Float(s.clone()),
            TokenType::Boolean(b) => TokenType::Boolean(*b),
            TokenType::Identifier(s) => TokenType::Identifier(s.clone()),
        }
    }

    /// Binding power of this kind in infix position.
    pub fn infix_preced(&self) -> (r: i32)
        ensures
            r == preced_of(self@),
    {
        match self {
            TokenType::Equal => 1,
            TokenType::EqualEqual | TokenType::Less | TokenType::LessEqual | TokenType::Greater
            | TokenType::GreaterEqual | TokenType::NotEqual => 2,
            TokenType::Plus | TokenType::Minus => 3,
            TokenType::Mul | TokenType::Div | TokenType::Modulo => 4,
            TokenType::LeftParen => 5,
            _ => 0,
        }
    }
}

/// Name of a kind, as diagnostics show it.
pub open spec fn kind_name(k: Kind) -> Seq<char> {
    match k {
        TokenType::LeftParen => seq!['L', 'e', 'f', 't', 'P', 'a', 'r', 'e', 'n'],
        TokenType::RightParen => seq!['R', 'i', 'g', 'h', 't', 'P', 'a', 'r', 'e', 'n'],
        TokenType::LeftBrace => seq!['L', 'e', 'f', 't', 'B', 'r', 'a', 'c', 'e'],
        TokenType::RightBrace => seq!['R', 'i', 'g', 'h', 't', 'B', 'r', 'a', 'c', 'e'],
        TokenType::LeftSquare => seq!['L', 'e', 'f', 't', 'S', 'q', 'u', 'a', 'r', 'e'],
        TokenType::RightSquare => seq!['R', 'i', 'g', 'h', 't', 'S', 'q', 'u', 'a', 'r', 'e'],
        TokenType::Plus => seq!['P', 'l', 'u', 's'],
        TokenType::Minus => seq!['M', 'i', 'n', 'u', 's'],
        TokenType::Mul => seq!['M', 'u', 'l'],
        TokenType::Div => seq!['D', 'i', 'v'],
        TokenType::Modulo => seq!['M', 'o', 'd', 'u', 'l', 'o'],
        TokenType::Comma => seq!['C', 'o', 'm', 'm', 'a'],
        TokenType::SemiColon => seq!['S', 'e', 'm', 'i', 'C', 'o', 'l', 'o', 'n'],
        TokenType::Colon => seq!['C', 'o', 'l', 'o', 'n'],
        TokenType::Equal => seq!['E', 'q', 'u', 'a', 'l'],
        TokenType::EqualEqual => seq!['E', 'q', 'u', 'a', 'l', 'E', 'q', 'u', 'a', 'l'],
        TokenType::Less => seq!['L', 'e', 's', 's'],
        TokenType::LessEqual => seq!['L', 'e', 's', 's', 'E', 'q', 'u', 'a', 'l'],
        TokenType::Greater => seq!['G', 'r', 'e', 'a', 't', 'e', 'r'],
        TokenType::GreaterEqual => seq!['G', 'r', 'e', 'a', 't', 'e', 'r', 'E', 'q', 'u', 'a', 'l'],
        TokenType::Not => seq!['N', 'o', 't'],
        TokenType::NotEqual => seq!['N', 'o', 't', 'E', 'q', 'u', 'a', 'l'],
        TokenType::Dot => seq!['D', 'o', 't'],
        TokenType::Let => seq!['L', 'e', 't'],
        TokenType::Function => seq!['F', 'u', 'n', 'c', 't', 'i', 'o', 'n'],
        TokenType::Return => seq!['R', 'e', 't', 'u', 'r', 'n'],
        TokenType::For => seq!['F', 'o', 'r'],
        TokenType::While => seq!['W', 'h', 'i', 'l', 'e'],
        TokenType::If => seq!['I', 'f'],
        TokenType::Else => seq!['E', 'l', 's', 'e'],
        TokenType::Null => seq!['N', 'u', 'l', 'l'],
        TokenType::Print => seq!['P', 'r', 'i', 'n', 't'],
        TokenType::Str(_) => seq!['S', 't', 'r'],
        TokenType::Int(_) => seq!['I', 'n', 't'],
        TokenType::Float(_) => seq!['F', 'l', 'o', 'a', 't'],
        TokenType::Boolean(_) => seq!['B', 'o', 'o', 'l', 'e', 'a', 'n'],
        TokenType::Identifier(_) => seq!['I', 'd', 'e', 'n', 't', 'i', 'f', 'i', 'e', 'r'],
    }
}

/// Lower-case hexadecimal digits of `n`, without leading zeros.
pub open spec fn hex(n: nat) -> Seq<char>
    decreases n,
{
    if n < 16 {
        seq![hex_digit(n)]
    } else {
        hex(n / 16).push(hex_digit(n % 16))
    }
}

pub open spec fn hex_digit(d: nat) -> char {
    if d < 10 {
        ((d + 48) as u8) as char
    } else {
        ((d + 87) as u8) as char
    }
}

/// How `Debug` writes `c` inside a quoted string: quotes, backslashes and ASCII
/// control characters are escaped. Rust also escapes some non-ASCII characters
/// (unprintable ones and grapheme extenders); those are kept as they are here.
pub open spec fn escape_char(c: char) -> Seq<char> {
    if c == '"' {
        seq!['\\', '"']
    } else if c == '\\' {
        seq!['\\', '\\']
    } else if c == '\n' {
        seq!['\\', 'n']
    } else if c == '\r' {
        seq!['\\', 'r']
    } else if c == '\t' {
        seq!['\\', 't']
    } else if c == '\0' {
        seq!['\\', '0']
    } else if (c as u32) < 32 || (c as u32) == 127 {
        seq!['\\', 'u', '{'] + hex(c as u32 as nat) + seq!['}']
    } else {
        seq![c]
    }
}

pub open spec fn escaped(s: Seq<char>) -> Seq<char>
    decreases s.len(),
{
    if s.len() == 0 {
        seq![]
    } else {
        escaped(s.drop_last()) + escape_char(s.last())
    }
}

/// `s` as `Debug` writes a string: quoted and escaped.
pub open spec fn quoted(s: Seq<char>) -> Seq<char> {
    seq!['"'] + escaped(s) + seq!['"']
}

pub open spec fn signed_decimal(v: i64) -> Seq<char> {
    if v < 0 {
        seq!['-'] + decimal((-v) as nat)
    } else {
        decimal(v as nat)
    }
}

/// A kind as `Debug` writes it: its name, with its payload in parentheses. A float
/// literal is held as its source text, so its payload is that text, where `Debug` of
/// an `f64` would write the number (`1.` as `1.0`, `.5` as `0.5`).
pub open spec fn kind_debug(k: Kind) -> Seq<char> {
    match k {
        TokenType::Str(s) => "Str("@ + quoted(s) + seq![')'],
        TokenType::Int(v) => "Int("@ + signed_decimal(v) + seq![')'],
        TokenType::Float(s) => "Float("@ + s + seq![')'],
        TokenType::Boolean(b) => if b {
            "Boolean(true)"@
        } else {
            "Boolean(false)"@
        },
        TokenType::Identifier(s) => "Identifier("@ + quoted(s) + seq![')'],
        _ => kind_name(k),
    }
}

fn push_hex(out: &mut Vec<char>, n: u32)
    ensures
        final(out)@ == old(out)@ + hex(n as nat),
    decreases n,
{
    if n >= 16 {
        push_hex(out, n / 16);
    }
    let d = (n % 16) as u8;
    let c = if d < 10 {
        (d + 48) as char
    } else {
        (d + 87) as char
    };
    out.push(c);
    assert(out@ =~= old(out)@ + hex(n as nat));
}

fn push_quoted(out: &mut Vec<char>, s: &str)
    ensures
        final(out)@ == old(out)@ + quoted(s@),
{
    let (cs, _) = source_chars(s);
    out.push('"');
    let ghost start = out@;
    let mut i: usize = 0;
    assert(s@.subrange(0, 0) =~= Seq::<char>::empty());
    assert(start =~= start + escaped(s@.subrange(0, 0)));
    while i < cs.len()
        invariant
            cs@ == s@,
            i <= cs@.len(),
            out@ == start + escaped(s@.subrange(0, i as int)),
        decreases cs@.len() - i,
    {
        let c = cs[i];
        let ghost before = out@;
        broadcast use vstd::utf8::char_is_scalar;
        let u = c as u32;
        if c == '"' {
            out.push('\\');
            out.push('"');
        } else if c == '\\' {
            out.push('\\');
            out.push('\\');
        } else if c == '\n' {
            out.push('\\');
            out.push('n');
        } else if c == '\r' {
            out.push('\\');
            out.push('r');
        } else if c == '\t' {
            out.push('\\');
            out.push('t');
        } else if c == '\0' {
            out.push('\\');
            out.push('0');
        } else if u < 32 || u == 127 {
            out.push('\\');
            out.push('u');
            out.push('{');
            push_hex(out, u);
            out.push('}');
        } else {
            out.push(c);
        }
        assert(out@ =~= before + escape_char(c));
        assert(s@.subrange(0, i + 1).drop_last() =~= s@.subrange(0, i as int));
        i = i + 1;
        assert(out@ =~= start + escaped(s@.subrange(0, i as int)));
    }
    assert(s@.subrange(0, s@.len() as int) =~= s@);
    out.push('"');
    assert(out@ =~= old(out)@ + quoted(s@));
}

impl TokenType<String> {
    /// This kind as `Debug` writes it.
    pub fn debug_text(&self) -> (r: String)
        ensures
            r@ == kind_debug(self@),
    {
        let mut out: Vec<char> = Vec::new();
        match self {
            TokenType::Str(s) => {
                push_str(&mut out, "Str(");
                push_quoted(&mut out, s.as_str());
                out.push(')');
            },
            TokenType::Int(v) => {
                push_str(&mut out, "Int(");
                if *v < 0 {
                    out.push('-');
                    let m: u64 = (-(*v + 1)) as u64 + 1;
                    push_decimal(&mut out, m);
                } else {
                    push_decimal(&mut out, *v as u64);
                }
                out.push(')');
            },
            TokenType::Float(s) => {
                push_str(&mut out, "Float(");
                push_str(&mut out, s.as_str());
                out.push(')');
            },
            TokenType::Boolean(b) => {
                if *b {
                    push_str(&mut out, "Boolean(true)");
                } else {
                    push_str(&mut out, "Boolean(false)");
                }
            },
            TokenType::Identifier(s) => {
                push_str(&mut out, "Identifier(");
                push_quoted(&mut out, s.as_str());
                out.push(')');
            },
            _ => {
                push_str(&mut out, self.name());
            },
        }
        proof {
            assert(out@ =~= kind_debug(self@));
        }
        string_of(out.as_slice())
    }

    /// Name of this kind, as diagnostics show it.
    pub fn name(&self) -> (r: &'static str)
        ensures
            r@ == kind_name(self@),
    {
        proof {
            reveal_strlit("LeftParen");
            reveal_strlit("RightParen");
            reveal_strlit("LeftBrace");
            reveal_strlit("RightBrace");
            reveal_strlit("LeftSquare");
            reveal_strlit("RightSquare");
            reveal_strlit("Plus");
            reveal_strlit("Minus");
            reveal_strlit("Mul");
            reveal_strlit("Div");
            reveal_strlit("Modulo");
            reveal_strlit("Comma");
            reveal_strlit("SemiColon");
            reveal_strlit("Colon");
            reveal_strlit("Equal");
            reveal_strlit("EqualEqual");
            reveal_strlit("Less");
            reveal_strlit("LessEqual");
            reveal_strlit("Greater");
            reveal_strlit("GreaterEqual");
            reveal_strlit("Not");
            reveal_strlit("NotEqual");
            reveal_strlit("Dot");
            reveal_strlit("Let");
            reveal_strlit("Function");
            reveal_strlit("Return");
            reveal_strlit("For");
            reveal_strlit("While");
            reveal_strlit("If");
            reveal_strlit("Else");
            reveal_strlit("Null");
            reveal_strlit("Print");
            reveal_strlit("Str");
            reveal_strlit("Int");
            reveal_strlit("Float");
            reveal_strlit("Boolean");
            reveal_strlit("Identifier");
        }
        match self {
            TokenType::LeftParen => "LeftParen",
            TokenType::RightParen => "RightParen",
            TokenType::LeftBrace => "LeftBrace",
            TokenType::RightBrace => "RightBrace",
            TokenType::LeftSquare => "LeftSquare",
            TokenType::RightSquare => "RightSquare",
            TokenType::Plus => "Plus",
            TokenType::Minus => "Minus",
            TokenType::Mul => "Mul",
            TokenType::Div => "Div",
            TokenType::Modulo => "Modulo",
            TokenType::Comma => "Comma",
            TokenType::SemiColon => "SemiColon",
            TokenType::Colon => "Colon",
            TokenType::Equal => "Equal",
            TokenType::EqualEqual => "EqualEqual",
            TokenType::Less => "Less",
            TokenType::LessEqual => "LessEqual",
            TokenType::Greater => "Greater",
            TokenType::GreaterEqual => "GreaterEqual",
            TokenType::Not => "Not",
            TokenType::NotEqual => "NotEqual",
            TokenType::Dot => "Dot",
            TokenType::Let => "Let",
            TokenType::Function => "Function",
            TokenType::Return => "Return",
            TokenType::For => "For",
            TokenType::While => "While",
            TokenType::If => "If",
            TokenType::Else => "Else",
            TokenType::Null => "Null",
            TokenType::Print => "Print",
            TokenType::Str(_) => "Str",
            TokenType::Int(_) => "Int",
            TokenType::Float(_) => "Float",
            TokenType::Boolean(_) => "Boolean",
            TokenType::Identifier(_) => "Identifier",
        }
    }

    /// Whether two kinds are equal, text and values included.
    pub fn same(&self, other: &TokenType) -> (r: bool)
        ensures
            r == (self@ == other@),
    {
        match (self, other) {
            (TokenType::LeftParen, TokenType::LeftParen) => true,
            (TokenType::RightParen, TokenType::RightParen) => true,
            (TokenType::LeftBrace, TokenType::LeftBrace) => true,
            (TokenType::RightBrace, TokenType::RightBrace) => true,
            (TokenType::LeftSquare, TokenType::LeftSquare) => true,
            (TokenType::RightSquare, TokenType::RightSquare) => true,
            (TokenType::Plus, TokenType::Plus) => true,
            (TokenType::Minus, TokenType::Minus) => true,
            (TokenType::Mul, TokenType::Mul) => true,
            (TokenType::Div, TokenType::Div) => true,
            (TokenType::Modulo, TokenType::Modulo) => true,
            (TokenType::Comma, TokenType::Comma) => true,
            (TokenType::SemiColon, TokenType::SemiColon) => true,
            (TokenType::Colon, TokenType::Colon) => true,
            (TokenType::Equal, TokenType::Equal) => true,
            (TokenType::EqualEqual, TokenType::EqualEqual) => true,
            (TokenType::Less, TokenType::Less) => true,
            (TokenType::LessEqual, TokenType::LessEqual) => true,
            (TokenType::Greater, TokenType::Greater) => true,
            (TokenType::GreaterEqual, TokenType::GreaterEqual) => true,
            (TokenType::Not, TokenType::Not) => true,
            (TokenType::NotEqual, TokenType::NotEqual) => true,
            (TokenType::Dot, TokenType::Dot) => true,
            (TokenType::Let, TokenType::Let) => true,
            (TokenType::Function, TokenType::Function) => true,
            (TokenType::Return, TokenType::Return) => true,
            (TokenType::For, TokenType::For) => true,
            (TokenType::While, TokenType::While) => true,
            (TokenType::If, TokenType::If) => true,
            (TokenType::Else, TokenType::Else) => true,
            (TokenType::Null, TokenType::Null) => true,
            (TokenType::Print, TokenType::Print) => true,
            (TokenType::Str(a), TokenType::Str(b)) => *a == *b,
            (TokenType::Int(a), TokenType::Int(b)) => *a == *b,
            (TokenType::Float(a), TokenType::Float(b)) => *a == *b,
            (TokenType::Boolean(a), TokenType::Boolean(b)) => *a == *b,
            (TokenType::Identifier(a), TokenType::Identifier(b)) => *a == *b,
            _ => false,
        }
    }
}

/// A token as contracts see it: its kind and the byte offsets of its first
/// and of its last character.
pub struct TokenView {
    pub kind: Kind,
    pub start: nat,
    pub end: nat,
}

/// A token: its kind and its span in the source it was scanned from.
#[derive(Debug)]
pub struct Token<'a> {
    pub src: &'a str,
    pub tt: TokenType,
    pub start: usize,
    pub end: usize,
}

impl<'a> View for Token<'a> {
    type V = TokenView;

    open spec fn view(&self) -> TokenView {
        TokenView { kind: self.tt@, start: self.start as nat, end: self.end as nat }
    }
}

impl<'a> Token<'a> {
    /// A token of kind `tt` from byte `start` to byte `end` of `src`, both included.
    pub fn new(src: &'a str, start: usize, end: usize, tt: TokenType) -> (r: Self)
        ensures
            r.src == src,
            r.tt == tt,
            r.start == start,
            r.end == end,
    {
        Token { src, tt, start, end }
    }

    /// A copy of this token.
    pub fn copy(&self) -> (r: Self)
        ensures
            r.src == self.src,
            r@ == self@,
    {
        Token { src: self.src, tt: self.tt.copied(), start: self.start, end: self.end }
    }

    pub fn src(&self) -> (r: &'a str)
        ensures
            r == self.src,
    {
        self.src
    }

    pub fn start(&self) -> (r: usize)
        ensures
            r == self.start,
    {
        self.start
    }

    pub fn token_type(&self) -> (r: &TokenType)
        ensures
            r == &self.tt,
    {
        &self.tt
    }
}

} // verus!
