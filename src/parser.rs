//! Precedence climbing over a token sequence, with the prefix and infix rules of the grammar.
use vstd::prelude::*;
use vstd::utf8::*;

use crate::error::{render, ParsingErr};
use crate::expr::{exprs_view, BinaryOp, Expr, Lit, SExpr};
use crate::lex::{
    emit, ident_end, is_ident_char, is_ident_start, scan, scan_from, scan_step, views, wrapped,
};
use crate::token::keyword_of;
use crate::token::{kind_debug, preced_of, Kind, Token, TokenType, TokenView};

verus! {

/// What parsing yields: an expression, if the tokens ran out before one started, none;
/// and the position of the next unread token. Or, for a syntax error, the position of
/// the token it points at and its message.
pub type Parsed = Result<(Option<SExpr>, int), (int, Seq<char>)>;

/// What a rule that always builds an expression yields, as for `Parsed`.
pub type Built = Result<(SExpr, int), (int, Seq<char>)>;

/// Parses from position `p` with minimum binding power `prec`: one prefix rule, then
/// infix rules while the next token binds more tightly than `prec`.
///
/// Each rule consumes at least one token, so the guards on positions below always hold.
pub open spec fn parse_prec(t: Seq<TokenView>, p: int, prec: int) -> Parsed
    decreases t.len() - p, 3int,
{
    if p < 0 || p >= t.len() {
        Ok((None, p))
    } else {
        match prefix(t, p) {
            Err(e) => Err(e),
            Ok((left, q)) => if p < q <= t.len() {
                infix_loop(t, left, q, prec)
            } else {
                Ok((Some(left), q))
            },
        }
    }
}

/// The infix loop of `parse_prec`, with `left` parsed and `q` the next position.
pub open spec fn infix_loop(t: Seq<TokenView>, left: SExpr, q: int, prec: int) -> Parsed
    decreases t.len() - q, 2int,
{
    if 0 <= q < t.len() && prec < preced_of(t[q].kind) {
        match infix(t, left, q) {
            Err(e) => Err(e),
            Ok((e, q2)) => if q < q2 <= t.len() {
                infix_loop(t, e, q2, prec)
            } else {
                Ok((Some(e), q2))
            },
        }
    } else {
        Ok((Some(left), q))
    }
}

/// Whether a kind starts an expression: a literal, an identifier, `let`, `(` or `{`.
pub open spec fn has_prefix_rule(k: Kind) -> bool {
    k is Str || k is Int || k is Float || k is Boolean || k is Identifier || k is Let
        || k is LeftParen || k is LeftBrace
}

pub open spec fn unexpected(what: Seq<char>, k: Kind) -> Seq<char> {
    what + kind_debug(k) + seq!['`']
}

/// The prefix rule for the token at position `i`; parsing goes on at `i + 1`.
pub open spec fn prefix(t: Seq<TokenView>, i: int) -> Built
    decreases t.len() - i - 1, 5int,
{
    let at = t[i].start;
    match t[i].kind {
        TokenType::Str(s) => Ok((SExpr::Literal(Lit::Str(s), at), i + 1)),
        TokenType::Int(v) => Ok((SExpr::Literal(Lit::Int(v), at), i + 1)),
        TokenType::Float(s) => Ok((SExpr::Literal(Lit::FLoat(s), at), i + 1)),
        TokenType::Boolean(b) => Ok((SExpr::Literal(Lit::Boolean(b), at), i + 1)),
        TokenType::Identifier(w) => Ok((SExpr::Identifier(w, at), i + 1)),
        TokenType::Let => if i + 1 <= t.len() {
            match parse_prec(t, i + 1, 0) {
                Err(e) => Err(e),
                Ok((None, _q)) => Err((i, "Couldn't parse variable name of let"@)),
                Ok((Some(e), q)) => match e {
                    SExpr::Binary { op, .. } => if op == BinaryOp::Equal {
                        Ok((SExpr::Let(Box::new(e), at), q))
                    } else {
                        Err((i, "expression should be assigned with '=' operator"@))
                    },
                    _ => Err((i, "Failed to parse let expression"@)),
                },
            }
        } else {
            Err((i, "Couldn't parse variable name of let"@))
        },
        TokenType::LeftParen => if i + 1 <= t.len() {
            match parse_prec(t, i + 1, 0) {
                Err(e) => Err(e),
                Ok((None, _q)) => Err((i, "Couldn't parse nested expression"@)),
                Ok((Some(e), q)) => if 0 <= q < t.len() && t[q].kind is RightParen {
                    Ok((SExpr::Group(Box::new(e), at), q + 1))
                } else {
                    Err((i, "No closing parenthesis found"@))
                },
            }
        } else {
            Err((i, "Couldn't parse nested expression"@))
        },
        TokenType::LeftBrace => if i + 1 <= t.len() {
            block_loop(t, seq![], i + 1, i)
        } else {
            Ok((SExpr::Block(seq![], at), i + 1))
        },
        _ => Err((i, unexpected("Unexpected prefix token type `"@, t[i].kind))),
    }
}

/// The block opened at position `open`: `done` holds its expressions so far, and
/// parsing goes on at `p`. Each expression is followed by `}`, which closes the block,
/// or by `;`, which may itself be followed by the closing `}`.
pub open spec fn block_loop(t: Seq<TokenView>, done: Seq<SExpr>, p: int, open: int) -> Built
    decreases t.len() - p, 4int,
{
    let at = t[open].start;
    match parse_prec(t, p, 0) {
        Err(e) => Err(e),
        Ok((None, q)) => Ok((SExpr::Block(done, at), q)),
        Ok((Some(e), q)) => if 0 <= q < t.len() && t[q].kind is RightBrace {
            Ok((SExpr::Block(done.push(e), at), q + 1))
        } else if 0 <= q < t.len() && t[q].kind is SemiColon && p <= q {
            if q + 1 < t.len() && t[q + 1].kind is RightBrace {
                Ok((SExpr::Block(done.push(e), at), q + 2))
            } else {
                block_loop(t, done.push(e), q + 1, open)
            }
        } else {
            Err((open, "Statement didn't close with a ';'"@))
        },
    }
}

/// The infix rule for the token at position `q`, with `left` parsed before it.
pub open spec fn infix(t: Seq<TokenView>, left: SExpr, q: int) -> Built
    decreases t.len() - q - 1, 5int,
{
    match t[q].kind {
        TokenType::Equal => match left {
            SExpr::Identifier(_, _) => match binary(t, left, q, BinaryOp::Equal) {
                Err(e) => Err(e),
                Ok((e, q2)) => if 0 <= q2 < t.len() && t[q2].kind is SemiColon {
                    Ok((e, q2))
                } else {
                    Err((q, "Statement not terminated properly"@))
                },
            },
            _ => Err((q, "Expression can only be assigned to a variable"@)),
        },
        TokenType::Plus => binary(t, left, q, BinaryOp::Add),
        TokenType::Minus => binary(t, left, q, BinaryOp::Sub),
        TokenType::Mul => binary(t, left, q, BinaryOp::Mul),
        TokenType::Div => binary(t, left, q, BinaryOp::Div),
        TokenType::Modulo => binary(t, left, q, BinaryOp::Modulo),
        TokenType::EqualEqual => binary(t, left, q, BinaryOp::EqualEqual),
        TokenType::Less => binary(t, left, q, BinaryOp::Less),
        TokenType::LessEqual => binary(t, left, q, BinaryOp::LessEqual),
        TokenType::Greater => binary(t, left, q, BinaryOp::Greater),
        TokenType::GreaterEqual => binary(t, left, q, BinaryOp::GreaterEqual),
        TokenType::NotEqual => binary(t, left, q, BinaryOp::NotEqual),
        _ => Err((q, unexpected("Unexpected infix token type `"@, t[q].kind))),
    }
}

/// A binary node for the operator at position `q`: its right operand is parsed with the
/// operator's own binding power, which makes operators of one level group to the left.
pub open spec fn binary(t: Seq<TokenView>, left: SExpr, q: int, op: BinaryOp) -> Built
    decreases t.len() - q - 1, 4int,
{
    if q + 1 <= t.len() {
        match parse_prec(t, q + 1, preced_of(t[q].kind)) {
            Err(e) => Err(e),
            Ok((None, _q2)) => Err((q, "Failed to parse right expression"@)),
            Ok((Some(r), q2)) => Ok(
                (SExpr::Binary { left: Box::new(left), op, right: Box::new(r), start: t[q].start }, q2),
            ),
        }
    } else {
        Err((q, "Failed to parse right expression"@))
    }
}

/// Parsing a whole token sequence from its start.
pub open spec fn parse_all(t: Seq<TokenView>) -> Parsed {
    parse_prec(t, 0, 0)
}

/// The binary operator that an infix token kind stands for.
pub open spec fn op_of(k: Kind) -> Option<BinaryOp> {
    match k {
        TokenType::Plus => Some(BinaryOp::Add),
        TokenType::Minus => Some(BinaryOp::Sub),
        TokenType::Mul => Some(BinaryOp::Mul),
        TokenType::Div => Some(BinaryOp::Div),
        TokenType::Modulo => Some(BinaryOp::Modulo),
        TokenType::Equal => Some(BinaryOp::Equal),
        TokenType::EqualEqual => Some(BinaryOp::EqualEqual),
        TokenType::Less => Some(BinaryOp::Less),
        TokenType::LessEqual => Some(BinaryOp::LessEqual),
        TokenType::Greater => Some(BinaryOp::Greater),
        TokenType::GreaterEqual => Some(BinaryOp::GreaterEqual),
        TokenType::NotEqual => Some(BinaryOp::NotEqual),
        _ => None,
    }
}

/// The tokens `{ a op b ; }`, with `a` and `b` identifiers and `op` any binary
/// operator, parse to a block of one binary node whose operands are the two identifiers
/// and whose operator is `op`; all tokens are read.
pub proof fn lemma_ident_op_ident(t: Seq<TokenView>, a: Seq<char>, b: Seq<char>)
    requires
        t.len() == 6,
        t[0].kind is LeftBrace,
        t[1].kind == TokenType::Identifier::<Seq<char>>(a),
        op_of(t[2].kind) is Some,
        t[3].kind == TokenType::Identifier::<Seq<char>>(b),
        t[4].kind is SemiColon,
        t[5].kind is RightBrace,
    ensures
        parse_all(t) == Ok::<(Option<SExpr>, int), (int, Seq<char>)>((
            Some(SExpr::Block(
                seq![SExpr::Binary {
                    left: Box::new(SExpr::Identifier(a, t[1].start)),
                    op: op_of(t[2].kind)->0,
                    right: Box::new(SExpr::Identifier(b, t[3].start)),
                    start: t[2].start,
                }],
                t[0].start,
            )),
            6,
        )),
{
    let op = op_of(t[2].kind)->0;
    let x = SExpr::Identifier(a, t[1].start);
    let y = SExpr::Identifier(b, t[3].start);
    let e = SExpr::Binary { left: Box::new(x), op, right: Box::new(y), start: t[2].start };
    let p = preced_of(t[2].kind);
    assert(p > 0);
    assert(prefix(t, 3) == Ok::<(SExpr, int), (int, Seq<char>)>((y, 4)));
    assert(infix_loop(t, y, 4, p) == Ok::<(Option<SExpr>, int), (int, Seq<char>)>((Some(y), 4)));
    assert(parse_prec(t, 3, p) == Ok::<(Option<SExpr>, int), (int, Seq<char>)>((Some(y), 4)));
    assert(binary(t, x, 2, op) == Ok::<(SExpr, int), (int, Seq<char>)>((e, 4)));
    assert(infix(t, x, 2) == Ok::<(SExpr, int), (int, Seq<char>)>((e, 4)));
    assert(infix_loop(t, e, 4, 0) == Ok::<(Option<SExpr>, int), (int, Seq<char>)>((Some(e), 4)));
    assert(infix_loop(t, x, 2, 0) == Ok::<(Option<SExpr>, int), (int, Seq<char>)>((Some(e), 4)));
    assert(prefix(t, 1) == Ok::<(SExpr, int), (int, Seq<char>)>((x, 2)));
    assert(parse_prec(t, 1, 0) == Ok::<(Option<SExpr>, int), (int, Seq<char>)>((Some(e), 4)));
    assert(Seq::<SExpr>::empty().push(e) =~= seq![e]);
    assert(block_loop(t, seq![], 1, 0) == Ok::<(SExpr, int), (int, Seq<char>)>((SExpr::Block(seq![e], t[0].start), 6)));
    assert(prefix(t, 0) == Ok::<(SExpr, int), (int, Seq<char>)>((SExpr::Block(seq![e], t[0].start), 6)));
    assert(infix_loop(t, SExpr::Block(seq![e], t[0].start), 6, 0) == Ok::<(Option<SExpr>, int), (int, Seq<char>)>((Some(SExpr::Block(seq![e], t[0].start)), 6)));
}

/// How a binary operator kind is spelt in source text.
pub open spec fn op_spelling(k: Kind) -> Seq<char> {
    match k {
        TokenType::Plus => seq!['+'],
        TokenType::Minus => seq!['-'],
        TokenType::Mul => seq!['*'],
        TokenType::Div => seq!['/'],
        TokenType::Modulo => seq!['%'],
        TokenType::Equal => seq!['='],
        TokenType::EqualEqual => seq!['=', '='],
        TokenType::Less => seq!['<'],
        TokenType::LessEqual => seq!['<', '='],
        TokenType::Greater => seq!['>'],
        TokenType::GreaterEqual => seq!['>', '='],
        TokenType::NotEqual => seq!['!', '='],
        _ => seq![],
    }
}

/// An identifier that is no reserved word.
pub open spec fn is_name(w: Seq<char>) -> bool {
    &&& w.len() > 0
    &&& is_ident_start(w[0])
    &&& forall|i: int| 0 <= i < w.len() ==> is_ident_char(#[trigger] w[i])
    &&& keyword_of(w) is None
}

proof fn lemma_ident_end_at(s: Seq<char>, k: int, e: int)
    requires
        0 <= k <= e < s.len(),
        forall|i: int| k <= i < e ==> is_ident_char(#[trigger] s[i]),
        !is_ident_char(s[e]),
    ensures
        ident_end(s, k) == e,
    decreases e - k,
{
    if k < e {
        lemma_ident_end_at(s, k + 1, e);
    }
}

proof fn lemma_name_step(s: Seq<char>, i: int, w: Seq<char>)
    requires
        is_name(w),
        0 <= i,
        i + w.len() < s.len(),
        s.subrange(i, i + w.len()) == w,
        !is_ident_char(s[i + w.len()]),
    ensures
        scan_step(s, i) == emit(TokenType::Identifier(w), i, i + w.len() - 1, i + w.len()),
{
    assert(s[i] == w[0]);
    assert forall|j: int| i + 1 <= j < i + w.len() implies is_ident_char(#[trigger] s[j]) by {
        assert(s[j] == w[j - i]);
    }
    lemma_ident_end_at(s, i + 1, i + w.len());
}

proof fn lemma_op_step(s: Seq<char>, i: int, k: Kind)
    requires
        op_of(k) is Some,
        0 <= i,
        i + op_spelling(k).len() < s.len(),
        s.subrange(i, i + op_spelling(k).len()) == op_spelling(k),
        s[i + op_spelling(k).len()] == ' ',
    ensures
        scan_step(s, i) == emit(k, i, i + op_spelling(k).len() - 1, i + op_spelling(k).len()),
{
    let o = op_spelling(k);
    assert(s[i] == o[0]);
    if o.len() == 2 {
        assert(s[i + 1] == o[1]);
    }
}

/// The source `x op y;`, with `x` and `y` identifiers that are no reserved words and
/// `op` any binary operator, scans without error and parses to a block of one binary
/// node whose operands are the two identifiers and whose operator is `op`.
pub proof fn lemma_source_ident_op_ident(x: Seq<char>, y: Seq<char>, k: Kind)
    requires
        is_name(x),
        is_name(y),
        op_of(k) is Some,
    ensures
        ({
            let s = x + seq![' '] + op_spelling(k) + seq![' '] + y + seq![';'];
            let t = wrapped(s);
            &&& scan(s).1.len() == 0
            &&& parse_all(t) == Ok::<(Option<SExpr>, int), (int, Seq<char>)>((
                Some(SExpr::Block(
                    seq![SExpr::Binary {
                        left: Box::new(SExpr::Identifier(x, t[1].start)),
                        op: op_of(k)->0,
                        right: Box::new(SExpr::Identifier(y, t[3].start)),
                        start: t[2].start,
                    }],
                    t[0].start,
                )),
                6,
            ))
        }),
{
    let o = op_spelling(k);
    let s = x + seq![' '] + o + seq![' '] + y + seq![';'];
    let a = x.len() as int;
    let b = a + 1 + o.len();
    let c = b + 1 + y.len();
    assert(s.subrange(0, a) =~= x);
    assert(s[a] == ' ');
    assert(s.subrange(a + 1, a + 1 + o.len()) =~= o);
    assert(s[b] == ' ');
    assert(s.subrange(b + 1, c) =~= y);
    assert(s[c] == ';');
    assert(s.len() == c + 1);
    lemma_name_step(s, 0, x);
    lemma_op_step(s, a + 1, k);
    lemma_name_step(s, b + 1, y);
    let st = scan_step(s, c);
    assert(st == emit(TokenType::SemiColon, c, c, c + 1));
    assert(scan_from(s, c + 1) == (Seq::<TokenView>::empty(), Seq::<(nat, Seq<char>)>::empty()));
    let r4 = scan_from(s, c);
    let r3 = scan_from(s, b + 1);
    let r2 = scan_from(s, b);
    let r1 = scan_from(s, a + 1);
    let r0 = scan_from(s, a);
    let rs = scan_from(s, 0);
    assert(r4.1 =~= Seq::<(nat, Seq<char>)>::empty());
    assert(r2 == r3);
    assert(r0 == r1);
    assert(rs.1 =~= Seq::<(nat, Seq<char>)>::empty());
    assert(r4.0.len() == 1 && r4.0[0].kind is SemiColon);
    assert(r3.0.len() == 2 && r3.0[0].kind == TokenType::Identifier::<Seq<char>>(y) && r3.0[1].kind is SemiColon);
    assert(r1.0.len() == 3 && r1.0[0].kind == k && r1.0[1].kind == TokenType::Identifier::<Seq<char>>(y) && r1.0[2].kind is SemiColon);
    assert(rs.0.len() == 4 && rs.0[0].kind == TokenType::Identifier::<Seq<char>>(x) && rs.0[1].kind == k && rs.0[2].kind == TokenType::Identifier::<Seq<char>>(y) && rs.0[3].kind is SemiColon);
    let t = wrapped(s);
    assert(t.len() == 6);
    assert(t[0].kind is LeftBrace && t[0].start == 0);
    assert(t[1] == rs.0[0]);
    assert(t[2] == rs.0[1]);
    assert(t[3] == rs.0[2]);
    assert(t[4] == rs.0[3]);
    assert(t[5].kind is RightBrace);
    lemma_ident_op_ident(t, x, y);
}

pub open spec fn opt_view(o: Option<Expr>) -> Option<SExpr> {
    match o {
        Some(e) => Some(e@),
        None => None,
    }
}

/// The diagnostic `e` is the message `m` at the token at position `k` of `tokens`.
pub open spec fn error_is<'a>(tokens: Seq<Token<'a>>, e: ParsingErr, k: int, m: Seq<char>) -> bool {
    0 <= k < tokens.len() && e@ == seq![render(tokens[k].src@, tokens[k].start as int, m)]
}

/// Every token starts within its source.
pub open spec fn within_source<'a>(tokens: Seq<Token<'a>>) -> bool {
    forall|k: int| 0 <= k < tokens.len() ==> (#[trigger] tokens[k]).start <= encode_utf8(tokens[k].src@).len()
}

/// Parser over a token sequence, with a cursor on the next unread token.
pub struct Parser<'a> {
    tokens: Vec<Token<'a>>,
    pos: usize,
}

impl<'a> Parser<'a> {
    pub closed spec fn tokens(&self) -> Seq<Token<'a>> {
        self.tokens@
    }

    pub closed spec fn pos(&self) -> int {
        self.pos as int
    }

    pub open spec fn toks(&self) -> Seq<TokenView> {
        views(self.tokens())
    }

    pub closed spec fn wf(&self) -> bool {
        &&& self.pos <= self.tokens@.len()
        &&& within_source(self.tokens@)
    }

    /// The outcome `r` of a parse and the parser after it agree with `spec`.
    pub open spec fn parsed(old: &Self, new: &Self, r: Result<Option<Expr>, ParsingErr>, spec: Parsed) -> bool {
        match (r, spec) {
            (Ok(o), Ok((so, q))) => opt_view(o) == so && new.pos() == q && (o is Some ==> q > old.pos()),
            (Err(e), Err((k, m))) => error_is(old.tokens(), e, k, m),
            _ => false,
        }
    }

    /// As `parsed`, for a rule that always builds an expression.
    pub open spec fn built(new: &Self, r: Result<Expr, ParsingErr>, tokens: Seq<Token<'a>>, spec: Built) -> bool {
        match (r, spec) {
            (Ok(e), Ok((se, q))) => e@ == se && new.pos() == q,
            (Err(e), Err((k, m))) => error_is(tokens, e, k, m),
            _ => false,
        }
    }

    /// A parser at the start of `tokens`.
    pub fn new(tokens: Vec<Token<'a>>) -> (r: Self)
        requires
            within_source(tokens@),
        ensures
            r.wf(),
            r.tokens() == tokens@,
            r.pos() == 0,
    {
        Parser { tokens, pos: 0 }
    }

    /// Parses one expression from the cursor with minimum binding power 0.
    pub fn parse(&mut self) -> (r: Result<Option<Expr>, ParsingErr>)
        requires
            old(self).wf(),
        ensures
            final(self).wf(),
            final(self).tokens() == old(self).tokens(),
            old(self).pos() <= final(self).pos(),
            Self::parsed(old(self), final(self), r, parse_prec(old(self).toks(), old(self).pos(), 0)),
        decreases old(self).tokens().len() - old(self).pos(), 3int,
    {
        self.parse_with_prec(0)
    }

    /// Parses one expression from the cursor, taking infix operators while they bind
    /// more tightly than `preced`.
    pub fn parse_with_prec(&mut self, preced: i32) -> (r: Result<Option<Expr>, ParsingErr>)
        requires
            old(self).wf(),
        ensures
            final(self).wf(),
            final(self).tokens() == old(self).tokens(),
            old(self).pos() <= final(self).pos(),
            Self::parsed(old(self), final(self), r, parse_prec(old(self).toks(), old(self).pos(), preced as int)),
        decreases old(self).tokens().len() - old(self).pos(), 2int,
    {
        let ghost t = self.toks();
        let ghost p0 = self.pos as int;
        if self.pos >= self.tokens.len() {
            return Ok(None);
        }
        let idx = self.pos;
        let token = self.tokens[idx].copy();
        self.pos = idx + 1;
        let mut left = match prefix_op(self, token) {
            Ok(e) => e,
            Err(e) => {
                return Err(e);
            },
        };
        assert(parse_prec(t, p0, preced as int) == infix_loop(t, left@, self.pos as int, preced as int));
        while self.pos < self.tokens.len() && preced < self.next_preced()
            invariant
                self.wf(),
                self.toks() == t,
                p0 < self.pos,
                p0 == old(self).pos(),
                parse_prec(t, p0, preced as int) == infix_loop(t, left@, self.pos as int, preced as int),
                self.tokens() == old(self).tokens(),
            decreases self.tokens@.len() - self.pos,
        {
            let idx = self.pos;
            let n = self.tokens.len();
            assert(idx < n);
            let next = self.tokens[idx].copy();
            self.pos = idx + 1;
            let ghost before = left@;
            left = match infix_op(self, left, next) {
                Ok(e) => e,
                Err(e) => {
                    return Err(e);
                },
            };
        }
        Ok(Some(left))
    }

    /// Binding power of the next unread token; 0 when none is left.
    pub fn next_preced(&self) -> (r: i32)
        requires
            self.wf(),
        ensures
            r == if self.pos() < self.toks().len() {
                preced_of(self.toks()[self.pos()].kind)
            } else {
                0
            },
    {
        if self.pos < self.tokens.len() {
            self.tokens[self.pos].tt.infix_preced()
        } else {
            0
        }
    }

    /// Whether the next unread token is of kind `tt`; if so and `consume` holds, it is read.
    pub fn has_next(&mut self, tt: TokenType, consume: bool) -> (r: bool)
        requires
            old(self).wf(),
        ensures
            final(self).wf(),
            final(self).tokens() == old(self).tokens(),
            r == (old(self).pos() < old(self).toks().len() && old(self).toks()[old(self).pos()].kind == tt@),
            final(self).pos() == if r && consume {
                old(self).pos() + 1
            } else {
                old(self).pos()
            },
    {
        if self.pos < self.tokens.len() && self.tokens[self.pos].tt.same(&tt) {
            if consume {
                self.pos = self.pos + 1;
            }
            true
        } else {
            false
        }
    }
}

/// Applies the prefix rule of `token`, the token just read.
pub fn prefix_op<'a>(parser: &mut Parser<'a>, token: Token<'a>) -> (r: Result<Expr, ParsingErr>)
    requires
        old(parser).wf(),
        old(parser).pos() > 0,
        token@ == old(parser).toks()[old(parser).pos() - 1],
        token.src == old(parser).tokens()[old(parser).pos() - 1].src,
    ensures
        final(parser).wf(),
        final(parser).tokens() == old(parser).tokens(),
        old(parser).pos() <= final(parser).pos(),
        Parser::built(final(parser), r, old(parser).tokens(), prefix(old(parser).toks(), old(parser).pos() - 1)),
        !has_prefix_rule(token.tt@) ==> final(parser).pos() == old(parser).pos(),
    decreases old(parser).tokens().len() - old(parser).pos(), 5int,
{
    let start = token.start;
    match &token.tt {
        TokenType::Str(s) => Ok(Expr::Literal(Lit::Str(s.clone()), start)),
        TokenType::Int(v) => Ok(Expr::Literal(Lit::Int(*v), start)),
        TokenType::Float(s) => Ok(Expr::Literal(Lit::FLoat(s.clone()), start)),
        TokenType::Boolean(b) => Ok(Expr::Literal(Lit::Boolean(*b), start)),
        TokenType::Identifier(w) => Ok(Expr::Identifier(w.clone(), start)),
        TokenType::Let => parse_let(parser, &token),
        TokenType::LeftParen => parse_group(parser, &token),
        TokenType::LeftBrace => parse_block(parser, &token),
        _ => {
            let mut msg = String::from_str("Unexpected prefix token type `");
            let shown = token.tt.debug_text();
            msg.append(shown.as_str());
            msg.append("`");
            proof {
                reveal_strlit("Unexpected prefix token type `");
                reveal_strlit("`");
                assert(msg@ =~= unexpected("Unexpected prefix token type `"@, token.tt@));
            }
            Err(ParsingErr::token(&token, msg.as_str()))
        },
    }
}

fn parse_let<'a>(parser: &mut Parser<'a>, token: &Token<'a>) -> (r: Result<Expr, ParsingErr>)
    requires
        old(parser).wf(),
        old(parser).pos() > 0,
        token@ == old(parser).toks()[old(parser).pos() - 1],
        token.src == old(parser).tokens()[old(parser).pos() - 1].src,
        token.tt is Let,
    ensures
        final(parser).wf(),
        final(parser).tokens() == old(parser).tokens(),
        old(parser).pos() <= final(parser).pos(),
        Parser::built(final(parser), r, old(parser).tokens(), prefix(old(parser).toks(), old(parser).pos() - 1)),
    decreases old(parser).tokens().len() - old(parser).pos(), 4int,
{
    let exp = match parser.parse() {
        Err(e) => {
            return Err(e);
        },
        Ok(None) => {
            return Err(ParsingErr::token(token, "Couldn't parse variable name of let"));
        },
        Ok(Some(e)) => e,
    };
    match &exp {
        Expr::Binary { op, .. } => {
            if *op == BinaryOp::Equal {
                Ok(Expr::Let(Box::new(exp), token.start))
            } else {
                Err(ParsingErr::token(token, "expression should be assigned with '=' operator"))
            }
        },
        _ => Err(ParsingErr::token(token, "Failed to parse let expression")),
    }
}

fn parse_group<'a>(parser: &mut Parser<'a>, token: &Token<'a>) -> (r: Result<Expr, ParsingErr>)
    requires
        old(parser).wf(),
        old(parser).pos() > 0,
        token@ == old(parser).toks()[old(parser).pos() - 1],
        token.src == old(parser).tokens()[old(parser).pos() - 1].src,
        token.tt is LeftParen,
    ensures
        final(parser).wf(),
        final(parser).tokens() == old(parser).tokens(),
        old(parser).pos() <= final(parser).pos(),
        Parser::built(final(parser), r, old(parser).tokens(), prefix(old(parser).toks(), old(parser).pos() - 1)),
    decreases old(parser).tokens().len() - old(parser).pos(), 4int,
{
    let exp = match parser.parse() {
        Err(e) => {
            return Err(e);
        },
        Ok(None) => {
            return Err(ParsingErr::token(token, "Couldn't parse nested expression"));
        },
        Ok(Some(e)) => e,
    };
    if !parser.has_next(TokenType::RightParen, true) {
        return Err(ParsingErr::token(token, "No closing parenthesis found"));
    }
    Ok(Expr::Group(Box::new(exp), token.start))
}

fn parse_block<'a>(parser: &mut Parser<'a>, token: &Token<'a>) -> (r: Result<Expr, ParsingErr>)
    requires
        old(parser).wf(),
        old(parser).pos() > 0,
        token@ == old(parser).toks()[old(parser).pos() - 1],
        token.src == old(parser).tokens()[old(parser).pos() - 1].src,
        token.tt is LeftBrace,
    ensures
        final(parser).wf(),
        final(parser).tokens() == old(parser).tokens(),
        old(parser).pos() <= final(parser).pos(),
        Parser::built(final(parser), r, old(parser).tokens(), prefix(old(parser).toks(), old(parser).pos() - 1)),
    decreases old(parser).tokens().len() - old(parser).pos(), 4int,
{
    let ghost t = parser.toks();
    let ghost open = parser.pos() - 1;
    let ghost p0 = parser.pos();
    let mut exprs: Vec<Expr> = Vec::new();
    assert(exprs_view(exprs@) =~= Seq::<SExpr>::empty());
    loop
        invariant
            parser.wf(),
            parser.toks() == t,
            parser.tokens() == old(parser).tokens(),
            p0 <= parser.pos(),
            p0 == old(parser).pos(),
            t == old(parser).toks(),
            open == old(parser).pos() - 1,
            0 <= open < t.len(),
            token@ == t[open],
            token.src == old(parser).tokens()[open].src,
            prefix(t, open) == block_loop(t, exprs_view(exprs@), parser.pos(), open),
        decreases t.len() - parser.pos(),
    {
        let ghost p = parser.pos();
        let exp = match parser.parse() {
            Err(e) => {
                return Err(e);
            },
            Ok(None) => {
                return Ok(Expr::Block(exprs, token.start));
            },
            Ok(Some(e)) => e,
        };
        let ghost done = exprs_view(exprs@);
        let ghost before = exprs@;
        let ghost e = exp@;
        exprs.push(exp);
        proof {
            assert(exprs@.subrange(0, exprs@.len() - 1) =~= before);
            assert(exprs_view(exprs@) == done.push(e));
        }
        if parser.has_next(TokenType::RightBrace, true) {
            return Ok(Expr::Block(exprs, token.start));
        }
        if !parser.has_next(TokenType::SemiColon, true) {
            return Err(ParsingErr::token(token, "Statement didn't close with a ';'"));
        }
        if parser.has_next(TokenType::RightBrace, true) {
            return Ok(Expr::Block(exprs, token.start));
        }
    }
}

/// Applies the infix rule of `token`, the token just read, to `left`.
pub fn infix_op<'a>(parser: &mut Parser<'a>, left: Expr, token: Token<'a>) -> (r: Result<Expr, ParsingErr>)
    requires
        old(parser).wf(),
        old(parser).pos() > 0,
        token@ == old(parser).toks()[old(parser).pos() - 1],
        token.src == old(parser).tokens()[old(parser).pos() - 1].src,
    ensures
        final(parser).wf(),
        final(parser).tokens() == old(parser).tokens(),
        old(parser).pos() <= final(parser).pos(),
        Parser::built(final(parser), r, old(parser).tokens(), infix(old(parser).toks(), left@, old(parser).pos() - 1)),
        op_of(token.tt@) is None ==> final(parser).pos() == old(parser).pos(),
        token.tt@ is Equal && !(left is Identifier) ==> final(parser).pos() == old(parser).pos(),
    decreases old(parser).tokens().len() - old(parser).pos(), 5int,
{
    match &token.tt {
        TokenType::Equal => {
            match &left {
                Expr::Identifier(_, _) => {
                    let exp = match parse_binary(parser, left, &token, BinaryOp::Equal) {
                        Ok(e) => e,
                        Err(e) => {
                            return Err(e);
                        },
                    };
                    if !parser.has_next(TokenType::SemiColon, false) {
                        Err(ParsingErr::token(&token, "Statement not terminated properly"))
                    } else {
                        Ok(exp)
                    }
                },
                _ => Err(ParsingErr::token(&token, "Expression can only be assigned to a variable")),
            }
        },
        TokenType::Plus => parse_binary(parser, left, &token, BinaryOp::Add),
        TokenType::Minus => parse_binary(parser, left, &token, BinaryOp::Sub),
        TokenType::Mul => parse_binary(parser, left, &token, BinaryOp::Mul),
        TokenType::Div => parse_binary(parser, left, &token, BinaryOp::Div),
        TokenType::Modulo => parse_binary(parser, left, &token, BinaryOp::Modulo),
        TokenType::EqualEqual => parse_binary(parser, left, &token, BinaryOp::EqualEqual),
        TokenType::Less => parse_binary(parser, left, &token, BinaryOp::Less),
        TokenType::LessEqual => parse_binary(parser, left, &token, BinaryOp::LessEqual),
        TokenType::Greater => parse_binary(parser, left, &token, BinaryOp::Greater),
        TokenType::GreaterEqual => parse_binary(parser, left, &token, BinaryOp::GreaterEqual),
        TokenType::NotEqual => parse_binary(parser, left, &token, BinaryOp::NotEqual),
        _ => {
            let mut msg = String::from_str("Unexpected infix token type `");
            let shown = token.tt.debug_text();
            msg.append(shown.as_str());
            msg.append("`");
            proof {
                reveal_strlit("Unexpected infix token type `");
                reveal_strlit("`");
                assert(msg@ =~= unexpected("Unexpected infix token type `"@, token.tt@));
            }
            Err(ParsingErr::token(&token, msg.as_str()))
        },
    }
}

fn parse_binary<'a>(parser: &mut Parser<'a>, left: Expr, token: &Token<'a>, op: BinaryOp) -> (r: Result<Expr, ParsingErr>)
    requires
        old(parser).wf(),
        old(parser).pos() > 0,
        token@ == old(parser).toks()[old(parser).pos() - 1],
        token.src == old(parser).tokens()[old(parser).pos() - 1].src,
    ensures
        final(parser).wf(),
        final(parser).tokens() == old(parser).tokens(),
        old(parser).pos() <= final(parser).pos(),
        Parser::built(final(parser), r, old(parser).tokens(), binary(old(parser).toks(), left@, old(parser).pos() - 1, op)),
    decreases old(parser).tokens().len() - old(parser).pos(), 4int,
{
    let preced = token.tt.infix_preced();
    let right = match parser.parse_with_prec(preced) {
        Err(e) => {
            return Err(e);
        },
        Ok(None) => {
            return Err(ParsingErr::token(token, "Failed to parse right expression"));
        },
        Ok(Some(r)) => r,
    };
    Ok(Expr::Binary { left: Box::new(left), op, right: Box::new(right), start: token.start })
}

} // verus!
