//! Lexer for the configuration predicate language: a left-to-right scan of
//! the expression text producing identifier, string and punctuation tokens,
//! each carrying the half-open span of byte offsets it was read from.

use vstd::prelude::*;
use vstd::utf8::{encode_scalar, encode_utf8};

verus! {

/// Kind of a lexical token. Identifier and string tokens carry the text
/// they denote; a string token's text is the exact content between the
/// quotes, with no escape processing.
#[derive(Debug, Clone, PartialEq, Eq)]
pub enum TokenKind {
    Ident(String),
    StrLit(String),
    OpenParen,
    CloseParen,
    Comma,
    Equals,
    End,
}

/// A token together with the span of byte offsets it covers.
#[derive(Debug, Clone, PartialEq, Eq)]
pub struct Token {
    pub kind: TokenKind,
    pub start: usize,
    pub end: usize,
}

/// Why lexing failed.
#[derive(Debug, Clone, Copy, PartialEq, Eq, Structural)]
pub enum LexReason {
    /// A string literal was opened but its closing quote never came.
    UnterminatedString,
    /// An identifier ran into a character that may neither continue it nor
    /// follow it (anything but whitespace, punctuation or end of input).
    InvalidIdentChar,
    /// A character that cannot start any token.
    UnexpectedCharacter,
}

/// A lexing failure, with the span of byte offsets it points at.
#[derive(Debug, Clone, Copy, PartialEq, Eq, Structural)]
pub struct LexError {
    pub start: usize,
    pub end: usize,
    pub reason: LexReason,
}

/// Mathematical form of a token kind, over character sequences.
pub enum TokV {
    Ident(Seq<char>),
    StrLit(Seq<char>),
    OpenParen,
    CloseParen,
    Comma,
    Equals,
    End,
}

/// Mathematical form of a token.
pub struct TokenV {
    pub tok: TokV,
    pub start: int,
    pub end: int,
}

/// Mathematical form of a lexing failure.
pub struct LexErrV {
    pub start: int,
    pub end: int,
    pub reason: LexReason,
}

impl View for TokenKind {
    type V = TokV;

    open spec fn view(&self) -> TokV {
        match self {
            TokenKind::Ident(s) => TokV::Ident(s@),
            TokenKind::StrLit(s) => TokV::StrLit(s@),
            TokenKind::OpenParen => TokV::OpenParen,
            TokenKind::CloseParen => TokV::CloseParen,
            TokenKind::Comma => TokV::Comma,
            TokenKind::Equals => TokV::Equals,
            TokenKind::End => TokV::End,
        }
    }
}

impl View for Token {
    type V = TokenV;

    open spec fn view(&self) -> TokenV {
        TokenV { tok: self.kind@, start: self.start as int, end: self.end as int }
    }
}

impl View for LexError {
    type V = LexErrV;

    open spec fn view(&self) -> LexErrV {
        LexErrV { start: self.start as int, end: self.end as int, reason: self.reason }
    }
}

/// The byte offset of character offset `i` of `s`: the length of the
/// UTF-8 encoding of the first `i` characters.
pub open spec fn byte_of(s: Seq<char>, i: int) -> int {
    encode_utf8(s.take(i)).len() as int
}

proof fn lemma_encode_push(a: Seq<char>, c: char)
    ensures
        encode_utf8(a.push(c)) == encode_utf8(a) + encode_scalar(c as u32),
    decreases a.len(),
{
    if a.len() == 0 {
        assert(a.push(c).drop_first() =~= Seq::<char>::empty());
        assert(a.push(c)[0] == c);
        assert(encode_utf8(a) =~= Seq::<u8>::empty());
        assert(encode_scalar(c as u32) + encode_utf8(Seq::<char>::empty()) =~= Seq::<
            u8,
        >::empty() + encode_scalar(c as u32));
    } else {
        assert(a.push(c).drop_first() =~= a.drop_first().push(c));
        assert(a.push(c)[0] == a[0]);
        lemma_encode_push(a.drop_first(), c);
        assert(encode_scalar(a[0] as u32) + (encode_utf8(a.drop_first()) + encode_scalar(c as u32))
            =~= (encode_scalar(a[0] as u32) + encode_utf8(a.drop_first())) + encode_scalar(
            c as u32,
        ));
    }
}

/// One more character adds the length of its encoding.
pub proof fn lemma_byte_of_step(s: Seq<char>, i: int)
    requires
        0 <= i < s.len(),
    ensures
        byte_of(s, i + 1) == byte_of(s, i) + encode_scalar(s[i] as u32).len(),
{
    assert(s.take(i + 1) =~= s.take(i).push(s[i]));
    lemma_encode_push(s.take(i), s[i]);
}

/// Byte offsets grow with character offsets.
pub proof fn lemma_byte_of_le(s: Seq<char>, i: int, j: int)
    requires
        0 <= i <= j <= s.len(),
    ensures
        byte_of(s, i) <= byte_of(s, j),
    decreases j - i,
{
    if i < j {
        lemma_byte_of_step(s, j - 1);
        lemma_byte_of_le(s, i, j - 1);
    }
}

/// Whitespace between tokens; insignificant and never itself a token.
pub open spec fn is_ws(c: char) -> bool {
    c == ' ' || c == '\t' || c == '\n' || c == '\r'
}

/// A character that may start an identifier.
pub open spec fn is_ident_start(c: char) -> bool {
    ||| 'a' as u32 <= c as u32 && c as u32 <= 'z' as u32
    ||| 'A' as u32 <= c as u32 && c as u32 <= 'Z' as u32
    ||| c == '_'
}

/// A character that may continue an identifier.
pub open spec fn is_ident_char(c: char) -> bool {
    is_ident_start(c) || ('0' as u32 <= c as u32 && c as u32 <= '9' as u32)
}

/// Single-character punctuation tokens.
pub open spec fn is_punct(c: char) -> bool {
    c == '(' || c == ')' || c == ',' || c == '='
}

/// First character offset at or after `i` holding a non-whitespace
/// character, or the end of the text.
pub open spec fn skip_ws(s: Seq<char>, i: int) -> int
    decreases s.len() - i
        when 0 <= i <= s.len()
{
    if i >= s.len() {
        i
    } else if is_ws(s[i]) {
        skip_ws(s, i + 1)
    } else {
        i
    }
}

/// First character offset at or after `i` that cannot continue an
/// identifier.
pub open spec fn scan_ident(s: Seq<char>, i: int) -> int
    decreases s.len() - i
        when 0 <= i <= s.len()
{
    if i >= s.len() {
        i
    } else if is_ident_char(s[i]) {
        scan_ident(s, i + 1)
    } else {
        i
    }
}

/// Character offset of the first `"` at or after `i`, or the end of the
/// text when there is none.
pub open spec fn scan_str(s: Seq<char>, i: int) -> int
    decreases s.len() - i
        when 0 <= i <= s.len()
{
    if i >= s.len() {
        i
    } else if s[i] == '"' {
        i
    } else {
        scan_str(s, i + 1)
    }
}

/// The token starting at or after character offset `i` of `s`, and the
/// character offset at which the scan resumes: whitespace is skipped, then
/// the next character decides between punctuation, a string literal, an
/// identifier, end of input, or a failure. Spans are in byte offsets.
pub open spec fn spec_next_token(s: Seq<char>, i: int) -> Result<(TokenV, int), LexErrV>
    recommends
        0 <= i <= s.len(),
{
    let j = skip_ws(s, i);
    if j >= s.len() {
        Ok((TokenV { tok: TokV::End, start: byte_of(s, j), end: byte_of(s, j) }, j))
    } else if s[j] == '(' {
        Ok((TokenV { tok: TokV::OpenParen, start: byte_of(s, j), end: byte_of(s, j + 1) }, j + 1))
    } else if s[j] == ')' {
        Ok((TokenV { tok: TokV::CloseParen, start: byte_of(s, j), end: byte_of(s, j + 1) }, j + 1))
    } else if s[j] == ',' {
        Ok((TokenV { tok: TokV::Comma, start: byte_of(s, j), end: byte_of(s, j + 1) }, j + 1))
    } else if s[j] == '=' {
        Ok((TokenV { tok: TokV::Equals, start: byte_of(s, j), end: byte_of(s, j + 1) }, j + 1))
    } else if s[j] == '"' {
        let k = scan_str(s, j + 1);
        if k >= s.len() {
            Err(
                LexErrV {
                    start: byte_of(s, j),
                    end: byte_of(s, s.len() as int),
                    reason: LexReason::UnterminatedString,
                },
            )
        } else {
            Ok(
                (
                    TokenV {
                        tok: TokV::StrLit(s.subrange(j + 1, k)),
                        start: byte_of(s, j),
                        end: byte_of(s, k + 1),
                    },
                    k + 1,
                ),
            )
        }
    } else if is_ident_start(s[j]) {
        let k = scan_ident(s, j + 1);
        if k < s.len() && !is_ws(s[k]) && !is_punct(s[k]) && s[k] != '"' {
            Err(
                LexErrV {
                    start: byte_of(s, k),
                    end: byte_of(s, k + 1),
                    reason: LexReason::InvalidIdentChar,
                },
            )
        } else {
            Ok(
                (
                    TokenV {
                        tok: TokV::Ident(s.subrange(j, k)),
                        start: byte_of(s, j),
                        end: byte_of(s, k),
                    },
                    k,
                ),
            )
        }
    } else {
        Err(
            LexErrV {
                start: byte_of(s, j),
                end: byte_of(s, j + 1),
                reason: LexReason::UnexpectedCharacter,
            },
        )
    }
}

/// The whole token stream from character offset `i` on, ending with the
/// end-of-input token, or the first lexing failure.
pub open spec fn spec_lex_all(s: Seq<char>, i: int) -> Result<Seq<TokenV>, LexErrV>
    decreases s.len() - i
        when 0 <= i <= s.len()
{
    match spec_next_token(s, i) {
        Err(e) => Err(e),
        Ok((t, next)) => {
            if t.tok is End {
                Ok(seq![t])
            } else if i < next <= s.len() {
                match spec_lex_all(s, next) {
                    Err(e) => Err(e),
                    Ok(rest) => Ok(seq![t] + rest),
                }
            } else {
                // never reached: a token other than End always resumes past `i`
                Err(
                    LexErrV {
                        start: byte_of(s, i),
                        end: byte_of(s, i),
                        reason: LexReason::UnexpectedCharacter,
                    },
                )
            }
        },
    }
}

fn ws_char(c: char) -> (r: bool)
    ensures
        r == is_ws(c),
{
    c == ' ' || c == '\t' || c == '\n' || c == '\r'
}

fn ident_start_char(c: char) -> (r: bool)
    ensures
        r == is_ident_start(c),
{
    let u = c as u32;
    ('a' as u32 <= u && u <= 'z' as u32) || ('A' as u32 <= u && u <= 'Z' as u32) || c == '_'
}

fn ident_char(c: char) -> (r: bool)
    ensures
        r == is_ident_char(c),
{
    ident_start_char(c) || ('0' as u32 <= c as u32 && c as u32 <= '9' as u32)
}

fn punct_char(c: char) -> (r: bool)
    ensures
        r == is_punct(c),
{
    c == '(' || c == ')' || c == ',' || c == '='
}

/// The number of bytes in the UTF-8 encoding of one character.
fn utf8_len_of(c: char) -> (r: usize)
    ensures
        r as int == encode_scalar(c as u32).len(),
{
    let u = c as u32;
    if u < 0x80 {
        1
    } else if u < 0x800 {
        2
    } else if u < 0x10000 {
        3
    } else {
        4
    }
}

/// Read the token starting at or after character offset `pos` of `s`;
/// `bpos` is the byte offset of `pos`. Returns the token and the character
/// offset at which to resume; the byte offset to resume at is the token's
/// `end`.
pub fn next_token(s: &str, pos: usize, bpos: usize) -> (r: Result<(Token, usize), LexError>)
    requires
        pos <= s@.len(),
        bpos as int == byte_of(s@, pos as int),
    ensures
        match r {
            Ok((t, next)) => {
                &&& spec_next_token(s@, pos as int) == Ok::<(TokenV, int), LexErrV>((
                    t@,
                    next as int,
                ))
                &&& pos <= next <= s@.len()
                &&& t.end as int == byte_of(s@, next as int)
                &&& (!(t.kind is End) ==> pos < next)
            },
            Err(e) => spec_next_token(s@, pos as int) == Err::<(TokenV, int), LexErrV>(e@),
        },
{
    let n = s.unicode_len();
    let total = s.as_bytes().len();
    proof {
        assert(s@.take(n as int) =~= s@);
        assert(total as int == byte_of(s@, n as int));
    }
    let mut i = pos;
    let mut bi = bpos;
    while i < n && ws_char(s.get_char(i))
        invariant
            pos <= i <= n,
            n == s@.len(),
            total as int == byte_of(s@, n as int),
            skip_ws(s@, pos as int) == skip_ws(s@, i as int),
            bi as int == byte_of(s@, i as int),
        decreases n - i,
    {
        let c = s.get_char(i);
        proof {
            lemma_byte_of_step(s@, i as int);
            lemma_byte_of_le(s@, i as int + 1, n as int);
        }
        bi = bi + utf8_len_of(c);
        i = i + 1;
    }
    assert(skip_ws(s@, i as int) == i as int);
    if i == n {
        return Ok((Token { kind: TokenKind::End, start: bi, end: bi }, i));
    }
    let c = s.get_char(i);
    proof {
        lemma_byte_of_step(s@, i as int);
        lemma_byte_of_le(s@, i as int + 1, n as int);
    }
    if c == '(' {
        let e = bi + utf8_len_of(c);
        Ok((Token { kind: TokenKind::OpenParen, start: bi, end: e }, i + 1))
    } else if c == ')' {
        let e = bi + utf8_len_of(c);
        Ok((Token { kind: TokenKind::CloseParen, start: bi, end: e }, i + 1))
    } else if c == ',' {
        let e = bi + utf8_len_of(c);
        Ok((Token { kind: TokenKind::Comma, start: bi, end: e }, i + 1))
    } else if c == '=' {
        let e = bi + utf8_len_of(c);
        Ok((Token { kind: TokenKind::Equals, start: bi, end: e }, i + 1))
    } else if c == '"' {
        let mut k = i + 1;
        let mut bk = bi + utf8_len_of(c);
        while k < n && s.get_char(k) != '"'
            invariant
                i + 1 <= k <= n,
                n == s@.len(),
                total as int == byte_of(s@, n as int),
                scan_str(s@, (i + 1) as int) == scan_str(s@, k as int),
                bk as int == byte_of(s@, k as int),
            decreases n - k,
        {
            let kc = s.get_char(k);
            proof {
                lemma_byte_of_step(s@, k as int);
                lemma_byte_of_le(s@, k as int + 1, n as int);
            }
            bk = bk + utf8_len_of(kc);
            k = k + 1;
        }
        assert(scan_str(s@, (i + 1) as int) == k as int);
        if k == n {
            Err(LexError { start: bi, end: bk, reason: LexReason::UnterminatedString })
        } else {
            let qc = s.get_char(k);
            proof {
                lemma_byte_of_step(s@, k as int);
                lemma_byte_of_le(s@, k as int + 1, n as int);
            }
            let be = bk + utf8_len_of(qc);
            let content = s.substring_char(i + 1, k).to_owned();
            Ok((Token { kind: TokenKind::StrLit(content), start: bi, end: be }, k + 1))
        }
    } else if ident_start_char(c) {
        let mut k = i + 1;
        let mut bk = bi + utf8_len_of(c);
        while k < n && ident_char(s.get_char(k))
            invariant
                i + 1 <= k <= n,
                n == s@.len(),
                total as int == byte_of(s@, n as int),
                scan_ident(s@, (i + 1) as int) == scan_ident(s@, k as int),
                bk as int == byte_of(s@, k as int),
            decreases n - k,
        {
            let kc = s.get_char(k);
            proof {
                lemma_byte_of_step(s@, k as int);
                lemma_byte_of_le(s@, k as int + 1, n as int);
            }
            bk = bk + utf8_len_of(kc);
            k = k + 1;
        }
        assert(scan_ident(s@, (i + 1) as int) == k as int);
        if k < n {
            let after = s.get_char(k);
            if !ws_char(after) && !punct_char(after) && after != '"' {
                proof {
                    lemma_byte_of_step(s@, k as int);
                    lemma_byte_of_le(s@, k as int + 1, n as int);
                }
                let ae = bk + utf8_len_of(after);
                return Err(LexError { start: bk, end: ae, reason: LexReason::InvalidIdentChar });
            }
        }
        let name = s.substring_char(i, k).to_owned();
        Ok((Token { kind: TokenKind::Ident(name), start: bi, end: bk }, k))
    } else {
        let e = bi + utf8_len_of(c);
        Err(LexError { start: bi, end: e, reason: LexReason::UnexpectedCharacter })
    }
}

/// The views of a token vector, in order.
pub open spec fn tokens_view(v: Seq<Token>) -> Seq<TokenV> {
    v.map_values(|t: Token| t@)
}

/// Lex the whole text into its token stream, ending with the end-of-input
/// token, or report the first failure.
pub fn lex_all(s: &str) -> (r: Result<Vec<Token>, LexError>)
    ensures
        match r {
            Ok(v) => {
                &&& spec_lex_all(s@, 0) == Ok::<Seq<TokenV>, LexErrV>(tokens_view(v@))
                &&& v@.len() >= 1
                &&& v@.last().kind is End
            },
            Err(e) => spec_lex_all(s@, 0) == Err::<Seq<TokenV>, LexErrV>(e@),
        },
{
    let mut toks: Vec<Token> = Vec::new();
    let mut pos: usize = 0;
    let mut bpos: usize = 0;
    proof {
        assert(s@.take(0) =~= Seq::<char>::empty());
        assert(encode_utf8(Seq::<char>::empty()) =~= Seq::<u8>::empty());
    }
    loop
        invariant
            pos <= s@.len(),
            bpos as int == byte_of(s@, pos as int),
            forall|m: int| 0 <= m < toks@.len() ==> !((#[trigger] toks@[m]).kind is End),
            spec_lex_all(s@, 0) == (match spec_lex_all(s@, pos as int) {
                Ok(rest) => Ok::<Seq<TokenV>, LexErrV>(tokens_view(toks@) + rest),
                Err(e) => Err::<Seq<TokenV>, LexErrV>(e),
            }),
        decreases s@.len() - pos + 1,
    {
        let (t, next) = match next_token(s, pos, bpos) {
            Ok(p) => p,
            Err(e) => {
                return Err(e);
            },
        };
        let is_end = match &t.kind {
            TokenKind::End => true,
            _ => false,
        };
        let t_end = t.end;
        let ghost old_view = tokens_view(toks@);
        proof {
            assert(tokens_view(toks@.push(t)) =~= old_view + seq![t@]);
        }
        toks.push(t);
        if is_end {
            proof {
                assert(tokens_view(toks@) + seq![] =~= tokens_view(toks@));
                assert(spec_lex_all(s@, pos as int) == Ok::<Seq<TokenV>, LexErrV>(
                    seq![toks@.last()@],
                ));
                assert(tokens_view(toks@.drop_last()) + seq![toks@.last()@] =~= tokens_view(toks@));
            }
            return Ok(toks);
        }
        pos = next;
        bpos = t_end;
        proof {
            match spec_lex_all(s@, pos as int) {
                Ok(rest) => {
                    assert((old_view + seq![t@]) + rest =~= old_view + (seq![t@] + rest));
                },
                Err(e) => {},
            }
        }
    }
}

} // verus!
