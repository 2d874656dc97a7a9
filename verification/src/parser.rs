//! Recursive-descent parser for the configuration predicate grammar:
//!
//! ```text
//! expr      := function | predicate
//! function  := ( "not" "(" expr ")" )
//!            | ( "all" "(" [ expr { "," expr } ] ")" )
//!            | ( "any" "(" [ expr { "," expr } ] ")" )
//! predicate := IDENT [ "=" STRING ]
//! ```
//!
//! Instead of building a tree, each sub-parse appends directly to a shared
//! postfix buffer: a predicate appends one node, a combinator appends its
//! operands first and then itself, carrying the operand count.

use vstd::prelude::*;

use crate::expr::{
    net, node_pops, nodes_view, safe, wf_postfix, ExprNode, Expression, Func, NodeV, PredV,
    Predicate, TargetPredV, TargetPredicate,
};
use crate::expr::{lemma_net_concat, lemma_safe_concat, lemma_safe_weaken};
use crate::lexer;
use crate::lexer::{tokens_view, LexReason, TokV, Token, TokenKind, TokenV};
use crate::targets;
use crate::text::{dec_u8, dec_value, str_eq};

verus! {

/// Why parsing failed.
#[derive(Debug, Clone, Copy, PartialEq, Eq, Structural)]
pub enum ParseReason {
    /// The text could not even be tokenized.
    Lex(LexReason),
    /// An expression was required but the input ended.
    Empty,
    /// A token that does not fit the grammar at its position.
    UnexpectedToken,
    /// A closing parenthesis without an opening partner.
    UnbalancedParens,
    /// Trailing tokens after one complete top-level expression.
    MultipleRootExpressions,
    /// A `target_endian` value other than `little` or `big`.
    InvalidEndian,
    /// A `target_family` value other than `unix` or `windows`.
    InvalidFamily,
    /// A `target_pointer_width` value outside `16`, `32`, `64`.
    InvalidPointerWidth,
}

/// A parsing failure: a reason and the span of byte offsets of the
/// original text it points at, for caret-style diagnostics.
#[derive(Debug, Clone, Copy, PartialEq, Eq, Structural)]
pub struct ParseError {
    pub start: usize,
    pub end: usize,
    pub reason: ParseReason,
}

/// The description of each failure reason.
pub open spec fn spec_describe(r: ParseReason) -> Seq<char> {
    match r {
        ParseReason::Lex(LexReason::UnterminatedString) => "unterminated string literal"@,
        ParseReason::Lex(LexReason::InvalidIdentChar) => "invalid character in an identifier"@,
        ParseReason::Lex(LexReason::UnexpectedCharacter) => "unexpected character"@,
        ParseReason::Empty => "an expression was expected but the input ended"@,
        ParseReason::UnexpectedToken => "unexpected token"@,
        ParseReason::UnbalancedParens => "unbalanced parentheses"@,
        ParseReason::MultipleRootExpressions => "only one top-level expression is permitted"@,
        ParseReason::InvalidEndian => "expected \"little\" or \"big\""@,
        ParseReason::InvalidFamily => "expected \"unix\" or \"windows\""@,
        ParseReason::InvalidPointerWidth => "expected \"16\", \"32\" or \"64\""@,
    }
}

impl ParseReason {
    /// A short description of the failure, for caret-style diagnostics
    /// together with the error's span.
    pub fn describe(&self) -> (r: String)
        ensures
            r@ == spec_describe(*self),
    {
        match self {
            ParseReason::Lex(LexReason::UnterminatedString) => "unterminated string literal".to_owned(),
            ParseReason::Lex(LexReason::InvalidIdentChar) => "invalid character in an identifier".to_owned(),
            ParseReason::Lex(LexReason::UnexpectedCharacter) => "unexpected character".to_owned(),
            ParseReason::Empty => "an expression was expected but the input ended".to_owned(),
            ParseReason::UnexpectedToken => "unexpected token".to_owned(),
            ParseReason::UnbalancedParens => "unbalanced parentheses".to_owned(),
            ParseReason::MultipleRootExpressions => "only one top-level expression is permitted".to_owned(),
            ParseReason::InvalidEndian => "expected \"little\" or \"big\"".to_owned(),
            ParseReason::InvalidFamily => "expected \"unix\" or \"windows\"".to_owned(),
            ParseReason::InvalidPointerWidth => "expected \"16\", \"32\" or \"64\"".to_owned(),
        }
    }
}

/// Mathematical form of a parsing failure.
pub struct ParseErrV {
    pub start: int,
    pub end: int,
    pub reason: ParseReason,
}

impl View for ParseError {
    type V = ParseErrV;

    open spec fn view(&self) -> ParseErrV {
        ParseErrV { start: self.start as int, end: self.end as int, reason: self.reason }
    }
}

/// The view of an optional borrowed string.
pub open spec fn opt_str_view(v: Option<&str>) -> Option<Seq<char>> {
    match v {
        Some(s) => Some(s@),
        None => None,
    }
}

/// Classification of one predicate, from its identifier and, for the
/// `key = "value"` form, its value. Well-known keys become their typed
/// predicates; everything else is a generic flag or key/value pair. The
/// small fixed value sets (endianness, family, pointer width) are decoded
/// here, and a value outside them is a failure.
pub open spec fn spec_classify(key: Seq<char>, value: Option<Seq<char>>) -> Result<
    PredV,
    ParseReason,
> {
    match value {
        Some(v) => {
            if key == "target_arch"@ {
                Ok(PredV::Target(TargetPredV::Arch(v)))
            } else if key == "target_endian"@ {
                if v == "little"@ {
                    Ok(PredV::Target(TargetPredV::Endian(targets::Endian::little)))
                } else if v == "big"@ {
                    Ok(PredV::Target(TargetPredV::Endian(targets::Endian::big)))
                } else {
                    Err(ParseReason::InvalidEndian)
                }
            } else if key == "target_env"@ {
                Ok(PredV::Target(TargetPredV::Env(v)))
            } else if key == "target_family"@ {
                if v == "unix"@ {
                    Ok(PredV::Target(TargetPredV::Family(targets::Family::unix)))
                } else if v == "windows"@ {
                    Ok(PredV::Target(TargetPredV::Family(targets::Family::windows)))
                } else {
                    Err(ParseReason::InvalidFamily)
                }
            } else if key == "target_os"@ {
                Ok(PredV::Target(TargetPredV::Os(v)))
            } else if key == "target_pointer_width"@ {
                match dec_value(v) {
                    Some(n) => if n == 16 || n == 32 || n == 64 {
                        Ok(PredV::Target(TargetPredV::PointerWidth(n as u8)))
                    } else {
                        Err(ParseReason::InvalidPointerWidth)
                    },
                    None => Err(ParseReason::InvalidPointerWidth),
                }
            } else if key == "target_vendor"@ {
                Ok(PredV::Target(TargetPredV::Vendor(v)))
            } else if key == "target_feature"@ {
                Ok(PredV::TargetFeature(v))
            } else if key == "feature"@ {
                Ok(PredV::Feature(v))
            } else {
                Ok(PredV::KeyValue(key, v))
            }
        },
        None => {
            if key == "unix"@ {
                Ok(PredV::Target(TargetPredV::Family(targets::Family::unix)))
            } else if key == "windows"@ {
                Ok(PredV::Target(TargetPredV::Family(targets::Family::windows)))
            } else if key == "test"@ {
                Ok(PredV::Test)
            } else if key == "debug_assertions"@ {
                Ok(PredV::DebugAssertions)
            } else if key == "proc_macro"@ {
                Ok(PredV::ProcMacro)
            } else {
                Ok(PredV::Flag(key))
            }
        },
    }
}

/// Classify one predicate occurrence.
fn classify(key: &str, value: Option<&str>) -> (r: Result<Predicate, ParseReason>)
    ensures
        match r {
            Ok(p) => spec_classify(key@, opt_str_view(value)) == Ok::<PredV, ParseReason>(p@),
            Err(e) => spec_classify(key@, opt_str_view(value)) == Err::<PredV, ParseReason>(e),
        },
{
    match value {
        Some(v) => {
            if str_eq(key, "target_arch") {
                Ok(Predicate::Target(TargetPredicate::Arch(targets::Arch(v.to_owned()))))
            } else if str_eq(key, "target_endian") {
                if str_eq(v, "little") {
                    Ok(Predicate::Target(TargetPredicate::Endian(targets::Endian::little)))
                } else if str_eq(v, "big") {
                    Ok(Predicate::Target(TargetPredicate::Endian(targets::Endian::big)))
                } else {
                    Err(ParseReason::InvalidEndian)
                }
            } else if str_eq(key, "target_env") {
                Ok(Predicate::Target(TargetPredicate::Env(targets::Env(v.to_owned()))))
            } else if str_eq(key, "target_family") {
                if str_eq(v, "unix") {
                    Ok(Predicate::Target(TargetPredicate::Family(targets::Family::unix)))
                } else if str_eq(v, "windows") {
                    Ok(Predicate::Target(TargetPredicate::Family(targets::Family::windows)))
                } else {
                    Err(ParseReason::InvalidFamily)
                }
            } else if str_eq(key, "target_os") {
                Ok(Predicate::Target(TargetPredicate::Os(targets::Os(v.to_owned()))))
            } else if str_eq(key, "target_pointer_width") {
                match dec_u8(v) {
                    Some(n) => {
                        if n == 16 || n == 32 || n == 64 {
                            Ok(Predicate::Target(TargetPredicate::PointerWidth(n)))
                        } else {
                            Err(ParseReason::InvalidPointerWidth)
                        }
                    },
                    None => Err(ParseReason::InvalidPointerWidth),
                }
            } else if str_eq(key, "target_vendor") {
                Ok(Predicate::Target(TargetPredicate::Vendor(targets::Vendor(v.to_owned()))))
            } else if str_eq(key, "target_feature") {
                Ok(Predicate::TargetFeature(v.to_owned()))
            } else if str_eq(key, "feature") {
                Ok(Predicate::Feature(v.to_owned()))
            } else {
                Ok(Predicate::KeyValue { key: key.to_owned(), val: v.to_owned() })
            }
        },
        None => {
            if str_eq(key, "unix") {
                Ok(Predicate::Target(TargetPredicate::Family(targets::Family::unix)))
            } else if str_eq(key, "windows") {
                Ok(Predicate::Target(TargetPredicate::Family(targets::Family::windows)))
            } else if str_eq(key, "test") {
                Ok(Predicate::Test)
            } else if str_eq(key, "debug_assertions") {
                Ok(Predicate::DebugAssertions)
            } else if str_eq(key, "proc_macro") {
                Ok(Predicate::ProcMacro)
            } else {
                Ok(Predicate::Flag(key.to_owned()))
            }
        },
    }
}

/// A failure reported at a token.
pub open spec fn err_at(t: TokenV, reason: ParseReason) -> ParseErrV {
    ParseErrV { start: t.start, end: t.end, reason }
}

/// A failure at a bare offset; only produced on paths that a token stream
/// ending with the end-of-input token never reaches.
pub open spec fn off_err(i: int) -> ParseErrV {
    ParseErrV { start: i, end: i, reason: ParseReason::UnexpectedToken }
}

/// One expression, starting at token `i`: the postfix fragment it emits
/// and the index of the first token after it.
pub open spec fn spec_parse_expr(ts: Seq<TokenV>, i: int) -> Result<(Seq<NodeV>, int), ParseErrV>
    decreases ts.len() - i, 0int
        when 0 <= i <= ts.len()
{
    if i >= ts.len() {
        Err(off_err(i))
    } else {
        match ts[i].tok {
            TokV::Ident(name) => {
                if name == "not"@ || name == "all"@ || name == "any"@ {
                    if i + 1 >= ts.len() {
                        Err(off_err(i + 1))
                    } else if !(ts[i + 1].tok is OpenParen) {
                        Err(err_at(ts[i + 1], ParseReason::UnexpectedToken))
                    } else if name == "not"@ {
                        match spec_parse_expr(ts, i + 2) {
                            Err(e) => Err(e),
                            Ok((f, j)) => {
                                if !(0 <= j < ts.len()) {
                                    Err(off_err(j))
                                } else if ts[j].tok is CloseParen {
                                    Ok((f.push(NodeV::Fn(Func::Not)), j + 1))
                                } else if ts[j].tok is End {
                                    Err(err_at(ts[j], ParseReason::UnbalancedParens))
                                } else {
                                    Err(err_at(ts[j], ParseReason::UnexpectedToken))
                                }
                            },
                        }
                    } else {
                        if i + 2 < ts.len() && ts[i + 2].tok is CloseParen {
                            Ok(
                                (
                                    seq![
                                        NodeV::Fn(
                                            if name == "all"@ {
                                                Func::All(0)
                                            } else {
                                                Func::Any(0)
                                            },
                                        ),
                                    ],
                                    i + 3,
                                ),
                            )
                        } else {
                            match spec_parse_list(ts, i + 2) {
                                Err(e) => Err(e),
                                Ok((f, cnt, j)) => Ok(
                                    (
                                        f.push(
                                            NodeV::Fn(
                                                if name == "all"@ {
                                                    Func::All(cnt as usize)
                                                } else {
                                                    Func::Any(cnt as usize)
                                                },
                                            ),
                                        ),
                                        j,
                                    ),
                                ),
                            }
                        }
                    }
                } else {
                    if i + 1 < ts.len() && ts[i + 1].tok is Equals {
                        if i + 2 >= ts.len() {
                            Err(off_err(i + 2))
                        } else {
                            match ts[i + 2].tok {
                                TokV::StrLit(v) => match spec_classify(name, Some(v)) {
                                    Ok(p) => Ok((seq![NodeV::Pred(p)], i + 3)),
                                    Err(reason) => Err(err_at(ts[i + 2], reason)),
                                },
                                _ => Err(err_at(ts[i + 2], ParseReason::UnexpectedToken)),
                            }
                        }
                    } else {
                        match spec_classify(name, None) {
                            Ok(p) => Ok((seq![NodeV::Pred(p)], i + 1)),
                            Err(reason) => Err(err_at(ts[i], reason)),
                        }
                    }
                }
            },
            TokV::End => Err(err_at(ts[i], ParseReason::Empty)),
            _ => Err(err_at(ts[i], ParseReason::UnexpectedToken)),
        }
    }
}

/// One or more comma-separated expressions followed by the closing
/// parenthesis: the concatenated fragments, how many expressions there
/// were, and the index after the closing parenthesis.
pub open spec fn spec_parse_list(ts: Seq<TokenV>, i: int) -> Result<
    (Seq<NodeV>, int, int),
    ParseErrV,
>
    decreases ts.len() - i, 1int
        when 0 <= i <= ts.len()
{
    match spec_parse_expr(ts, i) {
        Err(e) => Err(e),
        Ok((f, j)) => {
            if !(i < j && j < ts.len()) {
                Err(off_err(j))
            } else {
                match ts[j].tok {
                    TokV::Comma => match spec_parse_list(ts, j + 1) {
                        Err(e) => Err(e),
                        Ok((f2, c2, k)) => Ok((f + f2, c2 + 1, k)),
                    },
                    TokV::CloseParen => Ok((f, 1, j + 1)),
                    TokV::End => Err(err_at(ts[j], ParseReason::UnbalancedParens)),
                    _ => Err(err_at(ts[j], ParseReason::UnexpectedToken)),
                }
            }
        },
    }
}

/// The whole token stream as one expression: exactly one top-level
/// expression is permitted, and the end-of-input token must follow it.
pub open spec fn spec_parse_tokens(ts: Seq<TokenV>) -> Result<Seq<NodeV>, ParseErrV> {
    match spec_parse_expr(ts, 0) {
        Err(e) => Err(e),
        Ok((nodes, j)) => {
            if !(0 <= j < ts.len()) {
                Err(off_err(j))
            } else if ts[j].tok is End {
                Ok(nodes)
            } else if ts[j].tok is CloseParen {
                Err(err_at(ts[j], ParseReason::UnbalancedParens))
            } else {
                Err(err_at(ts[j], ParseReason::MultipleRootExpressions))
            }
        },
    }
}

/// What parsing the text yields: the postfix sequence of the one
/// expression it holds, or the first failure.
pub open spec fn spec_parse(s: Seq<char>) -> Result<Seq<NodeV>, ParseErrV> {
    match lexer::spec_lex_all(s, 0) {
        Err(le) => Err(
            ParseErrV { start: le.start, end: le.end, reason: ParseReason::Lex(le.reason) },
        ),
        Ok(ts) => spec_parse_tokens(ts),
    }
}

/// A fragment of one node that pops nothing is well formed.
proof fn lemma_frag_single(x: NodeV)
    requires
        node_pops(x) == 0,
    ensures
        safe(seq![x], 0),
        net(seq![x]) == 1,
{
    assert(seq![x].drop_first() =~= Seq::<NodeV>::empty());
    assert(net(Seq::<NodeV>::empty()) == 0);
    assert(safe(Seq::<NodeV>::empty(), 1));
}

/// Appending a combinator that consumes exactly the fragment's net stack
/// growth yields a well-formed fragment again.
proof fn lemma_frag_push(f: Seq<NodeV>, x: NodeV)
    requires
        safe(f, 0),
        net(f) == node_pops(x),
    ensures
        safe(f.push(x), 0),
        net(f.push(x)) == 1,
{
    assert(f.push(x) =~= f + seq![x]);
    assert(seq![x].drop_first() =~= Seq::<NodeV>::empty());
    assert(net(Seq::<NodeV>::empty()) == 0);
    assert(safe(Seq::<NodeV>::empty(), 1));
    lemma_net_concat(f, seq![x]);
    lemma_safe_concat(f, seq![x], 0);
}

/// Parse one expression starting at token `i`, appending its postfix
/// fragment to `buf`.
fn parse_expr(toks: &Vec<Token>, i: usize, buf: &mut Vec<ExprNode>) -> (r: Result<
    usize,
    ParseError,
>)
    requires
        i <= toks@.len(),
    ensures
        match r {
            Ok(j) => {
                &&& i < j <= toks@.len()
                &&& old(buf)@.len() <= final(buf)@.len()
                &&& final(buf)@.take(old(buf)@.len() as int) == old(buf)@
                &&& spec_parse_expr(tokens_view(toks@), i as int) == Ok::<
                    (Seq<NodeV>, int),
                    ParseErrV,
                >((nodes_view(final(buf)@.skip(old(buf)@.len() as int)), j as int))
                &&& safe(nodes_view(final(buf)@.skip(old(buf)@.len() as int)), 0)
                &&& net(nodes_view(final(buf)@.skip(old(buf)@.len() as int))) == 1
            },
            Err(e) => spec_parse_expr(tokens_view(toks@), i as int) == Err::<
                (Seq<NodeV>, int),
                ParseErrV,
            >(e@),
        },
    decreases toks@.len() - i, 0int,
{
    let ghost ts = tokens_view(toks@);
    let ghost mark = buf@.len() as int;
    if i >= toks.len() {
        return Err(ParseError { start: i, end: i, reason: ParseReason::UnexpectedToken });
    }
    proof {
        assert(ts[i as int] == toks@[i as int]@);
    }
    let (t_start, t_end) = (toks[i].start, toks[i].end);
    match &toks[i].kind {
        TokenKind::Ident(name) => {
            let is_not = str_eq(name.as_str(), "not");
            let is_all = str_eq(name.as_str(), "all");
            let is_any = str_eq(name.as_str(), "any");
            if is_not || is_all || is_any {
                if i + 1 >= toks.len() {
                    return Err(
                        ParseError { start: i + 1, end: i + 1, reason: ParseReason::UnexpectedToken },
                    );
                }
                proof {
                    assert(ts[i as int + 1] == toks@[i as int + 1]@);
                }
                let open_ok = match &toks[i + 1].kind {
                    TokenKind::OpenParen => true,
                    _ => false,
                };
                if !open_ok {
                    return Err(
                        ParseError {
                            start: toks[i + 1].start,
                            end: toks[i + 1].end,
                            reason: ParseReason::UnexpectedToken,
                        },
                    );
                }
                if is_not {
                    let j = match parse_expr(toks, i + 2, buf) {
                        Ok(j) => j,
                        Err(e) => {
                            return Err(e);
                        },
                    };
                    let ghost frag = nodes_view(buf@.skip(mark));
                    if j >= toks.len() {
                        return Err(
                            ParseError { start: j, end: j, reason: ParseReason::UnexpectedToken },
                        );
                    }
                    proof {
                        assert(ts[j as int] == toks@[j as int]@);
                    }
                    match &toks[j].kind {
                        TokenKind::CloseParen => {
                            let ghost pre = buf@;
                            buf.push(ExprNode::Fn(Func::Not));
                            proof {
                                assert(buf@.take(mark) =~= pre.take(mark));
                                assert(buf@.skip(mark) =~= pre.skip(mark).push(
                                    ExprNode::Fn(Func::Not),
                                ));
                                assert(nodes_view(buf@.skip(mark)) =~= frag.push(
                                    NodeV::Fn(Func::Not),
                                ));
                                lemma_frag_push(frag, NodeV::Fn(Func::Not));
                            }
                            Ok(j + 1)
                        },
                        TokenKind::End => Err(
                            ParseError {
                                start: toks[j].start,
                                end: toks[j].end,
                                reason: ParseReason::UnbalancedParens,
                            },
                        ),
                        _ => Err(
                            ParseError {
                                start: toks[j].start,
                                end: toks[j].end,
                                reason: ParseReason::UnexpectedToken,
                            },
                        ),
                    }
                } else {
                    let empty_list = if i + 2 < toks.len() {
                        proof {
                            assert(ts[i as int + 2] == toks@[i as int + 2]@);
                        }
                        match &toks[i + 2].kind {
                            TokenKind::CloseParen => true,
                            _ => false,
                        }
                    } else {
                        false
                    };
                    if empty_list {
                        let node = if is_all {
                            Func::All(0)
                        } else {
                            Func::Any(0)
                        };
                        let ghost pre = buf@;
                        buf.push(ExprNode::Fn(node));
                        proof {
                            assert(buf@.take(mark) =~= pre.take(mark));
                            assert(buf@.skip(mark) =~= seq![ExprNode::Fn(node)]);
                            assert(nodes_view(buf@.skip(mark)) =~= seq![NodeV::Fn(node)]);
                            lemma_frag_single(NodeV::Fn(node));
                        }
                        Ok(i + 3)
                    } else {
                        let (cnt, j) = match parse_list(toks, i + 2, buf) {
                            Ok(p) => p,
                            Err(e) => {
                                return Err(e);
                            },
                        };
                        let ghost frag = nodes_view(buf@.skip(mark));
                        let node = if is_all {
                            Func::All(cnt)
                        } else {
                            Func::Any(cnt)
                        };
                        let ghost pre = buf@;
                        buf.push(ExprNode::Fn(node));
                        proof {
                            assert(buf@.take(mark) =~= pre.take(mark));
                            assert(buf@.skip(mark) =~= pre.skip(mark).push(ExprNode::Fn(node)));
                            assert(nodes_view(buf@.skip(mark)) =~= frag.push(NodeV::Fn(node)));
                            lemma_frag_push(frag, NodeV::Fn(node));
                        }
                        Ok(j)
                    }
                }
            } else {
                let has_eq = if i + 1 < toks.len() {
                    proof {
                        assert(ts[i as int + 1] == toks@[i as int + 1]@);
                    }
                    match &toks[i + 1].kind {
                        TokenKind::Equals => true,
                        _ => false,
                    }
                } else {
                    false
                };
                if has_eq {
                    if i + 2 >= toks.len() {
                        return Err(
                            ParseError {
                                start: i + 2,
                                end: i + 2,
                                reason: ParseReason::UnexpectedToken,
                            },
                        );
                    }
                    proof {
                        assert(ts[i as int + 2] == toks@[i as int + 2]@);
                    }
                    let (v_start, v_end) = (toks[i + 2].start, toks[i + 2].end);
                    match &toks[i + 2].kind {
                        TokenKind::StrLit(v) => {
                            match classify(name.as_str(), Some(v.as_str())) {
                                Ok(p) => {
                                    let ghost pre = buf@;
                                    let ghost pv = p@;
                                    buf.push(ExprNode::Predicate(p));
                                    proof {
                                        assert(buf@.take(mark) =~= pre.take(mark));
                                        assert(buf@.skip(mark) =~= seq![buf@.last()]);
                                        assert(nodes_view(buf@.skip(mark)) =~= seq![
                                            NodeV::Pred(pv),
                                        ]);
                                        lemma_frag_single(NodeV::Pred(pv));
                                    }
                                    Ok(i + 3)
                                },
                                Err(reason) => Err(
                                    ParseError { start: v_start, end: v_end, reason },
                                ),
                            }
                        },
                        _ => Err(
                            ParseError {
                                start: v_start,
                                end: v_end,
                                reason: ParseReason::UnexpectedToken,
                            },
                        ),
                    }
                } else {
                    match classify(name.as_str(), None) {
                        Ok(p) => {
                            let ghost pre = buf@;
                            let ghost pv = p@;
                            buf.push(ExprNode::Predicate(p));
                            proof {
                                assert(buf@.take(mark) =~= pre.take(mark));
                                assert(buf@.skip(mark) =~= seq![buf@.last()]);
                                assert(nodes_view(buf@.skip(mark)) =~= seq![NodeV::Pred(pv)]);
                                lemma_frag_single(NodeV::Pred(pv));
                            }
                            Ok(i + 1)
                        },
                        Err(reason) => Err(ParseError { start: t_start, end: t_end, reason }),
                    }
                }
            }
        },
        TokenKind::End => Err(
            ParseError { start: t_start, end: t_end, reason: ParseReason::Empty },
        ),
        _ => Err(ParseError { start: t_start, end: t_end, reason: ParseReason::UnexpectedToken }),
    }
}

/// Parse one or more comma-separated expressions and the closing
/// parenthesis, appending their fragments to `buf`; returns how many
/// expressions there were and the index after the closing parenthesis.
fn parse_list(toks: &Vec<Token>, i: usize, buf: &mut Vec<ExprNode>) -> (r: Result<
    (usize, usize),
    ParseError,
>)
    requires
        i <= toks@.len(),
    ensures
        match r {
            Ok((cnt, j)) => {
                &&& i < j <= toks@.len()
                &&& 1 <= cnt as int <= j - i
                &&& old(buf)@.len() <= final(buf)@.len()
                &&& final(buf)@.take(old(buf)@.len() as int) == old(buf)@
                &&& spec_parse_list(tokens_view(toks@), i as int) == Ok::<
                    (Seq<NodeV>, int, int),
                    ParseErrV,
                >((nodes_view(final(buf)@.skip(old(buf)@.len() as int)), cnt as int, j as int))
                &&& safe(nodes_view(final(buf)@.skip(old(buf)@.len() as int)), 0)
                &&& net(nodes_view(final(buf)@.skip(old(buf)@.len() as int))) == cnt as int
            },
            Err(e) => spec_parse_list(tokens_view(toks@), i as int) == Err::<
                (Seq<NodeV>, int, int),
                ParseErrV,
            >(e@),
        },
    decreases toks@.len() - i, 1int,
{
    let ghost ts = tokens_view(toks@);
    let ghost mark = buf@.len() as int;
    let j = match parse_expr(toks, i, buf) {
        Ok(j) => j,
        Err(e) => {
            return Err(e);
        },
    };
    let ghost buf1 = buf@;
    let ghost frag1 = nodes_view(buf1.skip(mark));
    if j >= toks.len() {
        return Err(ParseError { start: j, end: j, reason: ParseReason::UnexpectedToken });
    }
    proof {
        assert(ts[j as int] == toks@[j as int]@);
    }
    let (t_start, t_end) = (toks[j].start, toks[j].end);
    match &toks[j].kind {
        TokenKind::Comma => {
            let (cnt2, k) = match parse_list(toks, j + 1, buf) {
                Ok(p) => p,
                Err(e) => {
                    return Err(e);
                },
            };
            let ghost frag2 = nodes_view(buf@.skip(buf1.len() as int));
            proof {
                assert(buf@.take(mark) =~= buf1.take(mark));
                assert(buf@.skip(mark) =~= buf1.skip(mark) + buf@.skip(buf1.len() as int));
                assert(nodes_view(buf@.skip(mark)) =~= frag1 + frag2);
                lemma_net_concat(frag1, frag2);
                lemma_safe_weaken(frag2, 0, 1);
                lemma_safe_concat(frag1, frag2, 0);
            }
            Ok((cnt2 + 1, k))
        },
        TokenKind::CloseParen => Ok((1, j + 1)),
        TokenKind::End => Err(
            ParseError { start: t_start, end: t_end, reason: ParseReason::UnbalancedParens },
        ),
        _ => Err(ParseError { start: t_start, end: t_end, reason: ParseReason::UnexpectedToken }),
    }
}

impl Expression {
    /// Parses a configuration expression: exactly one top-level expression,
    /// with insignificant surrounding whitespace. On success the returned
    /// expression holds the original text and the postfix sequence of the
    /// grammar's one derivation of it; on failure the error carries the
    /// reason and the span of byte offsets it points at.
    pub fn parse(original: &str) -> (r: Result<Expression, ParseError>)
        ensures
            match r {
                Ok(e) => {
                    &&& spec_parse(original@) == Ok::<Seq<NodeV>, ParseErrV>(e.nodes_view())
                    &&& e.text() == original@
                },
                Err(pe) => spec_parse(original@) == Err::<Seq<NodeV>, ParseErrV>(pe@),
            },
    {
        let toks = match lexer::lex_all(original) {
            Ok(t) => t,
            Err(le) => {
                return Err(
                    ParseError { start: le.start, end: le.end, reason: ParseReason::Lex(le.reason) },
                );
            },
        };
        let ghost ts = tokens_view(toks@);
        let mut buf: Vec<ExprNode> = Vec::new();
        let j = match parse_expr(&toks, 0, &mut buf) {
            Ok(j) => j,
            Err(e) => {
                return Err(e);
            },
        };
        proof {
            assert(buf@.skip(0) =~= buf@);
        }
        if j >= toks.len() {
            return Err(ParseError { start: j, end: j, reason: ParseReason::UnexpectedToken });
        }
        proof {
            assert(ts[j as int] == toks@[j as int]@);
        }
        let (t_start, t_end) = (toks[j].start, toks[j].end);
        match &toks[j].kind {
            TokenKind::End => {
                proof {
                    assert(wf_postfix(nodes_view(buf@)));
                }
                Ok(Expression::assemble(buf, original.to_owned()))
            },
            TokenKind::CloseParen => Err(
                ParseError { start: t_start, end: t_end, reason: ParseReason::UnbalancedParens },
            ),
            _ => Err(
                ParseError {
                    start: t_start,
                    end: t_end,
                    reason: ParseReason::MultipleRootExpressions,
                },
            ),
        }
    }
}

} // verus!
