//! The grammar of Volt as functions of the token list: what parsing from a
//! position gives (a tree and the position after it, or the first error
//! message). Positions and token reads follow the parser: past the end, the
//! current token is the last one, `Eof`, and reading it stays there.

use vstd::prelude::*;
use crate::syntax::ast::{
    span_of, AttributeV, AttributeValueV, BinaryOp, ComponentDeclV, ComputedDeclV, ElementNodeV, EventBindingV,
    ExprV, ExternBlockV, ExternFnDeclV, FnDeclV, ProgramV, RenderBlockV, SignalDeclV, StmtV, TemplateNodeV,
    TopLevelItemV, TypeV, UnaryOp, AssignOperator,
};
use crate::syntax::parser::binop_of;
use crate::syntax::token::{kind_text, kindv_text, KindV, Span, TokenKind};
use crate::text::decimal;

verus! {

/// Positions in a token list that ends with `Eof`.
pub open spec fn ok_pos(ts: Seq<(KindV, Span)>, i: int) -> bool {
    ts.len() > 0 && ts.last().0 == KindV::Plain(TokenKind::Eof) && 0 <= i <= ts.len()
}

/// The token at `i`: the last one once all are read.
pub open spec fn tok(ts: Seq<(KindV, Span)>, i: int) -> (KindV, Span) {
    if 0 <= i < ts.len() {
        ts[i]
    } else {
        ts.last()
    }
}

/// The position after reading the token at `i` (unchanged past the end).
pub open spec fn adv(ts: Seq<(KindV, Span)>, i: int) -> int {
    if i < ts.len() {
        i + 1
    } else {
        i
    }
}

/// The token at `i` is of kind `k`.
pub open spec fn is_k(ts: Seq<(KindV, Span)>, i: int, k: TokenKind) -> bool {
    tok(ts, i).0 == k@
}

/// The token at `i` is `Eof`.
pub open spec fn at_eof(ts: Seq<(KindV, Span)>, i: int) -> bool {
    tok(ts, i).0 == KindV::Plain(TokenKind::Eof)
}

/// A span from the start of `a` to the end of `b`.
pub open spec fn join(a: Span, b: Span) -> Span {
    Span { start: a.start, end: b.end, line: a.line, col: a.col }
}

/// The message `<prefix><token><middle><line>:<col>` for the token at `i`.
pub open spec fn msg_at(ts: Seq<(KindV, Span)>, i: int, prefix: Seq<char>, middle: Seq<char>) -> Seq<char> {
    prefix + kindv_text(tok(ts, i).0) + middle + decimal(tok(ts, i).1.line as nat) + ":"@ + decimal(
        tok(ts, i).1.col as nat,
    )
}

/// The message for a token other than the one expected.
pub open spec fn expected_message_v(expected: TokenKind, found: (KindV, Span)) -> Seq<char> {
    "Expected '"@ + kind_text(expected) + "', but found '"@ + kindv_text(found.0) + "' at "@ + decimal(
        found.1.line as nat,
    ) + ":"@ + decimal(found.1.col as nat)
}

/// The message for a token that is not an identifier where one is expected.
pub open spec fn expected_ident_message_v(found: (KindV, Span)) -> Seq<char> {
    "Expected identifier, but found '"@ + kindv_text(found.0) + "' at "@ + decimal(found.1.line as nat) + ":"@
        + decimal(found.1.col as nat)
}

/// The binary operator of a token, with its precedence (see `binop_of`).
pub open spec fn binop_of_v(k: KindV) -> Option<(BinaryOp, u8)> {
    match k {
        KindV::Plain(p) => binop_of(p),
        _ => None,
    }
}

/// Reads a token of kind `k`.
pub open spec fn expect_s(ts: Seq<(KindV, Span)>, i: int, k: TokenKind) -> Result<((KindV, Span), int), Seq<char>> {
    if is_k(ts, i, k) {
        Ok((tok(ts, i), adv(ts, i)))
    } else {
        Err(expected_message_v(k, tok(ts, i)))
    }
}

/// The message for a token other than the closing tag `</tag>`.
pub open spec fn expected_close_message(tag: Seq<char>, found: (KindV, Span)) -> Seq<char> {
    "Expected '"@ + (seq!['<', '/'] + tag + seq!['>']) + "', but found '"@ + kindv_text(found.0) + "' at "@
        + decimal(found.1.line as nat) + ":"@ + decimal(found.1.col as nat)
}

/// Reads the closing tag `</tag>`.
pub open spec fn close_s(ts: Seq<(KindV, Span)>, i: int, tag: Seq<char>) -> Result<((KindV, Span), int), Seq<char>> {
    if tok(ts, i).0 == KindV::TagClose(tag) {
        Ok((tok(ts, i), adv(ts, i)))
    } else {
        Err(expected_close_message(tag, tok(ts, i)))
    }
}

/// Reads an identifier: its name and span.
pub open spec fn ident_s(ts: Seq<(KindV, Span)>, i: int) -> Result<(Seq<char>, Span, int), Seq<char>> {
    match tok(ts, i).0 {
        KindV::Ident(n) => Ok((n, tok(ts, i).1, adv(ts, i))),
        _ => Err(expected_ident_message_v(tok(ts, i))),
    }
}

/// A type: a primitive name, `Option<T>`, `Result<T, E>`, or a custom name.
pub open spec fn type_s(ts: Seq<(KindV, Span)>, i: int) -> Result<(TypeV, int), Seq<char>>
    decreases ts.len() - i,
{
    if !ok_pos(ts, i) {
        Err(Seq::empty())
    } else {
        match ident_s(ts, i) {
            Err(m) => Err(m),
            Ok((name, _, j)) => if name == "i32"@ {
                Ok((TypeV::I32, j))
            } else if name == "i64"@ {
                Ok((TypeV::I64, j))
            } else if name == "u32"@ {
                Ok((TypeV::U32, j))
            } else if name == "u64"@ {
                Ok((TypeV::U64, j))
            } else if name == "f32"@ {
                Ok((TypeV::F32, j))
            } else if name == "f64"@ {
                Ok((TypeV::F64, j))
            } else if name == "bool"@ {
                Ok((TypeV::Bool, j))
            } else if name == "string"@ {
                Ok((TypeV::String, j))
            } else if name == "void"@ {
                Ok((TypeV::Void, j))
            } else if name == "Option"@ {
                match expect_s(ts, j, TokenKind::Lt) {
                    Err(m) => Err(m),
                    Ok((_, j2)) => match type_s(ts, j2) {
                        Err(m) => Err(m),
                        Ok((inner, j3)) => match expect_s(ts, j3, TokenKind::Gt) {
                            Err(m) => Err(m),
                            Ok((_, j4)) => Ok((TypeV::Option(Box::new(inner)), j4)),
                        },
                    },
                }
            } else if name == "Result"@ {
                match expect_s(ts, j, TokenKind::Lt) {
                    Err(m) => Err(m),
                    Ok((_, j2)) => match type_s(ts, j2) {
                        Err(m) => Err(m),
                        Ok((ok, j3)) => match expect_s(ts, j3, TokenKind::Comma) {
                            Err(m) => Err(m),
                            Ok((_, j4)) => if !(i < j4 <= ts.len()) {
                                Err(Seq::empty())
                            } else {
                                match type_s(ts, j4) {
                                    Err(m) => Err(m),
                                    Ok((err, j5)) => match expect_s(ts, j5, TokenKind::Gt) {
                                        Err(m) => Err(m),
                                        Ok((_, j6)) => Ok((TypeV::Result(Box::new(ok), Box::new(err)), j6)),
                                    },
                                }
                            },
                        },
                    },
                }
            } else {
                Ok((TypeV::Custom(name), j))
            },
        }
    }
}

/// The tokens by which a type is written: its name; `Option`, `<`, the
/// inner type and `>`; or `Result`, `<`, the two types with `,` between them,
/// and `>`.
pub open spec fn type_tokens(t: TypeV) -> Seq<KindV>
    decreases t,
{
    match t {
        TypeV::I32 => seq![KindV::Ident("i32"@)],
        TypeV::I64 => seq![KindV::Ident("i64"@)],
        TypeV::U32 => seq![KindV::Ident("u32"@)],
        TypeV::U64 => seq![KindV::Ident("u64"@)],
        TypeV::F32 => seq![KindV::Ident("f32"@)],
        TypeV::F64 => seq![KindV::Ident("f64"@)],
        TypeV::Bool => seq![KindV::Ident("bool"@)],
        TypeV::String => seq![KindV::Ident("string"@)],
        TypeV::Void => seq![KindV::Ident("void"@)],
        TypeV::Option(x) => seq![KindV::Ident("Option"@), KindV::Plain(TokenKind::Lt)] + type_tokens(*x) + seq![
            KindV::Plain(TokenKind::Gt),
        ],
        TypeV::Result(a, b) => seq![KindV::Ident("Result"@), KindV::Plain(TokenKind::Lt)] + type_tokens(*a) + seq![
            KindV::Plain(TokenKind::Comma),
        ] + type_tokens(*b) + seq![KindV::Plain(TokenKind::Gt)],
        TypeV::Custom(n) => seq![KindV::Ident(n)],
    }
}

/// The names that a type reads as built in.
pub open spec fn builtin_type_name(n: Seq<char>) -> bool {
    n == "i32"@ || n == "i64"@ || n == "u32"@ || n == "u64"@ || n == "f32"@ || n == "f64"@ || n == "bool"@
        || n == "string"@ || n == "void"@ || n == "Option"@ || n == "Result"@
}

/// Every custom name in the type is not a built-in one.
pub open spec fn custom_names_plain(t: TypeV) -> bool
    decreases t,
{
    match t {
        TypeV::Option(x) => custom_names_plain(*x),
        TypeV::Result(a, b) => custom_names_plain(*a) && custom_names_plain(*b),
        TypeV::Custom(n) => !builtin_type_name(n),
        _ => true,
    }
}

/// The token list holds the kinds `ks` from position `i` on.
pub open spec fn holds_at(ts: Seq<(KindV, Span)>, i: int, ks: Seq<KindV>) -> bool {
    &&& 0 <= i
    &&& i + ks.len() <= ts.len()
    &&& forall|k: int| 0 <= k < ks.len() ==> #[trigger] ts[i + k].0 == ks[k]
}

/// The built-in type names are all different.
proof fn lemma_type_names_differ()
    ensures
        "i64"@ != "i32"@,
        "u32"@ != "i32"@,
        "u64"@ != "i32"@,
        "f32"@ != "i32"@,
        "f64"@ != "i32"@,
        "bool"@ != "i32"@,
        "string"@ != "i32"@,
        "void"@ != "i32"@,
        "Option"@ != "i32"@,
        "Result"@ != "i32"@,
        "u32"@ != "i64"@,
        "u64"@ != "i64"@,
        "f32"@ != "i64"@,
        "f64"@ != "i64"@,
        "bool"@ != "i64"@,
        "string"@ != "i64"@,
        "void"@ != "i64"@,
        "Option"@ != "i64"@,
        "Result"@ != "i64"@,
        "u64"@ != "u32"@,
        "f32"@ != "u32"@,
        "f64"@ != "u32"@,
        "bool"@ != "u32"@,
        "string"@ != "u32"@,
        "void"@ != "u32"@,
        "Option"@ != "u32"@,
        "Result"@ != "u32"@,
        "f32"@ != "u64"@,
        "f64"@ != "u64"@,
        "bool"@ != "u64"@,
        "string"@ != "u64"@,
        "void"@ != "u64"@,
        "Option"@ != "u64"@,
        "Result"@ != "u64"@,
        "f64"@ != "f32"@,
        "bool"@ != "f32"@,
        "string"@ != "f32"@,
        "void"@ != "f32"@,
        "Option"@ != "f32"@,
        "Result"@ != "f32"@,
        "bool"@ != "f64"@,
        "string"@ != "f64"@,
        "void"@ != "f64"@,
        "Option"@ != "f64"@,
        "Result"@ != "f64"@,
        "string"@ != "bool"@,
        "void"@ != "bool"@,
        "Option"@ != "bool"@,
        "Result"@ != "bool"@,
        "void"@ != "string"@,
        "Option"@ != "string"@,
        "Result"@ != "string"@,
        "Option"@ != "void"@,
        "Result"@ != "void"@,
        "Result"@ != "Option"@,
{
    reveal_strlit("i32");
    reveal_strlit("i64");
    reveal_strlit("u32");
    reveal_strlit("u64");
    reveal_strlit("f32");
    reveal_strlit("f64");
    reveal_strlit("bool");
    reveal_strlit("string");
    reveal_strlit("void");
    reveal_strlit("Option");
    reveal_strlit("Result");
    assert("i64"@[1] != "i32"@[1]);
    assert("u32"@[0] != "i32"@[0]);
    assert("u64"@[0] != "i32"@[0]);
    assert("f32"@[0] != "i32"@[0]);
    assert("f64"@[0] != "i32"@[0]);
    assert("bool"@.len() != "i32"@.len());
    assert("string"@.len() != "i32"@.len());
    assert("void"@.len() != "i32"@.len());
    assert("Option"@.len() != "i32"@.len());
    assert("Result"@.len() != "i32"@.len());
    assert("u32"@[0] != "i64"@[0]);
    assert("u64"@[0] != "i64"@[0]);
    assert("f32"@[0] != "i64"@[0]);
    assert("f64"@[0] != "i64"@[0]);
    assert("bool"@.len() != "i64"@.len());
    assert("string"@.len() != "i64"@.len());
    assert("void"@.len() != "i64"@.len());
    assert("Option"@.len() != "i64"@.len());
    assert("Result"@.len() != "i64"@.len());
    assert("u64"@[1] != "u32"@[1]);
    assert("f32"@[0] != "u32"@[0]);
    assert("f64"@[0] != "u32"@[0]);
    assert("bool"@.len() != "u32"@.len());
    assert("string"@.len() != "u32"@.len());
    assert("void"@.len() != "u32"@.len());
    assert("Option"@.len() != "u32"@.len());
    assert("Result"@.len() != "u32"@.len());
    assert("f32"@[0] != "u64"@[0]);
    assert("f64"@[0] != "u64"@[0]);
    assert("bool"@.len() != "u64"@.len());
    assert("string"@.len() != "u64"@.len());
    assert("void"@.len() != "u64"@.len());
    assert("Option"@.len() != "u64"@.len());
    assert("Result"@.len() != "u64"@.len());
    assert("f64"@[1] != "f32"@[1]);
    assert("bool"@.len() != "f32"@.len());
    assert("string"@.len() != "f32"@.len());
    assert("void"@.len() != "f32"@.len());
    assert("Option"@.len() != "f32"@.len());
    assert("Result"@.len() != "f32"@.len());
    assert("bool"@.len() != "f64"@.len());
    assert("string"@.len() != "f64"@.len());
    assert("void"@.len() != "f64"@.len());
    assert("Option"@.len() != "f64"@.len());
    assert("Result"@.len() != "f64"@.len());
    assert("string"@.len() != "bool"@.len());
    assert("void"@[0] != "bool"@[0]);
    assert("Option"@.len() != "bool"@.len());
    assert("Result"@.len() != "bool"@.len());
    assert("void"@.len() != "string"@.len());
    assert("Option"@[0] != "string"@[0]);
    assert("Result"@[0] != "string"@[0]);
    assert("Option"@.len() != "void"@.len());
    assert("Result"@.len() != "void"@.len());
    assert("Result"@[0] != "Option"@[0]);
}

/// `Option`, `<`, a type and `>` read as an option type.
proof fn lemma_option_step(ts: Seq<(KindV, Span)>, i: int, x: TypeV, e: int)
    requires
        ok_pos(ts, i),
        i + 2 <= e < ts.len(),
        ts[i].0 == KindV::Ident("Option"@),
        ts[i + 1].0 == KindV::Plain(TokenKind::Lt),
        type_s(ts, i + 2) == Ok::<(TypeV, int), Seq<char>>((x, e)),
        ts[e].0 == KindV::Plain(TokenKind::Gt),
    ensures
        type_s(ts, i) == Ok::<(TypeV, int), Seq<char>>((TypeV::Option(Box::new(x)), e + 1)),
{
    lemma_type_names_differ();
    assert(tok(ts, i) == ts[i]);
    assert(tok(ts, i + 1) == ts[i + 1]);
    assert(tok(ts, e) == ts[e]);
}

/// `Result`, `<`, a type, `,`, a type and `>` read as a result type.
proof fn lemma_result_step(ts: Seq<(KindV, Span)>, i: int, a: TypeV, c: int, b: TypeV, e: int)
    requires
        ok_pos(ts, i),
        i + 2 <= c,
        c + 1 <= e < ts.len(),
        ts[i].0 == KindV::Ident("Result"@),
        ts[i + 1].0 == KindV::Plain(TokenKind::Lt),
        type_s(ts, i + 2) == Ok::<(TypeV, int), Seq<char>>((a, c)),
        ts[c].0 == KindV::Plain(TokenKind::Comma),
        type_s(ts, c + 1) == Ok::<(TypeV, int), Seq<char>>((b, e)),
        ts[e].0 == KindV::Plain(TokenKind::Gt),
    ensures
        type_s(ts, i) == Ok::<(TypeV, int), Seq<char>>((TypeV::Result(Box::new(a), Box::new(b)), e + 1)),
{
    lemma_type_names_differ();
    assert(tok(ts, i) == ts[i]);
    assert(tok(ts, i + 1) == ts[i + 1]);
    assert(tok(ts, c) == ts[c]);
    assert(tok(ts, e) == ts[e]);
}

/// Law: the tokens by which a type is written parse back to that type
/// (when its custom names are not built-in ones), ending right after them.
pub proof fn law_type_tokens_parse(ts: Seq<(KindV, Span)>, i: int, t: TypeV)
    requires
        ok_pos(ts, i),
        custom_names_plain(t),
        holds_at(ts, i, type_tokens(t)),
    ensures
        type_s(ts, i) == Ok::<(TypeV, int), Seq<char>>((t, i + type_tokens(t).len())),
    decreases t,
{
    let tt = type_tokens(t);
    assert(ts[i + 0].0 == tt[0]);
    assert(tok(ts, i) == ts[i]);
    match t {
        TypeV::Option(x) => {
            let tx = type_tokens(*x);
            assert(ts[i + 1].0 == tt[1]);
            assert(holds_at(ts, i + 2, tx)) by {
                assert forall|k: int| 0 <= k < tx.len() implies #[trigger] ts[i + 2 + k].0 == tx[k] by {
                    assert(tt[2 + k] == tx[k]);
                    assert(ts[i + (2 + k)].0 == tt[2 + k]);
                }
            }
            law_type_tokens_parse(ts, i + 2, *x);
            let e = i + 2 + tx.len();
            assert(ts[i + (2 + tx.len() as int)].0 == tt[2 + tx.len() as int]);
            assert(tok(ts, e).0 == KindV::Plain(TokenKind::Gt));
            lemma_option_step(ts, i, *x, e);
        },
        TypeV::Result(a, b) => {
            let ta = type_tokens(*a);
            let tb = type_tokens(*b);
            assert(ts[i + 1].0 == tt[1]);
            assert(holds_at(ts, i + 2, ta)) by {
                assert forall|k: int| 0 <= k < ta.len() implies #[trigger] ts[i + 2 + k].0 == ta[k] by {
                    assert(tt[2 + k] == ta[k]);
                    assert(ts[i + (2 + k)].0 == tt[2 + k]);
                }
            }
            law_type_tokens_parse(ts, i + 2, *a);
            let c = i + 2 + ta.len();
            assert(ts[i + (2 + ta.len() as int)].0 == tt[2 + ta.len() as int]);
            assert(tok(ts, c).0 == KindV::Plain(TokenKind::Comma));
            assert(holds_at(ts, c + 1, tb)) by {
                assert forall|k: int| 0 <= k < tb.len() implies #[trigger] ts[c + 1 + k].0 == tb[k] by {
                    assert(tt[3 + ta.len() + k] == tb[k]);
                    assert(ts[i + (3 + ta.len() + k)].0 == tt[3 + ta.len() + k]);
                }
            }
            law_type_tokens_parse(ts, c + 1, *b);
            let e = c + 1 + tb.len();
            assert(ts[i + (3 + ta.len() + tb.len() as int)].0 == tt[3 + ta.len() + tb.len() as int]);
            assert(tok(ts, e).0 == KindV::Plain(TokenKind::Gt));
            lemma_result_step(ts, i, *a, c, *b, e);
        },
        _ => {
            lemma_type_names_differ();
        },
    }
}

/// A primary expression: a literal, `-` or `!` before a primary, a
/// parenthesised expression, a name, a call `name(args)`, or a member access
/// `name.member`.
pub open spec fn primary_s(ts: Seq<(KindV, Span)>, i: int) -> Result<(ExprV, int), Seq<char>>
    decreases ts.len() - i, 0nat,
{
    if !ok_pos(ts, i) {
        Err(Seq::empty())
    } else {
        let t = tok(ts, i);
        let j = adv(ts, i);
        match t.0 {
            KindV::IntLit(n) => Ok((ExprV::IntLit(n, t.1), j)),
            KindV::FloatLit(s) => Ok((ExprV::FloatLit(s, t.1), j)),
            KindV::StringLit(s) => Ok((ExprV::StringLit(s, t.1), j)),
            KindV::Plain(TokenKind::True) => Ok((ExprV::BoolLit(true, t.1), j)),
            KindV::Plain(TokenKind::False) => Ok((ExprV::BoolLit(false, t.1), j)),
            KindV::Plain(TokenKind::Minus) => match primary_s(ts, j) {
                Err(m) => Err(m),
                Ok((e, k)) => Ok((
                    ExprV::Unary { op: UnaryOp::Neg, expr: Box::new(e), span: join(t.1, span_of(e)) },
                    k,
                )),
            },
            KindV::Plain(TokenKind::Not) => match primary_s(ts, j) {
                Err(m) => Err(m),
                Ok((e, k)) => Ok((
                    ExprV::Unary { op: UnaryOp::Not, expr: Box::new(e), span: join(t.1, span_of(e)) },
                    k,
                )),
            },
            KindV::Plain(TokenKind::OpenParen) => match expr_s(ts, j, 0) {
                Err(m) => Err(m),
                Ok((e, k)) => match expect_s(ts, k, TokenKind::CloseParen) {
                    Err(m) => Err(m),
                    Ok((_, k2)) => Ok((e, k2)),
                },
            },
            KindV::Ident(name) => if is_k(ts, j, TokenKind::OpenParen) {
                match args_s(ts, adv(ts, j)) {
                    Err(m) => Err(m),
                    Ok((args, k)) => match expect_s(ts, k, TokenKind::CloseParen) {
                        Err(m) => Err(m),
                        Ok((et, k2)) => Ok((ExprV::Call { callee: name, args, span: join(t.1, et.1) }, k2)),
                    },
                }
            } else if is_k(ts, j, TokenKind::Dot) {
                match ident_s(ts, adv(ts, j)) {
                    Err(m) => Err(m),
                    Ok((member, ms, k)) => Ok((
                        ExprV::MemberAccess {
                            object: Box::new(ExprV::Ident(name, t.1)),
                            member,
                            span: join(t.1, ms),
                        },
                        k,
                    )),
                }
            } else {
                Ok((ExprV::Ident(name, t.1), j))
            },
            _ => Err(msg_at(ts, i, "Unexpected token '"@, "' in expression at "@)),
        }
    }
}

/// The binary operators after `left`, read while they bind at least as
/// tightly as `min`; each takes as right operand the expression of the
/// operators that bind more tightly, so equal precedence groups to the left.
pub open spec fn binary_tail_s(ts: Seq<(KindV, Span)>, i: int, left: ExprV, min: u8) -> Result<(ExprV, int), Seq<char>>
    decreases ts.len() - i, 1nat,
{
    if !ok_pos(ts, i) {
        Err(Seq::empty())
    } else {
        match binop_of_v(tok(ts, i).0) {
            None => Ok((left, i)),
            Some((op, prec)) => if prec < min {
                Ok((left, i))
            } else {
                match expr_s(ts, adv(ts, i), (prec + 1) as u8) {
                    Err(m) => Err(m),
                    Ok((right, k)) => if !(i < k <= ts.len()) {
                        Err(Seq::empty())
                    } else {
                        binary_tail_s(
                            ts,
                            k,
                            ExprV::Binary {
                                op,
                                left: Box::new(left),
                                right: Box::new(right),
                                span: join(span_of(left), span_of(right)),
                            },
                            min,
                        )
                    },
                }
            },
        }
    }
}

/// An expression whose binary operators bind at least as tightly as `min`.
pub open spec fn expr_s(ts: Seq<(KindV, Span)>, i: int, min: u8) -> Result<(ExprV, int), Seq<char>>
    decreases ts.len() - i, 2nat,
{
    if !ok_pos(ts, i) {
        Err(Seq::empty())
    } else {
        match primary_s(ts, i) {
            Err(m) => Err(m),
            Ok((left, j)) => if !(i < j <= ts.len()) {
                Err(Seq::empty())
            } else {
                binary_tail_s(ts, j, left, min)
            },
        }
    }
}

/// Identifier operands `a`, `b`, `c` at `i`, `i + 2` and `i + 4`, operator
/// tokens `o1` and `o2` between them, and after them a token that neither
/// continues an operand nor is a binary operator.
pub open spec fn operand_shape(ts: Seq<(KindV, Span)>, i: int, o1: TokenKind, o2: TokenKind) -> bool {
    &&& ok_pos(ts, i)
    &&& i + 5 < ts.len()
    &&& ts[i].0 is Ident
    &&& ts[i + 2].0 is Ident
    &&& ts[i + 4].0 is Ident
    &&& ts[i + 1].0 == KindV::Plain(o1)
    &&& ts[i + 3].0 == KindV::Plain(o2)
    &&& binop_of_v(ts[i + 5].0) is None
    &&& ts[i + 5].0 != KindV::Plain(TokenKind::OpenParen)
    &&& ts[i + 5].0 != KindV::Plain(TokenKind::Dot)
}

/// The additive operator tokens.
pub open spec fn additive_tok(k: TokenKind) -> bool {
    k is Plus || k is Minus
}

/// The ordering comparison tokens.
pub open spec fn comparison_tok(k: TokenKind) -> bool {
    k is Lt || k is LtEq || k is Gt || k is GtEq
}

/// The multiplicative operator tokens.
pub open spec fn multiplicative_tok(k: TokenKind) -> bool {
    k is Star || k is Slash || k is Percent
}

/// The parse ends at `k` with `(a inner b) outer c`, for identifiers `a`, `b`, `c`.
pub open spec fn groups_left(r: Result<(ExprV, int), Seq<char>>, k: int, outer: BinaryOp, inner: BinaryOp) -> bool {
    match r {
        Ok((ExprV::Binary { op, left, right, .. }, j)) => j == k && op == outer && *right is Ident && match *left {
            ExprV::Binary { op: o2, left: l2, right: r2, .. } => o2 == inner && *l2 is Ident && *r2 is Ident,
            _ => false,
        },
        _ => false,
    }
}

/// The parse ends at `k` with `a outer (b inner c)`, for identifiers `a`, `b`, `c`.
pub open spec fn groups_right(r: Result<(ExprV, int), Seq<char>>, k: int, outer: BinaryOp, inner: BinaryOp) -> bool {
    match r {
        Ok((ExprV::Binary { op, left, right, .. }, j)) => j == k && op == outer && *left is Ident && match *right {
            ExprV::Binary { op: o2, left: l2, right: r2, .. } => o2 == inner && *l2 is Ident && *r2 is Ident,
            _ => false,
        },
        _ => false,
    }
}

/// With an operator `lo` binding more loosely than `hi`, `a hi b lo c` reads
/// as `(a hi b) lo c` and `a lo b hi c` as `a lo (b hi c)`.
proof fn lemma_two_operators(ts: Seq<(KindV, Span)>, i: int, lo: TokenKind, hi: TokenKind)
    requires
        binop_of(lo) is Some,
        binop_of(hi) is Some,
        binop_of(lo)->Some_0.1 < binop_of(hi)->Some_0.1 < 250,
    ensures
        operand_shape(ts, i, hi, lo) ==> groups_left(expr_s(ts, i, 0), i + 5, binop_of(lo)->Some_0.0, binop_of(hi)->Some_0.0),
        operand_shape(ts, i, lo, hi) ==> groups_right(expr_s(ts, i, 0), i + 5, binop_of(lo)->Some_0.0, binop_of(hi)->Some_0.0),
{
    let (olo, p) = binop_of(lo)->Some_0;
    let (ohi, q) = binop_of(hi)->Some_0;
    if operand_shape(ts, i, hi, lo) || operand_shape(ts, i, lo, hi) {
        let a = ExprV::Ident(ts[i].0->Ident_0, ts[i].1);
        let b = ExprV::Ident(ts[i + 2].0->Ident_0, ts[i + 2].1);
        let c = ExprV::Ident(ts[i + 4].0->Ident_0, ts[i + 4].1);
        assert(tok(ts, i) == ts[i]);
        assert(tok(ts, i + 1) == ts[i + 1]);
        assert(tok(ts, i + 2) == ts[i + 2]);
        assert(tok(ts, i + 3) == ts[i + 3]);
        assert(tok(ts, i + 4) == ts[i + 4]);
        assert(tok(ts, i + 5) == ts[i + 5]);
        assert(primary_s(ts, i) == Ok::<(ExprV, int), Seq<char>>((a, i + 1)));
        assert(primary_s(ts, i + 2) == Ok::<(ExprV, int), Seq<char>>((b, i + 3)));
        assert(primary_s(ts, i + 4) == Ok::<(ExprV, int), Seq<char>>((c, i + 5)));
        assert(binary_tail_s(ts, i + 5, c, (p + 1) as u8) == Ok::<(ExprV, int), Seq<char>>((c, i + 5)));
        assert(binary_tail_s(ts, i + 5, c, (q + 1) as u8) == Ok::<(ExprV, int), Seq<char>>((c, i + 5)));
        assert(expr_s(ts, i + 4, (p + 1) as u8) == Ok::<(ExprV, int), Seq<char>>((c, i + 5)));
        assert(expr_s(ts, i + 4, (q + 1) as u8) == Ok::<(ExprV, int), Seq<char>>((c, i + 5)));
        if operand_shape(ts, i, hi, lo) {
            assert(binop_of_v(ts[i + 1].0) == Some((ohi, q)));
            assert(binop_of_v(ts[i + 3].0) == Some((olo, p)));
            assert(binary_tail_s(ts, i + 3, b, (q + 1) as u8) == Ok::<(ExprV, int), Seq<char>>((b, i + 3)));
            assert(expr_s(ts, i + 2, (q + 1) as u8) == Ok::<(ExprV, int), Seq<char>>((b, i + 3)));
            let ab = ExprV::Binary { op: ohi, left: Box::new(a), right: Box::new(b), span: join(span_of(a), span_of(b)) };
            let abc = ExprV::Binary { op: olo, left: Box::new(ab), right: Box::new(c), span: join(span_of(ab), span_of(c)) };
            assert(binary_tail_s(ts, i + 5, abc, 0) == Ok::<(ExprV, int), Seq<char>>((abc, i + 5)));
            assert(binary_tail_s(ts, i + 3, ab, 0) == Ok::<(ExprV, int), Seq<char>>((abc, i + 5)));
            assert(binary_tail_s(ts, i + 1, a, 0) == Ok::<(ExprV, int), Seq<char>>((abc, i + 5)));
            assert(expr_s(ts, i, 0) == Ok::<(ExprV, int), Seq<char>>((abc, i + 5)));
        }
        if operand_shape(ts, i, lo, hi) {
            assert(binop_of_v(ts[i + 1].0) == Some((olo, p)));
            assert(binop_of_v(ts[i + 3].0) == Some((ohi, q)));
            let bc = ExprV::Binary { op: ohi, left: Box::new(b), right: Box::new(c), span: join(span_of(b), span_of(c)) };
            assert(binary_tail_s(ts, i + 5, bc, (p + 1) as u8) == Ok::<(ExprV, int), Seq<char>>((bc, i + 5)));
            assert(binary_tail_s(ts, i + 3, b, (p + 1) as u8) == Ok::<(ExprV, int), Seq<char>>((bc, i + 5)));
            assert(expr_s(ts, i + 2, (p + 1) as u8) == Ok::<(ExprV, int), Seq<char>>((bc, i + 5)));
            let abc = ExprV::Binary { op: olo, left: Box::new(a), right: Box::new(bc), span: join(span_of(a), span_of(bc)) };
            assert(binary_tail_s(ts, i + 5, abc, 0) == Ok::<(ExprV, int), Seq<char>>((abc, i + 5)));
            assert(binary_tail_s(ts, i + 1, a, 0) == Ok::<(ExprV, int), Seq<char>>((abc, i + 5)));
            assert(expr_s(ts, i, 0) == Ok::<(ExprV, int), Seq<char>>((abc, i + 5)));
        }
    }
}

/// Law: ordering comparisons bind more loosely than `+` and `-`, which bind
/// more loosely than `*`, `/` and `%`: for identifier operands, `a + b < c`
/// reads as `(a + b) < c` and `a < b + c` as `a < (b + c)`; `a * b + c` as
/// `(a * b) + c` and `a + b * c` as `a + (b * c)` (for every such pair of
/// operators).
pub proof fn law_operator_precedence(ts: Seq<(KindV, Span)>, i: int, cmp: TokenKind, add: TokenKind, mul: TokenKind)
    requires
        comparison_tok(cmp),
        additive_tok(add),
        multiplicative_tok(mul),
    ensures
        binop_of(cmp) is Some && binop_of(add) is Some && binop_of(mul) is Some,
        operand_shape(ts, i, add, cmp) ==> groups_left(expr_s(ts, i, 0), i + 5, binop_of(cmp)->Some_0.0, binop_of(add)->Some_0.0),
        operand_shape(ts, i, cmp, add) ==> groups_right(expr_s(ts, i, 0), i + 5, binop_of(cmp)->Some_0.0, binop_of(add)->Some_0.0),
        operand_shape(ts, i, mul, add) ==> groups_left(expr_s(ts, i, 0), i + 5, binop_of(add)->Some_0.0, binop_of(mul)->Some_0.0),
        operand_shape(ts, i, add, mul) ==> groups_right(expr_s(ts, i, 0), i + 5, binop_of(add)->Some_0.0, binop_of(mul)->Some_0.0),
{
    lemma_two_operators(ts, i, cmp, add);
    lemma_two_operators(ts, i, add, mul);
}

/// The equality tokens.
pub open spec fn equality_tok(k: TokenKind) -> bool {
    k is EqEq || k is NotEq
}

/// Law: the looser levels: `||` binds more loosely than `&&`, `&&` more
/// loosely than `==` and `!=`, which bind more loosely than the ordering
/// comparisons: `a && b || c` reads as `(a && b) || c` and `a || b && c` as
/// `a || (b && c)`, and likewise for each of these pairs.
pub proof fn law_logic_precedence(ts: Seq<(KindV, Span)>, i: int, eq: TokenKind, cmp: TokenKind)
    requires
        equality_tok(eq),
        comparison_tok(cmp),
    ensures
        binop_of(TokenKind::OrOr) is Some && binop_of(TokenKind::AndAnd) is Some && binop_of(eq) is Some
            && binop_of(cmp) is Some,
        operand_shape(ts, i, TokenKind::AndAnd, TokenKind::OrOr) ==> groups_left(expr_s(ts, i, 0), i + 5,
            BinaryOp::Or, BinaryOp::And),
        operand_shape(ts, i, TokenKind::OrOr, TokenKind::AndAnd) ==> groups_right(expr_s(ts, i, 0), i + 5,
            BinaryOp::Or, BinaryOp::And),
        operand_shape(ts, i, eq, TokenKind::AndAnd) ==> groups_left(expr_s(ts, i, 0), i + 5, BinaryOp::And,
            binop_of(eq)->Some_0.0),
        operand_shape(ts, i, TokenKind::AndAnd, eq) ==> groups_right(expr_s(ts, i, 0), i + 5, BinaryOp::And,
            binop_of(eq)->Some_0.0),
        operand_shape(ts, i, cmp, eq) ==> groups_left(expr_s(ts, i, 0), i + 5, binop_of(eq)->Some_0.0,
            binop_of(cmp)->Some_0.0),
        operand_shape(ts, i, eq, cmp) ==> groups_right(expr_s(ts, i, 0), i + 5, binop_of(eq)->Some_0.0,
            binop_of(cmp)->Some_0.0),
{
    lemma_two_operators(ts, i, TokenKind::OrOr, TokenKind::AndAnd);
    lemma_two_operators(ts, i, TokenKind::AndAnd, eq);
    lemma_two_operators(ts, i, eq, cmp);
}

/// The arguments of a call, up to `)` (not read): expressions separated by
/// commas, a trailing comma allowed.
pub open spec fn args_s(ts: Seq<(KindV, Span)>, i: int) -> Result<(Seq<ExprV>, int), Seq<char>>
    decreases ts.len() - i, 3nat,
{
    if !ok_pos(ts, i) {
        Err(Seq::empty())
    } else if is_k(ts, i, TokenKind::CloseParen) || at_eof(ts, i) {
        Ok((Seq::empty(), i))
    } else {
        match expr_s(ts, i, 0) {
            Err(m) => Err(m),
            Ok((e, j)) => if is_k(ts, j, TokenKind::Comma) {
                if !(i < adv(ts, j) <= ts.len()) {
                    Err(Seq::empty())
                } else {
                    match args_s(ts, adv(ts, j)) {
                        Err(m) => Err(m),
                        Ok((es, k)) => Ok((seq![e] + es, k)),
                    }
                }
            } else {
                Ok((seq![e], j))
            },
        }
    }
}

/// The compound assignment operator of a token, if it is one.
pub open spec fn assign_op_of(k: KindV) -> Option<AssignOperator> {
    match k {
        KindV::Plain(TokenKind::PlusEq) => Some(AssignOperator::AddEq),
        KindV::Plain(TokenKind::MinusEq) => Some(AssignOperator::SubEq),
        KindV::Plain(TokenKind::StarEq) => Some(AssignOperator::MulEq),
        KindV::Plain(TokenKind::SlashEq) => Some(AssignOperator::DivEq),
        _ => None,
    }
}

/// An optional type after `->`.
pub open spec fn ret_s(ts: Seq<(KindV, Span)>, i: int) -> Result<(Option<TypeV>, int), Seq<char>> {
    if is_k(ts, i, TokenKind::Arrow) {
        match type_s(ts, adv(ts, i)) {
            Err(m) => Err(m),
            Ok((t, k)) => Ok((Some(t), k)),
        }
    } else {
        Ok((None, i))
    }
}

/// A statement: `let`, `if`/`else`, `return`, an assignment or compound
/// assignment of a name, or an expression statement.
pub open spec fn stmt_s(ts: Seq<(KindV, Span)>, i: int) -> Result<(StmtV, int), Seq<char>>
    decreases ts.len() - i, 0nat,
{
    if !ok_pos(ts, i) {
        Err(Seq::empty())
    } else {
        let t = tok(ts, i);
        if is_k(ts, i, TokenKind::Let) {
            let j0 = adv(ts, i);
            let is_mut = is_k(ts, j0, TokenKind::Mut);
            let j1 = if is_mut { adv(ts, j0) } else { j0 };
            match ident_s(ts, j1) {
                Err(m) => Err(m),
                Ok((name, _, j2)) => {
                    let ta: Result<(Option<TypeV>, int), Seq<char>> = if is_k(ts, j2, TokenKind::Colon) {
                        match type_s(ts, adv(ts, j2)) {
                            Err(m) => Err(m),
                            Ok((ty, j3)) => Ok((Some(ty), j3)),
                        }
                    } else {
                        Ok((None, j2))
                    };
                    match ta {
                        Err(m) => Err(m),
                        Ok((type_ann, j3)) => match expect_s(ts, j3, TokenKind::Eq) {
                            Err(m) => Err(m),
                            Ok((_, j4)) => match expr_s(ts, j4, 0) {
                                Err(m) => Err(m),
                                Ok((init, j5)) => match expect_s(ts, j5, TokenKind::Semicolon) {
                                    Err(m) => Err(m),
                                    Ok((et, j6)) => Ok((
                                        StmtV::Let { name, type_ann, is_mut, init, span: join(t.1, et.1) },
                                        j6,
                                    )),
                                },
                            },
                        },
                    }
                },
            }
        } else if is_k(ts, i, TokenKind::If) {
            match expr_s(ts, adv(ts, i), 0) {
                Err(m) => Err(m),
                Ok((cond, j1)) => match expect_s(ts, j1, TokenKind::OpenBrace) {
                    Err(m) => Err(m),
                    Ok((_, j2)) => if !(i < j2 <= ts.len()) {
                        Err(Seq::empty())
                    } else {
                        match block_s(ts, j2) {
                            Err(m) => Err(m),
                            Ok((then_branch, j3)) => match expect_s(ts, j3, TokenKind::CloseBrace) {
                                Err(m) => Err(m),
                                Ok((et, j4)) => if is_k(ts, j4, TokenKind::Else) {
                                    match expect_s(ts, adv(ts, j4), TokenKind::OpenBrace) {
                                        Err(m) => Err(m),
                                        Ok((_, j5)) => if !(i < j5 <= ts.len()) {
                                            Err(Seq::empty())
                                        } else {
                                            match block_s(ts, j5) {
                                                Err(m) => Err(m),
                                                Ok((else_b, j6)) => match expect_s(ts, j6, TokenKind::CloseBrace) {
                                                    Err(m) => Err(m),
                                                    Ok((et2, j7)) => Ok((
                                                        StmtV::If {
                                                            cond,
                                                            then_branch,
                                                            else_branch: Some(else_b),
                                                            span: join(t.1, et2.1),
                                                        },
                                                        j7,
                                                    )),
                                                },
                                            }
                                        },
                                    }
                                } else {
                                    Ok((
                                        StmtV::If { cond, then_branch, else_branch: None, span: join(t.1, et.1) },
                                        j4,
                                    ))
                                },
                            },
                        }
                    },
                },
            }
        } else if is_k(ts, i, TokenKind::Return) {
            let j0 = adv(ts, i);
            let e: Result<(Option<ExprV>, int), Seq<char>> = if !is_k(ts, j0, TokenKind::Semicolon) {
                match expr_s(ts, j0, 0) {
                    Err(m) => Err(m),
                    Ok((x, j1)) => Ok((Some(x), j1)),
                }
            } else {
                Ok((None, j0))
            };
            match e {
                Err(m) => Err(m),
                Ok((x, j1)) => match expect_s(ts, j1, TokenKind::Semicolon) {
                    Err(m) => Err(m),
                    Ok((et, j2)) => Ok((StmtV::Return(x, join(t.1, et.1)), j2)),
                },
            }
        } else if t.0 is Ident && i + 1 < ts.len() && ts[i + 1].0 == KindV::Plain(TokenKind::Eq) {
            match expr_s(ts, i + 2, 0) {
                Err(m) => Err(m),
                Ok((value, j3)) => match expect_s(ts, j3, TokenKind::Semicolon) {
                    Err(m) => Err(m),
                    Ok((et, j4)) => Ok((
                        StmtV::Assign { target: t.0->Ident_0, value, span: join(t.1, et.1) },
                        j4,
                    )),
                },
            }
        } else if t.0 is Ident && i + 1 < ts.len() && assign_op_of(ts[i + 1].0) is Some {
            match expr_s(ts, i + 2, 0) {
                Err(m) => Err(m),
                Ok((value, j3)) => match expect_s(ts, j3, TokenKind::Semicolon) {
                    Err(m) => Err(m),
                    Ok((et, j4)) => Ok((
                        StmtV::AssignOp {
                            target: t.0->Ident_0,
                            op: assign_op_of(ts[i + 1].0)->Some_0,
                            value,
                            span: join(t.1, et.1),
                        },
                        j4,
                    )),
                },
            }
        } else {
            match expr_s(ts, i, 0) {
                Err(m) => Err(m),
                Ok((e, j)) => match expect_s(ts, j, TokenKind::Semicolon) {
                    Err(m) => Err(m),
                    Ok((_, k)) => Ok((StmtV::Expr(e), k)),
                },
            }
        }
    }
}

/// The statements of a block, up to `}` (not read) or `Eof`.
pub open spec fn block_s(ts: Seq<(KindV, Span)>, i: int) -> Result<(Seq<StmtV>, int), Seq<char>>
    decreases ts.len() - i, 1nat,
{
    if !ok_pos(ts, i) {
        Err(Seq::empty())
    } else if is_k(ts, i, TokenKind::CloseBrace) || at_eof(ts, i) {
        Ok((Seq::empty(), i))
    } else {
        match stmt_s(ts, i) {
            Err(m) => Err(m),
            Ok((st, j)) => if !(i < j <= ts.len()) {
                Err(Seq::empty())
            } else {
                match block_s(ts, j) {
                    Err(m) => Err(m),
                    Ok((sts, k)) => Ok((seq![st] + sts, k)),
                }
            },
        }
    }
}

/// Parameters `name: type`, separated by commas, up to `)` (not read).
pub open spec fn params_s(ts: Seq<(KindV, Span)>, i: int) -> Result<(Seq<(Seq<char>, TypeV)>, int), Seq<char>>
    decreases ts.len() - i,
{
    if !ok_pos(ts, i) {
        Err(Seq::empty())
    } else if is_k(ts, i, TokenKind::CloseParen) || at_eof(ts, i) {
        Ok((Seq::empty(), i))
    } else {
        match ident_s(ts, i) {
            Err(m) => Err(m),
            Ok((name, _, j1)) => match expect_s(ts, j1, TokenKind::Colon) {
                Err(m) => Err(m),
                Ok((_, j2)) => match type_s(ts, j2) {
                    Err(m) => Err(m),
                    Ok((ty, j3)) => if is_k(ts, j3, TokenKind::Comma) {
                        if !(i < adv(ts, j3) <= ts.len()) {
                            Err(Seq::empty())
                        } else {
                            match params_s(ts, adv(ts, j3)) {
                                Err(m) => Err(m),
                                Ok((ps, k)) => Ok((seq![(name, ty)] + ps, k)),
                            }
                        }
                    } else {
                        Ok((seq![(name, ty)], j3))
                    },
                },
            },
        }
    }
}

/// A template node: an element, a text, or `{expr}`.
pub open spec fn node_s(ts: Seq<(KindV, Span)>, i: int) -> Result<(TemplateNodeV, int), Seq<char>>
    decreases ts.len() - i, 1nat,
{
    if !ok_pos(ts, i) {
        Err(Seq::empty())
    } else {
        let t = tok(ts, i);
        match t.0 {
            KindV::TagOpen(_) => match element_s(ts, i) {
                Err(m) => Err(m),
                Ok((el, j)) => Ok((TemplateNodeV::Element(el), j)),
            },
            KindV::StringLit(s) => Ok((TemplateNodeV::Text(s, t.1), adv(ts, i))),
            KindV::Plain(TokenKind::OpenBrace) => match expr_s(ts, adv(ts, i), 0) {
                Err(m) => Err(m),
                Ok((e, j)) => match expect_s(ts, j, TokenKind::CloseBrace) {
                    Err(m) => Err(m),
                    Ok((et, k)) => Ok((TemplateNodeV::DynamicExpr(e, join(t.1, et.1)), k)),
                },
            },
            _ => Err(msg_at(ts, i, "Unexpected token '"@, "' in template at "@)),
        }
    }
}

/// The handler of an event binding after `=`: a name, or `{name}`.
pub open spec fn handler_s(ts: Seq<(KindV, Span)>, i: int) -> Result<(Seq<char>, int), Seq<char>> {
    if is_k(ts, i, TokenKind::OpenBrace) {
        match ident_s(ts, adv(ts, i)) {
            Err(m) => Err(m),
            Ok((h, _, j)) => match expect_s(ts, j, TokenKind::CloseBrace) {
                Err(m) => Err(m),
                Ok((_, k)) => Ok((h, k)),
            },
        }
    } else {
        match ident_s(ts, i) {
            Err(m) => Err(m),
            Ok((h, _, j)) => Ok((h, j)),
        }
    }
}

/// The value of an attribute after `=`: a string, or `{expr}`.
pub open spec fn attr_value_s(ts: Seq<(KindV, Span)>, i: int) -> Result<(AttributeValueV, int), Seq<char>> {
    match tok(ts, i).0 {
        KindV::StringLit(s) => Ok((AttributeValueV::Static(s), adv(ts, i))),
        KindV::Plain(TokenKind::OpenBrace) => match expr_s(ts, adv(ts, i), 0) {
            Err(m) => Err(m),
            Ok((e, j)) => match expect_s(ts, j, TokenKind::CloseBrace) {
                Err(m) => Err(m),
                Ok((_, k)) => Ok((AttributeValueV::Dynamic(e), k)),
            },
        },
        _ => Err(msg_at(ts, i, "Expected attribute value string or {expr}, found '"@, "' at "@)),
    }
}

/// The attributes and event bindings inside the opening tag `<tag`, up to
/// `>`, `/>` (not read) or `Eof`.
#[verifier::opaque]
pub open spec fn attrs_s(ts: Seq<(KindV, Span)>, i: int, tag: Seq<char>) -> Result<
    ((Seq<AttributeV>, Seq<EventBindingV>), int),
    Seq<char>,
>
    decreases ts.len() - i, 0nat,
{
    if !ok_pos(ts, i) {
        Err(Seq::empty())
    } else if is_k(ts, i, TokenKind::TagEnd) || is_k(ts, i, TokenKind::TagSelfClose) || at_eof(ts, i) {
        Ok(((Seq::empty(), Seq::empty()), i))
    } else {
        let t = tok(ts, i);
        match t.0 {
            KindV::AtEvent(ev) => match expect_s(ts, adv(ts, i), TokenKind::Eq) {
                Err(m) => Err(m),
                Ok((_, j1)) => match handler_s(ts, j1) {
                    Err(m) => Err(m),
                    Ok((handler, j)) => if !(i < j <= ts.len()) {
                        Err(Seq::empty())
                    } else {
                        match attrs_s(ts, j, tag) {
                            Err(m) => Err(m),
                            Ok(((atts, evs), k)) => Ok((
                                (atts, seq![EventBindingV { event_name: ev, handler, span: t.1 }] + evs),
                                k,
                            )),
                        }
                    },
                },
            },
            KindV::Ident(name) => match expect_s(ts, adv(ts, i), TokenKind::Eq) {
                Err(m) => Err(m),
                Ok((_, j1)) => match attr_value_s(ts, j1) {
                    Err(m) => Err(m),
                    Ok((value, j)) => if !(i < j <= ts.len()) {
                        Err(Seq::empty())
                    } else {
                        match attrs_s(ts, j, tag) {
                            Err(m) => Err(m),
                            Ok(((atts, evs), k)) => Ok((
                                (seq![AttributeV { name, value, span: t.1 }] + atts, evs),
                                k,
                            )),
                        }
                    },
                },
            },
            _ => Err(msg_at(ts, i, "Unexpected token in tag '<"@ + tag + "': '"@, "' at "@)),
        }
    }
}

/// The children of an element `<tag>`, up to its closing tag (not read) or
/// `Eof`; another closing tag is an error.
pub open spec fn children_s(ts: Seq<(KindV, Span)>, i: int, tag: Seq<char>) -> Result<(Seq<TemplateNodeV>, int), Seq<char>>
    decreases ts.len() - i, 2nat,
{
    if !ok_pos(ts, i) {
        Err(Seq::empty())
    } else if at_eof(ts, i) {
        Ok((Seq::empty(), i))
    } else {
        match tok(ts, i).0 {
            KindV::TagClose(c) => if c == tag {
                Ok((Seq::empty(), i))
            } else {
                Err("Mismatched closing tag: expected '</"@ + tag + ">', found '</"@ + c + ">'"@)
            },
            _ => match node_s(ts, i) {
                Err(m) => Err(m),
                Ok((n, j)) => if !(i < j <= ts.len()) {
                    Err(Seq::empty())
                } else {
                    match children_s(ts, j, tag) {
                        Err(m) => Err(m),
                        Ok((ns, k)) => Ok((seq![n] + ns, k)),
                    }
                },
            },
        }
    }
}

/// An element from its opening tag: attributes and events, then `/>`, or
/// `>`, the children and the closing tag.
pub open spec fn element_s(ts: Seq<(KindV, Span)>, i: int) -> Result<(ElementNodeV, int), Seq<char>>
    decreases ts.len() - i, 0nat,
{
    if !ok_pos(ts, i) {
        Err(Seq::empty())
    } else {
        let t = tok(ts, i);
        let tag = match t.0 {
            KindV::TagOpen(x) => x,
            _ => Seq::empty(),
        };
        if !(i < adv(ts, i) <= ts.len()) {
            Err(Seq::empty())
        } else {
            match attrs_s(ts, adv(ts, i), tag) {
                Err(m) => Err(m),
                Ok(((attributes, events), j)) => if is_k(ts, j, TokenKind::TagSelfClose) {
                    Ok((
                        ElementNodeV {
                            tag,
                            attributes,
                            events,
                            children: Seq::empty(),
                            span: join(t.1, tok(ts, j).1),
                        },
                        adv(ts, j),
                    ))
                } else {
                    match expect_s(ts, j, TokenKind::TagEnd) {
                        Err(m) => Err(m),
                        Ok((_, j2)) => if !(i < j2 <= ts.len()) {
                            Err(Seq::empty())
                        } else {
                            match children_s(ts, j2, tag) {
                                Err(m) => Err(m),
                                Ok((children, j3)) => match close_s(ts, j3, tag) {
                                    Err(m) => Err(m),
                                    Ok((et, j4)) => Ok((
                                        ElementNodeV { tag, attributes, events, children, span: join(t.1, et.1) },
                                        j4,
                                    )),
                                },
                            }
                        },
                    }
                },
            }
        }
    }
}

/// `signal name: type = expr;`
#[verifier::opaque]
pub open spec fn signal_s(ts: Seq<(KindV, Span)>, i: int) -> Result<(SignalDeclV, int), Seq<char>> {
    match expect_s(ts, i, TokenKind::Signal) {
        Err(m) => Err(m),
        Ok((st, j1)) => match ident_s(ts, j1) {
            Err(m) => Err(m),
            Ok((name, _, j2)) => match expect_s(ts, j2, TokenKind::Colon) {
                Err(m) => Err(m),
                Ok((_, j3)) => match type_s(ts, j3) {
                    Err(m) => Err(m),
                    Ok((type_ann, j4)) => match expect_s(ts, j4, TokenKind::Eq) {
                        Err(m) => Err(m),
                        Ok((_, j5)) => match expr_s(ts, j5, 0) {
                            Err(m) => Err(m),
                            Ok((init_expr, j6)) => match expect_s(ts, j6, TokenKind::Semicolon) {
                                Err(m) => Err(m),
                                Ok((et, j7)) => Ok((
                                    SignalDeclV { name, type_ann, init_expr, span: join(st.1, et.1) },
                                    j7,
                                )),
                            },
                        },
                    },
                },
            },
        },
    }
}

/// `computed name: type = expr;`
#[verifier::opaque]
pub open spec fn computed_s(ts: Seq<(KindV, Span)>, i: int) -> Result<(ComputedDeclV, int), Seq<char>> {
    match expect_s(ts, i, TokenKind::Computed) {
        Err(m) => Err(m),
        Ok((st, j1)) => match ident_s(ts, j1) {
            Err(m) => Err(m),
            Ok((name, _, j2)) => match expect_s(ts, j2, TokenKind::Colon) {
                Err(m) => Err(m),
                Ok((_, j3)) => match type_s(ts, j3) {
                    Err(m) => Err(m),
                    Ok((type_ann, j4)) => match expect_s(ts, j4, TokenKind::Eq) {
                        Err(m) => Err(m),
                        Ok((_, j5)) => match expr_s(ts, j5, 0) {
                            Err(m) => Err(m),
                            Ok((expr, j6)) => match expect_s(ts, j6, TokenKind::Semicolon) {
                                Err(m) => Err(m),
                                Ok((et, j7)) => Ok((
                                    ComputedDeclV { name, type_ann, expr, span: join(st.1, et.1) },
                                    j7,
                                )),
                            },
                        },
                    },
                },
            },
        },
    }
}

/// `fn name(params) -> type { stmts }`, the return type optional.
#[verifier::opaque]
pub open spec fn fn_s(ts: Seq<(KindV, Span)>, i: int) -> Result<(FnDeclV, int), Seq<char>> {
    match expect_s(ts, i, TokenKind::Fn) {
        Err(m) => Err(m),
        Ok((st, j1)) => match ident_s(ts, j1) {
            Err(m) => Err(m),
            Ok((name, _, j2)) => match expect_s(ts, j2, TokenKind::OpenParen) {
                Err(m) => Err(m),
                Ok((_, j3)) => match params_s(ts, j3) {
                    Err(m) => Err(m),
                    Ok((params, j4)) => match expect_s(ts, j4, TokenKind::CloseParen) {
                        Err(m) => Err(m),
                        Ok((_, j5)) => match ret_s(ts, j5) {
                            Err(m) => Err(m),
                            Ok((return_type, j6)) => match expect_s(ts, j6, TokenKind::OpenBrace) {
                                Err(m) => Err(m),
                                Ok((_, j7)) => match block_s(ts, j7) {
                                    Err(m) => Err(m),
                                    Ok((body, j8)) => match expect_s(ts, j8, TokenKind::CloseBrace) {
                                        Err(m) => Err(m),
                                        Ok((et, j9)) => Ok((
                                            FnDeclV { name, params, return_type, body, span: join(st.1, et.1) },
                                            j9,
                                        )),
                                    },
                                },
                            },
                        },
                    },
                },
            },
        },
    }
}

/// `render { node }`
#[verifier::opaque]
pub open spec fn render_s(ts: Seq<(KindV, Span)>, i: int) -> Result<(RenderBlockV, int), Seq<char>> {
    match expect_s(ts, i, TokenKind::Render) {
        Err(m) => Err(m),
        Ok((st, j1)) => match expect_s(ts, j1, TokenKind::OpenBrace) {
            Err(m) => Err(m),
            Ok((_, j2)) => match node_s(ts, j2) {
                Err(m) => Err(m),
                Ok((root, j3)) => match expect_s(ts, j3, TokenKind::CloseBrace) {
                    Err(m) => Err(m),
                    Ok((et, j4)) => Ok((RenderBlockV { root, span: join(st.1, et.1) }, j4)),
                },
            },
        },
    }
}

/// The members of a component body, up to `}` (not read) or `Eof`: its
/// signals, computeds and methods in order, and its render block; a second
/// render block (`has_render` when one was read before) is an error.
#[verifier::opaque]
pub open spec fn body_s(ts: Seq<(KindV, Span)>, i: int, has_render: bool) -> Result<
    ((Seq<SignalDeclV>, Seq<ComputedDeclV>, Seq<FnDeclV>, Option<RenderBlockV>), int),
    Seq<char>,
>
    decreases ts.len() - i,
{
    if !ok_pos(ts, i) {
        Err(Seq::empty())
    } else if is_k(ts, i, TokenKind::CloseBrace) || at_eof(ts, i) {
        Ok(((Seq::empty(), Seq::empty(), Seq::empty(), None), i))
    } else if is_k(ts, i, TokenKind::Signal) {
        match signal_s(ts, i) {
            Err(m) => Err(m),
            Ok((d, j)) => if !(i < j <= ts.len()) {
                Err(Seq::empty())
            } else {
                match body_s(ts, j, has_render) {
                    Err(m) => Err(m),
                    Ok(((ss, cs, ms, r), k)) => Ok(((seq![d] + ss, cs, ms, r), k)),
                }
            },
        }
    } else if is_k(ts, i, TokenKind::Computed) {
        match computed_s(ts, i) {
            Err(m) => Err(m),
            Ok((d, j)) => if !(i < j <= ts.len()) {
                Err(Seq::empty())
            } else {
                match body_s(ts, j, has_render) {
                    Err(m) => Err(m),
                    Ok(((ss, cs, ms, r), k)) => Ok(((ss, seq![d] + cs, ms, r), k)),
                }
            },
        }
    } else if is_k(ts, i, TokenKind::Fn) {
        match fn_s(ts, i) {
            Err(m) => Err(m),
            Ok((d, j)) => if !(i < j <= ts.len()) {
                Err(Seq::empty())
            } else {
                match body_s(ts, j, has_render) {
                    Err(m) => Err(m),
                    Ok(((ss, cs, ms, r), k)) => Ok(((ss, cs, seq![d] + ms, r), k)),
                }
            },
        }
    } else if is_k(ts, i, TokenKind::Render) {
        if has_render {
            Err("Component can only have one render block"@)
        } else {
            match render_s(ts, i) {
                Err(m) => Err(m),
                Ok((rb, j)) => if !(i < j <= ts.len()) {
                    Err(Seq::empty())
                } else {
                    match body_s(ts, j, true) {
                        Err(m) => Err(m),
                        Ok(((ss, cs, ms, _), k)) => Ok(((ss, cs, ms, Some(rb)), k)),
                    }
                },
            }
        }
    } else {
        Err(msg_at(ts, i, "Unexpected token '"@, "' in component body at "@))
    }
}

/// The body of a component from after its `{`, then its `}`.
pub open spec fn component_rest_s(
    ts: Seq<(KindV, Span)>,
    j: int,
    name: Seq<char>,
    is_exported: bool,
    start: Span,
) -> Result<(ComponentDeclV, int), Seq<char>> {
    match body_s(ts, j, false) {
        Err(m) => Err(m),
        Ok(((signals, computeds, methods, render), j4)) => match expect_s(ts, j4, TokenKind::CloseBrace) {
            Err(m) => Err(m),
            Ok((et, j5)) => Ok((
                ComponentDeclV { name, is_exported, signals, computeds, methods, render, span: join(start, et.1) },
                j5,
            )),
        },
    }
}

/// A component: `export`? `component Name { members }`.
pub open spec fn component_s(ts: Seq<(KindV, Span)>, i: int) -> Result<(ComponentDeclV, int), Seq<char>> {
    let start = tok(ts, i).1;
    let is_exported = is_k(ts, i, TokenKind::Export);
    let j0 = if is_exported { adv(ts, i) } else { i };
    match expect_s(ts, j0, TokenKind::Component) {
        Err(m) => Err(m),
        Ok((_, j1)) => match ident_s(ts, j1) {
            Err(m) => Err(m),
            Ok((name, _, j2)) => match expect_s(ts, j2, TokenKind::OpenBrace) {
                Err(m) => Err(m),
                Ok((_, j3)) => component_rest_s(ts, j3, name, is_exported, start),
            },
        },
    }
}

/// The foreign functions of an extern block, up to `}` (not read) or `Eof`:
/// each `fn name(params) -> type;`, the return type optional.
pub open spec fn extern_fns_s(ts: Seq<(KindV, Span)>, i: int) -> Result<(Seq<ExternFnDeclV>, int), Seq<char>>
    decreases ts.len() - i,
{
    if !ok_pos(ts, i) {
        Err(Seq::empty())
    } else if is_k(ts, i, TokenKind::CloseBrace) || at_eof(ts, i) {
        Ok((Seq::empty(), i))
    } else {
        match expect_s(ts, i, TokenKind::Fn) {
            Err(m) => Err(m),
            Ok((ft, j1)) => match ident_s(ts, j1) {
                Err(m) => Err(m),
                Ok((name, _, j2)) => match expect_s(ts, j2, TokenKind::OpenParen) {
                    Err(m) => Err(m),
                    Ok((_, j3)) => match params_s(ts, j3) {
                        Err(m) => Err(m),
                        Ok((params, j4)) => match expect_s(ts, j4, TokenKind::CloseParen) {
                            Err(m) => Err(m),
                            Ok((_, j5)) => match ret_s(ts, j5) {
                                Err(m) => Err(m),
                                Ok((return_type, j6)) => match expect_s(ts, j6, TokenKind::Semicolon) {
                                    Err(m) => Err(m),
                                    Ok((_, j7)) => if !(i < j7 <= ts.len()) {
                                        Err(Seq::empty())
                                    } else {
                                        match extern_fns_s(ts, j7) {
                                            Err(m) => Err(m),
                                            Ok((fs, k)) => Ok((
                                                seq![ExternFnDeclV { name, params, return_type, span: ft.1 }] + fs,
                                                k,
                                            )),
                                        }
                                    },
                                },
                            },
                        },
                    },
                },
            },
        }
    }
}

/// An extern block: `extern "abi" { functions }`.
pub open spec fn extern_s(ts: Seq<(KindV, Span)>, i: int) -> Result<(ExternBlockV, int), Seq<char>> {
    match expect_s(ts, i, TokenKind::Extern) {
        Err(m) => Err(m),
        Ok((st, j1)) => match tok(ts, j1).0 {
            KindV::StringLit(abi) => match expect_s(ts, adv(ts, j1), TokenKind::OpenBrace) {
                Err(m) => Err(m),
                Ok((_, j2)) => match extern_fns_s(ts, j2) {
                    Err(m) => Err(m),
                    Ok((functions, j3)) => match expect_s(ts, j3, TokenKind::CloseBrace) {
                        Err(m) => Err(m),
                        Ok((et, j4)) => Ok((ExternBlockV { abi, functions, span: join(st.1, et.1) }, j4)),
                    },
                },
            },
            other => Err("Expected ABI string after extern, found '"@ + kindv_text(other) + "'"@),
        },
    }
}

/// The items of a program up to `Eof`: extern blocks and components.
pub open spec fn items_s(ts: Seq<(KindV, Span)>, i: int) -> Result<(Seq<TopLevelItemV>, int), Seq<char>>
    decreases ts.len() - i,
{
    if !ok_pos(ts, i) {
        Err(Seq::empty())
    } else if at_eof(ts, i) {
        Ok((Seq::empty(), i))
    } else if is_k(ts, i, TokenKind::Extern) {
        match extern_s(ts, i) {
            Err(m) => Err(m),
            Ok((b, j)) => if !(i < j <= ts.len()) {
                Err(Seq::empty())
            } else {
                match items_s(ts, j) {
                    Err(m) => Err(m),
                    Ok((items, k)) => Ok((seq![TopLevelItemV::ExternBlock(b)] + items, k)),
                }
            },
        }
    } else if is_k(ts, i, TokenKind::Export) || is_k(ts, i, TokenKind::Component) {
        match component_s(ts, i) {
            Err(m) => Err(m),
            Ok((c, j)) => if !(i < j <= ts.len()) {
                Err(Seq::empty())
            } else {
                match items_s(ts, j) {
                    Err(m) => Err(m),
                    Ok((items, k)) => Ok((seq![TopLevelItemV::Component(c)] + items, k)),
                }
            },
        }
    } else {
        Err(msg_at(ts, i, "Unexpected token '"@, "' at top level at "@))
    }
}

/// A whole program, from the first token.
pub open spec fn program_s(ts: Seq<(KindV, Span)>) -> Result<ProgramV, Seq<char>> {
    match items_s(ts, 0) {
        Err(m) => Err(m),
        Ok((items, _)) => Ok(ProgramV { items }),
    }
}

} // verus!
