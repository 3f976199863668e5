//! The parser: a recursive-descent parser over the tokens, with precedence
//! climbing for binary operators.

use vstd::prelude::*;
use crate::syntax::ast::{
    opt_type_view, ComputedDeclV, ExternFnDeclV, FnDeclV, ProgramV, RenderBlockV, SignalDeclV, TopLevelItemV,
    AttributeV, EventBindingV, TemplateNodeV, exprs_view, params_view, stmts_view, span_of, StmtV, TypeV, AssignOperator, Attribute, AttributeValue, BinaryOp, ComponentDecl, ComputedDecl, ElementNode,
    EventBinding, Expr, ExprV, ExternBlock, ExternFnDecl, FnDecl, Program, RenderBlock, SignalDecl, Stmt,
    TemplateNode, TopLevelItem, Type, UnaryOp,
};
use crate::syntax::token::{
    kind_text, kindv_text, lemma_kindv_text, lemma_same_kind_view, same_kind, tokens_view, KindV, Span, Token, TokenKind,
};
use crate::syntax::grammar::{
    adv, args_s, component_rest_s, at_eof, attr_value_s, attrs_s, block_s, body_s, children_s, close_s, component_s, computed_s,
    element_s, expect_s, expr_s, extern_fns_s, extern_s, fn_s, handler_s, ident_s, is_k, items_s, node_s, ok_pos,
    params_s, primary_s, program_s, render_s, ret_s, signal_s, stmt_s, tok, type_s, binary_tail_s,
};
use crate::text::{decimal, push_str, push_usize, string_of};

verus! {

/// The message for a token other than the one expected.
pub open spec fn expected_message(expected: TokenKind, found: Token) -> Seq<char> {
    "Expected '"@ + kind_text(expected) + "', but found '"@ + kind_text(found.kind) + "' at "@ + decimal(
        found.span.line as nat,
    ) + ":"@ + decimal(found.span.col as nat)
}

/// The message for a token that is not an identifier where one is expected.
pub open spec fn expected_ident_message(found: Token) -> Seq<char> {
    "Expected identifier, but found '"@ + kind_text(found.kind) + "' at "@ + decimal(found.span.line as nat) + ":"@
        + decimal(found.span.col as nat)
}

/// The binary operator of a token, with its precedence: `||` 1, `&&` 2,
/// equality 3, comparison 4, `+ -` 5, `* / %` 6.
pub open spec fn binop_of(k: TokenKind) -> Option<(BinaryOp, u8)> {
    match k {
        TokenKind::OrOr => Some((BinaryOp::Or, 1u8)),
        TokenKind::AndAnd => Some((BinaryOp::And, 2u8)),
        TokenKind::EqEq => Some((BinaryOp::Eq, 3u8)),
        TokenKind::NotEq => Some((BinaryOp::NotEq, 3u8)),
        TokenKind::Lt => Some((BinaryOp::Lt, 4u8)),
        TokenKind::LtEq => Some((BinaryOp::LtEq, 4u8)),
        TokenKind::Gt => Some((BinaryOp::Gt, 4u8)),
        TokenKind::GtEq => Some((BinaryOp::GtEq, 4u8)),
        TokenKind::Plus => Some((BinaryOp::Add, 5u8)),
        TokenKind::Minus => Some((BinaryOp::Sub, 5u8)),
        TokenKind::Star => Some((BinaryOp::Mul, 6u8)),
        TokenKind::Slash => Some((BinaryOp::Div, 6u8)),
        TokenKind::Percent => Some((BinaryOp::Mod, 6u8)),
        _ => None,
    }
}

/// A parse agrees with what the grammar gives from where it started: on
/// success the view of the tree and the position after it, otherwise the
/// message.
pub open spec fn agrees<T: View>(r: Result<T, String>, g: Result<(T::V, int), Seq<char>>, at: nat) -> bool {
    match g {
        Ok((v, j)) => r matches Ok(x) && x@ == v && at == j,
        Err(m) => r matches Err(e) && e@ == m,
    }
}

/// `pre` put before the list of a parse result.
pub open spec fn prepended<A>(pre: Seq<A>, r: Result<(Seq<A>, int), Seq<char>>) -> Result<(Seq<A>, int), Seq<char>> {
    match r {
        Ok((xs, k)) => Ok((pre + xs, k)),
        Err(m) => Err(m),
    }
}

/// The views of a list.
pub open spec fn views<T: View>(v: Seq<T>) -> Seq<T::V> {
    Seq::new(v.len(), |i: int| v[i]@)
}

/// `pa` and `pb` put before the two lists of a parse result.
pub open spec fn prepended_pair<A, B>(pa: Seq<A>, pb: Seq<B>, r: Result<((Seq<A>, Seq<B>), int), Seq<char>>) -> Result<
    ((Seq<A>, Seq<B>), int),
    Seq<char>,
> {
    match r {
        Ok(((xs, ys), k)) => Ok(((pa + xs, pb + ys), k)),
        Err(m) => Err(m),
    }
}

/// The view of an optional render block.
pub open spec fn opt_render_view(r: Option<RenderBlock>) -> Option<RenderBlockV> {
    match r {
        Some(b) => Some(b@),
        None => None,
    }
}

/// The members read so far put before those of a body's parse result; a
/// render block read so far stands for the rest's.
pub open spec fn prepended_body(
    ss: Seq<SignalDeclV>,
    cs: Seq<ComputedDeclV>,
    ms: Seq<FnDeclV>,
    rb: Option<RenderBlockV>,
    r: Result<((Seq<SignalDeclV>, Seq<ComputedDeclV>, Seq<FnDeclV>, Option<RenderBlockV>), int), Seq<char>>,
) -> Result<((Seq<SignalDeclV>, Seq<ComputedDeclV>, Seq<FnDeclV>, Option<RenderBlockV>), int), Seq<char>> {
    match r {
        Ok(((a, b, c, d), k)) => Ok(((ss + a, cs + b, ms + c, if rb is Some { rb } else { d }), k)),
        Err(m) => Err(m),
    }
}

/// The parser state over a list of tokens.
pub struct Parser {
    tokens: Vec<Token>,
    pos: usize,
}

impl Parser {
    /// The tokens.
    pub closed spec fn toks(&self) -> Seq<Token> {
        self.tokens@
    }

    /// The views of the tokens.
    pub open spec fn tv(&self) -> Seq<(KindV, Span)> {
        tokens_view(self.toks())
    }

    /// The index of the next token.
    pub closed spec fn at(&self) -> nat {
        self.pos as nat
    }

    /// The tokens end with `Eof` and the position is within them.
    pub closed spec fn wf(&self) -> bool {
        &&& self.tokens@.len() > 0
        &&& self.tokens@.last().kind is Eof
        &&& self.pos <= self.tokens@.len()
    }

    /// The next token (the last one, `Eof`, once all are read).
    pub open spec fn cur(&self) -> Token {
        if self.at() < self.toks().len() {
            self.toks()[self.at() as int]
        } else {
            self.toks().last()
        }
    }

    /// The number of tokens not read yet.
    pub open spec fn remaining(&self) -> nat {
        (self.toks().len() - self.at()) as nat
    }

    /// `after` is `before` having read on over the same tokens.
    pub open spec fn moved(before: Parser, after: Parser) -> bool {
        &&& after.wf()
        &&& after.toks() == before.toks()
        &&& before.at() <= after.at()
    }

    /// A parser at the first of `tokens`, which end with `Eof` as `tokenize`
    /// gives them: without it, a loop that reads up to `Eof` (such as an
    /// element's children) would read the last token again and again, and
    /// never end.
    pub fn new(tokens: Vec<Token>) -> (p: Self)
        requires
            tokens@.len() > 0,
            tokens@.last().kind is Eof,
        ensures
            p.wf(),
            p.toks() == tokens@,
            p.at() == 0,
    {
        Self { tokens, pos: 0 }
    }

    /// A token that is not `Eof` is not the last one.
    proof fn lemma_not_eof(&self)
        requires
            self.wf(),
            !(self.cur().kind is Eof),
        ensures
            self.at() + 1 < self.toks().len(),
    {
    }

    /// The next token.
    fn peek(&self) -> (t: &Token)
        requires
            self.wf(),
        ensures
            *t == self.cur(),
    {
        if self.pos < self.tokens.len() {
            &self.tokens[self.pos]
        } else {
            &self.tokens[self.tokens.len() - 1]
        }
    }

    /// The kind of the next token.
    fn peek_kind(&self) -> (k: &TokenKind)
        requires
            self.wf(),
        ensures
            *k == self.cur().kind,
    {
        &self.peek().kind
    }

    /// Whether the next token is of kind `k` (with the same payload).
    fn check(&self, k: TokenKind) -> (b: bool)
        requires
            self.wf(),
        ensures
            b == same_kind(self.cur().kind, k),
    {
        self.peek_kind().same_as(&k)
    }

    /// Reads the next token (staying at the end once all are read).
    fn advance(&mut self) -> (t: Token)
        requires
            old(self).wf(),
        ensures
            t == old(self).cur(),
            final(self).wf(),
            final(self).toks() == old(self).toks(),
            final(self).at() == if old(self).at() < old(self).toks().len() {
                old(self).at() + 1
            } else {
                old(self).at()
            },
    {
        let tok = self.peek().clone();
        if self.pos < self.tokens.len() {
            self.pos += 1;
        }
        tok
    }

    /// Reads the next token if it is of kind `expected`; otherwise an error
    /// that names both kinds and where the token is.
    fn expect(&mut self, expected: TokenKind) -> (r: Result<Token, String>)
        requires
            old(self).wf(),
            !(expected is Eof),
        ensures
            Parser::moved(*old(self), *final(self)),
            if same_kind(old(self).cur().kind, expected) {
                r == Ok::<Token, String>(old(self).cur()) && final(self).at() == old(self).at() + 1
            } else {
                r matches Err(m) && m@ == expected_message(expected, old(self).cur())
            },
            match expect_s(old(self).tv(), old(self).at() as int, expected) {
                Ok((t, j)) => r matches Ok(x) && x@ == t && final(self).at() == j,
                Err(m) => r matches Err(e) && e@ == m,
            },
    {
        proof {
            lemma_same_kind_view(old(self).cur().kind, expected);
            lemma_kindv_text(old(self).cur().kind);
        }
        let tok = self.peek();
        if tok.kind.same_as(&expected) {
            proof {
                if old(self).cur().kind is Eof {
                    assert(false);
                }
                self.lemma_not_eof();
            }
            Ok(self.advance())
        } else {
            let mut m = string_of("Expected '");
            push_str(&mut m, expected.to_text().as_str());
            push_str(&mut m, "', but found '");
            push_str(&mut m, tok.kind.to_text().as_str());
            push_str(&mut m, "' at ");
            push_usize(&mut m, tok.span.line);
            push_str(&mut m, ":");
            push_usize(&mut m, tok.span.col);
            Err(m)
        }
    }

    /// Reads the next token, which must be an identifier: its name and span.
    fn expect_ident(&mut self) -> (r: Result<(String, Span), String>)
        requires
            old(self).wf(),
        ensures
            Parser::moved(*old(self), *final(self)),
            match old(self).cur().kind {
                TokenKind::Ident(name) => r matches Ok((n, s)) && n@ == name@ && s == old(self).cur().span
                    && final(self).at() == old(self).at() + 1,
                _ => r matches Err(m) && m@ == expected_ident_message(old(self).cur()),
            },
            match ident_s(old(self).tv(), old(self).at() as int) {
                Ok((n, s, j)) => r matches Ok((x, y)) && x@ == n && y == s && final(self).at() == j,
                Err(m) => r matches Err(e) && e@ == m,
            },
    {
        proof {
            lemma_kindv_text(old(self).cur().kind);
        }
        let tok = self.advance();
        match tok.kind {
            TokenKind::Ident(name) => {
                proof { old(self).lemma_not_eof(); }
                Ok((name, tok.span))
            },
            other => {
                let mut m = string_of("Expected identifier, but found '");
                push_str(&mut m, other.to_text().as_str());
                push_str(&mut m, "' at ");
                push_usize(&mut m, tok.span.line);
                push_str(&mut m, ":");
                push_usize(&mut m, tok.span.col);
                Err(m)
            },
        }
    }

    /// The message `<prefix>'<token>'<middle><line>:<col>` for the next token.
    fn token_message(&self, prefix: &str, middle: &str) -> (m: String)
        requires
            self.wf(),
        ensures
            m@ == prefix@ + kind_text(self.cur().kind) + middle@ + decimal(self.cur().span.line as nat) + ":"@
                + decimal(self.cur().span.col as nat),
    {
        let tok = self.peek();
        let mut m = string_of(prefix);
        push_str(&mut m, tok.kind.to_text().as_str());
        push_str(&mut m, middle);
        push_usize(&mut m, tok.span.line);
        push_str(&mut m, ":");
        push_usize(&mut m, tok.span.col);
        m
    }

    /// Parses a whole program: extern blocks and components up to `Eof`
    /// (see `items_s`).
    pub fn parse_program(&mut self) -> (r: Result<Program, String>)
        requires
            old(self).wf(),
        ensures
            Parser::moved(*old(self), *final(self)),
            r is Ok ==> final(self).cur().kind is Eof,
            match items_s(old(self).tv(), old(self).at() as int) {
                Ok((v, j)) => r matches Ok(p) && p@ == (ProgramV { items: v }) && final(self).at() == j,
                Err(m) => r matches Err(e) && e@ == m,
            },
    {
        let ghost ts = self.tv();
        let ghost i0 = self.at() as int;
        let mut items: Vec<TopLevelItem> = Vec::new();
        assert(views(items@) =~= Seq::<TopLevelItemV>::empty());
        while !self.peek_kind().is_eof()
            invariant
                Parser::moved(*old(self), *self),
                ts == self.tv(),
                ts == old(self).tv(),
                i0 == old(self).at(),
                items_s(ts, i0) == prepended(views(items@), items_s(ts, self.at() as int)),
            decreases self.remaining(),
        {
            let ghost pre = views(items@);
            let item = if self.check(TokenKind::Extern) {
                TopLevelItem::ExternBlock(self.parse_extern_block()?)
            } else if self.check(TokenKind::Export) || self.check(TokenKind::Component) {
                TopLevelItem::Component(self.parse_component()?)
            } else {
                let m = self.token_message("Unexpected token '", "' at top level at ");
                return Err(m);
            };
            let ghost iv = item@;
            items.push(item);
            proof {
                assert(views(items@) =~= pre.push(iv));
                match items_s(ts, self.at() as int) {
                    Ok((xs, k)) => {
                        assert(pre + (seq![iv] + xs) =~= pre.push(iv) + xs);
                    },
                    Err(_) => {},
                }
            }
        }
        assert(views(items@) + Seq::<TopLevelItemV>::empty() =~= views(items@));
        let p = Program { items };
        assert(p@.items =~= views(p.items@));
        Ok(p)
    }

    /// Parses the parameter list `name: type, ...` up to `)`.
    fn parse_params(&mut self) -> (r: Result<Vec<(String, Type)>, String>)
        requires
            old(self).wf(),
        ensures
            Parser::moved(*old(self), *final(self)),
            match params_s(old(self).tv(), old(self).at() as int) {
                Ok((v, j)) => r matches Ok(x) && params_view(x@) == v && final(self).at() == j,
                Err(m) => r matches Err(e) && e@ == m,
            },
    {
        let ghost ts = self.tv();
        let ghost p0 = self.at() as int;
        let mut params: Vec<(String, Type)> = Vec::new();
        assert(params_view(params@) =~= Seq::<(Seq<char>, TypeV)>::empty());
        while !self.check(TokenKind::CloseParen) && !self.peek_kind().is_eof()
            invariant_except_break
                params_s(ts, p0) == prepended(params_view(params@), params_s(ts, self.at() as int)),
            invariant
                Parser::moved(*old(self), *self),
                ts == self.tv(),
                ts == old(self).tv(),
                p0 == old(self).at(),
            ensures
                params_s(ts, p0) matches Ok((xs, k)) && xs =~= params_view(params@) && k == self.at(),
            decreases self.remaining(),
        {
            let ghost pre = params_view(params@);
            let (param_name, _) = self.expect_ident()?;
            self.expect(TokenKind::Colon)?;
            let param_type = self.parse_type()?;
            let ghost item = (param_name@, param_type@);
            params.push((param_name, param_type));
            assert(params_view(params@) =~= pre.push(item));
            if self.check(TokenKind::Comma) {
                self.advance();
                proof {
                    match params_s(ts, self.at() as int) {
                        Ok((ps, k)) => {
                            assert(pre + (seq![item] + ps) =~= pre.push(item) + ps);
                        },
                        Err(_) => {},
                    }
                }
            } else {
                break;
            }
        }
        Ok(params)
    }

    /// Parses an extern block `extern "abi" { fn name(params) -> type; ... }`.
    fn parse_extern_block(&mut self) -> (r: Result<ExternBlock, String>)
        requires
            old(self).wf(),
        ensures
            Parser::moved(*old(self), *final(self)),
            r is Ok ==> old(self).at() < final(self).at(),
            agrees(r, extern_s(old(self).tv(), old(self).at() as int), final(self).at()),
    {
        let start_span = self.expect(TokenKind::Extern)?.span;
        proof {
            lemma_kindv_text(self.cur().kind);
        }
        let abi_tok = self.advance();
        let abi = match abi_tok.kind {
            TokenKind::StringLit(s) => s,
            other => {
                let mut m = string_of("Expected ABI string after extern, found '");
                push_str(&mut m, other.to_text().as_str());
                push_str(&mut m, "'");
                return Err(m);
            },
        };
        self.expect(TokenKind::OpenBrace)?;
        let functions = self.parse_extern_fns()?;
        let ghost fv = views(functions@);
        let end_span = self.expect(TokenKind::CloseBrace)?.span;
        let span = Span::new(start_span.start, end_span.end, start_span.line, start_span.col);
        let b = ExternBlock { abi, functions, span };
        assert(b@.functions =~= fv);
        Ok(b)
    }

    /// Parses the foreign functions of an extern block up to `}` (not read)
    /// or `Eof`.
    fn parse_extern_fns(&mut self) -> (r: Result<Vec<ExternFnDecl>, String>)
        requires
            old(self).wf(),
        ensures
            Parser::moved(*old(self), *final(self)),
            match extern_fns_s(old(self).tv(), old(self).at() as int) {
                Ok((v, j)) => r matches Ok(x) && views(x@) == v && final(self).at() == j,
                Err(m) => r matches Err(e) && e@ == m,
            },
    {
        let ghost ts = self.tv();
        let ghost f0 = self.at() as int;
        let mut functions: Vec<ExternFnDecl> = Vec::new();
        assert(views(functions@) =~= Seq::<ExternFnDeclV>::empty());
        while !self.check(TokenKind::CloseBrace) && !self.peek_kind().is_eof()
            invariant
                Parser::moved(*old(self), *self),
                ts == self.tv(),
                ts == old(self).tv(),
                f0 == old(self).at(),
                extern_fns_s(ts, f0) == prepended(views(functions@), extern_fns_s(ts, self.at() as int)),
            decreases self.remaining(),
        {
            let ghost pre = views(functions@);
            let fn_span = self.expect(TokenKind::Fn)?.span;
            let (name, _) = self.expect_ident()?;
            self.expect(TokenKind::OpenParen)?;
            let params = self.parse_params()?;
            self.expect(TokenKind::CloseParen)?;
            let return_type = self.parse_ret()?;
            self.expect(TokenKind::Semicolon)?;
            let f = ExternFnDecl { name, params, return_type, span: fn_span };
            let ghost item = f@;
            functions.push(f);
            proof {
                assert(views(functions@) =~= pre.push(item));
                match extern_fns_s(ts, self.at() as int) {
                    Ok((xs, k)) => {
                        assert(pre + (seq![item] + xs) =~= pre.push(item) + xs);
                    },
                    Err(_) => {},
                }
            }
        }
        assert(views(functions@) + Seq::<ExternFnDeclV>::empty() =~= views(functions@));
        Ok(functions)
    }

    /// Parses an optional return type `-> type`.
    fn parse_ret(&mut self) -> (r: Result<Option<Type>, String>)
        requires
            old(self).wf(),
        ensures
            Parser::moved(*old(self), *final(self)),
            match ret_s(old(self).tv(), old(self).at() as int) {
                Ok((v, j)) => r matches Ok(x) && opt_type_view(x) == v && final(self).at() == j,
                Err(m) => r matches Err(e) && e@ == m,
            },
    {
        if self.check(TokenKind::Arrow) {
            proof { self.lemma_not_eof(); }
            self.advance();
            Ok(Some(self.parse_type()?))
        } else {
            Ok(None)
        }
    }

    /// Parses a component: `export`? `component Name { ... }` with its
    /// signals, computeds, methods and at most one render block.
    fn parse_component(&mut self) -> (r: Result<ComponentDecl, String>)
        requires
            old(self).wf(),
        ensures
            Parser::moved(*old(self), *final(self)),
            r is Ok ==> old(self).at() < final(self).at(),
            agrees(r, component_s(old(self).tv(), old(self).at() as int), final(self).at()),
    {
        let ghost ts = self.tv();
        let start_span = self.peek().span;
        let is_exported = if self.check(TokenKind::Export) {
            proof { self.lemma_not_eof(); }
            self.advance();
            true
        } else {
            false
        };
        self.expect(TokenKind::Component)?;
        let (name, _) = self.expect_ident()?;
        self.expect(TokenKind::OpenBrace)?;
        let ghost b0 = self.at() as int;
        let ghost rest = component_rest_s(ts, b0, name@, is_exported, start_span);
        assert(component_s(ts, old(self).at() as int) == rest);
        let mut signals: Vec<SignalDecl> = Vec::new();
        let mut computeds: Vec<ComputedDecl> = Vec::new();
        let mut methods: Vec<FnDecl> = Vec::new();
        let mut render: Option<RenderBlock> = None;
        assert(views(signals@) =~= Seq::<SignalDeclV>::empty());
        assert(views(computeds@) =~= Seq::<ComputedDeclV>::empty());
        assert(views(methods@) =~= Seq::<FnDeclV>::empty());
        while !self.check(TokenKind::CloseBrace) && !self.peek_kind().is_eof()
            invariant
                Parser::moved(*old(self), *self),
                old(self).at() < self.at(),
                ts == self.tv(),
                ts == old(self).tv(),
                b0 <= self.at(),
                component_s(ts, old(self).at() as int) == rest,
                rest == component_rest_s(ts, b0, name@, is_exported, start_span),
                body_s(ts, b0, false) == prepended_body(
                    views(signals@),
                    views(computeds@),
                    views(methods@),
                    opt_render_view(render),
                    body_s(ts, self.at() as int, render is Some),
                ),
            decreases self.remaining(),
        {
            self.parse_member(&mut signals, &mut computeds, &mut methods, &mut render)?;
        }
        proof {
            reveal(body_s);
        }
        let end_span = self.expect(TokenKind::CloseBrace)?.span;
        let span = Span::new(start_span.start, end_span.end, start_span.line, start_span.col);
        let ghost sv = views(signals@);
        let ghost cv = views(computeds@);
        let ghost mv = views(methods@);
        let c = ComponentDecl { name, is_exported, signals, computeds, methods, render, span };
        assert(c@.signals =~= sv + Seq::<SignalDeclV>::empty());
        assert(c@.computeds =~= cv + Seq::<ComputedDeclV>::empty());
        assert(c@.methods =~= mv + Seq::<FnDeclV>::empty());
        Ok(c)
    }

    /// Parses one member of a component body (not `}` nor `Eof`) into the
    /// members read so far: a signal, a computed, a method, or the render
    /// block, of which there is at most one.
    fn parse_member(
        &mut self,
        signals: &mut Vec<SignalDecl>,
        computeds: &mut Vec<ComputedDecl>,
        methods: &mut Vec<FnDecl>,
        render: &mut Option<RenderBlock>,
    ) -> (r: Result<(), String>)
        requires
            old(self).wf(),
            !is_k(old(self).tv(), old(self).at() as int, TokenKind::CloseBrace),
            !(old(self).cur().kind is Eof),
        ensures
            Parser::moved(*old(self), *final(self)),
            r is Ok ==> old(self).at() < final(self).at(),
            ({
                let ts = old(self).tv();
                let before = prepended_body(
                    views(old(signals)@),
                    views(old(computeds)@),
                    views(old(methods)@),
                    opt_render_view(*old(render)),
                    body_s(ts, old(self).at() as int, *old(render) is Some),
                );
                match r {
                    Ok(_) => before == prepended_body(
                        views(final(signals)@),
                        views(final(computeds)@),
                        views(final(methods)@),
                        opt_render_view(*final(render)),
                        body_s(ts, final(self).at() as int, *final(render) is Some),
                    ),
                    Err(e) => before == Err::<((Seq<SignalDeclV>, Seq<ComputedDeclV>, Seq<FnDeclV>, Option<RenderBlockV>), int), Seq<char>>(e@),
                }
            }),
    {
        proof {
            reveal(body_s);
        }
        let ghost ts = self.tv();
        let ghost ps = views(signals@);
        let ghost pc = views(computeds@);
        let ghost pm = views(methods@);
        if self.check(TokenKind::Signal) {
            let d = self.parse_signal()?;
            let ghost item = d@;
            signals.push(d);
            proof {
                assert(views(signals@) =~= ps.push(item));
                match body_s(ts, self.at() as int, *render is Some) {
                    Ok(((xs, ys, zs, w), k)) => {
                        assert(ps + (seq![item] + xs) =~= ps.push(item) + xs);
                    },
                    Err(_) => {},
                }
            }
            Ok(())
        } else if self.check(TokenKind::Computed) {
            let d = self.parse_computed()?;
            let ghost item = d@;
            computeds.push(d);
            proof {
                assert(views(computeds@) =~= pc.push(item));
                match body_s(ts, self.at() as int, *render is Some) {
                    Ok(((xs, ys, zs, w), k)) => {
                        assert(pc + (seq![item] + ys) =~= pc.push(item) + ys);
                    },
                    Err(_) => {},
                }
            }
            Ok(())
        } else if self.check(TokenKind::Fn) {
            let d = self.parse_fn()?;
            let ghost item = d@;
            methods.push(d);
            proof {
                assert(views(methods@) =~= pm.push(item));
                match body_s(ts, self.at() as int, *render is Some) {
                    Ok(((xs, ys, zs, w), k)) => {
                        assert(pm + (seq![item] + zs) =~= pm.push(item) + zs);
                    },
                    Err(_) => {},
                }
            }
            Ok(())
        } else if self.check(TokenKind::Render) {
            if render.is_some() {
                return Err(string_of("Component can only have one render block"));
            }
            *render = Some(self.parse_render()?);
            Ok(())
        } else {
            let m = self.token_message("Unexpected token '", "' in component body at ");
            Err(m)
        }
    }

    /// Parses `signal name: type = expr;`.
    fn parse_signal(&mut self) -> (r: Result<SignalDecl, String>)
        requires
            old(self).wf(),
        ensures
            Parser::moved(*old(self), *final(self)),
            r is Ok ==> old(self).at() < final(self).at(),
            agrees(r, signal_s(old(self).tv(), old(self).at() as int), final(self).at()),
    {
        proof {
            reveal(signal_s);
        }
        let start_span = self.expect(TokenKind::Signal)?.span;
        let (name, _) = self.expect_ident()?;
        self.expect(TokenKind::Colon)?;
        let type_ann = self.parse_type()?;
        self.expect(TokenKind::Eq)?;
        let init_expr = self.parse_expr(0)?;
        let end_span = self.expect(TokenKind::Semicolon)?.span;
        let span = Span::new(start_span.start, end_span.end, start_span.line, start_span.col);
        Ok(SignalDecl { name, type_ann, init_expr, span })
    }

    /// Parses `computed name: type = expr;`.
    fn parse_computed(&mut self) -> (r: Result<ComputedDecl, String>)
        requires
            old(self).wf(),
        ensures
            Parser::moved(*old(self), *final(self)),
            r is Ok ==> old(self).at() < final(self).at(),
            agrees(r, computed_s(old(self).tv(), old(self).at() as int), final(self).at()),
    {
        proof {
            reveal(computed_s);
        }
        let start_span = self.expect(TokenKind::Computed)?.span;
        let (name, _) = self.expect_ident()?;
        self.expect(TokenKind::Colon)?;
        let type_ann = self.parse_type()?;
        self.expect(TokenKind::Eq)?;
        let expr = self.parse_expr(0)?;
        let end_span = self.expect(TokenKind::Semicolon)?.span;
        let span = Span::new(start_span.start, end_span.end, start_span.line, start_span.col);
        Ok(ComputedDecl { name, type_ann, expr, span })
    }

    /// Parses the statements of a block up to `}` (not read).
    fn parse_block_stmts(&mut self) -> (r: Result<Vec<Stmt>, String>)
        requires
            old(self).wf(),
        ensures
            Parser::moved(*old(self), *final(self)),
            match block_s(old(self).tv(), old(self).at() as int) {
                Ok((v, j)) => r matches Ok(x) && stmts_view(x@) == v && final(self).at() == j,
                Err(m) => r matches Err(e) && e@ == m,
            },
        decreases old(self).remaining(), 2nat,
    {
        let ghost ts = self.tv();
        let ghost b0 = self.at() as int;
        let mut body: Vec<Stmt> = Vec::new();
        assert(stmts_view(body@) =~= Seq::<StmtV>::empty());
        while !self.check(TokenKind::CloseBrace) && !self.peek_kind().is_eof()
            invariant
                Parser::moved(*old(self), *self),
                ts == self.tv(),
                ts == old(self).tv(),
                b0 == old(self).at(),
                block_s(ts, b0) == prepended(stmts_view(body@), block_s(ts, self.at() as int)),
            decreases self.remaining(),
        {
            let ghost pre = stmts_view(body@);
            let st = self.parse_stmt()?;
            let ghost item = st@;
            body.push(st);
            assert(stmts_view(body@) =~= pre.push(item));
            proof {
                match block_s(ts, self.at() as int) {
                    Ok((sts, k)) => {
                        assert(pre + (seq![item] + sts) =~= pre.push(item) + sts);
                    },
                    Err(_) => {},
                }
            }
        }
        assert(stmts_view(body@) + Seq::<StmtV>::empty() =~= stmts_view(body@));
        Ok(body)
    }

    /// Parses a method `fn name(params) -> type { stmts }`.
    fn parse_fn(&mut self) -> (r: Result<FnDecl, String>)
        requires
            old(self).wf(),
        ensures
            Parser::moved(*old(self), *final(self)),
            r is Ok ==> old(self).at() < final(self).at(),
            agrees(r, fn_s(old(self).tv(), old(self).at() as int), final(self).at()),
    {
        proof {
            reveal(fn_s);
        }
        let start_span = self.expect(TokenKind::Fn)?.span;
        let (name, _) = self.expect_ident()?;
        self.expect(TokenKind::OpenParen)?;
        let params = self.parse_params()?;
        self.expect(TokenKind::CloseParen)?;
        let return_type = self.parse_ret()?;
        self.expect(TokenKind::OpenBrace)?;
        let body = self.parse_block_stmts()?;
        let end_span = self.expect(TokenKind::CloseBrace)?.span;
        let span = Span::new(start_span.start, end_span.end, start_span.line, start_span.col);
        Ok(FnDecl { name, params, return_type, body, span })
    }

    /// Parses a statement: `let`, `if`/`else`, `return`, an assignment or
    /// compound assignment of a name, or an expression statement.
    fn parse_stmt(&mut self) -> (r: Result<Stmt, String>)
        requires
            old(self).wf(),
        ensures
            Parser::moved(*old(self), *final(self)),
            r is Ok ==> old(self).at() < final(self).at(),
            agrees(r, stmt_s(old(self).tv(), old(self).at() as int), final(self).at()),
        decreases old(self).remaining(), 1nat,
    {
        if self.check(TokenKind::Let) {
            return self.parse_let();
        }
        if self.check(TokenKind::If) {
            return self.parse_if();
        }
        if self.check(TokenKind::Return) {
            return self.parse_return();
        }
        let is_ident = match self.peek_kind() {
            TokenKind::Ident(_) => true,
            _ => false,
        };
        if is_ident {
            proof { self.lemma_not_eof(); }
            if self.pos < self.tokens.len() - 1 {
                let next_is_eq = self.tokens[self.pos + 1].kind.same_as(&TokenKind::Eq);
                let op = match &self.tokens[self.pos + 1].kind {
                    TokenKind::PlusEq => Some(AssignOperator::AddEq),
                    TokenKind::MinusEq => Some(AssignOperator::SubEq),
                    TokenKind::StarEq => Some(AssignOperator::MulEq),
                    TokenKind::SlashEq => Some(AssignOperator::DivEq),
                    _ => None,
                };
                if next_is_eq {
                    let (target, start_span) = self.expect_ident()?;
                    self.advance();
                    let value = self.parse_expr(0)?;
                    let end_span = self.expect(TokenKind::Semicolon)?.span;
                    let span = Span::new(start_span.start, end_span.end, start_span.line, start_span.col);
                    return Ok(Stmt::Assign { target, value, span });
                }
                if let Some(op) = op {
                    let (target, start_span) = self.expect_ident()?;
                    self.advance();
                    let value = self.parse_expr(0)?;
                    let end_span = self.expect(TokenKind::Semicolon)?.span;
                    let span = Span::new(start_span.start, end_span.end, start_span.line, start_span.col);
                    return Ok(Stmt::AssignOp { target, op, value, span });
                }
            }
        }
        let expr = self.parse_expr(0)?;
        self.expect(TokenKind::Semicolon)?;
        Ok(Stmt::Expr(expr))
    }

    /// Parses `let mut? name (: type)? = expr;`.
    fn parse_let(&mut self) -> (r: Result<Stmt, String>)
        requires
            old(self).wf(),
            is_k(old(self).tv(), old(self).at() as int, TokenKind::Let),
        ensures
            Parser::moved(*old(self), *final(self)),
            r is Ok ==> old(self).at() < final(self).at(),
            agrees(r, stmt_s(old(self).tv(), old(self).at() as int), final(self).at()),
    {
        proof { self.lemma_not_eof(); }
        let start_span = self.advance().span;
        let is_mut = if self.check(TokenKind::Mut) {
            proof { self.lemma_not_eof(); }
            self.advance();
            true
        } else {
            false
        };
        let (name, _) = self.expect_ident()?;
        let type_ann = if self.check(TokenKind::Colon) {
            proof { self.lemma_not_eof(); }
            self.advance();
            Some(self.parse_type()?)
        } else {
            None
        };
        self.expect(TokenKind::Eq)?;
        let init = self.parse_expr(0)?;
        let end_span = self.expect(TokenKind::Semicolon)?.span;
        let span = Span::new(start_span.start, end_span.end, start_span.line, start_span.col);
        Ok(Stmt::Let { name, type_ann, is_mut, init, span })
    }

    /// Parses `if cond { stmts }`, with `else { stmts }` optional.
    fn parse_if(&mut self) -> (r: Result<Stmt, String>)
        requires
            old(self).wf(),
            is_k(old(self).tv(), old(self).at() as int, TokenKind::If),
        ensures
            Parser::moved(*old(self), *final(self)),
            r is Ok ==> old(self).at() < final(self).at(),
            agrees(r, stmt_s(old(self).tv(), old(self).at() as int), final(self).at()),
        decreases old(self).remaining(), 0nat,
    {
        proof { self.lemma_not_eof(); }
        let start_span = self.advance().span;
        let cond = self.parse_expr(0)?;
        self.expect(TokenKind::OpenBrace)?;
        let then_branch = self.parse_block_stmts()?;
        let mut end_span = self.expect(TokenKind::CloseBrace)?.span;
        let ghost tv = stmts_view(then_branch@);
        let else_branch = if self.check(TokenKind::Else) {
            proof { self.lemma_not_eof(); }
            self.advance();
            self.expect(TokenKind::OpenBrace)?;
            let else_stmts = self.parse_block_stmts()?;
            end_span = self.expect(TokenKind::CloseBrace)?.span;
            Some(else_stmts)
        } else {
            None
        };
        let ghost ev = match &else_branch {
            Some(b) => Some(stmts_view(b@)),
            None => None,
        };
        let span = Span::new(start_span.start, end_span.end, start_span.line, start_span.col);
        let st = Stmt::If { cond, then_branch, else_branch, span };
        assert(st@->then_branch =~= tv);
        assert(st@->else_branch matches Some(b) ==> b =~= ev->Some_0);
        Ok(st)
    }

    /// Parses `return expr?;`.
    fn parse_return(&mut self) -> (r: Result<Stmt, String>)
        requires
            old(self).wf(),
            is_k(old(self).tv(), old(self).at() as int, TokenKind::Return),
        ensures
            Parser::moved(*old(self), *final(self)),
            r is Ok ==> old(self).at() < final(self).at(),
            agrees(r, stmt_s(old(self).tv(), old(self).at() as int), final(self).at()),
    {
        proof { self.lemma_not_eof(); }
        let start_span = self.advance().span;
        let expr = if !self.check(TokenKind::Semicolon) {
            Some(self.parse_expr(0)?)
        } else {
            None
        };
        let end_span = self.expect(TokenKind::Semicolon)?.span;
        let span = Span::new(start_span.start, end_span.end, start_span.line, start_span.col);
        Ok(Stmt::Return(expr, span))
    }

    /// Parses `render { node }`.
    fn parse_render(&mut self) -> (r: Result<RenderBlock, String>)
        requires
            old(self).wf(),
        ensures
            Parser::moved(*old(self), *final(self)),
            r is Ok ==> old(self).at() < final(self).at(),
            agrees(r, render_s(old(self).tv(), old(self).at() as int), final(self).at()),
    {
        proof {
            reveal(render_s);
        }
        let start_span = self.expect(TokenKind::Render)?.span;
        self.expect(TokenKind::OpenBrace)?;
        let root = self.parse_template_node()?;
        let end_span = self.expect(TokenKind::CloseBrace)?.span;
        let span = Span::new(start_span.start, end_span.end, start_span.line, start_span.col);
        Ok(RenderBlock { root, span })
    }

    /// Parses a template node: an element, a text, or `{expr}`.
    fn parse_template_node(&mut self) -> (r: Result<TemplateNode, String>)
        requires
            old(self).wf(),
        ensures
            Parser::moved(*old(self), *final(self)),
            r is Ok ==> old(self).at() < final(self).at(),
            agrees(r, node_s(old(self).tv(), old(self).at() as int), final(self).at()),
        decreases old(self).remaining(), 1nat,
    {
        match self.peek_kind() {
            TokenKind::TagOpen(_) => {
                let elem = self.parse_element()?;
                Ok(TemplateNode::Element(elem))
            },
            TokenKind::StringLit(s) => {
                let text = s.clone();
                proof { self.lemma_not_eof(); }
                let span = self.advance().span;
                Ok(TemplateNode::Text(text, span))
            },
            TokenKind::OpenBrace => {
                proof { self.lemma_not_eof(); }
                let start_span = self.advance().span;
                let expr = self.parse_expr(0)?;
                let end_span = self.expect(TokenKind::CloseBrace)?.span;
                let span = Span::new(start_span.start, end_span.end, start_span.line, start_span.col);
                Ok(TemplateNode::DynamicExpr(expr, span))
            },
            _ => {
                let m = self.token_message("Unexpected token '", "' in template at ");
                Err(m)
            },
        }
    }

    /// Parses the handler of an event binding: a name, or `{name}`.
    fn parse_handler(&mut self) -> (r: Result<String, String>)
        requires
            old(self).wf(),
        ensures
            Parser::moved(*old(self), *final(self)),
            agrees(r, handler_s(old(self).tv(), old(self).at() as int), final(self).at()),
    {
        if self.check(TokenKind::OpenBrace) {
            proof { self.lemma_not_eof(); }
            self.advance();
            let (h, _) = self.expect_ident()?;
            self.expect(TokenKind::CloseBrace)?;
            Ok(h)
        } else {
            let (h, _) = self.expect_ident()?;
            Ok(h)
        }
    }

    /// Parses the value of an attribute: a string, or `{expr}`.
    fn parse_attr_value(&mut self) -> (r: Result<AttributeValue, String>)
        requires
            old(self).wf(),
        ensures
            Parser::moved(*old(self), *final(self)),
            agrees(r, attr_value_s(old(self).tv(), old(self).at() as int), final(self).at()),
    {
        match self.peek_kind() {
            TokenKind::StringLit(s) => {
                let val_str = s.clone();
                self.advance();
                Ok(AttributeValue::Static(val_str))
            },
            TokenKind::OpenBrace => {
                proof { self.lemma_not_eof(); }
                self.advance();
                let expr = self.parse_expr(0)?;
                self.expect(TokenKind::CloseBrace)?;
                Ok(AttributeValue::Dynamic(expr))
            },
            _ => {
                let m = self.token_message("Expected attribute value string or {expr}, found '", "' at ");
                Err(m)
            },
        }
    }

    /// Parses the attributes and event bindings of the opening tag `<tag`,
    /// up to `>`, `/>` (not read) or `Eof`.
    fn parse_attrs(&mut self, tag: &String) -> (r: Result<(Vec<Attribute>, Vec<EventBinding>), String>)
        requires
            old(self).wf(),
        ensures
            Parser::moved(*old(self), *final(self)),
            match attrs_s(old(self).tv(), old(self).at() as int, tag@) {
                Ok(((av, ev), j)) => r matches Ok((a, e)) && views(a@) == av && views(e@) == ev && final(self).at() == j,
                Err(m) => r matches Err(e) && e@ == m,
            },
    {
        let ghost ts = self.tv();
        let ghost a0 = self.at() as int;
        let mut attributes: Vec<Attribute> = Vec::new();
        let mut events: Vec<EventBinding> = Vec::new();
        assert(views(attributes@) =~= Seq::<AttributeV>::empty());
        assert(views(events@) =~= Seq::<EventBindingV>::empty());
        while !self.check(TokenKind::TagEnd) && !self.check(TokenKind::TagSelfClose) && !self.peek_kind().is_eof()
            invariant
                Parser::moved(*old(self), *self),
                ts == self.tv(),
                ts == old(self).tv(),
                a0 == old(self).at(),
                attrs_s(ts, a0, tag@) == prepended_pair(views(attributes@), views(events@), attrs_s(ts, self.at() as int, tag@)),
            decreases self.remaining(),
        {
            self.parse_attr_or_event(tag, &mut attributes, &mut events)?;
        }
        proof {
            reveal(attrs_s);
        }
        assert(views(attributes@) + Seq::<AttributeV>::empty() =~= views(attributes@));
        assert(views(events@) + Seq::<EventBindingV>::empty() =~= views(events@));
        Ok((attributes, events))
    }

    /// Parses one attribute `name=value` or event binding `@event=handler`
    /// of the opening tag `<tag` into those read so far.
    fn parse_attr_or_event(
        &mut self,
        tag: &String,
        attributes: &mut Vec<Attribute>,
        events: &mut Vec<EventBinding>,
    ) -> (r: Result<(), String>)
        requires
            old(self).wf(),
            !is_k(old(self).tv(), old(self).at() as int, TokenKind::TagEnd),
            !is_k(old(self).tv(), old(self).at() as int, TokenKind::TagSelfClose),
            !(old(self).cur().kind is Eof),
        ensures
            Parser::moved(*old(self), *final(self)),
            r is Ok ==> old(self).at() < final(self).at(),
            ({
                let ts = old(self).tv();
                let before = prepended_pair(
                    views(old(attributes)@),
                    views(old(events)@),
                    attrs_s(ts, old(self).at() as int, tag@),
                );
                match r {
                    Ok(_) => before == prepended_pair(
                        views(final(attributes)@),
                        views(final(events)@),
                        attrs_s(ts, final(self).at() as int, tag@),
                    ),
                    Err(e) => before == Err::<((Seq<AttributeV>, Seq<EventBindingV>), int), Seq<char>>(e@),
                }
            }),
    {
        proof {
            reveal(attrs_s);
        }
        let ghost ts = self.tv();
        let ghost pa = views(attributes@);
        let ghost pe = views(events@);
        match self.peek_kind() {
            TokenKind::AtEvent(ev_name) => {
                let ev_name = ev_name.clone();
                proof { self.lemma_not_eof(); }
                let ev_span = self.advance().span;
                self.expect(TokenKind::Eq)?;
                let handler = self.parse_handler()?;
                let b = EventBinding { event_name: ev_name, handler, span: ev_span };
                let ghost item = b@;
                events.push(b);
                proof {
                    assert(views(events@) =~= pe.push(item));
                    match attrs_s(ts, self.at() as int, tag@) {
                        Ok(((xs, ys), k)) => {
                            assert(pe + (seq![item] + ys) =~= pe.push(item) + ys);
                        },
                        Err(_) => {},
                    }
                }
                Ok(())
            },
            TokenKind::Ident(attr_name) => {
                let attr_name = attr_name.clone();
                proof { self.lemma_not_eof(); }
                let attr_span = self.advance().span;
                self.expect(TokenKind::Eq)?;
                let val = self.parse_attr_value()?;
                let a = Attribute { name: attr_name, value: val, span: attr_span };
                let ghost item = a@;
                attributes.push(a);
                proof {
                    assert(views(attributes@) =~= pa.push(item));
                    match attrs_s(ts, self.at() as int, tag@) {
                        Ok(((xs, ys), k)) => {
                            assert(pa + (seq![item] + xs) =~= pa.push(item) + xs);
                        },
                        Err(_) => {},
                    }
                }
                Ok(())
            },
            _ => {
                let mut prefix = string_of("Unexpected token in tag '<");
                push_str(&mut prefix, tag.as_str());
                push_str(&mut prefix, "': '");
                let m = self.token_message(prefix.as_str(), "' at ");
                Err(m)
            },
        }
    }

    /// Parses the children of the element `<tag>` up to its closing tag (not
    /// read) or `Eof`; another closing tag is an error.
    fn parse_children(&mut self, tag: &String) -> (r: Result<Vec<TemplateNode>, String>)
        requires
            old(self).wf(),
        ensures
            Parser::moved(*old(self), *final(self)),
            match children_s(old(self).tv(), old(self).at() as int, tag@) {
                Ok((v, j)) => r matches Ok(x) && views(x@) == v && final(self).at() == j,
                Err(m) => r matches Err(e) && e@ == m,
            },
        decreases old(self).remaining(), 2nat,
    {
        let ghost ts = self.tv();
        let ghost c0 = self.at() as int;
        let mut children: Vec<TemplateNode> = Vec::new();
        assert(views(children@) =~= Seq::<TemplateNodeV>::empty());
        while !self.peek_kind().is_eof()
            invariant_except_break
                children_s(ts, c0, tag@) == prepended(views(children@), children_s(ts, self.at() as int, tag@)),
            invariant
                Parser::moved(*old(self), *self),
                ts == self.tv(),
                ts == old(self).tv(),
                c0 == old(self).at(),
            ensures
                children_s(ts, c0, tag@) matches Ok((xs, k)) && xs =~= views(children@) && k == self.at(),
            decreases self.remaining(),
        {
            let ghost pre = views(children@);
            if let TokenKind::TagClose(close_tag) = self.peek_kind() {
                if *close_tag == *tag {
                    break;
                } else {
                    let mut m = string_of("Mismatched closing tag: expected '</");
                    push_str(&mut m, tag.as_str());
                    push_str(&mut m, ">', found '</");
                    push_str(&mut m, close_tag.as_str());
                    push_str(&mut m, ">'");
                    return Err(m);
                }
            }
            let n = self.parse_template_node()?;
            let ghost item = n@;
            children.push(n);
            proof {
                assert(views(children@) =~= pre.push(item));
                match children_s(ts, self.at() as int, tag@) {
                    Ok((ns, k)) => {
                        assert(pre + (seq![item] + ns) =~= pre.push(item) + ns);
                    },
                    Err(_) => {},
                }
            }
        }
        Ok(children)
    }

    /// Parses an element from its opening tag: attributes `name="text"` or
    /// `name={expr}`, events `@event=handler` or `@event={handler}`, then
    /// `/>`, or `>`, the children, and the matching closing tag.
    fn parse_element(&mut self) -> (r: Result<ElementNode, String>)
        requires
            old(self).wf(),
            old(self).cur().kind is TagOpen,
        ensures
            Parser::moved(*old(self), *final(self)),
            r is Ok ==> old(self).at() < final(self).at(),
            agrees(r, element_s(old(self).tv(), old(self).at() as int), final(self).at()),
        decreases old(self).remaining(), 0nat,
    {
        proof { self.lemma_not_eof(); }
        let tok = self.advance();
        let start_span = tok.span;
        let tag = match tok.kind {
            TokenKind::TagOpen(t) => t,
            _ => String::new(),
        };
        let (attributes, events) = self.parse_attrs(&tag)?;
        if self.check(TokenKind::TagSelfClose) {
            proof { self.lemma_not_eof(); }
            let end_span = self.advance().span;
            let span = Span::new(start_span.start, end_span.end, start_span.line, start_span.col);
            let el = ElementNode { tag, attributes, events, children: Vec::new(), span };
            assert(el@.children =~= Seq::<TemplateNodeV>::empty());
            return Ok(el);
        }
        self.expect(TokenKind::TagEnd)?;
        let children = self.parse_children(&tag)?;
        let ghost cv = views(children@);
        let end_span = self.expect(TokenKind::TagClose(tag.clone()))?.span;
        let span = Span::new(start_span.start, end_span.end, start_span.line, start_span.col);
        let el = ElementNode { tag, attributes, events, children, span };
        assert(el@.children =~= cv);
        Ok(el)
    }

    /// Parses a type: a primitive name, `Option<T>`, `Result<T, E>`, or any
    /// other name as a custom type.
    fn parse_type(&mut self) -> (r: Result<Type, String>)
        requires
            old(self).wf(),
        ensures
            Parser::moved(*old(self), *final(self)),
            r is Ok ==> old(self).at() < final(self).at(),
            agrees(r, type_s(old(self).tv(), old(self).at() as int), final(self).at()),
        decreases old(self).remaining(),
    {
        let (name, _span) = self.expect_ident()?;
        if name == string_of("i32") {
            Ok(Type::I32)
        } else if name == string_of("i64") {
            Ok(Type::I64)
        } else if name == string_of("u32") {
            Ok(Type::U32)
        } else if name == string_of("u64") {
            Ok(Type::U64)
        } else if name == string_of("f32") {
            Ok(Type::F32)
        } else if name == string_of("f64") {
            Ok(Type::F64)
        } else if name == string_of("bool") {
            Ok(Type::Bool)
        } else if name == string_of("string") {
            Ok(Type::String)
        } else if name == string_of("void") {
            Ok(Type::Void)
        } else if name == string_of("Option") {
            self.expect(TokenKind::Lt)?;
            let inner = self.parse_type()?;
            self.expect(TokenKind::Gt)?;
            Ok(Type::Option(Box::new(inner)))
        } else if name == string_of("Result") {
            self.expect(TokenKind::Lt)?;
            let ok = self.parse_type()?;
            self.expect(TokenKind::Comma)?;
            let err = self.parse_type()?;
            self.expect(TokenKind::Gt)?;
            Ok(Type::Result(Box::new(ok), Box::new(err)))
        } else {
            Ok(Type::Custom(name))
        }
    }

    /// Parses an expression whose binary operators bind at least as tightly
    /// as `min_prec`: operators of equal precedence group to the left.
    fn parse_expr(&mut self, min_prec: u8) -> (r: Result<Expr, String>)
        requires
            old(self).wf(),
        ensures
            Parser::moved(*old(self), *final(self)),
            r is Ok ==> old(self).at() < final(self).at(),
            agrees(r, expr_s(old(self).tv(), old(self).at() as int, min_prec), final(self).at()),
        decreases old(self).remaining(), 1nat,
    {
        let ghost ts = self.tv();
        let mut left = self.parse_primary()?;
        loop
            invariant
                Parser::moved(*old(self), *self),
                old(self).at() < self.at(),
                ts == self.tv(),
                ts == old(self).tv(),
                expr_s(ts, old(self).at() as int, min_prec) == binary_tail_s(ts, self.at() as int, left@, min_prec),
            ensures
                expr_s(ts, old(self).at() as int, min_prec) == Ok::<(ExprV, int), Seq<char>>((left@, self.at() as int)),
            decreases self.remaining(),
        {
            let (op, prec) = match self.current_binary_op() {
                Some(x) => x,
                None => break,
            };
            if prec < min_prec {
                break;
            }
            proof { self.lemma_not_eof(); }
            self.advance();
            let right = self.parse_expr(prec + 1)?;
            let ls = left.span();
            let rs = right.span();
            let span = Span::new(ls.start, rs.end, ls.line, ls.col);
            left = Expr::Binary { op, left: Box::new(left), right: Box::new(right), span };
        }
        Ok(left)
    }

    /// The binary operator of the next token, with its precedence (see `binop_of`).
    fn current_binary_op(&self) -> (r: Option<(BinaryOp, u8)>)
        requires
            self.wf(),
        ensures
            r == binop_of(self.cur().kind),
    {
        match self.peek_kind() {
            TokenKind::OrOr => Some((BinaryOp::Or, 1)),
            TokenKind::AndAnd => Some((BinaryOp::And, 2)),
            TokenKind::EqEq => Some((BinaryOp::Eq, 3)),
            TokenKind::NotEq => Some((BinaryOp::NotEq, 3)),
            TokenKind::Lt => Some((BinaryOp::Lt, 4)),
            TokenKind::LtEq => Some((BinaryOp::LtEq, 4)),
            TokenKind::Gt => Some((BinaryOp::Gt, 4)),
            TokenKind::GtEq => Some((BinaryOp::GtEq, 4)),
            TokenKind::Plus => Some((BinaryOp::Add, 5)),
            TokenKind::Minus => Some((BinaryOp::Sub, 5)),
            TokenKind::Star => Some((BinaryOp::Mul, 6)),
            TokenKind::Slash => Some((BinaryOp::Div, 6)),
            TokenKind::Percent => Some((BinaryOp::Mod, 6)),
            _ => None,
        }
    }

    /// Parses a primary expression: a literal, `-` or `!` before a primary,
    /// a parenthesised expression, a name, a call `name(args)`, or a member
    /// access `name.member`. A literal token gives the literal with the
    /// token's span.
    fn parse_primary(&mut self) -> (r: Result<Expr, String>)
        requires
            old(self).wf(),
        ensures
            Parser::moved(*old(self), *final(self)),
            r is Ok ==> old(self).at() < final(self).at(),
            agrees(r, primary_s(old(self).tv(), old(self).at() as int), final(self).at()),
            old(self).cur().kind matches TokenKind::IntLit(n) ==> (r matches Ok(e) && e@ == ExprV::IntLit(
                n,
                old(self).cur().span,
            )),
            old(self).cur().kind is True ==> (r matches Ok(e) && e@ == ExprV::BoolLit(true, old(self).cur().span)),
            old(self).cur().kind is False ==> (r matches Ok(e) && e@ == ExprV::BoolLit(false, old(self).cur().span)),
            old(self).cur().kind matches TokenKind::StringLit(s) ==> (r matches Ok(e) && e@ == ExprV::StringLit(
                s@,
                old(self).cur().span,
            )),
        decreases old(self).remaining(), 0nat,
    {
        let kind = self.peek_kind().clone();
        match kind {
            TokenKind::IntLit(n) => {
                proof { self.lemma_not_eof(); }
                let span = self.advance().span;
                Ok(Expr::IntLit(n, span))
            },
            TokenKind::FloatLit(n) => {
                proof { self.lemma_not_eof(); }
                let span = self.advance().span;
                Ok(Expr::FloatLit(n, span))
            },
            TokenKind::StringLit(s) => {
                proof { self.lemma_not_eof(); }
                let span = self.advance().span;
                Ok(Expr::StringLit(s, span))
            },
            TokenKind::True => {
                proof { self.lemma_not_eof(); }
                let span = self.advance().span;
                Ok(Expr::BoolLit(true, span))
            },
            TokenKind::False => {
                proof { self.lemma_not_eof(); }
                let span = self.advance().span;
                Ok(Expr::BoolLit(false, span))
            },
            TokenKind::Minus => {
                proof { self.lemma_not_eof(); }
                let op_span = self.advance().span;
                let expr = self.parse_primary()?;
                let span = Span::new(op_span.start, expr.span().end, op_span.line, op_span.col);
                Ok(Expr::Unary { op: UnaryOp::Neg, expr: Box::new(expr), span })
            },
            TokenKind::Not => {
                proof { self.lemma_not_eof(); }
                let op_span = self.advance().span;
                let expr = self.parse_primary()?;
                let span = Span::new(op_span.start, expr.span().end, op_span.line, op_span.col);
                Ok(Expr::Unary { op: UnaryOp::Not, expr: Box::new(expr), span })
            },
            TokenKind::OpenParen => {
                proof { self.lemma_not_eof(); }
                self.advance();
                let expr = self.parse_expr(0)?;
                self.expect(TokenKind::CloseParen)?;
                Ok(expr)
            },
            TokenKind::Ident(name) => {
                proof { self.lemma_not_eof(); }
                let span = self.advance().span;
                if self.check(TokenKind::OpenParen) {
                    proof { self.lemma_not_eof(); }
                    self.advance();
                    let ghost ts = self.tv();
                    let ghost a0 = self.at() as int;
                    let mut args: Vec<Expr> = Vec::new();
                    assert(exprs_view(args@) =~= Seq::<ExprV>::empty());
                    while !self.check(TokenKind::CloseParen) && !self.peek_kind().is_eof()
                        invariant_except_break
                            args_s(ts, a0) == prepended(exprs_view(args@), args_s(ts, self.at() as int)),
                        invariant
                            Parser::moved(*old(self), *self),
                            old(self).at() < self.at(),
                            old(self).cur().kind is Ident,
                            ts == self.tv(),
                            ts == old(self).tv(),
                            a0 == old(self).at() + 2,
                            is_k(ts, old(self).at() as int + 1, TokenKind::OpenParen),
                        ensures
                            args_s(ts, a0) matches Ok((xs, k)) && xs =~= exprs_view(args@) && k == self.at(),
                        decreases self.remaining(),
                    {
                        let ghost before = self.at() as int;
                        let ghost pre = exprs_view(args@);
                        let e = match self.parse_expr(0) {
                            Ok(e) => e,
                            Err(m) => {
                                proof {
                                    assert(args_s(ts, before) is Err);
                                }
                                return Err(m);
                            },
                        };
                        let ghost ev = e@;
                        args.push(e);
                        assert(exprs_view(args@) =~= pre.push(ev));
                        if self.check(TokenKind::Comma) {
                            self.advance();
                            proof {
                                match args_s(ts, self.at() as int) {
                                    Ok((es, k)) => {
                                        assert(pre + (seq![ev] + es) =~= pre.push(ev) + es);
                                    },
                                    Err(_) => {},
                                }
                            }
                        } else {
                            break;
                        }
                    }

                    let end_span = self.expect(TokenKind::CloseParen)?.span;
                    let call_span = Span::new(span.start, end_span.end, span.line, span.col);
                    let ghost av = exprs_view(args@);
                    let call = Expr::Call { callee: name, args, span: call_span };
                    assert(call@->args =~= av);
                    Ok(call)
                } else if self.check(TokenKind::Dot) {
                    proof { self.lemma_not_eof(); }
                    self.advance();
                    let (member, end_span) = self.expect_ident()?;
                    let acc_span = Span::new(span.start, end_span.end, span.line, span.col);
                    let object = Expr::Ident(name, span);
                    assert(object@ == ExprV::Ident(object->Ident_0@, span));
                    Ok(Expr::MemberAccess { object: Box::new(object), member, span: acc_span })
                } else {
                    Ok(Expr::Ident(name, span))
                }
            },
            _ => {
                let m = self.token_message("Unexpected token '", "' in expression at ");
                Err(m)
            },
        }
    }
}

} // verus!
