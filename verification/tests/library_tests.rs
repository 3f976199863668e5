use volt::analysis::{AstOptimizer, ComponentPlan, PlannedNodeKind, ReactivityAnalyzer};
use volt::analysis::pipeline::{build_is_defined, plan_program, BuildError};
use volt::codegen::{StringTable, WasmGcCompiler};
use volt::devserver::{mime_type, not_found, ok_head, requested_file};
use volt::syntax::{
    self, BinaryOp, ComponentDecl, Expr, ExternBlock, Lexer, Span, TemplateNode, Token, TokenKind, TopLevelItem,
    Type, UnaryOp,
};
use wasmparser::{DataKind, ExternalKind, Operator, Parser, Payload, TypeRef};

fn lex(src: &str) -> Vec<Token> {
    Lexer::new(src).tokenize().expect("lexing failed")
}

fn lex_err(src: &str) -> String {
    match Lexer::new(src).tokenize() {
        Ok(_) => panic!("expected a lexing error"),
        Err(e) => e,
    }
}

fn component(src: &str) -> ComponentDecl {
    let program = syntax::parse(src).expect("parse failed");
    for item in program.items {
        if let TopLevelItem::Component(c) = item {
            return c;
        }
    }
    panic!("no component")
}

fn computed_expr(expr_src: &str) -> Expr {
    let src = format!("component C {{ computed v: i32 = {}; }}", expr_src);
    let c = component(&src);
    c.computeds[0].expr.clone()
}

fn plan_of(src: &str) -> ComponentPlan {
    ReactivityAnalyzer::analyze_component(&component(src)).expect("analysis failed")
}

fn compile_source(src: &str) -> Result<Vec<u8>, String> {
    let program = syntax::parse(src).expect("parse failed");
    let mut comp: Option<ComponentDecl> = None;
    let mut externs: Vec<ExternBlock> = Vec::new();
    for item in program.items {
        match item {
            TopLevelItem::Component(c) => comp = Some(c),
            TopLevelItem::ExternBlock(b) => externs.push(b),
        }
    }
    let plan = ReactivityAnalyzer::analyze_component(&comp.expect("no component")).expect("analysis failed");
    let mut compiler = WasmGcCompiler::new(plan, externs);
    assert!(compiler.within_limits());
    match compiler.try_compile() {
        Some(r) => r,
        None => panic!("compilation stopped without a result"),
    }
}

fn code_bodies(bytes: &[u8]) -> Vec<Vec<Operator<'_>>> {
    let mut bodies = Vec::new();
    for payload in Parser::new(0).parse_all(bytes) {
        if let Payload::CodeSectionEntry(body) = payload.expect("payload") {
            let mut ops = Vec::new();
            let mut reader = body.get_operators_reader().expect("operators");
            while !reader.eof() {
                ops.push(reader.read().expect("operator"));
            }
            bodies.push(ops);
        }
    }
    bodies
}

// ---------------------------------------------------------------- lexer

#[test]
fn lexer_keywords_identifiers_and_spans() {
    let toks = lex("export component Counter");
    assert_eq!(toks.len(), 4);
    assert!(matches!(toks[0].kind, TokenKind::Export));
    assert!(matches!(toks[1].kind, TokenKind::Component));
    assert!(matches!(&toks[2].kind, TokenKind::Ident(s) if s == "Counter"));
    assert!(matches!(toks[3].kind, TokenKind::Eof));
    assert_eq!(toks[0].span, Span::new(0, 6, 1, 1));
    assert_eq!(toks[1].span, Span::new(7, 16, 1, 8));
    assert_eq!(toks[2].span, Span::new(17, 24, 1, 18));
    assert_eq!(toks[3].span, Span::new(24, 24, 1, 25));
}

#[test]
fn lexer_all_keywords() {
    let toks = lex("component export signal computed fn render extern let mut if else return true false");
    assert!(matches!(toks[0].kind, TokenKind::Component));
    assert!(matches!(toks[1].kind, TokenKind::Export));
    assert!(matches!(toks[2].kind, TokenKind::Signal));
    assert!(matches!(toks[3].kind, TokenKind::Computed));
    assert!(matches!(toks[4].kind, TokenKind::Fn));
    assert!(matches!(toks[5].kind, TokenKind::Render));
    // `render` followed by anything but `{` stays in code.
    assert!(matches!(toks[6].kind, TokenKind::Extern));
    assert!(matches!(toks[7].kind, TokenKind::Let));
    assert!(matches!(toks[8].kind, TokenKind::Mut));
    assert!(matches!(toks[9].kind, TokenKind::If));
    assert!(matches!(toks[10].kind, TokenKind::Else));
    assert!(matches!(toks[11].kind, TokenKind::Return));
    assert!(matches!(toks[12].kind, TokenKind::True));
    assert!(matches!(toks[13].kind, TokenKind::False));
    assert!(matches!(toks[14].kind, TokenKind::Eof));
}

#[test]
fn lexer_compound_operators() {
    let toks = lex("+= -= *= /= == != <= >= && || -> + - * / % = < > ! ( ) [ ] : ; , .");
    let expected = [
        "+=", "-=", "*=", "/=", "==", "!=", "<=", ">=", "&&", "||", "->", "+", "-", "*", "/", "%", "=", "<", ">",
        "!", "(", ")", "[", "]", ":", ";", ",", ".",
    ];
    assert_eq!(toks.len(), expected.len() + 1);
    for (t, e) in toks.iter().zip(expected.iter()) {
        assert_eq!(t.kind.to_text(), *e);
    }
    assert!(matches!(toks[0].kind, TokenKind::PlusEq));
    assert!(matches!(toks[10].kind, TokenKind::Arrow));
    assert!(matches!(toks[19].kind, TokenKind::Not));
}

#[test]
fn lexer_string_escapes() {
    let toks = lex(r#""a\nb\t\"q\"\\z\x\r""#);
    assert_eq!(toks.len(), 2);
    assert!(matches!(&toks[0].kind, TokenKind::StringLit(s) if s == "a\nb\t\"q\"\\zx\r"));
}

#[test]
fn lexer_unterminated_string() {
    assert_eq!(lex_err("signal s: string = \"abc"), "Unterminated string literal at 1:20");
}

#[test]
fn lexer_unterminated_escape() {
    assert_eq!(lex_err("\"ab\\"), "Unterminated escape in string at 1:1");
}

#[test]
fn lexer_integer_limits() {
    let toks = lex("9223372036854775807");
    assert!(matches!(toks[0].kind, TokenKind::IntLit(i64::MAX)));
    assert_eq!(
        lex_err("99999999999999999999"),
        "Invalid integer: number too large to fit in target type"
    );
}

#[test]
fn lexer_float_keeps_its_text() {
    let toks = lex("3.25 7.x");
    assert!(matches!(&toks[0].kind, TokenKind::FloatLit(s) if s == "3.25"));
    assert!(matches!(toks[1].kind, TokenKind::IntLit(7)));
    assert!(matches!(toks[2].kind, TokenKind::Dot));
    assert!(matches!(&toks[3].kind, TokenKind::Ident(s) if s == "x"));
    assert_eq!(toks[0].span, Span::new(0, 4, 1, 1));
}

#[test]
fn lexer_unexpected_characters() {
    assert_eq!(lex_err("a # b"), "Unexpected character '#' at 1:3");
    assert_eq!(lex_err("a & b"), "Unexpected character '&' at 1:3");
    assert_eq!(lex_err("a\n  | b"), "Unexpected character '|' at 2:3");
}

#[test]
fn lexer_skips_comments_and_tracks_lines() {
    let toks = lex("// hi\nfoo /* x\n y */ bar");
    assert_eq!(toks.len(), 3);
    assert!(matches!(&toks[0].kind, TokenKind::Ident(s) if s == "foo"));
    assert_eq!((toks[0].span.line, toks[0].span.col), (2, 1));
    assert!(matches!(&toks[1].kind, TokenKind::Ident(s) if s == "bar"));
    assert_eq!((toks[1].span.line, toks[1].span.col), (3, 7));
}

#[test]
fn lexer_template_tokens() {
    let toks = lex("render { <div class=\"a\" @click=go>Hi {x}</div> }");
    let kinds: Vec<String> = toks.iter().map(|t| t.kind.to_text()).collect();
    assert_eq!(
        kinds,
        vec!["render", "{", "<div", "class", "=", "\"a\"", "click", "=", "go", ">", "\"Hi\"", "{", "x", "}", "</div>", "}", "<EOF>"]
    );
    assert!(matches!(&toks[6].kind, TokenKind::AtEvent(s) if s == "click"));
    assert!(matches!(&toks[14].kind, TokenKind::TagClose(s) if s == "div"));
}

#[test]
fn lexer_self_closing_and_blank_text() {
    let toks = lex("render { <p>   <br/></p> }");
    let kinds: Vec<String> = toks.iter().map(|t| t.kind.to_text()).collect();
    assert_eq!(kinds, vec!["render", "{", "<p", ">", "<br", "/>", "</p>", "}", "<EOF>"]);
}

#[test]
fn lexer_nested_code_braces_in_template() {
    let toks = lex("render { <p>{ {x} }</p> }");
    let kinds: Vec<String> = toks.iter().map(|t| t.kind.to_text()).collect();
    assert_eq!(kinds, vec!["render", "{", "<p", ">", "{", "{", "x", "}", "}", "</p>", "}", "<EOF>"]);
}

#[test]
fn lexer_template_errors() {
    assert_eq!(lex_err("render { <p>x</p x }"), "Expected '>' to close tag </p> at 1:18");
    assert_eq!(lex_err("render { <p #> }"), "Unexpected character '#' in template tag at 1:13");
}

// ---------------------------------------------------------------- parser

#[test]
fn parser_binary_precedence() {
    let e = computed_expr("1 + 2 * 3 - 4");
    match &e {
        Expr::Binary { op: BinaryOp::Sub, left, right, .. } => {
            assert!(matches!(right.as_ref(), Expr::IntLit(4, _)));
            match left.as_ref() {
                Expr::Binary { op: BinaryOp::Add, left: l2, right: r2, .. } => {
                    assert!(matches!(l2.as_ref(), Expr::IntLit(1, _)));
                    assert!(matches!(r2.as_ref(), Expr::Binary { op: BinaryOp::Mul, .. }));
                }
                other => panic!("unexpected {:?}", other),
            }
        }
        other => panic!("unexpected {:?}", other),
    }
    // The span of the whole expression runs from `1` to `4`.
    assert_eq!(e.span().col, 33);
}

#[test]
fn parser_logical_and_unary() {
    let e = computed_expr("!a || b && c == 1");
    match &e {
        Expr::Binary { op: BinaryOp::Or, left, right, .. } => {
            assert!(matches!(left.as_ref(), Expr::Unary { op: UnaryOp::Not, .. }));
            assert!(matches!(right.as_ref(), Expr::Binary { op: BinaryOp::And, .. }));
        }
        other => panic!("unexpected {:?}", other),
    }
}

#[test]
fn parser_calls_and_member_access() {
    let e = computed_expr("f(1, a.b)");
    match &e {
        Expr::Call { callee, args, .. } => {
            assert_eq!(callee, "f");
            assert_eq!(args.len(), 2);
            assert!(matches!(&args[1], Expr::MemberAccess { member, .. } if member == "b"));
        }
        other => panic!("unexpected {:?}", other),
    }
}

#[test]
fn parser_error_messages() {
    let err = |s: &str| syntax::parse(s).err().expect("expected an error");
    assert_eq!(err("component C { signal x i32 = 0; }"), "Expected ':', but found 'i32' at 1:24");
    assert_eq!(err("component { }"), "Expected identifier, but found '{' at 1:11");
    assert_eq!(err("signal x: i32 = 0;"), "Unexpected token 'signal' at top level at 1:1");
    assert_eq!(
        err("component C { render { <p>\"a\"</p> } render { <p>\"b\"</p> } }"),
        "Component can only have one render block"
    );
    assert_eq!(
        err("component C { render { <div><p>\"a\"</div> } }"),
        "Mismatched closing tag: expected '</p>', found '</div>'"
    );
    assert_eq!(err("component C { let }"), "Unexpected token 'let' in component body at 1:15");
    assert_eq!(err("component C { computed v: i32 = ; }"), "Unexpected token ';' in expression at 1:33");
}

#[test]
fn parser_extern_block_and_types() {
    let src = "extern \"env\" { fn log(a: i32, b: Option<bool>); fn now() -> Result<i64, string>; }";
    let program = syntax::parse(src).expect("parse");
    assert_eq!(program.items.len(), 1);
    match &program.items[0] {
        TopLevelItem::ExternBlock(b) => {
            assert_eq!(b.abi, "env");
            assert_eq!(b.functions.len(), 2);
            assert_eq!(b.functions[0].name, "log");
            assert_eq!(b.functions[0].params.len(), 2);
            assert!(b.functions[0].params[1].1 == Type::Option(Box::new(Type::Bool)));
            assert!(b.functions[0].return_type.is_none());
            assert_eq!(b.functions[1].name, "now");
            let rt = b.functions[1].return_type.clone().expect("return type");
            assert!(rt == Type::Result(Box::new(Type::I64), Box::new(Type::String)));
            assert_eq!(rt.to_text(), "Result<i64, string>");
        }
        _ => panic!("expected an extern block"),
    }
}

#[test]
fn parser_statements() {
    let c = component(
        "component C { signal n: i32 = 0; fn f(x: i32) -> i32 { let mut y: i32 = x; n += y; if y > 1 { return y; } else { n = 0; } g(); return; } }",
    );
    let m = &c.methods[0];
    assert_eq!(m.name, "f");
    assert_eq!(m.params.len(), 1);
    assert!(m.return_type.clone().expect("type") == Type::I32);
    assert_eq!(m.body.len(), 5);
    assert!(matches!(&m.body[0], syntax::Stmt::Let { is_mut: true, name, .. } if name == "y"));
    assert!(matches!(&m.body[1], syntax::Stmt::AssignOp { op: syntax::AssignOperator::AddEq, .. }));
    assert!(matches!(&m.body[2], syntax::Stmt::If { else_branch: Some(_), .. }));
    assert!(matches!(&m.body[3], syntax::Stmt::Expr(Expr::Call { .. })));
    assert!(matches!(&m.body[4], syntax::Stmt::Return(None, _)));
}

#[test]
fn parser_render_tree() {
    let c = component("export component C { render { <div id=\"r\" @click=go>\"t\" {1}<br/></div> } }");
    assert!(c.is_exported);
    let root = &c.render.as_ref().expect("render").root;
    match root {
        TemplateNode::Element(e) => {
            assert_eq!(e.tag, "div");
            assert_eq!(e.attributes.len(), 1);
            assert_eq!(e.attributes[0].name, "id");
            assert_eq!(e.events.len(), 1);
            assert_eq!(e.events[0].event_name, "click");
            assert_eq!(e.events[0].handler, "go");
            assert_eq!(e.children.len(), 3);
            assert!(matches!(&e.children[0], TemplateNode::Text(t, _) if t == "t"));
            assert!(matches!(&e.children[1], TemplateNode::DynamicExpr(Expr::IntLit(1, _), _)));
            assert!(matches!(&e.children[2], TemplateNode::Element(b) if b.tag == "br" && b.children.is_empty()));
        }
        _ => panic!("expected an element"),
    }
}

// ---------------------------------------------------------------- optimizer

#[test]
fn optimizer_folds_constants() {
    assert!(matches!(AstOptimizer::optimize_expr(&computed_expr("1 + 2 * 3 - 4")), Expr::IntLit(3, _)));
    assert!(matches!(AstOptimizer::optimize_expr(&computed_expr("17 % 5 + 8 / 3")), Expr::IntLit(4, _)));
    assert!(matches!(AstOptimizer::optimize_expr(&computed_expr("2 < 3")), Expr::BoolLit(true, _)));
    assert!(matches!(AstOptimizer::optimize_expr(&computed_expr("2 >= 3")), Expr::BoolLit(false, _)));
    assert!(matches!(AstOptimizer::optimize_expr(&computed_expr("true && false")), Expr::BoolLit(false, _)));
    assert!(matches!(AstOptimizer::optimize_expr(&computed_expr("true == false")), Expr::BoolLit(false, _)));
    assert!(matches!(AstOptimizer::optimize_expr(&computed_expr("-5")), Expr::IntLit(-5, _)));
    assert!(matches!(AstOptimizer::optimize_expr(&computed_expr("!true")), Expr::BoolLit(false, _)));
}

#[test]
fn optimizer_wraps_on_overflow() {
    let e = AstOptimizer::optimize_expr(&computed_expr("9223372036854775807 + 1"));
    assert!(matches!(e, Expr::IntLit(i64::MIN, _)));
    let e = AstOptimizer::optimize_expr(&computed_expr("9223372036854775807 * 2"));
    assert!(matches!(e, Expr::IntLit(-2, _)));
}

#[test]
fn optimizer_leaves_division_by_zero() {
    let e = AstOptimizer::optimize_expr(&computed_expr("7 / 0"));
    assert!(matches!(e, Expr::Binary { op: BinaryOp::Div, .. }));
    let e = AstOptimizer::optimize_expr(&computed_expr("7 % 0"));
    assert!(matches!(e, Expr::Binary { op: BinaryOp::Mod, .. }));
}

#[test]
fn optimizer_algebraic_identities() {
    let id = |s: &str| AstOptimizer::optimize_expr(&computed_expr(s));
    assert!(matches!(id("x + 0"), Expr::Ident(n, _) if n == "x"));
    assert!(matches!(id("0 + x"), Expr::Ident(n, _) if n == "x"));
    assert!(matches!(id("x - 0"), Expr::Ident(n, _) if n == "x"));
    assert!(matches!(id("x * 1"), Expr::Ident(n, _) if n == "x"));
    assert!(matches!(id("1 * x"), Expr::Ident(n, _) if n == "x"));
    assert!(matches!(id("x * 0"), Expr::IntLit(0, _)));
    assert!(matches!(id("0 * x"), Expr::IntLit(0, _)));
    assert!(matches!(id("x / 1"), Expr::Ident(n, _) if n == "x"));
    assert!(matches!(id("x && true"), Expr::Ident(n, _) if n == "x"));
    assert!(matches!(id("x && false"), Expr::BoolLit(false, _)));
    assert!(matches!(id("x || false"), Expr::Ident(n, _) if n == "x"));
    assert!(matches!(id("true || x"), Expr::BoolLit(true, _)));
    // `0 - x` is no identity.
    assert!(matches!(id("0 - x"), Expr::Binary { op: BinaryOp::Sub, .. }));
    // Folding goes inside calls and member accesses.
    match id("f(1 + 1, g(2 * 3), a.b)") {
        Expr::Call { args, .. } => {
            assert!(matches!(&args[0], Expr::IntLit(2, _)));
            assert!(matches!(&args[1], Expr::Call { args: inner, .. } if matches!(&inner[0], Expr::IntLit(6, _))));
            assert!(matches!(&args[2], Expr::MemberAccess { member, .. } if member == "b"));
        }
        other => panic!("unexpected {:?}", other),
    }
}

#[test]
fn optimizer_component_folds_every_part() {
    let c = component(
        "component C { signal s: i32 = 2 * 3; computed k: i32 = s * 1; fn f() { s = 1 + 1; } render { <p>{4 - 4}</p> } }",
    );
    assert!(AstOptimizer::can_fold_component(&c));
    let o = AstOptimizer::optimize_component(c);
    assert!(matches!(o.signals[0].init_expr, Expr::IntLit(6, _)));
    assert!(matches!(&o.computeds[0].expr, Expr::Ident(n, _) if n == "s"));
    assert!(matches!(&o.methods[0].body[0], syntax::Stmt::Assign { value: Expr::IntLit(2, _), .. }));
    match &o.render.as_ref().expect("render").root {
        TemplateNode::Element(e) => {
            assert!(matches!(&e.children[0], TemplateNode::DynamicExpr(Expr::IntLit(0, _), _)))
        }
        _ => panic!("expected an element"),
    }
}

#[test]
fn optimizer_refuses_negating_the_minimum() {
    // -(i64::MIN) has no i64 value: such a component is not folded.
    let c = component("component C { computed k: i32 = -(0 - 9223372036854775807 - 1); }");
    assert!(!AstOptimizer::can_fold_component(&c));
}

// ---------------------------------------------------------------- reactivity

#[test]
fn reactivity_masks_through_computeds() {
    let plan = plan_of(
        "component C { signal a: i32 = 0; signal b: i32 = 0; signal c: i32 = 0; computed x: i32 = a + b; computed y: i32 = x * c; computed k: i32 = 5; render { <p>{y}</p> } }",
    );
    assert_eq!(plan.signals.len(), 3);
    assert_eq!(plan.signals[2].mask, 0b100);
    assert_eq!(plan.computeds[0].mask, 0b011);
    assert_eq!(plan.computeds[1].mask, 0b111);
    assert_eq!(plan.computeds[2].mask, 0);
    let slot = plan
        .elements
        .iter()
        .find_map(|e| match &e.kind {
            PlannedNodeKind::DynamicText(s) => Some(s),
            _ => None,
        })
        .expect("slot");
    assert_eq!(slot.trigger_mask, 0b111);
    assert_eq!(plan.signal_name_to_id.get(&"c".to_string()), Some(2));
    assert_eq!(plan.computed_name_to_id.get(&"y".to_string()), Some(1));
    assert_eq!(plan.computed_name_to_id.get(&"a".to_string()), None);
}

#[test]
fn reactivity_cyclic_computed() {
    let c = component("component C { computed a: i32 = b; computed b: i32 = a; }");
    let r = ReactivityAnalyzer::analyze_component(&c);
    assert_eq!(r.err(), Some("Cyclic dependency detected in computed 'b'".to_string()));
}

#[test]
fn reactivity_signal_limit() {
    let mut src = String::from("component Big {");
    for i in 0..32 {
        src.push_str(&format!(" signal s{}: i32 = 0;", i));
    }
    let ok = format!("{} }}", src);
    let plan = plan_of(&ok);
    assert_eq!(plan.signals[31].mask, 1u32 << 31);
    let too_many = format!("{} signal s32: i32 = 0; }}", src);
    let r = ReactivityAnalyzer::analyze_component(&component(&too_many));
    assert_eq!(r.err(), Some("Too many signals in component Big (max 32)".to_string()));
}

#[test]
fn reactivity_element_plan() {
    let plan = plan_of(
        "component C { signal a: i32 = 0; render { <div class=\"c\" @click=f><p>\"hi\"</p>\"txt\"{a}<span></span></div> } }",
    );
    assert_eq!(plan.elements.len(), 5);
    let ids: Vec<(usize, usize)> = plan.elements.iter().map(|e| (e.id, e.parent_id)).collect();
    assert_eq!(ids, vec![(1, 0), (2, 1), (3, 1), (4, 1), (5, 1)]);
    match &plan.elements[0].kind {
        PlannedNodeKind::Element { tag, static_attrs, events, static_text } => {
            assert_eq!(tag, "div");
            assert_eq!(static_attrs, &vec![("class".to_string(), "c".to_string())]);
            assert_eq!(events, &vec![("click".to_string(), "f".to_string())]);
            assert!(static_text.is_none());
        }
        _ => panic!("expected an element"),
    }
    assert!(matches!(&plan.elements[1].kind, PlannedNodeKind::Element { static_text: Some(t), .. } if t == "hi"));
    assert!(matches!(&plan.elements[2].kind, PlannedNodeKind::StaticText(t) if t == "txt"));
    assert!(matches!(&plan.elements[3].kind, PlannedNodeKind::DynamicText(s) if s.state_slot == 0 && s.trigger_mask == 1));
    assert!(matches!(&plan.elements[4].kind, PlannedNodeKind::Element { static_text: None, .. }));
    assert_eq!(plan.dynamic_text_slots, 1);
}

#[test]
fn reactivity_plan_without_render() {
    let plan = plan_of("export component C { signal a: i32 = 1; fn f() { a = 2; } }");
    assert_eq!(plan.name, "C");
    assert!(plan.is_exported);
    assert!(plan.elements.is_empty());
    assert_eq!(plan.dynamic_text_slots, 0);
    assert_eq!(plan.methods.len(), 1);
}

// ---------------------------------------------------------------- string table

#[test]
fn string_table_lays_out_strings() {
    let mut t = StringTable::new();
    let a = t.insert("hello");
    let b = t.insert("wörld");
    let a2 = t.insert("hello");
    assert_eq!((a.offset, a.len), (1024, 5));
    assert_eq!((b.offset, b.len), (1029, 6));
    assert_eq!(a2, a);
    assert_eq!(t.get("wörld"), Some(b));
    assert_eq!(t.get("none"), None);
    assert_eq!(t.data(), "hellowörld".as_bytes());
}

// ---------------------------------------------------------------- types

#[test]
fn type_classification() {
    assert!(Type::F32.is_numeric());
    assert!(!Type::F32.is_integer());
    assert!(Type::U64.is_integer());
    assert!(!Type::Bool.is_numeric());
    assert!(Type::Option(Box::new(Type::I32)).is_compatible_with(&Type::Option(Box::new(Type::I32))));
    assert!(!Type::I32.is_compatible_with(&Type::I64));
    assert_eq!(Type::Custom("Point".to_string()).to_text(), "Point");
}

// ---------------------------------------------------------------- codegen

const COUNTER: &str = r#"
extern "env" { fn log(a: i32, b: i32); fn tick(); }
export component Counter {
  signal count: i32 = 0;
  computed doubled: i32 = count * 2;
  fn increment() { count += 1; log(count, 2); }
  render { <button @click=increment>{doubled}</button> }
}
"#;

#[test]
fn codegen_field_layout() {
    let plan = plan_of(
        "component C { signal a: i32 = 0; signal b: i32 = 0; computed x: i32 = a; render { <p>{a}{x}</p> } }",
    );
    let c = WasmGcCompiler::new(plan, Vec::new());
    assert_eq!(c.signal_field_idx(1), 2);
    assert_eq!(c.computed_field_idx(0), 3);
    assert_eq!(c.dynamic_slot_field_idx(1), 5);
    assert_eq!(c.total_struct_fields(), 6);
}

#[test]
fn codegen_imports_and_exports() {
    let bytes = compile_source(COUNTER).expect("compile");
    let mut imports: Vec<(String, String, u32)> = Vec::new();
    let mut exports: Vec<(String, ExternalKind, u32)> = Vec::new();
    let mut data: Vec<(i32, Vec<u8>)> = Vec::new();
    for payload in Parser::new(0).parse_all(&bytes) {
        match payload.expect("payload") {
            Payload::ImportSection(r) => {
                for imp in r.into_imports() {
                    let imp = imp.expect("import");
                    let ty = match imp.ty {
                        TypeRef::Func(t) => t,
                        _ => panic!("only functions are imported"),
                    };
                    imports.push((imp.module.to_string(), imp.name.to_string(), ty));
                }
            }
            Payload::ExportSection(r) => {
                for e in r {
                    let e = e.expect("export");
                    exports.push((e.name.to_string(), e.kind, e.index));
                }
            }
            Payload::DataSection(r) => {
                for d in r {
                    let d = d.expect("data");
                    if let DataKind::Active { offset_expr, .. } = d.kind {
                        let mut ops = offset_expr.get_operators_reader();
                        let off = match ops.read().expect("op") {
                            Operator::I32Const { value } => value,
                            _ => panic!("offset"),
                        };
                        data.push((off, d.data.to_vec()));
                    }
                }
            }
            _ => {}
        }
    }
    let names: Vec<&str> = imports.iter().map(|(_, n, _)| n.as_str()).collect();
    assert_eq!(
        names,
        vec!["createElement", "createTextNode", "setTextContent", "setAttribute", "appendChild", "addEventListener", "setTextNumber", "log", "tick"]
    );
    assert!(imports[..7].iter().all(|(m, _, _)| m == "dom"));
    assert_eq!(imports[7], ("env".to_string(), "log".to_string(), 9));
    assert_eq!(imports[8], ("env".to_string(), "tick".to_string(), 7));
    assert_eq!(
        exports,
        vec![
            ("memory".to_string(), ExternalKind::Memory, 0),
            ("__table".to_string(), ExternalKind::Table, 0),
            ("mount".to_string(), ExternalKind::Func, 9),
            ("increment".to_string(), ExternalKind::Func, 11),
            ("get_count".to_string(), ExternalKind::Func, 12),
            ("get_doubled".to_string(), ExternalKind::Func, 13),
        ]
    );
    assert_eq!(data.len(), 1);
    assert_eq!(data[0].0, 1024);
    assert_eq!(data[0].1, b"buttondata-vt-click0".to_vec());
}

#[test]
fn codegen_method_marks_dirty_and_calls_extern() {
    let bytes = compile_source(COUNTER).expect("compile");
    let bodies = code_bodies(&bytes);
    // mount, render, increment, two getters
    assert_eq!(bodies.len(), 5);
    let inc = &bodies[2];
    assert!(inc.iter().any(|op| matches!(op, Operator::Call { function_index: 7 })));
    assert!(inc.iter().any(|op| matches!(op, Operator::StructSet { struct_type_index: 12, field_index: 1 })));
    assert!(inc.iter().any(|op| matches!(op, Operator::I32Const { value: 1 })));
    assert!(inc.iter().any(|op| matches!(op, Operator::Call { function_index: 10 })));
}

#[test]
fn codegen_errors() {
    let handler = compile_source("component C { render { <button @click=nope>\"x\"</button> } }");
    assert_eq!(handler.err(), Some("Handler 'nope' not found".to_string()));
    let ident = compile_source("component C { computed c: i32 = y; }");
    assert_eq!(ident.err(), Some("Unknown identifier 'y' in expression".to_string()));
    let call = compile_source("component C { computed c: i32 = f(1); }");
    assert_eq!(call.err(), Some("Unknown function 'f' in call expression".to_string()));
    let member = compile_source("component C { signal s: i32 = 0; fn g() { s = a.b; } }");
    let msg = member.err().expect("error");
    assert!(msg.starts_with("Expression type MemberAccess"), "{}", msg);
    assert!(msg.ends_with("not yet supported in codegen"), "{}", msg);
}

#[test]
fn codegen_stops_on_uninterned_string() {
    let plan = plan_of("component C { computed c: i32 = \"s\"; }");
    let mut compiler = WasmGcCompiler::new(plan, Vec::new());
    assert!(compiler.within_limits());
    assert!(compiler.try_compile().is_none());
}

// ---------------------------------------------------------------- dev server

#[test]
fn devserver_requested_file() {
    assert_eq!(requested_file("GET / HTTP/1.1\r\nHost: x\r\n\r\n"), "index.html");
    assert_eq!(requested_file("GET /app.wasm HTTP/1.1\r\n"), "app.wasm");
    assert_eq!(requested_file("GET //a/b.js HTTP/1.1"), "a/b.js");
    assert_eq!(requested_file(""), "index.html");
    assert_eq!(requested_file("GET"), "index.html");
    assert_eq!(requested_file("GET   /x.css\tHTTP/1.1"), "x.css");
}

#[test]
fn devserver_responses() {
    assert_eq!(mime_type(Some("wasm")), "application/wasm");
    assert_eq!(mime_type(Some("html")), "text/html; charset=utf-8");
    assert_eq!(mime_type(Some("js")), "application/javascript; charset=utf-8");
    assert_eq!(mime_type(Some("css")), "text/css; charset=utf-8");
    assert_eq!(mime_type(Some("png")), "application/octet-stream");
    assert_eq!(mime_type(None), "application/octet-stream");
    assert_eq!(
        ok_head("text/css; charset=utf-8", 42),
        "HTTP/1.1 200 OK\r\nContent-Type: text/css; charset=utf-8\r\nContent-Length: 42\r\nAccess-Control-Allow-Origin: *\r\n\r\n"
    );
    assert_eq!(not_found(), "HTTP/1.1 404 NOT FOUND\r\nContent-Length: 9\r\n\r\nNot Found");
}

// ---------------------------------------------------------------- laws on examples

#[test]
fn optimizer_folding_twice_changes_nothing() {
    let e = computed_expr("(x + 0) * (2 + 3) - y / 1");
    let once = AstOptimizer::optimize_expr(&e);
    let twice = AstOptimizer::optimize_expr(&once);
    assert_eq!(format!("{:?}", once), format!("{:?}", twice));
}

#[test]
fn parse_reports_lexing_errors() {
    let err = syntax::parse("component C { signal x: i32 = #; }").err().expect("error");
    assert_eq!(err, "Unexpected character '#' at 1:31");
}

#[test]
fn codegen_every_method_ends_clearing_the_mask() {
    let src = "component C { signal a: i32 = 0; fn f() { a = 1; } fn g() { a += 2; } }";
    let bytes = compile_source(src).expect("compile");
    let bodies = code_bodies(&bytes);
    // mount, render, f, g, one getter
    assert_eq!(bodies.len(), 5);
    for m in &bodies[2..4] {
        let n = m.len();
        assert!(matches!(m[n - 4], Operator::LocalGet { local_index: 0 }));
        assert!(matches!(m[n - 3], Operator::I32Const { value: 0 }));
        assert!(matches!(m[n - 2], Operator::StructSet { struct_type_index: 12, field_index: 0 }));
        assert!(matches!(m[n - 1], Operator::End));
    }
    // mount starts by setting every bit of the dirty mask.
    assert!(matches!(bodies[0][0], Operator::I32Const { value: -1 }));
}

#[test]
fn reactivity_signal_bits_are_disjoint() {
    let plan = plan_of("component C { signal a: i32 = 0; signal b: i32 = 0; signal c: i32 = 0; render { <p>{a + c}</p> } }");
    for i in 0..plan.signals.len() {
        for j in 0..plan.signals.len() {
            if i != j {
                assert_eq!(plan.signals[i].mask & plan.signals[j].mask, 0);
            }
        }
    }
    let slot = plan
        .elements
        .iter()
        .find_map(|e| match &e.kind {
            PlannedNodeKind::DynamicText(s) => Some(s),
            _ => None,
        })
        .expect("slot");
    assert_eq!(slot.trigger_mask, 0b101);
    assert!(slot.trigger_mask < (1u32 << plan.signals.len()));
}

// ------------------------------------------------------------ debug text, build step

fn first_method_value(src: &str) -> Expr {
    let c = component(src);
    let m = c.methods.into_iter().next().expect("no method");
    match m.body.into_iter().next().expect("no statement") {
        volt::syntax::ast::Stmt::Assign { value, .. } => value,
        _ => panic!("not an assignment"),
    }
}

#[test]
fn codegen_unsupported_message_shows_debug_text() {
    for src in [
        "component C { signal s: i32 = 0; fn g() { s = a.b; } }",
        "component C { signal s: i32 = 0; fn g() { s = zeta.alpha_9; } }",
        "component C { signal s: i32 = 0; fn g() { s = 1.5; } }",
    ] {
        let value = first_method_value(src);
        let expected = format!("Expression type {:?} not yet supported in codegen", value);
        assert_eq!(compile_source(src).err(), Some(expected));
    }
}

#[test]
fn string_table_offset_follows_data() {
    let mut t = StringTable::new();
    let a = t.insert("héllo");
    assert_eq!(a.offset, 1024);
    let old = t.data().to_vec();
    let b = t.insert("x");
    assert_eq!(b.offset as usize, 1024 + old.len());
    assert_eq!(b.len, 1);
    assert_eq!(t.data(), [old.as_slice(), b"x"].concat().as_slice());
    assert_eq!(t.insert("héllo").offset, 1024);
    assert_eq!(t.data(), "héllox".as_bytes());
}

#[test]
fn build_step_takes_last_component() {
    let src = "extern \"env\" { fn log(x: i32); } component A { signal a: i32 = 0; } component B { signal b: i32 = 1; signal c: i32 = 2; }";
    let program = syntax::parse(src).expect("parse");
    assert!(build_is_defined(&program));
    match plan_program(program) {
        Ok((blocks, plan)) => {
            assert_eq!(blocks.len(), 1);
            assert_eq!(blocks[0].abi, "env");
            assert_eq!(plan.name, "B");
            assert_eq!(plan.signals.len(), 2);
        }
        Err(_) => panic!("expected a plan"),
    }
    let none = syntax::parse("extern \"env\" { fn log(x: i32); }").expect("parse");
    assert!(matches!(plan_program(none), Err(BuildError::NoComponent)));
}

#[test]
fn type_text_parses_back() {
    let types = vec![
        Type::I32,
        Type::Bool,
        Type::Option(Box::new(Type::U64)),
        Type::Result(Box::new(Type::Option(Box::new(Type::I32))), Box::new(Type::Custom("Point".to_string()))),
    ];
    for t in types {
        let src = format!("component A {{ signal x: {} = 0; }}", t.to_text());
        let c = component(&src);
        assert_eq!(c.signals[0].type_ann.to_text(), t.to_text());
        assert!(c.signals[0].type_ann.is_compatible_with(&t));
    }
}

#[test]
fn compiling_twice_gives_the_same_module() {
    let plan = plan_of("component C { signal n: i32 = 0; fn inc() { n = n + 1; } render { <p>{n}</p> } }");
    let mut compiler = WasmGcCompiler::new(plan, Vec::new());
    assert!(compiler.within_limits());
    let first = compiler.try_compile();
    let second = compiler.try_compile();
    assert!(matches!(first, Some(Ok(_))));
    assert_eq!(first, second);
}

#[test]
fn whitespace_class_matches_std() {
    for u in 0u32..=0x10FFFF {
        if let Some(c) = char::from_u32(u) {
            assert_eq!(volt::syntax::chars::is_whitespace(c), c.is_whitespace(), "U+{:04X}", u);
        }
    }
}

#[test]
fn compiling_twice_through_compile_repeats() {
    let plan = plan_of("component C { signal n: i32 = 0; fn inc() { n = n + 1; } render { <p>\"n: \"{n}</p> } }");
    let mut compiler = WasmGcCompiler::new(plan, Vec::new());
    assert!(compiler.within_limits());
    let first = compiler.compile();
    let second = compiler.compile();
    assert!(first.is_ok());
    assert_eq!(first, second);
}

#[test]
fn symbol_texts_lex_back() {
    let texts = [
        "+", "-", "*", "/", "%", "=", "+=", "-=", "*=", "/=", "==", "!=", "<", "<=", ">", ">=", "&&", "||", "!", "{",
        "}", "(", ")", "[", "]", ":", ";", ",", "->", ".",
    ];
    for text in texts {
        let toks = lex(text);
        assert_eq!(toks.len(), 2, "{}", text);
        assert_eq!(toks[0].kind.to_text(), text);
        assert_eq!(toks[1].kind.to_text(), "<EOF>");
    }
}

#[test]
fn folding_identities() {
    let s = Span::new(0, 1, 1, 1);
    let x = || Expr::Ident("x".to_string(), s);
    let int = |n: i64| Expr::IntLit(n, s);
    let boolean = |b: bool| Expr::BoolLit(b, s);
    let bin = |op: BinaryOp, l: Expr, r: Expr| Expr::Binary { op, left: Box::new(l), right: Box::new(r), span: s };
    let text = |e: &Expr| format!("{:?}", e);
    let folded = |e: Expr| text(&AstOptimizer::optimize_expr(&e));
    assert_eq!(folded(bin(BinaryOp::Add, x(), int(0))), text(&x()));
    assert_eq!(folded(bin(BinaryOp::Add, int(0), x())), text(&x()));
    assert_eq!(folded(bin(BinaryOp::Sub, x(), int(0))), text(&x()));
    assert_eq!(folded(bin(BinaryOp::Mul, x(), int(1))), text(&x()));
    assert_eq!(folded(bin(BinaryOp::Mul, x(), int(0))), text(&int(0)));
    assert_eq!(folded(bin(BinaryOp::Div, x(), int(1))), text(&x()));
    assert_eq!(folded(bin(BinaryOp::And, x(), boolean(true))), text(&x()));
    assert_eq!(folded(bin(BinaryOp::And, x(), boolean(false))), text(&boolean(false)));
    assert_eq!(folded(bin(BinaryOp::Or, x(), boolean(false))), text(&x()));
    assert_eq!(folded(bin(BinaryOp::Or, x(), boolean(true))), text(&boolean(true)));
}

#[test]
fn state_field_indices() {
    let plan = plan_of("component C { signal a: i32 = 0; signal b: i32 = 1; computed c: i32 = a + b; render { <p>{a}</p> } }");
    let compiler = WasmGcCompiler::new(plan, Vec::new());
    assert_eq!(compiler.signal_field_idx(0), 1);
    assert_eq!(compiler.signal_field_idx(1), 2);
    assert_eq!(compiler.computed_field_idx(0), 3);
    assert_eq!(compiler.dynamic_slot_field_idx(0), 4);
    assert_eq!(compiler.total_struct_fields(), 5);
}
