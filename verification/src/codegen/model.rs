//! The code of each function that the generator emits, as a function of the
//! component plan, the interned strings and the foreign functions.

use vstd::prelude::*;
use crate::analysis::reactivity::{lookup_name, ComponentPlanV, PlannedElementV, PlannedNodeKindV};
use crate::codegen::memory_layout::{find_entry, utf8, StringEntry, DATA_START};
use crate::codegen::wasm::{section_fits, ExportTarget, Instr, SectionV, TypeEntry, ValTy};
use crate::codegen::wasm_gc::STATE_TYPE_IDX;
use crate::syntax::ast::{AssignOperator, BinaryOp, ExprV, FnDeclV, StmtV, UnaryOp, ExternBlockV, ExternFnDeclV};
use crate::text::{decimal, signed_decimal};
use crate::syntax::token::Span;

verus! {

/// How the emission of a piece of code ends: with its result, with an error
/// message, with an error on an expression kind that has no code, or at a
/// point where the generator has no value to go on with.
pub enum Outcome<T> {
    Done(T),
    Fail(Seq<char>),
    Unsupported(ExprV),
    Panic,
}

/// Why emission stopped.
#[derive(Debug)]
pub enum Halt {
    Error(String),
    Panic,
}

/// The `Debug` text of a string: the string quoted, with its special
/// characters escaped (what `format!("{:?}", ..)` writes for a `str`).
pub uninterp spec fn str_debug_of(s: Seq<char>) -> Seq<char>;

/// The `Debug` text of a span.
pub open spec fn span_debug(s: Span) -> Seq<char> {
    "Span { start: "@ + decimal(s.start as nat) + ", end: "@ + decimal(s.end as nat) + ", line: "@
        + decimal(s.line as nat) + ", col: "@ + decimal(s.col as nat) + " }"@
}

/// The name of a binary operator.
pub open spec fn binop_name(op: BinaryOp) -> Seq<char> {
    match op {
        BinaryOp::Add => "Add"@,
        BinaryOp::Sub => "Sub"@,
        BinaryOp::Mul => "Mul"@,
        BinaryOp::Div => "Div"@,
        BinaryOp::Mod => "Mod"@,
        BinaryOp::Eq => "Eq"@,
        BinaryOp::NotEq => "NotEq"@,
        BinaryOp::Lt => "Lt"@,
        BinaryOp::LtEq => "LtEq"@,
        BinaryOp::Gt => "Gt"@,
        BinaryOp::GtEq => "GtEq"@,
        BinaryOp::And => "And"@,
        BinaryOp::Or => "Or"@,
    }
}

/// The name of a unary operator.
pub open spec fn unop_name(op: UnaryOp) -> Seq<char> {
    match op {
        UnaryOp::Neg => "Neg"@,
        UnaryOp::Not => "Not"@,
    }
}

/// The `Debug` text of an expression: its variant's name, then its fields in
/// order, in round brackets for the literals and identifiers, and as
/// `name: value` pairs in curly brackets for the others.
pub open spec fn debug_text_of(e: ExprV) -> Seq<char>
    decreases e,
{
    match e {
        ExprV::IntLit(n, s) => "IntLit("@ + signed_decimal(n as int) + ", "@ + span_debug(s) + ")"@,
        ExprV::FloatLit(t, s) => "FloatLit("@ + str_debug_of(t) + ", "@ + span_debug(s) + ")"@,
        ExprV::StringLit(t, s) => "StringLit("@ + str_debug_of(t) + ", "@ + span_debug(s) + ")"@,
        ExprV::BoolLit(b, s) => "BoolLit("@ + (if b { "true"@ } else { "false"@ }) + ", "@ + span_debug(s) + ")"@,
        ExprV::Ident(t, s) => "Ident("@ + str_debug_of(t) + ", "@ + span_debug(s) + ")"@,
        ExprV::Binary { op, left, right, span } => "Binary { op: "@ + binop_name(op) + ", left: "@
            + debug_text_of(*left) + ", right: "@ + debug_text_of(*right) + ", span: "@ + span_debug(span) + " }"@,
        ExprV::Unary { op, expr, span } => "Unary { op: "@ + unop_name(op) + ", expr: "@ + debug_text_of(*expr)
            + ", span: "@ + span_debug(span) + " }"@,
        ExprV::Call { callee, args, span } => "Call { callee: "@ + str_debug_of(callee) + ", args: ["@
            + args_debug(args) + "], span: "@ + span_debug(span) + " }"@,
        ExprV::MemberAccess { object, member, span } => "MemberAccess { object: "@ + debug_text_of(*object)
            + ", member: "@ + str_debug_of(member) + ", span: "@ + span_debug(span) + " }"@,
    }
}

/// The `Debug` texts of a list of arguments, separated by `, `.
pub open spec fn args_debug(args: Seq<ExprV>) -> Seq<char>
    decreases args,
{
    if args.len() == 0 {
        Seq::empty()
    } else {
        proof {
            assert(decreases_to!(args => args[args.len() - 1]));
            assert(decreases_to!(args => args.subrange(0, args.len() - 1)));
        }
        if args.len() == 1 {
            debug_text_of(args[0])
        } else {
            args_debug(args.subrange(0, args.len() - 1)) + ", "@ + debug_text_of(args[args.len() - 1])
        }
    }
}

/// The message for an expression kind that has no code.
pub open spec fn unsupported_message(e: ExprV) -> Seq<char> {
    "Expression type "@ + debug_text_of(e) + " not yet supported in codegen"@
}

/// `a`, then `b` after it, unless `a` stopped.
pub open spec fn then(a: Outcome<Seq<Instr>>, b: Outcome<Seq<Instr>>) -> Outcome<Seq<Instr>> {
    match a {
        Outcome::Done(x) => match b {
            Outcome::Done(y) => Outcome::Done(x + y),
            Outcome::Fail(m) => Outcome::Fail(m),
            Outcome::Unsupported(e) => Outcome::Unsupported(e),
            Outcome::Panic => Outcome::Panic,
        },
        Outcome::Fail(m) => Outcome::Fail(m),
        Outcome::Unsupported(e) => Outcome::Unsupported(e),
        Outcome::Panic => Outcome::Panic,
    }
}

/// Code that always emits.
pub open spec fn code(c: Seq<Instr>) -> Outcome<Seq<Instr>> {
    Outcome::Done(c)
}

/// An exec result agrees with an outcome: on `Done(c)` the instructions `c`
/// were appended; otherwise the error agrees.
pub open spec fn emitted_as(r: Result<(), Halt>, o: Outcome<Seq<Instr>>, before: Seq<Instr>, after: Seq<Instr>) -> bool {
    match o {
        Outcome::Done(c) => r is Ok && after == before + c,
        Outcome::Fail(m) => r matches Err(Halt::Error(s)) && s@ == m,
        Outcome::Unsupported(e) => r matches Err(Halt::Error(s)) && s@ == unsupported_message(e),
        Outcome::Panic => r matches Err(Halt::Panic),
    }
}

/// What expression code is generated against: the signal and computed id
/// maps, the number of signals, the interned strings, and the import index of
/// each foreign function.
pub struct EmitCx {
    pub sigs: Seq<(Seq<char>, usize)>,
    pub comps: Seq<(Seq<char>, usize)>,
    pub ns: nat,
    pub entries: Seq<(Seq<char>, StringEntry)>,
    pub ext: Seq<(Seq<char>, usize)>,
}

/// Struct field of signal `id`: after the dirty mask.
pub open spec fn sig_field(id: int) -> u32 {
    (1 + id) as u32
}

/// Struct field of computed `id`: after the signals.
pub open spec fn comp_field(ns: int, id: int) -> u32 {
    (1 + ns + id) as u32
}

/// Struct field of dynamic text slot `slot`: after the computeds.
pub open spec fn slot_field(ns: int, nc: int, slot: int) -> u32 {
    (1 + ns + nc + slot) as u32
}

/// Reads a field of the component state held in global 0.
pub open spec fn read_state(field: u32) -> Seq<Instr> {
    seq![Instr::GlobalGet(0), Instr::StructGet { struct_type_index: STATE_TYPE_IDX, field_index: field }]
}

/// The instruction of a binary operator.
pub open spec fn binop_instr(op: BinaryOp) -> Instr {
    match op {
        BinaryOp::Add => Instr::I32Add,
        BinaryOp::Sub => Instr::I32Sub,
        BinaryOp::Mul => Instr::I32Mul,
        BinaryOp::Div => Instr::I32DivS,
        BinaryOp::Mod => Instr::I32RemS,
        BinaryOp::Eq => Instr::I32Eq,
        BinaryOp::NotEq => Instr::I32Ne,
        BinaryOp::Lt => Instr::I32LtS,
        BinaryOp::LtEq => Instr::I32LeS,
        BinaryOp::Gt => Instr::I32GtS,
        BinaryOp::GtEq => Instr::I32GeS,
        BinaryOp::And => Instr::I32And,
        BinaryOp::Or => Instr::I32Or,
    }
}

/// The code that follows the operand of a unary operator: `i32.const 0;
/// i32.sub` for negation, `i32.eqz` for not. With the operand first, the
/// negation code computes `x - 0`, that is `x` itself, not `-x`: this is what
/// the generated code does, and it is kept as it is.
pub open spec fn unop_code(op: UnaryOp) -> Seq<Instr> {
    match op {
        UnaryOp::Neg => seq![Instr::I32Const(0), Instr::I32Sub],
        UnaryOp::Not => seq![Instr::I32Eqz],
    }
}

/// The message for a name that is neither a signal nor a computed.
pub open spec fn unknown_ident_message(name: Seq<char>) -> Seq<char> {
    "Unknown identifier '"@ + name + "' in expression"@
}

/// The message for a call of a function that no extern block declares.
pub open spec fn unknown_fn_message(name: Seq<char>) -> Seq<char> {
    "Unknown function '"@ + name + "' in call expression"@
}

/// The code of an expression: it leaves the expression's `i32` value on the
/// stack. A string literal stands for its offset in memory; a signal or
/// computed is read from the state; a call pushes its arguments, then calls
/// the import.
pub open spec fn expr_code(e: ExprV, cx: EmitCx) -> Outcome<Seq<Instr>>
    decreases e,
{
    match e {
        ExprV::IntLit(n, _) => code(seq![Instr::I32Const(n as i32)]),
        ExprV::BoolLit(b, _) => code(seq![Instr::I32Const(if b { 1 } else { 0 })]),
        ExprV::StringLit(s, _) => match find_entry(cx.entries, s) {
            Some(en) => code(seq![Instr::I32Const(en.offset as i32)]),
            None => Outcome::Panic,
        },
        ExprV::Ident(name, _) => match lookup_name(cx.sigs, name) {
            Some(id) => code(read_state(sig_field(id as int))),
            None => match lookup_name(cx.comps, name) {
                Some(id) => code(read_state(comp_field(cx.ns as int, id as int))),
                None => Outcome::Fail(unknown_ident_message(name)),
            },
        },
        ExprV::Call { callee, args, .. } => match lookup_name(cx.ext, callee) {
            Some(ix) => then(args_code(args, cx), code(seq![Instr::Call(ix as u32)])),
            None => Outcome::Fail(unknown_fn_message(callee)),
        },
        ExprV::Binary { op, left, right, .. } => then(
            expr_code(*left, cx),
            then(expr_code(*right, cx), code(seq![binop_instr(op)])),
        ),
        ExprV::Unary { op, expr, .. } => then(expr_code(*expr, cx), code(unop_code(op))),
        _ => Outcome::Unsupported(e),
    }
}

/// The code of a list of arguments, in order.
pub open spec fn args_code(args: Seq<ExprV>, cx: EmitCx) -> Outcome<Seq<Instr>>
    decreases args,
{
    if args.len() == 0 {
        code(Seq::empty())
    } else {
        proof {
            assert(decreases_to!(args => args[args.len() - 1]));
            assert(decreases_to!(args => args.subrange(0, args.len() - 1)));
        }
        then(args_code(args.subrange(0, args.len() - 1), cx), expr_code(args[args.len() - 1], cx))
    }
}

/// Emitting `a` and then `b` emits `then(a, b)`.
pub proof fn lemma_emitted_seq(
    r: Result<(), Halt>,
    a: Outcome<Seq<Instr>>,
    b: Outcome<Seq<Instr>>,
    before: Seq<Instr>,
    mid: Seq<Instr>,
    after: Seq<Instr>,
)
    requires
        a is Done,
        mid == before + a->Done_0,
        emitted_as(r, b, mid, after),
    ensures
        emitted_as(r, then(a, b), before, after),
{
    if let Outcome::Done(y) = b {
        assert(after =~= before + (a->Done_0 + y));
    }
}

/// When `a` stops, so does `then(a, b)`, the same way.
pub proof fn lemma_emitted_stop(
    r: Result<(), Halt>,
    a: Outcome<Seq<Instr>>,
    b: Outcome<Seq<Instr>>,
    before: Seq<Instr>,
    after: Seq<Instr>,
)
    requires
        !(a is Done),
        emitted_as(r, a, before, after),
    ensures
        emitted_as(r, then(a, b), before, after),
{
}

/// The code of steps `0..k` of `f`, in order; the first step that stops
/// stops the whole.
pub open spec fn then_fold(f: spec_fn(int) -> Outcome<Seq<Instr>>, k: nat) -> Outcome<Seq<Instr>>
    decreases k,
{
    if k == 0 {
        code(Seq::empty())
    } else {
        then(then_fold(f, (k - 1) as nat), f(k - 1))
    }
}

/// Code that stops makes everything after it stop the same way, and code
/// after emitted code that stops stops the same way.
pub proof fn lemma_then_stops(a: Outcome<Seq<Instr>>, b: Outcome<Seq<Instr>>, x: Seq<Instr>)
    requires
        !(a is Done),
    ensures
        then(a, b) == a,
        then(code(x), a) == a,
{
}

/// Once steps `0..k` stop, steps `0..n` stop the same way, for `n >= k`.
pub proof fn lemma_then_fold_stops(f: spec_fn(int) -> Outcome<Seq<Instr>>, k: nat, n: nat)
    requires
        k <= n,
        !(then_fold(f, k) is Done),
    ensures
        then_fold(f, n) == then_fold(f, k),
    decreases n - k,
{
    if k < n {
        lemma_then_fold_stops(f, k, (n - 1) as nat);
    }
}

/// One more step that emits `c` extends the code of the steps before it.
pub proof fn lemma_then_fold_step(f: spec_fn(int) -> Outcome<Seq<Instr>>, k: nat, x: Seq<Instr>, c: Seq<Instr>)
    requires
        then_fold(f, k) == code(x),
        f(k as int) == code(c),
    ensures
        then_fold(f, k + 1) == code(x + c),
{
}

/// Once a prefix of the arguments stops, every longer prefix stops the same way.
pub(crate) proof fn lemma_args_prefix_stops(args: Seq<ExprV>, cx: EmitCx, k: int)
    requires
        0 < k <= args.len(),
        !(args_code(args.subrange(0, k), cx) is Done),
    ensures
        args_code(args, cx) == args_code(args.subrange(0, k), cx),
    decreases args.len() - k,
{
    if k < args.len() {
        let s = args.subrange(0, k + 1);
        assert(s.subrange(0, k) =~= args.subrange(0, k));
        lemma_args_prefix_stops(args, cx, k + 1);
    } else {
        assert(args.subrange(0, k) =~= args);
    }
}


// ---------------------------------------------------------------------------
// The strings that a module interns.

/// The string literals of an expression that code generation reads, in order.
pub open spec fn expr_strings(e: ExprV) -> Seq<Seq<char>>
    decreases e,
{
    match e {
        ExprV::StringLit(s, _) => seq![s],
        ExprV::Call { args, .. } => args_strings(args),
        ExprV::Binary { left, right, .. } => expr_strings(*left) + expr_strings(*right),
        ExprV::Unary { expr, .. } => expr_strings(*expr),
        _ => Seq::empty(),
    }
}

/// The string literals of a list of arguments, in order.
pub open spec fn args_strings(args: Seq<ExprV>) -> Seq<Seq<char>>
    decreases args,
{
    if args.len() == 0 {
        Seq::empty()
    } else {
        proof {
            assert(decreases_to!(args => args[args.len() - 1]));
            assert(decreases_to!(args => args.subrange(0, args.len() - 1)));
        }
        args_strings(args.subrange(0, args.len() - 1)) + expr_strings(args[args.len() - 1])
    }
}

/// The string literals of the value of an assignment or of an expression statement.
pub open spec fn stmt_strings(st: StmtV) -> Seq<Seq<char>> {
    match st {
        StmtV::Assign { value, .. } => expr_strings(value),
        StmtV::AssignOp { value, .. } => expr_strings(value),
        StmtV::Expr(e) => expr_strings(e),
        _ => Seq::empty(),
    }
}

/// The string literals of the statements of a body, in order.
pub open spec fn body_strings(b: Seq<StmtV>) -> Seq<Seq<char>>
    decreases b.len(),
{
    if b.len() == 0 {
        Seq::empty()
    } else {
        body_strings(b.drop_last()) + stmt_strings(b.last())
    }
}

/// The string literals of the bodies of the methods, in order.
pub open spec fn methods_strings(ms: Seq<FnDeclV>) -> Seq<Seq<char>>
    decreases ms.len(),
{
    if ms.len() == 0 {
        Seq::empty()
    } else {
        methods_strings(ms.drop_last()) + body_strings(ms.last().body)
    }
}

/// The attribute that names the handler of an event.
pub open spec fn event_attr(ev: Seq<char>) -> Seq<char> {
    "data-vt-"@ + ev
}

/// Names and values of attributes, in order.
pub open spec fn pair_strings(ps: Seq<(Seq<char>, Seq<char>)>) -> Seq<Seq<char>>
    decreases ps.len(),
{
    if ps.len() == 0 {
        Seq::empty()
    } else {
        pair_strings(ps.drop_last()) + seq![ps.last().0, ps.last().1]
    }
}

/// The handler attributes of events, in order.
pub open spec fn event_strings(evs: Seq<(Seq<char>, Seq<char>)>) -> Seq<Seq<char>>
    decreases evs.len(),
{
    if evs.len() == 0 {
        Seq::empty()
    } else {
        event_strings(evs.drop_last()).push(event_attr(evs.last().0))
    }
}

/// The strings of a planned node: an element's tag, attributes, event
/// attributes and static text; a text node's text; the empty text of a
/// dynamic text node.
pub open spec fn node_strings(k: PlannedNodeKindV) -> Seq<Seq<char>> {
    match k {
        PlannedNodeKindV::Element { tag, static_attrs, events, static_text } => seq![tag] + pair_strings(
            static_attrs,
        ) + event_strings(events) + match static_text {
            Some(t) => seq![t],
            None => Seq::empty(),
        },
        PlannedNodeKindV::StaticText(t) => seq![t],
        PlannedNodeKindV::DynamicText(_) => seq![Seq::empty()],
    }
}

/// The strings of the planned nodes, in order.
pub open spec fn elements_strings(es: Seq<PlannedElementV>) -> Seq<Seq<char>>
    decreases es.len(),
{
    if es.len() == 0 {
        Seq::empty()
    } else {
        elements_strings(es.drop_last()) + node_strings(es.last().kind)
    }
}

/// The decimal texts of `0..n`: the table indices of the methods.
pub open spec fn index_strings(n: nat) -> Seq<Seq<char>> {
    Seq::new(n, |i: int| decimal(i as nat))
}

/// Every string that a module interns, in the order it is interned.
pub open spec fn collected_strings(p: ComponentPlanV) -> Seq<Seq<char>> {
    elements_strings(p.elements) + index_strings(p.methods.len()) + methods_strings(p.methods)
}

/// What a string table holds: its entries, its bytes and its next offset.
pub struct TableModel {
    pub entries: Seq<(Seq<char>, StringEntry)>,
    pub bytes: Seq<u8>,
    pub next: nat,
}

/// The table after interning `s`: unchanged if `s` is there; otherwise `s`
/// is placed at the next offset.
pub open spec fn intern(m: TableModel, s: Seq<char>) -> TableModel {
    match find_entry(m.entries, s) {
        Some(_) => m,
        None => TableModel {
            entries: m.entries.push((s, StringEntry { offset: m.next as u32, len: utf8(s).len() as u32 })),
            bytes: m.bytes + utf8(s),
            next: m.next + utf8(s).len(),
        },
    }
}

/// The table after interning `strs` in order.
pub open spec fn intern_all(m: TableModel, strs: Seq<Seq<char>>) -> TableModel
    decreases strs.len(),
{
    if strs.len() == 0 {
        m
    } else {
        intern(intern_all(m, strs.drop_last()), strs.last())
    }
}

/// Interning `strs` in order keeps every offset within `u32`.
pub open spec fn intern_fits(m: TableModel, strs: Seq<Seq<char>>) -> bool
    decreases strs.len(),
{
    strs.len() == 0 || {
        let before = intern_all(m, strs.drop_last());
        &&& intern_fits(m, strs.drop_last())
        &&& (find_entry(before.entries, strs.last()) is Some || before.next + utf8(strs.last()).len()
            <= u32::MAX)
    }
}

/// Each of `strs` has an entry.
pub open spec fn all_present(entries: Seq<(Seq<char>, StringEntry)>, strs: Seq<Seq<char>>) -> bool {
    forall|i: int| 0 <= i < strs.len() ==> find_entry(entries, #[trigger] strs[i]) is Some
}


/// The parts of a concatenation are present when the whole is.
pub proof fn lemma_present_concat(entries: Seq<(Seq<char>, StringEntry)>, a: Seq<Seq<char>>, b: Seq<Seq<char>>)
    ensures
        all_present(entries, a + b) <==> (all_present(entries, a) && all_present(entries, b)),
{
    if all_present(entries, a + b) {
        assert forall|i: int| 0 <= i < a.len() implies find_entry(entries, #[trigger] a[i]) is Some by {
            assert((a + b)[i] == a[i]);
        }
        assert forall|i: int| 0 <= i < b.len() implies find_entry(entries, #[trigger] b[i]) is Some by {
            assert((a + b)[a.len() + i] == b[i]);
        }
    }
    if all_present(entries, a) && all_present(entries, b) {
        assert forall|i: int| 0 <= i < (a + b).len() implies find_entry(entries, #[trigger] (a + b)[i]) is Some by {
            if i < a.len() {
                assert((a + b)[i] == a[i]);
            } else {
                assert((a + b)[i] == b[i - a.len()]);
            }
        }
    }
}

/// The strings of each planned node are present when those of all nodes are.
pub proof fn lemma_node_present(entries: Seq<(Seq<char>, StringEntry)>, es: Seq<PlannedElementV>, i: int)
    requires
        all_present(entries, elements_strings(es)),
        0 <= i < es.len(),
    ensures
        all_present(entries, node_strings(es[i].kind)),
    decreases es.len(),
{
    lemma_present_concat(entries, elements_strings(es.drop_last()), node_strings(es.last().kind));
    if i < es.len() - 1 {
        lemma_node_present(entries, es.drop_last(), i);
        assert(es.drop_last()[i] == es[i]);
    }
}

/// The names and values of attributes stand at even and odd places.
pub proof fn lemma_pair_strings(ps: Seq<(Seq<char>, Seq<char>)>)
    ensures
        pair_strings(ps).len() == 2 * ps.len(),
        forall|j: int|
            0 <= j < ps.len() ==> pair_strings(ps)[2 * j] == (#[trigger] ps[j]).0 && pair_strings(ps)[2 * j + 1]
                == ps[j].1,
    decreases ps.len(),
{
    if ps.len() > 0 {
        lemma_pair_strings(ps.drop_last());
        assert forall|j: int| 0 <= j < ps.len() implies pair_strings(ps)[2 * j] == (#[trigger] ps[j]).0
            && pair_strings(ps)[2 * j + 1] == ps[j].1 by {
            if j < ps.len() - 1 {
                assert(ps.drop_last()[j] == ps[j]);
            }
        }
    }
}

/// The handler attribute of event `j` stands at place `j`.
pub proof fn lemma_event_strings(evs: Seq<(Seq<char>, Seq<char>)>)
    ensures
        event_strings(evs).len() == evs.len(),
        forall|j: int| 0 <= j < evs.len() ==> event_strings(evs)[j] == event_attr((#[trigger] evs[j]).0),
    decreases evs.len(),
{
    if evs.len() > 0 {
        lemma_event_strings(evs.drop_last());
        assert forall|j: int| 0 <= j < evs.len() implies event_strings(evs)[j] == event_attr((#[trigger] evs[j]).0) by {
            if j < evs.len() - 1 {
                assert(evs.drop_last()[j] == evs[j]);
            }
        }
    }
}

// ---------------------------------------------------------------------------
// The mount function.

/// The entry of an interned string (an empty entry if it is not interned).
pub open spec fn entry_of(entries: Seq<(Seq<char>, StringEntry)>, s: Seq<char>) -> StringEntry {
    match find_entry(entries, s) {
        Some(e) => e,
        None => StringEntry { offset: 0, len: 0 },
    }
}

/// Pushes the offset and the length of an interned string.
pub open spec fn ptr_len(entries: Seq<(Seq<char>, StringEntry)>, s: Seq<char>) -> Seq<Instr> {
    let e = entry_of(entries, s);
    seq![Instr::I32Const(e.offset as i32), Instr::I32Const(e.len as i32)]
}

/// `dom.setAttribute(node, name, value)` on the node in local `l`.
pub open spec fn set_attr(l: u32, entries: Seq<(Seq<char>, StringEntry)>, name: Seq<char>, val: Seq<char>) -> Seq<Instr> {
    seq![Instr::LocalGet(l)] + ptr_len(entries, name) + ptr_len(entries, val) + seq![Instr::Call(3)]
}

/// Sets the static attributes, in order.
pub open spec fn attrs_code(attrs: Seq<(Seq<char>, Seq<char>)>, l: u32, entries: Seq<(Seq<char>, StringEntry)>) -> Seq<Instr>
    decreases attrs.len(),
{
    if attrs.len() == 0 {
        Seq::empty()
    } else {
        attrs_code(attrs.drop_last(), l, entries) + set_attr(l, entries, attrs.last().0, attrs.last().1)
    }
}

/// `dom.setTextContent` with the static text, if any.
pub open spec fn static_text_code(t: Option<Seq<char>>, l: u32, entries: Seq<(Seq<char>, StringEntry)>) -> Seq<Instr> {
    match t {
        Some(t) => seq![Instr::LocalGet(l)] + ptr_len(entries, t) + seq![Instr::Call(2)],
        None => Seq::empty(),
    }
}

/// The index of the first method named `name`.
pub open spec fn method_index(ms: Seq<FnDeclV>, name: Seq<char>) -> Option<nat>
    decreases ms.len(),
{
    if ms.len() == 0 {
        None
    } else {
        match method_index(ms.drop_last(), name) {
            Some(i) => Some(i),
            None => if ms.last().name == name {
                Some((ms.len() - 1) as nat)
            } else {
                None
            },
        }
    }
}

/// The index of the first planned node with id `id`.
pub open spec fn element_index(es: Seq<PlannedElementV>, id: nat) -> Option<nat>
    decreases es.len(),
{
    if es.len() == 0 {
        None
    } else {
        match element_index(es.drop_last(), id) {
            Some(i) => Some(i),
            None => if es.last().id == id {
                Some((es.len() - 1) as nat)
            } else {
                None
            },
        }
    }
}

/// The message for an event whose handler is no method.
pub open spec fn handler_message(h: Seq<char>) -> Seq<char> {
    "Handler '"@ + h + "' not found"@
}

/// An event is bound by the attribute `data-vt-<event>` whose value is the
/// decimal table index of its handler.
pub open spec fn event_code(ev: (Seq<char>, Seq<char>), l: u32, ms: Seq<FnDeclV>, entries: Seq<(Seq<char>, StringEntry)>) -> Outcome<Seq<Instr>> {
    match method_index(ms, ev.1) {
        Some(i) => code(set_attr(l, entries, event_attr(ev.0), decimal(i))),
        None => Outcome::Fail(handler_message(ev.1)),
    }
}

/// The steps that bind the events.
pub open spec fn event_steps(evs: Seq<(Seq<char>, Seq<char>)>, l: u32, ms: Seq<FnDeclV>, entries: Seq<(Seq<char>, StringEntry)>) -> spec_fn(int) -> Outcome<Seq<Instr>> {
    |i: int| event_code(evs[i], l, ms, entries)
}

/// Binds the events, in order.
pub open spec fn events_code(evs: Seq<(Seq<char>, Seq<char>)>, l: u32, ms: Seq<FnDeclV>, entries: Seq<(Seq<char>, StringEntry)>) -> Outcome<Seq<Instr>> {
    then_fold(event_steps(evs, l, ms, entries), evs.len())
}

/// The local that holds planned node `i`: after the root and the state.
pub open spec fn local_of(i: int) -> u32 {
    (2 + i) as u32
}

/// Creates a planned node into local `l`: an element with its attributes,
/// text and events; a text node; or an empty text node whose reference is
/// kept in its state slot.
pub open spec fn node_code(k: PlannedNodeKindV, l: u32, p: ComponentPlanV, entries: Seq<(Seq<char>, StringEntry)>) -> Outcome<Seq<Instr>> {
    match k {
        PlannedNodeKindV::Element { tag, static_attrs, events, static_text } => then(
            code(
                ptr_len(entries, tag) + seq![Instr::Call(0), Instr::LocalSet(l)] + attrs_code(static_attrs, l, entries)
                    + static_text_code(static_text, l, entries),
            ),
            events_code(events, l, p.methods, entries),
        ),
        PlannedNodeKindV::StaticText(t) => code(ptr_len(entries, t) + seq![Instr::Call(1), Instr::LocalSet(l)]),
        PlannedNodeKindV::DynamicText(slot) => code(
            seq![
                Instr::I32Const(entry_of(entries, Seq::empty()).offset as i32),
                Instr::I32Const(0),
                Instr::Call(1),
                Instr::LocalSet(l),
                Instr::LocalGet(1),
                Instr::LocalGet(l),
                Instr::StructSet {
                    struct_type_index: STATE_TYPE_IDX,
                    field_index: slot_field(p.signals.len() as int, p.computeds.len() as int, slot.state_slot as int),
                },
            ],
        ),
    }
}

/// Appends the node in local `l` to its parent: the root (parameter 0) or
/// the local of the first node with the parent's id.
pub open spec fn append_code(es: Seq<PlannedElementV>, parent_id: nat, l: u32) -> Outcome<Seq<Instr>> {
    if parent_id == 0 {
        code(seq![Instr::LocalGet(0), Instr::LocalGet(l), Instr::Call(4)])
    } else {
        match element_index(es, parent_id) {
            Some(j) => code(seq![Instr::LocalGet(local_of(j as int)), Instr::LocalGet(l), Instr::Call(4)]),
            None => Outcome::Panic,
        }
    }
}

/// Creates planned node `i` and appends it to its parent.
pub open spec fn element_step(p: ComponentPlanV, entries: Seq<(Seq<char>, StringEntry)>, i: int) -> Outcome<Seq<Instr>> {
    let e = p.elements[i];
    then(node_code(e.kind, local_of(i), p, entries), append_code(p.elements, e.parent_id, local_of(i)))
}

/// The steps that create the planned nodes.
pub open spec fn element_steps(p: ComponentPlanV, entries: Seq<(Seq<char>, StringEntry)>) -> spec_fn(int) -> Outcome<Seq<Instr>> {
    |i: int| element_step(p, entries, i)
}

/// Creates and appends the first `k` planned nodes.
pub open spec fn elements_code(p: ComponentPlanV, entries: Seq<(Seq<char>, StringEntry)>, k: nat) -> Outcome<Seq<Instr>> {
    then_fold(element_steps(p, entries), k)
}

/// The initial value of a signal: its literal, or 0.
pub open spec fn const_init(e: ExprV) -> Instr {
    match e {
        ExprV::IntLit(n, _) => Instr::I32Const(n as i32),
        ExprV::BoolLit(b, _) => Instr::I32Const(if b { 1 } else { 0 }),
        _ => Instr::I32Const(0),
    }
}

/// Allocates the state: dirty mask -1, the signals' initial values, 0 for
/// each computed, null for each dynamic slot; keeps it in local 1 and global 0.
pub open spec fn mount_prologue(p: ComponentPlanV) -> Seq<Instr> {
    seq![Instr::I32Const(-1i32)] + Seq::new(p.signals.len(), |i: int| const_init(p.signals[i].init_expr)) + Seq::new(
        p.computeds.len(),
        |i: int| Instr::I32Const(0),
    ) + Seq::new(p.dynamic_text_slots, |i: int| Instr::RefNullExtern) + seq![
        Instr::StructNew(STATE_TYPE_IDX),
        Instr::LocalSet(1),
        Instr::LocalGet(1),
        Instr::GlobalSet(0),
    ]
}

/// Computes computed `i` into its field of the state in local `l`.
pub open spec fn init_step(p: ComponentPlanV, cx: EmitCx, l: u32, i: int) -> Outcome<Seq<Instr>> {
    then(
        code(seq![Instr::LocalGet(l)]),
        then(
            expr_code(p.computeds[i].expr, cx),
            code(
                seq![
                    Instr::StructSet {
                        struct_type_index: STATE_TYPE_IDX,
                        field_index: comp_field(p.signals.len() as int, i),
                    },
                ],
            ),
        ),
    )
}

/// The steps that compute the computeds.
pub open spec fn init_steps(p: ComponentPlanV, cx: EmitCx, l: u32) -> spec_fn(int) -> Outcome<Seq<Instr>> {
    |i: int| init_step(p, cx, l, i)
}

/// Computes the first `k` computeds into their fields, from local `l`.
pub open spec fn computeds_init(p: ComponentPlanV, cx: EmitCx, l: u32, k: nat) -> Outcome<Seq<Instr>> {
    then_fold(init_steps(p, cx, l), k)
}

/// Renders the dynamic text (if there is any), clears the dirty mask, calls
/// `onMount` (if there is such a method) and ends.
pub open spec fn mount_epilogue(p: ComponentPlanV, num_imports: nat, method_start: nat) -> Seq<Instr> {
    (if p.dynamic_text_slots > 0 {
        seq![Instr::Call((num_imports + 1) as u32)]
    } else {
        Seq::empty()
    }) + seq![
        Instr::LocalGet(1),
        Instr::I32Const(0),
        Instr::StructSet { struct_type_index: STATE_TYPE_IDX, field_index: 0 },
    ] + match method_index(p.methods, "onMount"@) {
        Some(i) => seq![Instr::Call((method_start + i) as u32)],
        None => Seq::empty(),
    } + seq![Instr::End]
}

/// The body of `mount(root)`.
pub open spec fn mount_code(p: ComponentPlanV, cx: EmitCx, num_imports: nat, method_start: nat) -> Outcome<Seq<Instr>> {
    then(
        code(mount_prologue(p)),
        then(
            elements_code(p, cx.entries, p.elements.len()),
            then(computeds_init(p, cx, 1, p.computeds.len()), code(mount_epilogue(p, num_imports, method_start))),
        ),
    )
}

// ---------------------------------------------------------------------------
// The render function.

/// Tests whether a slot must be rendered: its trigger bits in the dirty
/// mask, or, for a slot without trigger, a dirty mask of -1.
pub open spec fn slot_guard(mask: u32) -> Seq<Instr> {
    if mask != 0 {
        seq![Instr::I32Const(mask as i32), Instr::I32And]
    } else {
        seq![Instr::I32Const(-1i32), Instr::I32Eq]
    }
}

/// Renders one planned node, if it is dynamic text: `dom.setTextNumber` of
/// its expression on the node kept in its slot, under its guard.
pub open spec fn slot_render(e: PlannedElementV, p: ComponentPlanV, cx: EmitCx) -> Outcome<Seq<Instr>> {
    match e.kind {
        PlannedNodeKindV::DynamicText(slot) => then(
            code(
                seq![
                    Instr::LocalGet(0),
                    Instr::StructGet { struct_type_index: STATE_TYPE_IDX, field_index: 0 },
                ] + slot_guard(slot.trigger_mask) + seq![
                    Instr::IfEmpty,
                    Instr::LocalGet(0),
                    Instr::StructGet {
                        struct_type_index: STATE_TYPE_IDX,
                        field_index: slot_field(p.signals.len() as int, p.computeds.len() as int, slot.state_slot as int),
                    },
                ],
            ),
            then(expr_code(slot.expr, cx), code(seq![Instr::Call(6), Instr::End])),
        ),
        _ => code(Seq::empty()),
    }
}

/// The steps that render the planned nodes.
pub open spec fn render_steps(p: ComponentPlanV, cx: EmitCx) -> spec_fn(int) -> Outcome<Seq<Instr>> {
    |i: int| slot_render(p.elements[i], p, cx)
}

/// Renders the first `k` planned nodes.
pub open spec fn slots_render(p: ComponentPlanV, cx: EmitCx, k: nat) -> Outcome<Seq<Instr>> {
    then_fold(render_steps(p, cx), k)
}

/// The body of `render_dynamic_text()`.
pub open spec fn render_code(p: ComponentPlanV, cx: EmitCx) -> Outcome<Seq<Instr>> {
    then(
        code(seq![Instr::GlobalGet(0), Instr::LocalSet(0)]),
        then(slots_render(p, cx, p.elements.len()), code(seq![Instr::End])),
    )
}

// ---------------------------------------------------------------------------
// Methods and getters.

/// The instruction of a compound assignment.
pub open spec fn assign_op_instr(op: AssignOperator) -> Instr {
    match op {
        AssignOperator::AddEq => Instr::I32Add,
        AssignOperator::SubEq => Instr::I32Sub,
        AssignOperator::MulEq => Instr::I32Mul,
        AssignOperator::DivEq => Instr::I32DivS,
    }
}

/// Sets bit `id` of the dirty mask (a bit past the 32 of the mask has no code).
pub open spec fn mark_dirty(id: usize) -> Outcome<Seq<Instr>> {
    if id < 32 {
        code(
            seq![
                Instr::LocalGet(0),
                Instr::LocalGet(0),
                Instr::StructGet { struct_type_index: STATE_TYPE_IDX, field_index: 0 },
                Instr::I32Const((1u32 << (id as u32)) as i32),
                Instr::I32Or,
                Instr::StructSet { struct_type_index: STATE_TYPE_IDX, field_index: 0 },
            ],
        )
    } else {
        Outcome::Panic
    }
}

/// Some extern block declares a function `name` with a return value.
pub open spec fn has_return(blocks: Seq<ExternBlockV>, name: Seq<char>) -> bool {
    exists|b: int, f: int|
        0 <= b < blocks.len() && 0 <= f < blocks[b].functions.len() && #[trigger] blocks[b].functions[f].name
            == name && blocks[b].functions[f].return_type is Some
}

/// The code of a method statement: an assignment or compound assignment of
/// a signal stores the new value and marks the signal dirty; an expression
/// statement evaluates it, dropping what a call of a function with a return
/// value leaves; anything else has no code.
pub open spec fn stmt_code(st: StmtV, cx: EmitCx, blocks: Seq<ExternBlockV>) -> Outcome<Seq<Instr>> {
    match st {
        StmtV::Assign { target, value, .. } => match lookup_name(cx.sigs, target) {
            Some(id) => then(
                code(seq![Instr::LocalGet(0)]),
                then(
                    expr_code(value, cx),
                    then(
                        code(
                            seq![
                                Instr::StructSet {
                                    struct_type_index: STATE_TYPE_IDX,
                                    field_index: sig_field(id as int),
                                },
                            ],
                        ),
                        mark_dirty(id),
                    ),
                ),
            ),
            None => code(Seq::empty()),
        },
        StmtV::AssignOp { target, op, value, .. } => match lookup_name(cx.sigs, target) {
            Some(id) => then(
                code(
                    seq![
                        Instr::LocalGet(0),
                        Instr::LocalGet(0),
                        Instr::StructGet { struct_type_index: STATE_TYPE_IDX, field_index: sig_field(id as int) },
                    ],
                ),
                then(
                    expr_code(value, cx),
                    then(
                        code(
                            seq![
                                assign_op_instr(op),
                                Instr::StructSet {
                                    struct_type_index: STATE_TYPE_IDX,
                                    field_index: sig_field(id as int),
                                },
                            ],
                        ),
                        mark_dirty(id),
                    ),
                ),
            ),
            None => code(Seq::empty()),
        },
        StmtV::Expr(e) => then(
            expr_code(e, cx),
            code(
                if e is Call && has_return(blocks, e->Call_callee) {
                    seq![Instr::Drop]
                } else {
                    Seq::empty()
                },
            ),
        ),
        _ => code(Seq::empty()),
    }
}

/// The steps of the statements of a body.
pub open spec fn stmt_steps(b: Seq<StmtV>, cx: EmitCx, blocks: Seq<ExternBlockV>) -> spec_fn(int) -> Outcome<Seq<Instr>> {
    |i: int| stmt_code(b[i], cx, blocks)
}

/// The code of the first `k` statements of a body.
pub open spec fn stmts_code(b: Seq<StmtV>, cx: EmitCx, blocks: Seq<ExternBlockV>, k: nat) -> Outcome<Seq<Instr>> {
    then_fold(stmt_steps(b, cx, blocks), k)
}

/// Recomputes computed `i` when the dirty mask meets its mask (a computed
/// without dependencies is never recomputed).
pub open spec fn recompute(p: ComponentPlanV, cx: EmitCx, i: int) -> Outcome<Seq<Instr>> {
    let c = p.computeds[i];
    if c.mask != 0 {
        then(
            code(
                seq![
                    Instr::LocalGet(0),
                    Instr::StructGet { struct_type_index: STATE_TYPE_IDX, field_index: 0 },
                    Instr::I32Const(c.mask as i32),
                    Instr::I32And,
                    Instr::IfEmpty,
                    Instr::LocalGet(0),
                ],
            ),
            then(
                expr_code(c.expr, cx),
                code(
                    seq![
                        Instr::StructSet {
                            struct_type_index: STATE_TYPE_IDX,
                            field_index: comp_field(p.signals.len() as int, i),
                        },
                        Instr::End,
                    ],
                ),
            ),
        )
    } else {
        code(Seq::empty())
    }
}

/// The steps that recompute the computeds.
pub open spec fn recompute_steps(p: ComponentPlanV, cx: EmitCx) -> spec_fn(int) -> Outcome<Seq<Instr>> {
    |i: int| recompute(p, cx, i)
}

/// Recomputes the first `k` computeds.
pub open spec fn recomputes(p: ComponentPlanV, cx: EmitCx, k: nat) -> Outcome<Seq<Instr>> {
    then_fold(recompute_steps(p, cx), k)
}

/// Calls the render function when the dirty mask is not zero (if there is
/// dynamic text), then clears the dirty mask and ends.
pub open spec fn method_epilogue(p: ComponentPlanV, num_imports: nat) -> Seq<Instr> {
    (if p.dynamic_text_slots > 0 {
        seq![
            Instr::LocalGet(0),
            Instr::StructGet { struct_type_index: STATE_TYPE_IDX, field_index: 0 },
            Instr::IfEmpty,
            Instr::Call((num_imports + 1) as u32),
            Instr::End,
        ]
    } else {
        Seq::empty()
    }) + seq![
        Instr::LocalGet(0),
        Instr::I32Const(0),
        Instr::StructSet { struct_type_index: STATE_TYPE_IDX, field_index: 0 },
        Instr::End,
    ]
}

/// The body of a method.
pub open spec fn method_code(
    p: ComponentPlanV,
    m: FnDeclV,
    cx: EmitCx,
    blocks: Seq<ExternBlockV>,
    num_imports: nat,
) -> Outcome<Seq<Instr>> {
    then(
        code(seq![Instr::GlobalGet(0), Instr::LocalSet(0)]),
        then(
            stmts_code(m.body, cx, blocks, m.body.len()),
            then(recomputes(p, cx, p.computeds.len()), code(method_epilogue(p, num_imports))),
        ),
    )
}

/// The body of a getter of a state field.
pub open spec fn getter_code(field: u32) -> Seq<Instr> {
    seq![
        Instr::GlobalGet(0),
        Instr::StructGet { struct_type_index: STATE_TYPE_IDX, field_index: field },
        Instr::End,
    ]
}

// ---------------------------------------------------------------------------
// Foreign functions.

/// The foreign functions of the extern blocks, each with its block's ABI, in order.
pub open spec fn extern_fns(blocks: Seq<ExternBlockV>) -> Seq<(Seq<char>, ExternFnDeclV)>
    decreases blocks.len(),
{
    if blocks.len() == 0 {
        Seq::empty()
    } else {
        let b = blocks.last();
        extern_fns(blocks.drop_last()) + Seq::new(b.functions.len(), |i: int| (b.abi, b.functions[i]))
    }
}

/// The function type of a foreign function: `(i32, i32) -> i32` (10),
/// `(i32, i32)` (9), `(i32)` (11), `() -> i32` (8) or `()` (7).
pub open spec fn extern_type(f: ExternFnDeclV) -> u32 {
    if f.params.len() == 2 && f.return_type is Some {
        10
    } else if f.params.len() == 2 {
        9
    } else if f.params.len() == 1 && f.return_type is None {
        11
    } else if f.return_type is Some {
        8
    } else {
        7
    }
}

// ---------------------------------------------------------------------------
// The module.

/// The imports of a list of foreign functions: (ABI, name, function type).
pub open spec fn imports_of(fs: Seq<(Seq<char>, ExternFnDeclV)>) -> Seq<(Seq<char>, Seq<char>, u32)> {
    Seq::new(fs.len(), |i: int| (fs[i].0, fs[i].1.name, extern_type(fs[i].1)))
}

/// The import index of each of a list of foreign functions, after the seven DOM imports.
pub open spec fn indices_of(fs: Seq<(Seq<char>, ExternFnDeclV)>) -> Seq<(Seq<char>, usize)> {
    Seq::new(fs.len(), |i: int| (fs[i].1.name, (7 + i) as usize))
}

/// The twelve function types: the DOM imports' (0 to 6), `()` (7), `() -> i32`
/// (8), and the foreign functions' (9 to 11).
pub open spec fn base_types() -> Seq<TypeEntry> {
    seq![
        TypeEntry::Func(seq![ValTy::I32, ValTy::I32], seq![ValTy::ExternRef]),
        TypeEntry::Func(seq![ValTy::ExternRef, ValTy::I32, ValTy::I32], Seq::empty()),
        TypeEntry::Func(seq![ValTy::ExternRef, ValTy::I32, ValTy::I32, ValTy::I32, ValTy::I32], Seq::empty()),
        TypeEntry::Func(seq![ValTy::ExternRef, ValTy::ExternRef], Seq::empty()),
        TypeEntry::Func(seq![ValTy::ExternRef, ValTy::I32, ValTy::I32, ValTy::I32], Seq::empty()),
        TypeEntry::Func(seq![ValTy::ExternRef, ValTy::I32], Seq::empty()),
        TypeEntry::Func(seq![ValTy::ExternRef], Seq::empty()),
        TypeEntry::Func(Seq::empty(), Seq::empty()),
        TypeEntry::Func(Seq::empty(), seq![ValTy::I32]),
        TypeEntry::Func(seq![ValTy::I32, ValTy::I32], Seq::empty()),
        TypeEntry::Func(seq![ValTy::I32, ValTy::I32], seq![ValTy::I32]),
        TypeEntry::Func(seq![ValTy::I32], Seq::empty()),
    ]
}

/// The fields of the state struct: `i32` for the dirty mask, the signals and
/// the computeds; `externref` for the dynamic text slots.
pub open spec fn state_fields(p: ComponentPlanV) -> Seq<ValTy> {
    let n = 1 + p.signals.len() + p.computeds.len();
    Seq::new(n + p.dynamic_text_slots, |i: int| if i < n { ValTy::I32 } else { ValTy::ExternRef })
}

/// The DOM imports, in import index order.
pub open spec fn dom_imports() -> Seq<(Seq<char>, Seq<char>, u32)> {
    seq![
        ("dom"@, "createElement"@, 0u32),
        ("dom"@, "createTextNode"@, 0u32),
        ("dom"@, "setTextContent"@, 1u32),
        ("dom"@, "setAttribute"@, 2u32),
        ("dom"@, "appendChild"@, 3u32),
        ("dom"@, "addEventListener"@, 4u32),
        ("dom"@, "setTextNumber"@, 5u32),
    ]
}

/// The type of each defined function: mount, render, the methods, then a
/// getter for each signal and each computed.
pub open spec fn function_types(p: ComponentPlanV) -> Seq<u32> {
    seq![6u32, 7u32] + Seq::new(p.methods.len(), |i: int| 7u32) + Seq::new(
        p.signals.len() + p.computeds.len(),
        |i: int| 8u32,
    )
}

/// The exports: the memory, the table, `mount`, each method, then
/// `get_<name>` of each signal and each computed.
pub open spec fn exports_of(p: ComponentPlanV, num_imports: nat) -> Seq<(Seq<char>, ExportTarget, u32)> {
    let ms = num_imports + 2;
    let gs = ms + p.methods.len();
    seq![
        ("memory"@, ExportTarget::Memory, 0u32),
        ("__table"@, ExportTarget::Table, 0u32),
        ("mount"@, ExportTarget::Func, num_imports as u32),
    ] + Seq::new(p.methods.len(), |i: int| (p.methods[i].name, ExportTarget::Func, (ms + i) as u32)) + Seq::new(
        p.signals.len(),
        |i: int| ("get_"@ + p.signals[i].name, ExportTarget::Func, (gs + i) as u32),
    ) + Seq::new(
        p.computeds.len(),
        |i: int| ("get_"@ + p.computeds[i].name, ExportTarget::Func, (gs + p.signals.len() + i) as u32),
    )
}

/// The function indices of the methods, in order: the table's contents.
pub open spec fn method_funcs(p: ComponentPlanV, num_imports: nat) -> Seq<u32> {
    Seq::new(p.methods.len(), |i: int| (num_imports + 2 + i) as u32)
}

/// The locals of mount: the state reference, then one `externref` per planned node.
pub open spec fn mount_locals(p: ComponentPlanV) -> Seq<(u32, ValTy)> {
    seq![(1u32, ValTy::StateRef(STATE_TYPE_IDX)), (p.elements.len() as u32, ValTy::ExternRef)]
}

/// The locals of render and of the methods: the state reference.
pub open spec fn state_local() -> Seq<(u32, ValTy)> {
    seq![(1u32, ValTy::StateRef(STATE_TYPE_IDX))]
}

/// The function bodies, in function index order.
pub open spec fn code_of(p: ComponentPlanV, mount: Seq<Instr>, render: Seq<Instr>, methods: Seq<Seq<Instr>>) -> Seq<(Seq<(u32, ValTy)>, Seq<Instr>)> {
    seq![(mount_locals(p), mount), (state_local(), render)] + Seq::new(
        methods.len(),
        |i: int| (state_local(), methods[i]),
    ) + Seq::new(
        p.signals.len(),
        |i: int| (Seq::<(u32, ValTy)>::empty(), getter_code(sig_field(p.signals[i].id as int))),
    ) + Seq::new(
        p.computeds.len(),
        |i: int| (Seq::<(u32, ValTy)>::empty(), getter_code(comp_field(p.signals.len() as int, p.computeds[i].id as int))),
    )
}

/// The sections of the module, in order. The element section is there only
/// when there are methods.
pub open spec fn sections_of(
    p: ComponentPlanV,
    blocks: Seq<ExternBlockV>,
    data: Seq<u8>,
    mount: Seq<Instr>,
    render: Seq<Instr>,
    methods: Seq<Seq<Instr>>,
) -> Seq<SectionV> {
    let num_imports = 7 + extern_fns(blocks).len();
    let nm = p.methods.len();
    let table_size: u64 = if nm > 0 { nm as u64 } else { 1 };
    let head = seq![
        SectionV::Types(base_types().push(TypeEntry::Struct(state_fields(p)))),
        SectionV::Imports(dom_imports() + imports_of(extern_fns(blocks))),
        SectionV::Functions(function_types(p)),
        SectionV::Tables(seq![(table_size, table_size)]),
        SectionV::Memories(seq![1u64]),
        SectionV::Globals(seq![STATE_TYPE_IDX]),
        SectionV::Exports(exports_of(p, num_imports)),
    ];
    let elements: Seq<SectionV> = if nm > 0 {
        seq![SectionV::Elements(seq![(0u32, 0i32, method_funcs(p, num_imports))])]
    } else {
        Seq::empty()
    };
    head + elements + seq![
        SectionV::Code(code_of(p, mount, render, methods)),
        SectionV::Data(seq![(0u32, DATA_START as i32, data)]),
    ]
}

/// Whether `wasm_encoder` can write the sections that come before any code:
/// the types, the imports, the functions, the exports and the elements.
pub open spec fn head_fits(p: ComponentPlanV, blocks: Seq<ExternBlockV>) -> bool {
    let num_imports = 7 + extern_fns(blocks).len();
    &&& section_fits(SectionV::Types(base_types().push(TypeEntry::Struct(state_fields(p)))))
    &&& section_fits(SectionV::Imports(dom_imports() + imports_of(extern_fns(blocks))))
    &&& section_fits(SectionV::Functions(function_types(p)))
    &&& section_fits(SectionV::Exports(exports_of(p, num_imports)))
    &&& p.methods.len() > 0 ==> section_fits(
        SectionV::Elements(seq![(0u32, 0i32, method_funcs(p, num_imports))]),
    )
}

/// Whether `wasm_encoder` can write the code section and the data section.
pub open spec fn tail_fits(
    p: ComponentPlanV,
    data: Seq<u8>,
    mount: Seq<Instr>,
    render: Seq<Instr>,
    methods: Seq<Seq<Instr>>,
) -> bool {
    &&& section_fits(SectionV::Code(code_of(p, mount, render, methods)))
    &&& section_fits(SectionV::Data(seq![(0u32, DATA_START as i32, data)]))
}

/// An outcome that stopped, carried over to another result type.
pub open spec fn stopped<T, U>(o: Outcome<T>) -> Outcome<U> {
    match o {
        Outcome::Done(_) => Outcome::Panic,
        Outcome::Fail(m) => Outcome::Fail(m),
        Outcome::Unsupported(e) => Outcome::Unsupported(e),
        Outcome::Panic => Outcome::Panic,
    }
}

/// The bodies of the first `k` methods; the first that stops stops them all.
pub open spec fn methods_code(
    p: ComponentPlanV,
    cx: EmitCx,
    blocks: Seq<ExternBlockV>,
    num_imports: nat,
    k: nat,
) -> Outcome<Seq<Seq<Instr>>>
    decreases k,
{
    if k == 0 {
        Outcome::Done(Seq::empty())
    } else {
        match methods_code(p, cx, blocks, num_imports, (k - 1) as nat) {
            Outcome::Done(bs) => match method_code(p, p.methods[k - 1], cx, blocks, num_imports) {
                Outcome::Done(b) => Outcome::Done(bs.push(b)),
                other => stopped(other),
            },
            other => stopped(other),
        }
    }
}

/// The module compiled from a plan, extern blocks and a string table: the
/// strings are interned first (an offset past `u32` stops there), and the
/// sections before the code must fit (see `head_fits`); then mount, render
/// and the methods are generated, in that order, and the first that stops
/// stops the compilation; last, the code and the data must fit (see
/// `tail_fits`).
pub open spec fn compiled(p: ComponentPlanV, blocks: Seq<ExternBlockV>, table: TableModel) -> Outcome<Seq<SectionV>> {
    let strs = collected_strings(p);
    if !intern_fits(table, strs) || !head_fits(p, blocks) {
        Outcome::Panic
    } else {
        let t = intern_all(table, strs);
        let cx = EmitCx {
            sigs: p.signal_name_to_id,
            comps: p.computed_name_to_id,
            ns: p.signals.len(),
            entries: t.entries,
            ext: indices_of(extern_fns(blocks)),
        };
        let num_imports = 7 + extern_fns(blocks).len();
        match mount_code(p, cx, num_imports, num_imports + 2) {
            Outcome::Done(mb) => match render_code(p, cx) {
                Outcome::Done(rb) => match methods_code(p, cx, blocks, num_imports, p.methods.len()) {
                    Outcome::Done(bodies) => if tail_fits(p, t.bytes, mb, rb, bodies) {
                        Outcome::Done(sections_of(p, blocks, t.bytes, mb, rb, bodies))
                    } else {
                        Outcome::Panic
                    },
                    other => stopped(other),
                },
                other => stopped(other),
            },
            other => stopped(other),
        }
    }
}

/// What a string table holds.
pub open spec fn table_model(t: crate::codegen::memory_layout::StringTable) -> TableModel {
    TableModel { entries: t.entries(), bytes: t.bytes(), next: t.next_offset() as nat }
}

/// How a halt agrees with an outcome that stopped.
pub open spec fn halted_as<T>(h: Halt, o: Outcome<T>) -> bool {
    match o {
        Outcome::Done(_) => false,
        Outcome::Fail(m) => h matches Halt::Error(s) && s@ == m,
        Outcome::Unsupported(e) => h matches Halt::Error(s) && s@ == unsupported_message(e),
        Outcome::Panic => h is Panic,
    }
}

/// Once the first `k` methods stop, all of them stop the same way.
pub proof fn lemma_methods_stop(p: ComponentPlanV, cx: EmitCx, blocks: Seq<ExternBlockV>, num_imports: nat, k: nat, n: nat)
    requires
        k <= n,
        !(methods_code(p, cx, blocks, num_imports, k) is Done),
    ensures
        methods_code(p, cx, blocks, num_imports, n) == methods_code(p, cx, blocks, num_imports, k),
    decreases n - k,
{
    if k < n {
        lemma_methods_stop(p, cx, blocks, num_imports, k, (n - 1) as nat);
    }
}

/// Interning a list makes each string of it present.
pub proof fn lemma_intern_all_present(m: TableModel, strs: Seq<Seq<char>>)
    ensures
        all_present(intern_all(m, strs).entries, strs),
        forall|s: Seq<char>| find_entry(m.entries, s) is Some ==> find_entry(intern_all(m, strs).entries, s) is Some,
    decreases strs.len(),
{
    if strs.len() > 0 {
        let before = intern_all(m, strs.drop_last());
        lemma_intern_all_present(m, strs.drop_last());
        let after = intern(before, strs.last());
        assert forall|s: Seq<char>| find_entry(before.entries, s) is Some implies find_entry(after.entries, s) is Some by {
            if find_entry(before.entries, strs.last()) is None {
                assert(after.entries.drop_last() =~= before.entries);
            }
        }
        assert forall|i: int| 0 <= i < strs.len() implies find_entry(after.entries, #[trigger] strs[i]) is Some by {
            if i < strs.len() - 1 {
                assert(strs.drop_last()[i] == strs[i]);
            } else if find_entry(before.entries, strs.last()) is None {
                assert(after.entries.last().0 == strs.last());
            }
        }
    }
}

} // verus!
