//! The update protocol that the generated code follows: how the component
//! state is laid out, and how its dirty mask is set and cleared.

use vstd::prelude::*;
use crate::analysis::reactivity::{lookup_name, ComponentPlanV};
use crate::codegen::model::{
    assign_op_instr, comp_field, computeds_init, elements_code, expr_code, mark_dirty, method_code,
    method_epilogue, mount_code, mount_epilogue, mount_prologue, recomputes, sig_field, slot_field, state_fields,
    stmt_code, stmts_code, EmitCx, Outcome, read_state, binop_instr, code, all_present, collected_strings, compiled, intern, intern_all,
    intern_fits, lemma_intern_all_present, TableModel,
};
use crate::codegen::wasm::{Instr, ValTy};
use crate::syntax::token::Span;
use crate::syntax::ast::{AssignOperator, BinaryOp, ExprV};
use crate::codegen::wasm_gc::STATE_TYPE_IDX;
use crate::syntax::ast::{ExternBlockV, FnDeclV, StmtV};

verus! {

/// Clears the dirty mask of the state held in local `l`.
pub open spec fn clear_mask(l: u32) -> Seq<Instr> {
    seq![Instr::LocalGet(l), Instr::I32Const(0), Instr::StructSet { struct_type_index: STATE_TYPE_IDX, field_index: 0 }]
}

/// `s` ends with `t`.
pub open spec fn ends_with(s: Seq<Instr>, t: Seq<Instr>) -> bool {
    t.len() <= s.len() && s.subrange(s.len() - t.len(), s.len() as int) == t
}

/// `s` begins with `t`.
pub open spec fn begins_with(s: Seq<Instr>, t: Seq<Instr>) -> bool {
    t.len() <= s.len() && s.subrange(0, t.len() as int) == t
}

/// Law: the state struct holds the dirty mask in field 0, then the signals,
/// the computeds and the dynamic text slots, each group in id order and
/// below the next; the first three groups are `i32`, the slots `externref`.
pub proof fn law_state_layout(p: ComponentPlanV, i: int, j: int, k: int)
    requires
        1 + p.signals.len() + p.computeds.len() + p.dynamic_text_slots <= u32::MAX,
    ensures
        state_fields(p).len() == 1 + p.signals.len() + p.computeds.len() + p.dynamic_text_slots,
        state_fields(p)[0] == ValTy::I32,
        0 <= i < p.signals.len() ==> {
            &&& 0 < sig_field(i) < 1 + p.signals.len()
            &&& state_fields(p)[sig_field(i) as int] == ValTy::I32
        },
        0 <= j < p.computeds.len() ==> {
            let f = comp_field(p.signals.len() as int, j);
            &&& 1 + p.signals.len() <= f < 1 + p.signals.len() + p.computeds.len()
            &&& state_fields(p)[f as int] == ValTy::I32
        },
        0 <= k < p.dynamic_text_slots ==> {
            let f = slot_field(p.signals.len() as int, p.computeds.len() as int, k);
            &&& 1 + p.signals.len() + p.computeds.len() <= f
            &&& f < 1 + p.signals.len() + p.computeds.len() + p.dynamic_text_slots
            &&& state_fields(p)[f as int] == ValTy::ExternRef
        },
{
}

/// Law: a compiled method ends by clearing the dirty mask, after it has
/// recomputed the dirty computeds and rendered the dirty text.
pub proof fn law_method_clears_mask(
    p: ComponentPlanV,
    m: FnDeclV,
    cx: EmitCx,
    blocks: Seq<ExternBlockV>,
    num_imports: nat,
)
    ensures
        method_code(p, m, cx, blocks, num_imports) matches Outcome::Done(b) ==> ends_with(
            b,
            clear_mask(0).push(Instr::End),
        ),
{
    if let Outcome::Done(b) = method_code(p, m, cx, blocks, num_imports) {
        let s = stmts_code(m.body, cx, blocks, m.body.len())->Done_0;
        let r = recomputes(p, cx, p.computeds.len())->Done_0;
        let ep = method_epilogue(p, num_imports);
        let tail = clear_mask(0).push(Instr::End);
        assert(ends_with(ep, tail)) by {
            assert(ep.subrange(ep.len() - 4, ep.len() as int) =~= tail);
        }
        lemma_ends_with_append(seq![Instr::GlobalGet(0), Instr::LocalSet(0)] + (s + r), ep, tail);
        assert(b =~= seq![Instr::GlobalGet(0), Instr::LocalSet(0)] + (s + r) + ep);
    }
}

/// A sequence that ends with `t` still does after something is put before it.
proof fn lemma_ends_with_append(a: Seq<Instr>, s: Seq<Instr>, t: Seq<Instr>)
    requires
        ends_with(s, t),
    ensures
        ends_with(a + s, t),
{
    let u = a + s;
    assert(u.subrange(u.len() - t.len(), u.len() as int) =~= s.subrange(s.len() - t.len(), s.len() as int));
}

/// A sequence that begins with `t` still does after something is put after it.
proof fn lemma_begins_with_append(s: Seq<Instr>, a: Seq<Instr>, t: Seq<Instr>)
    requires
        begins_with(s, t),
    ensures
        begins_with(s + a, t),
{
    assert((s + a).subrange(0, t.len() as int) =~= s.subrange(0, t.len() as int));
}

/// Law: mount creates the state with every bit of the dirty mask set, so
/// that its first render shows every dynamic text; after that render (when
/// there is dynamic text) it clears the mask, then calls `onMount` if the
/// component has it.
pub proof fn law_mount_protocol(p: ComponentPlanV, cx: EmitCx, num_imports: nat, method_start: nat)
    ensures
        mount_code(p, cx, num_imports, method_start) matches Outcome::Done(b) ==> {
            &&& begins_with(b, mount_prologue(p))
            &&& b[0] == Instr::I32Const(-1i32)
            &&& ends_with(b, mount_epilogue(p, num_imports, method_start))
        },
        ({
            let ep = mount_epilogue(p, num_imports, method_start);
            let d: int = if p.dynamic_text_slots > 0 { 1 } else { 0 };
            &&& p.dynamic_text_slots > 0 ==> ep[0] == Instr::Call((num_imports + 1) as u32)
            &&& ep.subrange(d, d + 3) == clear_mask(1)
        }),
{
    let ep = mount_epilogue(p, num_imports, method_start);
    let d: int = if p.dynamic_text_slots > 0 { 1 } else { 0 };
    assert(ep.subrange(d, d + 3) =~= clear_mask(1));
    if let Outcome::Done(b) = mount_code(p, cx, num_imports, method_start) {
        let pro = mount_prologue(p);
        let els = elements_code(p, cx.entries, p.elements.len())->Done_0;
        let ini = computeds_init(p, cx, 1, p.computeds.len())->Done_0;
        assert(b =~= pro + (els + (ini + ep)));
        assert(begins_with(pro, pro)) by {
            assert(pro.subrange(0, pro.len() as int) =~= pro);
        }
        lemma_begins_with_append(pro, els + (ini + ep), pro);
        assert(b[0] == pro[0]);
        assert(ends_with(ep, ep)) by {
            assert(ep.subrange(0, ep.len() as int) =~= ep);
        }
        lemma_ends_with_append(pro + (els + ini), ep, ep);
        assert(b =~= (pro + (els + ini)) + ep);
    }
}

/// The signal that an assignment statement writes, if it is one.
pub open spec fn written_signal(st: StmtV) -> Option<Seq<char>> {
    match st {
        StmtV::Assign { target, .. } => Some(target),
        StmtV::AssignOp { target, .. } => Some(target),
        _ => None,
    }
}

/// Law: the code of an assignment to a signal ends by setting that
/// signal's bit, `1 << id`, in the dirty mask; a signal whose id is past the
/// 32 bits of the mask cannot be assigned.
pub proof fn law_signal_write_marks_dirty(st: StmtV, cx: EmitCx, blocks: Seq<ExternBlockV>)
    ensures
        written_signal(st) matches Some(name) ==> lookup_name(cx.sigs, name) matches Some(id) ==> stmt_code(
            st,
            cx,
            blocks,
        ) matches Outcome::Done(b) ==> {
            &&& id < 32
            &&& ends_with(b, mark_dirty(id)->Done_0)
            &&& mark_dirty(id)->Done_0[3] == Instr::I32Const((1u32 << (id as u32)) as i32)
        },
{
    if let Some(name) = written_signal(st) {
        if let Some(id) = lookup_name(cx.sigs, name) {
            if let Outcome::Done(b) = stmt_code(st, cx, blocks) {
                let mk = mark_dirty(id)->Done_0;
                assert(ends_with(mk, mk)) by {
                    assert(mk.subrange(0, mk.len() as int) =~= mk);
                }
                match st {
                    StmtV::Assign { target, value, .. } => {
                        let v = expr_code(value, cx)->Done_0;
                        let head = seq![Instr::LocalGet(0)] + (v + seq![
                            Instr::StructSet { struct_type_index: STATE_TYPE_IDX, field_index: sig_field(id as int) },
                        ]);
                        assert(b =~= head + mk);
                        lemma_ends_with_append(head, mk, mk);
                    },
                    StmtV::AssignOp { target, op, value, .. } => {
                        let v = expr_code(value, cx)->Done_0;
                        let head = seq![
                            Instr::LocalGet(0),
                            Instr::LocalGet(0),
                            Instr::StructGet { struct_type_index: STATE_TYPE_IDX, field_index: sig_field(id as int) },
                        ] + (v + seq![
                            assign_op_instr(op),
                            Instr::StructSet { struct_type_index: STATE_TYPE_IDX, field_index: sig_field(id as int) },
                        ]);
                        assert(b =~= head + mk);
                        lemma_ends_with_append(head, mk, mk);
                    },
                    _ => {},
                }
            }
        }
    }
}

/// Law: with `s` signals, `c` computeds and `d` dynamic text slots whose
/// fields all have `u32` indices, signal `i` is field `1 + i`, computed `j`
/// field `1 + s + j` and slot `k` field `1 + s + c + k`; no two of these are
/// the same field, none is field 0 (the dirty mask), and all are below the
/// field count `1 + s + c + d`.
pub proof fn law_field_indices_distinct(s: int, c: int, d: int)
    requires
        0 <= s,
        0 <= c,
        0 <= d,
        1 + s + c + d <= u32::MAX,
    ensures
        forall|i: int| 0 <= i < s ==> #[trigger] sig_field(i) == 1 + i,
        forall|j: int| 0 <= j < c ==> #[trigger] comp_field(s, j) == 1 + s + j,
        forall|k: int| 0 <= k < d ==> #[trigger] slot_field(s, c, k) == 1 + s + c + k,
        forall|x: int, y: int| 0 <= x < y < s ==> #[trigger] sig_field(x) != #[trigger] sig_field(y),
        forall|x: int, y: int| 0 <= x < y < c ==> #[trigger] comp_field(s, x) != #[trigger] comp_field(s, y),
        forall|x: int, y: int| 0 <= x < y < d ==> #[trigger] slot_field(s, c, x) != #[trigger] slot_field(s, c, y),
        forall|i: int, j: int| 0 <= i < s && 0 <= j < c ==> #[trigger] sig_field(i) != #[trigger] comp_field(s, j),
        forall|i: int, k: int| 0 <= i < s && 0 <= k < d ==> #[trigger] sig_field(i) != #[trigger] slot_field(s, c, k),
        forall|j: int, k: int| 0 <= j < c && 0 <= k < d ==> #[trigger] comp_field(s, j) != #[trigger] slot_field(s, c, k),
        forall|i: int| 0 <= i < s ==> 0 < #[trigger] sig_field(i) < 1 + s + c + d,
        forall|j: int| 0 <= j < c ==> 0 < #[trigger] comp_field(s, j) < 1 + s + c + d,
        forall|k: int| 0 <= k < d ==> 0 < #[trigger] slot_field(s, c, k) < 1 + s + c + d,
{
}

/// What a Wasm `i32` instruction computes from two operands `a` (pushed
/// first) and `b`: wrapping arithmetic, signed division and remainder (none
/// on a trap), comparisons as `1` or `0`, bitwise `and` and `or`; `None` for
/// an instruction that does not take two operands.
pub open spec fn i32_instr_result(i: Instr, a: i32, b: i32) -> Option<i32> {
    match i {
        Instr::I32Add => Some(a.wrapping_add(b)),
        Instr::I32Sub => Some(a.wrapping_sub(b)),
        Instr::I32Mul => Some(a.wrapping_mul(b)),
        Instr::I32DivS => a.checked_div(b),
        Instr::I32RemS => if b == 0 { None } else { Some(a.checked_rem(b).unwrap_or(0)) },
        Instr::I32Eq => Some(if a == b { 1 } else { 0 }),
        Instr::I32Ne => Some(if a != b { 1 } else { 0 }),
        Instr::I32LtS => Some(if a < b { 1 } else { 0 }),
        Instr::I32LeS => Some(if a <= b { 1 } else { 0 }),
        Instr::I32GtS => Some(if a > b { 1 } else { 0 }),
        Instr::I32GeS => Some(if a >= b { 1 } else { 0 }),
        Instr::I32And => Some(a & b),
        Instr::I32Or => Some(a | b),
        _ => None,
    }
}

/// Law: the instruction of each binary operator computes that operator on
/// `i32` operands: `+`, `-` and `*` wrap, `/` and `%` are the signed
/// truncating ones, a comparison gives `1` when it holds and `0` otherwise,
/// and `&&` and `||` (on `0` and `1`) are the bitwise `and` and `or`.
pub proof fn law_binop_instr_computes(op: BinaryOp, a: i32, b: i32)
    ensures
        i32_instr_result(binop_instr(op), a, b) == match op {
            BinaryOp::Add => Some(a.wrapping_add(b)),
            BinaryOp::Sub => Some(a.wrapping_sub(b)),
            BinaryOp::Mul => Some(a.wrapping_mul(b)),
            BinaryOp::Div => a.checked_div(b),
            BinaryOp::Mod => if b == 0 { None } else { Some(a.checked_rem(b).unwrap_or(0)) },
            BinaryOp::Eq => Some(if a == b { 1i32 } else { 0 }),
            BinaryOp::NotEq => Some(if a == b { 0i32 } else { 1 }),
            BinaryOp::Lt => Some(if a < b { 1i32 } else { 0 }),
            BinaryOp::LtEq => Some(if b < a { 0i32 } else { 1 }),
            BinaryOp::Gt => Some(if b < a { 1i32 } else { 0 }),
            BinaryOp::GtEq => Some(if a < b { 0i32 } else { 1 }),
            BinaryOp::And => Some(a & b),
            BinaryOp::Or => Some(a | b),
        },
{
}

/// The binary operator that a compound assignment operator abbreviates.
pub open spec fn abbreviated(op: AssignOperator) -> BinaryOp {
    match op {
        AssignOperator::AddEq => BinaryOp::Add,
        AssignOperator::SubEq => BinaryOp::Sub,
        AssignOperator::MulEq => BinaryOp::Mul,
        AssignOperator::DivEq => BinaryOp::Div,
    }
}

/// Law: a compound assignment `x op= v` to a signal computes `x op v`: its
/// code reads `x` from the state, then has exactly the code that the binary
/// expression `x op v` has after reading `x` (the value's code, then the
/// operator's instruction), then stores the result in `x`'s field.
pub proof fn law_compound_assign_computes_binary(
    target: Seq<char>,
    op: AssignOperator,
    value: ExprV,
    span: Span,
    cx: EmitCx,
    blocks: Seq<ExternBlockV>,
)
    ensures
        ({
            let st = StmtV::AssignOp { target, op, value, span };
            let e = ExprV::Binary {
                op: abbreviated(op),
                left: Box::new(ExprV::Ident(target, span)),
                right: Box::new(value),
                span,
            };
            lookup_name(cx.sigs, target) matches Some(id) ==> stmt_code(st, cx, blocks) matches Outcome::Done(b)
                ==> expr_code(e, cx) matches Outcome::Done(c) && {
                &&& c.subrange(0, 2) == read_state(sig_field(id as int))
                &&& b.subrange(0, 2) == seq![Instr::LocalGet(0), Instr::LocalGet(0)]
                &&& b.subrange(2, c.len() as int + 1) == c.subrange(1, c.len() as int)
                &&& b[c.len() as int + 1] == Instr::StructSet { struct_type_index: STATE_TYPE_IDX, field_index: sig_field(id as int) }
            }
        }),
{
    let st = StmtV::AssignOp { target, op, value, span };
    let e = ExprV::Binary {
        op: abbreviated(op),
        left: Box::new(ExprV::Ident(target, span)),
        right: Box::new(value),
        span,
    };
    if let Some(id) = lookup_name(cx.sigs, target) {
        if let Outcome::Done(b) = stmt_code(st, cx, blocks) {
            let vc = expr_code(value, cx)->Done_0;
            let f = sig_field(id as int);
            let rs = read_state(f);
            assert(expr_code(ExprV::Ident(target, span), cx) == code(rs));
            let c = rs + (vc + seq![binop_instr(abbreviated(op))]);
            assert(expr_code(e, cx) == Outcome::Done(c));
            let head = seq![
                Instr::LocalGet(0),
                Instr::LocalGet(0),
                Instr::StructGet { struct_type_index: STATE_TYPE_IDX, field_index: f },
            ];
            let md = mark_dirty(id)->Done_0;
            let tail = seq![assign_op_instr(op), Instr::StructSet { struct_type_index: STATE_TYPE_IDX, field_index: f }];
            assert(b == head + (vc + (tail + md)));
            assert(assign_op_instr(op) == binop_instr(abbreviated(op)));
            assert(b.subrange(2, c.len() as int + 1) =~= c.subrange(1, c.len() as int));
        }
    }
}

/// Interning texts that a table already holds changes nothing, and fits.
proof fn lemma_intern_present(m: TableModel, strs: Seq<Seq<char>>)
    requires
        all_present(m.entries, strs),
    ensures
        intern_all(m, strs) == m,
        intern_fits(m, strs),
    decreases strs.len(),
{
    if strs.len() > 0 {
        assert forall|i: int| 0 <= i < strs.drop_last().len() implies find_entry_some(m, #[trigger] strs.drop_last()[i]) by {
            assert(strs.drop_last()[i] == strs[i]);
        }
        lemma_intern_present(m, strs.drop_last());
        assert(find_entry_some(m, strs[strs.len() - 1]));
        assert(intern(m, strs.last()) == m);
    }
}

/// `s` has an entry in the table.
spec fn find_entry_some(m: TableModel, s: Seq<char>) -> bool {
    crate::codegen::memory_layout::find_entry(m.entries, s) is Some
}

/// Law: compiling again gives what the first compilation gave: once the
/// strings of a plan are interned, the table that compilation starts from
/// is the one that it leaves, and the outcome is the same.
pub proof fn law_compile_repeats(p: ComponentPlanV, blocks: Seq<ExternBlockV>, m: TableModel)
    requires
        intern_fits(m, collected_strings(p)),
    ensures
        intern_all(intern_all(m, collected_strings(p)), collected_strings(p)) == intern_all(m, collected_strings(p)),
        compiled(p, blocks, intern_all(m, collected_strings(p))) == compiled(p, blocks, m),
{
    let strs = collected_strings(p);
    let t = intern_all(m, strs);
    lemma_intern_all_present(m, strs);
    assert forall|i: int| 0 <= i < strs.len() implies find_entry_some(t, #[trigger] strs[i]) by {}
    lemma_intern_present(t, strs);
}

} // verus!
