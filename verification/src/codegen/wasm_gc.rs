//! The Wasm-GC code generator: lays out the component state as a GC struct
//! and emits the mount, render, method and getter functions of a component.

use vstd::prelude::*;
use crate::analysis::reactivity::{
    lookup_name, pairs_view, ComponentPlan, ComponentPlanV, NameMap, PlannedElementV, PlannedNodeKind,
    PlannedNodeKindV,
};
use crate::codegen::memory_layout::{find_entry, utf8, StringEntry, StringTable, DATA_START};
use crate::codegen::model::{
    debug_text_of, str_debug_of, span_debug, binop_name, args_debug, unsupported_message, args_code, args_strings, binop_instr, body_strings, code, collected_strings, comp_field, elements_strings,
    emitted_as, event_attr, event_strings, expr_code, expr_strings, index_strings, lemma_args_prefix_stops,
    methods_strings, node_strings, pair_strings, read_state, sig_field, slot_field, stmt_strings, then, unop_code,
    EmitCx, Halt, Outcome, all_present, append_code, attrs_code, const_init, element_index, element_step,
    entry_of, event_code, event_steps, events_code, extern_fns, handler_message, lemma_event_strings,
    lemma_pair_strings, lemma_present_concat, lemma_then_fold_step, lemma_then_fold_stops, lemma_then_stops,
    method_index, node_code, ptr_len, set_attr, static_text_code, then_fold, local_of, lemma_emitted_seq,
    lemma_emitted_stop, init_step, init_steps, computeds_init, mount_code, mount_prologue, mount_epilogue,
    element_steps, elements_code, lemma_node_present, slot_render, slot_guard, render_steps, slots_render,
    render_code, has_return, mark_dirty, stmt_code, stmt_steps, stmts_code, assign_op_instr, recompute,
    recompute_steps, recomputes, method_code, method_epilogue, getter_code, table_model, TableModel, intern,
    intern_all, intern_fits, dom_imports, imports_of, indices_of, extern_type, base_types, state_fields,
    function_types, exports_of, methods_code, halted_as, lemma_methods_stop, lemma_intern_all_present,
    compiled, code_of, mount_locals, state_local, sections_of, method_funcs, head_fits, tail_fits,
};
use crate::codegen::wasm::{
    export_entries, export_section_add, export_section_new, function_entries, function_section_add,
    function_section_new, import_entries, import_section_function, import_section_new, type_entries,
    type_section_function, type_section_new, type_section_struct, ExportTarget, TypeEntry, code_entries,
    code_section_add, code_section_new, data_section_bytes, element_section_functions, encode_function,
    global_section_state, memory_section_one, module_code, module_data, module_elements, module_exports,
    module_finish, module_functions, module_globals, module_imports, module_memories, module_new, module_sections,
    module_tables, module_types, table_section_funcref, section_fits, total, type_cost, import_cost,
    export_cost, element_cost, code_cost, data_cost, lemma_total_push, SECTION_LIMIT,
};
use wasm_encoder::{CodeSection, ExportSection, FunctionSection, ImportSection, TypeSection};
use crate::codegen::wasm::{module_binary, Instr, SectionV, ValTy};
use crate::syntax::ast::{ExternBlock, blocks_view, stmts_view, AssignOperator, BinaryOp, Expr, FnDecl, ExprV, ExternBlockV, FnDeclV, Stmt, StmtV, UnaryOp};
use crate::text::{decimal, push_i64, push_str, push_usize, string_of};
use crate::syntax::token::Span;

verus! {

/// Field of the component state that holds the dirty mask.
pub const DIRTY_MASK_FIELD_IDX: u32 = 0;

/// Import index of `dom.createElement`.
pub const DOM_CREATE_ELEMENT_IMPORT_IDX: u32 = 0;

/// Import index of `dom.createTextNode`.
pub const DOM_CREATE_TEXT_NODE_IMPORT_IDX: u32 = 1;

/// Import index of `dom.setTextContent`.
pub const DOM_SET_TEXT_CONTENT_IMPORT_IDX: u32 = 2;

/// Import index of `dom.setAttribute`.
pub const DOM_SET_ATTRIBUTE_IMPORT_IDX: u32 = 3;

/// Import index of `dom.appendChild`.
pub const DOM_APPEND_CHILD_IMPORT_IDX: u32 = 4;

/// Import index of `dom.addEventListener`.
pub const DOM_ADD_EVENT_LISTENER_IMPORT_IDX: u32 = 5;

/// Import index of `dom.setTextNumber`.
pub const DOM_SET_TEXT_NUMBER_IMPORT_IDX: u32 = 6;

/// Type index of the component-state struct: it follows the twelve function types.
pub const STATE_TYPE_IDX: u32 = 12;

/// The compiler of one component.
pub struct WasmGcCompiler {
    plan: ComponentPlan,
    extern_blocks: Vec<crate::syntax::ast::ExternBlock>,
    string_table: StringTable,
}

/// `<str as Debug>::fmt`, through `format!("{:?}", s)`: the string quoted,
/// with its special characters escaped; a function of the text alone (named
/// by `str_debug_of`).
#[verifier::external_body]
fn debug_str(s: &str) -> (r: String)
    ensures
        r@ == str_debug_of(s@),
{
    format!("{:?}", s)
}

/// Appends the `Debug` text of a span.
fn push_span_debug(out: &mut String, s: Span)
    ensures
        final(out)@ == old(out)@ + span_debug(s),
{
    push_str(out, "Span { start: ");
    push_usize(out, s.start);
    push_str(out, ", end: ");
    push_usize(out, s.end);
    push_str(out, ", line: ");
    push_usize(out, s.line);
    push_str(out, ", col: ");
    push_usize(out, s.col);
    push_str(out, " }");
    assert(final(out)@ =~= old(out)@ + span_debug(s));
}

/// Appends a string's `Debug` text.
fn push_str_debug(out: &mut String, t: &str)
    ensures
        final(out)@ == old(out)@ + str_debug_of(t@),
{
    let d = debug_str(t);
    push_str(out, d.as_str());
}

/// The name of a binary operator.
fn binop_text(op: BinaryOp) -> (r: &'static str)
    ensures
        r@ == binop_name(op),
{
    match op {
        BinaryOp::Add => "Add",
        BinaryOp::Sub => "Sub",
        BinaryOp::Mul => "Mul",
        BinaryOp::Div => "Div",
        BinaryOp::Mod => "Mod",
        BinaryOp::Eq => "Eq",
        BinaryOp::NotEq => "NotEq",
        BinaryOp::Lt => "Lt",
        BinaryOp::LtEq => "LtEq",
        BinaryOp::Gt => "Gt",
        BinaryOp::GtEq => "GtEq",
        BinaryOp::And => "And",
        BinaryOp::Or => "Or",
    }
}

/// Appends the `Debug` text of an expression (see `debug_text_of`).
#[verifier::rlimit(30)]
fn push_debug(out: &mut String, e: &Expr)
    ensures
        final(out)@ == old(out)@ + debug_text_of(e@),
    decreases e,
{
    match e {
        Expr::IntLit(n, s) => {
            push_str(out, "IntLit(");
            push_i64(out, *n);
            push_str(out, ", ");
            push_span_debug(out, *s);
            push_str(out, ")");
            assert(out@ =~= old(out)@ + debug_text_of(e@));
        },
        Expr::FloatLit(t, s) => {
            push_str(out, "FloatLit(");
            push_str_debug(out, t.as_str());
            push_str(out, ", ");
            push_span_debug(out, *s);
            push_str(out, ")");
            assert(out@ =~= old(out)@ + debug_text_of(e@));
        },
        Expr::StringLit(t, s) => {
            push_str(out, "StringLit(");
            push_str_debug(out, t.as_str());
            push_str(out, ", ");
            push_span_debug(out, *s);
            push_str(out, ")");
            assert(out@ =~= old(out)@ + debug_text_of(e@));
        },
        Expr::BoolLit(b, s) => {
            push_str(out, "BoolLit(");
            push_str(out, if *b { "true" } else { "false" });
            push_str(out, ", ");
            push_span_debug(out, *s);
            push_str(out, ")");
            assert(out@ =~= old(out)@ + debug_text_of(e@));
        },
        Expr::Ident(t, s) => {
            push_str(out, "Ident(");
            push_str_debug(out, t.as_str());
            push_str(out, ", ");
            push_span_debug(out, *s);
            push_str(out, ")");
            assert(out@ =~= old(out)@ + debug_text_of(e@));
        },
        Expr::Binary { op, left, right, span } => {
            push_str(out, "Binary { op: ");
            push_str(out, binop_text(*op));
            push_str(out, ", left: ");
            push_debug(out, left);
            push_str(out, ", right: ");
            push_debug(out, right);
            push_str(out, ", span: ");
            push_span_debug(out, *span);
            push_str(out, " }");
            assert(out@ =~= old(out)@ + debug_text_of(e@));
        },
        Expr::Unary { op, expr: inner, span } => {
            push_str(out, "Unary { op: ");
            push_str(out, match op {
                UnaryOp::Neg => "Neg",
                UnaryOp::Not => "Not",
            });
            push_str(out, ", expr: ");
            push_debug(out, inner);
            push_str(out, ", span: ");
            push_span_debug(out, *span);
            push_str(out, " }");
            assert(out@ =~= old(out)@ + debug_text_of(e@));
        },
        Expr::Call { callee, args, span } => {
            push_str(out, "Call { callee: ");
            push_str_debug(out, callee.as_str());
            push_str(out, ", args: [");
            let ghost head = out@;
            let mut i: usize = 0;
            assert(args_debug(e@->args.subrange(0, 0)) =~= Seq::<char>::empty());
            while i < args.len()
                invariant
                    i <= args@.len(),
                    *e == (Expr::Call { callee: *callee, args: *args, span: *span }),
                    out@ == head + args_debug(e@->args.subrange(0, i as int)),
                decreases args@.len() - i,
            {
                proof {
                    assert(decreases_to!(e => args@[i as int]));
                }
                if i > 0 {
                    push_str(out, ", ");
                }
                push_debug(out, &args[i]);
                proof {
                    let sub = e@->args.subrange(0, i + 1);
                    assert(sub.subrange(0, i as int) =~= e@->args.subrange(0, i as int));
                    assert(sub[i as int] == args@[i as int]@);
                    if i == 0 {
                        assert(sub[0] == args@[0]@);
                    }
                    assert(out@ =~= head + args_debug(sub));
                }
                i += 1;
            }
            assert(e@->args.subrange(0, i as int) =~= e@->args);
            push_str(out, "], span: ");
            push_span_debug(out, *span);
            push_str(out, " }");
            assert(out@ =~= old(out)@ + debug_text_of(e@));
        },
        Expr::MemberAccess { object, member, span } => {
            push_str(out, "MemberAccess { object: ");
            push_debug(out, object);
            push_str(out, ", member: ");
            push_str_debug(out, member.as_str());
            push_str(out, ", span: ");
            push_span_debug(out, *span);
            push_str(out, " }");
            assert(out@ =~= old(out)@ + debug_text_of(e@));
        },
    }
}

/// The `Debug` text of an expression, as `format!("{:?}", e)` writes it
/// (see `debug_text_of`).
fn debug_text(e: &Expr) -> (r: String)
    ensures
        r@ == debug_text_of(e@),
{
    let mut out = String::new();
    push_debug(&mut out, e);
    out
}

impl WasmGcCompiler {
    /// The plan being compiled.
    pub closed spec fn plan_view(&self) -> ComponentPlanV {
        self.plan@
    }

    /// The string table.
    pub closed spec fn table(&self) -> StringTable {
        self.string_table
    }

    /// The context of expression code, given the import index of each foreign function.
    pub open spec fn cx(&self, ext: Seq<(Seq<char>, usize)>) -> EmitCx {
        EmitCx {
            sigs: self.plan_view().signal_name_to_id,
            comps: self.plan_view().computed_name_to_id,
            ns: self.plan_view().signals.len(),
            entries: self.table().entries(),
            ext,
        }
    }

    /// The ids that the plan's name maps give fit their struct fields.
    pub open spec fn ids_fit(&self) -> bool {
        let p = self.plan_view();
        &&& forall|i: int| 0 <= i < p.signal_name_to_id.len() ==> #[trigger] p.signal_name_to_id[i].1 + 1 <= u32::MAX
        &&& forall|i: int|
            0 <= i < p.computed_name_to_id.len() ==> #[trigger] p.computed_name_to_id[i].1 + p.signals.len() + 1
                <= u32::MAX
    }

    /// The string table is well formed.
    pub closed spec fn wf(&self) -> bool {
        self.string_table.wf()
    }

    /// Struct field of signal `sig_id`.
    pub fn signal_field_idx(&self, sig_id: usize) -> (r: u32)
        requires
            sig_id + 1 <= u32::MAX,
        ensures
            r == sig_field(sig_id as int),
    {
        1 + sig_id as u32
    }

    /// Struct field of computed `comp_id`.
    pub fn computed_field_idx(&self, comp_id: usize) -> (r: u32)
        requires
            self.plan_view().signals.len() + comp_id + 1 <= u32::MAX,
        ensures
            r == comp_field(self.plan_view().signals.len() as int, comp_id as int),
    {
        1 + self.plan.signals.len() as u32 + comp_id as u32
    }

    /// Struct field of dynamic text slot `state_slot`.
    pub fn dynamic_slot_field_idx(&self, state_slot: usize) -> (r: u32)
        requires
            self.plan_view().signals.len() + self.plan_view().computeds.len() + state_slot + 1 <= u32::MAX,
        ensures
            r == slot_field(
                self.plan_view().signals.len() as int,
                self.plan_view().computeds.len() as int,
                state_slot as int,
            ),
    {
        1 + self.plan.signals.len() as u32 + self.plan.computeds.len() as u32 + state_slot as u32
    }

    /// The number of fields of the state struct: the dirty mask, the
    /// signals, the computeds and the dynamic text slots.
    pub fn total_struct_fields(&self) -> (r: usize)
        requires
            1 + self.plan_view().signals.len() + self.plan_view().computeds.len()
                + self.plan_view().dynamic_text_slots <= usize::MAX,
        ensures
            r == 1 + self.plan_view().signals.len() + self.plan_view().computeds.len()
                + self.plan_view().dynamic_text_slots,
    {
        1 + self.plan.signals.len() + self.plan.computeds.len() + self.plan.dynamic_text_slots
    }

    /// Appends the code of `expr` (see `expr_code`).
    fn emit_expr(&self, expr: &Expr, ext: &NameMap, out: &mut Vec<Instr>) -> (r: Result<(), Halt>)
        requires
            self.wf(),
            self.ids_fit(),
        ensures
            emitted_as(r, expr_code(expr@, self.cx(ext@)), old(out)@, final(out)@),
        decreases expr,
    {
        let ghost cx = self.cx(ext@);
        match expr {
            Expr::IntLit(n, _) => {
                out.push(Instr::I32Const(#[verifier::truncate] (*n as i32)));
                assert(out@ =~= old(out)@ + seq![Instr::I32Const(*n as i32)]);
                Ok(())
            },
            Expr::BoolLit(b, _) => {
                out.push(Instr::I32Const(if *b { 1 } else { 0 }));
                assert(out@ =~= old(out)@ + seq![Instr::I32Const(if *b { 1 } else { 0 })]);
                Ok(())
            },
            Expr::StringLit(s, _) => {
                match self.string_table.get(s.as_str()) {
                    Some(entry) => {
                        out.push(Instr::I32Const(#[verifier::truncate] (entry.offset as i32)));
                        assert(out@ =~= old(out)@ + seq![Instr::I32Const(entry.offset as i32)]);
                        Ok(())
                    },
                    None => Err(Halt::Panic),
                }
            },
            Expr::Ident(name, _) => {
                if let Some(sig_id) = self.plan.signal_name_to_id.get(name) {
                    proof { lemma_lookup_fits(self.plan_view().signal_name_to_id, name@, 0); }
                    let field = self.signal_field_idx(sig_id);
                    out.push(Instr::GlobalGet(0));
                    out.push(Instr::StructGet { struct_type_index: STATE_TYPE_IDX, field_index: field });
                    assert(out@ =~= old(out)@ + read_state(field));
                    Ok(())
                } else if let Some(comp_id) = self.plan.computed_name_to_id.get(name) {
                    proof {
                        lemma_lookup_fits(self.plan_view().computed_name_to_id, name@, self.plan_view().signals.len());
                    }
                    let field = self.computed_field_idx(comp_id);
                    out.push(Instr::GlobalGet(0));
                    out.push(Instr::StructGet { struct_type_index: STATE_TYPE_IDX, field_index: field });
                    assert(out@ =~= old(out)@ + read_state(field));
                    Ok(())
                } else {
                    let mut msg = string_of("Unknown identifier '");
                    push_str(&mut msg, name.as_str());
                    push_str(&mut msg, "' in expression");
                    Err(Halt::Error(msg))
                }
            },
            Expr::Call { callee, args, span } => {
                match ext.get(callee) {
                    Some(call_idx) => {
                        let ghost before = out@;
                        let mut i: usize = 0;
                        assert(out@.subrange(before.len() as int, out@.len() as int) =~= Seq::<Instr>::empty());
                        assert(expr@->args.subrange(0, 0) =~= Seq::<ExprV>::empty());
                        assert(out@.subrange(0, before.len() as int) =~= before);
                        while i < args.len()
                            invariant
                                i <= args@.len(),
                                self.wf(),
                                self.ids_fit(),
                                cx == self.cx(ext@),
                                lookup_name(ext@, callee@) == Some(call_idx),
                                *expr == (Expr::Call { callee: *callee, args: *args, span: *span }),
                                args_code(expr@->args.subrange(0, i as int), cx) == code(out@.subrange(before.len() as int, out@.len() as int)),
                                before.len() <= out@.len(),
                                out@.subrange(0, before.len() as int) == before,
                            decreases args@.len() - i,
                        {
                            proof {
                                assert(decreases_to!(expr => args@[i as int]));
                            }
                            let ghost mid = out@;
                            let step = self.emit_expr(&args[i], ext, out);
                            proof {
                                let s = expr@->args.subrange(0, i + 1);
                                assert(s.subrange(0, i as int) =~= expr@->args.subrange(0, i as int));
                                assert(s[i as int] == args@[i as int]@);
                            }
                            match step {
                                Ok(()) => {
                                    proof {
                                        let c = expr_code(args@[i as int]@, cx)->Done_0;
                                        assert(out@ == mid + c);
                                        assert(out@.subrange(before.len() as int, out@.len() as int) =~= mid.subrange(
                                            before.len() as int,
                                            mid.len() as int,
                                        ) + c);
                                        assert(out@.subrange(0, before.len() as int) =~= mid.subrange(0, before.len() as int));
                                    }
                                },
                                Err(h) => {
                                    assert(args_code(expr@->args.subrange(0, i + 1), cx) == then(
                                        code(mid.subrange(before.len() as int, mid.len() as int)),
                                        expr_code(args@[i as int]@, cx),
                                    ));
                                    proof {
                                        lemma_args_prefix_stops(expr@->args, cx, i as int + 1);
                                        assert(expr_code(expr@, cx) == then(
                                            args_code(expr@->args, cx),
                                            code(seq![Instr::Call(call_idx as u32)]),
                                        ));
                                    }
                                    return Err(h);
                                },
                            }
                            i += 1;
                        }
                        assert(expr@->args.subrange(0, i as int) =~= expr@->args);
                        let ghost sub = out@.subrange(before.len() as int, out@.len() as int);
                        assert(out@ =~= before + sub);
                        out.push(Instr::Call(#[verifier::truncate] (call_idx as u32)));
                        assert(out@ =~= before + (sub + seq![Instr::Call(call_idx as u32)]));
                        Ok(())
                    },
                    None => {
                        let mut msg = string_of("Unknown function '");
                        push_str(&mut msg, callee.as_str());
                        push_str(&mut msg, "' in call expression");
                        Err(Halt::Error(msg))
                    },
                }
            },
            Expr::Binary { op, left, right, .. } => {
                let ghost before = out@;
                match self.emit_expr(left, ext, out) {
                    Ok(()) => {},
                    Err(h) => return Err(h),
                }
                let ghost mid = out@;
                match self.emit_expr(right, ext, out) {
                    Ok(()) => {},
                    Err(h) => return Err(h),
                }
                out.push(binop(*op));
                proof {
                    let a = expr_code(left@, cx)->Done_0;
                    let b = expr_code(right@, cx)->Done_0;
                    assert(out@ =~= before + (a + (b + seq![binop_instr(*op)])));
                }
                Ok(())
            },
            Expr::Unary { op, expr: inner, .. } => {
                let ghost before = out@;
                match self.emit_expr(inner, ext, out) {
                    Ok(()) => {},
                    Err(h) => return Err(h),
                }
                match op {
                    UnaryOp::Neg => {
                        out.push(Instr::I32Const(0));
                        out.push(Instr::I32Sub);
                    },
                    UnaryOp::Not => {
                        out.push(Instr::I32Eqz);
                    },
                }
                proof {
                    let a = expr_code(inner@, cx)->Done_0;
                    assert(out@ =~= before + (a + unop_code(*op)));
                }
                Ok(())
            },
            _ => {
                let mut msg = string_of("Expression type ");
                let text = debug_text(expr);
                push_str(&mut msg, text.as_str());
                push_str(&mut msg, " not yet supported in codegen");
                Err(Halt::Error(msg))
            },
        }
    }
}



impl WasmGcCompiler {
    /// The extern blocks whose functions the module imports.
    pub closed spec fn externs(&self) -> Seq<ExternBlockV> {
        blocks_view(self.extern_blocks@)
    }

    /// The counts and ids of the plan keep every index of the module within `u32`.
    pub open spec fn limits(&self) -> bool {
        let p = self.plan_view();
        &&& 16 + extern_fns(self.externs()).len() + p.methods.len() + p.signals.len() + p.computeds.len()
            + p.elements.len() + p.dynamic_text_slots <= u32::MAX
        &&& self.ids_fit()
        &&& forall|i: int| 0 <= i < p.signals.len() ==> #[trigger] p.signals[i].id + 1 <= u32::MAX
        &&& forall|i: int|
            0 <= i < p.computeds.len() ==> #[trigger] p.computeds[i].id + p.signals.len() + 1 <= u32::MAX
        &&& forall|i: int|
            0 <= i < p.elements.len() ==> ((#[trigger] p.elements[i]).kind matches PlannedNodeKindV::DynamicText(slot)
                ==> slot.state_slot + p.signals.len() + p.computeds.len() + 1 <= u32::MAX)
    }

    /// The entry of an interned string.
    fn entry(&self, s: &str) -> (e: StringEntry)
        requires
            self.wf(),
            find_entry(self.table().entries(), s@) is Some,
        ensures
            e == entry_of(self.table().entries(), s@),
    {
        match self.string_table.get(s) {
            Some(e) => e,
            None => StringEntry { offset: 0, len: 0 },
        }
    }

    /// Appends the offset and length of an interned string.
    fn push_ptr_len(&self, s: &str, out: &mut Vec<Instr>)
        requires
            self.wf(),
            find_entry(self.table().entries(), s@) is Some,
        ensures
            final(out)@ == old(out)@ + ptr_len(self.table().entries(), s@),
    {
        let e = self.entry(s);
        out.push(Instr::I32Const(#[verifier::truncate] (e.offset as i32)));
        out.push(Instr::I32Const(#[verifier::truncate] (e.len as i32)));
        assert(out@ =~= old(out)@ + ptr_len(self.table().entries(), s@));
    }

    /// Appends `dom.setAttribute(local l, name, value)`.
    fn push_set_attr(&self, l: u32, name: &str, val: &str, out: &mut Vec<Instr>)
        requires
            self.wf(),
            find_entry(self.table().entries(), name@) is Some,
            find_entry(self.table().entries(), val@) is Some,
        ensures
            final(out)@ == old(out)@ + set_attr(l, self.table().entries(), name@, val@),
    {
        out.push(Instr::LocalGet(l));
        self.push_ptr_len(name, out);
        self.push_ptr_len(val, out);
        out.push(Instr::Call(DOM_SET_ATTRIBUTE_IMPORT_IDX));
        assert(out@ =~= old(out)@ + set_attr(l, self.table().entries(), name@, val@));
    }

    /// The index of the first method named `name`.
    fn method_position(&self, name: &String) -> (r: Option<usize>)
        ensures
            match r {
                Some(i) => method_index(self.plan_view().methods, name@) == Some(i as nat) && i
                    < self.plan_view().methods.len(),
                None => method_index(self.plan_view().methods, name@) is None,
            },
    {
        let ghost ms = self.plan_view().methods;
        let mut i: usize = 0;
        assert(ms.subrange(0, 0) =~= Seq::<FnDeclV>::empty());
        while i < self.plan.methods.len()
            invariant
                i <= ms.len(),
                ms == self.plan_view().methods,
                ms.len() == self.plan.methods@.len(),
                method_index(ms.subrange(0, i as int), name@) is None,
            decreases ms.len() - i,
        {
            let ghost sub = ms.subrange(0, i + 1);
            assert(sub.drop_last() =~= ms.subrange(0, i as int));
            assert(sub.last() == self.plan.methods@[i as int]@);
            if self.plan.methods[i].name == *name {
                proof { lemma_index_extends(ms, name@, i as int + 1); }
                return Some(i);
            }
            i += 1;
        }
        assert(ms.subrange(0, i as int) =~= ms);
        None
    }

    /// The index of the first planned node with id `id`.
    fn element_position(&self, id: usize) -> (r: Option<usize>)
        ensures
            match r {
                Some(i) => element_index(self.plan_view().elements, id as nat) == Some(i as nat) && i
                    < self.plan_view().elements.len(),
                None => element_index(self.plan_view().elements, id as nat) is None,
            },
    {
        let ghost es = self.plan_view().elements;
        let mut i: usize = 0;
        assert(es.subrange(0, 0) =~= Seq::<PlannedElementV>::empty());
        while i < self.plan.elements.len()
            invariant
                i <= es.len(),
                es == self.plan_view().elements,
                es.len() == self.plan.elements@.len(),
                element_index(es.subrange(0, i as int), id as nat) is None,
            decreases es.len() - i,
        {
            let ghost sub = es.subrange(0, i + 1);
            assert(sub.drop_last() =~= es.subrange(0, i as int));
            assert(sub.last() == self.plan.elements@[i as int]@);
            if self.plan.elements[i].id == id {
                proof { lemma_element_index_extends(es, id as nat, i as int + 1); }
                return Some(i);
            }
            i += 1;
        }
        assert(es.subrange(0, i as int) =~= es);
        None
    }

    /// Appends the initial value of a signal (see `const_init`).
    fn emit_const_i32_expr(&self, expr: &Expr, out: &mut Vec<Instr>)
        ensures
            final(out)@ == old(out)@.push(const_init(expr@)),
    {
        match expr {
            Expr::IntLit(n, _) => out.push(Instr::I32Const(#[verifier::truncate] (*n as i32))),
            Expr::BoolLit(b, _) => out.push(Instr::I32Const(if *b { 1 } else { 0 })),
            _ => out.push(Instr::I32Const(0)),
        }
    }

    /// Appends an element's creation, its static attributes and its static text.
    fn emit_created(
        &self,
        tag: &String,
        static_attrs: &Vec<(String, String)>,
        static_text: &Option<String>,
        l: u32,
        out: &mut Vec<Instr>,
    )
        requires
            self.wf(),
            find_entry(self.table().entries(), tag@) is Some,
            all_present(self.table().entries(), pair_strings(pairs_view(static_attrs@))),
            static_text matches Some(t) ==> find_entry(self.table().entries(), t@) is Some,
        ensures
            final(out)@ == old(out)@ + (ptr_len(self.table().entries(), tag@) + seq![Instr::Call(0), Instr::LocalSet(l)]
                + attrs_code(pairs_view(static_attrs@), l, self.table().entries()) + static_text_code(
                match static_text {
                    Some(t) => Some(t@),
                    None => None,
                },
                l,
                self.table().entries(),
            )),
    {
        let ghost entries = self.table().entries();
        let ghost attrs = pairs_view(static_attrs@);
        proof { lemma_pair_strings(attrs); }
        self.push_ptr_len(tag.as_str(), out);
        out.push(Instr::Call(DOM_CREATE_ELEMENT_IMPORT_IDX));
        out.push(Instr::LocalSet(l));
        let ghost head = out@;
        let mut j: usize = 0;
        assert(attrs.subrange(0, 0) =~= Seq::<(Seq<char>, Seq<char>)>::empty());
        assert(out@ =~= head + attrs_code(attrs.subrange(0, 0), l, entries));
        while j < static_attrs.len()
            invariant
                j <= static_attrs@.len(),
                self.wf(),
                entries == self.table().entries(),
                attrs == pairs_view(static_attrs@),
                all_present(entries, pair_strings(attrs)),
                pair_strings(attrs).len() == 2 * attrs.len(),
                forall|k: int|
                    0 <= k < attrs.len() ==> pair_strings(attrs)[2 * k] == (#[trigger] attrs[k]).0 && pair_strings(
                        attrs,
                    )[2 * k + 1] == attrs[k].1,
                out@ == head + attrs_code(attrs.subrange(0, j as int), l, entries),
            decreases static_attrs@.len() - j,
        {
            assert(attrs[j as int] == (static_attrs@[j as int].0@, static_attrs@[j as int].1@));
            assert(find_entry(entries, pair_strings(attrs)[2 * j]) is Some);
            assert(find_entry(entries, pair_strings(attrs)[2 * j + 1]) is Some);
            self.push_set_attr(l, static_attrs[j].0.as_str(), static_attrs[j].1.as_str(), out);
            proof {
                let sub = attrs.subrange(0, j + 1);
                assert(sub.drop_last() =~= attrs.subrange(0, j as int));
                assert(out@ =~= head + attrs_code(sub, l, entries));
            }
            j += 1;
        }
        assert(attrs.subrange(0, j as int) =~= attrs);
        let ghost with_attrs = out@;
        match static_text {
            Some(t) => {
                out.push(Instr::LocalGet(l));
                self.push_ptr_len(t.as_str(), out);
                out.push(Instr::Call(DOM_SET_TEXT_CONTENT_IMPORT_IDX));
            },
            None => {},
        }
        let ghost st: Option<Seq<char>> = match static_text {
            Some(t) => Some(t@),
            None => None,
        };
        assert(out@ =~= with_attrs + static_text_code(st, l, entries));
        assert(out@ =~= old(out)@ + (ptr_len(entries, tag@) + seq![Instr::Call(0), Instr::LocalSet(l)] + attrs_code(
            attrs,
            l,
            entries,
        ) + static_text_code(st, l, entries)));
    }

    /// Appends the bindings of the events of the element in local `l`.
    fn emit_events(&self, events: &Vec<(String, String)>, l: u32, out: &mut Vec<Instr>) -> (r: Result<(), Halt>)
        requires
            self.wf(),
            all_present(self.table().entries(), event_strings(pairs_view(events@))),
            all_present(self.table().entries(), index_strings(self.plan_view().methods.len())),
        ensures
            emitted_as(
                r,
                events_code(pairs_view(events@), l, self.plan_view().methods, self.table().entries()),
                old(out)@,
                final(out)@,
            ),
    {
        let ghost p = self.plan_view();
        let ghost entries = self.table().entries();
        let ghost evs = pairs_view(events@);
        let ghost steps = event_steps(evs, l, p.methods, entries);
        let ghost base = old(out)@;
        proof { lemma_event_strings(evs); }
        let mut k: usize = 0;
        assert(out@.subrange(base.len() as int, out@.len() as int) =~= Seq::<Instr>::empty());
        assert(out@.subrange(0, base.len() as int) =~= base);
        while k < events.len()
            invariant
                k <= events@.len(),
                self.wf(),
                p == self.plan_view(),
                entries == self.table().entries(),
                evs == pairs_view(events@),
                steps == event_steps(evs, l, p.methods, entries),
                all_present(entries, event_strings(evs)),
                all_present(entries, index_strings(p.methods.len())),
                event_strings(evs).len() == evs.len(),
                forall|q: int| 0 <= q < evs.len() ==> event_strings(evs)[q] == event_attr((#[trigger] evs[q]).0),
                base.len() <= out@.len(),
                out@.subrange(0, base.len() as int) == base,
                then_fold(steps, k as nat) == code(out@.subrange(base.len() as int, out@.len() as int)),
            decreases events@.len() - k,
        {
            let ghost mid = out@;
            assert(evs[k as int] == (events@[k as int].0@, events@[k as int].1@));
            let name = event_attr_text(&events[k].0);
            assert(find_entry(entries, event_strings(evs)[k as int]) is Some);
            match self.method_position(&events[k].1) {
                Some(pos) => {
                    let mut idx = String::new();
                    push_usize(&mut idx, pos);
                    proof {
                        assert(idx@ =~= decimal(pos as nat));
                        assert(index_strings(p.methods.len())[pos as int] == decimal(pos as nat));
                    }
                    self.push_set_attr(l, name.as_str(), idx.as_str(), out);
                    proof {
                        let c = set_attr(l, entries, event_attr(evs[k as int].0), decimal(pos as nat));
                        assert(steps(k as int) == code(c));
                        lemma_then_fold_step(steps, k as nat, mid.subrange(base.len() as int, mid.len() as int), c);
                        assert(out@.subrange(base.len() as int, out@.len() as int) =~= mid.subrange(
                            base.len() as int,
                            mid.len() as int,
                        ) + c);
                        assert(out@.subrange(0, base.len() as int) =~= mid.subrange(0, base.len() as int));
                    }
                },
                None => {
                    let mut msg = string_of("Handler '");
                    push_str(&mut msg, events[k].1.as_str());
                    push_str(&mut msg, "' not found");
                    proof {
                        assert(steps(k as int) == Outcome::<Seq<Instr>>::Fail(handler_message(evs[k as int].1)));
                        lemma_then_fold_stops(steps, (k + 1) as nat, evs.len());
                    }
                    return Err(Halt::Error(msg));
                },
            }
            k += 1;
        }
        assert(out@ =~= base + out@.subrange(base.len() as int, out@.len() as int));
        Ok(())
    }

    /// Appends the code that creates a planned node into local `l`.
    fn emit_node(&self, kind: &PlannedNodeKind, l: u32, out: &mut Vec<Instr>) -> (r: Result<(), Halt>)
        requires
            self.wf(),
            self.limits(),
            kind@ is DynamicText ==> exists|i: int|
                0 <= i < self.plan_view().elements.len() && #[trigger] self.plan_view().elements[i].kind == kind@,
            all_present(self.table().entries(), node_strings(kind@)),
            all_present(self.table().entries(), index_strings(self.plan_view().methods.len())),
        ensures
            emitted_as(r, node_code(kind@, l, self.plan_view(), self.table().entries()), old(out)@, final(out)@),
    {
        let ghost p = self.plan_view();
        let ghost entries = self.table().entries();
        match kind {
            PlannedNodeKind::Element { tag, static_attrs, events, static_text } => {
                let ghost attrs = pairs_view(static_attrs@);
                let ghost evs = pairs_view(events@);
                let ghost st: Seq<Seq<char>> = match static_text {
                    Some(t) => seq![t@],
                    None => Seq::empty(),
                };
                proof {
                    lemma_present_concat(entries, seq![tag@] + pair_strings(attrs) + event_strings(evs), st);
                    lemma_present_concat(entries, seq![tag@] + pair_strings(attrs), event_strings(evs));
                    lemma_present_concat(entries, seq![tag@], pair_strings(attrs));
                    assert(seq![tag@][0] == tag@);
                    if let Some(t) = static_text {
                        assert(st[0] == t@);
                    }
                }
                self.emit_created(tag, static_attrs, static_text, l, out);
                let ghost mid = out@;
                let r = self.emit_events(events, l, out);
                proof {
                    let created = mid.subrange(old(out)@.len() as int, mid.len() as int);
                    let sto: Option<Seq<char>> = match static_text {
                        Some(t) => Some(t@),
                        None => None,
                    };
                    let x = ptr_len(entries, tag@) + seq![Instr::Call(0), Instr::LocalSet(l)] + attrs_code(attrs, l, entries)
                        + static_text_code(sto, l, entries);
                    assert(mid == old(out)@ + x);
                    assert(created =~= x);
                    assert(mid =~= old(out)@ + created);
                    assert(node_code(kind@, l, p, entries) == then(code(x), events_code(evs, l, p.methods, entries)));
                    lemma_emitted_seq(r, code(created), events_code(evs, l, p.methods, entries), old(out)@, mid, out@);
                }
                r
            },
            PlannedNodeKind::StaticText(t) => {
                assert(seq![t@][0] == t@);
                self.push_ptr_len(t.as_str(), out);
                out.push(Instr::Call(DOM_CREATE_TEXT_NODE_IMPORT_IDX));
                out.push(Instr::LocalSet(l));
                assert(out@ =~= old(out)@ + (ptr_len(entries, t@) + seq![Instr::Call(1), Instr::LocalSet(l)]));
                Ok(())
            },
            PlannedNodeKind::DynamicText(slot_plan) => {
                proof {
                    reveal_strlit("");
                    assert(""@ =~= Seq::<char>::empty());
                    assert(node_strings(kind@)[0] == Seq::<char>::empty());
                    let i = choose|i: int| 0 <= i < p.elements.len() && #[trigger] p.elements[i].kind == kind@;
                    assert(p.elements[i].kind == kind@);
                }
                let empty = self.entry("");
                out.push(Instr::I32Const(#[verifier::truncate] (empty.offset as i32)));
                out.push(Instr::I32Const(0));
                out.push(Instr::Call(DOM_CREATE_TEXT_NODE_IMPORT_IDX));
                out.push(Instr::LocalSet(l));
                let field = self.dynamic_slot_field_idx(slot_plan.state_slot);
                out.push(Instr::LocalGet(1));
                out.push(Instr::LocalGet(l));
                out.push(Instr::StructSet { struct_type_index: STATE_TYPE_IDX, field_index: field });
                assert(out@ =~= old(out)@ + node_code(kind@, l, p, entries)->Done_0);
                Ok(())
            },
        }
    }

    /// Appends the code that creates planned node `i` and appends it to its parent.
    fn emit_element(&self, i: usize, out: &mut Vec<Instr>) -> (r: Result<(), Halt>)
        requires
            self.wf(),
            self.limits(),
            i < self.plan_view().elements.len(),
            all_present(self.table().entries(), node_strings(self.plan_view().elements[i as int].kind)),
            all_present(self.table().entries(), index_strings(self.plan_view().methods.len())),
        ensures
            emitted_as(r, element_step(self.plan_view(), self.table().entries(), i as int), old(out)@, final(out)@),
    {
        let ghost p = self.plan_view();
        let ghost entries = self.table().entries();
        let elem = &self.plan.elements[i];
        assert(p.elements[i as int] == elem@);
        let l: u32 = 2 + i as u32;
        assert(l == local_of(i as int));
        let ghost node = node_code(elem@.kind, l, p, entries);
        let ghost app = append_code(p.elements, elem@.parent_id, l);
        let r = self.emit_node(&elem.kind, l, out);
        if r.is_err() {
            proof { lemma_emitted_stop(r, node, app, old(out)@, out@); }
            return r;
        }
        let ghost mid = out@;
        let parent_local: u32 = if elem.parent_id == 0 {
            0
        } else {
            match self.element_position(elem.parent_id) {
                Some(j) => 2 + j as u32,
                None => {
                    proof { lemma_emitted_seq(Err(Halt::Panic), node, app, old(out)@, mid, out@); }
                    return Err(Halt::Panic);
                },
            }
        };
        out.push(Instr::LocalGet(parent_local));
        out.push(Instr::LocalGet(l));
        out.push(Instr::Call(DOM_APPEND_CHILD_IMPORT_IDX));
        proof {
            let c = seq![Instr::LocalGet(parent_local), Instr::LocalGet(l), Instr::Call(4)];
            assert(app == code(c));
            assert(out@ =~= mid + c);
            lemma_emitted_seq(Ok(()), node, app, old(out)@, mid, out@);
        }
        Ok(())
    }
}


impl WasmGcCompiler {
    /// Appends the code that computes computed `i` into its field of the state in local `l`.
    fn emit_init_step(&self, i: usize, l: u32, ext: &NameMap, out: &mut Vec<Instr>) -> (r: Result<(), Halt>)
        requires
            self.wf(),
            self.limits(),
            i < self.plan_view().computeds.len(),
        ensures
            emitted_as(r, init_step(self.plan_view(), self.cx(ext@), l, i as int), old(out)@, final(out)@),
    {
        let ghost p = self.plan_view();
        let ghost cx = self.cx(ext@);
        let ghost e = expr_code(p.computeds[i as int].expr, cx);
        let ghost set = code(
            seq![
                Instr::StructSet {
                    struct_type_index: STATE_TYPE_IDX,
                    field_index: comp_field(p.signals.len() as int, i as int),
                },
            ],
        );
        out.push(Instr::LocalGet(l));
        let ghost mid = out@;
        assert(mid =~= old(out)@ + seq![Instr::LocalGet(l)]);
        assert(p.computeds[i as int].expr == self.plan.computeds@[i as int].expr@);
        let r = self.emit_expr(&self.plan.computeds[i].expr, ext, out);
        if r.is_err() {
            proof {
                lemma_emitted_stop(r, e, set, mid, out@);
                lemma_emitted_seq(r, code(seq![Instr::LocalGet(l)]), then(e, set), old(out)@, mid, out@);
            }
            return r;
        }
        let ghost mid2 = out@;
        let field = self.computed_field_idx(i);
        out.push(Instr::StructSet { struct_type_index: STATE_TYPE_IDX, field_index: field });
        proof {
            assert(out@ =~= mid2 + set->Done_0);
            lemma_emitted_seq(Ok(()), e, set, mid, mid2, out@);
            lemma_emitted_seq(Ok(()), code(seq![Instr::LocalGet(l)]), then(e, set), old(out)@, mid, out@);
        }
        Ok(())
    }

    /// Appends the allocation of the state (see `mount_prologue`).
    fn emit_mount_prologue(&self, out: &mut Vec<Instr>)
        ensures
            final(out)@ == old(out)@ + mount_prologue(self.plan_view()),
    {
        let ghost p = self.plan_view();
        out.push(Instr::I32Const(-1));
        let mut i: usize = 0;
        while i < self.plan.signals.len()
            invariant
                i <= self.plan.signals@.len(),
                p == self.plan_view(),
                out@ == old(out)@ + seq![Instr::I32Const(-1i32)] + Seq::new(i as nat, |j: int| const_init(p.signals[j].init_expr)),
            decreases self.plan.signals@.len() - i,
        {
            assert(p.signals[i as int].init_expr == self.plan.signals@[i as int].init_expr@);
            self.emit_const_i32_expr(&self.plan.signals[i].init_expr, out);
            assert(out@ =~= old(out)@ + seq![Instr::I32Const(-1i32)] + Seq::new(
                (i + 1) as nat,
                |j: int| const_init(p.signals[j].init_expr),
            ));
            i += 1;
        }
        let ghost s1 = out@;
        let mut c: usize = 0;
        while c < self.plan.computeds.len()
            invariant
                c <= self.plan.computeds@.len(),
                out@ == s1 + Seq::new(c as nat, |j: int| Instr::I32Const(0)),
            decreases self.plan.computeds@.len() - c,
        {
            out.push(Instr::I32Const(0));
            assert(out@ =~= s1 + Seq::new((c + 1) as nat, |j: int| Instr::I32Const(0)));
            c += 1;
        }
        let ghost s2 = out@;
        let mut d: usize = 0;
        while d < self.plan.dynamic_text_slots
            invariant
                d <= self.plan.dynamic_text_slots,
                out@ == s2 + Seq::new(d as nat, |j: int| Instr::RefNullExtern),
            decreases self.plan.dynamic_text_slots - d,
        {
            out.push(Instr::RefNullExtern);
            assert(out@ =~= s2 + Seq::new((d + 1) as nat, |j: int| Instr::RefNullExtern));
            d += 1;
        }
        out.push(Instr::StructNew(STATE_TYPE_IDX));
        out.push(Instr::LocalSet(1));
        out.push(Instr::LocalGet(1));
        out.push(Instr::GlobalSet(0));
        assert(out@ =~= old(out)@ + mount_prologue(p));
    }

    /// Appends the creation of all planned nodes (see `elements_code`).
    fn emit_elements(&self, out: &mut Vec<Instr>) -> (r: Result<(), Halt>)
        requires
            self.wf(),
            self.limits(),
            all_present(self.table().entries(), elements_strings(self.plan_view().elements)),
            all_present(self.table().entries(), index_strings(self.plan_view().methods.len())),
        ensures
            emitted_as(
                r,
                elements_code(self.plan_view(), self.table().entries(), self.plan_view().elements.len()),
                old(out)@,
                final(out)@,
            ),
    {
        let ghost p = self.plan_view();
        let ghost entries = self.table().entries();
        let ghost base = old(out)@;
        let ghost esteps = element_steps(p, entries);
        let mut k: usize = 0;
        assert(out@.subrange(base.len() as int, out@.len() as int) =~= Seq::<Instr>::empty());
        assert(out@.subrange(0, base.len() as int) =~= base);
        while k < self.plan.elements.len()
            invariant
                k <= self.plan.elements@.len(),
                self.wf(),
                self.limits(),
                p == self.plan_view(),
                entries == self.table().entries(),
                esteps == element_steps(p, entries),
                all_present(entries, elements_strings(p.elements)),
                all_present(entries, index_strings(p.methods.len())),
                base.len() <= out@.len(),
                out@.subrange(0, base.len() as int) == base,
                then_fold(esteps, k as nat) == code(out@.subrange(base.len() as int, out@.len() as int)),
            decreases self.plan.elements@.len() - k,
        {
            let ghost mid = out@;
            proof { lemma_node_present(entries, p.elements, k as int); }
            let r = self.emit_element(k, out);
            assert(esteps(k as int) == element_step(p, entries, k as int));
            if r.is_err() {
                proof { lemma_then_fold_stops(esteps, (k + 1) as nat, p.elements.len()); }
                return r;
            }
            proof {
                let cc = element_step(p, entries, k as int)->Done_0;
                lemma_then_fold_step(esteps, k as nat, mid.subrange(base.len() as int, mid.len() as int), cc);
                assert(out@.subrange(base.len() as int, out@.len() as int) =~= mid.subrange(base.len() as int, mid.len() as int) + cc);
                assert(out@.subrange(0, base.len() as int) =~= mid.subrange(0, base.len() as int));
            }
            k += 1;
        }
        assert(out@ =~= base + out@.subrange(base.len() as int, out@.len() as int));
        Ok(())
    }

    /// Appends the computation of all computeds from the state in local `l` (see `computeds_init`).
    fn emit_computeds_init(&self, l: u32, ext: &NameMap, out: &mut Vec<Instr>) -> (r: Result<(), Halt>)
        requires
            self.wf(),
            self.limits(),
        ensures
            emitted_as(
                r,
                computeds_init(self.plan_view(), self.cx(ext@), l, self.plan_view().computeds.len()),
                old(out)@,
                final(out)@,
            ),
    {
        let ghost p = self.plan_view();
        let ghost cx = self.cx(ext@);
        let ghost base = old(out)@;
        let ghost csteps = init_steps(p, cx, l);
        let mut m: usize = 0;
        assert(out@.subrange(base.len() as int, out@.len() as int) =~= Seq::<Instr>::empty());
        assert(out@.subrange(0, base.len() as int) =~= base);
        while m < self.plan.computeds.len()
            invariant
                m <= self.plan.computeds@.len(),
                self.wf(),
                self.limits(),
                p == self.plan_view(),
                cx == self.cx(ext@),
                csteps == init_steps(p, cx, l),
                base.len() <= out@.len(),
                out@.subrange(0, base.len() as int) == base,
                then_fold(csteps, m as nat) == code(out@.subrange(base.len() as int, out@.len() as int)),
            decreases self.plan.computeds@.len() - m,
        {
            let ghost mid = out@;
            let r = self.emit_init_step(m, l, ext, out);
            assert(csteps(m as int) == init_step(p, cx, l, m as int));
            if r.is_err() {
                proof { lemma_then_fold_stops(csteps, (m + 1) as nat, p.computeds.len()); }
                return r;
            }
            proof {
                let cc = init_step(p, cx, l, m as int)->Done_0;
                lemma_then_fold_step(csteps, m as nat, mid.subrange(base.len() as int, mid.len() as int), cc);
                assert(out@.subrange(base.len() as int, out@.len() as int) =~= mid.subrange(base.len() as int, mid.len() as int) + cc);
                assert(out@.subrange(0, base.len() as int) =~= mid.subrange(0, base.len() as int));
            }
            m += 1;
        }
        assert(out@ =~= base + out@.subrange(base.len() as int, out@.len() as int));
        Ok(())
    }

    /// Appends the body of `mount(root)` (see `mount_code`).
    fn emit_mount_function(
        &self,
        ext: &NameMap,
        num_imports: u32,
        method_start: u32,
        out: &mut Vec<Instr>,
    ) -> (r: Result<(), Halt>)
        requires
            self.wf(),
            self.limits(),
            all_present(self.table().entries(), elements_strings(self.plan_view().elements)),
            all_present(self.table().entries(), index_strings(self.plan_view().methods.len())),
            num_imports + 1 <= u32::MAX,
            method_start + self.plan_view().methods.len() <= u32::MAX,
        ensures
            emitted_as(
                r,
                mount_code(self.plan_view(), self.cx(ext@), num_imports as nat, method_start as nat),
                old(out)@,
                final(out)@,
            ),
    {
        let ghost p = self.plan_view();
        let ghost cx = self.cx(ext@);
        let ghost entries = self.table().entries();
        let ghost pro = code(mount_prologue(p));
        let ghost es = elements_code(p, entries, p.elements.len());
        let ghost cs = computeds_init(p, cx, 1, p.computeds.len());
        let ghost epi = code(mount_epilogue(p, num_imports as nat, method_start as nat));
        self.emit_mount_prologue(out);
        let ghost s1 = out@;
        let r = self.emit_elements(out);
        if r.is_err() {
            proof {
                lemma_emitted_stop(r, es, then(cs, epi), s1, out@);
                lemma_emitted_seq(r, pro, then(es, then(cs, epi)), old(out)@, s1, out@);
            }
            return r;
        }
        let ghost s2 = out@;
        let r = self.emit_computeds_init(1, ext, out);
        if r.is_err() {
            proof {
                lemma_emitted_stop(r, cs, epi, s2, out@);
                lemma_emitted_seq(r, es, then(cs, epi), s1, s2, out@);
                lemma_emitted_seq(r, pro, then(es, then(cs, epi)), old(out)@, s1, out@);
            }
            return r;
        }
        let ghost s3 = out@;
        if self.plan.dynamic_text_slots > 0 {
            out.push(Instr::Call(num_imports + 1));
        }
        out.push(Instr::LocalGet(1));
        out.push(Instr::I32Const(0));
        out.push(Instr::StructSet { struct_type_index: STATE_TYPE_IDX, field_index: DIRTY_MASK_FIELD_IDX });
        let on_mount = string_of("onMount");
        match self.method_position(&on_mount) {
            Some(pos) => {
                out.push(Instr::Call(method_start + pos as u32));
            },
            None => {},
        }
        out.push(Instr::End);
        proof {
            assert(out@ =~= s3 + epi->Done_0);
            lemma_emitted_seq(Ok(()), cs, epi, s2, s3, out@);
            lemma_emitted_seq(Ok(()), es, then(cs, epi), s1, s2, out@);
            lemma_emitted_seq(Ok(()), pro, then(es, then(cs, epi)), old(out)@, s1, out@);
        }
        Ok(())
    }
}


impl WasmGcCompiler {
    /// Appends the rendering of planned node `i`, if it is dynamic text (see `slot_render`).
    fn emit_slot_render(&self, i: usize, ext: &NameMap, out: &mut Vec<Instr>) -> (r: Result<(), Halt>)
        requires
            self.wf(),
            self.limits(),
            i < self.plan_view().elements.len(),
        ensures
            emitted_as(
                r,
                slot_render(self.plan_view().elements[i as int], self.plan_view(), self.cx(ext@)),
                old(out)@,
                final(out)@,
            ),
    {
        let ghost p = self.plan_view();
        let ghost cx = self.cx(ext@);
        let elem = &self.plan.elements[i];
        assert(p.elements[i as int] == elem@);
        match &elem.kind {
            PlannedNodeKind::DynamicText(slot_plan) => {
                out.push(Instr::LocalGet(0));
                out.push(Instr::StructGet { struct_type_index: STATE_TYPE_IDX, field_index: DIRTY_MASK_FIELD_IDX });
                if slot_plan.trigger_mask != 0 {
                    out.push(Instr::I32Const(#[verifier::truncate] (slot_plan.trigger_mask as i32)));
                    out.push(Instr::I32And);
                } else {
                    out.push(Instr::I32Const(-1));
                    out.push(Instr::I32Eq);
                }
                out.push(Instr::IfEmpty);
                let field = self.dynamic_slot_field_idx(slot_plan.state_slot);
                out.push(Instr::LocalGet(0));
                out.push(Instr::StructGet { struct_type_index: STATE_TYPE_IDX, field_index: field });
                let ghost head = code(
                    seq![
                        Instr::LocalGet(0),
                        Instr::StructGet { struct_type_index: STATE_TYPE_IDX, field_index: 0 },
                    ] + slot_guard(slot_plan.trigger_mask) + seq![
                        Instr::IfEmpty,
                        Instr::LocalGet(0),
                        Instr::StructGet { struct_type_index: STATE_TYPE_IDX, field_index: field },
                    ],
                );
                let ghost mid = out@;
                assert(mid =~= old(out)@ + head->Done_0);
                let ghost e = expr_code(slot_plan.expr@, cx);
                let ghost tail = code(seq![Instr::Call(6), Instr::End]);
                let r = self.emit_expr(&slot_plan.expr, ext, out);
                if r.is_err() {
                    proof {
                        lemma_emitted_stop(r, e, tail, mid, out@);
                        lemma_emitted_seq(r, head, then(e, tail), old(out)@, mid, out@);
                    }
                    return r;
                }
                let ghost mid2 = out@;
                out.push(Instr::Call(DOM_SET_TEXT_NUMBER_IMPORT_IDX));
                out.push(Instr::End);
                proof {
                    assert(out@ =~= mid2 + tail->Done_0);
                    lemma_emitted_seq(Ok(()), e, tail, mid, mid2, out@);
                    lemma_emitted_seq(Ok(()), head, then(e, tail), old(out)@, mid, out@);
                }
                Ok(())
            },
            _ => {
                assert(out@ =~= old(out)@ + Seq::<Instr>::empty());
                Ok(())
            },
        }
    }

    /// Appends the body of `render_dynamic_text()` (see `render_code`).
    fn emit_render_dynamic_text_function(&self, ext: &NameMap, out: &mut Vec<Instr>) -> (r: Result<(), Halt>)
        requires
            self.wf(),
            self.limits(),
        ensures
            emitted_as(r, render_code(self.plan_view(), self.cx(ext@)), old(out)@, final(out)@),
    {
        let ghost p = self.plan_view();
        let ghost cx = self.cx(ext@);
        out.push(Instr::GlobalGet(0));
        out.push(Instr::LocalSet(0));
        let ghost head = code(seq![Instr::GlobalGet(0), Instr::LocalSet(0)]);
        let ghost base = out@;
        assert(base =~= old(out)@ + head->Done_0);
        let ghost steps = render_steps(p, cx);
        let ghost tail = code(seq![Instr::End]);
        let mut k: usize = 0;
        assert(out@.subrange(base.len() as int, out@.len() as int) =~= Seq::<Instr>::empty());
        assert(out@.subrange(0, base.len() as int) =~= base);
        while k < self.plan.elements.len()
            invariant
                k <= self.plan.elements@.len(),
                self.wf(),
                self.limits(),
                p == self.plan_view(),
                cx == self.cx(ext@),
                steps == render_steps(p, cx),
                head == code(seq![Instr::GlobalGet(0), Instr::LocalSet(0)]),
                tail == code(seq![Instr::End]),
                base == old(out)@ + head->Done_0,
                base.len() <= out@.len(),
                out@.subrange(0, base.len() as int) == base,
                then_fold(steps, k as nat) == code(out@.subrange(base.len() as int, out@.len() as int)),
            decreases self.plan.elements@.len() - k,
        {
            let ghost mid = out@;
            let r = self.emit_slot_render(k, ext, out);
            assert(steps(k as int) == slot_render(p.elements[k as int], p, cx));
            if r.is_err() {
                proof {
                    lemma_then_fold_stops(steps, (k + 1) as nat, p.elements.len());
                    let all = slots_render(p, cx, p.elements.len());
                    assert(mid =~= base + mid.subrange(base.len() as int, mid.len() as int));
                    lemma_emitted_stop(r, all, tail, mid, out@);
                    lemma_then_stops(then(all, tail), code(Seq::empty()), mid.subrange(base.len() as int, mid.len() as int));
                    lemma_emitted_seq(r, code(mid.subrange(base.len() as int, mid.len() as int)), then(all, tail), base, mid, out@);
                    lemma_emitted_seq(r, head, then(all, tail), old(out)@, base, out@);
                }
                return r;
            }
            proof {
                let cc = slot_render(p.elements[k as int], p, cx)->Done_0;
                lemma_then_fold_step(steps, k as nat, mid.subrange(base.len() as int, mid.len() as int), cc);
                assert(out@.subrange(base.len() as int, out@.len() as int) =~= mid.subrange(base.len() as int, mid.len() as int) + cc);
                assert(out@.subrange(0, base.len() as int) =~= mid.subrange(0, base.len() as int));
            }
            k += 1;
        }
        let ghost sc = out@.subrange(base.len() as int, out@.len() as int);
        assert(out@ =~= base + sc);
        out.push(Instr::End);
        proof {
            assert(out@ =~= old(out)@ + (seq![Instr::GlobalGet(0), Instr::LocalSet(0)] + (sc + seq![Instr::End])));
        }
        Ok(())
    }
}


impl WasmGcCompiler {
    /// Whether some extern block declares a function `callee` with a return value.
    fn has_return_value(&self, callee: &String) -> (b: bool)
        ensures
            b == has_return(self.externs(), callee@),
    {
        let ghost bs = self.externs();
        let mut b: usize = 0;
        while b < self.extern_blocks.len()
            invariant
                b <= self.extern_blocks@.len(),
                bs == self.externs(),
                bs.len() == self.extern_blocks@.len(),
                forall|x: int, y: int|
                    0 <= x < b && 0 <= y < bs[x].functions.len() ==> !(#[trigger] bs[x].functions[y].name == callee@
                        && bs[x].functions[y].return_type is Some),
            decreases self.extern_blocks@.len() - b,
        {
            let block = &self.extern_blocks[b];
            assert(bs[b as int] == block@);
            let mut f: usize = 0;
            while f < block.functions.len()
                invariant
                    f <= block.functions@.len(),
                    bs == self.externs(),
                    b < bs.len(),
                    bs[b as int] == block@,
                    block@.functions.len() == block.functions@.len(),
                    forall|y: int| 0 <= y < f ==> !(#[trigger] bs[b as int].functions[y].name == callee@
                        && bs[b as int].functions[y].return_type is Some),
                decreases block.functions@.len() - f,
            {
                assert(bs[b as int].functions[f as int] == block.functions@[f as int]@);
                if block.functions[f].name == *callee && block.functions[f].return_type.is_some() {
                    assert(bs[b as int].functions[f as int].name == callee@);
                    assert(bs[b as int].functions[f as int].return_type is Some);
                    assert(has_return(bs, callee@));
                    return true;
                }
                f += 1;
            }
            b += 1;
        }
        false
    }

    /// Appends the marking of signal `id` in the dirty mask (see `mark_dirty`).
    fn emit_mark_dirty(&self, id: usize, out: &mut Vec<Instr>) -> (r: Result<(), Halt>)
        ensures
            emitted_as(r, mark_dirty(id), old(out)@, final(out)@),
    {
        if id >= 32 {
            return Err(Halt::Panic);
        }
        let bit: u32 = 1u32 << (id as u32);
        out.push(Instr::LocalGet(0));
        out.push(Instr::LocalGet(0));
        out.push(Instr::StructGet { struct_type_index: STATE_TYPE_IDX, field_index: DIRTY_MASK_FIELD_IDX });
        out.push(Instr::I32Const(#[verifier::truncate] (bit as i32)));
        out.push(Instr::I32Or);
        out.push(Instr::StructSet { struct_type_index: STATE_TYPE_IDX, field_index: DIRTY_MASK_FIELD_IDX });
        assert(out@ =~= old(out)@ + mark_dirty(id)->Done_0);
        Ok(())
    }

    /// Appends the code of a method statement (see `stmt_code`).
    fn emit_stmt(&self, stmt: &Stmt, ext: &NameMap, out: &mut Vec<Instr>) -> (r: Result<(), Halt>)
        requires
            self.wf(),
            self.limits(),
        ensures
            emitted_as(r, stmt_code(stmt@, self.cx(ext@), self.externs()), old(out)@, final(out)@),
    {
        let ghost cx = self.cx(ext@);
        let ghost p = self.plan_view();
        match stmt {
            Stmt::Assign { target, value, .. } => {
                match self.plan.signal_name_to_id.get(target) {
                    Some(sig_id) => {
                        proof { lemma_lookup_fits(p.signal_name_to_id, target@, 0); }
                        let field = self.signal_field_idx(sig_id);
                        let ghost head = code(seq![Instr::LocalGet(0)]);
                        let ghost e = expr_code(value@, cx);
                        let ghost set = code(seq![Instr::StructSet { struct_type_index: STATE_TYPE_IDX, field_index: field }]);
                        let ghost md = mark_dirty(sig_id);
                        out.push(Instr::LocalGet(0));
                        let ghost s1 = out@;
                        assert(s1 =~= old(out)@ + head->Done_0);
                        let r = self.emit_expr(value, ext, out);
                        if r.is_err() {
                            proof {
                                lemma_emitted_stop(r, e, then(set, md), s1, out@);
                                lemma_emitted_seq(r, head, then(e, then(set, md)), old(out)@, s1, out@);
                            }
                            return r;
                        }
                        let ghost s2 = out@;
                        out.push(Instr::StructSet { struct_type_index: STATE_TYPE_IDX, field_index: field });
                        let ghost s3 = out@;
                        assert(s3 =~= s2 + set->Done_0);
                        let r = self.emit_mark_dirty(sig_id, out);
                        proof {
                            lemma_emitted_seq(r, set, md, s2, s3, out@);
                            lemma_emitted_seq(r, e, then(set, md), s1, s2, out@);
                            lemma_emitted_seq(r, head, then(e, then(set, md)), old(out)@, s1, out@);
                        }
                        r
                    },
                    None => {
                        assert(out@ =~= old(out)@ + Seq::<Instr>::empty());
                        Ok(())
                    },
                }
            },
            Stmt::AssignOp { target, op, value, .. } => {
                match self.plan.signal_name_to_id.get(target) {
                    Some(sig_id) => {
                        proof { lemma_lookup_fits(p.signal_name_to_id, target@, 0); }
                        let field = self.signal_field_idx(sig_id);
                        let ghost head = code(
                            seq![
                                Instr::LocalGet(0),
                                Instr::LocalGet(0),
                                Instr::StructGet { struct_type_index: STATE_TYPE_IDX, field_index: field },
                            ],
                        );
                        let ghost e = expr_code(value@, cx);
                        let ghost set = code(
                            seq![
                                assign_op_instr(*op),
                                Instr::StructSet { struct_type_index: STATE_TYPE_IDX, field_index: field },
                            ],
                        );
                        let ghost md = mark_dirty(sig_id);
                        out.push(Instr::LocalGet(0));
                        out.push(Instr::LocalGet(0));
                        out.push(Instr::StructGet { struct_type_index: STATE_TYPE_IDX, field_index: field });
                        let ghost s1 = out@;
                        assert(s1 =~= old(out)@ + head->Done_0);
                        let r = self.emit_expr(value, ext, out);
                        if r.is_err() {
                            proof {
                                lemma_emitted_stop(r, e, then(set, md), s1, out@);
                                lemma_emitted_seq(r, head, then(e, then(set, md)), old(out)@, s1, out@);
                            }
                            return r;
                        }
                        let ghost s2 = out@;
                        let instr = match op {
                            AssignOperator::AddEq => Instr::I32Add,
                            AssignOperator::SubEq => Instr::I32Sub,
                            AssignOperator::MulEq => Instr::I32Mul,
                            AssignOperator::DivEq => Instr::I32DivS,
                        };
                        out.push(instr);
                        out.push(Instr::StructSet { struct_type_index: STATE_TYPE_IDX, field_index: field });
                        let ghost s3 = out@;
                        assert(s3 =~= s2 + set->Done_0);
                        let r = self.emit_mark_dirty(sig_id, out);
                        proof {
                            lemma_emitted_seq(r, set, md, s2, s3, out@);
                            lemma_emitted_seq(r, e, then(set, md), s1, s2, out@);
                            lemma_emitted_seq(r, head, then(e, then(set, md)), old(out)@, s1, out@);
                        }
                        r
                    },
                    None => {
                        assert(out@ =~= old(out)@ + Seq::<Instr>::empty());
                        Ok(())
                    },
                }
            },
            Stmt::Expr(e) => {
                let ghost ec = expr_code(e@, cx);
                let r = self.emit_expr(e, ext, out);
                let ghost dropc: Seq<Instr> = if e@ is Call && has_return(self.externs(), e@->Call_callee) {
                    seq![Instr::Drop]
                } else {
                    Seq::empty()
                };
                if r.is_err() {
                    proof { lemma_emitted_stop(r, ec, code(dropc), old(out)@, out@); }
                    return r;
                }
                let ghost s1 = out@;
                if let Expr::Call { callee, .. } = e {
                    if self.has_return_value(callee) {
                        out.push(Instr::Drop);
                    }
                }
                proof {
                    assert(out@ =~= s1 + dropc);
                    lemma_emitted_seq(Ok(()), ec, code(dropc), old(out)@, s1, out@);
                }
                Ok(())
            },
            _ => {
                assert(out@ =~= old(out)@ + Seq::<Instr>::empty());
                Ok(())
            },
        }
    }

    /// Appends the code of the statements of a body (see `stmts_code`).
    fn emit_stmts(&self, body: &Vec<Stmt>, ext: &NameMap, out: &mut Vec<Instr>) -> (r: Result<(), Halt>)
        requires
            self.wf(),
            self.limits(),
        ensures
            emitted_as(
                r,
                stmts_code(stmts_view(body@), self.cx(ext@), self.externs(), body@.len()),
                old(out)@,
                final(out)@,
            ),
    {
        let ghost cx = self.cx(ext@);
        let ghost bv = stmts_view(body@);
        let ghost base = old(out)@;
        let ghost steps = stmt_steps(bv, cx, self.externs());
        let mut k: usize = 0;
        assert(out@.subrange(base.len() as int, out@.len() as int) =~= Seq::<Instr>::empty());
        assert(out@.subrange(0, base.len() as int) =~= base);
        while k < body.len()
            invariant
                k <= body@.len(),
                self.wf(),
                self.limits(),
                cx == self.cx(ext@),
                bv == stmts_view(body@),
                steps == stmt_steps(bv, cx, self.externs()),
                base.len() <= out@.len(),
                out@.subrange(0, base.len() as int) == base,
                then_fold(steps, k as nat) == code(out@.subrange(base.len() as int, out@.len() as int)),
            decreases body@.len() - k,
        {
            let ghost mid = out@;
            let r = self.emit_stmt(&body[k], ext, out);
            assert(steps(k as int) == stmt_code(body@[k as int]@, cx, self.externs()));
            if r.is_err() {
                proof { lemma_then_fold_stops(steps, (k + 1) as nat, bv.len()); }
                return r;
            }
            proof {
                let cc = stmt_code(body@[k as int]@, cx, self.externs())->Done_0;
                lemma_then_fold_step(steps, k as nat, mid.subrange(base.len() as int, mid.len() as int), cc);
                assert(out@.subrange(base.len() as int, out@.len() as int) =~= mid.subrange(base.len() as int, mid.len() as int) + cc);
                assert(out@.subrange(0, base.len() as int) =~= mid.subrange(0, base.len() as int));
            }
            k += 1;
        }
        assert(out@ =~= base + out@.subrange(base.len() as int, out@.len() as int));
        Ok(())
    }

    /// Appends the recomputation of computed `i` (see `recompute`).
    fn emit_recompute(&self, i: usize, ext: &NameMap, out: &mut Vec<Instr>) -> (r: Result<(), Halt>)
        requires
            self.wf(),
            self.limits(),
            i < self.plan_view().computeds.len(),
        ensures
            emitted_as(r, recompute(self.plan_view(), self.cx(ext@), i as int), old(out)@, final(out)@),
    {
        let ghost p = self.plan_view();
        let ghost cx = self.cx(ext@);
        let comp = &self.plan.computeds[i];
        assert(p.computeds[i as int] == comp@);
        if comp.mask == 0 {
            assert(out@ =~= old(out)@ + Seq::<Instr>::empty());
            return Ok(());
        }
        let field = self.computed_field_idx(i);
        out.push(Instr::LocalGet(0));
        out.push(Instr::StructGet { struct_type_index: STATE_TYPE_IDX, field_index: DIRTY_MASK_FIELD_IDX });
        out.push(Instr::I32Const(#[verifier::truncate] (comp.mask as i32)));
        out.push(Instr::I32And);
        out.push(Instr::IfEmpty);
        out.push(Instr::LocalGet(0));
        let ghost head = code(
            seq![
                Instr::LocalGet(0),
                Instr::StructGet { struct_type_index: STATE_TYPE_IDX, field_index: 0 },
                Instr::I32Const(comp.mask as i32),
                Instr::I32And,
                Instr::IfEmpty,
                Instr::LocalGet(0),
            ],
        );
        let ghost s1 = out@;
        assert(s1 =~= old(out)@ + head->Done_0);
        let ghost e = expr_code(comp.expr@, cx);
        let ghost tail = code(
            seq![Instr::StructSet { struct_type_index: STATE_TYPE_IDX, field_index: field }, Instr::End],
        );
        let r = self.emit_expr(&comp.expr, ext, out);
        if r.is_err() {
            proof {
                lemma_emitted_stop(r, e, tail, s1, out@);
                lemma_emitted_seq(r, head, then(e, tail), old(out)@, s1, out@);
            }
            return r;
        }
        let ghost s2 = out@;
        out.push(Instr::StructSet { struct_type_index: STATE_TYPE_IDX, field_index: field });
        out.push(Instr::End);
        proof {
            assert(out@ =~= s2 + tail->Done_0);
            lemma_emitted_seq(Ok(()), e, tail, s1, s2, out@);
            lemma_emitted_seq(Ok(()), head, then(e, tail), old(out)@, s1, out@);
        }
        Ok(())
    }

    /// Appends the recomputation of every computed (see `recomputes`).
    fn emit_recomputes(&self, ext: &NameMap, out: &mut Vec<Instr>) -> (r: Result<(), Halt>)
        requires
            self.wf(),
            self.limits(),
        ensures
            emitted_as(
                r,
                recomputes(self.plan_view(), self.cx(ext@), self.plan_view().computeds.len()),
                old(out)@,
                final(out)@,
            ),
    {
        let ghost p = self.plan_view();
        let ghost cx = self.cx(ext@);
        let ghost base = old(out)@;
        let ghost steps = recompute_steps(p, cx);
        let mut k: usize = 0;
        assert(out@.subrange(base.len() as int, out@.len() as int) =~= Seq::<Instr>::empty());
        assert(out@.subrange(0, base.len() as int) =~= base);
        while k < self.plan.computeds.len()
            invariant
                k <= self.plan.computeds@.len(),
                self.wf(),
                self.limits(),
                p == self.plan_view(),
                cx == self.cx(ext@),
                steps == recompute_steps(p, cx),
                base.len() <= out@.len(),
                out@.subrange(0, base.len() as int) == base,
                then_fold(steps, k as nat) == code(out@.subrange(base.len() as int, out@.len() as int)),
            decreases self.plan.computeds@.len() - k,
        {
            let ghost mid = out@;
            let r = self.emit_recompute(k, ext, out);
            assert(steps(k as int) == recompute(p, cx, k as int));
            if r.is_err() {
                proof { lemma_then_fold_stops(steps, (k + 1) as nat, p.computeds.len()); }
                return r;
            }
            proof {
                let cc = recompute(p, cx, k as int)->Done_0;
                lemma_then_fold_step(steps, k as nat, mid.subrange(base.len() as int, mid.len() as int), cc);
                assert(out@.subrange(base.len() as int, out@.len() as int) =~= mid.subrange(base.len() as int, mid.len() as int) + cc);
                assert(out@.subrange(0, base.len() as int) =~= mid.subrange(0, base.len() as int));
            }
            k += 1;
        }
        assert(out@ =~= base + out@.subrange(base.len() as int, out@.len() as int));
        Ok(())
    }

    /// Appends the body of a method (see `method_code`).
    fn emit_method_function(&self, method: &FnDecl, ext: &NameMap, num_imports: u32, out: &mut Vec<Instr>) -> (r: Result<(), Halt>)
        requires
            self.wf(),
            self.limits(),
            num_imports + 1 <= u32::MAX,
        ensures
            emitted_as(
                r,
                method_code(self.plan_view(), method@, self.cx(ext@), self.externs(), num_imports as nat),
                old(out)@,
                final(out)@,
            ),
    {
        let ghost p = self.plan_view();
        let ghost cx = self.cx(ext@);
        let ghost head = code(seq![Instr::GlobalGet(0), Instr::LocalSet(0)]);
        let ghost sts = stmts_code(method@.body, cx, self.externs(), method@.body.len());
        let ghost rcs = recomputes(p, cx, p.computeds.len());
        let ghost epi = code(method_epilogue(p, num_imports as nat));
        out.push(Instr::GlobalGet(0));
        out.push(Instr::LocalSet(0));
        let ghost s1 = out@;
        assert(s1 =~= old(out)@ + head->Done_0);
        assert(method@.body.len() == method.body@.len());
        let r = self.emit_stmts(&method.body, ext, out);
        if r.is_err() {
            proof {
                lemma_emitted_stop(r, sts, then(rcs, epi), s1, out@);
                lemma_emitted_seq(r, head, then(sts, then(rcs, epi)), old(out)@, s1, out@);
            }
            return r;
        }
        let ghost s2 = out@;
        let r = self.emit_recomputes(ext, out);
        if r.is_err() {
            proof {
                lemma_emitted_stop(r, rcs, epi, s2, out@);
                lemma_emitted_seq(r, sts, then(rcs, epi), s1, s2, out@);
                lemma_emitted_seq(r, head, then(sts, then(rcs, epi)), old(out)@, s1, out@);
            }
            return r;
        }
        let ghost s3 = out@;
        if self.plan.dynamic_text_slots > 0 {
            out.push(Instr::LocalGet(0));
            out.push(Instr::StructGet { struct_type_index: STATE_TYPE_IDX, field_index: DIRTY_MASK_FIELD_IDX });
            out.push(Instr::IfEmpty);
            out.push(Instr::Call(num_imports + 1));
            out.push(Instr::End);
        }
        out.push(Instr::LocalGet(0));
        out.push(Instr::I32Const(0));
        out.push(Instr::StructSet { struct_type_index: STATE_TYPE_IDX, field_index: DIRTY_MASK_FIELD_IDX });
        out.push(Instr::End);
        proof {
            assert(out@ =~= s3 + epi->Done_0);
            lemma_emitted_seq(Ok(()), rcs, epi, s2, s3, out@);
            lemma_emitted_seq(Ok(()), sts, then(rcs, epi), s1, s2, out@);
            lemma_emitted_seq(Ok(()), head, then(sts, then(rcs, epi)), old(out)@, s1, out@);
        }
        Ok(())
    }

    /// The body of the getter of a state field (see `getter_code`).
    fn emit_getter_function(&self, field_idx: u32) -> (v: Vec<Instr>)
        ensures
            v@ == getter_code(field_idx),
    {
        let mut v: Vec<Instr> = Vec::new();
        v.push(Instr::GlobalGet(0));
        v.push(Instr::StructGet { struct_type_index: STATE_TYPE_IDX, field_index: field_idx });
        v.push(Instr::End);
        assert(v@ =~= getter_code(field_idx));
        v
    }
}


/// No value types.
fn tys0() -> (v: Vec<ValTy>)
    ensures
        v@ == Seq::<ValTy>::empty(),
{
    let v: Vec<ValTy> = Vec::new();
    assert(v@ =~= Seq::<ValTy>::empty());
    v
}

/// One value type.
fn tys1(a: ValTy) -> (v: Vec<ValTy>)
    ensures
        v@ == seq![a],
{
    let mut v = tys0();
    v.push(a);
    assert(v@ =~= seq![a]);
    v
}

/// Two value types.
fn tys2(a: ValTy, b: ValTy) -> (v: Vec<ValTy>)
    ensures
        v@ == seq![a, b],
{
    let mut v = tys1(a);
    v.push(b);
    assert(v@ =~= seq![a, b]);
    v
}

/// Three value types.
fn tys3(a: ValTy, b: ValTy, c: ValTy) -> (v: Vec<ValTy>)
    ensures
        v@ == seq![a, b, c],
{
    let mut v = tys2(a, b);
    v.push(c);
    assert(v@ =~= seq![a, b, c]);
    v
}

/// Four value types.
fn tys4(a: ValTy, b: ValTy, c: ValTy, d: ValTy) -> (v: Vec<ValTy>)
    ensures
        v@ == seq![a, b, c, d],
{
    let mut v = tys3(a, b, c);
    v.push(d);
    assert(v@ =~= seq![a, b, c, d]);
    v
}

/// Five value types.
fn tys5(a: ValTy, b: ValTy, c: ValTy, d: ValTy, e: ValTy) -> (v: Vec<ValTy>)
    ensures
        v@ == seq![a, b, c, d, e],
{
    let mut v = tys4(a, b, c, d);
    v.push(e);
    assert(v@ =~= seq![a, b, c, d, e]);
    v
}

impl WasmGcCompiler {
    /// A compiler of `plan` whose module imports the functions of `extern_blocks`.
    pub fn new(plan: ComponentPlan, extern_blocks: Vec<ExternBlock>) -> (c: Self)
        ensures
            c.wf(),
            c.plan_view() == plan@,
            c.externs() == blocks_view(extern_blocks@),
            table_model(c.table()) == (TableModel { entries: Seq::empty(), bytes: Seq::empty(), next: DATA_START as nat }),
    {
        WasmGcCompiler { plan, extern_blocks, string_table: StringTable::new() }
    }

    /// Interns every string of the module, in order (see `collected_strings`);
    /// stops when an offset would pass `u32`.
    fn intern_collected(&mut self) -> (r: Result<(), Halt>)
        requires
            old(self).wf(),
        ensures
            final(self).wf(),
            final(self).plan_view() == old(self).plan_view(),
            final(self).externs() == old(self).externs(),
            r is Ok <==> intern_fits(table_model(old(self).table()), collected_strings(old(self).plan_view())),
            r is Ok ==> table_model(final(self).table()) == intern_all(
                table_model(old(self).table()),
                collected_strings(old(self).plan_view()),
            ),
            r matches Err(h) ==> h is Panic,
    {
        let strs = collect_strings(&self.plan);
        let ghost all = texts_view(strs@);
        let ghost m0 = table_model(self.string_table);
        let mut k: usize = 0;
        assert(all.subrange(0, 0) =~= Seq::<Seq<char>>::empty());
        while k < strs.len()
            invariant
                k <= strs@.len(),
                all == texts_view(strs@),
                all == collected_strings(self.plan_view()),
                self.wf(),
                self.plan_view() == old(self).plan_view(),
                self.externs() == old(self).externs(),
                m0 == table_model(old(self).table()),
                intern_fits(m0, all.subrange(0, k as int)),
                table_model(self.string_table) == intern_all(m0, all.subrange(0, k as int)),
            decreases strs@.len() - k,
        {
            let s = strs[k].as_str();
            let ghost sub = all.subrange(0, k + 1);
            assert(sub.drop_last() =~= all.subrange(0, k as int));
            assert(sub.last() == s@);
            let present = self.string_table.get(s).is_some();
            if !present {
                let room: u32 = u32::MAX - self.string_table.next_free();
                let n = s.as_bytes().len();
                assert(n == utf8(s@).len());
                if n > room as usize {
                    proof { lemma_fits_prefix(m0, all, k as int + 1); }
                    return Err(Halt::Panic);
                }
            }
            self.string_table.insert(s);
            proof {
                assert(table_model(self.string_table) =~~= intern(intern_all(m0, all.subrange(0, k as int)), s@));
            }
            k += 1;
        }
        assert(all.subrange(0, k as int) =~= all);
        Ok(())
    }
}

/// Interning fits for every prefix of what fits.
proof fn lemma_fits_prefix(m: TableModel, strs: Seq<Seq<char>>, k: int)
    requires
        0 <= k <= strs.len(),
        !intern_fits(m, strs.subrange(0, k)),
    ensures
        !intern_fits(m, strs),
    decreases strs.len() - k,
{
    if k < strs.len() {
        let sub = strs.subrange(0, k + 1);
        assert(sub.drop_last() =~= strs.subrange(0, k));
        lemma_fits_prefix(m, strs, k + 1);
    } else {
        assert(strs.subrange(0, k) =~= strs);
    }
}


/// Adds an import to a section that fits so far, as long as the section
/// with it still fits; otherwise the section is left as it is and `ok` is
/// cleared. `model` is what the section is meant to hold before the import.
fn add_import(
    imports: &mut ImportSection,
    ok: &mut bool,
    acc: &mut u64,
    module: &str,
    name: &str,
    type_index: u32,
    Ghost(model): Ghost<Seq<(Seq<char>, Seq<char>, u32)>>,
)
    requires
        model.len() < u32::MAX,
        *old(ok) ==> import_entries(*old(imports)) == model && *old(acc) == total(model, import_cost())
            && *old(acc) <= SECTION_LIMIT,
        !*old(ok) ==> total(model, import_cost()) > SECTION_LIMIT,
    ensures
        ({
            let m = model.push((module@, name@, type_index));
            &&& *final(ok) ==> import_entries(*final(imports)) == m && *final(acc) == total(m, import_cost())
                && *final(acc) <= SECTION_LIMIT
            &&& !*final(ok) ==> total(m, import_cost()) > SECTION_LIMIT
        }),
{
    proof {
        lemma_total_push(model, (module@, name@, type_index), import_cost());
    }
    if *ok {
        let ml = module.as_bytes().len();
        let nl = name.as_bytes().len();
        assert(ml == utf8(module@).len());
        assert(nl == utf8(name@).len());
        if ml as u64 > SECTION_LIMIT || nl as u64 > SECTION_LIMIT || 16 + ml as u64 + nl as u64 > SECTION_LIMIT - *acc {
            *ok = false;
        } else {
            import_section_function(imports, module, name, type_index);
            *acc = *acc + 16 + ml as u64 + nl as u64;
        }
    }
}

/// Adds an export to a section that fits so far, as long as the section
/// with it still fits; otherwise the section is left as it is and `ok` is
/// cleared. `model` is what the section is meant to hold before the export.
fn add_export(
    ex: &mut ExportSection,
    ok: &mut bool,
    acc: &mut u64,
    name: &str,
    kind: ExportTarget,
    index: u32,
    Ghost(model): Ghost<Seq<(Seq<char>, ExportTarget, u32)>>,
)
    requires
        model.len() < u32::MAX,
        *old(ok) ==> export_entries(*old(ex)) == model && *old(acc) == total(model, export_cost())
            && *old(acc) <= SECTION_LIMIT,
        !*old(ok) ==> total(model, export_cost()) > SECTION_LIMIT,
    ensures
        ({
            let m = model.push((name@, kind, index));
            &&& *final(ok) ==> export_entries(*final(ex)) == m && *final(acc) == total(m, export_cost())
                && *final(acc) <= SECTION_LIMIT
            &&& !*final(ok) ==> total(m, export_cost()) > SECTION_LIMIT
        }),
{
    proof {
        lemma_total_push(model, (name@, kind, index), export_cost());
    }
    if *ok {
        let nl = name.as_bytes().len();
        assert(nl == utf8(name@).len());
        if nl as u64 > SECTION_LIMIT || 16 + nl as u64 > SECTION_LIMIT - *acc {
            *ok = false;
        } else {
            export_section_add(ex, name, kind, index);
            *acc = *acc + 16 + nl as u64;
        }
    }
}

/// Adds a function body to a section that fits so far, as long as the
/// section with it still fits; otherwise the section is left as it is and
/// `ok` is cleared. `model` is what the section is meant to hold before it.
fn add_code(
    codes: &mut CodeSection,
    ok: &mut bool,
    acc: &mut u64,
    locals: &Vec<(u32, ValTy)>,
    body: &Vec<Instr>,
    Ghost(model): Ghost<Seq<(Seq<(u32, ValTy)>, Seq<Instr>)>>,
)
    requires
        model.len() < u32::MAX,
        *old(ok) ==> code_entries(*old(codes)) == model && *old(acc) == total(model, code_cost())
            && *old(acc) <= SECTION_LIMIT,
        !*old(ok) ==> total(model, code_cost()) > SECTION_LIMIT,
    ensures
        ({
            let m = model.push((locals@, body@));
            &&& *final(ok) ==> code_entries(*final(codes)) == m && *final(acc) == total(m, code_cost())
                && *final(acc) <= SECTION_LIMIT
            &&& !*final(ok) ==> total(m, code_cost()) > SECTION_LIMIT
        }),
{
    proof {
        lemma_total_push(model, (locals@, body@), code_cost());
    }
    if *ok {
        let nl = locals.len();
        let nb = body.len();
        if nl as u64 > SECTION_LIMIT || nb as u64 > SECTION_LIMIT || 16 + 16 * (nl as u64) + 16 * (nb as u64) > SECTION_LIMIT - *acc {
            *ok = false;
        } else {
            let f = encode_function(locals, body);
            code_section_add(codes, &f);
            *acc = *acc + 16 + 16 * (nl as u64) + 16 * (nb as u64);
        }
    }
}

/// Adds a function type of at most five parameters and one result, and
/// gives what it adds to the size bound of the section.
fn add_func_type(types: &mut TypeSection, params: Vec<ValTy>, results: Vec<ValTy>) -> (c: u64)
    requires
        type_entries(*old(types)).len() < 12,
        params@.len() <= 5,
        results@.len() <= 1,
    ensures
        type_entries(*final(types)) == type_entries(*old(types)).push(TypeEntry::Func(params@, results@)),
        total(type_entries(*final(types)), type_cost()) == total(type_entries(*old(types)), type_cost()) + c,
        c == 16 + 8 * (params@.len() + results@.len()),
        c <= 64,
{
    type_section_function(types, &params, &results);
    proof {
        lemma_total_push(type_entries(*old(types)), TypeEntry::Func(params@, results@), type_cost());
    }
    16 + 8 * (params.len() as u64 + results.len() as u64)
}

impl WasmGcCompiler {
    /// The import section (the DOM imports, then each foreign function), or
    /// `None` when it does not fit (see `section_fits`); the import index of
    /// each foreign function, and the number of imports.
    fn emit_imports(&self) -> (r: (Option<ImportSection>, NameMap, u32))
        requires
            self.limits(),
        ensures
            r.0 is Some <==> section_fits(SectionV::Imports(dom_imports() + imports_of(extern_fns(self.externs())))),
            r.0 matches Some(s) ==> import_entries(s) == dom_imports() + imports_of(extern_fns(self.externs())),
            r.1@ == indices_of(extern_fns(self.externs())),
            r.2 == 7 + extern_fns(self.externs()).len(),
    {
        let ghost bs = self.externs();
        let mut imports = import_section_new();
        let mut ok = true;
        let mut acc: u64 = 0;
        let ghost mut model: Seq<(Seq<char>, Seq<char>, u32)> = Seq::empty();
        add_import(&mut imports, &mut ok, &mut acc, "dom", "createElement", 0, Ghost(model));
        proof { model = model.push(("dom"@, "createElement"@, 0u32)); }
        add_import(&mut imports, &mut ok, &mut acc, "dom", "createTextNode", 0, Ghost(model));
        proof { model = model.push(("dom"@, "createTextNode"@, 0u32)); }
        add_import(&mut imports, &mut ok, &mut acc, "dom", "setTextContent", 1, Ghost(model));
        proof { model = model.push(("dom"@, "setTextContent"@, 1u32)); }
        add_import(&mut imports, &mut ok, &mut acc, "dom", "setAttribute", 2, Ghost(model));
        proof { model = model.push(("dom"@, "setAttribute"@, 2u32)); }
        add_import(&mut imports, &mut ok, &mut acc, "dom", "appendChild", 3, Ghost(model));
        proof { model = model.push(("dom"@, "appendChild"@, 3u32)); }
        add_import(&mut imports, &mut ok, &mut acc, "dom", "addEventListener", 4, Ghost(model));
        proof { model = model.push(("dom"@, "addEventListener"@, 4u32)); }
        add_import(&mut imports, &mut ok, &mut acc, "dom", "setTextNumber", 5, Ghost(model));
        proof { model = model.push(("dom"@, "setTextNumber"@, 5u32)); }
        assert(model =~= dom_imports());
        let mut ext = NameMap::new();
        let mut num_imports: u32 = 7;
        let mut b: usize = 0;
        assert(bs.subrange(0, 0) =~= Seq::<ExternBlockV>::empty());
        assert(imports_of(extern_fns(bs.subrange(0, 0))) =~= Seq::<(Seq<char>, Seq<char>, u32)>::empty());
        assert(indices_of(extern_fns(bs.subrange(0, 0))) =~= Seq::<(Seq<char>, usize)>::empty());
        assert(model =~= dom_imports() + imports_of(extern_fns(bs.subrange(0, 0))));
        while b < self.extern_blocks.len()
            invariant
                b <= self.extern_blocks@.len(),
                self.limits(),
                bs == self.externs(),
                bs.len() == self.extern_blocks@.len(),
                model == dom_imports() + imports_of(extern_fns(bs.subrange(0, b as int))),
                ok ==> import_entries(imports) == model && acc == total(model, import_cost()) && acc <= SECTION_LIMIT,
                !ok ==> total(model, import_cost()) > SECTION_LIMIT,
                ext@ == indices_of(extern_fns(bs.subrange(0, b as int))),
                num_imports == 7 + extern_fns(bs.subrange(0, b as int)).len(),
                extern_fns(bs.subrange(0, b as int)).len() <= extern_fns(bs).len(),
            decreases self.extern_blocks@.len() - b,
        {
            let block = &self.extern_blocks[b];
            assert(bs[b as int] == block@);
            let ghost prev = extern_fns(bs.subrange(0, b as int));
            let ghost cur = |n: int| prev + Seq::new(n as nat, |i: int| (block@.abi, block@.functions[i]));
            proof {
                let sub = bs.subrange(0, b + 1);
                assert(sub.drop_last() =~= bs.subrange(0, b as int));
                assert(sub.last() == block@);
                assert(extern_fns(sub) == prev + Seq::new(block@.functions.len(), |i: int| (block@.abi, block@.functions[i])));
                lemma_extern_fns_prefix(bs, b as int + 1);
                assert(cur(0) =~= prev);
            }
            let mut f: usize = 0;
            while f < block.functions.len()
                invariant
                    f <= block.functions@.len(),
                    block@.functions.len() == block.functions@.len(),
                    block@.abi == block.abi@,
                    forall|i: int| 0 <= i < block.functions@.len() ==> #[trigger] block@.functions[i] == block.functions@[i]@,
                    prev.len() + block@.functions.len() <= extern_fns(bs).len(),
                    self.limits(),
                    bs == self.externs(),
                    model == dom_imports() + imports_of(cur(f as int)),
                    ok ==> import_entries(imports) == model && acc == total(model, import_cost()) && acc <= SECTION_LIMIT,
                    !ok ==> total(model, import_cost()) > SECTION_LIMIT,
                    ext@ == indices_of(cur(f as int)),
                    num_imports == 7 + cur(f as int).len(),
                    cur == (|n: int| prev + Seq::new(n as nat, |i: int| (block@.abi, block@.functions[i]))),
                decreases block.functions@.len() - f,
            {
                let func = &block.functions[f];
                let type_idx: u32 = if func.params.len() == 2 && func.return_type.is_some() {
                    10
                } else if func.params.len() == 2 {
                    9
                } else if func.params.len() == 1 && func.return_type.is_none() {
                    11
                } else if func.return_type.is_some() {
                    8
                } else {
                    7
                };
                assert(type_idx == extern_type(func@));
                add_import(&mut imports, &mut ok, &mut acc, block.abi.as_str(), func.name.as_str(), type_idx, Ghost(model));
                ext.insert(func.name.clone(), num_imports as usize);
                proof {
                    assert(cur(f as int + 1) =~= cur(f as int).push((block@.abi, block@.functions[f as int])));
                    assert(imports_of(cur(f as int + 1)) =~= imports_of(cur(f as int)).push((block.abi@, func.name@, type_idx)));
                    model = model.push((block.abi@, func.name@, type_idx));
                    assert(model =~= dom_imports() + imports_of(cur(f as int + 1)));
                    assert(indices_of(cur(f as int + 1)) =~= indices_of(cur(f as int)).push((func.name@, num_imports as usize)));
                }
                num_imports = num_imports + 1;
                f += 1;
            }
            proof {
                assert(cur(f as int) =~= extern_fns(bs.subrange(0, b + 1)));
            }
            b += 1;
        }
        assert(bs.subrange(0, b as int) =~= bs);
        if ok {
            (Some(imports), ext, num_imports)
        } else {
            (None, ext, num_imports)
        }
    }

    /// The type section: the twelve function types, then the state struct;
    /// `None` when it does not fit (see `section_fits`).
    fn emit_types(&self) -> (r: Option<TypeSection>)
        requires
            self.limits(),
        ensures
            r is Some <==> section_fits(SectionV::Types(base_types().push(TypeEntry::Struct(state_fields(self.plan_view()))))),
            r matches Some(s) ==> type_entries(s) == base_types().push(TypeEntry::Struct(state_fields(self.plan_view()))),
    {
        let i = ValTy::I32;
        let x = ValTy::ExternRef;
        let mut types = type_section_new();
        let mut acc: u64 = 0;
        acc = acc + add_func_type(&mut types, tys2(i, i), tys1(x));
        acc = acc + add_func_type(&mut types, tys3(x, i, i), tys0());
        acc = acc + add_func_type(&mut types, tys5(x, i, i, i, i), tys0());
        acc = acc + add_func_type(&mut types, tys2(x, x), tys0());
        acc = acc + add_func_type(&mut types, tys4(x, i, i, i), tys0());
        acc = acc + add_func_type(&mut types, tys2(x, i), tys0());
        acc = acc + add_func_type(&mut types, tys1(x), tys0());
        acc = acc + add_func_type(&mut types, tys0(), tys0());
        acc = acc + add_func_type(&mut types, tys0(), tys1(i));
        acc = acc + add_func_type(&mut types, tys2(i, i), tys0());
        acc = acc + add_func_type(&mut types, tys2(i, i), tys1(i));
        acc = acc + add_func_type(&mut types, tys1(i), tys0());
        assert(type_entries(types) =~= base_types());
        let total = self.total_struct_fields();
        let cost: u64 = 16 + 8 * (total as u64);
        let ghost full = base_types().push(TypeEntry::Struct(state_fields(self.plan_view())));
        proof {
            lemma_total_push(base_types(), TypeEntry::Struct(state_fields(self.plan_view())), type_cost());
        }
        if cost > SECTION_LIMIT - acc {
            return None;
        }
        let num_i32 = 1 + self.plan.signals.len() + self.plan.computeds.len();
        let mut fields: Vec<ValTy> = Vec::new();
        let mut k: usize = 0;
        while k < total
            invariant
                k <= total,
                fields@ == Seq::new(k as nat, |j: int| if j < num_i32 { ValTy::I32 } else { ValTy::ExternRef }),
            decreases total - k,
        {
            fields.push(if k < num_i32 { ValTy::I32 } else { ValTy::ExternRef });
            assert(fields@ =~= Seq::new((k + 1) as nat, |j: int| if j < num_i32 { ValTy::I32 } else { ValTy::ExternRef }));
            k += 1;
        }
        assert(fields@ =~= state_fields(self.plan_view()));
        type_section_struct(&mut types, &fields);
        Some(types)
    }

    /// The function section: mount, render, the methods, then the getters;
    /// `None` when it does not fit (see `section_fits`).
    fn emit_function_types(&self) -> (r: Option<FunctionSection>)
        requires
            self.limits(),
        ensures
            r is Some <==> section_fits(SectionV::Functions(function_types(self.plan_view()))),
            r matches Some(s) ==> function_entries(s) == function_types(self.plan_view()),
    {
        let ghost p = self.plan_view();
        let count: u64 = 2 + self.plan.methods.len() as u64 + self.plan.signals.len() as u64
            + self.plan.computeds.len() as u64;
        assert(function_types(p).len() == count);
        if 8 * count > SECTION_LIMIT {
            return None;
        }
        let mut fs = function_section_new();
        function_section_add(&mut fs, 6);
        function_section_add(&mut fs, 7);
        let mut k: usize = 0;
        while k < self.plan.methods.len()
            invariant
                k <= self.plan.methods@.len(),
                self.limits(),
                p == self.plan_view(),
                function_entries(fs) == seq![6u32, 7u32] + Seq::new(k as nat, |j: int| 7u32),
            decreases self.plan.methods@.len() - k,
        {
            function_section_add(&mut fs, 7);
            assert(function_entries(fs) =~= seq![6u32, 7u32] + Seq::new((k + 1) as nat, |j: int| 7u32));
            k += 1;
        }
        let ghost head = function_entries(fs);
        let n = self.plan.signals.len() + self.plan.computeds.len();
        let mut g: usize = 0;
        while g < n
            invariant
                g <= n,
                n == p.signals.len() + p.computeds.len(),
                head.len() == 2 + p.methods.len(),
                self.limits(),
                p == self.plan_view(),
                function_entries(fs) == head + Seq::new(g as nat, |j: int| 8u32),
            decreases n - g,
        {
            function_section_add(&mut fs, 8);
            assert(function_entries(fs) =~= head + Seq::new((g + 1) as nat, |j: int| 8u32));
            g += 1;
        }
        assert(function_entries(fs) =~= function_types(p));
        Some(fs)
    }

    /// The export section (see `exports_of`); `None` when it does not fit
    /// (see `section_fits`).
    fn emit_exports(&self, num_imports: u32) -> (r: Option<ExportSection>)
        requires
            self.limits(),
            num_imports == 7 + extern_fns(self.externs()).len(),
        ensures
            r is Some <==> section_fits(SectionV::Exports(exports_of(self.plan_view(), num_imports as nat))),
            r matches Some(s) ==> export_entries(s) == exports_of(self.plan_view(), num_imports as nat),
    {
        let ghost p = self.plan_view();
        let mut ex = export_section_new();
        let mut ok = true;
        let mut acc: u64 = 0;
        let ghost mut model: Seq<(Seq<char>, ExportTarget, u32)> = Seq::empty();
        add_export(&mut ex, &mut ok, &mut acc, "memory", ExportTarget::Memory, 0, Ghost(model));
        proof { model = model.push(("memory"@, ExportTarget::Memory, 0u32)); }
        add_export(&mut ex, &mut ok, &mut acc, "__table", ExportTarget::Table, 0, Ghost(model));
        proof { model = model.push(("__table"@, ExportTarget::Table, 0u32)); }
        add_export(&mut ex, &mut ok, &mut acc, "mount", ExportTarget::Func, num_imports, Ghost(model));
        proof { model = model.push(("mount"@, ExportTarget::Func, num_imports)); }
        let method_start = num_imports + 2;
        let ghost s0 = model;
        let mut k: usize = 0;
        assert(model =~= s0 + Seq::new(0nat, |i: int| (p.methods[i].name, ExportTarget::Func, (method_start + i) as u32)));
        while k < self.plan.methods.len()
            invariant
                k <= self.plan.methods@.len(),
                p == self.plan_view(),
                self.limits(),
                num_imports == 7 + extern_fns(self.externs()).len(),
                method_start == num_imports + 2,
                s0.len() == 3,
                model == s0 + Seq::new(k as nat, |i: int| (p.methods[i].name, ExportTarget::Func, (method_start + i) as u32)),
                ok ==> export_entries(ex) == model && acc == total(model, export_cost()) && acc <= SECTION_LIMIT,
                !ok ==> total(model, export_cost()) > SECTION_LIMIT,
            decreases self.plan.methods@.len() - k,
        {
            assert(p.methods[k as int].name == self.plan.methods@[k as int].name@);
            add_export(&mut ex, &mut ok, &mut acc, self.plan.methods[k].name.as_str(), ExportTarget::Func, method_start + k as u32, Ghost(model));
            proof {
                model = model.push((p.methods[k as int].name, ExportTarget::Func, (method_start + k) as u32));
                assert(model =~= s0 + Seq::new((k + 1) as nat, |i: int| (p.methods[i].name, ExportTarget::Func, (method_start + i) as u32)));
            }
            k += 1;
        }
        let getter_start = method_start + self.plan.methods.len() as u32;
        let ghost s1 = model;
        let mut g: usize = 0;
        assert(model =~= s1 + Seq::new(0nat, |i: int| ("get_"@ + p.signals[i].name, ExportTarget::Func, (getter_start + i) as u32)));
        while g < self.plan.signals.len()
            invariant
                g <= self.plan.signals@.len(),
                p == self.plan_view(),
                self.limits(),
                getter_start == num_imports + 2 + p.methods.len(),
                num_imports == 7 + extern_fns(self.externs()).len(),
                s1.len() == 3 + p.methods.len(),
                model == s1 + Seq::new(g as nat, |i: int| ("get_"@ + p.signals[i].name, ExportTarget::Func, (getter_start + i) as u32)),
                ok ==> export_entries(ex) == model && acc == total(model, export_cost()) && acc <= SECTION_LIMIT,
                !ok ==> total(model, export_cost()) > SECTION_LIMIT,
            decreases self.plan.signals@.len() - g,
        {
            let mut name = string_of("get_");
            push_str(&mut name, self.plan.signals[g].name.as_str());
            add_export(&mut ex, &mut ok, &mut acc, name.as_str(), ExportTarget::Func, getter_start + g as u32, Ghost(model));
            proof {
                model = model.push(("get_"@ + p.signals[g as int].name, ExportTarget::Func, (getter_start + g) as u32));
                assert(model =~= s1 + Seq::new((g + 1) as nat, |i: int| ("get_"@ + p.signals[i].name, ExportTarget::Func, (getter_start + i) as u32)));
            }
            g += 1;
        }
        let comp_start = getter_start + self.plan.signals.len() as u32;
        let ghost s2 = model;
        let mut c: usize = 0;
        assert(model =~= s2 + Seq::new(0nat, |i: int| ("get_"@ + p.computeds[i].name, ExportTarget::Func, (comp_start + i) as u32)));
        while c < self.plan.computeds.len()
            invariant
                c <= self.plan.computeds@.len(),
                p == self.plan_view(),
                self.limits(),
                comp_start == num_imports + 2 + p.methods.len() + p.signals.len(),
                num_imports == 7 + extern_fns(self.externs()).len(),
                s2.len() == 3 + p.methods.len() + p.signals.len(),
                model == s2 + Seq::new(c as nat, |i: int| ("get_"@ + p.computeds[i].name, ExportTarget::Func, (comp_start + i) as u32)),
                ok ==> export_entries(ex) == model && acc == total(model, export_cost()) && acc <= SECTION_LIMIT,
                !ok ==> total(model, export_cost()) > SECTION_LIMIT,
            decreases self.plan.computeds@.len() - c,
        {
            let mut name = string_of("get_");
            push_str(&mut name, self.plan.computeds[c].name.as_str());
            add_export(&mut ex, &mut ok, &mut acc, name.as_str(), ExportTarget::Func, comp_start + c as u32, Ghost(model));
            proof {
                model = model.push(("get_"@ + p.computeds[c as int].name, ExportTarget::Func, (comp_start + c) as u32));
                assert(model =~= s2 + Seq::new((c + 1) as nat, |i: int| ("get_"@ + p.computeds[i].name, ExportTarget::Func, (comp_start + i) as u32)));
            }
            c += 1;
        }
        assert(model =~= exports_of(p, num_imports as nat));
        if ok {
            Some(ex)
        } else {
            None
        }
    }
}

/// The foreign functions of a prefix of the blocks are no more than those of all blocks.
proof fn lemma_extern_fns_prefix(bs: Seq<ExternBlockV>, k: int)
    requires
        0 <= k <= bs.len(),
    ensures
        extern_fns(bs.subrange(0, k)).len() <= extern_fns(bs).len(),
    decreases bs.len() - k,
{
    if k < bs.len() {
        let sub = bs.subrange(0, k + 1);
        assert(sub.drop_last() =~= bs.subrange(0, k));
        lemma_extern_fns_prefix(bs, k + 1);
    } else {
        assert(bs.subrange(0, k) =~= bs);
    }
}


/// The instruction lists of a list of bodies.
pub open spec fn bodies_view(v: Seq<Vec<Instr>>) -> Seq<Seq<Instr>> {
    Seq::new(v.len(), |i: int| v[i]@)
}

/// An exec result of compilation agrees with an outcome: `None` exactly when
/// compilation has no value to go on with.
pub open spec fn compiled_as(r: Option<Result<Vec<u8>, String>>, o: Outcome<Seq<SectionV>>) -> bool {
    match o {
        Outcome::Done(secs) => r matches Some(Ok(b)) && b@ == module_binary(secs),
        Outcome::Fail(m) => r matches Some(Err(s)) && s@ == m,
        Outcome::Unsupported(e) => r matches Some(Err(s)) && s@ == unsupported_message(e),
        Outcome::Panic => r is None,
    }
}

/// The result that a halt gives.
fn halt_result(h: Halt) -> (r: Option<Result<Vec<u8>, String>>)
    ensures
        match h {
            Halt::Error(s) => r == Some(Err::<Vec<u8>, String>(s)),
            Halt::Panic => r is None,
        },
{
    match h {
        Halt::Error(s) => Some(Err(s)),
        Halt::Panic => None,
    }
}

impl WasmGcCompiler {
    /// The bodies of the methods, in order (see `methods_code`).
    fn emit_method_bodies(&self, ext: &NameMap, num_imports: u32) -> (r: Result<Vec<Vec<Instr>>, Halt>)
        requires
            self.wf(),
            self.limits(),
            num_imports + 1 <= u32::MAX,
        ensures
            match methods_code(self.plan_view(), self.cx(ext@), self.externs(), num_imports as nat, self.plan_view().methods.len()) {
                Outcome::Done(bs) => r matches Ok(v) && bodies_view(v@) == bs,
                other => r matches Err(h) && halted_as(h, other),
            },
            r matches Ok(v) ==> v@.len() == self.plan_view().methods.len(),
    {
        let ghost p = self.plan_view();
        let ghost cx = self.cx(ext@);
        let mut bodies: Vec<Vec<Instr>> = Vec::new();
        let mut k: usize = 0;
        assert(bodies_view(bodies@) =~= Seq::<Seq<Instr>>::empty());
        while k < self.plan.methods.len()
            invariant
                k <= self.plan.methods@.len(),
                self.wf(),
                self.limits(),
                num_imports + 1 <= u32::MAX,
                p == self.plan_view(),
                cx == self.cx(ext@),
                methods_code(p, cx, self.externs(), num_imports as nat, k as nat) == Outcome::<Seq<Seq<Instr>>>::Done(bodies_view(bodies@)),
                bodies@.len() == k,
            decreases self.plan.methods@.len() - k,
        {
            let mut body: Vec<Instr> = Vec::new();
            assert(p.methods[k as int] == self.plan.methods@[k as int]@);
            let r = self.emit_method_function(&self.plan.methods[k], ext, num_imports, &mut body);
            match r {
                Ok(()) => {
                    let ghost before = bodies_view(bodies@);
                    let ghost b = body@;
                    assert(b =~= Seq::<Instr>::empty() + b);
                    bodies.push(body);
                    assert(bodies_view(bodies@) =~= before.push(b));
                },
                Err(h) => {
                    proof {
                        lemma_methods_stop(p, cx, self.externs(), num_imports as nat, (k + 1) as nat, p.methods.len());
                    }
                    return Err(h);
                },
            }
            k += 1;
        }
        Ok(bodies)
    }
}


impl WasmGcCompiler {
    /// The code section: mount, render, the methods, then the getters (see
    /// `code_of`); `None` when it does not fit (see `section_fits`).
    fn emit_code_section(&self, mount: &Vec<Instr>, render: &Vec<Instr>, bodies: &Vec<Vec<Instr>>) -> (r: Option<CodeSection>)
        requires
            self.limits(),
            bodies@.len() == self.plan_view().methods.len(),
        ensures
            r is Some <==> section_fits(SectionV::Code(code_of(self.plan_view(), mount@, render@, bodies_view(bodies@)))),
            r matches Some(s) ==> code_entries(s) == code_of(self.plan_view(), mount@, render@, bodies_view(bodies@)),
    {
        let ghost p = self.plan_view();
        let mut mount_locals_v: Vec<(u32, ValTy)> = Vec::new();
        mount_locals_v.push((1, ValTy::StateRef(STATE_TYPE_IDX)));
        mount_locals_v.push((self.plan.elements.len() as u32, ValTy::ExternRef));
        assert(mount_locals_v@ =~= mount_locals(p));
        let mut state_locals: Vec<(u32, ValTy)> = Vec::new();
        state_locals.push((1, ValTy::StateRef(STATE_TYPE_IDX)));
        assert(state_locals@ =~= state_local());
        let no_locals: Vec<(u32, ValTy)> = Vec::new();
        assert(no_locals@ =~= Seq::<(u32, ValTy)>::empty());
        let mut codes = code_section_new();
        let mut ok = true;
        let mut acc: u64 = 0;
        let ghost mut model: Seq<(Seq<(u32, ValTy)>, Seq<Instr>)> = Seq::empty();
        add_code(&mut codes, &mut ok, &mut acc, &mount_locals_v, mount, Ghost(model));
        proof { model = model.push((mount_locals(p), mount@)); }
        add_code(&mut codes, &mut ok, &mut acc, &state_locals, render, Ghost(model));
        proof { model = model.push((state_local(), render@)); }
        let ghost c0 = model;
        assert(c0 =~= seq![(mount_locals(p), mount@), (state_local(), render@)]);
        let mut k: usize = 0;
        assert(model =~= c0 + Seq::new(0nat, |i: int| (state_local(), bodies@[i]@)));
        while k < bodies.len()
            invariant
                k <= bodies@.len(),
                bodies@.len() == p.methods.len(),
                p == self.plan_view(),
                self.limits(),
                state_locals@ == state_local(),
                c0.len() == 2,
                model == c0 + Seq::new(k as nat, |i: int| (state_local(), bodies@[i]@)),
                ok ==> code_entries(codes) == model && acc == total(model, code_cost()) && acc <= SECTION_LIMIT,
                !ok ==> total(model, code_cost()) > SECTION_LIMIT,
            decreases bodies@.len() - k,
        {
            add_code(&mut codes, &mut ok, &mut acc, &state_locals, &bodies[k], Ghost(model));
            proof {
                model = model.push((state_local(), bodies@[k as int]@));
                assert(model =~= c0 + Seq::new((k + 1) as nat, |i: int| (state_local(), bodies@[i]@)));
            }
            k += 1;
        }
        let ghost c1 = model;
        let mut g: usize = 0;
        assert(model =~= c1 + Seq::new(
            0nat,
            |i: int| (Seq::<(u32, ValTy)>::empty(), getter_code(sig_field(p.signals[i].id as int))),
        ));
        while g < self.plan.signals.len()
            invariant
                g <= self.plan.signals@.len(),
                p == self.plan_view(),
                self.limits(),
                no_locals@ == Seq::<(u32, ValTy)>::empty(),
                c1.len() == 2 + p.methods.len(),
                model == c1 + Seq::new(
                    g as nat,
                    |i: int| (Seq::<(u32, ValTy)>::empty(), getter_code(sig_field(p.signals[i].id as int))),
                ),
                ok ==> code_entries(codes) == model && acc == total(model, code_cost()) && acc <= SECTION_LIMIT,
                !ok ==> total(model, code_cost()) > SECTION_LIMIT,
            decreases self.plan.signals@.len() - g,
        {
            assert(p.signals[g as int].id == self.plan.signals@[g as int].id);
            let field = self.signal_field_idx(self.plan.signals[g].id);
            let body = self.emit_getter_function(field);
            add_code(&mut codes, &mut ok, &mut acc, &no_locals, &body, Ghost(model));
            proof {
                model = model.push((Seq::<(u32, ValTy)>::empty(), getter_code(sig_field(p.signals[g as int].id as int))));
                assert(model =~= c1 + Seq::new(
                    (g + 1) as nat,
                    |i: int| (Seq::<(u32, ValTy)>::empty(), getter_code(sig_field(p.signals[i].id as int))),
                ));
            }
            g += 1;
        }
        let ghost c2 = model;
        let mut c: usize = 0;
        assert(model =~= c2 + Seq::new(
            0nat,
            |i: int| (
                Seq::<(u32, ValTy)>::empty(),
                getter_code(comp_field(p.signals.len() as int, p.computeds[i].id as int)),
            ),
        ));
        while c < self.plan.computeds.len()
            invariant
                c <= self.plan.computeds@.len(),
                p == self.plan_view(),
                self.limits(),
                no_locals@ == Seq::<(u32, ValTy)>::empty(),
                c2.len() == 2 + p.methods.len() + p.signals.len(),
                model == c2 + Seq::new(
                    c as nat,
                    |i: int| (
                        Seq::<(u32, ValTy)>::empty(),
                        getter_code(comp_field(p.signals.len() as int, p.computeds[i].id as int)),
                    ),
                ),
                ok ==> code_entries(codes) == model && acc == total(model, code_cost()) && acc <= SECTION_LIMIT,
                !ok ==> total(model, code_cost()) > SECTION_LIMIT,
            decreases self.plan.computeds@.len() - c,
        {
            assert(p.computeds[c as int].id == self.plan.computeds@[c as int].id);
            let field = self.computed_field_idx(self.plan.computeds[c].id);
            let body = self.emit_getter_function(field);
            add_code(&mut codes, &mut ok, &mut acc, &no_locals, &body, Ghost(model));
            proof {
                model = model.push((
                    Seq::<(u32, ValTy)>::empty(),
                    getter_code(comp_field(p.signals.len() as int, p.computeds[c as int].id as int)),
                ));
                assert(model =~= c2 + Seq::new(
                    (c + 1) as nat,
                    |i: int| (
                        Seq::<(u32, ValTy)>::empty(),
                        getter_code(comp_field(p.signals.len() as int, p.computeds[i].id as int)),
                    ),
                ));
            }
            c += 1;
        }
        assert(model =~= code_of(p, mount@, render@, bodies_view(bodies@)));
        if ok {
            Some(codes)
        } else {
            None
        }
    }

    /// Compiles the component to a Wasm-GC module; `None` when compilation
    /// has no value to go on with (see `compiled`).
    #[verifier::rlimit(40)]
    pub fn try_compile(&mut self) -> (r: Option<Result<Vec<u8>, String>>)
        requires
            old(self).wf(),
            old(self).limits(),
        ensures
            final(self).wf(),
            final(self).limits(),
            final(self).plan_view() == old(self).plan_view(),
            final(self).externs() == old(self).externs(),
            intern_fits(table_model(old(self).table()), collected_strings(old(self).plan_view())) ==> table_model(
                final(self).table(),
            ) == intern_all(table_model(old(self).table()), collected_strings(old(self).plan_view())),
            compiled_as(r, compiled(old(self).plan_view(), old(self).externs(), table_model(old(self).table()))),
    {
        let ghost p = self.plan_view();
        let ghost bs = self.externs();
        let ghost m0 = table_model(self.table());
        let ghost strs = collected_strings(p);
        if self.intern_collected().is_err() {
            return None;
        }
        let ghost t = intern_all(m0, strs);
        proof {
            lemma_intern_all_present(m0, strs);
            lemma_present_concat(t.entries, elements_strings(p.elements) + index_strings(p.methods.len()), methods_strings(p.methods));
            lemma_present_concat(t.entries, elements_strings(p.elements), index_strings(p.methods.len()));
        }
        let types = match self.emit_types() {
            Some(t) => t,
            None => {
                return None;
            },
        };
        let (imports_opt, ext, num_imports) = self.emit_imports();
        let imports = match imports_opt {
            Some(i) => i,
            None => {
                return None;
            },
        };
        let ghost cx = self.cx(ext@);
        assert(cx == (EmitCx {
            sigs: p.signal_name_to_id,
            comps: p.computed_name_to_id,
            ns: p.signals.len(),
            entries: t.entries,
            ext: indices_of(extern_fns(bs)),
        }));
        let functions = match self.emit_function_types() {
            Some(f) => f,
            None => {
                return None;
            },
        };
        let nm = self.plan.methods.len();
        let table_size: u64 = if nm > 0 { nm as u64 } else { 1 };
        let tables = table_section_funcref(table_size, table_size);
        let memories = memory_section_one(1);
        let globals = global_section_state(STATE_TYPE_IDX);
        let exports = match self.emit_exports(num_imports) {
            Some(e) => e,
            None => {
                return None;
            },
        };
        let method_start = num_imports + 2;
        proof {
            let e = (0u32, 0i32, method_funcs(p, num_imports as nat));
            lemma_total_push(Seq::empty(), e, element_cost());
            assert(seq![e] =~= Seq::empty().push(e));
        }
        if nm > 0 && 32 + 8 * (nm as u64) > SECTION_LIMIT {
            return None;
        }
        let mut mount_body: Vec<Instr> = Vec::new();
        let mc = self.emit_mount_function(&ext, num_imports, method_start, &mut mount_body);
        assert(mount_body@ =~= Seq::<Instr>::empty() + mount_body@);
        if let Err(h) = mc {
            return halt_result(h);
        }
        let mut render_body: Vec<Instr> = Vec::new();
        let rc = self.emit_render_dynamic_text_function(&ext, &mut render_body);
        assert(render_body@ =~= Seq::<Instr>::empty() + render_body@);
        if let Err(h) = rc {
            return halt_result(h);
        }
        let bodies = match self.emit_method_bodies(&ext, num_imports) {
            Ok(b) => b,
            Err(h) => {
                return halt_result(h);
            },
        };
        let mut module = module_new();
        module_types(&mut module, &types);
        module_imports(&mut module, &imports);
        module_functions(&mut module, &functions);
        module_tables(&mut module, &tables);
        module_memories(&mut module, &memories);
        module_globals(&mut module, &globals);
        module_exports(&mut module, &exports);
        let ghost head = module_sections(module);
        if nm > 0 {
            let mut funcs: Vec<u32> = Vec::new();
            let mut k: usize = 0;
            while k < nm
                invariant
                    k <= nm,
                    nm == p.methods.len(),
                    self.limits(),
                    p == self.plan_view(),
                    method_start == num_imports + 2,
                    num_imports == 7 + extern_fns(self.externs()).len(),
                    funcs@ == Seq::new(k as nat, |i: int| (method_start + i) as u32),
                decreases nm - k,
            {
                funcs.push(method_start + k as u32);
                assert(funcs@ =~= Seq::new((k + 1) as nat, |i: int| (method_start + i) as u32));
                k += 1;
            }
            assert(funcs@ =~= method_funcs(p, num_imports as nat));
            let elements = element_section_functions(0, 0, &funcs);
            module_elements(&mut module, &elements);
        }
        let ghost with_elements = module_sections(module);
        let codes = match self.emit_code_section(&mount_body, &render_body, &bodies) {
            Some(c) => c,
            None => {
                return None;
            },
        };
        let data_len = self.string_table.data().len();
        proof {
            let e = (0u32, DATA_START as i32, t.bytes);
            lemma_total_push(Seq::empty(), e, data_cost());
            assert(seq![e] =~= Seq::empty().push(e));
        }
        if data_len as u64 > SECTION_LIMIT - 32 {
            return None;
        }
        module_code(&mut module, &codes);
        let data = data_section_bytes(0, DATA_START as i32, self.string_table.data());
        module_data(&mut module, &data);
        proof {
            let secs = sections_of(p, bs, t.bytes, mount_body@, render_body@, bodies_view(bodies@));
            assert(module_sections(module) =~= secs);
        }
        Some(Ok(module_finish(module)))
    }

    /// Compiles the component to a Wasm-GC module, or gives the first error
    /// (see `compiled`), for a component on which compilation does not stop
    /// without a value.
    pub fn compile(&mut self) -> (r: Result<Vec<u8>, String>)
        requires
            old(self).wf(),
            old(self).limits(),
            !(compiled(old(self).plan_view(), old(self).externs(), table_model(old(self).table())) is Panic),
        ensures
            final(self).wf(),
            final(self).limits(),
            final(self).plan_view() == old(self).plan_view(),
            final(self).externs() == old(self).externs(),
            table_model(final(self).table()) == intern_all(
                table_model(old(self).table()),
                collected_strings(old(self).plan_view()),
            ),
            compiled_as(Some(r), compiled(old(self).plan_view(), old(self).externs(), table_model(old(self).table()))),
    {
        match self.try_compile() {
            Some(r) => r,
            None => Err(String::new()),
        }
    }
}


impl WasmGcCompiler {
    /// Whether the counts and ids of the plan keep every index of the module
    /// within `u32` (see `limits`).
    pub fn within_limits(&self) -> (b: bool)
        ensures
            b == self.limits(),
    {
        let ghost p = self.plan_view();
        let ghost bs = self.externs();
        let max: u64 = 0xffff_ffff;
        // Foreign functions.
        let mut nx: u64 = 0;
        let mut b: usize = 0;
        assert(bs.subrange(0, 0) =~= Seq::<ExternBlockV>::empty());
        while b < self.extern_blocks.len()
            invariant
                b <= self.extern_blocks@.len(),
                bs == self.externs(),
                bs.len() == self.extern_blocks@.len(),
                nx == extern_fns(bs.subrange(0, b as int)).len(),
                nx <= max,
                max == 0xffff_ffff,
            decreases self.extern_blocks@.len() - b,
        {
            let n = self.extern_blocks[b].functions.len();
            proof {
                let sub = bs.subrange(0, b + 1);
                assert(sub.drop_last() =~= bs.subrange(0, b as int));
                assert(sub.last() == self.extern_blocks@[b as int]@);
                lemma_extern_fns_prefix(bs, b as int + 1);
                assert(extern_fns(sub).len() == nx + n);
            }
            if n as u64 > max - nx {
                proof {
                    let sub = bs.subrange(0, b + 1);
                    assert(sub.drop_last() =~= bs.subrange(0, b as int));
                    assert(sub.last() == self.extern_blocks@[b as int]@);
                    assert(extern_fns(sub).len() == nx + n);
                    lemma_extern_fns_prefix(bs, b as int + 1);
                    assert(extern_fns(bs).len() > max);
                    assert(!self.limits());
                }
                return false;
            }
            nx = nx + n as u64;
            b += 1;
        }
        assert(bs.subrange(0, b as int) =~= bs);
        let ghost fx = extern_fns(bs).len();
        if nx > max - 16 {
            return false;
        }
        let mut total: u64 = nx + 16;
        let nm = self.plan.methods.len();
        if nm as u64 > max - total {
            return false;
        }
        total = total + nm as u64;
        let ns = self.plan.signals.len();
        if ns as u64 > max - total {
            return false;
        }
        total = total + ns as u64;
        let nc = self.plan.computeds.len();
        if nc as u64 > max - total {
            return false;
        }
        total = total + nc as u64;
        let ne = self.plan.elements.len();
        if ne as u64 > max - total {
            return false;
        }
        total = total + ne as u64;
        let nd = self.plan.dynamic_text_slots;
        if nd as u64 > max - total {
            return false;
        }
        // The ids of the name maps.
        if !self.plan.signal_name_to_id.ids_at_most(0xffff_fffe) {
            proof {
                let m = p.signal_name_to_id;
                let i = choose|i: int| 0 <= i < m.len() && !(m[i].1 <= 0xffff_fffe);
                assert(!(m[i].1 + 1 <= u32::MAX));
                assert(!self.ids_fit());
            }
            return false;
        }
        if !self.plan.computed_name_to_id.ids_at_most(0xffff_fffe - ns) {
            proof {
                let m = p.computed_name_to_id;
                let i = choose|i: int| 0 <= i < m.len() && !(m[i].1 <= 0xffff_fffe - ns);
                assert(!(m[i].1 + p.signals.len() + 1 <= u32::MAX));
                assert(!self.ids_fit());
            }
            return false;
        }
        // The ids of the signals and computeds.
        let mut i: usize = 0;
        while i < ns
            invariant
                i <= ns,
                ns == p.signals.len(),
                p == self.plan_view(),
                forall|j: int| 0 <= j < i ==> #[trigger] p.signals[j].id + 1 <= u32::MAX,
            decreases ns - i,
        {
            assert(p.signals[i as int].id == self.plan.signals@[i as int].id);
            if self.plan.signals[i].id > 0xffff_fffe {
                return false;
            }
            i += 1;
        }
        let mut j: usize = 0;
        while j < nc
            invariant
                j <= nc,
                nc == p.computeds.len(),
                ns == p.signals.len(),
                ns + nc + 16 <= u32::MAX,
                p == self.plan_view(),
                forall|q: int| 0 <= q < j ==> #[trigger] p.computeds[q].id + p.signals.len() + 1 <= u32::MAX,
            decreases nc - j,
        {
            assert(p.computeds[j as int].id == self.plan.computeds@[j as int].id);
            if self.plan.computeds[j].id > 0xffff_fffe - ns {
                return false;
            }
            j += 1;
        }
        // The state slots of the dynamic text nodes.
        let mut e: usize = 0;
        while e < self.plan.elements.len()
            invariant
                e <= self.plan.elements@.len(),
                ns == p.signals.len(),
                nc == p.computeds.len(),
                ns + nc + 16 <= u32::MAX,
                p == self.plan_view(),
                forall|q: int|
                    0 <= q < e ==> ((#[trigger] p.elements[q]).kind matches PlannedNodeKindV::DynamicText(slot)
                        ==> slot.state_slot + p.signals.len() + p.computeds.len() + 1 <= u32::MAX),
            decreases self.plan.elements@.len() - e,
        {
            assert(p.elements[e as int] == self.plan.elements@[e as int]@);
            if let PlannedNodeKind::DynamicText(slot) = &self.plan.elements[e].kind {
                if slot.state_slot > 0xffff_fffe - ns - nc {
                    return false;
                }
            }
            e += 1;
        }
        true
    }
}

/// The first index of a name found in a prefix is its first index in the whole.
proof fn lemma_index_extends(ms: Seq<FnDeclV>, name: Seq<char>, k: int)
    requires
        0 < k <= ms.len(),
        method_index(ms.subrange(0, k - 1), name) is None,
        ms[k - 1].name == name,
    ensures
        method_index(ms, name) == Some((k - 1) as nat),
    decreases ms.len() - k,
{
    let sub = ms.subrange(0, k);
    assert(sub.drop_last() =~= ms.subrange(0, k - 1));
    if k < ms.len() {
        lemma_index_prefix(ms, name, k);
    } else {
        assert(ms.subrange(0, k) =~= ms);
    }
}

/// A prefix in which a name is found gives the index in the whole.
proof fn lemma_index_prefix(ms: Seq<FnDeclV>, name: Seq<char>, k: int)
    requires
        0 < k <= ms.len(),
        method_index(ms.subrange(0, k), name) is Some,
    ensures
        method_index(ms, name) == method_index(ms.subrange(0, k), name),
    decreases ms.len() - k,
{
    if k < ms.len() {
        let sub = ms.subrange(0, k + 1);
        assert(sub.drop_last() =~= ms.subrange(0, k));
        lemma_index_prefix(ms, name, k + 1);
    } else {
        assert(ms.subrange(0, k) =~= ms);
    }
}

/// The index that `method_index` finds is below the number of methods.
proof fn lemma_index_in_range(ms: Seq<FnDeclV>, name: Seq<char>)
    ensures
        method_index(ms, name) matches Some(i) ==> i < ms.len(),
    decreases ms.len(),
{
    if ms.len() > 0 {
        lemma_index_in_range(ms.drop_last(), name);
    }
}

/// The first index of an id found in a prefix is its first index in the whole.
proof fn lemma_element_index_extends(es: Seq<PlannedElementV>, id: nat, k: int)
    requires
        0 < k <= es.len(),
        element_index(es.subrange(0, k - 1), id) is None,
        es[k - 1].id == id,
    ensures
        element_index(es, id) == Some((k - 1) as nat),
    decreases es.len() - k,
{
    let sub = es.subrange(0, k);
    assert(sub.drop_last() =~= es.subrange(0, k - 1));
    if k < es.len() {
        lemma_element_index_prefix(es, id, k);
    } else {
        assert(es.subrange(0, k) =~= es);
    }
}

/// A prefix in which an id is found gives the index in the whole.
proof fn lemma_element_index_prefix(es: Seq<PlannedElementV>, id: nat, k: int)
    requires
        0 < k <= es.len(),
        element_index(es.subrange(0, k), id) is Some,
    ensures
        element_index(es, id) == element_index(es.subrange(0, k), id),
    decreases es.len() - k,
{
    if k < es.len() {
        let sub = es.subrange(0, k + 1);
        assert(sub.drop_last() =~= es.subrange(0, k));
        lemma_element_index_prefix(es, id, k + 1);
    } else {
        assert(es.subrange(0, k) =~= es);
    }
}

/// The texts of a list of strings.
pub open spec fn texts_view(v: Seq<String>) -> Seq<Seq<char>> {
    Seq::new(v.len(), |i: int| v[i]@)
}

fn push_text(out: &mut Vec<String>, t: &str)
    ensures
        texts_view(final(out)@) == texts_view(old(out)@).push(t@),
{
    out.push(string_of(t));
    assert(texts_view(out@) =~= texts_view(old(out)@).push(t@));
}

/// Appends the string literals of `e` (see `expr_strings`).
fn collect_expr_strings(e: &Expr, out: &mut Vec<String>)
    ensures
        texts_view(final(out)@) == texts_view(old(out)@) + expr_strings(e@),
    decreases e,
{
    match e {
        Expr::StringLit(t, _) => {
            push_text(out, t.as_str());
            assert(texts_view(out@) =~= texts_view(old(out)@) + expr_strings(e@));
        },
        Expr::Call { callee, args, span } => {
            let mut i: usize = 0;
            assert(texts_view(out@) =~= texts_view(old(out)@) + args_strings(e@->args.subrange(0, 0)));
            while i < args.len()
                invariant
                    i <= args@.len(),
                    *e == (Expr::Call { callee: *callee, args: *args, span: *span }),
                    texts_view(out@) == texts_view(old(out)@) + args_strings(e@->args.subrange(0, i as int)),
                decreases args@.len() - i,
            {
                proof {
                    assert(decreases_to!(e => args@[i as int]));
                }
                let ghost mid = texts_view(out@);
                collect_expr_strings(&args[i], out);
                proof {
                    let sub = e@->args.subrange(0, i + 1);
                    assert(sub.subrange(0, i as int) =~= e@->args.subrange(0, i as int));
                    assert(sub[i as int] == args@[i as int]@);
                    assert(texts_view(out@) =~= texts_view(old(out)@) + args_strings(sub));
                }
                i += 1;
            }
            assert(e@->args.subrange(0, i as int) =~= e@->args);
        },
        Expr::Binary { left, right, .. } => {
            collect_expr_strings(left, out);
            let ghost mid = texts_view(out@);
            collect_expr_strings(right, out);
            assert(texts_view(out@) =~= texts_view(old(out)@) + (expr_strings(left@) + expr_strings(right@)));
        },
        Expr::Unary { expr: inner, .. } => {
            collect_expr_strings(inner, out);
        },
        _ => {
            assert(texts_view(out@) =~= texts_view(old(out)@) + expr_strings(e@));
        },
    }
}

/// Appends the string literals of the statements of `body`.
fn collect_body_strings(body: &Vec<Stmt>, out: &mut Vec<String>)
    ensures
        texts_view(final(out)@) == texts_view(old(out)@) + body_strings(stmts_view(body@)),
{
    let mut i: usize = 0;
    assert(stmts_view(body@).subrange(0, 0) =~= Seq::<StmtV>::empty());
    assert(texts_view(out@) =~= texts_view(old(out)@) + body_strings(stmts_view(body@).subrange(0, 0)));
    while i < body.len()
        invariant
            i <= body@.len(),
            texts_view(out@) == texts_view(old(out)@) + body_strings(stmts_view(body@).subrange(0, i as int)),
        decreases body@.len() - i,
    {
        let ghost before = texts_view(out@);
        match &body[i] {
            Stmt::Assign { value, .. } => collect_expr_strings(value, out),
            Stmt::AssignOp { value, .. } => collect_expr_strings(value, out),
            Stmt::Expr(e) => collect_expr_strings(e, out),
            _ => {},
        }
        proof {
            let sub = stmts_view(body@).subrange(0, i + 1);
            assert(sub.drop_last() =~= stmts_view(body@).subrange(0, i as int));
            assert(sub.last() == body@[i as int]@);
            assert(texts_view(out@) =~= before + stmt_strings(body@[i as int]@));
            assert(texts_view(out@) =~= texts_view(old(out)@) + body_strings(sub));
        }
        i += 1;
    }
    assert(stmts_view(body@).subrange(0, i as int) =~= stmts_view(body@));
}

/// Appends a list of attribute names and values.
fn collect_pairs(ps: &Vec<(String, String)>, out: &mut Vec<String>)
    ensures
        texts_view(final(out)@) == texts_view(old(out)@) + pair_strings(pairs_view(ps@)),
{
    let mut i: usize = 0;
    assert(pairs_view(ps@).subrange(0, 0) =~= Seq::<(Seq<char>, Seq<char>)>::empty());
    assert(texts_view(out@) =~= texts_view(old(out)@) + pair_strings(pairs_view(ps@).subrange(0, 0)));
    while i < ps.len()
        invariant
            i <= ps@.len(),
            texts_view(out@) == texts_view(old(out)@) + pair_strings(pairs_view(ps@).subrange(0, i as int)),
        decreases ps@.len() - i,
    {
        push_text(out, ps[i].0.as_str());
        push_text(out, ps[i].1.as_str());
        proof {
            let sub = pairs_view(ps@).subrange(0, i + 1);
            assert(sub.drop_last() =~= pairs_view(ps@).subrange(0, i as int));
            assert(texts_view(out@) =~= texts_view(old(out)@) + pair_strings(sub));
        }
        i += 1;
    }
    assert(pairs_view(ps@).subrange(0, i as int) =~= pairs_view(ps@));
}

/// The attribute text `data-vt-<ev>`.
fn event_attr_text(ev: &String) -> (r: String)
    ensures
        r@ == event_attr(ev@),
{
    let mut r = string_of("data-vt-");
    push_str(&mut r, ev.as_str());
    r
}

/// Appends the handler attributes of a list of events.
fn collect_events(evs: &Vec<(String, String)>, out: &mut Vec<String>)
    ensures
        texts_view(final(out)@) == texts_view(old(out)@) + event_strings(pairs_view(evs@)),
{
    let mut i: usize = 0;
    assert(pairs_view(evs@).subrange(0, 0) =~= Seq::<(Seq<char>, Seq<char>)>::empty());
    assert(texts_view(out@) =~= texts_view(old(out)@) + event_strings(pairs_view(evs@).subrange(0, 0)));
    while i < evs.len()
        invariant
            i <= evs@.len(),
            texts_view(out@) == texts_view(old(out)@) + event_strings(pairs_view(evs@).subrange(0, i as int)),
        decreases evs@.len() - i,
    {
        let a = event_attr_text(&evs[i].0);
        push_text(out, a.as_str());
        proof {
            let sub = pairs_view(evs@).subrange(0, i + 1);
            assert(sub.drop_last() =~= pairs_view(evs@).subrange(0, i as int));
            assert(texts_view(out@) =~= texts_view(old(out)@) + event_strings(sub));
        }
        i += 1;
    }
    assert(pairs_view(evs@).subrange(0, i as int) =~= pairs_view(evs@));
}

/// Appends the strings of one planned node (see `node_strings`).
fn collect_node_strings(k: &PlannedNodeKind, out: &mut Vec<String>)
    ensures
        texts_view(final(out)@) == texts_view(old(out)@) + node_strings(k@),
{
    match k {
        PlannedNodeKind::Element { tag, static_attrs, events, static_text } => {
            push_text(out, tag.as_str());
            let ghost a = texts_view(out@);
            collect_pairs(static_attrs, out);
            let ghost b = texts_view(out@);
            collect_events(events, out);
            let ghost c = texts_view(out@);
            match static_text {
                Some(t) => push_text(out, t.as_str()),
                None => {},
            }
            let ghost st: Seq<Seq<char>> = match static_text {
                Some(t) => seq![t@],
                None => Seq::empty(),
            };
            assert(texts_view(out@) =~= c + st);
            assert(a == texts_view(old(out)@).push(tag@));
            assert(b == a + pair_strings(pairs_view(static_attrs@)));
            assert(c == b + event_strings(pairs_view(events@)));
            assert(node_strings(k@) == seq![tag@] + pair_strings(pairs_view(static_attrs@)) + event_strings(
                pairs_view(events@),
            ) + st);
            assert(texts_view(out@) =~= texts_view(old(out)@) + (seq![tag@] + pair_strings(pairs_view(static_attrs@))
                + event_strings(pairs_view(events@)) + st));
        },
        PlannedNodeKind::StaticText(t) => {
            push_text(out, t.as_str());
            assert(texts_view(out@) =~= texts_view(old(out)@) + node_strings(k@));
        },
        PlannedNodeKind::DynamicText(_) => {
            push_text(out, "");
            proof {
                reveal_strlit("");
                assert(""@ =~= Seq::<char>::empty());
            }
            assert(texts_view(out@) =~= texts_view(old(out)@) + node_strings(k@));
        },
    }
}

/// Every string that compiling `p` interns, in order (see `collected_strings`).
fn collect_strings(p: &ComponentPlan) -> (v: Vec<String>)
    ensures
        texts_view(v@) == collected_strings(p@),
{
    let mut out: Vec<String> = Vec::new();
    let mut i: usize = 0;
    assert(p@.elements.subrange(0, 0) =~= Seq::<PlannedElementV>::empty());
    assert(texts_view(out@) =~= elements_strings(p@.elements.subrange(0, 0)));
    while i < p.elements.len()
        invariant
            i <= p.elements@.len(),
            texts_view(out@) == elements_strings(p@.elements.subrange(0, i as int)),
        decreases p.elements@.len() - i,
    {
        collect_node_strings(&p.elements[i].kind, &mut out);
        proof {
            let sub = p@.elements.subrange(0, i + 1);
            assert(sub.drop_last() =~= p@.elements.subrange(0, i as int));
            assert(sub.last() == p.elements@[i as int]@);
        }
        i += 1;
    }
    assert(p@.elements.subrange(0, i as int) =~= p@.elements);
    let ghost after_elements = texts_view(out@);
    let mut j: usize = 0;
    while j < p.methods.len()
        invariant
            j <= p.methods@.len(),
            texts_view(out@) == after_elements + index_strings(j as nat),
            after_elements == elements_strings(p@.elements),
        decreases p.methods@.len() - j,
    {
        let mut t = String::new();
        push_usize(&mut t, j);
        assert(t@ =~= decimal(j as nat));
        push_text(&mut out, t.as_str());
        assert(index_strings((j + 1) as nat) =~= index_strings(j as nat).push(decimal(j as nat)));
        assert(texts_view(out@) =~= after_elements + index_strings((j + 1) as nat));
        j += 1;
    }
    let ghost after_indices = texts_view(out@);
    let mut m: usize = 0;
    assert(p@.methods.subrange(0, 0) =~= Seq::<FnDeclV>::empty());
    assert(texts_view(out@) =~= after_indices + methods_strings(p@.methods.subrange(0, 0)));
    while m < p.methods.len()
        invariant
            m <= p.methods@.len(),
            texts_view(out@) == after_indices + methods_strings(p@.methods.subrange(0, m as int)),
        decreases p.methods@.len() - m,
    {
        let ghost before = texts_view(out@);
        collect_body_strings(&p.methods[m].body, &mut out);
        proof {
            let sub = p@.methods.subrange(0, m + 1);
            assert(sub.drop_last() =~= p@.methods.subrange(0, m as int));
            assert(sub.last() == p.methods@[m as int]@);
            assert(texts_view(out@) =~= after_indices + methods_strings(sub));
        }
        m += 1;
    }
    assert(p@.methods.subrange(0, m as int) =~= p@.methods);
    assert(texts_view(out@) =~= collected_strings(p@));
    out
}

/// The instruction of a binary operator.
fn binop(op: BinaryOp) -> (i: Instr)
    ensures
        i == binop_instr(op),
{
    match op {
        BinaryOp::Add => Instr::I32Add,
        BinaryOp::Sub => Instr::I32Sub,
        BinaryOp::Mul => Instr::I32Mul,
        BinaryOp::Div => Instr::I32DivS,
        BinaryOp::Mod => Instr::I32RemS,
        BinaryOp::Eq => Instr::I32Eq,
        BinaryOp::NotEq => Instr::I32Ne,
        BinaryOp::Lt => Instr::I32LtS,
        BinaryOp::LtEq => Instr::I32LeS,
        BinaryOp::Gt => Instr::I32GtS,
        BinaryOp::GtEq => Instr::I32GeS,
        BinaryOp::And => Instr::I32And,
        BinaryOp::Or => Instr::I32Or,
    }
}

/// An id that a map gives a name is one of the ids the map holds.
proof fn lemma_lookup_fits(m: Seq<(Seq<char>, usize)>, key: Seq<char>, extra: nat)
    requires
        forall|i: int| 0 <= i < m.len() ==> #[trigger] m[i].1 + extra + 1 <= u32::MAX,
    ensures
        lookup_name(m, key) matches Some(id) ==> id + extra + 1 <= u32::MAX,
    decreases m.len(),
{
    if m.len() > 0 && m.last().0 != key {
        assert forall|i: int| 0 <= i < m.drop_last().len() implies #[trigger] m.drop_last()[i].1 + extra + 1
            <= u32::MAX by {
            assert(m.drop_last()[i] == m[i]);
        }
        lemma_lookup_fits(m.drop_last(), key, extra);
    } else if m.len() > 0 {
        assert(m[m.len() - 1] == m.last());
    }
}

} // verus!
