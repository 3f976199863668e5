//! The WebAssembly building blocks that the code generator hands to
//! `wasm_encoder`, and the contracts of the calls that hand them over.
//!
//! Each builder of `wasm_encoder` is described by what it holds, in terms of
//! the plain values below; the bytes that `Module::finish` produces from what a
//! module holds are named, not spelled out.

use vstd::prelude::*;
use crate::codegen::memory_layout::utf8;
use std::borrow::Cow;
use wasm_encoder::{
    BlockType, CodeSection, CompositeInnerType, CompositeType, ConstExpr, DataSection, ElementSection,
    Elements, EntityType, ExportKind, ExportSection, FieldType, Function, FunctionSection, GlobalSection,
    GlobalType, HeapType, ImportSection, MemorySection, MemoryType, Module, RefType, StorageType,
    StructType, SubType, TableSection, TableType, TypeSection, ValType,
};

verus! {

/// A value type of the generated code: `i32`, `externref`, or a nullable
/// reference to the concrete type with the given index.
#[derive(Debug, Clone, Copy, PartialEq, Eq, Structural)]
pub enum ValTy {
    I32,
    ExternRef,
    StateRef(u32),
}

/// The instructions that the code generator emits.
#[derive(Debug, Clone, Copy, PartialEq, Eq, Structural)]
pub enum Instr {
    I32Const(i32),
    LocalGet(u32),
    LocalSet(u32),
    GlobalGet(u32),
    GlobalSet(u32),
    Call(u32),
    StructNew(u32),
    StructGet { struct_type_index: u32, field_index: u32 },
    StructSet { struct_type_index: u32, field_index: u32 },
    RefNullExtern,
    IfEmpty,
    End,
    Drop,
    I32Add,
    I32Sub,
    I32Mul,
    I32DivS,
    I32RemS,
    I32Eq,
    I32Ne,
    I32LtS,
    I32LeS,
    I32GtS,
    I32GeS,
    I32And,
    I32Or,
    I32Eqz,
}

/// What an export refers to.
#[derive(Debug, Clone, Copy, PartialEq, Eq, Structural)]
pub enum ExportTarget {
    Func,
    Table,
    Memory,
}

/// An entry of a type section: a function type (parameters, results), or a
/// final struct type without supertype whose fields are all mutable.
pub enum TypeEntry {
    Func(Seq<ValTy>, Seq<ValTy>),
    Struct(Seq<ValTy>),
}

/// What a section of a module holds.
/// - `Imports`: (module, name, index of the function type) of imported functions.
/// - `Tables`: (minimum, maximum) of `funcref` tables.
/// - `Memories`: the minimum page count of memories without maximum.
/// - `Globals`: the struct type index of mutable globals holding a nullable
///   reference to that type, initialised to null.
/// - `Exports`: (name, kind, index).
/// - `Elements`: (table, offset, function indices) of active segments.
/// - `Code`: (locals, instructions) of function bodies.
/// - `Data`: (memory, offset, bytes) of active segments.
pub enum SectionV {
    Types(Seq<TypeEntry>),
    Imports(Seq<(Seq<char>, Seq<char>, u32)>),
    Functions(Seq<u32>),
    Tables(Seq<(u64, u64)>),
    Memories(Seq<u64>),
    Globals(Seq<u32>),
    Exports(Seq<(Seq<char>, ExportTarget, u32)>),
    Elements(Seq<(u32, i32, Seq<u32>)>),
    Code(Seq<(Seq<(u32, ValTy)>, Seq<Instr>)>),
    Data(Seq<(u32, i32, Seq<u8>)>),
}

#[verifier::external_type_specification]
#[verifier::external_body]
pub struct ExFunction(Function);

#[verifier::external_type_specification]
#[verifier::external_body]
pub struct ExTypeSection(TypeSection);

#[verifier::external_type_specification]
#[verifier::external_body]
pub struct ExImportSection(ImportSection);

#[verifier::external_type_specification]
#[verifier::external_body]
pub struct ExFunctionSection(FunctionSection);

#[verifier::external_type_specification]
#[verifier::external_body]
pub struct ExTableSection(TableSection);

#[verifier::external_type_specification]
#[verifier::external_body]
pub struct ExMemorySection(MemorySection);

#[verifier::external_type_specification]
#[verifier::external_body]
pub struct ExGlobalSection(GlobalSection);

#[verifier::external_type_specification]
#[verifier::external_body]
pub struct ExExportSection(ExportSection);

#[verifier::external_type_specification]
#[verifier::external_body]
pub struct ExElementSection(ElementSection);

#[verifier::external_type_specification]
#[verifier::external_body]
pub struct ExCodeSection(CodeSection);

#[verifier::external_type_specification]
#[verifier::external_body]
pub struct ExDataSection(DataSection);

#[verifier::external_type_specification]
#[verifier::external_body]
pub struct ExModule(Module);

#[verifier::external_type_specification]
#[verifier::external_body]
pub struct ExValType(ValType);

#[verifier::external_type_specification]
#[verifier::external_body]
pub struct ExExportKind(ExportKind);

/// The local declarations of a function body: (count, type) runs.
pub uninterp spec fn function_locals(f: Function) -> Seq<(u32, ValTy)>;

/// The instructions written into a function body so far.
pub uninterp spec fn function_body(f: Function) -> Seq<Instr>;

/// The entries of a type section.
pub uninterp spec fn type_entries(s: TypeSection) -> Seq<TypeEntry>;

/// The function imports of an import section.
pub uninterp spec fn import_entries(s: ImportSection) -> Seq<(Seq<char>, Seq<char>, u32)>;

/// The type indices of a function section.
pub uninterp spec fn function_entries(s: FunctionSection) -> Seq<u32>;

/// The tables of a table section.
pub uninterp spec fn table_entries(s: TableSection) -> Seq<(u64, u64)>;

/// The memories of a memory section.
pub uninterp spec fn memory_entries(s: MemorySection) -> Seq<u64>;

/// The globals of a global section.
pub uninterp spec fn global_entries(s: GlobalSection) -> Seq<u32>;

/// The exports of an export section.
pub uninterp spec fn export_entries(s: ExportSection) -> Seq<(Seq<char>, ExportTarget, u32)>;

/// The segments of an element section.
pub uninterp spec fn element_entries(s: ElementSection) -> Seq<(u32, i32, Seq<u32>)>;

/// The function bodies of a code section.
pub uninterp spec fn code_entries(s: CodeSection) -> Seq<(Seq<(u32, ValTy)>, Seq<Instr>)>;

/// The segments of a data section.
pub uninterp spec fn data_entries(s: DataSection) -> Seq<(u32, i32, Seq<u8>)>;

/// The sections written into a module so far, in order.
pub uninterp spec fn module_sections(m: Module) -> Seq<SectionV>;

/// The binary encoding of a module with the given sections.
pub uninterp spec fn module_binary(sections: Seq<SectionV>) -> Seq<u8>;

/// The largest encoded size, in bytes, that a section's contents may have:
/// `wasm_encoder` writes the size of a section, with its entry count, as a
/// `u32`.
pub const SECTION_LIMIT: u64 = 0xffff_fffa;

/// The sum of `cost` over the items of `s`.
pub open spec fn total<T>(s: Seq<T>, cost: spec_fn(T) -> nat) -> nat
    decreases s.len(),
{
    if s.len() == 0 {
        0
    } else {
        total(s.drop_last(), cost) + cost(s.last())
    }
}

/// A bound on the bytes of a type entry: a value type takes at most 6 bytes
/// and a count at most 5.
pub open spec fn type_cost() -> spec_fn(TypeEntry) -> nat {
    |e: TypeEntry| match e {
        TypeEntry::Func(ps, rs) => 16 + 8 * (ps.len() + rs.len()),
        TypeEntry::Struct(fs) => 16 + 8 * fs.len(),
    }
}

/// A bound on the bytes of an import: two strings, each after its length.
pub open spec fn import_cost() -> spec_fn((Seq<char>, Seq<char>, u32)) -> nat {
    |e: (Seq<char>, Seq<char>, u32)| 16 + utf8(e.0).len() + utf8(e.1).len()
}

/// A bound on the bytes of an export: its name after its length, a kind and an index.
pub open spec fn export_cost() -> spec_fn((Seq<char>, ExportTarget, u32)) -> nat {
    |e: (Seq<char>, ExportTarget, u32)| 16 + utf8(e.0).len()
}

/// A bound on the bytes of an element segment: a header, an offset
/// expression and the function indices.
pub open spec fn element_cost() -> spec_fn((u32, i32, Seq<u32>)) -> nat {
    |e: (u32, i32, Seq<u32>)| 32 + 8 * e.2.len()
}

/// A bound on the bytes of a function body: its size, its locals and its
/// instructions, none of which takes more than 16 bytes.
pub open spec fn code_cost() -> spec_fn((Seq<(u32, ValTy)>, Seq<Instr>)) -> nat {
    |e: (Seq<(u32, ValTy)>, Seq<Instr>)| 16 + 16 * e.0.len() + 16 * e.1.len()
}

/// A bound on the bytes of a data segment: a header, an offset expression
/// and the bytes after their length.
pub open spec fn data_cost() -> spec_fn((u32, i32, Seq<u8>)) -> nat {
    |e: (u32, i32, Seq<u8>)| 32 + e.2.len()
}

/// A bound on the bytes of a section's contents (without its count).
pub open spec fn section_size(s: SectionV) -> nat {
    match s {
        SectionV::Types(es) => total(es, type_cost()),
        SectionV::Imports(es) => total(es, import_cost()),
        SectionV::Functions(es) => 8 * es.len(),
        SectionV::Tables(es) => 32 * es.len(),
        SectionV::Memories(es) => 16 * es.len(),
        SectionV::Globals(es) => 16 * es.len(),
        SectionV::Exports(es) => total(es, export_cost()),
        SectionV::Elements(es) => total(es, element_cost()),
        SectionV::Code(es) => total(es, code_cost()),
        SectionV::Data(es) => total(es, data_cost()),
    }
}

/// Whether `wasm_encoder` can write the section: its size bound leaves room
/// for the entry count within a `u32`.
pub open spec fn section_fits(s: SectionV) -> bool {
    section_size(s) <= SECTION_LIMIT
}

/// Adding an item adds its cost.
pub proof fn lemma_total_push<T>(s: Seq<T>, x: T, cost: spec_fn(T) -> nat)
    ensures
        total(s.push(x), cost) == total(s, cost) + cost(x),
{
    assert(s.push(x).drop_last() =~= s);
}

/// `after` is `before` with one more instruction `i` at the end of its body.
pub open spec fn appended(before: Function, after: Function, i: Instr) -> bool {
    &&& function_locals(after) == function_locals(before)
    &&& function_body(after) == function_body(before).push(i)
}

/// Converts a value type (`ValType::I32`, `ValType::EXTERNREF`, or a
/// nullable `HeapType::Concrete` reference).
#[verifier::external_body]
fn val_type(t: ValTy) -> ValType {
    match t {
        ValTy::I32 => ValType::I32,
        ValTy::ExternRef => ValType::EXTERNREF,
        ValTy::StateRef(i) => ValType::Ref(RefType { nullable: true, heap_type: HeapType::Concrete(i) }),
    }
}

/// Converts an export kind (`ExportKind::Func`, `Table` or `Memory`).
#[verifier::external_body]
fn export_kind(k: ExportTarget) -> ExportKind {
    match k {
        ExportTarget::Func => ExportKind::Func,
        ExportTarget::Table => ExportKind::Table,
        ExportTarget::Memory => ExportKind::Memory,
    }
}

/// `Function::new`: an empty body with the given local declarations. It
/// writes their count as a `u32` and panics past it.
#[verifier::external_body]
fn function_new(locals: &Vec<(u32, ValTy)>) -> (f: Function)
    requires
        locals@.len() <= u32::MAX,
    ensures
        function_locals(f) == locals@,
        function_body(f) == Seq::<Instr>::empty(),
{
    Function::new(locals.iter().map(|l| (l.0, val_type(l.1))))
}

/// `InstructionSink::i32_const`.
#[verifier::external_body]
fn sink_i32_const(f: &mut Function, v: i32)
    ensures
        appended(*old(f), *final(f), Instr::I32Const(v)),
{
    f.instructions().i32_const(v);
}

/// `InstructionSink::local_get`.
#[verifier::external_body]
fn sink_local_get(f: &mut Function, l: u32)
    ensures
        appended(*old(f), *final(f), Instr::LocalGet(l)),
{
    f.instructions().local_get(l);
}

/// `InstructionSink::local_set`.
#[verifier::external_body]
fn sink_local_set(f: &mut Function, l: u32)
    ensures
        appended(*old(f), *final(f), Instr::LocalSet(l)),
{
    f.instructions().local_set(l);
}

/// `InstructionSink::global_get`.
#[verifier::external_body]
fn sink_global_get(f: &mut Function, g: u32)
    ensures
        appended(*old(f), *final(f), Instr::GlobalGet(g)),
{
    f.instructions().global_get(g);
}

/// `InstructionSink::global_set`.
#[verifier::external_body]
fn sink_global_set(f: &mut Function, g: u32)
    ensures
        appended(*old(f), *final(f), Instr::GlobalSet(g)),
{
    f.instructions().global_set(g);
}

/// `InstructionSink::call`.
#[verifier::external_body]
fn sink_call(f: &mut Function, i: u32)
    ensures
        appended(*old(f), *final(f), Instr::Call(i)),
{
    f.instructions().call(i);
}

/// `InstructionSink::struct_new`.
#[verifier::external_body]
fn sink_struct_new(f: &mut Function, t: u32)
    ensures
        appended(*old(f), *final(f), Instr::StructNew(t)),
{
    f.instructions().struct_new(t);
}

/// `InstructionSink::struct_get`.
#[verifier::external_body]
fn sink_struct_get(f: &mut Function, t: u32, field: u32)
    ensures
        appended(*old(f), *final(f), Instr::StructGet { struct_type_index: t, field_index: field }),
{
    f.instructions().struct_get(t, field);
}

/// `InstructionSink::struct_set`.
#[verifier::external_body]
fn sink_struct_set(f: &mut Function, t: u32, field: u32)
    ensures
        appended(*old(f), *final(f), Instr::StructSet { struct_type_index: t, field_index: field }),
{
    f.instructions().struct_set(t, field);
}

/// `InstructionSink::ref_null` of the abstract `extern` heap type.
#[verifier::external_body]
fn sink_ref_null_extern(f: &mut Function)
    ensures
        appended(*old(f), *final(f), Instr::RefNullExtern),
{
    f.instructions().ref_null(RefType::EXTERNREF.heap_type);
}

/// `InstructionSink::if_` with an empty block type.
#[verifier::external_body]
fn sink_if_empty(f: &mut Function)
    ensures
        appended(*old(f), *final(f), Instr::IfEmpty),
{
    f.instructions().if_(BlockType::Empty);
}

/// `InstructionSink::end`.
#[verifier::external_body]
fn sink_end(f: &mut Function)
    ensures
        appended(*old(f), *final(f), Instr::End),
{
    f.instructions().end();
}

/// `InstructionSink::drop`.
#[verifier::external_body]
fn sink_drop(f: &mut Function)
    ensures
        appended(*old(f), *final(f), Instr::Drop),
{
    f.instructions().drop();
}

/// `InstructionSink::i32_add`.
#[verifier::external_body]
fn sink_i32_add(f: &mut Function)
    ensures
        appended(*old(f), *final(f), Instr::I32Add),
{
    f.instructions().i32_add();
}

/// `InstructionSink::i32_sub`.
#[verifier::external_body]
fn sink_i32_sub(f: &mut Function)
    ensures
        appended(*old(f), *final(f), Instr::I32Sub),
{
    f.instructions().i32_sub();
}

/// `InstructionSink::i32_mul`.
#[verifier::external_body]
fn sink_i32_mul(f: &mut Function)
    ensures
        appended(*old(f), *final(f), Instr::I32Mul),
{
    f.instructions().i32_mul();
}

/// `InstructionSink::i32_div_s`.
#[verifier::external_body]
fn sink_i32_div_s(f: &mut Function)
    ensures
        appended(*old(f), *final(f), Instr::I32DivS),
{
    f.instructions().i32_div_s();
}

/// `InstructionSink::i32_rem_s`.
#[verifier::external_body]
fn sink_i32_rem_s(f: &mut Function)
    ensures
        appended(*old(f), *final(f), Instr::I32RemS),
{
    f.instructions().i32_rem_s();
}

/// `InstructionSink::i32_eq`.
#[verifier::external_body]
fn sink_i32_eq(f: &mut Function)
    ensures
        appended(*old(f), *final(f), Instr::I32Eq),
{
    f.instructions().i32_eq();
}

/// `InstructionSink::i32_ne`.
#[verifier::external_body]
fn sink_i32_ne(f: &mut Function)
    ensures
        appended(*old(f), *final(f), Instr::I32Ne),
{
    f.instructions().i32_ne();
}

/// `InstructionSink::i32_lt_s`.
#[verifier::external_body]
fn sink_i32_lt_s(f: &mut Function)
    ensures
        appended(*old(f), *final(f), Instr::I32LtS),
{
    f.instructions().i32_lt_s();
}

/// `InstructionSink::i32_le_s`.
#[verifier::external_body]
fn sink_i32_le_s(f: &mut Function)
    ensures
        appended(*old(f), *final(f), Instr::I32LeS),
{
    f.instructions().i32_le_s();
}

/// `InstructionSink::i32_gt_s`.
#[verifier::external_body]
fn sink_i32_gt_s(f: &mut Function)
    ensures
        appended(*old(f), *final(f), Instr::I32GtS),
{
    f.instructions().i32_gt_s();
}

/// `InstructionSink::i32_ge_s`.
#[verifier::external_body]
fn sink_i32_ge_s(f: &mut Function)
    ensures
        appended(*old(f), *final(f), Instr::I32GeS),
{
    f.instructions().i32_ge_s();
}

/// `InstructionSink::i32_and`.
#[verifier::external_body]
fn sink_i32_and(f: &mut Function)
    ensures
        appended(*old(f), *final(f), Instr::I32And),
{
    f.instructions().i32_and();
}

/// `InstructionSink::i32_or`.
#[verifier::external_body]
fn sink_i32_or(f: &mut Function)
    ensures
        appended(*old(f), *final(f), Instr::I32Or),
{
    f.instructions().i32_or();
}

/// `InstructionSink::i32_eqz`.
#[verifier::external_body]
fn sink_i32_eqz(f: &mut Function)
    ensures
        appended(*old(f), *final(f), Instr::I32Eqz),
{
    f.instructions().i32_eqz();
}

/// Writes one instruction at the end of a function body.
pub fn emit(f: &mut Function, i: Instr)
    ensures
        appended(*old(f), *final(f), i),
{
    match i {
        Instr::I32Const(v) => sink_i32_const(f, v),
        Instr::LocalGet(l) => sink_local_get(f, l),
        Instr::LocalSet(l) => sink_local_set(f, l),
        Instr::GlobalGet(g) => sink_global_get(f, g),
        Instr::GlobalSet(g) => sink_global_set(f, g),
        Instr::Call(c) => sink_call(f, c),
        Instr::StructNew(t) => sink_struct_new(f, t),
        Instr::StructGet { struct_type_index, field_index } => sink_struct_get(f, struct_type_index, field_index),
        Instr::StructSet { struct_type_index, field_index } => sink_struct_set(f, struct_type_index, field_index),
        Instr::RefNullExtern => sink_ref_null_extern(f),
        Instr::IfEmpty => sink_if_empty(f),
        Instr::End => sink_end(f),
        Instr::Drop => sink_drop(f),
        Instr::I32Add => sink_i32_add(f),
        Instr::I32Sub => sink_i32_sub(f),
        Instr::I32Mul => sink_i32_mul(f),
        Instr::I32DivS => sink_i32_div_s(f),
        Instr::I32RemS => sink_i32_rem_s(f),
        Instr::I32Eq => sink_i32_eq(f),
        Instr::I32Ne => sink_i32_ne(f),
        Instr::I32LtS => sink_i32_lt_s(f),
        Instr::I32LeS => sink_i32_le_s(f),
        Instr::I32GtS => sink_i32_gt_s(f),
        Instr::I32GeS => sink_i32_ge_s(f),
        Instr::I32And => sink_i32_and(f),
        Instr::I32Or => sink_i32_or(f),
        Instr::I32Eqz => sink_i32_eqz(f),
    }
}

/// A function body with the given locals and exactly the given instructions.
pub fn encode_function(locals: &Vec<(u32, ValTy)>, body: &Vec<Instr>) -> (f: Function)
    requires
        locals@.len() <= u32::MAX,
    ensures
        function_locals(f) == locals@,
        function_body(f) == body@,
{
    let mut f = function_new(locals);
    let mut i: usize = 0;
    while i < body.len()
        invariant
            i <= body@.len(),
            function_locals(f) == locals@,
            function_body(f) == body@.subrange(0, i as int),
        decreases body@.len() - i,
    {
        emit(&mut f, body[i]);
        assert(body@.subrange(0, i + 1) =~= body@.subrange(0, i as int).push(body@[i as int]));
        i += 1;
    }
    assert(body@.subrange(0, i as int) =~= body@);
    f
}

/// `TypeSection::new`.
#[verifier::external_body]
pub(crate) fn type_section_new() -> (s: TypeSection)
    ensures
        type_entries(s) == Seq::<TypeEntry>::empty(),
{
    TypeSection::new()
}

/// `CoreTypeEncoder::function`: adds a function type. The section counts its
/// entries, and each list its items, in a `u32`.
#[verifier::external_body]
pub(crate) fn type_section_function(s: &mut TypeSection, params: &Vec<ValTy>, results: &Vec<ValTy>)
    requires
        type_entries(*old(s)).len() < u32::MAX,
        params@.len() <= u32::MAX,
        results@.len() <= u32::MAX,
    ensures
        type_entries(*final(s)) == type_entries(*old(s)).push(TypeEntry::Func(params@, results@)),
{
    s.ty().function(params.iter().map(|t| val_type(*t)), results.iter().map(|t| val_type(*t)));
}

/// `CoreTypeEncoder::subtype`: adds a final struct type, without supertype
/// and not shared, whose fields are mutable and of the given types. The
/// section counts its entries, and the struct its fields, in a `u32`.
#[verifier::external_body]
pub(crate) fn type_section_struct(s: &mut TypeSection, fields: &Vec<ValTy>)
    requires
        type_entries(*old(s)).len() < u32::MAX,
        fields@.len() <= u32::MAX,
    ensures
        type_entries(*final(s)) == type_entries(*old(s)).push(TypeEntry::Struct(fields@)),
{
    let fields: Box<[FieldType]> = fields.iter().map(
        |t| FieldType { element_type: StorageType::Val(val_type(*t)), mutable: true },
    ).collect();
    let inner = CompositeInnerType::Struct(StructType { fields });
    let composite_type = CompositeType { inner, shared: false, descriptor: None, describes: None };
    s.ty().subtype(&SubType { is_final: true, supertype_idxs: Vec::new(), composite_type });
}

/// `ImportSection::new`.
#[verifier::external_body]
pub(crate) fn import_section_new() -> (s: ImportSection)
    ensures
        import_entries(s) == Seq::<(Seq<char>, Seq<char>, u32)>::empty(),
{
    ImportSection::new()
}

/// `ImportSection::import` of a function of the given type. The section
/// counts its entries in a `u32`, and each string's UTF-8 length is written as
/// a `u32` (past it, the call panics).
#[verifier::external_body]
pub(crate) fn import_section_function(s: &mut ImportSection, module: &str, name: &str, type_index: u32)
    requires
        import_entries(*old(s)).len() < u32::MAX,
        utf8(module@).len() <= u32::MAX,
        utf8(name@).len() <= u32::MAX,
    ensures
        import_entries(*final(s)) == import_entries(*old(s)).push((module@, name@, type_index)),
{
    s.import(module, name, EntityType::Function(type_index));
}

/// `FunctionSection::new`.
#[verifier::external_body]
pub(crate) fn function_section_new() -> (s: FunctionSection)
    ensures
        function_entries(s) == Seq::<u32>::empty(),
{
    FunctionSection::new()
}

/// `FunctionSection::function`. The section counts its entries in a `u32`.
#[verifier::external_body]
pub(crate) fn function_section_add(s: &mut FunctionSection, type_index: u32)
    requires
        function_entries(*old(s)).len() < u32::MAX,
    ensures
        function_entries(*final(s)) == function_entries(*old(s)).push(type_index),
{
    s.function(type_index);
}

/// `TableSection::new` then `TableSection::table` of a 32-bit, unshared
/// `funcref` table with the given limits.
#[verifier::external_body]
pub(crate) fn table_section_funcref(minimum: u64, maximum: u64) -> (s: TableSection)
    ensures
        table_entries(s) == seq![(minimum, maximum)],
{
    let mut s = TableSection::new();
    let t = TableType { element_type: RefType::FUNCREF, minimum, maximum: Some(maximum), shared: false, table64: false };
    s.table(t);
    s
}

/// `MemorySection::new` then `MemorySection::memory` of a 32-bit, unshared
/// memory with default page size, the given minimum and no maximum.
#[verifier::external_body]
pub(crate) fn memory_section_one(minimum: u64) -> (s: MemorySection)
    ensures
        memory_entries(s) == seq![minimum],
{
    let mut s = MemorySection::new();
    s.memory(MemoryType { minimum, maximum: None, memory64: false, shared: false, page_size_log2: None });
    s
}

/// `GlobalSection::new` then `GlobalSection::global` of a mutable, unshared
/// global of nullable reference to the given concrete type, initialised by
/// `ref.null` of that type.
#[verifier::external_body]
pub(crate) fn global_section_state(type_index: u32) -> (s: GlobalSection)
    ensures
        global_entries(s) == seq![type_index],
{
    let mut s = GlobalSection::new();
    let heap_type = HeapType::Concrete(type_index);
    let val_type = ValType::Ref(RefType { nullable: true, heap_type });
    s.global(GlobalType { val_type, mutable: true, shared: false }, &ConstExpr::ref_null(heap_type));
    s
}

/// `ExportSection::new`.
#[verifier::external_body]
pub(crate) fn export_section_new() -> (s: ExportSection)
    ensures
        export_entries(s) == Seq::<(Seq<char>, ExportTarget, u32)>::empty(),
{
    ExportSection::new()
}

/// `ExportSection::export`. The section counts its entries in a `u32`, and
/// the name's UTF-8 length is written as a `u32` (past it, the call panics).
#[verifier::external_body]
pub(crate) fn export_section_add(s: &mut ExportSection, name: &str, kind: ExportTarget, index: u32)
    requires
        export_entries(*old(s)).len() < u32::MAX,
        utf8(name@).len() <= u32::MAX,
    ensures
        export_entries(*final(s)) == export_entries(*old(s)).push((name@, kind, index)),
{
    s.export(name, export_kind(kind), index);
}

/// `ElementSection::new` then `ElementSection::active` of the given function
/// indices into the given table at `i32.const offset`; their count is
/// written as a `u32` (past it, the call panics).
#[verifier::external_body]
pub(crate) fn element_section_functions(table: u32, offset: i32, funcs: &Vec<u32>) -> (s: ElementSection)
    requires
        funcs@.len() <= u32::MAX,
    ensures
        element_entries(s) == seq![(table, offset, funcs@)],
{
    let mut s = ElementSection::new();
    s.active(Some(table), &ConstExpr::i32_const(offset), Elements::Functions(Cow::Borrowed(funcs.as_slice())));
    s
}

/// `CodeSection::new`.
#[verifier::external_body]
pub(crate) fn code_section_new() -> (s: CodeSection)
    ensures
        code_entries(s) == Seq::<(Seq<(u32, ValTy)>, Seq<Instr>)>::empty(),
{
    CodeSection::new()
}

/// `CodeSection::function`: adds the body of `f`. The section counts its
/// entries in a `u32`, and the body's size, which `code_cost` bounds, is
/// written as a `u32` (past it, the call panics).
#[verifier::external_body]
pub(crate) fn code_section_add(s: &mut CodeSection, f: &Function)
    requires
        code_entries(*old(s)).len() < u32::MAX,
        code_cost()((function_locals(*f), function_body(*f))) <= u32::MAX,
    ensures
        code_entries(*final(s)) == code_entries(*old(s)).push((function_locals(*f), function_body(*f))),
{
    s.function(f);
}

/// `DataSection::new` then `DataSection::active` of the given bytes into the
/// given memory at `i32.const offset`; their count is written as a `u32`
/// (past it, the call panics).
#[verifier::external_body]
pub(crate) fn data_section_bytes(memory: u32, offset: i32, bytes: &[u8]) -> (s: DataSection)
    requires
        bytes@.len() <= u32::MAX,
    ensures
        data_entries(s) == seq![(memory, offset, bytes@)],
{
    let mut s = DataSection::new();
    s.active(memory, &ConstExpr::i32_const(offset), bytes.iter().copied());
    s
}

/// `Module::new`.
#[verifier::external_body]
pub(crate) fn module_new() -> (m: Module)
    ensures
        module_sections(m) == Seq::<SectionV>::empty(),
{
    Module::new()
}

/// `Module::section` with a type section.
/// The section's size and count are written as a `u32` (past it, the call
/// panics); `section_fits` keeps within it, see `section_size`.
#[verifier::external_body]
pub(crate) fn module_types(m: &mut Module, s: &TypeSection)
    requires
        section_fits(SectionV::Types(type_entries(*s))),
    ensures
        module_sections(*final(m)) == module_sections(*old(m)).push(SectionV::Types(type_entries(*s))),
{
    m.section(s);
}

/// `Module::section` with an import section.
/// The section's size and count are written as a `u32` (past it, the call
/// panics); `section_fits` keeps within it, see `section_size`.
#[verifier::external_body]
pub(crate) fn module_imports(m: &mut Module, s: &ImportSection)
    requires
        section_fits(SectionV::Imports(import_entries(*s))),
    ensures
        module_sections(*final(m)) == module_sections(*old(m)).push(SectionV::Imports(import_entries(*s))),
{
    m.section(s);
}

/// `Module::section` with a function section.
/// The section's size and count are written as a `u32` (past it, the call
/// panics); `section_fits` keeps within it, see `section_size`.
#[verifier::external_body]
pub(crate) fn module_functions(m: &mut Module, s: &FunctionSection)
    requires
        section_fits(SectionV::Functions(function_entries(*s))),
    ensures
        module_sections(*final(m)) == module_sections(*old(m)).push(SectionV::Functions(function_entries(*s))),
{
    m.section(s);
}

/// `Module::section` with a table section.
#[verifier::external_body]
pub(crate) fn module_tables(m: &mut Module, s: &TableSection)
    ensures
        module_sections(*final(m)) == module_sections(*old(m)).push(SectionV::Tables(table_entries(*s))),
{
    m.section(s);
}

/// `Module::section` with a memory section.
#[verifier::external_body]
pub(crate) fn module_memories(m: &mut Module, s: &MemorySection)
    ensures
        module_sections(*final(m)) == module_sections(*old(m)).push(SectionV::Memories(memory_entries(*s))),
{
    m.section(s);
}

/// `Module::section` with a global section.
#[verifier::external_body]
pub(crate) fn module_globals(m: &mut Module, s: &GlobalSection)
    ensures
        module_sections(*final(m)) == module_sections(*old(m)).push(SectionV::Globals(global_entries(*s))),
{
    m.section(s);
}

/// `Module::section` with an export section.
/// The section's size and count are written as a `u32` (past it, the call
/// panics); `section_fits` keeps within it, see `section_size`.
#[verifier::external_body]
pub(crate) fn module_exports(m: &mut Module, s: &ExportSection)
    requires
        section_fits(SectionV::Exports(export_entries(*s))),
    ensures
        module_sections(*final(m)) == module_sections(*old(m)).push(SectionV::Exports(export_entries(*s))),
{
    m.section(s);
}

/// `Module::section` with an element section.
/// The section's size and count are written as a `u32` (past it, the call
/// panics); `section_fits` keeps within it, see `section_size`.
#[verifier::external_body]
pub(crate) fn module_elements(m: &mut Module, s: &ElementSection)
    requires
        section_fits(SectionV::Elements(element_entries(*s))),
    ensures
        module_sections(*final(m)) == module_sections(*old(m)).push(SectionV::Elements(element_entries(*s))),
{
    m.section(s);
}

/// `Module::section` with a code section.
/// The section's size and count are written as a `u32` (past it, the call
/// panics); `section_fits` keeps within it, see `section_size`.
#[verifier::external_body]
pub(crate) fn module_code(m: &mut Module, s: &CodeSection)
    requires
        section_fits(SectionV::Code(code_entries(*s))),
    ensures
        module_sections(*final(m)) == module_sections(*old(m)).push(SectionV::Code(code_entries(*s))),
{
    m.section(s);
}

/// `Module::section` with a data section.
/// The section's size and count are written as a `u32` (past it, the call
/// panics); `section_fits` keeps within it, see `section_size`.
#[verifier::external_body]
pub(crate) fn module_data(m: &mut Module, s: &DataSection)
    requires
        section_fits(SectionV::Data(data_entries(*s))),
    ensures
        module_sections(*final(m)) == module_sections(*old(m)).push(SectionV::Data(data_entries(*s))),
{
    m.section(s);
}

/// `Module::finish`: the encoded module.
#[verifier::external_body]
pub(crate) fn module_finish(m: Module) -> (bytes: Vec<u8>)
    ensures
        bytes@ == module_binary(module_sections(m)),
{
    m.finish()
}

} // verus!
