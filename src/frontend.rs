//! Reading a binary module section by section through wasmparser-nostd, and
//! compiling it: the type and symbol tables, one function body at a time,
//! then final assembly and the module's tables.
use vstd::prelude::*;
use wasmparser_nostd::{
    BinaryReaderError, Chunk, ExportSectionReader, ExternalKind, FunctionBody,
    FunctionSectionReader, ImportSectionEntryType, ImportSectionReader, LocalsReader, Operator,
    OperatorsReader, Parser, Payload, SectionIteratorLimited, LocalsIterator, Type, TypeDef,
    TypeSectionReader,
};
use crate::codegen::{
    compile_function, function_code, label_count, lemma_function_labels, lemma_label_count_concat,
    CodeContext,
};
use crate::emit::{
    assemble, assembles, data_at_labels, emittable, label_offset_of, machine_code,
};
use crate::module::{slots_fit, slots_hold, AssembledModule, ImportDescriptor, Module};
use crate::types::{Error, FuncSig, Inst, Op, ValType, SENTINEL};

verus! {

#[verifier::external_type_specification]
#[verifier::external_body]
pub struct ExParser(Parser);

#[verifier::external_type_specification]
#[verifier::external_body]
pub struct ExBinaryReaderError(BinaryReaderError);

#[verifier::external_type_specification]
#[verifier::external_body]
pub struct ExChunk<'a>(Chunk<'a>);

#[verifier::external_type_specification]
pub struct ExType(Type);

#[verifier::external_type_specification]
#[verifier::external_body]
pub struct ExTypeSectionReader<'a>(TypeSectionReader<'a>);

#[verifier::external_type_specification]
#[verifier::external_body]
pub struct ExImportSectionReader<'a>(ImportSectionReader<'a>);

#[verifier::external_type_specification]
#[verifier::external_body]
pub struct ExFunctionSectionReader<'a>(FunctionSectionReader<'a>);

#[verifier::external_type_specification]
#[verifier::external_body]
pub struct ExExportSectionReader<'a>(ExportSectionReader<'a>);

#[verifier::external_type_specification]
#[verifier::external_body]
pub struct ExFunctionBody<'a>(FunctionBody<'a>);

#[verifier::external_type_specification]
#[verifier::external_body]
pub struct ExLocalsIterator<'a>(LocalsIterator<'a>);

#[verifier::external_type_specification]
#[verifier::external_body]
pub struct ExOperatorsReader<'a>(OperatorsReader<'a>);

/// wasmparser's iterator over a type section.
#[verifier::external_body]
pub struct TypeItems<'a> {
    inner: SectionIteratorLimited<TypeSectionReader<'a>>,
}

/// wasmparser's iterator over a import section.
#[verifier::external_body]
pub struct ImportItems<'a> {
    inner: SectionIteratorLimited<ImportSectionReader<'a>>,
}

/// wasmparser's iterator over a function section.
#[verifier::external_body]
pub struct FunctionItems<'a> {
    inner: SectionIteratorLimited<FunctionSectionReader<'a>>,
}

/// wasmparser's iterator over a export section.
#[verifier::external_body]
pub struct ExportItems<'a> {
    inner: SectionIteratorLimited<ExportSectionReader<'a>>,
}

/// The sections that compilation reads; every other kind is skipped.
pub enum Section<'a> {
    Types(TypeItems<'a>),
    Imports(ImportItems<'a>),
    Functions(FunctionItems<'a>),
    Exports(ExportItems<'a>),
    Code(FunctionBody<'a>),
    Skipped,
    End,
    Incomplete,
}

/// wasmparser's parser together with the rest of the module's bytes.
#[verifier::external_body]
pub struct ModuleReader<'a> {
    parser: Parser,
    rest: &'a [u8],
}

/// What one payload of a module holds, as its readers yield it. Each entry
/// is `None` where reading it fails.
pub enum PayloadInfo {
    /// Each type definition: a function type's parameter and result types,
    /// or `None` for another kind of definition.
    Types(Seq<Option<Option<(Seq<Type>, Seq<Type>)>>>),
    /// Each import: module name, field name, and the type index of a function import.
    Imports(Seq<Option<(Seq<char>, Option<Seq<char>>, Option<u32>)>>),
    /// Each declared function's type index.
    Functions(Seq<Option<u32>>),
    /// Each export: its name, and the index of an exported function.
    Exports(Seq<Option<(Seq<char>, Option<u32>)>>),
    /// One function body: its runs of locals and its operators, each `None`
    /// where its reader cannot be had.
    Code(Option<Seq<Option<(u32, Type)>>>, Option<Seq<Option<Op>>>),
    /// A payload that compilation skips.
    Skipped,
    /// The end of the module.
    End,
    /// The parser failed here.
    Fails,
}

/// The payloads that wasmparser's `Parser` yields for a module's bytes, each
/// call given the rest of the input with `eof` set, up to and including the
/// first `End` or failure; this depends on the bytes alone.
pub uninterp spec fn module_payloads(bytes: Seq<u8>) -> Seq<PayloadInfo>;

/// The payloads that a module reader has still to yield.
pub uninterp spec fn payloads_left(m: ModuleReader) -> Seq<PayloadInfo>;

/// What a type section's iterator yields from here on, each entry `None`
/// where reading fails (a failure is the last entry); trailing bytes after
/// the last definition count as a failure.
pub uninterp spec fn type_entries(it: TypeItems) -> Seq<Option<Option<(Seq<Type>, Seq<Type>)>>>;

/// What an import section's iterator yields from here on, as for types.
pub uninterp spec fn import_entries(it: ImportItems) -> Seq<Option<(Seq<char>, Option<Seq<char>>, Option<u32>)>>;

/// What a function section's iterator yields from here on, as for types.
pub uninterp spec fn function_entries(it: FunctionItems) -> Seq<Option<u32>>;

/// What an export section's iterator yields from here on, as for types.
pub uninterp spec fn export_entries(it: ExportItems) -> Seq<Option<(Seq<char>, Option<u32>)>>;

/// What the locals reader of a body yields, if the reader can be had.
pub uninterp spec fn body_locals(b: FunctionBody) -> Option<Seq<Option<(u32, Type)>>>;

/// What the operators reader of a body yields up to its end, if the reader can be had.
pub uninterp spec fn body_operators(b: FunctionBody) -> Option<Seq<Option<Op>>>;

/// What a locals iterator yields from here on, each entry `None` where
/// reading fails (a failure is the last entry).
pub uninterp spec fn local_runs(it: LocalsIterator) -> Seq<Option<(u32, Type)>>;

/// What an operators reader's successive reads yield up to its end.
pub uninterp spec fn operators_left(r: OperatorsReader) -> Seq<Option<Op>>;

/// A payload stream ends with its only `End` or failure.
pub open spec fn stream_shape(ps: Seq<PayloadInfo>) -> bool {
    &&& ps.len() > 0
    &&& ps.last() is End || ps.last() is Fails
    &&& forall|i: int| 0 <= i < ps.len() - 1 ==> !(#[trigger] ps[i] is End) && !(ps[i] is Fails)
}

pub open spec fn opt_chars(s: Option<String>) -> Option<Seq<char>> {
    match s {
        Some(t) => Some(t@),
        None => None,
    }
}

pub open spec fn section_matches(r: Result<Section, BinaryReaderError>, info: PayloadInfo) -> bool {
    match r {
        Err(_) => info is Fails,
        Ok(Section::Types(t)) => info == PayloadInfo::Types(type_entries(t)),
        Ok(Section::Imports(t)) => info == PayloadInfo::Imports(import_entries(t)),
        Ok(Section::Functions(t)) => info == PayloadInfo::Functions(function_entries(t)),
        Ok(Section::Exports(t)) => info == PayloadInfo::Exports(export_entries(t)),
        Ok(Section::Code(b)) => info == PayloadInfo::Code(body_locals(b), body_operators(b)),
        Ok(Section::Skipped) => info is Skipped,
        Ok(Section::End) => info is End,
        Ok(Section::Incomplete) => info is Fails,
    }
}

/// Relies on `Parser::new(0)`: a parser at the start of `bytes`, which will
/// yield the payloads of `module_payloads`.
#[verifier::external_body]
fn open_module<'a>(bytes: &'a [u8]) -> (m: ModuleReader<'a>)
    ensures
        payloads_left(m) == module_payloads(bytes@),
        stream_shape(payloads_left(m)),
{
    ModuleReader { parser: Parser::new(0), rest: bytes }
}

/// Tells the payloads of a parsed chunk apart, each section as its iterator.
#[verifier::external_body]
fn classify<'a>(c: Chunk<'a>) -> (usize, Section<'a>) {
    match c {
        Chunk::NeedMoreData(_) => (0, Section::Incomplete),
        Chunk::Parsed { consumed, payload } => (consumed, match payload {
            Payload::TypeSection(r) => Section::Types(TypeItems { inner: r.into_iter() }),
            Payload::ImportSection(r) => Section::Imports(ImportItems { inner: r.into_iter() }),
            Payload::FunctionSection(r) => Section::Functions(FunctionItems { inner: r.into_iter() }),
            Payload::ExportSection(r) => Section::Exports(ExportItems { inner: r.into_iter() }),
            Payload::CodeSectionEntry(b) => Section::Code(b),
            Payload::End => Section::End,
            _ => Section::Skipped,
        }),
    }
}

/// Relies on `Parser::parse` with the rest of the input and `eof` set: the
/// next payload, after which the reader holds the input past it.
#[verifier::external_body]
fn next_payload<'a>(m: &mut ModuleReader<'a>) -> (r: Result<Section<'a>, BinaryReaderError>)
    requires
        payloads_left(*old(m)).len() > 0,
    ensures
        payloads_left(*final(m)) == payloads_left(*old(m)).drop_first(),
        section_matches(r, payloads_left(*old(m))[0]),
{
    let (consumed, section) = classify(m.parser.parse(m.rest, true)?);
    m.rest = &m.rest[consumed..];
    Ok(section)
}

/// The kind the compiler makes of one of the format's value types.
pub open spec fn kind_of(t: Type) -> ValType {
    match t {
        Type::I32 => ValType::I32,
        Type::I64 => ValType::I64,
        Type::F32 => ValType::F32,
        Type::F64 => ValType::F64,
        _ => ValType::Other,
    }
}

pub open spec fn kinds_of(ts: Seq<Type>) -> Seq<ValType> {
    Seq::new(ts.len(), |i: int| kind_of(ts[i]))
}

fn val_type(t: &Type) -> (r: ValType)
    ensures
        r == kind_of(*t),
{
    match t {
        Type::I32 => ValType::I32,
        Type::I64 => ValType::I64,
        Type::F32 => ValType::F32,
        Type::F64 => ValType::F64,
        _ => ValType::Other,
    }
}

/// Relies on `SectionIteratorLimited::next` over a type section: `None` once
/// the section is done and its end checked, otherwise the next entry or the failure to read it.
#[verifier::external_body]
fn next_type(it: &mut TypeItems) -> (r: Option<Result<Option<(Vec<Type>, Vec<Type>)>, BinaryReaderError>>)
    ensures
        r is None <==> type_entries(*old(it)).len() == 0,
        r is Some ==> type_entries(*final(it)) == type_entries(*old(it)).drop_first(),
        match r {
            Some(Ok(Some((p, q)))) => type_entries(*old(it))[0] == Some(Some((p@, q@))),
            Some(Ok(None)) => type_entries(*old(it))[0] == Some(None::<(Seq<Type>, Seq<Type>)>),
            Some(Err(_)) => type_entries(*old(it))[0] is None,
            None => true,
        },
{
    Some(match it.inner.next()? {
        Ok(TypeDef::Func(f)) => Ok(Some((f.params.into_vec(), f.returns.into_vec()))),
        Ok(_) => Ok(None),
        Err(e) => Err(e),
    })
}

/// Relies on `SectionIteratorLimited::next` over an import section: `None` once
/// the section is done and its end checked, otherwise the next entry
/// (an import as module name, field name, and the type index where it is a function) or the failure to read it.
#[verifier::external_body]
fn next_import(it: &mut ImportItems) -> (r: Option<Result<(String, Option<String>, Option<u32>), BinaryReaderError>>)
    ensures
        r is None <==> import_entries(*old(it)).len() == 0,
        r is Some ==> import_entries(*final(it)) == import_entries(*old(it)).drop_first(),
        match r {
            Some(Ok((module, field, ty))) => import_entries(*old(it))[0] == Some((module@, opt_chars(field), ty)),
            Some(Err(_)) => import_entries(*old(it))[0] is None,
            None => true,
        },
{
    Some(match it.inner.next()? {
        Ok(i) => Ok((i.module.to_owned(), i.field.map(str::to_owned), match i.ty {
            ImportSectionEntryType::Function(t) => Some(t),
            _ => None,
        })),
        Err(e) => Err(e),
    })
}

/// Relies on `SectionIteratorLimited::next` over a function section: `None` once
/// the section is done and its end checked, otherwise the next entry
/// (a declared function's type index) or the failure to read it.
#[verifier::external_body]
fn next_function(it: &mut FunctionItems) -> (r: Option<Result<u32, BinaryReaderError>>)
    ensures
        r is None <==> function_entries(*old(it)).len() == 0,
        r is Some ==> function_entries(*final(it)) == function_entries(*old(it)).drop_first(),
        match r {
            Some(Ok(t)) => function_entries(*old(it))[0] == Some(t),
            Some(Err(_)) => function_entries(*old(it))[0] is None,
            None => true,
        },
{
    it.inner.next()
}

/// Relies on `SectionIteratorLimited::next` over an export section: `None` once
/// the section is done and its end checked, otherwise the next entry
/// (an export as its name and the index where it is a function) or the failure to read it.
#[verifier::external_body]
fn next_export(it: &mut ExportItems) -> (r: Option<Result<(String, Option<u32>), BinaryReaderError>>)
    ensures
        r is None <==> export_entries(*old(it)).len() == 0,
        r is Some ==> export_entries(*final(it)) == export_entries(*old(it)).drop_first(),
        match r {
            Some(Ok((name, index))) => export_entries(*old(it))[0] == Some((name@, index)),
            Some(Err(_)) => export_entries(*old(it))[0] is None,
            None => true,
        },
{
    Some(match it.inner.next()? {
        Ok(e) => Ok((e.field.to_owned(), match e.kind {
            ExternalKind::Function => Some(e.index),
            _ => None,
        })),
        Err(e) => Err(e),
    })
}

/// Relies on `FunctionBody::get_locals_reader`, as an iterator over the
/// runs of locals.
#[verifier::external_body]
fn locals_reader<'a>(b: &FunctionBody<'a>) -> (res: Result<LocalsIterator<'a>, BinaryReaderError>)
    ensures
        match res {
            Ok(lr) => body_locals(*b) == Some(local_runs(lr)),
            Err(_) => body_locals(*b) is None,
        },
{
    Ok(b.get_locals_reader()?.into_iter())
}

/// Relies on `LocalsIterator::next`: `None` once the runs are done,
/// otherwise the next run (a count and a type) or the failure to read it.
#[verifier::external_body]
fn next_locals(it: &mut LocalsIterator) -> (r: Option<Result<(u32, Type), BinaryReaderError>>)
    ensures
        r is None <==> local_runs(*old(it)).len() == 0,
        r is Some ==> local_runs(*final(it)) == local_runs(*old(it)).drop_first(),
        match r {
            Some(Ok(run)) => local_runs(*old(it))[0] == Some(run),
            Some(Err(_)) => local_runs(*old(it))[0] is None,
            None => true,
        },
{
    it.next()
}

/// Relies on `FunctionBody::get_operators_reader`.
#[verifier::external_body]
fn operators_reader<'a>(b: &FunctionBody<'a>) -> (res: Result<OperatorsReader<'a>, BinaryReaderError>)
    ensures
        match res {
            Ok(or) => body_operators(*b) == Some(operators_left(or)),
            Err(_) => body_operators(*b) is None,
        },
{
    b.get_operators_reader()
}

/// Relies on `OperatorsReader::eof`: whether the body's operators are all read.
#[verifier::external_body]
fn operators_done(r: &OperatorsReader) -> (done: bool)
    ensures
        done == (operators_left(*r).len() == 0),
{
    r.eof()
}

/// Relies on `OperatorsReader::read`: the next operator, by variant; any
/// other operator by its debug name.
#[verifier::external_body]
fn read_operator(r: &mut OperatorsReader) -> (res: Result<Op, BinaryReaderError>)
    requires
        operators_left(*old(r)).len() > 0,
    ensures
        operators_left(*final(r)) == operators_left(*old(r)).drop_first(),
        match res {
            Ok(op) => operators_left(*old(r))[0] == Some(op),
            Err(_) => operators_left(*old(r))[0] is None,
        },
{
    Ok(match r.read()? {
        Operator::I32Const { value } => Op::I32Const(value),
        Operator::I64Const { value } => Op::I64Const(value),
        Operator::I32Add => Op::I32Add,
        Operator::I32Sub => Op::I32Sub,
        Operator::I64Add => Op::I64Add,
        Operator::I64Sub => Op::I64Sub,
        Operator::Call { function_index } => Op::Call(function_index),
        Operator::LocalGet { local_index } => Op::LocalGet(local_index),
        Operator::LocalSet { local_index } => Op::LocalSet(local_index),
        Operator::Nop => Op::Nop,
        Operator::End => Op::End,
        other => Op::Unsupported(format!("{:?}", other)),
    })
}

/// Most locals one function may declare, as the format's implementations
/// bound them.
pub const MAX_LOCALS: u32 = 50000;

/// A function import: where it comes from and its type index.
#[derive(Clone, Debug)]
pub struct ImportEntry {
    pub module: String,
    pub field: Option<String>,
    pub type_index: u32,
}

/// One function body: the kinds of its declared locals, and its operators.
#[derive(Clone, Debug)]
pub struct Body {
    pub locals: Vec<ValType>,
    pub ops: Vec<Op>,
}

/// A module as read from its binary form: the sections that compilation uses.
pub struct ParsedModule {
    pub types: Vec<FuncSig>,
    pub imports: Vec<ImportEntry>,
    pub functions: Vec<u32>,
    pub exports: Vec<(String, u32)>,
    pub bodies: Vec<Body>,
}

/// A parsed module's tables as plain values.
pub struct ModuleView {
    pub types: Seq<(Seq<ValType>, Seq<ValType>)>,
    pub imports: Seq<(Seq<char>, Option<Seq<char>>, u32)>,
    pub functions: Seq<u32>,
    pub exports: Seq<(Seq<char>, u32)>,
    pub bodies: Seq<(Seq<ValType>, Seq<Op>)>,
}

pub open spec fn sig_views(ts: Seq<FuncSig>) -> Seq<(Seq<ValType>, Seq<ValType>)> {
    Seq::new(ts.len(), |i: int| (ts[i].params@, ts[i].results@))
}

pub open spec fn import_views(is: Seq<ImportEntry>) -> Seq<(Seq<char>, Option<Seq<char>>, u32)> {
    Seq::new(is.len(), |i: int| (is[i].module@, opt_chars(is[i].field), is[i].type_index))
}

pub open spec fn export_views(es: Seq<(String, u32)>) -> Seq<(Seq<char>, u32)> {
    Seq::new(es.len(), |i: int| (es[i].0@, es[i].1))
}

pub open spec fn body_views(bs: Seq<Body>) -> Seq<(Seq<ValType>, Seq<Op>)> {
    Seq::new(bs.len(), |i: int| (bs[i].locals@, bs[i].ops@))
}

pub open spec fn view_of(pm: ParsedModule) -> ModuleView {
    ModuleView {
        types: sig_views(pm.types@),
        imports: import_views(pm.imports@),
        functions: pm.functions@,
        exports: export_views(pm.exports@),
        bodies: body_views(pm.bodies@),
    }
}

pub open spec fn all_read<T>(es: Seq<Option<T>>) -> bool {
    forall|i: int| 0 <= i < es.len() ==> (#[trigger] es[i]) is Some
}

/// The function types of a type section, in order.
pub open spec fn sigs_of(es: Seq<Option<Option<(Seq<Type>, Seq<Type>)>>>) -> Seq<(Seq<ValType>, Seq<ValType>)>
    decreases es.len(),
{
    if es.len() == 0 {
        seq![]
    } else {
        sigs_of(es.drop_last()) + match es.last() {
            Some(Some((p, q))) => seq![(kinds_of(p), kinds_of(q))],
            _ => seq![],
        }
    }
}

/// The function imports of an import section, in order.
pub open spec fn fn_imports(es: Seq<Option<(Seq<char>, Option<Seq<char>>, Option<u32>)>>) -> Seq<(Seq<char>, Option<Seq<char>>, u32)>
    decreases es.len(),
{
    if es.len() == 0 {
        seq![]
    } else {
        fn_imports(es.drop_last()) + match es.last() {
            Some((m, f, Some(t))) => seq![(m, f, t)],
            _ => seq![],
        }
    }
}

/// The entries of a section whose every read succeeds.
pub open spec fn read_values<T>(es: Seq<Option<T>>) -> Seq<T> {
    Seq::new(es.len(), |i: int| es[i]->Some_0)
}

/// The function exports of an export section, in order.
pub open spec fn fn_exports(es: Seq<Option<(Seq<char>, Option<u32>)>>) -> Seq<(Seq<char>, u32)>
    decreases es.len(),
{
    if es.len() == 0 {
        seq![]
    } else {
        fn_exports(es.drop_last()) + match es.last() {
            Some((n, Some(i))) => seq![(n, i)],
            _ => seq![],
        }
    }
}

/// Runs of locals, one entry per local.
pub open spec fn expand_runs(runs: Seq<Option<(u32, Type)>>) -> Seq<ValType>
    decreases runs.len(),
{
    if runs.len() == 0 {
        seq![]
    } else {
        expand_runs(runs.drop_last()) + match runs.last() {
            Some((n, t)) => Seq::new(n as nat, |i: int| kind_of(t)),
            None => seq![],
        }
    }
}

pub open spec fn body_ok(locals: Option<Seq<Option<(u32, Type)>>>, ops: Option<Seq<Option<Op>>>) -> bool {
    &&& locals matches Some(runs) && all_read(runs) && expand_runs(runs).len() <= MAX_LOCALS
    &&& ops matches Some(os) && all_read(os)
}

/// Whether reading a payload succeeds.
pub open spec fn payload_ok(p: PayloadInfo) -> bool {
    match p {
        PayloadInfo::Types(es) => all_read(es),
        PayloadInfo::Imports(es) => all_read(es),
        PayloadInfo::Functions(es) => all_read(es),
        PayloadInfo::Exports(es) => all_read(es),
        PayloadInfo::Code(l, o) => body_ok(l, o),
        PayloadInfo::Skipped => true,
        _ => false,
    }
}

/// What reading a payload adds to the tables.
pub open spec fn add_payload(v: ModuleView, p: PayloadInfo) -> ModuleView {
    match p {
        PayloadInfo::Types(es) => ModuleView { types: v.types + sigs_of(es), ..v },
        PayloadInfo::Imports(es) => ModuleView { imports: v.imports + fn_imports(es), ..v },
        PayloadInfo::Functions(es) => ModuleView { functions: v.functions + read_values(es), ..v },
        PayloadInfo::Exports(es) => ModuleView { exports: v.exports + fn_exports(es), ..v },
        PayloadInfo::Code(l, o) => ModuleView {
            bodies: v.bodies.push((expand_runs(l->Some_0), read_values(o->Some_0))),
            ..v
        },
        _ => v,
    }
}

/// The tables that a sequence of payloads fills, in order.
pub open spec fn collect(ps: Seq<PayloadInfo>) -> ModuleView
    decreases ps.len(),
{
    if ps.len() == 0 {
        ModuleView { types: seq![], imports: seq![], functions: seq![], exports: seq![], bodies: seq![] }
    } else {
        add_payload(collect(ps.drop_last()), ps.last())
    }
}

/// Whether a module's payloads read without failure: they end with `End`,
/// and every payload before it reads.
pub open spec fn parse_ok(ps: Seq<PayloadInfo>) -> bool {
    &&& ps.len() > 0
    &&& ps.last() is End
    &&& forall|i: int| 0 <= i < ps.len() - 1 ==> payload_ok(#[trigger] ps[i])
}

/// Unknown sections are skipped without effect: a payload that compilation
/// skips, put anywhere before the end of a module's payloads, changes
/// neither whether they read nor the tables they fill.
pub proof fn law_skipped_payload_changes_nothing(a: Seq<PayloadInfo>, b: Seq<PayloadInfo>)
    requires
        b.len() > 0,
    ensures
        parse_ok(a + seq![PayloadInfo::Skipped] + b) == parse_ok(a + b),
        collect((a + seq![PayloadInfo::Skipped] + b).drop_last()) == collect((a + b).drop_last()),
{
    let x = a + seq![PayloadInfo::Skipped] + b;
    let y = a + b;
    assert(x.last() == y.last());
    if parse_ok(y) {
        assert forall|i: int| 0 <= i < x.len() - 1 implies payload_ok(#[trigger] x[i]) by {
            if i < a.len() {
                assert(x[i] == y[i]);
            } else if i > a.len() {
                assert(x[i] == y[i - 1]);
            }
        }
    }
    if parse_ok(x) {
        assert forall|i: int| 0 <= i < y.len() - 1 implies payload_ok(#[trigger] y[i]) by {
            if i < a.len() {
                assert(x[i] == y[i]);
            } else {
                assert(x[i + 1] == y[i]);
            }
        }
    }
    lemma_skip_in_collect(a, b.drop_last());
    assert(x.drop_last() =~= a + seq![PayloadInfo::Skipped] + b.drop_last());
    assert(y.drop_last() =~= a + b.drop_last());
}

proof fn lemma_skip_in_collect(a: Seq<PayloadInfo>, b: Seq<PayloadInfo>)
    ensures
        collect(a + seq![PayloadInfo::Skipped] + b) == collect(a + b),
    decreases b.len(),
{
    if b.len() == 0 {
        assert((a + seq![PayloadInfo::Skipped] + b).drop_last() =~= a);
        assert(a + b =~= a);
    } else {
        lemma_skip_in_collect(a, b.drop_last());
        assert((a + seq![PayloadInfo::Skipped] + b).drop_last() =~= a + seq![PayloadInfo::Skipped] + b.drop_last());
        assert((a + b).drop_last() =~= a + b.drop_last());
        assert((a + seq![PayloadInfo::Skipped] + b).last() == b.last());
        assert((a + b).last() == b.last());
    }
}

fn kinds(tys: &Vec<Type>) -> (r: Vec<ValType>)
    ensures
        r@ == kinds_of(tys@),
{
    let mut out: Vec<ValType> = Vec::new();
    let mut i: usize = 0;
    while i < tys.len()
        invariant
            i <= tys.len(),
            out@ =~= kinds_of(tys@.take(i as int)),
        decreases tys.len() - i,
    {
        out.push(val_type(&tys[i]));
        i += 1;
    }
    assert(tys@.take(i as int) =~= tys@);
    out
}

fn read_type_section(it: &mut TypeItems, types: &mut Vec<FuncSig>) -> (res: Result<(), Error>)
    ensures
        res is Ok <==> all_read(type_entries(*old(it))),
        res is Ok ==> sig_views(final(types)@) == sig_views(old(types)@) + sigs_of(type_entries(*old(it))),
        res matches Err(e) ==> e == Error::MalformedModule,
{
    let ghost es = type_entries(*it);
    let ghost base = sig_views(types@);
    let ghost mut i: int = 0;
    assert(es.skip(0) =~= es);
    assert(sig_views(types@) =~= base + sigs_of(es.take(0)));
    loop
        invariant
            es == type_entries(*old(it)),
            base == sig_views(old(types)@),
            0 <= i <= es.len(),
            type_entries(*it) == es.skip(i),
            sig_views(types@) =~= base + sigs_of(es.take(i)),
            forall|j: int| 0 <= j < i ==> (#[trigger] es[j]) is Some,
        decreases es.len() - i,
    {
        match next_type(it) {
            None => {
                assert(es.skip(i).len() == 0);
                assert(es.take(i) =~= es);
                return Ok(());
            },
            Some(item) => {
                assert(es.skip(i).len() > 0);
                assert(es.skip(i)[0] == es[i]);
                assert(es.skip(i).drop_first() =~= es.skip(i + 1));
                assert(es.take(i + 1).drop_last() =~= es.take(i));
                assert(es.take(i + 1).last() == es[i]);
                match item {
                    Ok(Some((ps, rs))) => {
                        let sig = FuncSig { params: kinds(&ps), results: kinds(&rs) };
                        let ghost before = types@;
                        types.push(sig);
                        assert(sig_views(types@) =~= sig_views(before).push((kinds_of(ps@), kinds_of(rs@))));
                    },
                    Ok(None) => {},
                    Err(_) => {
                        assert(!all_read(es)) by {
                            assert(es[i] is None);
                        }
                        return Err(Error::MalformedModule);
                    },
                }
                proof {
                    i = i + 1;
                }
            },
        }
    }
}

fn read_import_section(it: &mut ImportItems, imports: &mut Vec<ImportEntry>) -> (res: Result<(), Error>)
    ensures
        res is Ok <==> all_read(import_entries(*old(it))),
        res is Ok ==> import_views(final(imports)@) == import_views(old(imports)@) + fn_imports(import_entries(*old(it))),
        res matches Err(e) ==> e == Error::MalformedModule,
{
    let ghost es = import_entries(*it);
    let ghost base = import_views(imports@);
    let ghost mut i: int = 0;
    assert(es.skip(0) =~= es);
    assert(import_views(imports@) =~= base + fn_imports(es.take(0)));
    loop
        invariant
            es == import_entries(*old(it)),
            base == import_views(old(imports)@),
            0 <= i <= es.len(),
            import_entries(*it) == es.skip(i),
            import_views(imports@) =~= base + fn_imports(es.take(i)),
            forall|j: int| 0 <= j < i ==> (#[trigger] es[j]) is Some,
        decreases es.len() - i,
    {
        match next_import(it) {
            None => {
                assert(es.skip(i).len() == 0);
                assert(es.take(i) =~= es);
                return Ok(());
            },
            Some(item) => {
                assert(es.skip(i).len() > 0);
                assert(es.skip(i)[0] == es[i]);
                assert(es.skip(i).drop_first() =~= es.skip(i + 1));
                assert(es.take(i + 1).drop_last() =~= es.take(i));
                assert(es.take(i + 1).last() == es[i]);
                match item {
                    Ok((module, field, Some(type_index))) => {
                        let ghost before = imports@;
                        let ghost v = (module@, opt_chars(field), type_index);
                        imports.push(ImportEntry { module, field, type_index });
                        assert(import_views(imports@) =~= import_views(before).push(v));
                    },
                    Ok((_, _, None)) => {},
                    Err(_) => {
                        assert(!all_read(es)) by {
                            assert(es[i] is None);
                        }
                        return Err(Error::MalformedModule);
                    },
                }
                proof {
                    i = i + 1;
                }
            },
        }
    }
}

fn read_function_section(it: &mut FunctionItems, functions: &mut Vec<u32>) -> (res: Result<(), Error>)
    ensures
        res is Ok <==> all_read(function_entries(*old(it))),
        res is Ok ==> final(functions)@ == old(functions)@ + read_values(function_entries(*old(it))),
        res matches Err(e) ==> e == Error::MalformedModule,
{
    let ghost es = function_entries(*it);
    let ghost base = functions@;
    let ghost mut i: int = 0;
    assert(es.skip(0) =~= es);
    assert(functions@ =~= base + read_values(es.take(0)));
    loop
        invariant
            es == function_entries(*old(it)),
            base == old(functions)@,
            0 <= i <= es.len(),
            function_entries(*it) == es.skip(i),
            functions@ =~= base + read_values(es.take(i)),
            forall|j: int| 0 <= j < i ==> (#[trigger] es[j]) is Some,
        decreases es.len() - i,
    {
        match next_function(it) {
            None => {
                assert(es.skip(i).len() == 0);
                assert(es.take(i) =~= es);
                return Ok(());
            },
            Some(item) => {
                assert(es.skip(i).len() > 0);
                assert(es.skip(i)[0] == es[i]);
                assert(es.skip(i).drop_first() =~= es.skip(i + 1));
                assert(es.take(i + 1).drop_last() =~= es.take(i));
                assert(es.take(i + 1).last() == es[i]);
                match item {
                    Ok(t) => {
                        functions.push(t);
                        assert(read_values(es.take(i + 1)) =~= read_values(es.take(i)).push(t));
                    },
                    Err(_) => {
                        assert(!all_read(es)) by {
                            assert(es[i] is None);
                        }
                        return Err(Error::MalformedModule);
                    },
                }
                proof {
                    i = i + 1;
                }
            },
        }
    }
}

fn read_export_section(it: &mut ExportItems, exports: &mut Vec<(String, u32)>) -> (res: Result<(), Error>)
    ensures
        res is Ok <==> all_read(export_entries(*old(it))),
        res is Ok ==> export_views(final(exports)@) == export_views(old(exports)@) + fn_exports(export_entries(*old(it))),
        res matches Err(e) ==> e == Error::MalformedModule,
{
    let ghost es = export_entries(*it);
    let ghost base = export_views(exports@);
    let ghost mut i: int = 0;
    assert(es.skip(0) =~= es);
    assert(export_views(exports@) =~= base + fn_exports(es.take(0)));
    loop
        invariant
            es == export_entries(*old(it)),
            base == export_views(old(exports)@),
            0 <= i <= es.len(),
            export_entries(*it) == es.skip(i),
            export_views(exports@) =~= base + fn_exports(es.take(i)),
            forall|j: int| 0 <= j < i ==> (#[trigger] es[j]) is Some,
        decreases es.len() - i,
    {
        match next_export(it) {
            None => {
                assert(es.skip(i).len() == 0);
                assert(es.take(i) =~= es);
                return Ok(());
            },
            Some(item) => {
                assert(es.skip(i).len() > 0);
                assert(es.skip(i)[0] == es[i]);
                assert(es.skip(i).drop_first() =~= es.skip(i + 1));
                assert(es.take(i + 1).drop_last() =~= es.take(i));
                assert(es.take(i + 1).last() == es[i]);
                match item {
                    Ok((name, Some(index))) => {
                        let ghost before = exports@;
                        let ghost v = (name@, index);
                        exports.push((name, index));
                        assert(export_views(exports@) =~= export_views(before).push(v));
                    },
                    Ok((_, None)) => {},
                    Err(_) => {
                        assert(!all_read(es)) by {
                            assert(es[i] is None);
                        }
                        return Err(Error::MalformedModule);
                    },
                }
                proof {
                    i = i + 1;
                }
            },
        }
    }
}

proof fn lemma_expand_prefix(runs: Seq<Option<(u32, Type)>>, j: int)
    requires
        0 <= j <= runs.len(),
    ensures
        expand_runs(runs.take(j)).len() <= expand_runs(runs).len(),
    decreases runs.len(),
{
    if j < runs.len() {
        assert(runs.drop_last().take(j) =~= runs.take(j));
        lemma_expand_prefix(runs.drop_last(), j);
    } else {
        assert(runs.take(j) =~= runs);
    }
}

/// Reads one function body: its locals, expanded one entry per local, then
/// its operators up to the end of the body.
fn read_body(b: &FunctionBody) -> (res: Result<Body, Error>)
    ensures
        res is Ok <==> body_ok(body_locals(*b), body_operators(*b)),
        res matches Ok(body) ==> body.locals@ == expand_runs(body_locals(*b)->Some_0) && body.ops@
            == read_values(body_operators(*b)->Some_0),
        res matches Err(e) ==> e == Error::MalformedModule,
{
    let mut lr = match locals_reader(b) {
        Ok(lr) => lr,
        Err(_) => {
            return Err(Error::MalformedModule);
        },
    };
    let ghost runs = local_runs(lr);
    let mut locals: Vec<ValType> = Vec::new();
    let ghost mut i: int = 0;
    assert(runs.skip(0) =~= runs);
    assert(locals@ =~= expand_runs(runs.take(0)));
    loop
        invariant_except_break
            local_runs(lr) == runs.skip(i),
        invariant
            0 <= i <= runs.len(),
            body_locals(*b) == Some(runs),
            locals@ =~= expand_runs(runs.take(i)),
            locals@.len() <= MAX_LOCALS,
            forall|j: int| 0 <= j < i ==> (#[trigger] runs[j]) is Some,
        ensures
            body_locals(*b) == Some(runs),
            locals@ =~= expand_runs(runs),
            locals@.len() <= MAX_LOCALS,
            all_read(runs),
        decreases runs.len() - i,
    {
        let (count, ty) = match next_locals(&mut lr) {
            None => {
                assert(runs.skip(i).len() == 0);
                assert(runs.take(i) =~= runs);
                break;
            },
            Some(item) => {
                assert(runs.skip(i).len() > 0);
                assert(runs.skip(i)[0] == runs[i]);
                assert(runs.skip(i).drop_first() =~= runs.skip(i + 1));
                assert(runs.take(i + 1).drop_last() =~= runs.take(i));
                assert(runs.take(i + 1).last() == runs[i]);
                match item {
                    Ok(run) => run,
                    Err(_) => {
                        assert(!all_read(runs)) by {
                            assert(runs[i] is None);
                        }
                        return Err(Error::MalformedModule);
                    },
                }
            },
        };
        if count as usize > MAX_LOCALS as usize - locals.len() {
            proof {
                lemma_expand_prefix(runs, i + 1);
            }
            return Err(Error::MalformedModule);
        }
        let kind = val_type(&ty);
        let ghost start = locals@;
        let mut k: u32 = 0;
        while k < count
            invariant
                k <= count,
                start.len() + count <= MAX_LOCALS,
                locals@ =~= start + Seq::new(k as nat, |q: int| kind),
            decreases count - k,
        {
            locals.push(kind);
            k += 1;
        }
        proof {
            i = i + 1;
        }
    }
    let mut or = match operators_reader(b) {
        Ok(or) => or,
        Err(_) => {
            return Err(Error::MalformedModule);
        },
    };
    let ghost os = operators_left(or);
    let mut ops: Vec<Op> = Vec::new();
    let ghost mut q: int = 0;
    assert(os.skip(0) =~= os);
    while !operators_done(&or)
        invariant
            body_operators(*b) == Some(os),
            0 <= q <= os.len(),
            operators_left(or) == os.skip(q),
            ops@ =~= read_values(os.take(q)),
            forall|j: int| 0 <= j < q ==> (#[trigger] os[j]) is Some,
        decreases os.len() - q,
    {
        assert(os.skip(q)[0] == os[q]);
        assert(os.skip(q).drop_first() =~= os.skip(q + 1));
        match read_operator(&mut or) {
            Ok(op) => ops.push(op),
            Err(_) => {
                assert(!all_read(os)) by {
                    assert(os[q] is None);
                }
                return Err(Error::MalformedModule);
            },
        }
        proof {
            q = q + 1;
        }
        assert(read_values(os.take(q)) =~= read_values(os.take(q - 1)).push(os[q - 1]->Some_0));
    }
    assert(os.skip(q).len() == 0);
    assert(os.take(q) =~= os);
    Ok(Body { locals, ops })
}

/// Reads the sections of a binary module in order. It succeeds exactly when
/// the module's payloads read without failure, and then its tables are
/// those the payloads fill; any failure is `MalformedModule`.
pub fn parse_module(bytes: &[u8]) -> (r: Result<ParsedModule, Error>)
    ensures
        r is Ok <==> parse_ok(module_payloads(bytes@)),
        r matches Ok(pm) ==> view_of(pm) == collect(module_payloads(bytes@).drop_last()),
        r matches Err(e) ==> e == Error::MalformedModule,
{
    let mut m = open_module(bytes);
    let ghost ps = module_payloads(bytes@);
    let mut pm = ParsedModule {
        types: Vec::new(),
        imports: Vec::new(),
        functions: Vec::new(),
        exports: Vec::new(),
        bodies: Vec::new(),
    };
    let ghost mut i: int = 0;
    assert(ps.skip(0) =~= ps);
    assert(ps.take(0).len() == 0);
    assert(view_of(pm).types =~= collect(ps.take(0)).types);
    assert(view_of(pm).imports =~= collect(ps.take(0)).imports);
    assert(view_of(pm).functions =~= collect(ps.take(0)).functions);
    assert(view_of(pm).exports =~= collect(ps.take(0)).exports);
    assert(view_of(pm).bodies =~= collect(ps.take(0)).bodies);
    loop
        invariant
            ps == module_payloads(bytes@),
            stream_shape(ps),
            0 <= i < ps.len(),
            payloads_left(m) == ps.skip(i),
            view_of(pm) == collect(ps.take(i)),
            forall|j: int| 0 <= j < i ==> payload_ok(#[trigger] ps[j]),
        decreases ps.len() - i,
    {
        let ghost v = view_of(pm);
        let ghost p = ps[i];
        assert(!(p is End) && !(p is Fails) ==> i < ps.len() - 1);
        assert(ps.skip(i)[0] == p);
        assert(ps.skip(i).drop_first() =~= ps.skip(i + 1));
        assert(ps.take(i + 1).drop_last() =~= ps.take(i));
        assert(ps.take(i + 1).last() == p);
        let section = next_payload(&mut m);
        match section {
            Ok(Section::Types(mut r)) => {
                if let Err(e) = read_type_section(&mut r, &mut pm.types) {
                    proof {
                        assert(!payload_ok(ps[i]));
                    }
                    return Err(e);
                }
                assert(view_of(pm) =~~= add_payload(v, p));
            },
            Ok(Section::Imports(mut r)) => {
                if let Err(e) = read_import_section(&mut r, &mut pm.imports) {
                    proof {
                        assert(!payload_ok(ps[i]));
                    }
                    return Err(e);
                }
                assert(view_of(pm) =~~= add_payload(v, p));
            },
            Ok(Section::Functions(mut r)) => {
                if let Err(e) = read_function_section(&mut r, &mut pm.functions) {
                    proof {
                        assert(!payload_ok(ps[i]));
                    }
                    return Err(e);
                }
                assert(view_of(pm) =~~= add_payload(v, p));
            },
            Ok(Section::Exports(mut r)) => {
                if let Err(e) = read_export_section(&mut r, &mut pm.exports) {
                    proof {
                        assert(!payload_ok(ps[i]));
                    }
                    return Err(e);
                }
                assert(view_of(pm) =~~= add_payload(v, p));
            },
            Ok(Section::Code(b)) => {
                let body = match read_body(&b) {
                    Ok(body) => body,
                    Err(e) => {
                        proof {
                            assert(!payload_ok(ps[i]));
                        }
                        return Err(e);
                    },
                };
                let ghost before = pm.bodies@;
                pm.bodies.push(body);
                assert(body_views(pm.bodies@) =~= body_views(before).push((body.locals@, body.ops@)));
                assert(view_of(pm) =~~= add_payload(v, p));
            },
            Ok(Section::Skipped) => {},
            Ok(Section::End) => {
                assert(i == ps.len() - 1);
                assert(ps.drop_last() =~= ps.take(i));
                return Ok(pm);
            },
            Ok(Section::Incomplete) | Err(_) => {
                assert(i == ps.len() - 1);
                return Err(Error::MalformedModule);
            },
        }
        proof {
            i = i + 1;
        }
    }
}

/// Each import's relocation slot: its label, then eight sentinel bytes.
pub open spec fn import_code(n: nat) -> Seq<Inst>
    decreases n,
{
    if n == 0 {
        seq![]
    } else {
        import_code((n - 1) as nat) + seq![Inst::Label((n - 1) as u32), Inst::Data(SENTINEL)]
    }
}

/// The Function Index Space: the type index of every imported function, in
/// import order, then of every locally declared function, in declaration order.
pub open spec fn func_type_table(imports: Seq<ImportEntry>, functions: Seq<u32>) -> Seq<u32> {
    Seq::new(imports.len(), |i: int| imports[i].type_index) + functions
}

/// The code of the `j`-th locally declared function, compiled from the
/// `j`-th body; its function index follows the imports.
pub open spec fn local_function_code(pm: ParsedModule, j: int) -> Result<Seq<Inst>, Error> {
    let t = pm.functions@[j];
    if t >= pm.types@.len() {
        Err(Error::MalformedModule)
    } else {
        let sig = pm.types@[t as int];
        let body = pm.bodies@[j];
        function_code(
            (pm.imports@.len() + j) as u32,
            sig.params@,
            sig.results@,
            body.locals@,
            body.ops@,
            pm.types@,
            func_type_table(pm.imports@, pm.functions@),
            pm.imports@.len() as u32,
        )
    }
}

/// The code of the first `j` local functions; the first failure decides the error.
pub open spec fn functions_code(pm: ParsedModule, j: nat) -> Result<Seq<Inst>, Error>
    decreases j,
{
    if j == 0 {
        Ok(seq![])
    } else {
        match functions_code(pm, (j - 1) as nat) {
            Err(e) => Err(e),
            Ok(c) => match local_function_code(pm, j - 1) {
                Err(e) => Err(e),
                Ok(d) => Ok(c + d),
            },
        }
    }
}

pub open spec fn exports_known(exports: Seq<(String, u32)>, n: nat) -> bool {
    forall|i: int| 0 <= i < exports.len() ==> (#[trigger] exports[i]).1 < n
}

/// The listing of a whole module: the import slots, then every local
/// function in declaration order. Malformed where the function index space
/// overflows, where code entries and declared functions differ in number, or
/// where an export names an unknown function.
pub open spec fn module_code(pm: ParsedModule) -> Result<Seq<Inst>, Error> {
    let n = pm.imports@.len() + pm.functions@.len();
    if n > u32::MAX || pm.bodies@.len() != pm.functions@.len() || !exports_known(pm.exports@, n) {
        Err(Error::MalformedModule)
    } else {
        match functions_code(pm, pm.functions@.len()) {
            Err(e) => Err(e),
            Ok(c) => Ok(import_code(pm.imports@.len()) + c),
        }
    }
}

proof fn lemma_functions_error_persists(pm: ParsedModule, j: nat, m: nat)
    requires
        j <= m,
        functions_code(pm, j) is Err,
    ensures
        functions_code(pm, m) == functions_code(pm, j),
    decreases m - j,
{
    if j < m {
        lemma_functions_error_persists(pm, j, (m - 1) as nat);
    }
}

proof fn lemma_import_labels(n: nat, g: u32)
    requires
        n <= u32::MAX,
    ensures
        label_count(import_code(n), g) == if (g as nat) < n {
            1nat
        } else {
            0nat
        },
    decreases n,
{
    if n > 0 {
        let m = (n - 1) as nat;
        lemma_import_labels(m, g);
        let tail = seq![Inst::Label(m as u32), Inst::Data(SENTINEL)];
        lemma_label_count_concat(import_code(m), tail, g);
        let first = tail.drop_last();
        assert(first =~= seq![Inst::Label(m as u32)]);
        assert(first.drop_last().len() == 0);
        assert(label_count(first.drop_last(), g) == 0);
        assert(first.last() == Inst::Label(m as u32));
        assert(tail.last() == Inst::Data(SENTINEL));
        assert(import_code(n) == import_code(m) + tail);
        assert(label_count(first, g) == if g as nat == m { 1nat } else { 0nat });
        assert(label_count(tail, g) == label_count(first, g));
    }
}

proof fn lemma_functions_labels(pm: ParsedModule, j: nat, g: u32)
    requires
        j <= pm.functions@.len(),
        pm.imports@.len() + pm.functions@.len() <= u32::MAX,
        functions_code(pm, j) is Ok,
    ensures
        label_count(functions_code(pm, j)->Ok_0, g) == if pm.imports@.len() <= g < pm.imports@.len() + j {
            1nat
        } else {
            0nat
        },
    decreases j,
{
    if j > 0 {
        let k = (j - 1) as nat;
        lemma_functions_labels(pm, k, g);
        let t = pm.functions@[k as int];
        let sig = pm.types@[t as int];
        let body = pm.bodies@[k as int];
        lemma_function_labels(
            (pm.imports@.len() + k) as u32,
            sig.params@,
            sig.results@,
            body.locals@,
            body.ops@,
            pm.types@,
            func_type_table(pm.imports@, pm.functions@),
            pm.imports@.len() as u32,
            g,
        );
        lemma_label_count_concat(
            functions_code(pm, k)->Ok_0,
            local_function_code(pm, k as int)->Ok_0,
            g,
        );
    }
}

/// Each function label is bound exactly once. In the listing of a module
/// that compiles, label `g` is bound once for every index `g` of the
/// function index space (an import's slot, or a local function's entry) and
/// never for an index past it.
pub proof fn law_each_function_label_bound_once(pm: ParsedModule, g: u32)
    requires
        module_code(pm) is Ok,
    ensures
        label_count(module_code(pm)->Ok_0, g) == if (g as nat) < pm.imports@.len() + pm.functions@.len() {
            1nat
        } else {
            0nat
        },
{
    let ni = pm.imports@.len();
    lemma_import_labels(ni, g);
    lemma_functions_labels(pm, pm.functions@.len(), g);
    lemma_label_count_concat(import_code(ni), functions_code(pm, pm.functions@.len())->Ok_0, g);
}

/// Translates a whole module into one listing, as `module_code` says.
pub fn translate_module(pm: &ParsedModule) -> (r: Result<Vec<Inst>, Error>)
    ensures
        match module_code(*pm) {
            Ok(c) => r matches Ok(v) && v@ == c,
            Err(e) => r == Err::<Vec<Inst>, Error>(e),
        },
{
    let ni = pm.imports.len();
    let nf = pm.functions.len();
    if ni > u32::MAX as usize || nf > u32::MAX as usize - ni || pm.bodies.len() != nf {
        return Err(Error::MalformedModule);
    }
    let total = (ni + nf) as u32;
    let mut e: usize = 0;
    while e < pm.exports.len()
        invariant
            e <= pm.exports@.len(),
            ni == pm.imports@.len(),
            nf == pm.functions@.len(),
            total == ni + nf,
            forall|i: int| 0 <= i < e ==> (#[trigger] pm.exports@[i]).1 < total,
        decreases pm.exports.len() - e,
    {
        if pm.exports[e].1 >= total {
            assert(!exports_known(pm.exports@, (ni + nf) as nat)) by {
                assert(pm.exports@[e as int].1 >= total);
            }
            return Err(Error::MalformedModule);
        }
        e += 1;
    }
    let mut func_types: Vec<u32> = Vec::new();
    let mut k: usize = 0;
    while k < ni
        invariant
            k <= ni == pm.imports@.len(),
            func_types@ =~= Seq::new(k as nat, |i: int| pm.imports@[i].type_index),
        decreases ni - k,
    {
        func_types.push(pm.imports[k].type_index);
        k += 1;
    }
    let mut j: usize = 0;
    while j < nf
        invariant
            j <= nf == pm.functions@.len(),
            ni == pm.imports@.len(),
            func_types@ =~= Seq::new(ni as nat, |i: int| pm.imports@[i].type_index) + pm.functions@.take(j as int),
        decreases nf - j,
    {
        func_types.push(pm.functions[j]);
        j += 1;
        assert(pm.functions@.take(j as int) =~= pm.functions@.take(j - 1).push(pm.functions@[j - 1]));
    }
    assert(pm.functions@.take(nf as int) =~= pm.functions@);
    let ctx = CodeContext { types: &pm.types, func_types, n_imports: ni as u32 };
    let mut out: Vec<Inst> = Vec::new();
    let mut k: usize = 0;
    while k < ni
        invariant
            k <= ni <= u32::MAX,
            out@ == import_code(k as nat),
        decreases ni - k,
    {
        out.push(Inst::Label(k as u32));
        out.push(Inst::Data(SENTINEL));
        k += 1;
        assert(out@ =~= import_code(k as nat));
    }
    let ghost head = out@;
    let mut j: usize = 0;
    assert(head + seq![] =~= head);
    while j < nf
        invariant
            j <= nf == pm.functions@.len() == pm.bodies@.len(),
            ni == pm.imports@.len(),
            ni + nf <= u32::MAX,
            exports_known(pm.exports@, (ni + nf) as nat),
            ctx.types == &pm.types,
            ctx.func_types@ == func_type_table(pm.imports@, pm.functions@),
            ctx.n_imports == ni,
            head == import_code(ni as nat),
            functions_code(*pm, j as nat) matches Ok(c) && out@ =~= head + c,
        decreases nf - j,
    {
        let t = pm.functions[j];
        if t as usize >= pm.types.len() {
            proof {
                lemma_functions_error_persists(*pm, (j + 1) as nat, nf as nat);
            }
            return Err(Error::MalformedModule);
        }
        let body = &pm.bodies[j];
        assert(ctx.types@ == pm.types@);
        assert(local_function_code(*pm, j as int) == function_code(
            (ni + j) as u32,
            pm.types@[t as int].params@,
            pm.types@[t as int].results@,
            body.locals@,
            body.ops@,
            ctx.types@,
            ctx.func_types@,
            ctx.n_imports,
        ));
        match compile_function((ni + j) as u32, &pm.types[t as usize], &body.locals, &body.ops, &ctx, &mut out) {
            Ok(()) => {},
            Err(err) => {
                proof {
                    assert(functions_code(*pm, (j + 1) as nat) == Err::<Seq<Inst>, Error>(err));
                    lemma_functions_error_persists(*pm, (j + 1) as nat, nf as nat);
                }
                return Err(err);
            },
        }
        j += 1;
    }
    Ok(out)
}

fn clone_field(f: &Option<String>) -> (r: Option<String>)
    ensures
        r == *f,
{
    match f {
        Some(s) => Some(s.clone()),
        None => None,
    }
}

/// Where label `i` of listing `c` ends up in the code.
pub open spec fn offset_of(c: Seq<Inst>, i: nat) -> u64 {
    label_offset_of(c, i)->Some_0
}

/// When the listing `c` of a module with `ni` imports and `nf` local
/// functions becomes code: every item can be added to the assembler, the
/// encoder accepts the listing and places every label, the relocation slots
/// come in import order, and every entry lies inside the code.
pub open spec fn placed(c: Seq<Inst>, ni: nat, nf: nat) -> bool {
    &&& emittable(c, ni + nf)
    &&& assembles(c)
    &&& forall|i: nat| i < ni + nf ==> (#[trigger] label_offset_of(c, i)) is Some
    &&& forall|k: nat| 0 < k < ni ==> offset_of(c, (k - 1) as nat) + 8 <= #[trigger] offset_of(c, k)
    &&& forall|j: nat| j < nf ==> #[trigger] offset_of(c, ni + j) <= machine_code(c).len()
}

/// What compiling `pm` yields: the code is the encoding of the module's
/// listing; every relocation slot, at the place of its label, holds the
/// sentinel; each local function's entry is where its label landed; and the
/// export and import tables follow `pm`.
pub open spec fn compiled_from(pm: ParsedModule, am: AssembledModule) -> bool {
    match module_code(pm) {
        Ok(c) => {
            let m = am.spec_module();
            let ni = pm.imports@.len();
            &&& am.spec_bytes() == machine_code(c)
            &&& slots_fit(m.spec_imports(), am.spec_bytes().len())
            &&& slots_hold(am.spec_bytes(), m.spec_imports(), SENTINEL)
            &&& m.spec_n_imports() == ni
            &&& m.spec_entries().len() == pm.functions@.len()
            &&& forall|j: int|
                0 <= j < pm.functions@.len() ==> #[trigger] m.spec_entries()[j] == offset_of(c, (ni + j) as nat)
            &&& m.spec_exports() == pm.exports@
            &&& m.spec_imports().len() == ni
            &&& forall|k: int|
                0 <= k < ni ==> {
                    &&& (#[trigger] m.spec_imports()[k]).offset == offset_of(c, k as nat)
                    &&& m.spec_imports()[k].module == pm.imports@[k].module
                    &&& m.spec_imports()[k].field == pm.imports@[k].field
                }
        },
        Err(_) => false,
    }
}

proof fn lemma_import_code_items(n: nat, k: int)
    requires
        0 <= k < n,
        n <= u32::MAX,
    ensures
        import_code(n).len() == 2 * n,
        import_code(n)[2 * k] == Inst::Label(k as u32),
        import_code(n)[2 * k + 1] == Inst::Data(SENTINEL),
    decreases n,
{
    let m = (n - 1) as nat;
    lemma_import_code_len(m);
    if k < m {
        lemma_import_code_items(m, k);
    }
}

proof fn lemma_import_code_len(n: nat)
    ensures
        import_code(n).len() == 2 * n,
    decreases n,
{
    if n > 0 {
        lemma_import_code_len((n - 1) as nat);
    }
}

/// What compiling `pm` returns: the translation's error where there is one;
/// otherwise `Ok` exactly when the listing is `placed`, and then what
/// `compiled_from` says, and `AssemblyFailure` when it is not.
pub open spec fn compile_outcome(pm: ParsedModule, r: Result<AssembledModule, Error>) -> bool {
    &&& match module_code(pm) {
        Err(e) => r == Err::<AssembledModule, Error>(e),
        Ok(c) => {
            &&& r is Ok <==> placed(c, pm.imports@.len(), pm.functions@.len())
            &&& r matches Err(e) ==> e == Error::AssemblyFailure
        },
    }
    &&& r matches Ok(am) ==> compiled_from(pm, am)
}

/// Compiles a module already read from its binary form: translation, final
/// assembly, then the module's tables. Where translation fails, that error
/// is returned; otherwise the result is `Ok` exactly when the listing is
/// `placed`, and then it is what `compiled_from` says.
pub fn compile_parsed(pm: &ParsedModule) -> (r: Result<AssembledModule, Error>)
    ensures
        compile_outcome(*pm, r),
{
    let listing = translate_module(pm)?;
    let ni = pm.imports.len();
    let nf = pm.functions.len();
    let ghost c = listing@;
    assert(module_code(*pm) == Ok::<Seq<Inst>, Error>(c));
    let (bytes, offsets) = assemble(&listing, (ni + nf) as u32)?;
    let len = bytes.len();
    proof {
        assert forall|i: nat| i < ni + nf implies (#[trigger] label_offset_of(c, i)) is Some by {
            assert(label_offset_of(c, i as int as nat) == Some(offsets@[i as int]));
        }
    }
    let mut imports: Vec<ImportDescriptor> = Vec::new();
    let mut next_free: u64 = 0;
    let mut k: usize = 0;
    while k < ni
        invariant
            k <= ni == pm.imports@.len(),
            nf == pm.functions@.len(),
            module_code(*pm) == Ok::<Seq<Inst>, Error>(c),
            c == listing@,
            bytes@ == machine_code(c),
            data_at_labels(c, bytes@),
            emittable(c, (ni + nf) as nat),
            assembles(c),
            forall|i: nat| i < ni + nf ==> (#[trigger] label_offset_of(c, i)) is Some,
            offsets@.len() == ni + nf,
            forall|i: int| 0 <= i < ni + nf ==> label_offset_of(c, i as nat) == Some(#[trigger] offsets@[i]),
            len == bytes@.len(),
            imports@.len() == k,
            slots_fit(imports@, len as nat),
            slots_hold(bytes@, imports@, SENTINEL),
            k > 0 ==> imports@[k - 1].offset + 8 == next_free,
            k > 0 ==> next_free == offset_of(c, (k - 1) as nat) + 8,
            forall|q: nat| 0 < q < k ==> offset_of(c, (q - 1) as nat) + 8 <= #[trigger] offset_of(c, q),
            forall|i: int|
                0 <= i < k ==> {
                    &&& (#[trigger] imports@[i]).offset == offset_of(c, i as nat)
                    &&& imports@[i].module == pm.imports@[i].module
                    &&& imports@[i].field == pm.imports@[i].field
                },
        decreases ni - k,
    {
        let off = offsets[k];
        proof {
            lemma_import_code_items(ni as nat, k as int);
            let ic = import_code(ni as nat);
            assert(c == ic + functions_code(*pm, nf as nat)->Ok_0);
            assert(c[2 * k] == ic[2 * k]);
            assert(c[2 * k + 1] == ic[2 * k + 1]);
            assert(c[2 * k] is Label);
            assert(label_offset_of(c, k as nat) == Some(off));
        }
        if k > 0 && off < next_free {
            proof {
                assert(!placed(c, ni as nat, nf as nat)) by {
                    assert(offset_of(c, k as nat) == off);
                }
            }
            return Err(Error::AssemblyFailure);
        }
        let entry = &pm.imports[k];
        imports.push(ImportDescriptor {
            module: entry.module.clone(),
            field: clone_field(&entry.field),
            offset: off as usize,
        });
        next_free = off + 8;
        k += 1;
    }
    let mut entries: Vec<usize> = Vec::new();
    let mut j: usize = 0;
    while j < nf
        invariant
            j <= nf == pm.functions@.len(),
            ni == pm.imports@.len(),
            ni + nf <= u32::MAX,
            module_code(*pm) == Ok::<Seq<Inst>, Error>(c),
            offsets@.len() == ni + nf,
            forall|i: int| 0 <= i < ni + nf ==> label_offset_of(c, i as nat) == Some(#[trigger] offsets@[i]),
            len == bytes@.len(),
            bytes@ == machine_code(c),
            entries@.len() == j,
            forall|q: nat| q < j ==> #[trigger] offset_of(c, ni as nat + q) <= machine_code(c).len(),
            forall|i: int| 0 <= i < j ==> #[trigger] entries@[i] == offset_of(c, (ni + i) as nat),
        decreases nf - j,
    {
        let off = offsets[ni + j];
        assert(offset_of(c, (ni + j) as nat) == off);
        if off > len as u64 {
            proof {
                assert(!placed(c, ni as nat, nf as nat)) by {
                    assert(offset_of(c, ni as nat + j as nat) == off);
                }
            }
            return Err(Error::AssemblyFailure);
        }
        entries.push(off as usize);
        j += 1;
    }
    let mut exports: Vec<(String, u32)> = Vec::new();
    let mut e: usize = 0;
    while e < pm.exports.len()
        invariant
            e <= pm.exports@.len(),
            exports@ =~= pm.exports@.take(e as int),
        decreases pm.exports.len() - e,
    {
        let (name, index) = &pm.exports[e];
        exports.push((name.clone(), *index));
        e += 1;
    }
    assert(exports@ =~= pm.exports@);
    let module = Module::from_parts(ni as u32, entries, exports, imports);
    let am = AssembledModule::new(module, bytes);
    assert(placed(c, ni as nat, nf as nat));
    Ok(am)
}

/// Compiles binary modules into x86-64 machine code.
pub struct X86_64Compiler;

impl X86_64Compiler {
    /// Compiles one complete binary module: `parse_module`, then
    /// `compile_parsed`. Where the module's payloads do not read, the result
    /// is `MalformedModule`; otherwise it is the outcome of compiling the
    /// tables that they fill.
    pub fn compile(&self, module: &[u8]) -> (r: Result<AssembledModule, Error>)
        ensures
            !parse_ok(module_payloads(module@)) ==> r == Err::<AssembledModule, Error>(Error::MalformedModule),
            parse_ok(module_payloads(module@)) ==> exists|pm: ParsedModule|
                view_of(pm) == collect(module_payloads(module@).drop_last()) && #[trigger] compile_outcome(pm, r),
    {
        let pm = match parse_module(module) {
            Ok(pm) => pm,
            Err(e) => {
                return Err(e);
            },
        };
        let r = compile_parsed(&pm);
        assert(compile_outcome(pm, r));
        r
    }
}

impl Default for X86_64Compiler {
    fn default() -> (r: X86_64Compiler)
        ensures
            r == X86_64Compiler,
    {
        X86_64Compiler
    }
}

} // verus!
