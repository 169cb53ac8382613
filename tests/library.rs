use libwasm::codegen::{compile_function, layout_locals, op_to_code, CodeContext, LocalSlot};
use libwasm::frontend::{compile_parsed, translate_module, Body, ImportEntry, ParsedModule};
use libwasm::types::{FuncSig, Inst, Op, Reg, ValType, SENTINEL};
use libwasm::{Error, FunctionIndex, X86_64Compiler};

fn sig(params: Vec<ValType>, results: Vec<ValType>) -> FuncSig {
    FuncSig { params, results }
}

fn compile(src: &str) -> Result<libwasm::AssembledModule, Error> {
    let binary = wat::parse_str(src).expect("binary module");
    X86_64Compiler::default().compile(&binary)
}

fn slot(module: &libwasm::AssembledModule, offset: usize) -> [u8; 8] {
    module.binary()[offset..offset + 8].try_into().unwrap()
}

#[test]
fn import_slot_holds_sentinel_until_linked() {
    let mut module = compile(r#"(module (func $bar (import "b" "bar")) (func (export "foo") call $bar))"#).unwrap();
    let offset = module.module().find_import("b", Some("bar")).unwrap();
    assert_eq!(slot(&module, offset), SENTINEL.to_le_bytes());
    module.link_import("b", Some("bar"), 0x1122_3344_5566_7788);
    assert_eq!(slot(&module, offset), 0x1122_3344_5566_7788u64.to_le_bytes());
}

#[test]
fn linking_an_unknown_import_changes_nothing() {
    let mut module = compile(r#"(module (func $bar (import "b" "bar")) (func (export "foo") call $bar))"#).unwrap();
    let before = module.binary().to_vec();
    module.link_import("b", Some("baz"), 7);
    module.link_import("c", Some("bar"), 7);
    module.link_import("b", None, 7);
    assert_eq!(module.binary(), &before[..]);
}

#[test]
fn linking_one_import_leaves_the_other_slot() {
    let src = r#"(module
        (func $x (import "m" "x"))
        (func $y (import "m" "y"))
        (func (export "f") call $x call $y))"#;
    let mut module = compile(src).unwrap();
    let x = module.module().find_import("m", Some("x")).unwrap();
    let y = module.module().find_import("m", Some("y")).unwrap();
    module.link_import("m", Some("y"), 5);
    assert_eq!(slot(&module, x), SENTINEL.to_le_bytes());
    assert_eq!(slot(&module, y), 5u64.to_le_bytes());
    module.link_import("m", Some("y"), 6);
    assert_eq!(slot(&module, y), 6u64.to_le_bytes());
}

#[test]
fn entry_points_by_index_and_name() {
    let module = compile(r#"(module (func $i (import "m" "i")) (func (export "f")) (func (export "g")))"#).unwrap();
    assert_eq!(module.function_entry_point(0u32), None);
    assert_eq!(module.function_entry_point(FunctionIndex(0)), None);
    let f = module.function_entry_point("f").unwrap();
    let g = module.function_entry_point("g").unwrap();
    assert_eq!(module.function_entry_point(1u32), Some(f));
    assert_eq!(module.function_entry_point(FunctionIndex(2)), Some(g));
    assert!(f < g);
    assert_eq!(module.function_entry_point(3u32), None);
    assert_eq!(module.function_entry_point("h"), None);
}

#[test]
fn export_of_an_import_has_no_entry_point() {
    let module = compile(r#"(module (func $i (import "m" "i")) (export "i" (func $i)))"#).unwrap();
    assert_eq!(module.module().export_index("i"), Some(0));
    assert_eq!(module.function_entry_point("i"), None);
}

#[test]
fn unsupported_operator_is_reported_by_name() {
    let r = compile(r#"(module (func (result i32) i32.const 6 i32.const 7 i32.mul))"#);
    match r {
        Err(Error::UnsupportedOperator(name)) => assert!(name.contains("I32Mul")),
        _ => panic!("expected an unsupported operator"),
    }
}

#[test]
fn float_parameter_is_an_unsupported_type() {
    assert!(matches!(compile(r#"(module (func (param f32)))"#), Err(Error::UnsupportedType)));
}

#[test]
fn vector_local_is_an_unsupported_type() {
    assert!(matches!(compile(r#"(module (func (local v128)))"#), Err(Error::UnsupportedType)));
}

#[test]
fn garbage_is_a_malformed_module() {
    assert!(matches!(X86_64Compiler::default().compile(&[1, 2, 3, 4]), Err(Error::MalformedModule)));
    assert!(matches!(X86_64Compiler::default().compile(&[]), Err(Error::MalformedModule)));
}

#[test]
fn truncated_module_is_malformed() {
    let binary = wat::parse_str(r#"(module (func (export "f") (result i64) i64.const 42))"#).unwrap();
    let cut = &binary[..binary.len() - 3];
    assert!(matches!(X86_64Compiler::default().compile(cut), Err(Error::MalformedModule)));
}

#[test]
fn empty_module_compiles_to_empty_code() {
    let module = compile("(module)").unwrap();
    assert!(module.binary().is_empty());
    assert_eq!(module.function_entry_point(0u32), None);
}

fn parsed(types: Vec<FuncSig>, functions: Vec<u32>, bodies: Vec<Body>) -> ParsedModule {
    ParsedModule { types, imports: Vec::new(), functions, exports: Vec::new(), bodies }
}

#[test]
fn export_of_an_unknown_function_is_malformed() {
    let mut pm = parsed(vec![sig(vec![], vec![])], vec![0], vec![Body { locals: vec![], ops: vec![] }]);
    pm.exports.push(("f".to_string(), 1));
    assert!(matches!(translate_module(&pm), Err(Error::MalformedModule)));
    assert!(matches!(compile_parsed(&pm), Err(Error::MalformedModule)));
}

#[test]
fn call_to_an_unknown_function_is_malformed() {
    let pm = parsed(vec![sig(vec![], vec![])], vec![0], vec![Body { locals: vec![], ops: vec![Op::Call(5)] }]);
    assert!(matches!(translate_module(&pm), Err(Error::MalformedModule)));
}

#[test]
fn missing_body_is_malformed() {
    let pm = parsed(vec![sig(vec![], vec![])], vec![0, 0], vec![Body { locals: vec![], ops: vec![] }]);
    assert!(matches!(translate_module(&pm), Err(Error::MalformedModule)));
}

#[test]
fn unknown_type_index_is_malformed() {
    let pm = parsed(vec![], vec![0], vec![Body { locals: vec![], ops: vec![] }]);
    assert!(matches!(translate_module(&pm), Err(Error::MalformedModule)));
}

#[test]
fn out_of_range_local_is_malformed() {
    let pm = parsed(vec![sig(vec![], vec![])], vec![0], vec![Body { locals: vec![ValType::I64], ops: vec![Op::LocalGet(1)] }]);
    assert!(matches!(translate_module(&pm), Err(Error::MalformedModule)));
}

#[test]
fn translated_listing_of_a_small_module() {
    let pm = ParsedModule {
        types: vec![sig(vec![], vec![ValType::I64])],
        imports: vec![ImportEntry { module: "m".to_string(), field: Some("g".to_string()), type_index: 0 }],
        functions: vec![0],
        exports: vec![("f".to_string(), 1)],
        bodies: vec![Body { locals: vec![], ops: vec![Op::Call(0)] }],
    };
    let listing = translate_module(&pm).unwrap();
    assert_eq!(
        listing,
        vec![
            Inst::Label(0),
            Inst::Data(SENTINEL),
            Inst::Label(1),
            Inst::Push(Reg::Rbp),
            Inst::Mov(Reg::Rbp, Reg::Rsp),
            Inst::LoadSlot(Reg::R10, 0),
            Inst::CallReg(Reg::R10),
            Inst::Push(Reg::Rax),
            Inst::Pop(Reg::Rax),
            Inst::Mov(Reg::Rsp, Reg::Rbp),
            Inst::Pop(Reg::Rbp),
            Inst::Ret,
        ]
    );
    let module = compile_parsed(&pm).unwrap();
    assert_eq!(module.function_entry_point("f"), Some(8));
}

#[test]
fn locals_layout_by_kind() {
    let (slots, size) = layout_locals(&vec![ValType::I32, ValType::I64, ValType::F32, ValType::F64]).unwrap();
    assert_eq!(size, 24);
    let offsets: Vec<u32> = slots.iter().map(|s: &LocalSlot| s.offset).collect();
    assert_eq!(offsets, vec![4, 12, 16, 24]);
    assert!(matches!(layout_locals(&vec![ValType::I32, ValType::Other]), Err(Error::UnsupportedType)));
    assert_eq!(layout_locals(&vec![]).unwrap().1, 0);
}

#[test]
fn function_with_parameters_and_locals() {
    let types = vec![sig(vec![ValType::I64, ValType::I32], vec![ValType::I64])];
    let ctx = CodeContext { types: &types, func_types: vec![0], n_imports: 0 };
    let mut out = Vec::new();
    compile_function(0, &types[0], &vec![ValType::I32], &vec![Op::LocalSet(0), Op::LocalGet(0)], &ctx, &mut out).unwrap();
    assert_eq!(
        out,
        vec![
            Inst::Label(0),
            Inst::Push(Reg::Rbp),
            Inst::Mov(Reg::Rbp, Reg::Rsp),
            Inst::Reserve(4),
            Inst::Push(Reg::Rdi),
            Inst::Push(Reg::Rsi),
            Inst::Pop(Reg::Rax),
            Inst::Store32(4, Reg::Rax),
            Inst::Load32(Reg::Rax, 4),
            Inst::Push(Reg::Rax),
            Inst::Pop(Reg::Rax),
            Inst::Mov(Reg::Rsp, Reg::Rbp),
            Inst::Pop(Reg::Rbp),
            Inst::Ret,
        ]
    );
}

#[test]
fn three_results_are_an_unsupported_type() {
    let types = vec![sig(vec![], vec![ValType::I64; 3])];
    let ctx = CodeContext { types: &types, func_types: vec![0], n_imports: 0 };
    let mut out = Vec::new();
    assert!(matches!(compile_function(0, &types[0], &vec![], &vec![], &ctx, &mut out), Err(Error::UnsupportedType)));
}

#[test]
fn local_call_goes_through_its_label() {
    let types = vec![sig(vec![ValType::I64, ValType::I64], vec![ValType::I64, ValType::I64])];
    let ctx = CodeContext { types: &types, func_types: vec![0, 0], n_imports: 0 };
    let mut out = Vec::new();
    op_to_code(&Op::Call(1), &vec![], &ctx, &mut out).unwrap();
    assert_eq!(
        out,
        vec![
            Inst::Pop(Reg::Rsi),
            Inst::Pop(Reg::Rdi),
            Inst::CallLabel(1),
            Inst::Push(Reg::Rax),
            Inst::Push(Reg::Rdx),
        ]
    );
}

#[test]
fn call_with_seven_arguments_passes_the_seventh_on_the_stack() {
    let types = vec![sig(vec![ValType::I64; 7], vec![ValType::I64])];
    let ctx = CodeContext { types: &types, func_types: vec![0], n_imports: 0 };
    let mut out = Vec::new();
    op_to_code(&Op::Call(0), &vec![], &ctx, &mut out).unwrap();
    assert_eq!(
        out,
        vec![
            Inst::PushStack(0),
            Inst::LoadStack(Reg::Rdi, 56),
            Inst::LoadStack(Reg::Rsi, 48),
            Inst::LoadStack(Reg::Rdx, 40),
            Inst::LoadStack(Reg::Rcx, 32),
            Inst::LoadStack(Reg::R8, 24),
            Inst::LoadStack(Reg::R9, 16),
            Inst::CallLabel(0),
            Inst::Release(64),
            Inst::Push(Reg::Rax),
        ]
    );
}

#[test]
fn constants_and_arithmetic_listing() {
    let types: Vec<FuncSig> = vec![];
    let ctx = CodeContext { types: &types, func_types: vec![], n_imports: 0 };
    let mut out = Vec::new();
    op_to_code(&Op::I32Const(-1), &vec![], &ctx, &mut out).unwrap();
    op_to_code(&Op::I64Sub, &vec![], &ctx, &mut out).unwrap();
    op_to_code(&Op::Nop, &vec![], &ctx, &mut out).unwrap();
    assert_eq!(
        out,
        vec![
            Inst::MovImm(Reg::Rax, 0xffff_ffff),
            Inst::Push(Reg::Rax),
            Inst::Pop(Reg::Rcx),
            Inst::Pop(Reg::Rax),
            Inst::Sub64(Reg::Rax, Reg::Rcx),
            Inst::Push(Reg::Rax),
        ]
    );
    let mut none = Vec::new();
    assert!(matches!(
        op_to_code(&Op::Unsupported("I32Mul".to_string()), &vec![], &ctx, &mut none),
        Err(Error::UnsupportedOperator(n)) if n == "I32Mul"
    ));
}

#[test]
fn panic_line_ends_with_a_newline() {
    assert_eq!(libwasm::kernel::panic("out of memory"), "out of memory\n");
    assert_eq!(libwasm::kernel::panic(""), "\n");
}

#[test]
fn custom_section_is_skipped() {
    let binary = wat::parse_str(r#"(module (func (export "f") (result i64) i64.const 42))"#).unwrap();
    let mut with_custom = binary[..8].to_vec();
    with_custom.extend_from_slice(&[0x00, 0x06, 0x03, b'a', b'b', b'c', 1, 2]);
    with_custom.extend_from_slice(&binary[8..]);
    let plain = X86_64Compiler::default().compile(&binary).unwrap();
    let custom = X86_64Compiler::default().compile(&with_custom).unwrap();
    assert_eq!(plain.binary(), custom.binary());
    assert_eq!(plain.function_entry_point("f"), custom.function_entry_point("f"));
}

#[test]
fn compiling_twice_gives_the_same_code() {
    let binary = wat::parse_str(r#"(module (func $g (import "m" "g")) (func (export "f") call $g))"#).unwrap();
    let a = X86_64Compiler::default().compile(&binary).unwrap();
    let b = X86_64Compiler::default().compile(&binary).unwrap();
    assert_eq!(a.binary(), b.binary());
    assert_eq!(a.function_entry_point("f"), b.function_entry_point("f"));
}

#[test]
fn trailing_bytes_in_a_section_are_malformed() {
    let header = [0x00, 0x61, 0x73, 0x6d, 0x01, 0x00, 0x00, 0x00];
    let mut exact = header.to_vec();
    exact.extend_from_slice(&[0x01, 0x04, 0x01, 0x60, 0x00, 0x00]);
    assert!(X86_64Compiler::default().compile(&exact).is_ok());
    let mut trailing = header.to_vec();
    trailing.extend_from_slice(&[0x01, 0x05, 0x01, 0x60, 0x00, 0x00, 0x00]);
    assert!(matches!(X86_64Compiler::default().compile(&trailing), Err(Error::MalformedModule)));
}

#[test]
fn section_count_beyond_its_entries_is_malformed() {
    let header = [0x00, 0x61, 0x73, 0x6d, 0x01, 0x00, 0x00, 0x00];
    let mut short = header.to_vec();
    short.extend_from_slice(&[0x01, 0x04, 0x02, 0x60, 0x00, 0x00]);
    assert!(matches!(X86_64Compiler::default().compile(&short), Err(Error::MalformedModule)));
}
