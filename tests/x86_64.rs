use iced_x86::code_asm::{eax, rbp, rsp, CodeAssembler};
use iced_x86::{Decoder, DecoderOptions, Mnemonic, OpKind, Register};
use libwasm::{AssembledModule, X86_64Compiler};
use std::collections::HashMap;

const MEMORY: usize = 0x10_0000;
const STACK_TOP: u64 = 0x0f_0000;
const RETURN_SENTINEL: u64 = 0x0ff_f000;

/// A small interpreter for the instructions that generated code uses.
struct Emulator {
    memory: Vec<u8>,
    regs: HashMap<Register, u64>,
    counts: HashMap<u64, usize>,
    next_free: u64,
}

impl Emulator {
    fn new() -> Emulator {
        let mut regs = HashMap::new();
        regs.insert(Register::RSP, STACK_TOP);
        Emulator { memory: vec![0; MEMORY], regs, counts: HashMap::new(), next_free: 0x1000 }
    }

    fn add_memory(&mut self, bytes: &[u8]) -> u64 {
        let base = self.next_free;
        self.memory[base as usize..base as usize + bytes.len()].copy_from_slice(bytes);
        self.next_free = (base + bytes.len() as u64 + 0xfff) & !0xfff;
        base
    }

    fn add_module(&mut self, module: &AssembledModule) -> u64 {
        self.add_memory(module.binary())
    }

    fn reload(&mut self, base: u64, module: &AssembledModule) {
        let bytes = module.binary();
        self.memory[base as usize..base as usize + bytes.len()].copy_from_slice(bytes);
    }

    fn read_register(&self, r: Register) -> u64 {
        let full = self.regs.get(&r.full_register()).copied().unwrap_or(0);
        if r.size() == 4 {
            full & 0xffff_ffff
        } else {
            full
        }
    }

    fn write_register(&mut self, r: Register, v: u64) {
        let v = if r.size() == 4 { v & 0xffff_ffff } else { v };
        self.regs.insert(r.full_register(), v);
    }

    fn load(&self, addr: u64, size: usize) -> u64 {
        let mut v: u64 = 0;
        for i in 0..size {
            v |= (self.memory[addr as usize + i] as u64) << (8 * i);
        }
        v
    }

    fn store(&mut self, addr: u64, size: usize, v: u64) {
        for i in 0..size {
            self.memory[addr as usize + i] = (v >> (8 * i)) as u8;
        }
    }

    fn push(&mut self, v: u64) {
        let sp = self.read_register(Register::RSP) - 8;
        self.write_register(Register::RSP, sp);
        self.store(sp, 8, v);
    }

    fn pop(&mut self) -> u64 {
        let sp = self.read_register(Register::RSP);
        let v = self.load(sp, 8);
        self.write_register(Register::RSP, sp + 8);
        v
    }

    fn address(&self, instr: &iced_x86::Instruction) -> u64 {
        match instr.memory_base() {
            Register::RIP | Register::None => instr.memory_displacement64(),
            base => self.read_register(base).wrapping_add(instr.memory_displacement64()),
        }
    }

    fn read_operand(&self, instr: &iced_x86::Instruction, i: u32) -> u64 {
        match instr.op_kind(i) {
            OpKind::Register => self.read_register(instr.op_register(i)),
            OpKind::Memory => {
                let size = instr.memory_size().size();
                self.load(self.address(instr), size)
            }
            _ => instr.immediate(i),
        }
    }

    fn write_operand(&mut self, instr: &iced_x86::Instruction, i: u32, v: u64) {
        match instr.op_kind(i) {
            OpKind::Register => self.write_register(instr.op_register(i), v),
            OpKind::Memory => {
                let size = instr.memory_size().size();
                let addr = self.address(instr);
                self.store(addr, size, v)
            }
            other => panic!("cannot write to {:?}", other),
        }
    }

    fn width_mask(&self, instr: &iced_x86::Instruction) -> u64 {
        if instr.op_kind(0) == OpKind::Register && instr.op_register(0).size() == 4 {
            0xffff_ffff
        } else {
            u64::MAX
        }
    }

    /// Calls the code at `entry` with the current registers and returns
    /// when it returns; `stack_args` are pushed as a caller would.
    fn call(&mut self, entry: u64, stack_args: &[u64]) {
        for a in stack_args.iter().rev() {
            self.push(*a);
        }
        self.push(RETURN_SENTINEL);
        let mut rip = entry;
        let mut steps = 0;
        while rip != RETURN_SENTINEL {
            steps += 1;
            assert!(steps < 100_000, "runaway execution");
            *self.counts.entry(rip).or_insert(0) += 1;
            let mut decoder = Decoder::with_ip(64, &self.memory[rip as usize..], rip, DecoderOptions::NONE);
            let instr = decoder.decode();
            let next = instr.next_ip();
            rip = next;
            match instr.mnemonic() {
                Mnemonic::Push => {
                    let v = self.read_operand(&instr, 0);
                    self.push(v);
                }
                Mnemonic::Pop => {
                    let v = self.pop();
                    self.write_operand(&instr, 0, v);
                }
                Mnemonic::Mov => {
                    let v = self.read_operand(&instr, 1) & self.width_mask(&instr);
                    self.write_operand(&instr, 0, v);
                }
                Mnemonic::Add => {
                    let v = self.read_operand(&instr, 0).wrapping_add(self.read_operand(&instr, 1));
                    let v = v & self.width_mask(&instr);
                    self.write_operand(&instr, 0, v);
                }
                Mnemonic::Sub => {
                    let v = self.read_operand(&instr, 0).wrapping_sub(self.read_operand(&instr, 1));
                    let v = v & self.width_mask(&instr);
                    self.write_operand(&instr, 0, v);
                }
                Mnemonic::Call => {
                    let target = match instr.op_kind(0) {
                        OpKind::NearBranch64 => instr.near_branch_target(),
                        _ => self.read_operand(&instr, 0),
                    };
                    self.push(next);
                    rip = target;
                }
                Mnemonic::Ret => {
                    rip = self.pop();
                }
                Mnemonic::Nop => {}
                other => panic!("unexpected instruction {:?} at {:#x}", other, instr.ip()),
            }
        }
        for _ in stack_args {
            self.pop();
        }
    }

    fn execution_count(&self, addr: u64) -> usize {
        self.counts.get(&addr).copied().unwrap_or(0)
    }
}

fn compile(src: &str) -> AssembledModule {
    let binary = wat::parse_str(src).expect("binary module");
    X86_64Compiler::default().compile(&binary).expect("compiled module")
}

fn entry(module: &AssembledModule, base: u64, name: &str) -> u64 {
    base + module.function_entry_point(name).expect("entry point") as u64
}

#[test]
fn return_value() {
    let src = r#"
(module

    (func (export "foo") (result i64)
     i64.const 42
    )
)
"#;
    let module = compile(src);
    let mut emulator = Emulator::new();
    let base = emulator.add_module(&module);
    emulator.call(entry(&module, base, "foo"), &[]);
    assert_eq!(emulator.read_register(Register::RAX), 42);
}

#[test]
fn passing_args_and_return_value() {
    let src = r#"
(module

    (func (export "foo") (param i64) (param i64) (result i64)
     i64.sub
    )
)
"#;
    let module = compile(src);
    let mut emulator = Emulator::new();
    let base = emulator.add_module(&module);
    emulator.write_register(Register::RDI, 52);
    emulator.write_register(Register::RSI, 10);
    emulator.call(entry(&module, base, "foo"), &[]);
    assert_eq!(emulator.read_register(Register::RAX), 42);
}

#[test]
fn local_call() {
    let src = r#"
(module

    (func (export "bar")
        call $foo
    )
    
    (func $foo
       call $foo1)
       
    (func $foo1)
    
    (func $unused)
)
"#;
    let module = compile(src);
    let mut emulator = Emulator::new();
    let base = emulator.add_module(&module);
    emulator.call(entry(&module, base, "bar"), &[]);
    let at = |i: u32| base + module.function_entry_point(i).unwrap_or(0) as u64;
    assert_eq!(emulator.execution_count(entry(&module, base, "bar")), 1);
    assert_eq!(emulator.execution_count(at(1)), 1);
    assert_eq!(emulator.execution_count(at(2)), 1);
    assert_eq!(emulator.execution_count(at(3)), 0);
}

#[test]
fn imported_wasm_call() {
    let foo_src = r#"
(module

    (func $bar (import "b" "bar"))

    (func (export "foo")
        call $bar
    )
)
"#;
    let mut foo_module = compile(foo_src);
    let bar_src = r#"
(module
    (func (export "bar"))
)
"#;
    let bar_module = compile(bar_src);
    let mut emulator = Emulator::new();
    let foo_base = emulator.add_module(&foo_module);
    let bar_base = emulator.add_module(&bar_module);
    let bar_function_offset = entry(&bar_module, bar_base, "bar");
    foo_module.link_import("b", Some("bar"), bar_function_offset);
    emulator.reload(foo_base, &foo_module);
    emulator.call(entry(&foo_module, foo_base, "foo"), &[]);
    assert_eq!(emulator.execution_count(entry(&foo_module, foo_base, "foo")), 1);
    assert_eq!(emulator.execution_count(bar_function_offset), 1);
}

#[test]
fn external_call() {
    let foo_src = r#"
(module

    (func $bar (import "b" "bar") (result i64))

    (func (export "foo") (result i64)
        call $bar
    )
)
"#;
    let mut foo_module = compile(foo_src);
    let mut emulator = Emulator::new();
    let foo_base = emulator.add_module(&foo_module);

    let mut assembler = CodeAssembler::new(64).expect("new assembler");
    assembler.push(rbp).expect("asm");
    assembler.mov(rbp, rsp).expect("asm");
    assembler.mov(eax, 42).expect("asm");
    assembler.pop(rbp).expect("asm");
    assembler.ret().expect("asm");
    let assembled = assembler.assemble(0).expect("asm");
    let bar_fun = emulator.add_memory(&assembled);

    foo_module.link_import("b", Some("bar"), bar_fun);
    emulator.reload(foo_base, &foo_module);
    emulator.call(entry(&foo_module, foo_base, "foo"), &[]);
    assert_eq!(emulator.read_register(Register::RAX), 42);
}

#[test]
fn locals_basic() {
    let foo_src = r#"
(module

    (func (export "foo") (result i64) (local i64) (local i64)
      i64.const 10
      local.set 0
      i64.const 32
      local.set 1
      local.get 0
      local.get 1
      i64.add
    )
)
"#;
    let module = compile(foo_src);
    let mut emulator = Emulator::new();
    let base = emulator.add_module(&module);
    emulator.call(entry(&module, base, "foo"), &[]);
    assert_eq!(emulator.read_register(Register::RAX), 42);
}

#[test]
fn i32_constant_is_returned_zero_extended() {
    let module = compile(r#"(module (func (export "f") (result i32) i32.const -1))"#);
    let mut emulator = Emulator::new();
    let base = emulator.add_module(&module);
    emulator.write_register(Register::RAX, u64::MAX);
    emulator.call(entry(&module, base, "f"), &[]);
    assert_eq!(emulator.read_register(Register::RAX), 0xffff_ffff);
}

#[test]
fn i64_negative_constant_is_returned() {
    let module = compile(r#"(module (func (export "f") (result i64) i64.const -7))"#);
    let mut emulator = Emulator::new();
    let base = emulator.add_module(&module);
    emulator.call(entry(&module, base, "f"), &[]);
    assert_eq!(emulator.read_register(Register::RAX), (-7i64) as u64);
}

#[test]
fn i64_add_of_two_parameters() {
    let module = compile(r#"(module (func (export "f") (param i64 i64) (result i64) i64.add))"#);
    let mut emulator = Emulator::new();
    let base = emulator.add_module(&module);
    emulator.write_register(Register::RDI, u64::MAX);
    emulator.write_register(Register::RSI, 3);
    emulator.call(entry(&module, base, "f"), &[]);
    assert_eq!(emulator.read_register(Register::RAX), 2);
}

#[test]
fn i32_sub_wraps_at_32_bits() {
    let module = compile(r#"(module (func (export "f") (param i32 i32) (result i32) i32.sub))"#);
    let mut emulator = Emulator::new();
    let base = emulator.add_module(&module);
    emulator.write_register(Register::RDI, 3);
    emulator.write_register(Register::RSI, 5);
    emulator.call(entry(&module, base, "f"), &[]);
    assert_eq!(emulator.read_register(Register::RAX), 0xffff_fffe);
}

#[test]
fn constants_then_subtract_keep_operand_order() {
    let module = compile(r#"(module (func (export "f") (result i64) i64.const 10 i64.const 3 i64.sub))"#);
    let mut emulator = Emulator::new();
    let base = emulator.add_module(&module);
    emulator.call(entry(&module, base, "f"), &[]);
    assert_eq!(emulator.read_register(Register::RAX), 7);
}

#[test]
fn seventh_parameter_is_read_from_the_stack() {
    let src = r#"(module (func (export "f")
        (param i64 i64 i64 i64 i64 i64 i64) (result i64)
        i64.sub))"#;
    let module = compile(src);
    let mut emulator = Emulator::new();
    let base = emulator.add_module(&module);
    for (r, v) in [Register::RDI, Register::RSI, Register::RDX, Register::RCX, Register::R8, Register::R9]
        .iter()
        .zip(1u64..)
    {
        emulator.write_register(*r, v);
    }
    emulator.call(entry(&module, base, "f"), &[100]);
    assert_eq!(emulator.read_register(Register::RAX), 6u64.wrapping_sub(100));
}

#[test]
fn eighth_parameter_follows_the_seventh() {
    let src = r#"(module (func (export "f")
        (param i64 i64 i64 i64 i64 i64 i64 i64) (result i64)
        i64.sub))"#;
    let module = compile(src);
    let mut emulator = Emulator::new();
    let base = emulator.add_module(&module);
    emulator.call(entry(&module, base, "f"), &[50, 8]);
    assert_eq!(emulator.read_register(Register::RAX), 42);
}

#[test]
fn locals_interleaved_round_trip() {
    let src = r#"(module (func (export "f") (param i64 i64) (result i64 i64) (local i64 i32)
        local.set 1 local.set 0 local.get 0 local.get 1))"#;
    let module = compile(src);
    let mut emulator = Emulator::new();
    let base = emulator.add_module(&module);
    emulator.write_register(Register::RDI, 0x1_2345_6789);
    emulator.write_register(Register::RSI, 0x9_0000_0007);
    emulator.call(entry(&module, base, "f"), &[]);
    assert_eq!(emulator.read_register(Register::RAX), 0x1_2345_6789);
    assert_eq!(emulator.read_register(Register::RDX), 7);
}

#[test]
fn two_results_come_back_in_order() {
    let module = compile(r#"(module (func (export "f") (result i64 i64) i64.const 1 i64.const 2))"#);
    let mut emulator = Emulator::new();
    let base = emulator.add_module(&module);
    emulator.call(entry(&module, base, "f"), &[]);
    assert_eq!(emulator.read_register(Register::RAX), 1);
    assert_eq!(emulator.read_register(Register::RDX), 2);
}

#[test]
fn call_with_arguments_and_results() {
    let src = r#"(module
        (func (export "main") (result i64) i64.const 50 i64.const 8 call $sub)
        (func $sub (param i64 i64) (result i64) i64.sub))"#;
    let module = compile(src);
    let mut emulator = Emulator::new();
    let base = emulator.add_module(&module);
    emulator.call(entry(&module, base, "main"), &[]);
    assert_eq!(emulator.read_register(Register::RAX), 42);
}

#[test]
fn forward_and_recursive_chain_runs_each_function_once() {
    let src = r#"(module
        (func (export "a") call $b)
        (func $b call $c)
        (func $c))"#;
    let module = compile(src);
    let mut emulator = Emulator::new();
    let base = emulator.add_module(&module);
    emulator.call(entry(&module, base, "a"), &[]);
    for i in 0u32..3 {
        let at = base + module.function_entry_point(i).unwrap() as u64;
        assert_eq!(emulator.execution_count(at), 1);
    }
}

fn alternating_sub(args: &[u64]) -> u64 {
    let mut acc = *args.last().unwrap();
    for a in args[..args.len() - 1].iter().rev() {
        acc = a.wrapping_sub(acc);
    }
    acc
}

#[test]
fn call_with_eight_arguments() {
    let src = r#"(module
        (func (export "main") (result i64)
            i64.const 1 i64.const 20 i64.const 300 i64.const 4000
            i64.const 50000 i64.const 600000 i64.const 7000000 i64.const 80000000
            call $f)
        (func $f (param i64 i64 i64 i64 i64 i64 i64 i64) (result i64)
            i64.sub i64.sub i64.sub i64.sub i64.sub i64.sub i64.sub))"#;
    let module = compile(src);
    let mut emulator = Emulator::new();
    let base = emulator.add_module(&module);
    let sp = emulator.read_register(Register::RSP);
    emulator.call(entry(&module, base, "main"), &[]);
    let args = [1u64, 20, 300, 4000, 50000, 600000, 7000000, 80000000];
    assert_eq!(emulator.read_register(Register::RAX), alternating_sub(&args));
    assert_eq!(emulator.read_register(Register::RSP), sp);
}

#[test]
fn call_with_seven_arguments_then_more_work() {
    let src = r#"(module
        (func (export "main") (result i64)
            i64.const 100
            i64.const 1 i64.const 2 i64.const 3 i64.const 4 i64.const 5 i64.const 6 i64.const 7
            call $f
            i64.sub)
        (func $f (param i64 i64 i64 i64 i64 i64 i64) (result i64)
            i64.add i64.add i64.add i64.add i64.add i64.add))"#;
    let module = compile(src);
    let mut emulator = Emulator::new();
    let base = emulator.add_module(&module);
    emulator.call(entry(&module, base, "main"), &[]);
    assert_eq!(emulator.read_register(Register::RAX), 100 - 28);
}
