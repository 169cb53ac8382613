//! Hands a listing to iced-x86's code assembler and returns the encoded
//! bytes and the final offset of every label.
use vstd::prelude::*;
use iced_x86::code_asm::{
    dword_ptr, ptr, qword_ptr, eax, ebp, ecx, edi, edx, esi, esp, r10, r10d, r8, r8d, r9, r9d, rax,
    rbp, rcx, rdi, rdx, rsi, rsp, AsmRegister32, AsmRegister64, CodeAssembler, CodeAssemblerResult,
    CodeLabel,
};
use iced_x86::{BlockEncoderOptions, IcedError};
use crate::module::le_bytes;
use crate::types::{Error, Inst, Reg};

verus! {

#[verifier::external_type_specification]
#[verifier::external_body]
pub struct ExCodeAssembler(CodeAssembler);

#[verifier::external_type_specification]
#[verifier::external_body]
pub struct ExCodeLabel(CodeLabel);

#[verifier::external_type_specification]
#[verifier::external_body]
pub struct ExCodeAssemblerResult(CodeAssemblerResult);

#[verifier::external_type_specification]
#[verifier::external_body]
pub struct ExIcedError(IcedError);

#[verifier::external_type_specification]
#[verifier::external_body]
pub struct ExAsmRegister64(AsmRegister64);

#[verifier::external_type_specification]
#[verifier::external_body]
pub struct ExAsmRegister32(AsmRegister32);

/// iced-x86's code assembler together with the labels made by it, in the
/// order they were made: label `i` is the `i`-th label this assembler made.
#[verifier::external_body]
pub struct Assembler {
    code: CodeAssembler,
    labels: Vec<CodeLabel>,
}

/// An assembler's encoding, with the labels it was made with.
#[verifier::external_body]
pub struct Encoded {
    result: CodeAssemblerResult,
    labels: Vec<CodeLabel>,
}

/// What an assembler holds: the instructions added to it, in order, with
/// `Label(i)` where label `i` was bound, at the place of the instruction it marks.
pub uninterp spec fn asm_listing(a: Assembler) -> Seq<Inst>;

/// How many labels an assembler has made.
pub uninterp spec fn asm_label_count(a: Assembler) -> nat;

/// The listing that an encoding was made from.
pub uninterp spec fn encoded_listing(e: Encoded) -> Seq<Inst>;

/// How many labels the assembler of an encoding had made.
pub uninterp spec fn encoded_label_count(e: Encoded) -> nat;

/// Whether iced-x86's block encoder, at base address 0, encodes a listing
/// (built as above) without error; this depends on the listing alone.
pub uninterp spec fn assembles(listing: Seq<Inst>) -> bool;

/// The bytes that iced-x86's block encoder produces for a listing at base
/// address 0; this depends on the listing alone.
pub uninterp spec fn machine_code(listing: Seq<Inst>) -> Seq<u8>;

/// Where label `label` of a listing ends up in its encoding at base address
/// 0, if the encoder reports a place for it; this depends on the listing alone.
pub uninterp spec fn label_offset_of(listing: Seq<Inst>, label: nat) -> Option<u64>;

/// Eight bytes of data bound to a label are encoded, at the label's offset,
/// as the value's little-endian bytes.
pub open spec fn data_at_labels(l: Seq<Inst>, bytes: Seq<u8>) -> bool {
    forall|k: int|
        0 <= k && k + 1 < l.len() && (#[trigger] l[k]) is Label && l[k + 1] is Data
            && label_offset_of(l, l[k]->Label_0 as nat) is Some ==> {
            let o = label_offset_of(l, l[k]->Label_0 as nat)->Some_0;
            &&& o + 8 <= bytes.len()
            &&& bytes.subrange(o as int, o + 8) == le_bytes(l[k + 1]->Data_0)
        }
}

/// Largest index of a stack argument whose displacement `16 + 8 * k` fits in
/// x86's signed 32-bit displacement.
pub const MAX_STACK_ARG: u32 = 0x0fff_fffd;

/// Whether item `k` of a listing can be added to an assembler with `n`
/// labels: its labels exist, a label is bound once and never twice in a
/// row, and its immediates fit.
pub open spec fn item_ok(l: Seq<Inst>, k: int, n: nat) -> bool {
    match l[k] {
        Inst::Label(i) => i < n && !l.take(k).contains(Inst::Label(i)) && !(k > 0 && l[k - 1] is Label),
        Inst::CallLabel(i) => i < n,
        Inst::LoadSlot(_, i) => i < n,
        Inst::PushArg(a) => a <= MAX_STACK_ARG,
        Inst::Reserve(m) => m <= 0x7fff_ffff,
        Inst::PushStack(d) => d <= 0x7fff_ffff,
        Inst::LoadStack(_, d) => d <= 0x7fff_ffff,
        Inst::Release(m) => m <= 0x7fff_ffff,
        _ => true,
    }
}

pub open spec fn emittable(l: Seq<Inst>, n: nat) -> bool {
    forall|k: int| 0 <= k < l.len() ==> item_ok(l, k, n)
}

/// Relies on iced-x86's register constants: the 64-bit register of each name.
#[verifier::external_body]
fn reg64(r: Reg) -> AsmRegister64 {
    match r {
        Reg::Rax => rax, Reg::Rcx => rcx, Reg::Rdx => rdx, Reg::Rsi => rsi, Reg::Rdi => rdi,
        Reg::R8 => r8, Reg::R9 => r9, Reg::R10 => r10, Reg::Rbp => rbp, Reg::Rsp => rsp,
    }
}

/// Relies on iced-x86's register constants: the low 32 bits of each register.
#[verifier::external_body]
fn reg32(r: Reg) -> AsmRegister32 {
    match r {
        Reg::Rax => eax, Reg::Rcx => ecx, Reg::Rdx => edx, Reg::Rsi => esi, Reg::Rdi => edi,
        Reg::R8 => r8d, Reg::R9 => r9d, Reg::R10 => r10d, Reg::Rbp => ebp, Reg::Rsp => esp,
    }
}

/// Relies on `CodeAssembler::new(64)`, which accepts 64 bits: a 64-bit
/// assembler holding nothing, with no labels yet.
#[verifier::external_body]
fn new_assembler() -> (r: Result<Assembler, IcedError>)
    ensures
        r is Ok,
        r matches Ok(a) ==> asm_listing(a) == Seq::<Inst>::empty() && asm_label_count(a) == 0,
{
    Ok(Assembler { code: CodeAssembler::new(64)?, labels: Vec::new() })
}

/// Relies on `CodeAssembler::create_label`: a fresh label, no instruction added.
#[verifier::external_body]
fn add_label(a: &mut Assembler)
    ensures
        asm_listing(*final(a)) == asm_listing(*old(a)),
        asm_label_count(*final(a)) == asm_label_count(*old(a)) + 1,
{
    let l = a.code.create_label();
    a.labels.push(l)
}

/// Relies on `CodeAssembler::set_label`: binds label `i` to the next
/// instruction; it fails where the label is already bound or the previous
/// call bound a label that no instruction has taken yet.
#[verifier::external_body]
fn set_label(a: &mut Assembler, i: u32) -> (r: Result<(), IcedError>)
    requires
        i < asm_label_count(*old(a)),
    ensures
        asm_label_count(*final(a)) == asm_label_count(*old(a)),
        r is Ok <==> !asm_listing(*old(a)).contains(Inst::Label(i)) && !(asm_listing(*old(a)).len()
            > 0 && asm_listing(*old(a)).last() is Label),
        r is Ok ==> asm_listing(*final(a)) == asm_listing(*old(a)).push(Inst::Label(i)),
{
    a.code.set_label(&mut a.labels[i as usize])
}

/// Relies on `CodeAssembler::encode` by way of `assemble_options` at base
/// address 0 with the new instruction offsets: the encoded bytes, each
/// `dq` at a label encoded at that label's offset as its little-endian bytes.
#[verifier::external_body]
fn encode(a: Assembler) -> (r: Result<(Vec<u8>, Encoded), IcedError>)
    ensures
        r is Ok <==> assembles(asm_listing(a)),
        r matches Ok((bytes, e)) ==> {
            &&& bytes@ == machine_code(asm_listing(a))
            &&& data_at_labels(asm_listing(a), bytes@)
            &&& encoded_listing(e) == asm_listing(a)
            &&& encoded_label_count(e) == asm_label_count(a)
        },
{
    let mut code = a.code;
    let res = code.assemble_options(0, BlockEncoderOptions::RETURN_NEW_INSTRUCTION_OFFSETS)?;
    Ok((res.inner.code_buffer.clone(), Encoded { result: res, labels: a.labels }))
}

/// Relies on `CodeAssemblerResult::label_ip`: where label `i` ended up.
#[verifier::external_body]
fn label_offset(e: &Encoded, i: u32) -> (r: Result<u64, IcedError>)
    requires
        i < encoded_label_count(*e),
    ensures
        match r {
            Ok(o) => label_offset_of(encoded_listing(*e), i as nat) == Some(o),
            Err(_) => label_offset_of(encoded_listing(*e), i as nat) is None,
        },
{
    e.result.label_ip(&e.labels[i as usize])
}

/// Relies on `CodeAssembler::dq`: eight bytes of data; it adds one instruction and does not fail.
#[verifier::external_body]
fn data(a: &mut Assembler, v: u64) -> (r: Result<(), IcedError>)
    ensures
        asm_label_count(*final(a)) == asm_label_count(*old(a)),
        r is Ok,
        asm_listing(*final(a)) == asm_listing(*old(a)).push(Inst::Data(v)),
{
    a.code.dq(&[v])
}

/// Relies on `CodeAssembler::push` with a 64-bit register; it adds one instruction and does not fail.
#[verifier::external_body]
fn push(a: &mut Assembler, s: Reg) -> (r: Result<(), IcedError>)
    ensures
        asm_label_count(*final(a)) == asm_label_count(*old(a)),
        r is Ok,
        asm_listing(*final(a)) == asm_listing(*old(a)).push(Inst::Push(s)),
{
    a.code.push(reg64(s))
}

/// Relies on `CodeAssembler::pop` with a 64-bit register; it adds one instruction and does not fail.
#[verifier::external_body]
fn pop(a: &mut Assembler, d: Reg) -> (r: Result<(), IcedError>)
    ensures
        asm_label_count(*final(a)) == asm_label_count(*old(a)),
        r is Ok,
        asm_listing(*final(a)) == asm_listing(*old(a)).push(Inst::Pop(d)),
{
    a.code.pop(reg64(d))
}

/// Relies on `CodeAssembler::mov` with a 64-bit register and an immediate; it adds one instruction and does not fail.
#[verifier::external_body]
fn mov_imm(a: &mut Assembler, d: Reg, v: u64) -> (r: Result<(), IcedError>)
    ensures
        asm_label_count(*final(a)) == asm_label_count(*old(a)),
        r is Ok,
        asm_listing(*final(a)) == asm_listing(*old(a)).push(Inst::MovImm(d, v)),
{
    a.code.mov(reg64(d), v)
}

/// Relies on `CodeAssembler::mov` with two 64-bit registers; it adds one instruction and does not fail.
#[verifier::external_body]
fn mov_reg(a: &mut Assembler, d: Reg, s: Reg) -> (r: Result<(), IcedError>)
    ensures
        asm_label_count(*final(a)) == asm_label_count(*old(a)),
        r is Ok,
        asm_listing(*final(a)) == asm_listing(*old(a)).push(Inst::Mov(d, s)),
{
    a.code.mov(reg64(d), reg64(s))
}

/// Relies on `CodeAssembler::add` with two 64-bit registers; it adds one instruction and does not fail.
#[verifier::external_body]
fn add64(a: &mut Assembler, d: Reg, s: Reg) -> (r: Result<(), IcedError>)
    ensures
        asm_label_count(*final(a)) == asm_label_count(*old(a)),
        r is Ok,
        asm_listing(*final(a)) == asm_listing(*old(a)).push(Inst::Add64(d, s)),
{
    a.code.add(reg64(d), reg64(s))
}

/// Relies on `CodeAssembler::sub` with two 64-bit registers; it adds one instruction and does not fail.
#[verifier::external_body]
fn sub64(a: &mut Assembler, d: Reg, s: Reg) -> (r: Result<(), IcedError>)
    ensures
        asm_label_count(*final(a)) == asm_label_count(*old(a)),
        r is Ok,
        asm_listing(*final(a)) == asm_listing(*old(a)).push(Inst::Sub64(d, s)),
{
    a.code.sub(reg64(d), reg64(s))
}

/// Relies on `CodeAssembler::add` with two 32-bit registers; it adds one instruction and does not fail.
#[verifier::external_body]
fn add32(a: &mut Assembler, d: Reg, s: Reg) -> (r: Result<(), IcedError>)
    ensures
        asm_label_count(*final(a)) == asm_label_count(*old(a)),
        r is Ok,
        asm_listing(*final(a)) == asm_listing(*old(a)).push(Inst::Add32(d, s)),
{
    a.code.add(reg32(d), reg32(s))
}

/// Relies on `CodeAssembler::sub` with two 32-bit registers; it adds one instruction and does not fail.
#[verifier::external_body]
fn sub32(a: &mut Assembler, d: Reg, s: Reg) -> (r: Result<(), IcedError>)
    ensures
        asm_label_count(*final(a)) == asm_label_count(*old(a)),
        r is Ok,
        asm_listing(*final(a)) == asm_listing(*old(a)).push(Inst::Sub32(d, s)),
{
    a.code.sub(reg32(d), reg32(s))
}

/// Relies on `CodeAssembler::mov` from `qword [rbp - off]` to a 64-bit register; it adds one instruction and does not fail.
#[verifier::external_body]
fn load64(a: &mut Assembler, d: Reg, off: u32) -> (r: Result<(), IcedError>)
    ensures
        asm_label_count(*final(a)) == asm_label_count(*old(a)),
        r is Ok,
        asm_listing(*final(a)) == asm_listing(*old(a)).push(Inst::Load64(d, off)),
{
    a.code.mov(reg64(d), qword_ptr(rbp - off))
}

/// Relies on `CodeAssembler::mov` from `dword [rbp - off]` to a 32-bit register; it adds one instruction and does not fail.
#[verifier::external_body]
fn load32(a: &mut Assembler, d: Reg, off: u32) -> (r: Result<(), IcedError>)
    ensures
        asm_label_count(*final(a)) == asm_label_count(*old(a)),
        r is Ok,
        asm_listing(*final(a)) == asm_listing(*old(a)).push(Inst::Load32(d, off)),
{
    a.code.mov(reg32(d), dword_ptr(rbp - off))
}

/// Relies on `CodeAssembler::mov` from a 64-bit register to `qword [rbp - off]`; it adds one instruction and does not fail.
#[verifier::external_body]
fn store64(a: &mut Assembler, off: u32, s: Reg) -> (r: Result<(), IcedError>)
    ensures
        asm_label_count(*final(a)) == asm_label_count(*old(a)),
        r is Ok,
        asm_listing(*final(a)) == asm_listing(*old(a)).push(Inst::Store64(off, s)),
{
    a.code.mov(qword_ptr(rbp - off), reg64(s))
}

/// Relies on `CodeAssembler::mov` from a 32-bit register to `dword [rbp - off]`; it adds one instruction and does not fail.
#[verifier::external_body]
fn store32(a: &mut Assembler, off: u32, s: Reg) -> (r: Result<(), IcedError>)
    ensures
        asm_label_count(*final(a)) == asm_label_count(*old(a)),
        r is Ok,
        asm_listing(*final(a)) == asm_listing(*old(a)).push(Inst::Store32(off, s)),
{
    a.code.mov(dword_ptr(rbp - off), reg32(s))
}

/// Relies on `CodeAssembler::call` with a 64-bit register; it adds one instruction and does not fail.
#[verifier::external_body]
fn call_reg(a: &mut Assembler, s: Reg) -> (r: Result<(), IcedError>)
    ensures
        asm_label_count(*final(a)) == asm_label_count(*old(a)),
        r is Ok,
        asm_listing(*final(a)) == asm_listing(*old(a)).push(Inst::CallReg(s)),
{
    a.code.call(reg64(s))
}

/// Relies on `CodeAssembler::ret`; it adds one instruction and does not fail.
#[verifier::external_body]
fn ret(a: &mut Assembler) -> (r: Result<(), IcedError>)
    ensures
        asm_label_count(*final(a)) == asm_label_count(*old(a)),
        r is Ok,
        asm_listing(*final(a)) == asm_listing(*old(a)).push(Inst::Ret),
{
    a.code.ret()
}

/// Relies on `CodeAssembler::push` with `qword [rbp + disp]`; it adds one
/// instruction and does not fail.
#[verifier::external_body]
fn push_arg(a: &mut Assembler, k: u32, disp: u32) -> (r: Result<(), IcedError>)
    requires
        disp == 16 + 8 * k,
    ensures
        asm_label_count(*final(a)) == asm_label_count(*old(a)),
        r is Ok,
        asm_listing(*final(a)) == asm_listing(*old(a)).push(Inst::PushArg(k)),
{
    a.code.push(qword_ptr(rbp + disp))
}

/// Relies on `CodeAssembler::sub` with `rsp` and a 32-bit immediate; it
/// adds one instruction and does not fail.
#[verifier::external_body]
fn reserve(a: &mut Assembler, n: u32) -> (r: Result<(), IcedError>)
    requires
        n <= i32::MAX,
    ensures
        asm_label_count(*final(a)) == asm_label_count(*old(a)),
        r is Ok,
        asm_listing(*final(a)) == asm_listing(*old(a)).push(Inst::Reserve(n)),
{
    a.code.sub(rsp, n as i32)
}

/// Relies on `CodeAssembler::push` with `qword [rsp + d]`; it adds one
/// instruction and does not fail.
#[verifier::external_body]
fn push_stack(a: &mut Assembler, d: u32) -> (r: Result<(), IcedError>)
    ensures
        asm_label_count(*final(a)) == asm_label_count(*old(a)),
        r is Ok,
        asm_listing(*final(a)) == asm_listing(*old(a)).push(Inst::PushStack(d)),
{
    a.code.push(qword_ptr(rsp + d))
}

/// Relies on `CodeAssembler::mov` from `qword [rsp + d]` to a 64-bit
/// register; it adds one instruction and does not fail.
#[verifier::external_body]
fn load_stack(a: &mut Assembler, r: Reg, d: u32) -> (res: Result<(), IcedError>)
    ensures
        asm_label_count(*final(a)) == asm_label_count(*old(a)),
        res is Ok,
        asm_listing(*final(a)) == asm_listing(*old(a)).push(Inst::LoadStack(r, d)),
{
    a.code.mov(reg64(r), qword_ptr(rsp + d))
}

/// Relies on `CodeAssembler::add` with `rsp` and a 32-bit immediate; it
/// adds one instruction and does not fail.
#[verifier::external_body]
fn release(a: &mut Assembler, n: u32) -> (r: Result<(), IcedError>)
    requires
        n <= i32::MAX,
    ensures
        asm_label_count(*final(a)) == asm_label_count(*old(a)),
        r is Ok,
        asm_listing(*final(a)) == asm_listing(*old(a)).push(Inst::Release(n)),
{
    a.code.add(rsp, n as i32)
}

/// Relies on `CodeAssembler::call` with label `i`; it adds one instruction
/// and does not fail.
#[verifier::external_body]
fn call_label(a: &mut Assembler, i: u32) -> (r: Result<(), IcedError>)
    requires
        i < asm_label_count(*old(a)),
    ensures
        asm_label_count(*final(a)) == asm_label_count(*old(a)),
        r is Ok,
        asm_listing(*final(a)) == asm_listing(*old(a)).push(Inst::CallLabel(i)),
{
    a.code.call(a.labels[i as usize])
}

/// Relies on `CodeAssembler::mov` from the RIP-relative memory at label
/// `i`; it adds one instruction and does not fail.
#[verifier::external_body]
fn load_slot(a: &mut Assembler, d: Reg, i: u32) -> (r: Result<(), IcedError>)
    requires
        i < asm_label_count(*old(a)),
    ensures
        asm_label_count(*final(a)) == asm_label_count(*old(a)),
        r is Ok,
        asm_listing(*final(a)) == asm_listing(*old(a)).push(Inst::LoadSlot(d, i)),
{
    a.code.mov(reg64(d), ptr(a.labels[i as usize]))
}

fn lift(r: Result<(), IcedError>) -> (e: Result<(), Error>)
    ensures
        e is Ok == r is Ok,
        e matches Err(x) ==> x == Error::AssemblyFailure,
{
    match r {
        Ok(()) => Ok(()),
        Err(_) => Err(Error::AssemblyFailure),
    }
}

/// Adds one instruction of the listing to the assembler.
#[verifier::spinoff_prover]
#[verifier::rlimit(60)]
fn emit_one(a: &mut Assembler, inst: Inst, n: u32) -> (r: Result<(), Error>)
    requires
        n == asm_label_count(*old(a)),
    ensures
        asm_label_count(*final(a)) == asm_label_count(*old(a)),
        r is Ok <==> item_ok(asm_listing(*old(a)).push(inst), asm_listing(*old(a)).len() as int, asm_label_count(*old(a))),
        r is Ok ==> asm_listing(*final(a)) == asm_listing(*old(a)).push(inst),
        r matches Err(e) ==> e == Error::AssemblyFailure,
{
    let ghost l = asm_listing(*old(a)).push(inst);
    let ghost pos = asm_listing(*old(a)).len() as int;
    assert(l.take(pos) =~= asm_listing(*old(a)));
    assert(l[pos] == inst);
    assert(pos > 0 ==> l[pos - 1] == asm_listing(*old(a)).last());
    match inst {
        Inst::Label(i) => {
            if i >= n {
                return Err(Error::AssemblyFailure);
            }
            lift(set_label(a, i))
        },
        Inst::Data(v) => lift(data(a, v)),
        Inst::Push(s) => lift(push(a, s)),
        Inst::Pop(d) => lift(pop(a, d)),
        Inst::PushArg(k) => {
            if k > MAX_STACK_ARG {
                return Err(Error::AssemblyFailure);
            }
            lift(push_arg(a, k, 16 + 8 * k))
        },
        Inst::MovImm(d, v) => lift(mov_imm(a, d, v)),
        Inst::Mov(d, s) => lift(mov_reg(a, d, s)),
        Inst::Add64(d, s) => lift(add64(a, d, s)),
        Inst::Sub64(d, s) => lift(sub64(a, d, s)),
        Inst::Add32(d, s) => lift(add32(a, d, s)),
        Inst::Sub32(d, s) => lift(sub32(a, d, s)),
        Inst::Load64(d, off) => lift(load64(a, d, off)),
        Inst::Load32(d, off) => lift(load32(a, d, off)),
        Inst::Store64(off, s) => lift(store64(a, off, s)),
        Inst::Store32(off, s) => lift(store32(a, off, s)),
        Inst::Reserve(n) => {
            if n > 0x7fff_ffff {
                return Err(Error::AssemblyFailure);
            }
            lift(reserve(a, n))
        },
        Inst::CallLabel(i) => {
            if i >= n {
                return Err(Error::AssemblyFailure);
            }
            lift(call_label(a, i))
        },
        Inst::LoadSlot(d, i) => {
            if i >= n {
                return Err(Error::AssemblyFailure);
            }
            lift(load_slot(a, d, i))
        },
        Inst::PushStack(d) => {
            if d > 0x7fff_ffff {
                return Err(Error::AssemblyFailure);
            }
            lift(push_stack(a, d))
        },
        Inst::LoadStack(r, d) => {
            if d > 0x7fff_ffff {
                return Err(Error::AssemblyFailure);
            }
            lift(load_stack(a, r, d))
        },
        Inst::Release(m) => {
            if m > 0x7fff_ffff {
                return Err(Error::AssemblyFailure);
            }
            lift(release(a, m))
        },
        Inst::CallReg(s) => lift(call_reg(a, s)),
        Inst::Ret => lift(ret(a)),
    }
}


proof fn lemma_item_ok_prefix(l: Seq<Inst>, j: int, k: int, n: nat)
    requires
        0 <= k < j <= l.len(),
    ensures
        item_ok(l.take(j), k, n) == item_ok(l, k, n),
{
    assert(l.take(j).take(k) =~= l.take(k));
    assert(l.take(j)[k] == l[k]);
    if k > 0 {
        assert(l.take(j)[k - 1] == l[k - 1]);
    }
}

/// Assembles `listing`, with `n_labels` labels numbered from 0, into
/// machine code; returns the code and the offset of every label in it. It
/// succeeds exactly when every item can be added, the encoder accepts the
/// listing, and the encoder places every label.
pub fn assemble(listing: &Vec<Inst>, n_labels: u32) -> (r: Result<(Vec<u8>, Vec<u64>), Error>)
    ensures
        r is Ok <==> emittable(listing@, n_labels as nat) && assembles(listing@) && forall|i: nat|
            i < n_labels ==> (#[trigger] label_offset_of(listing@, i)) is Some,
        r matches Ok((bytes, offsets)) ==> {
            &&& bytes@ == machine_code(listing@)
            &&& data_at_labels(listing@, bytes@)
            &&& offsets@.len() == n_labels
            &&& forall|i: int| 0 <= i < n_labels ==> label_offset_of(listing@, i as nat) == Some(#[trigger] offsets@[i])
        },
        r matches Err(e) ==> e == Error::AssemblyFailure,
{
    let mut a = match new_assembler() {
        Ok(a) => a,
        Err(_) => {
            return Err(Error::AssemblyFailure);
        },
    };
    let mut k: u32 = 0;
    while k < n_labels
        invariant
            k <= n_labels,
            asm_label_count(a) == k,
            asm_listing(a) == Seq::<Inst>::empty(),
        decreases n_labels - k,
    {
        add_label(&mut a);
        k += 1;
    }
    let mut i: usize = 0;
    while i < listing.len()
        invariant
            i <= listing.len(),
            asm_label_count(a) == n_labels,
            asm_listing(a) == listing@.take(i as int),
            forall|j: int| 0 <= j < i ==> item_ok(listing@, j, n_labels as nat),
        decreases listing.len() - i,
    {
        assert(listing@.take(i + 1) =~= listing@.take(i as int).push(listing@[i as int]));
        proof {
            lemma_item_ok_prefix(listing@, i + 1, i as int, n_labels as nat);
        }
        match emit_one(&mut a, listing[i], n_labels) {
            Ok(()) => {},
            Err(e) => {
                return Err(e);
            },
        }
        i += 1;
    }
    assert(listing@.take(i as int) =~= listing@);
    let (bytes, enc) = match encode(a) {
        Ok(out) => out,
        Err(_) => {
            return Err(Error::AssemblyFailure);
        },
    };
    let mut offsets: Vec<u64> = Vec::new();
    let mut j: u32 = 0;
    while j < n_labels
        invariant
            j <= n_labels,
            encoded_listing(enc) == listing@,
            encoded_label_count(enc) == n_labels,
            offsets@.len() == j,
            forall|q: int| 0 <= q < j ==> label_offset_of(listing@, q as nat) == Some(#[trigger] offsets@[q]),
        decreases n_labels - j,
    {
        match label_offset(&enc, j) {
            Ok(off) => offsets.push(off),
            Err(_) => {
                return Err(Error::AssemblyFailure);
            },
        }
        j += 1;
    }
    assert forall|q: nat| q < n_labels implies (#[trigger] label_offset_of(listing@, q)) is Some by {
        assert(label_offset_of(listing@, q as int as nat) == Some(offsets@[q as int]));
    }
    Ok((bytes, offsets))
}

} // verus!
