//! The data model shared by the compiler's stages.
use vstd::prelude::*;

verus! {

/// Value kinds of the bytecode that the compiler distinguishes.
#[derive(Clone, Copy, Debug, PartialEq, Eq, Structural)]
pub enum ValType {
    I32,
    I64,
    F32,
    F64,
    /// Any kind outside the scalar ones (vectors, references).
    Other,
}

impl ValType {
    pub open spec fn is_int(self) -> bool {
        self == ValType::I32 || self == ValType::I64
    }

    pub open spec fn is_wide(self) -> bool {
        self == ValType::I64 || self == ValType::F64
    }

    /// Byte width of a local of this kind (vector and reference kinds have none).
    pub open spec fn width(self) -> nat {
        match self {
            ValType::I32 | ValType::F32 => 4,
            ValType::I64 | ValType::F64 => 8,
            ValType::Other => 0,
        }
    }
}

/// A function signature: parameter kinds and return kinds, in order.
#[derive(Clone, Debug)]
pub struct FuncSig {
    pub params: Vec<ValType>,
    pub results: Vec<ValType>,
}

/// The operators that the code generator distinguishes. Every operator of
/// the bytecode outside this subset arrives as `Unsupported`, carrying its name.
#[derive(Clone, Debug, PartialEq, Eq)]
pub enum Op {
    I32Const(i32),
    I64Const(i64),
    I32Add,
    I32Sub,
    I64Add,
    I64Sub,
    Call(u32),
    LocalGet(u32),
    LocalSet(u32),
    Nop,
    End,
    Unsupported(String),
}

/// Errors of compilation.
#[derive(Clone, Debug, PartialEq, Eq)]
pub enum Error {
    /// Structurally invalid or truncated input, or a reference to a function
    /// or type index that does not exist.
    MalformedModule,
    /// An operator outside the implemented subset, by name.
    UnsupportedOperator(String),
    /// A value kind outside the implemented subset.
    UnsupportedType,
    /// The instruction encoder rejected the emitted code.
    AssemblyFailure,
}

/// The 64-bit registers that generated code uses.
#[derive(Clone, Copy, Debug, PartialEq, Eq, Structural)]
pub enum Reg {
    Rax,
    Rcx,
    Rdx,
    Rsi,
    Rdi,
    R8,
    R9,
    R10,
    Rbp,
    Rsp,
}

/// One instruction of the emitted listing. Labels are numbered by function
/// index: label `f` marks the entry of local function `f`, or the relocation
/// slot of imported function `f`.
#[derive(Clone, Copy, Debug, PartialEq, Eq, Structural)]
pub enum Inst {
    /// Binds label `f` to the next item of the listing.
    Label(u32),
    /// Eight bytes of data (`dq`).
    Data(u64),
    /// `push r`
    Push(Reg),
    /// `pop r`
    Pop(Reg),
    /// `push qword [rbp + 16 + 8 * k]`: the `k`-th argument passed on the stack.
    PushArg(u32),
    /// `mov r, imm64`
    MovImm(Reg, u64),
    /// `mov dst, src`
    Mov(Reg, Reg),
    /// `add dst, src` on 64 bits.
    Add64(Reg, Reg),
    /// `sub dst, src` on 64 bits.
    Sub64(Reg, Reg),
    /// `add dst, src` on the low 32 bits, zero-extending the result.
    Add32(Reg, Reg),
    /// `sub dst, src` on the low 32 bits, zero-extending the result.
    Sub32(Reg, Reg),
    /// `mov r, qword [rbp - off]`
    Load64(Reg, u32),
    /// `mov r32, dword [rbp - off]`, zero-extending.
    Load32(Reg, u32),
    /// `mov qword [rbp - off], r`
    Store64(u32, Reg),
    /// `mov dword [rbp - off], r32`
    Store32(u32, Reg),
    /// `sub rsp, n`
    Reserve(u32),
    /// `push qword [rsp + d]`: copies a value already on the stack.
    PushStack(u32),
    /// `mov r, qword [rsp + d]`
    LoadStack(Reg, u32),
    /// `add rsp, n`: drops `n` bytes of the stack.
    Release(u32),
    /// `call` to the code at label `f`.
    CallLabel(u32),
    /// `mov r, qword [rip + label f]`: loads the contents of a relocation slot.
    LoadSlot(Reg, u32),
    /// `call r`
    CallReg(Reg),
    /// `ret`
    Ret,
}

/// Placeholder written into every relocation slot until it is linked.
pub const SENTINEL: u64 = 0xBADC0FFEE0DDF00D;

/// Largest frame, in bytes, that a 32-bit displacement below the frame base
/// can address.
pub const MAX_FRAME: u32 = 0x7fff_fff0;

} // verus!
