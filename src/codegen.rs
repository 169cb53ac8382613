//! Per-function code generation: the bytecode's operand stack maps onto the
//! native stack, one operator at a time.
use vstd::prelude::*;
use crate::types::{Error, FuncSig, Inst, Op, Reg, ValType, MAX_FRAME};

verus! {

/// Largest number of arguments a call may pass, so that its stack
/// displacements fit in a signed 32-bit displacement.
pub const MAX_CALL_ARGS: u32 = 0x0400_0000;

/// Largest number of parameters whose stack displacement fits in 32 bits.
pub const MAX_PARAMS: u32 = 0x0fff_ffff;

/// The frame-relative slot of one local variable: it lives at `rbp - offset`.
#[derive(Clone, Copy, Debug, PartialEq, Eq, Structural)]
pub struct LocalSlot {
    pub offset: u32,
    pub ty: ValType,
}

/// What code generation needs to know of the whole module: the type table,
/// the type index of each function index, and how many functions are imported.
pub struct CodeContext<'a> {
    pub types: &'a Vec<FuncSig>,
    pub func_types: Vec<u32>,
    pub n_imports: u32,
}

/// Integer argument registers, in calling-convention order.
pub open spec fn arg_reg(k: nat) -> Reg {
    if k == 0 {
        Reg::Rdi
    } else if k == 1 {
        Reg::Rsi
    } else if k == 2 {
        Reg::Rdx
    } else if k == 3 {
        Reg::Rcx
    } else if k == 4 {
        Reg::R8
    } else {
        Reg::R9
    }
}

pub open spec fn all_int(tys: Seq<ValType>) -> bool {
    forall|i: int| 0 <= i < tys.len() ==> (#[trigger] tys[i]).is_int()
}

pub open spec fn all_sized(tys: Seq<ValType>) -> bool {
    forall|i: int| 0 <= i < tys.len() ==> (#[trigger] tys[i]) != ValType::Other
}

/// Bytes taken by a sequence of locals.
pub open spec fn frame_size(tys: Seq<ValType>) -> nat
    decreases tys.len(),
{
    if tys.len() == 0 {
        0
    } else {
        frame_size(tys.drop_last()) + tys.last().width()
    }
}

/// The Locals Table: the offset of local `i` below the frame base is the
/// total width of locals `0` through `i`, so that the locals lie downward in
/// declaration order without overlapping.
pub open spec fn layout(tys: Seq<ValType>) -> Seq<LocalSlot> {
    Seq::new(
        tys.len(),
        |i: int| LocalSlot { offset: frame_size(tys.take(i + 1)) as u32, ty: tys[i] },
    )
}

/// How parameter `k` reaches the function: a register for the first six,
/// the caller's stack for the rest.
pub open spec fn param_push(k: nat) -> Inst {
    if k < 6 {
        Inst::Push(arg_reg(k))
    } else {
        Inst::PushArg((k - 6) as u32)
    }
}

pub open spec fn param_pushes(n: nat) -> Seq<Inst>
    decreases n,
{
    if n == 0 {
        seq![]
    } else {
        param_pushes((n - 1) as nat).push(param_push((n - 1) as nat))
    }
}

pub open spec fn frame_setup(size: nat) -> Seq<Inst> {
    if size == 0 {
        seq![Inst::Push(Reg::Rbp), Inst::Mov(Reg::Rbp, Reg::Rsp)]
    } else {
        seq![Inst::Push(Reg::Rbp), Inst::Mov(Reg::Rbp, Reg::Rsp), Inst::Reserve(size as u32)]
    }
}

/// Frame, locals reservation, then each parameter pushed in declaration order.
pub open spec fn prologue(n_params: nat, size: nat) -> Seq<Inst> {
    frame_setup(size) + param_pushes(n_params)
}

/// Pops up to two results (second register first) and tears the frame down.
pub open spec fn epilogue(n_returns: nat) -> Seq<Inst> {
    let pops = if n_returns == 0 {
        seq![]
    } else if n_returns == 1 {
        seq![Inst::Pop(Reg::Rax)]
    } else {
        seq![Inst::Pop(Reg::Rdx), Inst::Pop(Reg::Rax)]
    };
    pops + seq![Inst::Mov(Reg::Rsp, Reg::Rbp), Inst::Pop(Reg::Rbp), Inst::Ret]
}

/// Arguments of a call, popped into the argument registers, last one first.
pub open spec fn arg_pops(n: nat) -> Seq<Inst> {
    Seq::new(n, |j: int| Inst::Pop(arg_reg((n - 1 - j) as nat)))
}

pub open spec fn result_pushes(n: nat) -> Seq<Inst> {
    if n == 0 {
        seq![]
    } else if n == 1 {
        seq![Inst::Push(Reg::Rax)]
    } else {
        seq![Inst::Push(Reg::Rax), Inst::Push(Reg::Rdx)]
    }
}

/// The call itself: direct through a local function's label, or indirect
/// through an import's relocation slot.
pub open spec fn call_target(f: u32, imported: bool) -> Seq<Inst> {
    if imported {
        seq![Inst::LoadSlot(Reg::R10, f), Inst::CallReg(Reg::R10)]
    } else {
        seq![Inst::CallLabel(f)]
    }
}

/// Arguments past the sixth, copied so that the seventh lies on top of the
/// stack and each later one above it; argument `j` lies `8 * (n - 1 - j)`
/// bytes above the top before the copies.
pub open spec fn stack_copies(n: nat) -> Seq<Inst> {
    Seq::new((n - 6) as nat, |m: int| Inst::PushStack((16 * m) as u32))
}

/// The first six arguments, loaded into their registers from below the copies.
pub open spec fn reg_loads(n: nat) -> Seq<Inst> {
    Seq::new(6, |i: int| Inst::LoadStack(arg_reg(i as nat), (8 * (2 * n - 7 - i)) as u32))
}

/// How the arguments of a call reach the callee: popped into registers for
/// up to six, otherwise the rest copied onto the stack in the calling
/// convention's order and the first six loaded into registers.
pub open spec fn arg_setup(n: nat) -> Seq<Inst> {
    if n <= 6 {
        arg_pops(n)
    } else {
        stack_copies(n) + reg_loads(n)
    }
}

/// After a call with more than six arguments, its arguments and their copies are dropped.
pub open spec fn call_cleanup(n: nat) -> Seq<Inst> {
    if n <= 6 {
        seq![]
    } else {
        seq![Inst::Release((8 * (2 * n - 6)) as u32)]
    }
}

pub open spec fn call_code(f: u32, n_params: nat, n_returns: nat, imported: bool) -> Seq<Inst> {
    arg_setup(n_params) + call_target(f, imported) + call_cleanup(n_params) + result_pushes(n_returns)
}

/// The signature of callee `f`: function index to type index to type, one hop each.
pub open spec fn callee_sig(types: Seq<FuncSig>, func_types: Seq<u32>, f: u32) -> Option<
    (Seq<ValType>, Seq<ValType>),
> {
    if f < func_types.len() && func_types[f as int] < types.len() {
        let s = types[func_types[f as int] as int];
        Some((s.params@, s.results@))
    } else {
        None
    }
}

pub open spec fn binop(op: Op) -> Inst {
    match op {
        Op::I32Add => Inst::Add32(Reg::Rax, Reg::Rcx),
        Op::I32Sub => Inst::Sub32(Reg::Rax, Reg::Rcx),
        Op::I64Add => Inst::Add64(Reg::Rax, Reg::Rcx),
        _ => Inst::Sub64(Reg::Rax, Reg::Rcx),
    }
}

pub open spec fn local_load(s: LocalSlot) -> Inst {
    if s.ty.is_wide() {
        Inst::Load64(Reg::Rax, s.offset)
    } else {
        Inst::Load32(Reg::Rax, s.offset)
    }
}

pub open spec fn local_store(s: LocalSlot) -> Inst {
    if s.ty.is_wide() {
        Inst::Store64(s.offset, Reg::Rax)
    } else {
        Inst::Store32(s.offset, Reg::Rax)
    }
}

/// The code for one operator, or why there is none.
pub open spec fn op_code(
    op: Op,
    slots: Seq<LocalSlot>,
    types: Seq<FuncSig>,
    func_types: Seq<u32>,
    n_imports: u32,
) -> Result<Seq<Inst>, Error> {
    match op {
        Op::I32Const(v) => Ok(
            seq![
                Inst::MovImm(Reg::Rax, #[verifier::truncate] (#[verifier::truncate] (v as u32) as u64)),
                Inst::Push(Reg::Rax),
            ],
        ),
        Op::I64Const(v) => Ok(
            seq![Inst::MovImm(Reg::Rax, #[verifier::truncate] (v as u64)), Inst::Push(Reg::Rax)],
        ),
        Op::I32Add | Op::I32Sub | Op::I64Add | Op::I64Sub => Ok(
            seq![Inst::Pop(Reg::Rcx), Inst::Pop(Reg::Rax), binop(op), Inst::Push(Reg::Rax)],
        ),
        Op::LocalGet(i) => if i < slots.len() {
            Ok(seq![local_load(slots[i as int]), Inst::Push(Reg::Rax)])
        } else {
            Err(Error::MalformedModule)
        },
        Op::LocalSet(i) => if i < slots.len() {
            Ok(seq![Inst::Pop(Reg::Rax), local_store(slots[i as int])])
        } else {
            Err(Error::MalformedModule)
        },
        Op::Call(f) => match callee_sig(types, func_types, f) {
            None => Err(Error::MalformedModule),
            Some((ps, rs)) => if !all_int(ps) || !all_int(rs) || rs.len() > 2 {
                Err(Error::UnsupportedType)
            } else if ps.len() > MAX_CALL_ARGS {
                Err(Error::AssemblyFailure)
            } else {
                Ok(call_code(f, ps.len(), rs.len(), f < n_imports))
            },
        },
        Op::Nop | Op::End => Ok(seq![]),
        Op::Unsupported(name) => Err(Error::UnsupportedOperator(name)),
    }
}

/// The code for a sequence of operators; the first failing operator decides the error.
pub open spec fn body_code(
    ops: Seq<Op>,
    slots: Seq<LocalSlot>,
    types: Seq<FuncSig>,
    func_types: Seq<u32>,
    n_imports: u32,
) -> Result<Seq<Inst>, Error>
    decreases ops.len(),
{
    if ops.len() == 0 {
        Ok(seq![])
    } else {
        match body_code(ops.drop_last(), slots, types, func_types, n_imports) {
            Err(e) => Err(e),
            Ok(c) => match op_code(ops.last(), slots, types, func_types, n_imports) {
                Err(e) => Err(e),
                Ok(d) => Ok(c + d),
            },
        }
    }
}

/// The code for one whole function `f`: its label, prologue, body and epilogue.
pub open spec fn function_code(
    f: u32,
    params: Seq<ValType>,
    results: Seq<ValType>,
    locals: Seq<ValType>,
    ops: Seq<Op>,
    types: Seq<FuncSig>,
    func_types: Seq<u32>,
    n_imports: u32,
) -> Result<Seq<Inst>, Error> {
    if !all_int(params) || !all_int(results) || results.len() > 2 || !all_sized(locals) {
        Err(Error::UnsupportedType)
    } else if frame_size(locals) > MAX_FRAME || params.len() > MAX_PARAMS {
        Err(Error::AssemblyFailure)
    } else {
        match body_code(ops, layout(locals), types, func_types, n_imports) {
            Err(e) => Err(e),
            Ok(c) => Ok(
                seq![Inst::Label(f)] + prologue(params.len(), frame_size(locals)) + c + epilogue(
                    results.len(),
                ),
            ),
        }
    }
}


pub(crate) proof fn lemma_frame_size_mono(tys: Seq<ValType>, j: int)
    requires
        0 <= j <= tys.len(),
    ensures
        frame_size(tys.take(j)) <= frame_size(tys),
    decreases tys.len(),
{
    if j < tys.len() {
        assert(tys.drop_last().take(j) =~= tys.take(j));
        lemma_frame_size_mono(tys.drop_last(), j);
    } else {
        assert(tys.take(j) =~= tys);
    }
}

fn arg_register(k: usize) -> (r: Reg)
    ensures
        r == arg_reg(k as nat),
{
    if k == 0 {
        Reg::Rdi
    } else if k == 1 {
        Reg::Rsi
    } else if k == 2 {
        Reg::Rdx
    } else if k == 3 {
        Reg::Rcx
    } else if k == 4 {
        Reg::R8
    } else {
        Reg::R9
    }
}

fn is_int(t: ValType) -> (r: bool)
    ensures
        r == t.is_int(),
{
    match t {
        ValType::I32 | ValType::I64 => true,
        _ => false,
    }
}

/// Whether every kind in `tys` is an integer kind.
pub fn all_int_kinds(tys: &Vec<ValType>) -> (r: bool)
    ensures
        r == all_int(tys@),
{
    let mut i: usize = 0;
    while i < tys.len()
        invariant
            i <= tys.len(),
            forall|j: int| 0 <= j < i ==> (#[trigger] tys@[j]).is_int(),
        decreases tys.len() - i,
    {
        if !is_int(tys[i]) {
            return false;
        }
        i += 1;
    }
    true
}

fn all_sized_kinds(tys: &Vec<ValType>) -> (r: bool)
    ensures
        r == all_sized(tys@),
{
    let mut i: usize = 0;
    while i < tys.len()
        invariant
            i <= tys.len(),
            forall|j: int| 0 <= j < i ==> (#[trigger] tys@[j]) != ValType::Other,
        decreases tys.len() - i,
    {
        if let ValType::Other = tys[i] {
            return false;
        }
        i += 1;
    }
    true
}

fn width_of(t: ValType) -> (r: u32)
    requires
        t != ValType::Other,
    ensures
        r == t.width(),
{
    match t {
        ValType::I32 | ValType::F32 => 4,
        ValType::I64 | ValType::F64 => 8,
        ValType::Other => 0,
    }
}

/// Builds the Locals Table: each local's offset below the frame base, in
/// declaration order, sized by its kind.
pub fn layout_locals(tys: &Vec<ValType>) -> (r: Result<(Vec<LocalSlot>, u32), Error>)
    ensures
        !all_sized(tys@) ==> r == Err::<(Vec<LocalSlot>, u32), Error>(Error::UnsupportedType),
        all_sized(tys@) && frame_size(tys@) > MAX_FRAME ==> r == Err::<
            (Vec<LocalSlot>, u32),
            Error,
        >(Error::AssemblyFailure),
        all_sized(tys@) && frame_size(tys@) <= MAX_FRAME ==> (r matches Ok((slots, size)) && slots@
            == layout(tys@) && size == frame_size(tys@)),
{
    if !all_sized_kinds(tys) {
        return Err(Error::UnsupportedType);
    }
    let mut slots: Vec<LocalSlot> = Vec::new();
    let mut size: u32 = 0;
    let mut i: usize = 0;
    while i < tys.len()
        invariant
            i <= tys.len(),
            all_sized(tys@),
            size == frame_size(tys@.take(i as int)),
            size <= MAX_FRAME,
            slots@ =~= layout(tys@).take(i as int),
        decreases tys.len() - i,
    {
        let t = tys[i];
        assert(tys@.take(i + 1).drop_last() =~= tys@.take(i as int));
        assert(tys@.take(i + 1).last() == t);
        let w = width_of(t);
        if w > MAX_FRAME - size {
            proof {
                lemma_frame_size_mono(tys@, i + 1);
            }
            return Err(Error::AssemblyFailure);
        }
        size = size + w;
        slots.push(LocalSlot { offset: size, ty: t });
        i += 1;
        assert(slots@ =~= layout(tys@).take(i as int));
    }
    assert(tys@.take(i as int) =~= tys@);
    Ok((slots, size))
}

fn emit_arg_setup(n: usize, out: &mut Vec<Inst>)
    requires
        n <= MAX_CALL_ARGS,
    ensures
        final(out)@ == old(out)@ + arg_setup(n as nat),
{
    let ghost base = old(out)@;
    if n <= 6 {
        let mut j: usize = 0;
        while j < n
            invariant
                j <= n <= 6,
                out@ =~= base + arg_pops(n as nat).take(j as int),
            decreases n - j,
        {
            out.push(Inst::Pop(arg_register(n - 1 - j)));
            j += 1;
            assert(out@ =~= base + arg_pops(n as nat).take(j as int));
        }
        assert(arg_pops(n as nat).take(n as int) =~= arg_pops(n as nat));
    } else {
        let mut m: usize = 0;
        while m < n - 6
            invariant
                6 < n <= MAX_CALL_ARGS,
                m <= n - 6,
                out@ =~= base + stack_copies(n as nat).take(m as int),
            decreases n - 6 - m,
        {
            out.push(Inst::PushStack((16 * m) as u32));
            m += 1;
            assert(out@ =~= base + stack_copies(n as nat).take(m as int));
        }
        assert(stack_copies(n as nat).take(m as int) =~= stack_copies(n as nat));
        let ghost mid = out@;
        let mut i: usize = 0;
        while i < 6
            invariant
                6 < n <= MAX_CALL_ARGS,
                i <= 6,
                mid == base + stack_copies(n as nat),
                out@ =~= mid + reg_loads(n as nat).take(i as int),
            decreases 6 - i,
        {
            out.push(Inst::LoadStack(arg_register(i), (8 * (2 * n - 7 - i)) as u32));
            i += 1;
            assert(out@ =~= mid + reg_loads(n as nat).take(i as int));
        }
        assert(reg_loads(n as nat).take(6) =~= reg_loads(n as nat));
        assert(out@ =~= base + arg_setup(n as nat));
    }
}

/// Appends the code of one operator to `out`, or fails as `op_code` says.
pub fn op_to_code(op: &Op, slots: &Vec<LocalSlot>, ctx: &CodeContext, out: &mut Vec<Inst>) -> (r:
    Result<(), Error>)
    ensures
        match op_code(*op, slots@, ctx.types@, ctx.func_types@, ctx.n_imports) {
            Ok(c) => r is Ok && final(out)@ == old(out)@ + c,
            Err(e) => r == Err::<(), Error>(e),
        },
        r is Err ==> final(out)@ == old(out)@,
{
    let ghost base = old(out)@;
    match op {
        Op::I32Const(v) => {
            out.push(Inst::MovImm(Reg::Rax, *v as u32 as u64));
            out.push(Inst::Push(Reg::Rax));
        },
        Op::I64Const(v) => {
            out.push(Inst::MovImm(Reg::Rax, *v as u64));
            out.push(Inst::Push(Reg::Rax));
        },
        Op::I32Add | Op::I32Sub | Op::I64Add | Op::I64Sub => {
            let b = match op {
                Op::I32Add => Inst::Add32(Reg::Rax, Reg::Rcx),
                Op::I32Sub => Inst::Sub32(Reg::Rax, Reg::Rcx),
                Op::I64Add => Inst::Add64(Reg::Rax, Reg::Rcx),
                _ => Inst::Sub64(Reg::Rax, Reg::Rcx),
            };
            out.push(Inst::Pop(Reg::Rcx));
            out.push(Inst::Pop(Reg::Rax));
            out.push(b);
            out.push(Inst::Push(Reg::Rax));
        },
        Op::LocalGet(i) => {
            if (*i as usize) >= slots.len() {
                return Err(Error::MalformedModule);
            }
            let s = slots[*i as usize];
            let load = match s.ty {
                ValType::I64 | ValType::F64 => Inst::Load64(Reg::Rax, s.offset),
                _ => Inst::Load32(Reg::Rax, s.offset),
            };
            out.push(load);
            out.push(Inst::Push(Reg::Rax));
        },
        Op::LocalSet(i) => {
            if (*i as usize) >= slots.len() {
                return Err(Error::MalformedModule);
            }
            let s = slots[*i as usize];
            let store = match s.ty {
                ValType::I64 | ValType::F64 => Inst::Store64(s.offset, Reg::Rax),
                _ => Inst::Store32(s.offset, Reg::Rax),
            };
            out.push(Inst::Pop(Reg::Rax));
            out.push(store);
        },
        Op::Call(f) => {
            let f = *f;
            if (f as usize) >= ctx.func_types.len() {
                return Err(Error::MalformedModule);
            }
            let t = ctx.func_types[f as usize];
            if (t as usize) >= ctx.types.len() {
                return Err(Error::MalformedModule);
            }
            let sig = &ctx.types[t as usize];
            if !all_int_kinds(&sig.params) || !all_int_kinds(&sig.results) || sig.results.len() > 2 {
                return Err(Error::UnsupportedType);
            }
            if sig.params.len() > MAX_CALL_ARGS as usize {
                return Err(Error::AssemblyFailure);
            }
            let n = sig.params.len();
            emit_arg_setup(n, out);
            if f < ctx.n_imports {
                out.push(Inst::LoadSlot(Reg::R10, f));
                out.push(Inst::CallReg(Reg::R10));
            } else {
                out.push(Inst::CallLabel(f));
            }
            if n > 6 {
                out.push(Inst::Release((8 * (2 * n - 6)) as u32));
            }
            if sig.results.len() >= 1 {
                out.push(Inst::Push(Reg::Rax));
            }
            if sig.results.len() == 2 {
                out.push(Inst::Push(Reg::Rdx));
            }
        },
        Op::Nop | Op::End => {},
        Op::Unsupported(name) => {
            return Err(Error::UnsupportedOperator(name.clone()));
        },
    }
    assert(op_code(*op, slots@, ctx.types@, ctx.func_types@, ctx.n_imports) matches Ok(c) && (out@
        =~= base + c));
    Ok(())
}


fn emit_prologue(f: u32, n: usize, size: u32, out: &mut Vec<Inst>)
    requires
        n <= MAX_PARAMS,
    ensures
        final(out)@ == old(out)@ + seq![Inst::Label(f)] + prologue(n as nat, size as nat),
{
    let ghost base = old(out)@;
    out.push(Inst::Label(f));
    out.push(Inst::Push(Reg::Rbp));
    out.push(Inst::Mov(Reg::Rbp, Reg::Rsp));
    if size > 0 {
        out.push(Inst::Reserve(size));
    }
    let ghost head = base + seq![Inst::Label(f)] + frame_setup(size as nat);
    assert(out@ =~= head);
    let mut k: usize = 0;
    while k < n
        invariant
            k <= n <= MAX_PARAMS,
            out@ =~= head + param_pushes(k as nat),
        decreases n - k,
    {
        if k < 6 {
            out.push(Inst::Push(arg_register(k)));
        } else {
            out.push(Inst::PushArg((k - 6) as u32));
        }
        k += 1;
    }
    assert(out@ =~= base + seq![Inst::Label(f)] + prologue(n as nat, size as nat));
}

fn emit_body(ops: &Vec<Op>, slots: &Vec<LocalSlot>, ctx: &CodeContext, out: &mut Vec<Inst>) -> (r:
    Result<(), Error>)
    ensures
        match body_code(ops@, slots@, ctx.types@, ctx.func_types@, ctx.n_imports) {
            Ok(c) => r is Ok && final(out)@ == old(out)@ + c,
            Err(e) => r == Err::<(), Error>(e),
        },
{
    let ghost mid = old(out)@;
    let mut i: usize = 0;
    assert(mid + seq![] =~= mid);
    while i < ops.len()
        invariant
            i <= ops.len(),
            body_code(ops@.take(i as int), slots@, ctx.types@, ctx.func_types@, ctx.n_imports)
                matches Ok(c) && out@ =~= mid + c,
        decreases ops.len() - i,
    {
        assert(ops@.take(i + 1).drop_last() =~= ops@.take(i as int));
        assert(ops@.take(i + 1).last() == ops@[i as int]);
        match op_to_code(&ops[i], slots, ctx, out) {
            Ok(()) => {},
            Err(e) => {
                proof {
                    lemma_body_error_persists(
                        ops@,
                        i + 1,
                        slots@,
                        ctx.types@,
                        ctx.func_types@,
                        ctx.n_imports,
                    );
                }
                return Err(e);
            },
        }
        i += 1;
    }
    assert(ops@.take(i as int) =~= ops@);
    Ok(())
}

fn emit_epilogue(n: usize, out: &mut Vec<Inst>)
    requires
        n <= 2,
    ensures
        final(out)@ == old(out)@ + epilogue(n as nat),
{
    let ghost base = old(out)@;
    if n == 1 {
        out.push(Inst::Pop(Reg::Rax));
    } else if n == 2 {
        out.push(Inst::Pop(Reg::Rdx));
        out.push(Inst::Pop(Reg::Rax));
    }
    out.push(Inst::Mov(Reg::Rsp, Reg::Rbp));
    out.push(Inst::Pop(Reg::Rbp));
    out.push(Inst::Ret);
    assert(out@ =~= base + epilogue(n as nat));
}

/// Appends the code of function `f` (label, prologue, body, epilogue) to
/// `out`, or fails as `function_code` says.
pub fn compile_function(
    f: u32,
    sig: &FuncSig,
    locals: &Vec<ValType>,
    ops: &Vec<Op>,
    ctx: &CodeContext,
    out: &mut Vec<Inst>,
) -> (r: Result<(), Error>)
    ensures
        match function_code(
            f,
            sig.params@,
            sig.results@,
            locals@,
            ops@,
            ctx.types@,
            ctx.func_types@,
            ctx.n_imports,
        ) {
            Ok(c) => r is Ok && final(out)@ == old(out)@ + c,
            Err(e) => r == Err::<(), Error>(e),
        },
{
    let ghost base = old(out)@;
    if !all_int_kinds(&sig.params) || !all_int_kinds(&sig.results) || sig.results.len() > 2 {
        return Err(Error::UnsupportedType);
    }
    let (slots, size) = match layout_locals(locals) {
        Ok(l) => l,
        Err(e) => {
            return Err(e);
        },
    };
    if sig.params.len() > MAX_PARAMS as usize {
        return Err(Error::AssemblyFailure);
    }
    emit_prologue(f, sig.params.len(), size, out);
    let ghost mid = out@;
    match emit_body(ops, &slots, ctx, out) {
        Ok(()) => {},
        Err(e) => {
            return Err(e);
        },
    }
    let ghost body = out@;
    emit_epilogue(sig.results.len(), out);
    assert(out@ =~= base + (seq![Inst::Label(f)] + prologue(
        sig.params@.len(),
        frame_size(locals@),
    ) + body.subrange(mid.len() as int, body.len() as int) + epilogue(sig.results@.len())));
    Ok(())
}

/// Once a prefix of a body fails, every longer prefix fails with the same error.
proof fn lemma_body_error_persists(
    ops: Seq<Op>,
    j: int,
    slots: Seq<LocalSlot>,
    types: Seq<FuncSig>,
    func_types: Seq<u32>,
    n_imports: u32,
)
    requires
        0 <= j <= ops.len(),
        body_code(ops.take(j), slots, types, func_types, n_imports) is Err,
    ensures
        body_code(ops, slots, types, func_types, n_imports) == body_code(ops.take(j), slots, types, func_types, n_imports),
    decreases ops.len() - j,
{
    if j < ops.len() {
        assert(ops.take(j + 1).drop_last() =~= ops.take(j));
        lemma_body_error_persists(ops, j + 1, slots, types, func_types, n_imports);
    } else {
        assert(ops.take(j) =~= ops);
    }
}


pub open spec fn is_call(i: Inst) -> bool {
    i is CallLabel || i is CallReg
}

/// How many call instructions a listing holds.
pub open spec fn call_count(code: Seq<Inst>) -> nat
    decreases code.len(),
{
    if code.len() == 0 {
        0
    } else {
        call_count(code.drop_last()) + if is_call(code.last()) {
            1nat
        } else {
            0nat
        }
    }
}

/// How many call sites a body holds.
pub open spec fn call_sites(ops: Seq<Op>) -> nat
    decreases ops.len(),
{
    if ops.len() == 0 {
        0
    } else {
        call_sites(ops.drop_last()) + if ops.last() is Call {
            1nat
        } else {
            0nat
        }
    }
}

proof fn lemma_call_count_concat(a: Seq<Inst>, b: Seq<Inst>)
    ensures
        call_count(a + b) == call_count(a) + call_count(b),
    decreases b.len(),
{
    if b.len() == 0 {
        assert(a + b =~= a);
    } else {
        assert((a + b).drop_last() =~= a + b.drop_last());
        assert((a + b).last() == b.last());
        lemma_call_count_concat(a, b.drop_last());
    }
}

proof fn lemma_no_calls(c: Seq<Inst>)
    requires
        forall|i: int| 0 <= i < c.len() ==> !is_call(#[trigger] c[i]),
    ensures
        call_count(c) == 0,
    decreases c.len(),
{
    if c.len() > 0 {
        assert(!is_call(c[c.len() - 1]));
        let d = c.drop_last();
        assert forall|i: int| 0 <= i < d.len() implies !is_call(#[trigger] d[i]) by {
            assert(d[i] == c[i]);
        }
        lemma_no_calls(d);
    }
}

proof fn lemma_op_calls(op: Op, slots: Seq<LocalSlot>, types: Seq<FuncSig>, func_types: Seq<u32>, n_imports: u32)
    requires
        op_code(op, slots, types, func_types, n_imports) is Ok,
    ensures
        call_count(op_code(op, slots, types, func_types, n_imports)->Ok_0) == if op is Call {
            1nat
        } else {
            0nat
        },
{
    let c = op_code(op, slots, types, func_types, n_imports)->Ok_0;
    match op {
        Op::Call(f) => {
            let (ps, rs) = callee_sig(types, func_types, f)->Some_0;
            let pops = arg_setup(ps.len());
            let target = call_target(f, f < n_imports);
            let clean = call_cleanup(ps.len());
            let pushes = result_pushes(rs.len());
            assert(c == pops + target + clean + pushes);
            lemma_setup_plain(ps.len());
            lemma_no_calls(pops);
            lemma_no_calls(clean);
            lemma_no_calls(pushes);
            lemma_call_count_concat(pops, target);
            lemma_call_count_concat(pops + target, clean);
            lemma_call_count_concat(pops + target + clean, pushes);
            let t1 = target.drop_last();
            if f < n_imports {
                assert(t1 =~= seq![Inst::LoadSlot(Reg::R10, f)]);
                assert(t1.drop_last().len() == 0);
                assert(call_count(t1.drop_last()) == 0);
                assert(t1.last() == Inst::LoadSlot(Reg::R10, f));
                assert(call_count(t1) == 0);
                assert(target.last() == Inst::CallReg(Reg::R10));
            } else {
                assert(t1.len() == 0);
                assert(call_count(t1) == 0);
                assert(target.last() == Inst::CallLabel(f));
            }
            assert(call_count(target) == 1);
        },
        _ => {
            lemma_no_calls(c);
        },
    }
}

proof fn lemma_body_calls(ops: Seq<Op>, slots: Seq<LocalSlot>, types: Seq<FuncSig>, func_types: Seq<u32>, n_imports: u32)
    requires
        body_code(ops, slots, types, func_types, n_imports) is Ok,
    ensures
        call_count(body_code(ops, slots, types, func_types, n_imports)->Ok_0) == call_sites(ops),
    decreases ops.len(),
{
    if ops.len() > 0 {
        lemma_body_calls(ops.drop_last(), slots, types, func_types, n_imports);
        lemma_op_calls(ops.last(), slots, types, func_types, n_imports);
        lemma_call_count_concat(
            body_code(ops.drop_last(), slots, types, func_types, n_imports)->Ok_0,
            op_code(ops.last(), slots, types, func_types, n_imports)->Ok_0,
        );
    }
}

/// One call per call site. The code generated for a function holds exactly
/// as many call instructions as its body holds call operators, and the one
/// call instruction of a call to function `f` goes to `f`: directly through
/// its label where `f` is local, indirectly through the address loaded from
/// its relocation slot where `f` is imported.
pub proof fn law_one_call_per_call_site(
    f: u32,
    params: Seq<ValType>,
    results: Seq<ValType>,
    locals: Seq<ValType>,
    ops: Seq<Op>,
    types: Seq<FuncSig>,
    func_types: Seq<u32>,
    n_imports: u32,
    g: u32,
)
    requires
        function_code(f, params, results, locals, ops, types, func_types, n_imports) is Ok,
    ensures
        call_count(function_code(f, params, results, locals, ops, types, func_types, n_imports)->Ok_0)
            == call_sites(ops),
        op_code(Op::Call(g), layout(locals), types, func_types, n_imports) matches Ok(c) ==> {
            &&& call_count(c) == 1
            &&& g >= n_imports ==> exists|k: int| 0 <= k < c.len() && c[k] == Inst::CallLabel(g)
            &&& g < n_imports ==> exists|k: int|
                1 <= k < c.len() && #[trigger] c[k] == Inst::CallReg(Reg::R10) && c[k - 1] == Inst::LoadSlot(Reg::R10, g)
        },
{
    let slots = layout(locals);
    let size = frame_size(locals);
    let body = body_code(ops, slots, types, func_types, n_imports)->Ok_0;
    lemma_body_calls(ops, slots, types, func_types, n_imports);
    let head = seq![Inst::Label(f)] + prologue(params.len(), size);
    assert forall|i: int| 0 <= i < head.len() implies !is_call(#[trigger] head[i]) by {
        if i >= 1 {
            let pro = prologue(params.len(), size);
            assert(head[i] == pro[i - 1]);
            if i - 1 >= frame_setup(size).len() {
                lemma_param_pushes_index(params.len(), i - 1 - frame_setup(size).len());
            }
        }
    }
    lemma_no_calls(head);
    lemma_no_calls(epilogue(results.len()));
    lemma_call_count_concat(head, body);
    lemma_call_count_concat(head + body, epilogue(results.len()));
    if let Ok(c) = op_code(Op::Call(g), slots, types, func_types, n_imports) {
        lemma_op_calls(Op::Call(g), slots, types, func_types, n_imports);
        let (ps, rs) = callee_sig(types, func_types, g)->Some_0;
        lemma_setup_plain(ps.len());
        let n = ps.len();
        if g >= n_imports {
            assert(c[n as int] == Inst::CallLabel(g));
        } else {
            assert(c[n + 1int] == Inst::CallReg(Reg::R10));
            assert(c[n as int] == Inst::LoadSlot(Reg::R10, g));
        }
    }
}

/// The argument set-up of a call holds one item per argument, and neither
/// calls nor labels.
proof fn lemma_setup_plain(n: nat)
    ensures
        arg_setup(n).len() == n,
        no_labels(arg_setup(n)),
        forall|i: int| 0 <= i < arg_setup(n).len() ==> !is_call(#[trigger] arg_setup(n)[i]),
{
    let c = arg_setup(n);
    if n > 6 {
        let a = stack_copies(n);
        let b = reg_loads(n);
        assert forall|i: int| 0 <= i < c.len() implies !is_call(#[trigger] c[i]) && !(c[i] is Label) by {
            if i < a.len() {
                assert(c[i] == a[i]);
            } else {
                assert(c[i] == b[i - a.len()]);
            }
        }
    }
}

proof fn lemma_param_pushes_index(n: nat, i: int)
    requires
        0 <= i < param_pushes(n).len(),
    ensures
        param_pushes(n).len() == n,
        !is_call(param_pushes(n)[i]),
        !(param_pushes(n)[i] is Label),
    decreases n,
{
    lemma_param_pushes_len(n);
    if n > 0 {
        lemma_param_pushes_len((n - 1) as nat);
        if i < n - 1 {
            assert(param_pushes(n)[i] == param_pushes((n - 1) as nat)[i]);
            lemma_param_pushes_index((n - 1) as nat, i);
        } else {
            assert(param_pushes(n)[i] == param_push((n - 1) as nat));
        }
    }
}

proof fn lemma_param_pushes_len(n: nat)
    ensures
        param_pushes(n).len() == n,
    decreases n,
{
    if n > 0 {
        lemma_param_pushes_len((n - 1) as nat);
    }
}


pub open spec fn no_labels(c: Seq<Inst>) -> bool {
    forall|i: int| 0 <= i < c.len() ==> !(#[trigger] c[i] is Label)
}

/// How many times a listing binds label `f`.
pub open spec fn label_count(code: Seq<Inst>, f: u32) -> nat
    decreases code.len(),
{
    if code.len() == 0 {
        0
    } else {
        label_count(code.drop_last(), f) + if code.last() == Inst::Label(f) {
            1nat
        } else {
            0nat
        }
    }
}

pub(crate) proof fn lemma_label_count_concat(a: Seq<Inst>, b: Seq<Inst>, f: u32)
    ensures
        label_count(a + b, f) == label_count(a, f) + label_count(b, f),
    decreases b.len(),
{
    if b.len() == 0 {
        assert(a + b =~= a);
    } else {
        assert((a + b).drop_last() =~= a + b.drop_last());
        assert((a + b).last() == b.last());
        lemma_label_count_concat(a, b.drop_last(), f);
    }
}

pub(crate) proof fn lemma_no_labels_count(c: Seq<Inst>, f: u32)
    requires
        no_labels(c),
    ensures
        label_count(c, f) == 0,
    decreases c.len(),
{
    if c.len() > 0 {
        assert(!(c[c.len() - 1] is Label));
        let d = c.drop_last();
        assert(no_labels(d)) by {
            assert forall|i: int| 0 <= i < d.len() implies !(#[trigger] d[i] is Label) by {
                assert(d[i] == c[i]);
            }
        }
        lemma_no_labels_count(d, f);
    }
}

proof fn lemma_no_labels_concat(a: Seq<Inst>, b: Seq<Inst>)
    requires
        no_labels(a),
        no_labels(b),
    ensures
        no_labels(a + b),
{
    assert forall|i: int| 0 <= i < (a + b).len() implies !(#[trigger] (a + b)[i] is Label) by {
        if i < a.len() {
            assert((a + b)[i] == a[i]);
        } else {
            assert((a + b)[i] == b[i - a.len()]);
        }
    }
}

proof fn lemma_op_no_labels(op: Op, slots: Seq<LocalSlot>, types: Seq<FuncSig>, func_types: Seq<u32>, n_imports: u32)
    requires
        op_code(op, slots, types, func_types, n_imports) is Ok,
    ensures
        no_labels(op_code(op, slots, types, func_types, n_imports)->Ok_0),
{
    if let Op::Call(f) = op {
        let (ps, rs) = callee_sig(types, func_types, f)->Some_0;
        let pops = arg_setup(ps.len());
        let target = call_target(f, f < n_imports);
        let clean = call_cleanup(ps.len());
        let pushes = result_pushes(rs.len());
        lemma_setup_plain(ps.len());
        assert(no_labels(target));
        assert(no_labels(clean));
        assert(no_labels(pushes));
        lemma_no_labels_concat(pops, target);
        lemma_no_labels_concat(pops + target, clean);
        lemma_no_labels_concat(pops + target + clean, pushes);
    }
}

proof fn lemma_body_no_labels(ops: Seq<Op>, slots: Seq<LocalSlot>, types: Seq<FuncSig>, func_types: Seq<u32>, n_imports: u32)
    requires
        body_code(ops, slots, types, func_types, n_imports) is Ok,
    ensures
        no_labels(body_code(ops, slots, types, func_types, n_imports)->Ok_0),
    decreases ops.len(),
{
    if ops.len() > 0 {
        lemma_body_no_labels(ops.drop_last(), slots, types, func_types, n_imports);
        lemma_op_no_labels(ops.last(), slots, types, func_types, n_imports);
        lemma_no_labels_concat(
            body_code(ops.drop_last(), slots, types, func_types, n_imports)->Ok_0,
            op_code(ops.last(), slots, types, func_types, n_imports)->Ok_0,
        );
    }
}

/// The code of function `f` binds label `f` once, at its start, and no other label.
pub(crate) proof fn lemma_function_labels(
    f: u32,
    params: Seq<ValType>,
    results: Seq<ValType>,
    locals: Seq<ValType>,
    ops: Seq<Op>,
    types: Seq<FuncSig>,
    func_types: Seq<u32>,
    n_imports: u32,
    g: u32,
)
    requires
        function_code(f, params, results, locals, ops, types, func_types, n_imports) is Ok,
    ensures
        label_count(function_code(f, params, results, locals, ops, types, func_types, n_imports)->Ok_0, g)
            == if g == f {
            1nat
        } else {
            0nat
        },
{
    let size = frame_size(locals);
    let body = body_code(ops, layout(locals), types, func_types, n_imports)->Ok_0;
    let pro = prologue(params.len(), size);
    assert forall|i: int| 0 <= i < pro.len() implies !(#[trigger] pro[i] is Label) by {
        if i >= frame_setup(size).len() {
            lemma_param_pushes_index(params.len(), i - frame_setup(size).len());
            assert(pro[i] == param_pushes(params.len())[i - frame_setup(size).len()]);
            assert(!(param_pushes(params.len())[i - frame_setup(size).len()] is Label));
        }
    }
    lemma_body_no_labels(ops, layout(locals), types, func_types, n_imports);
    let epi = epilogue(results.len());
    assert(no_labels(epi));
    lemma_no_labels_concat(pro, body);
    lemma_no_labels_concat(pro + body, epi);
    let rest = pro + body + epi;
    lemma_no_labels_count(rest, g);
    let head = seq![Inst::Label(f)];
    assert(head.drop_last() =~= Seq::<Inst>::empty());
    assert(label_count(head.drop_last(), g) == 0);
    assert(label_count(head, g) == if g == f { 1nat } else { 0nat });
    assert(head + pro + body + epi =~= head + rest);
    lemma_label_count_concat(head, rest, g);
}

} // verus!
