//! What generated code computes. An abstract machine gives the emitted
//! instructions their meaning over registers, the native stack, the locals
//! region of the frame and the arguments that the caller passed on its stack;
//! a reference semantics gives the bytecode's straight-line operators theirs.
//! The laws below prove that code generation preserves the meaning of
//! call-free function bodies under the calling convention.
use vstd::prelude::*;
use crate::codegen::{
    arg_reg, binop, body_code, epilogue, frame_setup, frame_size, function_code, layout,
    local_load, local_store, op_code, param_push, param_pushes, prologue, all_int, all_sized,
    lemma_frame_size_mono, LocalSlot,
};
use crate::types::{Error, FuncSig, Inst, Op, Reg, ValType, MAX_FRAME};
use crate::codegen::MAX_PARAMS;

verus! {

pub open spec fn wrap64(x: int) -> u64 {
    (x % 0x1_0000_0000_0000_0000) as u64
}

pub open spec fn wrap32(x: int) -> u64 {
    (x % 0x1_0000_0000) as u64
}

/// State of the abstract machine. `base` is the stack height at which the
/// current frame was established; `frame` maps an offset below the frame
/// base to the slot stored there; `args` are the caller's stack arguments.
pub struct MState {
    pub regs: Map<Reg, u64>,
    pub stack: Seq<u64>,
    pub base: nat,
    pub frame: Map<int, u64>,
    pub args: Seq<u64>,
}

/// Meaning of one instruction. Labels, data, the locals reservation and
/// control transfers leave the modelled state as it is: calls are outside
/// this model. A stack displacement `d` names the entry `d / 8` below the top.
pub open spec fn step(s: MState, i: Inst) -> MState {
    match i {
        Inst::Push(r) => MState { stack: s.stack.push(s.regs[r]), ..s },
        Inst::Pop(r) => if s.stack.len() > 0 {
            MState { regs: s.regs.insert(r, s.stack.last()), stack: s.stack.drop_last(), ..s }
        } else {
            s
        },
        Inst::PushArg(k) => MState { stack: s.stack.push(s.args[k as int]), ..s },
        Inst::MovImm(r, v) => MState { regs: s.regs.insert(r, v), ..s },
        Inst::PushStack(d) => MState {
            stack: s.stack.push(s.stack[s.stack.len() - 1 - d / 8]),
            ..s
        },
        Inst::LoadStack(r, d) => MState {
            regs: s.regs.insert(r, s.stack[s.stack.len() - 1 - d / 8]),
            ..s
        },
        Inst::Release(n) => MState { stack: s.stack.take(s.stack.len() - n / 8), ..s },
        Inst::Mov(d, r) => if d == Reg::Rbp && r == Reg::Rsp {
            MState { base: s.stack.len(), ..s }
        } else if d == Reg::Rsp && r == Reg::Rbp {
            MState { stack: s.stack.take(s.base as int), ..s }
        } else {
            MState { regs: s.regs.insert(d, s.regs[r]), ..s }
        },
        Inst::Add64(d, r) => MState {
            regs: s.regs.insert(d, wrap64(s.regs[d] + s.regs[r])),
            ..s
        },
        Inst::Sub64(d, r) => MState {
            regs: s.regs.insert(d, wrap64(s.regs[d] - s.regs[r] + 0x1_0000_0000_0000_0000)),
            ..s
        },
        Inst::Add32(d, r) => MState {
            regs: s.regs.insert(d, wrap32(wrap32(s.regs[d] as int) + wrap32(s.regs[r] as int))),
            ..s
        },
        Inst::Sub32(d, r) => MState {
            regs: s.regs.insert(
                d,
                wrap32(wrap32(s.regs[d] as int) - wrap32(s.regs[r] as int) + 0x1_0000_0000),
            ),
            ..s
        },
        Inst::Load64(r, off) => MState { regs: s.regs.insert(r, s.frame[off as int]), ..s },
        Inst::Load32(r, off) => MState {
            regs: s.regs.insert(r, wrap32(s.frame[off as int] as int)),
            ..s
        },
        Inst::Store64(off, r) => MState { frame: s.frame.insert(off as int, s.regs[r]), ..s },
        Inst::Store32(off, r) => MState {
            frame: s.frame.insert(off as int, wrap32(s.regs[r] as int)),
            ..s
        },
        _ => s,
    }
}

/// Meaning of a listing: its instructions in order.
pub open spec fn run(s: MState, code: Seq<Inst>) -> MState
    decreases code.len(),
{
    if code.len() == 0 {
        s
    } else {
        step(run(s, code.drop_last()), code.last())
    }
}

/// State of the bytecode's abstract machine: its operand stack and its locals.
pub struct WState {
    pub stack: Seq<u64>,
    pub locals: Seq<u64>,
}

pub open spec fn wpush(w: WState, v: u64) -> WState {
    WState { stack: w.stack.push(v), ..w }
}

pub open spec fn arith(op: Op, a: u64, b: u64) -> u64 {
    match op {
        Op::I32Add => wrap32(wrap32(a as int) + wrap32(b as int)),
        Op::I32Sub => wrap32(wrap32(a as int) - wrap32(b as int) + 0x1_0000_0000),
        Op::I64Add => wrap64(a + b),
        _ => wrap64(a - b + 0x1_0000_0000_0000_0000),
    }
}

/// What a local of kind `t` holds after `v` is written to it.
pub open spec fn stored(t: ValType, v: u64) -> u64 {
    if t.is_wide() {
        v
    } else {
        wrap32(v as int)
    }
}

/// Meaning of one straight-line operator; `None` where the operand stack
/// underflows, the local does not exist, or the operator is not straight-line.
pub open spec fn wstep(w: WState, op: Op, tys: Seq<ValType>) -> Option<WState> {
    let n = w.stack.len();
    match op {
        Op::I32Const(v) => Some(wpush(w, #[verifier::truncate] (#[verifier::truncate] (v as u32) as u64))),
        Op::I64Const(v) => Some(wpush(w, #[verifier::truncate] (v as u64))),
        Op::I32Add | Op::I32Sub | Op::I64Add | Op::I64Sub => if n >= 2 {
            Some(
                WState {
                    stack: w.stack.take(n - 2).push(arith(op, w.stack[n - 2], w.stack[n - 1])),
                    ..w
                },
            )
        } else {
            None
        },
        Op::LocalGet(i) => if i < tys.len() && i < w.locals.len() {
            Some(wpush(w, w.locals[i as int]))
        } else {
            None
        },
        Op::LocalSet(i) => if i < tys.len() && i < w.locals.len() && n >= 1 {
            Some(
                WState {
                    stack: w.stack.drop_last(),
                    locals: w.locals.update(i as int, stored(tys[i as int], w.stack.last())),
                },
            )
        } else {
            None
        },
        Op::Nop | Op::End => Some(w),
        _ => None,
    }
}

pub open spec fn wrun(w: WState, ops: Seq<Op>, tys: Seq<ValType>) -> Option<WState>
    decreases ops.len(),
{
    if ops.len() == 0 {
        Some(w)
    } else {
        match wrun(w, ops.drop_last(), tys) {
            None => None,
            Some(w1) => wstep(w1, ops.last(), tys),
        }
    }
}

/// The value that reading `slot` yields from the frame.
pub open spec fn slot_value(frame: Map<int, u64>, slot: LocalSlot) -> u64 {
    if slot.ty.is_wide() {
        frame[slot.offset as int]
    } else {
        wrap32(frame[slot.offset as int] as int)
    }
}

/// The value of parameter `k` on entry: a register for the first six, the
/// caller's stack for the rest.
pub open spec fn param_value(m: MState, k: nat) -> u64 {
    if k < 6 {
        m.regs[arg_reg(k)]
    } else {
        m.args[k - 6]
    }
}

/// The bytecode's state on entry: the parameters form the operand stack,
/// the locals hold what their frame slots hold.
pub open spec fn entry_state(m: MState, n_params: nat, tys: Seq<ValType>) -> WState {
    WState {
        stack: Seq::new(n_params, |k: int| param_value(m, k as nat)),
        locals: Seq::new(tys.len(), |i: int| slot_value(m.frame, layout(tys)[i])),
    }
}

pub open spec fn straight_line(ops: Seq<Op>) -> bool {
    forall|i: int| 0 <= i < ops.len() ==> !(#[trigger] ops[i] is Call)
}

pub open spec fn related(w: WState, m: MState, p: Seq<u64>, slots: Seq<LocalSlot>) -> bool {
    &&& m.stack == p + w.stack
    &&& w.locals.len() == slots.len()
    &&& forall|i: int| 0 <= i < slots.len() ==> w.locals[i] == #[trigger] slot_value(m.frame, slots[i])
}

pub open spec fn distinct_offsets(slots: Seq<LocalSlot>) -> bool {
    forall|i: int, j: int|
        0 <= i < slots.len() && 0 <= j < slots.len() && i != j ==> #[trigger] slots[i].offset
            != #[trigger] slots[j].offset
}

proof fn lemma_run_concat(s: MState, a: Seq<Inst>, b: Seq<Inst>)
    ensures
        run(s, a + b) == run(run(s, a), b),
    decreases b.len(),
{
    if b.len() == 0 {
        assert(a + b =~= a);
    } else {
        assert((a + b).drop_last() =~= a + b.drop_last());
        assert((a + b).last() == b.last());
        lemma_run_concat(s, a, b.drop_last());
    }
}

proof fn lemma_run1(s: MState, a: Inst)
    ensures
        run(s, seq![a]) == step(s, a),
{
    let e = seq![a].drop_last();
    assert(e =~= Seq::<Inst>::empty());
    assert(run(s, e) == s);
    assert(seq![a].last() == a);
}

proof fn lemma_run2(s: MState, a: Inst, b: Inst)
    ensures
        run(s, seq![a, b]) == step(step(s, a), b),
{
    assert(seq![a, b] =~= seq![a] + seq![b]);
    lemma_run_concat(s, seq![a], seq![b]);
    lemma_run1(s, a);
    lemma_run1(step(s, a), b);
}

proof fn lemma_run4(s: MState, a: Inst, b: Inst, c: Inst, d: Inst)
    ensures
        run(s, seq![a, b, c, d]) == step(step(step(step(s, a), b), c), d),
{
    assert(seq![a, b, c, d] =~= seq![a, b] + seq![c, d]);
    lemma_run_concat(s, seq![a, b], seq![c, d]);
    lemma_run2(s, a, b);
    lemma_run2(step(step(s, a), b), c, d);
}

proof fn lemma_layout_distinct(tys: Seq<ValType>)
    requires
        all_sized(tys),
        frame_size(tys) <= MAX_FRAME,
    ensures
        distinct_offsets(layout(tys)),
        forall|i: int| 0 <= i < tys.len() ==> (#[trigger] layout(tys)[i]).offset == frame_size(tys.take(i + 1)),
{
    assert forall|i: int| 0 <= i < tys.len() implies (#[trigger] layout(tys)[i]).offset == frame_size(tys.take(i + 1)) by {
        lemma_frame_size_mono(tys, i + 1);
    }
    assert forall|i: int, j: int|
        0 <= i < tys.len() && 0 <= j < tys.len() && i != j implies #[trigger] layout(tys)[i].offset
        != #[trigger] layout(tys)[j].offset by {
        lemma_frame_size_mono(tys, i + 1);
        lemma_frame_size_mono(tys, j + 1);
        if i < j {
            lemma_prefix_lt(tys, i + 1, j + 1);
        } else {
            lemma_prefix_lt(tys, j + 1, i + 1);
        }
    }
}

proof fn lemma_prefix_lt(tys: Seq<ValType>, i: int, j: int)
    requires
        all_sized(tys),
        0 <= i < j <= tys.len(),
    ensures
        frame_size(tys.take(i)) < frame_size(tys.take(j)),
    decreases j - i,
{
    let t = tys.take(j);
    assert(t.drop_last() =~= tys.take(j - 1));
    assert(t.last() == tys[j - 1]);
    if i < j - 1 {
        lemma_prefix_lt(tys, i, j - 1);
    }
}

proof fn lemma_sim_set(i: u32, tys: Seq<ValType>, w: WState, m: MState, p: Seq<u64>)
    requires
        distinct_offsets(layout(tys)),
        i < tys.len(),
        wstep(w, Op::LocalSet(i), tys) is Some,
        related(w, m, p, layout(tys)),
    ensures
        related(
            wstep(w, Op::LocalSet(i), tys)->Some_0,
            run(m, seq![Inst::Pop(Reg::Rax), local_store(layout(tys)[i as int])]),
            p,
            layout(tys),
        ),
        run(m, seq![Inst::Pop(Reg::Rax), local_store(layout(tys)[i as int])]).base == m.base,
{
    let slots = layout(tys);
    let w2 = wstep(w, Op::LocalSet(i), tys)->Some_0;
    let s = slots[i as int];
    lemma_run2(m, Inst::Pop(Reg::Rax), local_store(s));
    let m1 = step(m, Inst::Pop(Reg::Rax));
    let m2 = step(m1, local_store(s));
    let v = w.stack.last();
    assert(m.stack.last() == v);
    assert(m.stack.drop_last() =~= p + w.stack.drop_last());
    assert(m1.regs[Reg::Rax] == v);
    assert(s.ty == tys[i as int]);
    let sv = stored(tys[i as int], v);
    assert(m2.frame == m.frame.insert(s.offset as int, sv));
    assert forall|j: int| 0 <= j < slots.len() implies w2.locals[j] == #[trigger] slot_value(
        m2.frame,
        slots[j],
    ) by {
        if j != i {
            assert(slots[j].offset != s.offset);
            assert(m2.frame[slots[j].offset as int] == m.frame[slots[j].offset as int]);
            assert(slot_value(m2.frame, slots[j]) == slot_value(m.frame, slots[j]));
            assert(w2.locals[j] == w.locals[j]);
        } else {
            assert(m2.frame[s.offset as int] == sv);
            assert(wrap32(wrap32(v as int) as int) == wrap32(v as int));
            assert(w2.locals[j] == sv);
        }
    }
}

proof fn lemma_sim_arith(op: Op, w: WState, m: MState, p: Seq<u64>)
    requires
        op is I32Add || op is I32Sub || op is I64Add || op is I64Sub,
        w.stack.len() >= 2,
        m.stack == p + w.stack,
    ensures
        ({
            let n = w.stack.len();
            let m2 = run(m, seq![Inst::Pop(Reg::Rcx), Inst::Pop(Reg::Rax), binop(op), Inst::Push(Reg::Rax)]);
            &&& m2.stack == p + w.stack.take(n - 2).push(arith(op, w.stack[n - 2], w.stack[n - 1]))
            &&& m2.frame == m.frame
            &&& m2.base == m.base
        }),
{
    let n = w.stack.len();
    lemma_run4(m, Inst::Pop(Reg::Rcx), Inst::Pop(Reg::Rax), binop(op), Inst::Push(Reg::Rax));
    let s0 = m.stack;
    assert(s0.last() == w.stack[n - 1]);
    assert(s0.drop_last() =~= p + w.stack.take(n - 1));
    assert(s0.drop_last().last() == w.stack[n - 2]);
    assert(s0.drop_last().drop_last() =~= p + w.stack.take(n - 2));
    assert(p + w.stack.take(n - 2).push(arith(op, w.stack[n - 2], w.stack[n - 1])) =~= (p
        + w.stack.take(n - 2)).push(arith(op, w.stack[n - 2], w.stack[n - 1])));
}

proof fn lemma_sim_push(x: u64, w: WState, m: MState, p: Seq<u64>, slots: Seq<LocalSlot>)
    requires
        related(w, m, p, slots),
    ensures
        related(wpush(w, x), run(m, seq![Inst::MovImm(Reg::Rax, x), Inst::Push(Reg::Rax)]), p, slots),
        run(m, seq![Inst::MovImm(Reg::Rax, x), Inst::Push(Reg::Rax)]).base == m.base,
{
    lemma_run2(m, Inst::MovImm(Reg::Rax, x), Inst::Push(Reg::Rax));
    let m1 = step(m, Inst::MovImm(Reg::Rax, x));
    let m2 = step(m1, Inst::Push(Reg::Rax));
    assert(m1.regs[Reg::Rax] == x);
    assert(p + wpush(w, x).stack =~= (p + w.stack).push(x));
    assert(m2.frame == m.frame);
}

/// One straight-line operator keeps the two machines related.
#[verifier::spinoff_prover]
proof fn lemma_op_simulation(
    op: Op,
    tys: Seq<ValType>,
    types: Seq<FuncSig>,
    func_types: Seq<u32>,
    n_imports: u32,
    w: WState,
    m: MState,
    p: Seq<u64>,
)
    requires
        !(op is Call),
        distinct_offsets(layout(tys)),
        op_code(op, layout(tys), types, func_types, n_imports) is Ok,
        wstep(w, op, tys) is Some,
        related(w, m, p, layout(tys)),
    ensures
        related(
            wstep(w, op, tys)->Some_0,
            run(m, op_code(op, layout(tys), types, func_types, n_imports)->Ok_0),
            p,
            layout(tys),
        ),
        run(m, op_code(op, layout(tys), types, func_types, n_imports)->Ok_0).base == m.base,
{
    let slots = layout(tys);
    let w2 = wstep(w, op, tys)->Some_0;
    match op {
        Op::I32Const(v) => {
            let x = #[verifier::truncate] (#[verifier::truncate] (v as u32) as u64);
            lemma_sim_push(x, w, m, p, slots);
        },
        Op::I64Const(v) => {
            let x = #[verifier::truncate] (v as u64);
            lemma_sim_push(x, w, m, p, slots);
        },
        Op::I32Add | Op::I32Sub | Op::I64Add | Op::I64Sub => {
            lemma_sim_arith(op, w, m, p);
        },
        Op::LocalGet(i) => {
            lemma_run2(m, local_load(slots[i as int]), Inst::Push(Reg::Rax));
            let m1 = step(m, local_load(slots[i as int]));
            assert(w.locals[i as int] == slot_value(m.frame, slots[i as int]));
            assert(m1.regs[Reg::Rax] == w.locals[i as int]);
            assert(m1.frame == m.frame);
            assert(p + w2.stack =~= (p + w.stack).push(w.locals[i as int]));
        },
        Op::LocalSet(i) => {
            lemma_sim_set(i, tys, w, m, p);
        },
        Op::Nop | Op::End => {
            assert(op_code(op, slots, types, func_types, n_imports)->Ok_0 =~= Seq::<Inst>::empty());
        },
        _ => {},
    }
}

/// A straight-line body keeps the two machines related throughout.
proof fn lemma_body_simulation(
    ops: Seq<Op>,
    tys: Seq<ValType>,
    types: Seq<FuncSig>,
    func_types: Seq<u32>,
    n_imports: u32,
    w: WState,
    m: MState,
    p: Seq<u64>,
)
    requires
        straight_line(ops),
        distinct_offsets(layout(tys)),
        body_code(ops, layout(tys), types, func_types, n_imports) is Ok,
        wrun(w, ops, tys) is Some,
        related(w, m, p, layout(tys)),
    ensures
        related(
            wrun(w, ops, tys)->Some_0,
            run(m, body_code(ops, layout(tys), types, func_types, n_imports)->Ok_0),
            p,
            layout(tys),
        ),
        run(m, body_code(ops, layout(tys), types, func_types, n_imports)->Ok_0).base == m.base,
    decreases ops.len(),
{
    if ops.len() > 0 {
        let front = ops.drop_last();
        assert(straight_line(front)) by {
            assert forall|i: int| 0 <= i < front.len() implies !(#[trigger] front[i] is Call) by {
                assert(front[i] == ops[i]);
            }
        }
        assert(!(ops.last() is Call)) by {
            assert(ops.last() == ops[ops.len() - 1]);
        }
        lemma_body_simulation(front, tys, types, func_types, n_imports, w, m, p);
        let c = body_code(front, layout(tys), types, func_types, n_imports)->Ok_0;
        let d = op_code(ops.last(), layout(tys), types, func_types, n_imports)->Ok_0;
        lemma_run_concat(m, c, d);
        lemma_op_simulation(
            ops.last(),
            tys,
            types,
            func_types,
            n_imports,
            wrun(w, front, tys)->Some_0,
            run(m, c),
            p,
        );
    }
}

proof fn lemma_param_pushes(m: MState, k: nat)
    requires
        k <= MAX_PARAMS,
    ensures
        run(m, param_pushes(k)) == (MState {
            stack: m.stack + Seq::new(k, |j: int| param_value(m, j as nat)),
            ..m
        }),
    decreases k,
{
    if k == 0 {
        assert(m.stack + Seq::new(0, |j: int| param_value(m, j as nat)) =~= m.stack);
    } else {
        let k1 = (k - 1) as nat;
        lemma_param_pushes(m, k1);
        assert(param_pushes(k).drop_last() =~= param_pushes(k1));
        assert(param_pushes(k).last() == param_push(k1));
        let m1 = run(m, param_pushes(k1));
        assert(m1.regs == m.regs && m1.args == m.args);
        assert(step(m1, param_push(k1)).stack == m1.stack.push(param_value(m, k1)));
        assert(m.stack + Seq::new(k, |j: int| param_value(m, j as nat)) =~= (m.stack + Seq::new(
            k1,
            |j: int| param_value(m, j as nat),
        )).push(param_value(m, k1)));
    }
}

/// Code generation preserves meaning. For every function whose signature,
/// locals and straight-line body compile, and for every machine state on
/// entry (parameters in the calling-convention registers and, past the
/// sixth, on the caller's stack): if the bytecode's semantics runs the body
/// from the parameters to a final operand stack holding at least the declared
/// results, then the generated code leaves the first declared result in the
/// primary return register and the second, if any, in the secondary one,
/// and gives the caller back its stack and its frame pointer.
#[verifier::spinoff_prover]
#[verifier::rlimit(40)]
pub proof fn law_generated_code_computes_body(
    f: u32,
    params: Seq<ValType>,
    results: Seq<ValType>,
    locals: Seq<ValType>,
    ops: Seq<Op>,
    types: Seq<FuncSig>,
    func_types: Seq<u32>,
    n_imports: u32,
    m: MState,
)
    requires
        straight_line(ops),
        function_code(f, params, results, locals, ops, types, func_types, n_imports) is Ok,
        wrun(entry_state(m, params.len(), locals), ops, locals) is Some,
        wrun(entry_state(m, params.len(), locals), ops, locals)->Some_0.stack.len() >= results.len(),
    ensures
        ({
            let fin = wrun(entry_state(m, params.len(), locals), ops, locals)->Some_0.stack;
            let out = run(m, function_code(f, params, results, locals, ops, types, func_types, n_imports)->Ok_0);
            &&& results.len() >= 1 ==> out.regs[Reg::Rax] == fin[fin.len() - results.len()]
            &&& results.len() == 2 ==> out.regs[Reg::Rdx] == fin[fin.len() - 1]
            &&& out.stack == m.stack
            &&& out.regs[Reg::Rbp] == m.regs[Reg::Rbp]
        }),
{
    let slots = layout(locals);
    lemma_layout_distinct(locals);
    let n = params.len();
    let size = frame_size(locals);
    let body = body_code(ops, slots, types, func_types, n_imports)->Ok_0;
    let w0 = entry_state(m, n, locals);
    let w1 = wrun(w0, ops, locals)->Some_0;
    // prologue
    let m1 = run(m, seq![Inst::Label(f)]);
    lemma_run1(m, Inst::Label(f));
    let m2 = run(m1, frame_setup(size));
    if size == 0 {
        lemma_run2(m1, Inst::Push(Reg::Rbp), Inst::Mov(Reg::Rbp, Reg::Rsp));
    } else {
        assert(frame_setup(size) =~= seq![Inst::Push(Reg::Rbp), Inst::Mov(Reg::Rbp, Reg::Rsp)] + seq![Inst::Reserve(size as u32)]);
        lemma_run_concat(m1, seq![Inst::Push(Reg::Rbp), Inst::Mov(Reg::Rbp, Reg::Rsp)], seq![Inst::Reserve(size as u32)]);
        lemma_run2(m1, Inst::Push(Reg::Rbp), Inst::Mov(Reg::Rbp, Reg::Rsp));
        lemma_run1(run(m1, seq![Inst::Push(Reg::Rbp), Inst::Mov(Reg::Rbp, Reg::Rsp)]), Inst::Reserve(size as u32));
    }
    let p = m.stack.push(m.regs[Reg::Rbp]);
    assert(m2.regs == m.regs && m2.frame == m.frame && m2.args == m.args && m2.stack == p);
    assert(m2.base == p.len());
    lemma_param_pushes(m2, n);
    let m3 = run(m2, param_pushes(n));
    assert(Seq::new(n, |j: int| param_value(m2, j as nat)) =~= w0.stack);
    assert(related(w0, m3, p, slots));
    lemma_body_simulation(ops, locals, types, func_types, n_imports, w0, m3, p);
    let m4 = run(m3, body);
    assert(related(w1, m4, p, slots));
    // epilogue
    let r = results.len();
    let code = seq![Inst::Label(f)] + prologue(n, size) + body + epilogue(r);
    assert(code =~= seq![Inst::Label(f)] + frame_setup(size) + param_pushes(n) + body + epilogue(r));
    lemma_run_concat(m, seq![Inst::Label(f)], frame_setup(size));
    lemma_run_concat(m, seq![Inst::Label(f)] + frame_setup(size), param_pushes(n));
    lemma_run_concat(m, seq![Inst::Label(f)] + frame_setup(size) + param_pushes(n), body);
    lemma_run_concat(m, seq![Inst::Label(f)] + frame_setup(size) + param_pushes(n) + body, epilogue(r));
    assert(run(m, code) == run(m4, epilogue(r)));
    let tail = seq![Inst::Mov(Reg::Rsp, Reg::Rbp), Inst::Pop(Reg::Rbp), Inst::Ret];
    let k = w1.stack.len();
    if r == 0 {
        assert(epilogue(r) =~= tail);
        assert(m4.stack.take(p.len() as int) =~= p);
        lemma_tail_keeps_results(m4, tail, p);
    } else if r == 1 {
        assert(epilogue(r) =~= seq![Inst::Pop(Reg::Rax)] + tail);
        lemma_run_concat(m4, seq![Inst::Pop(Reg::Rax)], tail);
        lemma_run1(m4, Inst::Pop(Reg::Rax));
        let m5 = step(m4, Inst::Pop(Reg::Rax));
        assert(m4.stack.last() == w1.stack[k - 1]);
        assert(m5.stack =~= p + w1.stack.take(k - 1));
        assert(m5.stack.take(p.len() as int) =~= p);
        lemma_tail_keeps_results(m5, tail, p);
    } else {
        assert(epilogue(r) =~= seq![Inst::Pop(Reg::Rdx), Inst::Pop(Reg::Rax)] + tail);
        lemma_run_concat(m4, seq![Inst::Pop(Reg::Rdx), Inst::Pop(Reg::Rax)], tail);
        lemma_run2(m4, Inst::Pop(Reg::Rdx), Inst::Pop(Reg::Rax));
        let m5 = step(step(m4, Inst::Pop(Reg::Rdx)), Inst::Pop(Reg::Rax));
        assert(m4.stack.last() == w1.stack[k - 1]);
        assert(m4.stack.drop_last().last() == w1.stack[k - 2]);
        assert(m5.stack =~= p + w1.stack.take(k - 2));
        assert(m5.stack.take(p.len() as int) =~= p);
        lemma_tail_keeps_results(m5, tail, p);
    }
}

/// Tearing the frame down keeps the results and gives the caller back its
/// stack and frame pointer, saved at the base of the frame.
proof fn lemma_tail_keeps_results(m: MState, tail: Seq<Inst>, p: Seq<u64>)
    requires
        tail == seq![Inst::Mov(Reg::Rsp, Reg::Rbp), Inst::Pop(Reg::Rbp), Inst::Ret],
        p.len() > 0,
        m.base == p.len(),
        m.stack.len() >= p.len(),
        m.stack.take(p.len() as int) == p,
    ensures
        run(m, tail).regs[Reg::Rax] == m.regs[Reg::Rax],
        run(m, tail).regs[Reg::Rdx] == m.regs[Reg::Rdx],
        run(m, tail).regs[Reg::Rbp] == p.last(),
        run(m, tail).stack == p.drop_last(),
{
    assert(tail =~= seq![Inst::Mov(Reg::Rsp, Reg::Rbp), Inst::Pop(Reg::Rbp)] + seq![Inst::Ret]);
    lemma_run_concat(m, seq![Inst::Mov(Reg::Rsp, Reg::Rbp), Inst::Pop(Reg::Rbp)], seq![Inst::Ret]);
    lemma_run2(m, Inst::Mov(Reg::Rsp, Reg::Rbp), Inst::Pop(Reg::Rbp));
    lemma_run1(run(m, seq![Inst::Mov(Reg::Rsp, Reg::Rbp), Inst::Pop(Reg::Rbp)]), Inst::Ret);
}


proof fn lemma_one_op(ops: Seq<Op>, slots: Seq<LocalSlot>, types: Seq<FuncSig>, func_types: Seq<u32>, n_imports: u32, tys: Seq<ValType>, w: WState)
    requires
        ops.len() == 1,
    ensures
        body_code(ops, slots, types, func_types, n_imports) == (match op_code(ops[0], slots, types, func_types, n_imports) {
            Err(e) => Err(e),
            Ok(d) => Ok(Seq::<Inst>::empty() + d),
        }),
        wrun(w, ops, tys) == wstep(w, ops[0], tys),
{
    assert(ops.drop_last() =~= Seq::<Op>::empty());
    assert(body_code(ops.drop_last(), slots, types, func_types, n_imports) == Ok::<Seq<Inst>, Error>(seq![]));
    assert(wrun(w, ops.drop_last(), tys) == Some(w));
}

/// A function with no parameters whose body is one constant returns that
/// constant in the primary return register, for either integer width.
pub proof fn law_constant_is_returned(
    c32: i32,
    c64: i64,
    f: u32,
    types: Seq<FuncSig>,
    func_types: Seq<u32>,
    n_imports: u32,
    m: MState,
)
    ensures
        function_code(f, seq![], seq![ValType::I64], seq![], seq![Op::I64Const(c64)], types, func_types, n_imports) is Ok,
        run(m, function_code(f, seq![], seq![ValType::I64], seq![], seq![Op::I64Const(c64)], types, func_types, n_imports)->Ok_0).regs[Reg::Rax]
            == #[verifier::truncate] (c64 as u64),
        function_code(f, seq![], seq![ValType::I32], seq![], seq![Op::I32Const(c32)], types, func_types, n_imports) is Ok,
        run(m, function_code(f, seq![], seq![ValType::I32], seq![], seq![Op::I32Const(c32)], types, func_types, n_imports)->Ok_0).regs[Reg::Rax]
            == #[verifier::truncate] (#[verifier::truncate] (c32 as u32) as u64),
{
    let e = Seq::<ValType>::empty();
    assert(frame_size(e) == 0);
    let ops64 = seq![Op::I64Const(c64)];
    let ops32 = seq![Op::I32Const(c32)];
    lemma_one_op(ops64, layout(e), types, func_types, n_imports, e, entry_state(m, 0, e));
    lemma_one_op(ops32, layout(e), types, func_types, n_imports, e, entry_state(m, 0, e));
    assert(straight_line(ops64));
    assert(straight_line(ops32));
    let w0 = entry_state(m, 0, e);
    assert(wrun(w0, ops64, e)->Some_0.stack =~= seq![#[verifier::truncate] (c64 as u64)]);
    assert(wrun(w0, ops32, e)->Some_0.stack =~= seq![#[verifier::truncate] (#[verifier::truncate] (c32 as u32) as u64)]);
    law_generated_code_computes_body(f, e, seq![ValType::I64], e, ops64, types, func_types, n_imports, m);
    law_generated_code_computes_body(f, e, seq![ValType::I32], e, ops32, types, func_types, n_imports, m);
}

/// A function of two integer parameters of one kind whose body is one add or
/// subtract returns the arithmetic result of its first parameter (first
/// argument register) and its second (second argument register), wrapped to
/// the kind's width.
pub proof fn law_two_parameter_arithmetic(
    op: Op,
    t: ValType,
    f: u32,
    types: Seq<FuncSig>,
    func_types: Seq<u32>,
    n_imports: u32,
    m: MState,
)
    requires
        (t == ValType::I64 && (op == Op::I64Add || op == Op::I64Sub)) || (t == ValType::I32 && (op
            == Op::I32Add || op == Op::I32Sub)),
    ensures
        function_code(f, seq![t, t], seq![t], seq![], seq![op], types, func_types, n_imports) is Ok,
        run(m, function_code(f, seq![t, t], seq![t], seq![], seq![op], types, func_types, n_imports)->Ok_0).regs[Reg::Rax]
            == arith(op, m.regs[Reg::Rdi], m.regs[Reg::Rsi]),
{
    let e = Seq::<ValType>::empty();
    let ps = seq![t, t];
    let ops = seq![op];
    assert(frame_size(e) == 0);
    assert(all_int(ps));
    assert(all_int(seq![t]));
    lemma_one_op(ops, layout(e), types, func_types, n_imports, e, entry_state(m, 2, e));
    assert(straight_line(ops));
    let w0 = entry_state(m, 2, e);
    assert(w0.stack[0] == m.regs[Reg::Rdi]);
    assert(w0.stack[1] == m.regs[Reg::Rsi]);
    assert(w0.stack.take(0) =~= Seq::<u64>::empty());
    assert(wrun(w0, ops, e)->Some_0.stack =~= seq![arith(op, m.regs[Reg::Rdi], m.regs[Reg::Rsi])]);
    law_generated_code_computes_body(f, ps, seq![t], e, ops, types, func_types, n_imports, m);
}

/// Writing a local and reading it back, interleaved over two locals: storing
/// the two parameters into locals 1 and 0 (the top of the stack first) and
/// then reading locals 0 and 1 returns each parameter as its local's kind
/// holds it (all of it for a 64-bit local, its low 32 bits for a 32-bit one).
pub proof fn law_locals_round_trip(
    t0: ValType,
    t1: ValType,
    f: u32,
    types: Seq<FuncSig>,
    func_types: Seq<u32>,
    n_imports: u32,
    m: MState,
)
    requires
        t0.is_int(),
        t1.is_int(),
    ensures
        ({
            let ops = seq![Op::LocalSet(1), Op::LocalSet(0), Op::LocalGet(0), Op::LocalGet(1)];
            let code = function_code(f, seq![ValType::I64, ValType::I64], seq![t0, t1], seq![t0, t1], ops, types, func_types, n_imports);
            &&& code is Ok
            &&& run(m, code->Ok_0).regs[Reg::Rax] == stored(t0, m.regs[Reg::Rdi])
            &&& run(m, code->Ok_0).regs[Reg::Rdx] == stored(t1, m.regs[Reg::Rsi])
        }),
{
    let ops = seq![Op::LocalSet(1), Op::LocalSet(0), Op::LocalGet(0), Op::LocalGet(1)];
    let ps = seq![ValType::I64, ValType::I64];
    let tys = seq![t0, t1];
    let slots = layout(tys);
    assert(all_int(ps));
    assert(all_int(tys));
    assert(all_sized(tys));
    assert(tys.take(1).drop_last() =~= Seq::<ValType>::empty());
    assert(tys.take(2) =~= tys);
    assert(tys.drop_last() =~= tys.take(1));
    let one = tys.take(1);
    assert(one.last() == t0);
    assert(one.drop_last().len() == 0);
    assert(frame_size(one.drop_last()) == 0);
    assert(frame_size(one) == t0.width());
    assert(tys.last() == t1);
    assert(frame_size(tys) <= 16);
    assert(slots.len() == 2);
    assert(straight_line(ops));
    let a = ops.take(1);
    let b = ops.take(2);
    let c = ops.take(3);
    assert(a.drop_last() =~= Seq::<Op>::empty());
    assert(b.drop_last() =~= a);
    assert(c.drop_last() =~= b);
    assert(ops.drop_last() =~= c);
    assert(body_code(a.drop_last(), slots, types, func_types, n_imports) == Ok::<Seq<Inst>, Error>(seq![]));
    assert(a.last() == Op::LocalSet(1));
    assert(b.last() == Op::LocalSet(0));
    assert(c.last() == Op::LocalGet(0));
    assert(ops.last() == Op::LocalGet(1));
    assert(body_code(a, slots, types, func_types, n_imports) is Ok);
    assert(body_code(b, slots, types, func_types, n_imports) is Ok);
    assert(body_code(c, slots, types, func_types, n_imports) is Ok);
    assert(body_code(ops, slots, types, func_types, n_imports) is Ok);
    let w0 = entry_state(m, 2, tys);
    assert(wrun(w0, a.drop_last(), tys) == Some(w0));
    let x = m.regs[Reg::Rdi];
    let y = m.regs[Reg::Rsi];
    assert(w0.stack =~= seq![x, y]);
    let w1 = WState { stack: seq![x], locals: w0.locals.update(1, stored(t1, y)) };
    let w2 = WState { stack: seq![], locals: w1.locals.update(0, stored(t0, x)) };
    let w3 = WState { stack: seq![stored(t0, x)], locals: w2.locals };
    let w4 = WState { stack: seq![stored(t0, x), stored(t1, y)], locals: w2.locals };
    assert(a.last() == Op::LocalSet(1));
    assert(w0.stack.drop_last() =~= seq![x]);
    assert(wrun(w0, a, tys) == Some(w1));
    assert(b.last() == Op::LocalSet(0));
    assert(w1.stack.drop_last() =~= Seq::<u64>::empty());
    assert(wrun(w0, b, tys) == Some(w2));
    assert(c.last() == Op::LocalGet(0));
    assert(w2.locals[0] == stored(t0, x));
    assert(wpush(w2, stored(t0, x)).stack =~= w3.stack);
    assert(wrun(w0, c, tys) == Some(w3));
    assert(ops.last() == Op::LocalGet(1));
    assert(w3.locals[1] == stored(t1, y));
    assert(wpush(w3, stored(t1, y)).stack =~= w4.stack);
    assert(wrun(w0, ops, tys) == Some(w4));
    let fin = wrun(w0, ops, tys)->Some_0;
    assert(fin.stack =~= seq![stored(t0, x), stored(t1, y)]);
    law_generated_code_computes_body(f, ps, tys, tys, ops, types, func_types, n_imports, m);
}

/// Reading a local right after writing it yields the written value. For
/// any locals of supported kinds, any local `i`, and any machine state whose
/// operand stack ends with `v`: the code of `local.set i` then `local.get i`
/// leaves the stack as it was, with `v` on top as the local's kind holds it.
pub proof fn law_local_write_then_read(
    tys: Seq<ValType>,
    i: u32,
    types: Seq<FuncSig>,
    func_types: Seq<u32>,
    n_imports: u32,
    m: MState,
)
    requires
        all_sized(tys),
        frame_size(tys) <= MAX_FRAME,
        i < tys.len(),
        m.stack.len() >= 1,
    ensures
        ({
            let ops = seq![Op::LocalSet(i), Op::LocalGet(i)];
            let code = body_code(ops, layout(tys), types, func_types, n_imports);
            &&& code is Ok
            &&& run(m, code->Ok_0).stack == m.stack.drop_last().push(stored(tys[i as int], m.stack.last()))
        }),
{
    let ops = seq![Op::LocalSet(i), Op::LocalGet(i)];
    let slots = layout(tys);
    lemma_layout_distinct(tys);
    assert(straight_line(ops));
    let a = ops.take(1);
    assert(a.drop_last() =~= Seq::<Op>::empty());
    assert(ops.drop_last() =~= a);
    assert(body_code(a.drop_last(), slots, types, func_types, n_imports) == Ok::<Seq<Inst>, Error>(seq![]));
    assert(a.last() == Op::LocalSet(i));
    assert(ops.last() == Op::LocalGet(i));
    assert(body_code(a, slots, types, func_types, n_imports) is Ok);
    assert(body_code(ops, slots, types, func_types, n_imports) is Ok);
    let v = m.stack.last();
    let p = m.stack.drop_last();
    let ti = tys[i as int];
    let w0 = WState {
        stack: seq![v],
        locals: Seq::new(tys.len(), |k: int| slot_value(m.frame, slots[k])),
    };
    assert(m.stack =~= p + w0.stack);
    assert(related(w0, m, p, slots));
    let w1 = WState { stack: seq![], locals: w0.locals.update(i as int, stored(ti, v)) };
    let w2 = WState { stack: seq![stored(ti, v)], locals: w1.locals };
    assert(wrun(w0, a.drop_last(), tys) == Some(w0));
    assert(w0.stack.drop_last() =~= Seq::<u64>::empty());
    assert(wrun(w0, a, tys) == Some(w1));
    assert(wpush(w1, stored(ti, v)).stack =~= w2.stack);
    assert(wrun(w0, ops, tys) == Some(w2));
    lemma_body_simulation(ops, tys, types, func_types, n_imports, w0, m, p);
    assert(p + w2.stack =~= p.push(stored(ti, v)));
}

/// Each local keeps its own last write. For any locals of supported kinds
/// and any two distinct locals `i` and `j`, and any machine state whose
/// operand stack ends with `vi` then `vj`: the code of `local.set j`,
/// `local.set i`, `local.get i`, `local.get j` leaves the stack below them
/// as it was, with `vi` and then `vj` on top, each as its local's kind holds it.
pub proof fn law_locals_keep_their_writes(
    tys: Seq<ValType>,
    i: u32,
    j: u32,
    types: Seq<FuncSig>,
    func_types: Seq<u32>,
    n_imports: u32,
    m: MState,
)
    requires
        all_sized(tys),
        frame_size(tys) <= MAX_FRAME,
        i < tys.len(),
        j < tys.len(),
        i != j,
        m.stack.len() >= 2,
    ensures
        ({
            let ops = seq![Op::LocalSet(j), Op::LocalSet(i), Op::LocalGet(i), Op::LocalGet(j)];
            let code = body_code(ops, layout(tys), types, func_types, n_imports);
            let n = m.stack.len();
            &&& code is Ok
            &&& run(m, code->Ok_0).stack == m.stack.take(n - 2).push(stored(tys[i as int], m.stack[n - 2])).push(
                stored(tys[j as int], m.stack[n - 1]),
            )
        }),
{
    let ops = seq![Op::LocalSet(j), Op::LocalSet(i), Op::LocalGet(i), Op::LocalGet(j)];
    let slots = layout(tys);
    lemma_layout_distinct(tys);
    assert(straight_line(ops));
    let a = ops.take(1);
    let b = ops.take(2);
    let c = ops.take(3);
    assert(a.drop_last() =~= Seq::<Op>::empty());
    assert(b.drop_last() =~= a);
    assert(c.drop_last() =~= b);
    assert(ops.drop_last() =~= c);
    assert(body_code(a.drop_last(), slots, types, func_types, n_imports) == Ok::<Seq<Inst>, Error>(seq![]));
    assert(a.last() == Op::LocalSet(j));
    assert(b.last() == Op::LocalSet(i));
    assert(c.last() == Op::LocalGet(i));
    assert(ops.last() == Op::LocalGet(j));
    assert(body_code(a, slots, types, func_types, n_imports) is Ok);
    assert(body_code(b, slots, types, func_types, n_imports) is Ok);
    assert(body_code(c, slots, types, func_types, n_imports) is Ok);
    assert(body_code(ops, slots, types, func_types, n_imports) is Ok);
    let n = m.stack.len();
    let x = m.stack[n - 2];
    let y = m.stack[n - 1];
    let p = m.stack.take(n - 2);
    let ti = tys[i as int];
    let tj = tys[j as int];
    let w0 = WState {
        stack: seq![x, y],
        locals: Seq::new(tys.len(), |k: int| slot_value(m.frame, slots[k])),
    };
    assert(m.stack =~= p + w0.stack);
    assert(related(w0, m, p, slots));
    let w1 = WState { stack: seq![x], locals: w0.locals.update(j as int, stored(tj, y)) };
    let w2 = WState { stack: seq![], locals: w1.locals.update(i as int, stored(ti, x)) };
    let w3 = WState { stack: seq![stored(ti, x)], locals: w2.locals };
    let w4 = WState { stack: seq![stored(ti, x), stored(tj, y)], locals: w2.locals };
    assert(wrun(w0, a.drop_last(), tys) == Some(w0));
    assert(w0.stack.drop_last() =~= seq![x]);
    assert(wrun(w0, a, tys) == Some(w1));
    assert(w1.stack.drop_last() =~= Seq::<u64>::empty());
    assert(wrun(w0, b, tys) == Some(w2));
    assert(w2.locals[i as int] == stored(ti, x));
    assert(wpush(w2, stored(ti, x)).stack =~= w3.stack);
    assert(wrun(w0, c, tys) == Some(w3));
    assert(w3.locals[j as int] == stored(tj, y));
    assert(wpush(w3, stored(tj, y)).stack =~= w4.stack);
    assert(wrun(w0, ops, tys) == Some(w4));
    lemma_body_simulation(ops, tys, types, func_types, n_imports, w0, m, p);
    assert(p + w4.stack =~= p.push(stored(ti, x)).push(stored(tj, y)));
}

/// A function of seven integer parameters reads the seventh from the
/// caller's stack: with an empty body its result is the first stack argument.
pub proof fn law_seventh_parameter_from_stack(
    f: u32,
    types: Seq<FuncSig>,
    func_types: Seq<u32>,
    n_imports: u32,
    m: MState,
)
    ensures
        ({
            let ps = seq![ValType::I64, ValType::I64, ValType::I64, ValType::I64, ValType::I64, ValType::I64, ValType::I64];
            let code = function_code(f, ps, seq![ValType::I64], seq![], seq![], types, func_types, n_imports);
            &&& code is Ok
            &&& run(m, code->Ok_0).regs[Reg::Rax] == m.args[0]
        }),
{
    let ps = seq![ValType::I64, ValType::I64, ValType::I64, ValType::I64, ValType::I64, ValType::I64, ValType::I64];
    let e = Seq::<ValType>::empty();
    assert(all_int(ps));
    assert(frame_size(e) == 0);
    assert(straight_line(Seq::<Op>::empty()));
    let w0 = entry_state(m, 7, e);
    assert(w0.stack[6] == m.args[0]);
    law_generated_code_computes_body(f, ps, seq![ValType::I64], e, seq![], types, func_types, n_imports, m);
}

} // verus!
