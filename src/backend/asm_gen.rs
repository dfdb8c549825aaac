use vstd::prelude::*;
use vstd::string::*;

use crate::ir::assembly::{
    BinaryOperator, CondCode, Function, Instruction, Operand, Program, Register, UnaryOperator,
};
use crate::backend::tacky_gen::extends;
use crate::ir::tacky;

verus! {

// ---------------------------------------------------------------------------
// Calling convention
// ---------------------------------------------------------------------------

/// The register that carries the `i`-th integer argument (`i < 6`).
pub open spec fn arg_reg(i: int) -> Register {
    if i == 0 {
        Register::DI
    } else if i == 1 {
        Register::SI
    } else if i == 2 {
        Register::DX
    } else if i == 3 {
        Register::CX
    } else if i == 4 {
        Register::R8
    } else {
        Register::R9
    }
}

/// How many of `n` arguments are passed on the stack.
pub open spec fn stack_args(n: nat) -> nat {
    if n > 6 {
        (n - 6) as nat
    } else {
        0
    }
}

/// Bytes pushed before a call with `n` arguments to keep the stack 16-byte aligned.
pub open spec fn call_padding(n: nat) -> nat {
    if stack_args(n) % 2 == 1 {
        8
    } else {
        0
    }
}

/// Bytes released after a call with `n` arguments: the pushed arguments and the padding.
pub open spec fn call_cleanup(n: nat) -> nat {
    8 * stack_args(n) + call_padding(n)
}

/// Whatever the number of arguments, a call site pushes and releases a whole
/// number of 16-byte units, and exactly the bytes it pushed.
pub proof fn lemma_call_alignment(n: nat)
    ensures
        call_cleanup(n) % 16 == 0,
        call_cleanup(n) == 8 * stack_args(n) + call_padding(n),
        n <= 6 ==> call_cleanup(n) == 0,
{
}

fn arg_register(i: usize) -> (r: Register)
    requires
        i < 6,
    ensures
        r == arg_reg(i as int),
{
    if i == 0 {
        Register::DI
    } else if i == 1 {
        Register::SI
    } else if i == 2 {
        Register::DX
    } else if i == 3 {
        Register::CX
    } else if i == 4 {
        Register::R8
    } else {
        Register::R9
    }
}

/// The operand of a three-address value, before allocation.
pub open spec fn operand_of(v: tacky::Val) -> Operand {
    match v {
        tacky::Val::Constant(i) => Operand::Imm(i),
        tacky::Val::Var(n) => Operand::Pseudo(n),
    }
}

fn convert_val(val: &tacky::Val) -> (r: Operand)
    ensures
        r == operand_of(*val),
{
    match val {
        tacky::Val::Constant(i) => Operand::Imm(*i),
        tacky::Val::Var(name) => Operand::Pseudo(name.clone()),
    }
}

fn copy_instruction(i: &Instruction) -> (r: Instruction)
    ensures
        r == *i,
{
    match i {
        Instruction::Mov { src, dst } => Instruction::Mov { src: copy_operand(src), dst: copy_operand(dst) },
        Instruction::Unary { op, operand } => Instruction::Unary { op: *op, operand: copy_operand(operand) },
        Instruction::Binary { op, src, dst } => Instruction::Binary {
            op: *op,
            src: copy_operand(src),
            dst: copy_operand(dst),
        },
        Instruction::Cmp { src1, src2 } => Instruction::Cmp { src1: copy_operand(src1), src2: copy_operand(src2) },
        Instruction::Idiv(o) => Instruction::Idiv(copy_operand(o)),
        Instruction::Cdq => Instruction::Cdq,
        Instruction::Ret => Instruction::Ret,
        Instruction::Jmp(t) => Instruction::Jmp(t.clone()),
        Instruction::JmpCC(cc, t) => Instruction::JmpCC(*cc, t.clone()),
        Instruction::SetCC(cc, o) => Instruction::SetCC(*cc, copy_operand(o)),
        Instruction::Label(l) => Instruction::Label(l.clone()),
        Instruction::AllocateStack { bytes } => Instruction::AllocateStack { bytes: *bytes },
        Instruction::DeallocateStack(b) => Instruction::DeallocateStack(*b),
        Instruction::Push(o) => Instruction::Push(copy_operand(o)),
        Instruction::Call(n) => Instruction::Call(n.clone()),
    }
}

fn copy_operand(o: &Operand) -> (r: Operand)
    ensures
        r == *o,
{
    match o {
        Operand::Imm(i) => Operand::Imm(*i),
        Operand::Reg(r) => Operand::Reg(*r),
        Operand::Pseudo(n) => Operand::Pseudo(n.clone()),
        Operand::Stack(s) => Operand::Stack(*s),
    }
}

// ---------------------------------------------------------------------------
// What allocation and legalization guarantee
// ---------------------------------------------------------------------------

pub open spec fn not_pseudo(o: Operand) -> bool {
    !(o is Pseudo)
}

/// No operand of `i` is a pseudo-register.
pub open spec fn pseudo_free(i: Instruction) -> bool {
    match i {
        Instruction::Mov { src, dst } => not_pseudo(src) && not_pseudo(dst),
        Instruction::Unary { operand, .. } => not_pseudo(operand),
        Instruction::Binary { src, dst, .. } => not_pseudo(src) && not_pseudo(dst),
        Instruction::Cmp { src1, src2 } => not_pseudo(src1) && not_pseudo(src2),
        Instruction::Idiv(o) => not_pseudo(o),
        Instruction::SetCC(_, o) => not_pseudo(o),
        Instruction::Push(o) => not_pseudo(o),
        _ => true,
    }
}

pub open spec fn all_pseudo_free(s: Seq<Instruction>) -> bool {
    forall|k: int| 0 <= k < s.len() ==> pseudo_free(#[trigger] s[k])
}

/// `i` obeys the operand rules of the target: at most one memory operand to a
/// move, add or subtract; a register destination for multiply; no immediate
/// divisor, pushed immediate, or immediate second operand of a compare.
pub open spec fn legal(i: Instruction) -> bool {
    match i {
        Instruction::Mov { src, dst } => !(src is Stack && dst is Stack),
        Instruction::Binary { op, src, dst } => match op {
            BinaryOperator::Multiply => !(dst is Stack),
            _ => !(src is Stack && dst is Stack),
        },
        Instruction::Idiv(o) => !(o is Imm),
        Instruction::Cmp { src1, src2 } => !(src1 is Stack && src2 is Stack) && !(src2 is Imm),
        Instruction::Push(o) => !(o is Imm),
        _ => true,
    }
}

pub open spec fn all_legal(s: Seq<Instruction>) -> bool {
    forall|k: int| 0 <= k < s.len() ==> legal(#[trigger] s[k])
}

/// `n` rounded up to a multiple of 16.
pub open spec fn align16(n: nat) -> nat {
    ((n + 15) / 16 * 16) as nat
}

/// The move that places the `k`-th argument in its register.
pub open spec fn arg_move(v: tacky::Val, k: int) -> Instruction {
    Instruction::Mov { src: operand_of(v), dst: Operand::Reg(arg_reg(k)) }
}

/// How one stack argument is pushed: an immediate or register directly, a
/// memory operand through the accumulator.
pub open spec fn push_arg(v: tacky::Val) -> Seq<Instruction> {
    match operand_of(v) {
        Operand::Pseudo(_) => seq![
            Instruction::Mov { src: operand_of(v), dst: Operand::Reg(Register::AX) },
            Instruction::Push(Operand::Reg(Register::AX)),
        ],
        _ => seq![Instruction::Push(operand_of(v))],
    }
}

/// The moves of the first `k` arguments into their registers.
pub open spec fn register_moves(args: Seq<tacky::Val>, k: nat) -> Seq<Instruction>
    decreases k,
{
    if k == 0 {
        Seq::empty()
    } else {
        register_moves(args, (k - 1) as nat).push(arg_move(args[k - 1], k - 1))
    }
}

/// The pushes of arguments `n - 1` down to `j`.
pub open spec fn stack_pushes(args: Seq<tacky::Val>, j: int, n: int) -> Seq<Instruction>
    decreases n - j,
{
    if j >= n {
        Seq::empty()
    } else {
        stack_pushes(args, j + 1, n) + push_arg(args[j])
    }
}

/// The code of a call: the padding, the register arguments, the stack
/// arguments in reverse order, the call, the release of exactly the pushed
/// bytes, and the copy of the result out of the accumulator.
pub open spec fn call_code(name: String, args: Seq<tacky::Val>, dst: tacky::Val) -> Seq<Instruction> {
    let n = args.len();
    let rc: nat = if n > 6 { 6 } else { n };
    (if call_padding(n) > 0 { seq![Instruction::AllocateStack { bytes: 8 }] } else { Seq::empty() })
        + register_moves(args, rc) + stack_pushes(args, rc as int, n as int) + seq![Instruction::Call(name)]
        + (if call_cleanup(n) > 0 {
        seq![Instruction::DeallocateStack(call_cleanup(n) as u32)]
    } else {
        Seq::empty()
    }) + seq![Instruction::Mov { src: Operand::Reg(Register::AX), dst: operand_of(dst) }]
}

pub open spec fn unary_code(op: tacky::UnaryOperator, src: tacky::Val, dst: tacky::Val) -> Seq<Instruction> {
    match op {
        tacky::UnaryOperator::Not => seq![
            Instruction::Cmp { src1: Operand::Imm(0), src2: operand_of(src) },
            Instruction::Mov { src: Operand::Imm(0), dst: operand_of(dst) },
            Instruction::SetCC(CondCode::E, operand_of(dst)),
        ],
        tacky::UnaryOperator::Negate => seq![
            Instruction::Mov { src: operand_of(src), dst: operand_of(dst) },
            Instruction::Unary { op: UnaryOperator::Neg, operand: operand_of(dst) },
        ],
        tacky::UnaryOperator::Complement => seq![
            Instruction::Mov { src: operand_of(src), dst: operand_of(dst) },
            Instruction::Unary { op: UnaryOperator::Not, operand: operand_of(dst) },
        ],
    }
}

/// The condition code of a relational operator.
pub open spec fn cond_of(op: tacky::BinaryOperator) -> CondCode {
    match op {
        tacky::BinaryOperator::Equal => CondCode::E,
        tacky::BinaryOperator::NotEqual => CondCode::NE,
        tacky::BinaryOperator::LessThan => CondCode::L,
        tacky::BinaryOperator::LessOrEqual => CondCode::LE,
        tacky::BinaryOperator::GreaterThan => CondCode::G,
        _ => CondCode::GE,
    }
}

pub open spec fn binary_code(op: tacky::BinaryOperator, src1: tacky::Val, src2: tacky::Val, dst: tacky::Val) -> Seq<Instruction> {
    match op {
        tacky::BinaryOperator::Divide => seq![
            Instruction::Mov { src: operand_of(src1), dst: Operand::Reg(Register::AX) },
            Instruction::Cdq,
            Instruction::Idiv(operand_of(src2)),
            Instruction::Mov { src: Operand::Reg(Register::AX), dst: operand_of(dst) },
        ],
        tacky::BinaryOperator::Remainder => seq![
            Instruction::Mov { src: operand_of(src1), dst: Operand::Reg(Register::AX) },
            Instruction::Cdq,
            Instruction::Idiv(operand_of(src2)),
            Instruction::Mov { src: Operand::Reg(Register::DX), dst: operand_of(dst) },
        ],
        tacky::BinaryOperator::Add => seq![
            Instruction::Mov { src: operand_of(src1), dst: operand_of(dst) },
            Instruction::Binary { op: BinaryOperator::Add, src: operand_of(src2), dst: operand_of(dst) },
        ],
        tacky::BinaryOperator::Subtract => seq![
            Instruction::Mov { src: operand_of(src1), dst: operand_of(dst) },
            Instruction::Binary { op: BinaryOperator::Subtract, src: operand_of(src2), dst: operand_of(dst) },
        ],
        tacky::BinaryOperator::Multiply => seq![
            Instruction::Mov { src: operand_of(src1), dst: operand_of(dst) },
            Instruction::Binary { op: BinaryOperator::Multiply, src: operand_of(src2), dst: operand_of(dst) },
        ],
        _ => seq![
            Instruction::Cmp { src1: operand_of(src2), src2: operand_of(src1) },
            Instruction::Mov { src: Operand::Imm(0), dst: operand_of(dst) },
            Instruction::SetCC(cond_of(op), operand_of(dst)),
        ],
    }
}

/// The target instructions selected for one three-address instruction.
pub open spec fn select(i: tacky::Instruction) -> Seq<Instruction> {
    match i {
        tacky::Instruction::FunCall { name, args, dst } => call_code(name, args@, dst),
        tacky::Instruction::Return(v) => seq![
            Instruction::Mov { src: operand_of(v), dst: Operand::Reg(Register::AX) },
            Instruction::Ret,
        ],
        tacky::Instruction::Copy { src, dst } => seq![Instruction::Mov { src: operand_of(src), dst: operand_of(dst) }],
        tacky::Instruction::Jump(t) => seq![Instruction::Jmp(t)],
        tacky::Instruction::Label(n) => seq![Instruction::Label(n)],
        tacky::Instruction::JumpIfZero { condition, target } => seq![
            Instruction::Cmp { src1: Operand::Imm(0), src2: operand_of(condition) },
            Instruction::JmpCC(CondCode::E, target),
        ],
        tacky::Instruction::JumpIfNotZero { condition, target } => seq![
            Instruction::Cmp { src1: Operand::Imm(0), src2: operand_of(condition) },
            Instruction::JmpCC(CondCode::NE, target),
        ],
        tacky::Instruction::Unary { op, src, dst } => unary_code(op, src, dst),
        tacky::Instruction::Binary { op, src1, src2, dst } => binary_code(op, src1, src2, dst),
    }
}

pub open spec fn select_all(s: Seq<tacky::Instruction>) -> Seq<Instruction>
    decreases s.len(),
{
    if s.len() == 0 {
        Seq::empty()
    } else {
        select_all(s.drop_last()) + select(s.last())
    }
}

/// The copy of the `i`-th incoming parameter into its pseudo-register.
pub open spec fn param_copy(p: String, i: int) -> Instruction {
    Instruction::Mov {
        src: if i < 6 {
            Operand::Reg(arg_reg(i))
        } else {
            Operand::Stack((16 + (i - 6) * 8) as i32)
        },
        dst: Operand::Pseudo(p),
    }
}

pub open spec fn param_copies(ps: Seq<String>) -> Seq<Instruction> {
    Seq::new(ps.len(), |i: int| param_copy(ps[i], i))
}

/// Pass 1 of a function: its parameter copies, then the selection of each instruction in order.
pub open spec fn pass1_image(f: tacky::Function) -> Seq<Instruction> {
    param_copies(f.params@) + select_all(f.body@)
}

/// Every call of the body has fewer than 2^28 arguments.
pub open spec fn calls_fit(body: Seq<tacky::Instruction>) -> bool {
    forall|k: int|
        0 <= k < body.len() && (#[trigger] body[k]) is FunCall ==> body[k]->FunCall_args@.len() < 0x1000_0000
}

/// Pass 1 can address every parameter and argument of `f`.
pub open spec fn pass1_fits(f: tacky::Function) -> bool {
    f.params@.len() < 0x1000_0000 && calls_fit(f.body@)
}

/// The legal form of one instruction: memory-to-memory moves, adds and
/// subtracts go through `R10`; a multiply into memory goes through `R11`; an
/// immediate divisor or pushed immediate goes through `R10`; a compare of two
/// memory operands moves the first to `R10`, and an immediate second operand to `R11`.
pub open spec fn fix(i: Instruction) -> Seq<Instruction> {
    let r10 = Operand::Reg(Register::R10);
    let r11 = Operand::Reg(Register::R11);
    match i {
        Instruction::Mov { src, dst } => if src is Stack && dst is Stack {
            seq![Instruction::Mov { src, dst: r10 }, Instruction::Mov { src: r10, dst }]
        } else {
            seq![i]
        },
        Instruction::Binary { op, src, dst } => if op != BinaryOperator::Multiply && src is Stack
            && dst is Stack {
            seq![Instruction::Mov { src, dst: r10 }, Instruction::Binary { op, src: r10, dst }]
        } else if op == BinaryOperator::Multiply && dst is Stack {
            seq![
                Instruction::Mov { src: dst, dst: r11 },
                Instruction::Binary { op, src, dst: r11 },
                Instruction::Mov { src: r11, dst },
            ]
        } else {
            seq![i]
        },
        Instruction::Idiv(o) => if o is Imm {
            seq![Instruction::Mov { src: o, dst: r10 }, Instruction::Idiv(r10)]
        } else {
            seq![i]
        },
        Instruction::Cmp { src1, src2 } => {
            let both = src1 is Stack && src2 is Stack;
            (if both { seq![Instruction::Mov { src: src1, dst: r10 }] } else { Seq::empty() })
                + (if src2 is Imm { seq![Instruction::Mov { src: src2, dst: r11 }] } else { Seq::empty() })
                + seq![Instruction::Cmp {
                    src1: if both { r10 } else { src1 },
                    src2: if src2 is Imm { r11 } else { src2 },
                }]
        },
        Instruction::Push(o) => if o is Imm {
            seq![Instruction::Mov { src: o, dst: r10 }, Instruction::Push(r10)]
        } else {
            seq![i]
        },
        _ => seq![i],
    }
}

pub open spec fn fix_all(s: Seq<Instruction>) -> Seq<Instruction>
    decreases s.len(),
{
    if s.len() == 0 {
        Seq::empty()
    } else {
        fix_all(s.drop_last()) + fix(s.last())
    }
}

/// The allocation of a frame of `bytes` bytes, rounded up to 16; none for an empty frame.
pub open spec fn prologue(bytes: u32) -> Seq<Instruction> {
    if bytes > 0 {
        seq![Instruction::AllocateStack { bytes: align16(bytes as nat) as u32 }]
    } else {
        Seq::empty()
    }
}

/// The most stack slots a frame can hold, so that every offset fits an `i32`.
pub open spec fn max_slots() -> nat {
    536870911
}

/// The position of the first occurrence of `n` in `names`, or -1.
pub open spec fn index_in(names: Seq<Seq<char>>, n: Seq<char>) -> int
    decreases names.len(),
{
    if names.len() == 0 {
        -1
    } else if index_in(names.drop_last(), n) >= 0 {
        index_in(names.drop_last(), n)
    } else if names.last() == n {
        names.len() - 1
    } else {
        -1
    }
}

/// The offset of the `k`-th stack slot.
pub open spec fn slot(k: int) -> i32 {
    (-4 * (k + 1)) as i32
}

/// Allocating one operand: a pseudo-register seen before gets its slot, a new
/// one the next slot; other operands stay.
pub open spec fn alloc_op(o: Operand, names: Seq<Seq<char>>) -> (Operand, Seq<Seq<char>>) {
    match o {
        Operand::Pseudo(n) => if index_in(names, n@) >= 0 {
            (Operand::Stack(slot(index_in(names, n@))), names)
        } else {
            (Operand::Stack(slot(names.len() as int)), names.push(n@))
        },
        _ => (o, names),
    }
}

/// Allocating the operands of one instruction, source before destination.
pub open spec fn alloc_instr(i: Instruction, names: Seq<Seq<char>>) -> (Instruction, Seq<Seq<char>>) {
    match i {
        Instruction::Mov { src, dst } => {
            let (a, n1) = alloc_op(src, names);
            let (b, n2) = alloc_op(dst, n1);
            (Instruction::Mov { src: a, dst: b }, n2)
        },
        Instruction::Unary { op, operand } => {
            let (a, n1) = alloc_op(operand, names);
            (Instruction::Unary { op, operand: a }, n1)
        },
        Instruction::Binary { op, src, dst } => {
            let (a, n1) = alloc_op(src, names);
            let (b, n2) = alloc_op(dst, n1);
            (Instruction::Binary { op, src: a, dst: b }, n2)
        },
        Instruction::Idiv(o) => {
            let (a, n1) = alloc_op(o, names);
            (Instruction::Idiv(a), n1)
        },
        Instruction::Cmp { src1, src2 } => {
            let (a, n1) = alloc_op(src1, names);
            let (b, n2) = alloc_op(src2, n1);
            (Instruction::Cmp { src1: a, src2: b }, n2)
        },
        Instruction::SetCC(cc, o) => {
            let (a, n1) = alloc_op(o, names);
            (Instruction::SetCC(cc, a), n1)
        },
        Instruction::Push(o) => {
            let (a, n1) = alloc_op(o, names);
            (Instruction::Push(a), n1)
        },
        _ => (i, names),
    }
}

/// Allocating a whole instruction list: the rewritten list and the names of
/// its pseudo-registers in order of first appearance.
pub open spec fn alloc_all(s: Seq<Instruction>) -> (Seq<Instruction>, Seq<Seq<char>>)
    decreases s.len(),
{
    if s.len() == 0 {
        (Seq::empty(), Seq::empty())
    } else {
        let (r, n) = alloc_all(s.drop_last());
        let (x, n2) = alloc_instr(s.last(), n);
        (r.push(x), n2)
    }
}

proof fn lemma_index_in_prefix(s: Seq<Seq<char>>, m: int, n: Seq<char>)
    requires
        0 <= m <= s.len(),
        index_in(s.take(m), n) >= 0,
    ensures
        index_in(s, n) == index_in(s.take(m), n),
    decreases s.len(),
{
    if m < s.len() {
        assert(s.drop_last().take(m) =~= s.take(m));
        lemma_index_in_prefix(s.drop_last(), m, n);
    } else {
        assert(s.take(m) =~= s);
    }
}

proof fn lemma_alloc_grows(s: Seq<Instruction>, m: int)
    requires
        0 <= m <= s.len(),
    ensures
        alloc_all(s.take(m)).1.len() <= alloc_all(s).1.len(),
    decreases s.len(),
{
    if m < s.len() {
        assert(s.drop_last().take(m) =~= s.take(m));
        lemma_alloc_grows(s.drop_last(), m);
    } else {
        assert(s.take(m) =~= s);
    }
}

/// Allocation leaves no pseudo-register behind.
pub proof fn lemma_alloc_pseudo_free(s: Seq<Instruction>)
    ensures
        all_pseudo_free(alloc_all(s).0),
        alloc_all(s).0.len() == s.len(),
    decreases s.len(),
{
    if s.len() > 0 {
        lemma_alloc_pseudo_free(s.drop_last());
        let (r, n) = alloc_all(s.drop_last());
        let x = alloc_instr(s.last(), n).0;
        assert(pseudo_free(x));
        assert forall|k: int| 0 <= k < r.push(x).len() implies pseudo_free(#[trigger] r.push(x)[k]) by {
            if k < r.len() {
                assert(r.push(x)[k] == r[k]);
            }
        }
    }
}

/// Every parameter, argument and pseudo-register of `f` can be addressed.
pub open spec fn function_fits(f: tacky::Function) -> bool {
    pass1_fits(f) && alloc_all(pass1_image(f)).1.len() <= max_slots()
}

/// The instructions of `f` after selection, allocation and legalization.
pub open spec fn assembled(f: tacky::Function) -> Seq<Instruction> {
    let a = alloc_all(pass1_image(f));
    prologue((4 * a.1.len()) as u32) + fix_all(a.0)
}

spec fn map_names(v: Seq<(String, i32)>) -> Seq<Seq<char>> {
    v.map(|_i, e: (String, i32)| e.0@)
}

/// The slot table of pass 2 holds the names in order, the `k`-th at `slot(k)`.
spec fn slots_ok(v: Seq<(String, i32)>, current_offset: i32) -> bool {
    &&& v.len() <= max_slots()
    &&& current_offset == -4 * v.len()
    &&& forall|k: int| 0 <= k < v.len() ==> (#[trigger] v[k]).1 == slot(k)
}

/// Selects target instructions, allocates stack slots and legalizes operands.
pub struct AsmGenerator {}

impl AsmGenerator {
    pub fn new() -> (r: Self) {
        AsmGenerator {}
    }

    /// Copies incoming parameters into pseudo-registers: the first six from
    /// the argument registers, the rest from the caller's frame at
    /// `16(%rbp)`, `24(%rbp)`, ...
    fn copy_params_to_pseudo(params: &Vec<String>, instructions: &mut Vec<Instruction>)
        requires
            params@.len() < 0x1000_0000,
        ensures
            final(instructions)@ == old(instructions)@ + param_copies(params@),
    {
        let ghost start = instructions@;
        let mut i: usize = 0;
        while i < params.len()
            invariant
                i <= params.len(),
                params@.len() < 0x1000_0000,
                start == old(instructions)@,
                instructions@ == start + param_copies(params@.take(i as int)),
            decreases params.len() - i,
        {
            let src_operand = if i < 6 {
                Operand::Reg(arg_register(i))
            } else {
                Operand::Stack((16 + (i - 6) * 8) as i32)
            };
            instructions.push(Instruction::Mov { src: src_operand, dst: Operand::Pseudo(params[i].clone()) });
            proof {
                assert(param_copies(params@.take(i + 1)) =~= param_copies(params@.take(i as int)).push(
                    param_copy(params@[i as int], i as int),
                ));
                assert(instructions@ =~= start + param_copies(params@.take(i + 1)));
            }
            i = i + 1;
        }
        proof {
            assert(params@.take(params.len() as int) =~= params@);
        }
    }

    fn convert_unary_op(op: tacky::UnaryOperator, src: &tacky::Val, dst: &tacky::Val, instructions: &mut Vec<Instruction>)
        ensures
            final(instructions)@ == old(instructions)@ + unary_code(op, *src, *dst),
    {
        let ghost i0 = instructions@;
        let dst_operand = convert_val(dst);
        match op {
            tacky::UnaryOperator::Not => {
                instructions.push(Instruction::Cmp { src1: Operand::Imm(0), src2: convert_val(src) });
                instructions.push(Instruction::Mov { src: Operand::Imm(0), dst: copy_operand(&dst_operand) });
                instructions.push(Instruction::SetCC(CondCode::E, dst_operand));
            },
            tacky::UnaryOperator::Negate => {
                instructions.push(Instruction::Mov { src: convert_val(src), dst: copy_operand(&dst_operand) });
                instructions.push(Instruction::Unary { op: UnaryOperator::Neg, operand: dst_operand });
            },
            tacky::UnaryOperator::Complement => {
                instructions.push(Instruction::Mov { src: convert_val(src), dst: copy_operand(&dst_operand) });
                instructions.push(Instruction::Unary { op: UnaryOperator::Not, operand: dst_operand });
            },
        }
        proof {
            assert(instructions@ =~= i0 + unary_code(op, *src, *dst));
        }
    }

    /// Selects the instructions of a binary operation. Division and remainder
    /// go through the accumulator: the dividend is moved to `AX`, sign-extended
    /// and divided, and the quotient is read from `AX`, the remainder from `DX`.
    /// A relational operator compares, clears the destination and sets it from the flags.
    fn convert_binary_op(
        op: tacky::BinaryOperator,
        src1: &tacky::Val,
        src2: &tacky::Val,
        dst: &tacky::Val,
        instructions: &mut Vec<Instruction>,
    )
        ensures
            final(instructions)@ == old(instructions)@ + binary_code(op, *src1, *src2, *dst),
    {
        let dst_operand = convert_val(dst);
        let src1_operand = convert_val(src1);
        let src2_operand = convert_val(src2);
        let ghost i0 = instructions@;
        match op {
            tacky::BinaryOperator::Divide | tacky::BinaryOperator::Remainder => {
                let result_register = if op == tacky::BinaryOperator::Divide {
                    Register::AX
                } else {
                    Register::DX
                };
                instructions.push(Instruction::Mov { src: src1_operand, dst: Operand::Reg(Register::AX) });
                instructions.push(Instruction::Cdq);
                instructions.push(Instruction::Idiv(src2_operand));
                instructions.push(Instruction::Mov { src: Operand::Reg(result_register), dst: dst_operand });
            },
            tacky::BinaryOperator::Add | tacky::BinaryOperator::Subtract | tacky::BinaryOperator::Multiply => {
                let asm_op = match op {
                    tacky::BinaryOperator::Add => BinaryOperator::Add,
                    tacky::BinaryOperator::Subtract => BinaryOperator::Subtract,
                    _ => BinaryOperator::Multiply,
                };
                instructions.push(Instruction::Mov { src: src1_operand, dst: copy_operand(&dst_operand) });
                instructions.push(Instruction::Binary { op: asm_op, src: src2_operand, dst: dst_operand });
            },
            _ => {
                let cond_code = match op {
                    tacky::BinaryOperator::Equal => CondCode::E,
                    tacky::BinaryOperator::NotEqual => CondCode::NE,
                    tacky::BinaryOperator::LessThan => CondCode::L,
                    tacky::BinaryOperator::LessOrEqual => CondCode::LE,
                    tacky::BinaryOperator::GreaterThan => CondCode::G,
                    _ => CondCode::GE,
                };
                instructions.push(Instruction::Cmp { src1: src2_operand, src2: src1_operand });
                instructions.push(Instruction::Mov { src: Operand::Imm(0), dst: copy_operand(&dst_operand) });
                instructions.push(Instruction::SetCC(cond_code, dst_operand));
            },
        }
        proof {
            assert(instructions@ =~= i0 + binary_code(op, *src1, *src2, *dst));
        }
    }

    /// Pass 1: selects target instructions over pseudo-registers named after
    /// the function's temporaries and variables. It fails only when a
    /// parameter or argument position cannot be addressed.
    fn convert_tacky_to_asm_pass1(&self, tacky_func: &tacky::Function) -> (r: Result<Function, String>)
        ensures
            r is Ok <==> pass1_fits(*tacky_func),
            r matches Ok(f) ==> f.name == tacky_func.name && f.instructions@ == pass1_image(*tacky_func),
    {
        let mut instructions: Vec<Instruction> = Vec::new();
        if tacky_func.params.len() >= 0x1000_0000 {
            return Err(String::from_str("Too many parameters"));
        }
        Self::copy_params_to_pseudo(&tacky_func.params, &mut instructions);
        let ghost body = tacky_func.body@;
        let mut k: usize = 0;
        proof {
            assert(instructions@ =~= Seq::<Instruction>::empty() + param_copies(tacky_func.params@));
            assert(body.take(0) =~= Seq::<tacky::Instruction>::empty());
        }
        while k < tacky_func.body.len()
            invariant
                k <= tacky_func.body.len(),
                body == tacky_func.body@,
                calls_fit(body.take(k as int)),
                instructions@ == param_copies(tacky_func.params@) + select_all(body.take(k as int)),
            decreases tacky_func.body.len() - k,
        {
            let ghost before = instructions@;
            proof {
                assert(body.take(k + 1).drop_last() =~= body.take(k as int));
                assert(body.take(k + 1).last() == body[k as int]);
            }
            match &tacky_func.body[k] {
                tacky::Instruction::FunCall { name, args, dst } => {
                    if args.len() >= 0x1000_0000 {
                        return Err(String::from_str("Too many arguments in a call"));
                    }
                    Self::convert_funcall(name, args, dst, &mut instructions);
                },
                tacky::Instruction::Return(val) => {
                    instructions.push(Instruction::Mov { src: convert_val(val), dst: Operand::Reg(Register::AX) });
                    instructions.push(Instruction::Ret);
                },
                tacky::Instruction::Copy { src, dst } => {
                    instructions.push(Instruction::Mov { src: convert_val(src), dst: convert_val(dst) });
                },
                tacky::Instruction::Jump(target) => {
                    instructions.push(Instruction::Jmp(target.clone()));
                },
                tacky::Instruction::Label(name) => {
                    instructions.push(Instruction::Label(name.clone()));
                },
                tacky::Instruction::JumpIfZero { condition, target } => {
                    instructions.push(Instruction::Cmp { src1: Operand::Imm(0), src2: convert_val(condition) });
                    instructions.push(Instruction::JmpCC(CondCode::E, target.clone()));
                },
                tacky::Instruction::JumpIfNotZero { condition, target } => {
                    instructions.push(Instruction::Cmp { src1: Operand::Imm(0), src2: convert_val(condition) });
                    instructions.push(Instruction::JmpCC(CondCode::NE, target.clone()));
                },
                tacky::Instruction::Unary { op, src, dst } => {
                    Self::convert_unary_op(*op, src, dst, &mut instructions);
                },
                tacky::Instruction::Binary { op, src1, src2, dst } => {
                    Self::convert_binary_op(*op, src1, src2, dst, &mut instructions);
                },
            }
            proof {
                assert(instructions@ =~= before + select(body[k as int]));
                assert(select_all(body.take(k + 1)) == select_all(body.take(k as int)) + select(body[k as int]));
                assert(instructions@ =~= param_copies(tacky_func.params@) + select_all(body.take(k + 1)));
            }
            k = k + 1;
        }
        proof {
            assert(body.take(body.len() as int) =~= body);
        }
        Ok(Function { name: tacky_func.name.clone(), instructions })
    }

    /// Realizes a call: the first six arguments go in argument registers, the
    /// rest are pushed in reverse order after an 8-byte pad when their number
    /// is odd; after the call exactly the pushed bytes are released and the
    /// result is copied out of the accumulator.
    fn convert_funcall(name: &String, args: &Vec<tacky::Val>, dst: &tacky::Val, instructions: &mut Vec<Instruction>)
        requires
            args@.len() < 0x1000_0000,
        ensures
            final(instructions)@ == old(instructions)@ + call_code(*name, args@, *dst),
    {
        let ghost i0 = instructions@;
        let n = args.len();
        let register_count: usize = if n > 6 { 6 } else { n };
        let stack_count: usize = n - register_count;
        let stack_padding: u32 = if stack_count % 2 == 1 { 8 } else { 0 };
        if stack_padding > 0 {
            instructions.push(Instruction::AllocateStack { bytes: stack_padding });
        }
        let ghost pad_part: Seq<Instruction> = if call_padding(n as nat) > 0 {
            seq![Instruction::AllocateStack { bytes: 8 }]
        } else {
            Seq::empty()
        };
        proof {
            assert(stack_count == stack_args(n as nat));
            assert(instructions@ =~= i0 + pad_part + register_moves(args@, 0));
        }
        let mut i: usize = 0;
        while i < register_count
            invariant
                register_count <= 6,
                register_count <= n,
                n == args@.len(),
                i <= register_count,
                i0 == old(instructions)@,
                instructions@ == i0 + pad_part + register_moves(args@, i as nat),
            decreases register_count - i,
        {
            instructions.push(Instruction::Mov {
                src: convert_val(&args[i]),
                dst: Operand::Reg(arg_register(i)),
            });
            proof {
                assert(instructions@ =~= i0 + pad_part + register_moves(args@, (i + 1) as nat));
            }
            i = i + 1;
        }
        let ghost regs = instructions@;
        let mut j: usize = n;
        proof {
            assert(instructions@ =~= regs + stack_pushes(args@, n as int, n as int));
        }
        while j > register_count
            invariant
                register_count <= j <= n,
                n == args@.len(),
                instructions@ == regs + stack_pushes(args@, j as int, n as int),
            decreases j,
        {
            let arg = convert_val(&args[j - 1]);
            match arg {
                Operand::Imm(_) | Operand::Reg(_) => {
                    instructions.push(Instruction::Push(arg));
                },
                _ => {
                    // a memory operand is pushed through the accumulator
                    instructions.push(Instruction::Mov { src: arg, dst: Operand::Reg(Register::AX) });
                    instructions.push(Instruction::Push(Operand::Reg(Register::AX)));
                },
            }
            proof {
                assert(stack_pushes(args@, j - 1, n as int) == stack_pushes(args@, j as int, n as int) + push_arg(
                    args@[j - 1],
                ));
                assert(instructions@ =~= regs + stack_pushes(args@, j - 1, n as int));
            }
            j = j - 1;
        }
        instructions.push(Instruction::Call(name.clone()));
        let bytes_to_remove: u32 = (stack_count as u32) * 8 + stack_padding;
        if bytes_to_remove > 0 {
            instructions.push(Instruction::DeallocateStack(bytes_to_remove));
        }
        instructions.push(Instruction::Mov { src: Operand::Reg(Register::AX), dst: convert_val(dst) });
        proof {
            assert(instructions@ =~= i0 + call_code(*name, args@, *dst));
        }
    }

    /// Replaces `op`, if it is a pseudo-register, by its stack slot: the slot
    /// already given to that name, or a new 4-byte slot below the others.
    fn assign_stack_offset(op: &Operand, var_map: &mut Vec<(String, i32)>, current_offset: &mut i32) -> (r: Result<Operand, String>)
        requires
            slots_ok(old(var_map)@, *old(current_offset)),
        ensures
            r is Ok <==> alloc_op(*op, map_names(old(var_map)@)).1.len() <= max_slots(),
            r matches Ok(o) ==> {
                &&& slots_ok(final(var_map)@, *final(current_offset))
                &&& (o, map_names(final(var_map)@)) == alloc_op(*op, map_names(old(var_map)@))
            },
    {
        let ghost names = map_names(var_map@);
        match op {
            Operand::Pseudo(name) => {
                let mut k: usize = 0;
                proof {
                    assert(names.take(0) =~= Seq::<Seq<char>>::empty());
                }
                while k < var_map.len()
                    invariant
                        k <= var_map.len(),
                        var_map@ == old(var_map)@,
                        *current_offset == *old(current_offset),
                        names == map_names(var_map@),
                        *op is Pseudo,
                        name == op->Pseudo_0,
                        slots_ok(var_map@, *current_offset),
                        index_in(names.take(k as int), name@) == -1,
                    decreases var_map.len() - k,
                {
                    proof {
                        assert(names.take(k + 1).drop_last() =~= names.take(k as int));
                        assert(names[k as int] == var_map@[k as int].0@);
                    }
                    if var_map[k].0 == *name {
                        proof {
                            assert(index_in(names.take(k + 1), name@) == k);
                            lemma_index_in_prefix(names, k + 1, name@);
                        }
                        return Ok(Operand::Stack(var_map[k].1));
                    }
                    k = k + 1;
                }
                proof {
                    assert(names.take(names.len() as int) =~= names);
                }
                if *current_offset < i32::MIN + 8 {
                    return Err(String::from_str("Stack frame too large"));
                }
                *current_offset = *current_offset - 4;
                let ghost before = var_map@;
                var_map.push((name.clone(), *current_offset));
                proof {
                    assert(map_names(var_map@) =~= names.push(name@));
                }
                Ok(Operand::Stack(*current_offset))
            },
            _ => Ok(copy_operand(op)),
        }
    }

    /// Allocates the operands of one instruction.
    fn alloc_instruction(inst: &Instruction, var_map: &mut Vec<(String, i32)>, current_offset: &mut i32) -> (r: Result<Instruction, String>)
        requires
            slots_ok(old(var_map)@, *old(current_offset)),
        ensures
            r is Ok <==> alloc_instr(*inst, map_names(old(var_map)@)).1.len() <= max_slots(),
            r matches Ok(x) ==> {
                &&& slots_ok(final(var_map)@, *final(current_offset))
                &&& (x, map_names(final(var_map)@)) == alloc_instr(*inst, map_names(old(var_map)@))
            },
    {
        match inst {
            Instruction::Mov { src, dst } => {
                let s = Self::assign_stack_offset(src, var_map, current_offset)?;
                let d = Self::assign_stack_offset(dst, var_map, current_offset)?;
                Ok(Instruction::Mov { src: s, dst: d })
            },
            Instruction::Unary { op, operand } => {
                let o = Self::assign_stack_offset(operand, var_map, current_offset)?;
                Ok(Instruction::Unary { op: *op, operand: o })
            },
            Instruction::Binary { op, src, dst } => {
                let s = Self::assign_stack_offset(src, var_map, current_offset)?;
                let d = Self::assign_stack_offset(dst, var_map, current_offset)?;
                Ok(Instruction::Binary { op: *op, src: s, dst: d })
            },
            Instruction::Idiv(operand) => Ok(Instruction::Idiv(Self::assign_stack_offset(operand, var_map, current_offset)?)),
            Instruction::Cmp { src1, src2 } => {
                let a = Self::assign_stack_offset(src1, var_map, current_offset)?;
                let b = Self::assign_stack_offset(src2, var_map, current_offset)?;
                Ok(Instruction::Cmp { src1: a, src2: b })
            },
            Instruction::SetCC(cc, operand) => Ok(
                Instruction::SetCC(*cc, Self::assign_stack_offset(operand, var_map, current_offset)?),
            ),
            Instruction::Push(operand) => Ok(Instruction::Push(Self::assign_stack_offset(operand, var_map, current_offset)?)),
            _ => Ok(copy_instruction(inst)),
        }
    }

    /// Pass 2: gives each distinct pseudo-register name, in order of first
    /// appearance, its own 4-byte stack slot and returns the bytes the slots
    /// take; it fails exactly when more slots are needed than offsets fit.
    fn replace_pseudo_with_stack_pass2(&self, asm_func: &mut Function) -> (r: Result<u32, String>)
        ensures
            r is Ok <==> alloc_all(old(asm_func).instructions@).1.len() <= max_slots(),
            r matches Ok(bytes) ==> {
                &&& final(asm_func).instructions@ == alloc_all(old(asm_func).instructions@).0
                &&& bytes == 4 * alloc_all(old(asm_func).instructions@).1.len()
                &&& all_pseudo_free(final(asm_func).instructions@)
                &&& bytes <= i32::MAX
            },
            final(asm_func).name == old(asm_func).name,
    {
        let mut var_map: Vec<(String, i32)> = Vec::new();
        let mut current_offset: i32 = 0;
        let mut out: Vec<Instruction> = Vec::new();
        let ghost src = asm_func.instructions@;
        let mut k: usize = 0;
        proof {
            assert(src.take(0) =~= Seq::<Instruction>::empty());
            assert(map_names(var_map@) =~= Seq::<Seq<char>>::empty());
        }
        while k < asm_func.instructions.len()
            invariant
                k <= asm_func.instructions.len(),
                asm_func.instructions@ == old(asm_func).instructions@,
                src == old(asm_func).instructions@,
                asm_func.name == old(asm_func).name,
                slots_ok(var_map@, current_offset),
                (out@, map_names(var_map@)) == alloc_all(src.take(k as int)),
            decreases asm_func.instructions.len() - k,
        {
            proof {
                assert(src.take(k + 1).drop_last() =~= src.take(k as int));
                assert(src.take(k + 1).last() == src[k as int]);
            }
            match Self::alloc_instruction(&asm_func.instructions[k], &mut var_map, &mut current_offset) {
                Ok(x) => {
                    out.push(x);
                },
                Err(e) => {
                    proof {
                        lemma_alloc_grows(src, k + 1);
                    }
                    return Err(e);
                },
            }
            k = k + 1;
        }
        proof {
            assert(src.take(src.len() as int) =~= src);
        }
        asm_func.instructions = out;
        let bytes = (-(current_offset as i64)) as u32;
        proof {
            lemma_alloc_pseudo_free(src);
        }
        Ok(bytes)
    }

    fn emit(out: &mut Vec<Instruction>, inst: Instruction)
        requires
            legal(inst),
            pseudo_free(inst),
            all_legal(old(out)@),
            all_pseudo_free(old(out)@),
        ensures
            final(out)@ == old(out)@.push(inst),
            all_legal(final(out)@),
            all_pseudo_free(final(out)@),
    {
        out.push(inst);
        proof {
            assert forall|k: int| 0 <= k < out@.len() implies legal(#[trigger] out@[k]) && pseudo_free(
                out@[k],
            ) by {
                if k < out@.len() - 1 {
                    assert(out@[k] == old(out)@[k]);
                }
            }
        }
    }

    /// Rewrites one instruction into legal ones, using `R10` and `R11` as scratch.
    fn fixup_instruction(inst: &Instruction, out: &mut Vec<Instruction>)
        requires
            pseudo_free(*inst),
            all_legal(old(out)@),
            all_pseudo_free(old(out)@),
        ensures
            all_legal(final(out)@),
            all_pseudo_free(final(out)@),
            final(out)@ == old(out)@ + fix(*inst),
    {
        let ghost o0 = out@;
        match inst {
            Instruction::Mov { src: Operand::Stack(src_offset), dst: Operand::Stack(dst_offset) } => {
                Self::emit(out, Instruction::Mov { src: Operand::Stack(*src_offset), dst: Operand::Reg(Register::R10) });
                Self::emit(out, Instruction::Mov { src: Operand::Reg(Register::R10), dst: Operand::Stack(*dst_offset) });
            },
            Instruction::Binary { op, src: Operand::Stack(src_offset), dst: Operand::Stack(dst_offset) }
                if *op != BinaryOperator::Multiply => {
                Self::emit(out, Instruction::Mov { src: Operand::Stack(*src_offset), dst: Operand::Reg(Register::R10) });
                Self::emit(out, Instruction::Binary {
                    op: *op,
                    src: Operand::Reg(Register::R10),
                    dst: Operand::Stack(*dst_offset),
                });
            },
            Instruction::Binary { op: BinaryOperator::Multiply, src, dst: Operand::Stack(dst_offset) } => {
                Self::emit(out, Instruction::Mov { src: Operand::Stack(*dst_offset), dst: Operand::Reg(Register::R11) });
                Self::emit(out, Instruction::Binary {
                    op: BinaryOperator::Multiply,
                    src: copy_operand(src),
                    dst: Operand::Reg(Register::R11),
                });
                Self::emit(out, Instruction::Mov { src: Operand::Reg(Register::R11), dst: Operand::Stack(*dst_offset) });
            },
            Instruction::Idiv(Operand::Imm(val)) => {
                Self::emit(out, Instruction::Mov { src: Operand::Imm(*val), dst: Operand::Reg(Register::R10) });
                Self::emit(out, Instruction::Idiv(Operand::Reg(Register::R10)));
            },
            Instruction::Cmp { src1, src2 } => {
                let mut s1 = copy_operand(src1);
                let mut s2 = copy_operand(src2);
                if matches!(s1, Operand::Stack(_)) && matches!(s2, Operand::Stack(_)) {
                    Self::emit(out, Instruction::Mov { src: s1, dst: Operand::Reg(Register::R10) });
                    s1 = Operand::Reg(Register::R10);
                }
                match s2 {
                    Operand::Imm(val) => {
                        Self::emit(out, Instruction::Mov { src: Operand::Imm(val), dst: Operand::Reg(Register::R11) });
                        s2 = Operand::Reg(Register::R11);
                    },
                    _ => {},
                }
                Self::emit(out, Instruction::Cmp { src1: s1, src2: s2 });
            },
            Instruction::Push(Operand::Imm(val)) => {
                Self::emit(out, Instruction::Mov { src: Operand::Imm(*val), dst: Operand::Reg(Register::R10) });
                Self::emit(out, Instruction::Push(Operand::Reg(Register::R10)));
            },
            _ => {
                Self::emit(out, copy_instruction(inst));
            },
        }
        proof {
            assert(out@ =~= o0 + fix(*inst));
        }
    }

    /// Pass 3: prepends the allocation of the 16-byte-aligned frame and
    /// rewrites every operand combination that the target does not accept.
    fn fixup_instructions_pass3(&self, asm_func: &mut Function, stack_bytes: u32)
        requires
            all_pseudo_free(old(asm_func).instructions@),
            stack_bytes <= i32::MAX,
        ensures
            all_legal(final(asm_func).instructions@),
            all_pseudo_free(final(asm_func).instructions@),
            final(asm_func).name == old(asm_func).name,
            final(asm_func).instructions@ == prologue(stack_bytes) + fix_all(old(asm_func).instructions@),
            stack_bytes > 0 ==> final(asm_func).instructions@.len() > 0
                && final(asm_func).instructions@[0] == (Instruction::AllocateStack {
                bytes: align16(stack_bytes as nat) as u32,
            }),
    {
        let mut new_instructions: Vec<Instruction> = Vec::new();
        if stack_bytes > 0 {
            let aligned_bytes = (stack_bytes + 15) / 16 * 16;
            Self::emit(&mut new_instructions, Instruction::AllocateStack { bytes: aligned_bytes });
        }
        let ghost first = new_instructions@;
        proof {
            assert(first =~= prologue(stack_bytes));
            assert(asm_func.instructions@.take(0) =~= Seq::<Instruction>::empty());
            assert(new_instructions@ =~= first + fix_all(asm_func.instructions@.take(0)));
        }
        let mut k: usize = 0;
        while k < asm_func.instructions.len()
            invariant
                k <= asm_func.instructions.len(),
                asm_func.instructions@ == old(asm_func).instructions@,
                asm_func.name == old(asm_func).name,
                all_pseudo_free(asm_func.instructions@),
                all_legal(new_instructions@),
                all_pseudo_free(new_instructions@),
                extends(new_instructions@, first),
                first == prologue(stack_bytes),
                new_instructions@ == first + fix_all(asm_func.instructions@.take(k as int)),
                stack_bytes > 0 ==> first.len() > 0 && first[0] == (Instruction::AllocateStack {
                    bytes: align16(stack_bytes as nat) as u32,
                }),
            decreases asm_func.instructions.len() - k,
        {
            proof {
                let src = asm_func.instructions@;
                assert(src.take(k + 1).drop_last() =~= src.take(k as int));
                assert(src.take(k + 1).last() == src[k as int]);
            }
            Self::fixup_instruction(&asm_func.instructions[k], &mut new_instructions);
            proof {
                assert(new_instructions@ =~= first + fix_all(asm_func.instructions@.take(k + 1)));
            }
            k = k + 1;
        }
        proof {
            assert(asm_func.instructions@.take(asm_func.instructions@.len() as int) =~= asm_func.instructions@);
        }
        asm_func.instructions = new_instructions;
    }

    /// Translates every function of the program: selection, allocation of
    /// stack slots, then legalization behind a frame-allocating prologue. It
    /// succeeds exactly when every function fits the addressing limits; each
    /// resulting function keeps its name, is `assembled` from its source, and
    /// holds no pseudo-register and no illegal operand combination.
    pub fn generate_assembly(&mut self, tacky_program: tacky::Program) -> (r: Result<Program, String>)
        ensures
            r is Ok <==> forall|i: int|
                0 <= i < tacky_program.functions@.len() ==> function_fits(#[trigger] tacky_program.functions@[i]),
            r matches Ok(p) ==> {
                &&& p.functions@.len() == tacky_program.functions@.len()
                &&& forall|i: int|
                    0 <= i < p.functions@.len() ==> {
                        &&& (#[trigger] p.functions@[i]).name == tacky_program.functions@[i].name
                        &&& p.functions@[i].instructions@ == assembled(tacky_program.functions@[i])
                        &&& all_pseudo_free(p.functions@[i].instructions@)
                        &&& all_legal(p.functions@[i].instructions@)
                    }
            },
    {
        let mut final_functions: Vec<Function> = Vec::new();
        let mut k: usize = 0;
        while k < tacky_program.functions.len()
            invariant
                k <= tacky_program.functions.len(),
                final_functions@.len() == k,
                forall|i: int| 0 <= i < k ==> function_fits(#[trigger] tacky_program.functions@[i]),
                forall|i: int|
                    0 <= i < final_functions@.len() ==> {
                        &&& (#[trigger] final_functions@[i]).name == tacky_program.functions@[i].name
                        &&& final_functions@[i].instructions@ == assembled(tacky_program.functions@[i])
                        &&& all_pseudo_free(final_functions@[i].instructions@)
                        &&& all_legal(final_functions@[i].instructions@)
                    },
            decreases tacky_program.functions.len() - k,
        {
            let ghost f = tacky_program.functions@[k as int];
            let mut asm_func = match self.convert_tacky_to_asm_pass1(&tacky_program.functions[k]) {
                Ok(a) => a,
                Err(e) => {
                    proof {
                        assert(!function_fits(tacky_program.functions@[k as int]));
                    }
                    return Err(e);
                },
            };
            let stack_bytes_needed = match self.replace_pseudo_with_stack_pass2(&mut asm_func) {
                Ok(b) => b,
                Err(e) => {
                    proof {
                        assert(!function_fits(tacky_program.functions@[k as int]));
                    }
                    return Err(e);
                },
            };
            self.fixup_instructions_pass3(&mut asm_func, stack_bytes_needed);
            final_functions.push(asm_func);
            k = k + 1;
        }
        Ok(Program { functions: final_functions })
    }


}

} // verus!
