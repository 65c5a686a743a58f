use vstd::prelude::*;

use crate::fault::ExecutionFault;
use crate::machine::lemma_iter_add;
use crate::machine::lemma_terminal_absorbs;
use crate::machine::mach_iter;
use crate::machine::mach_step;
use crate::machine::mach_terminal;
use crate::machine::Mach;
use crate::model::const_index_ok;
use crate::model::decode_payload;
use crate::model::fetch_next;
use crate::model::lemma_scan_block_bounds;
use crate::model::load_words;
use crate::model::reg_index_ok;
use crate::model::scan_block;
use crate::model::step_model;
use crate::model::table_insert;
use crate::model::table_lookup;
use crate::model::wrap_div;
use crate::model::zero_image;
use crate::model::FnBinding;
use crate::model::StepRes;
use crate::model::VmModel;
use crate::model::MEMORY_CAPACITY;
use crate::model::OP_ADD;
use crate::model::OP_CONSTANT_LITERAL;
use crate::model::OP_DIV;
use crate::model::OP_FUNCTION_CALL;
use crate::model::OP_FUNCTION_DECLARE;
use crate::model::OP_JUMP_IF_EQUAL;
use crate::model::OP_MUL;
use crate::model::OP_JUMP;
use crate::model::OP_PRINT;
use crate::model::OP_NOP_A;
use crate::model::OP_NOP_B;
use crate::model::truncated_div;
use crate::model::lemma_in_range_truncated_div;
use crate::model::OP_PUSH;
use crate::model::OP_SUB;

verus! {

/// A position in the instruction stream, cut off at the end of memory:
/// operand reads stop at the last valid offset, so no instruction
/// carries the counter further than one past it.
pub open spec fn capped_at_memory_end(p: int) -> nat
    recommends
        p >= 0,
{
    if p <= MEMORY_CAPACITY {
        p as nat
    } else {
        MEMORY_CAPACITY as nat
    }
}

/// After every dispatched instruction the program counter stands at
/// the end of the instruction's full encoding — one word for a nop or
/// an unrecognized opcode, opcode plus operands for the fixed-length
/// instructions, through the closing delimiter for a block, each
/// capped at the end of memory — or at a taken jump's non-negative
/// target; a spawned child frame starts at 0. In particular every
/// instruction but a taken jump strictly advances the counter and
/// never past the end of memory.
pub proof fn lemma_counter_progress(s: VmModel)
    requires
        s.wf(),
        s.pc < MEMORY_CAPACITY,
    ensures
        (match step_model(s) {
            StepRes::Next(t) => ({
                let op = s.mem[s.pc as int];
                let f1 = fetch_next(s.mem, s.pc);
                let f2 = fetch_next(s.mem, f1.0);
                let f3 = fetch_next(s.mem, f2.0);
                let taken = op == OP_JUMP || (op == OP_JUMP_IF_EQUAL && s.regs[f2.1 as int]
                    == f3.1);
                &&& (op == OP_PUSH || op == OP_ADD || op == OP_SUB || op == OP_MUL || op == OP_DIV
                    || op == OP_PRINT ==> t.pc == capped_at_memory_end(s.pc + 3 as int))
                &&& (op == OP_JUMP ==> t.pc == f1.1 as nat)
                &&& (op == OP_JUMP_IF_EQUAL && taken ==> t.pc == f1.1 as nat)
                &&& (op == OP_JUMP_IF_EQUAL && !taken ==> t.pc == capped_at_memory_end(s.pc + 4 as int))
                &&& (op == OP_FUNCTION_DECLARE ==> t.pc == scan_block(
                    s.mem,
                    f1.0,
                    OP_FUNCTION_DECLARE,
                ).pc)
                &&& (op == OP_CONSTANT_LITERAL ==> t.pc == scan_block(
                    s.mem,
                    s.pc,
                    OP_CONSTANT_LITERAL,
                ).pc)
                &&& (op != OP_PUSH && op != OP_JUMP && op != OP_JUMP_IF_EQUAL && op != OP_ADD
                    && op != OP_SUB && op != OP_MUL && op != OP_DIV && op != OP_PRINT
                    && op != OP_FUNCTION_DECLARE && op != OP_CONSTANT_LITERAL ==> t.pc == s.pc
                    + 1)
                &&& (!taken ==> s.pc < t.pc <= MEMORY_CAPACITY)
            }),
            StepRes::Call(c, child) => c.pc == capped_at_memory_end(s.pc + 2 as int) && c.pc > s.pc
                && child.pc == 0,
            StepRes::Stuck(_) => true,
        }),
{
    let op = s.mem[s.pc as int];
    if op == OP_FUNCTION_DECLARE {
        lemma_scan_block_bounds(s.mem, fetch_next(s.mem, s.pc).0, OP_FUNCTION_DECLARE);
    }
    if op == OP_CONSTANT_LITERAL {
        lemma_scan_block_bounds(s.mem, s.pc, OP_CONSTANT_LITERAL);
    }
}

/// `push v, r` stores exactly `v` in register `r`: reading `r` right
/// after the instruction yields `v`, and the counter has advanced past
/// both operands.
pub proof fn lemma_push_stores(s: VmModel)
    requires
        s.wf(),
        s.pc + 2 < MEMORY_CAPACITY,
        s.mem[s.pc as int] == OP_PUSH,
        reg_index_ok(s.mem[(s.pc + 2) as int]),
    ensures
        step_model(s) matches StepRes::Next(t) && t.regs[s.mem[(s.pc + 2) as int] as int] == s.mem[(s.pc + 1) as int]
            && t.pc == s.pc + 3,
{
}

/// `add a,b`, `sub a,b`, `mul a,b` and `div a,b` leave register `b` at
/// 0 and register `a` at the arithmetic result, for distinct operand
/// registers, with every other register untouched; the result is the
/// exact mathematical one whenever it fits in 32 bits (for `div`,
/// truncating toward zero, always but for `i32::MIN / -1`), and wraps
/// otherwise. `div` with register `b` holding 0 is the fatal
/// `DivisionByZero` instead.
pub proof fn lemma_arithmetic_consumes(s: VmModel)
    requires
        s.wf(),
        s.pc + 2 < MEMORY_CAPACITY,
        s.mem[s.pc as int] == OP_ADD || s.mem[s.pc as int] == OP_SUB || s.mem[s.pc as int]
            == OP_MUL || s.mem[s.pc as int] == OP_DIV,
        reg_index_ok(s.mem[(s.pc + 1) as int]),
        reg_index_ok(s.mem[(s.pc + 2) as int]),
        s.mem[(s.pc + 1) as int] != s.mem[(s.pc + 2) as int],
    ensures
        ({
            let op = s.mem[s.pc as int];
            let a = s.mem[(s.pc + 1) as int] as int;
            let b = s.mem[(s.pc + 2) as int] as int;
            let va = s.regs[a];
            let vb = s.regs[b];
            &&& (op == OP_DIV && vb == 0) ==> step_model(s) == StepRes::Stuck(
                ExecutionFault::DivisionByZero,
            )
            &&& (op != OP_DIV || vb != 0) ==> (step_model(s) matches StepRes::Next(t) && ({
                &&& t.regs.len() == s.regs.len()
                &&& (forall|k: int|
                    0 <= k < s.regs.len() && k != a && k != b ==> t.regs[k] == s.regs[k])
                &&& t.regs[b] == 0
                &&& t.pc == s.pc + 3
                &&& (op == OP_ADD ==> t.regs[a] == va.wrapping_add(vb))
                &&& (op == OP_SUB ==> t.regs[a] == va.wrapping_sub(vb))
                &&& (op == OP_MUL ==> t.regs[a] == va.wrapping_mul(vb))
                &&& (op == OP_DIV ==> t.regs[a] == wrap_div(va, vb))
                &&& ((op == OP_ADD && i32::MIN <= va + vb <= i32::MAX) ==> t.regs[a] == va + vb)
                &&& ((op == OP_SUB && i32::MIN <= va - vb <= i32::MAX) ==> t.regs[a] == va - vb)
                &&& ((op == OP_MUL && i32::MIN <= va * vb <= i32::MAX) ==> t.regs[a] == va * vb)
                &&& ((op == OP_DIV && !(va == i32::MIN && vb == -1)) ==> t.regs[a]
                    == truncated_div(va as int, vb as int))
            }))
        }),
{
    let a = s.mem[(s.pc + 1) as int] as int;
    let b = s.mem[(s.pc + 2) as int] as int;
    let va = s.regs[a];
    let vb = s.regs[b];
    if s.mem[s.pc as int] == OP_DIV && vb != 0 && !(va == i32::MIN && vb == -1) {
        lemma_in_range_truncated_div(va as int, vb as int);
    }
}

/// `jump-if-equal` with a false condition advances past all three
/// operands rather than jumping, and changes nothing else.
pub proof fn lemma_jump_if_equal_not_taken(s: VmModel)
    requires
        s.wf(),
        s.pc + 3 < MEMORY_CAPACITY,
        s.mem[s.pc as int] == OP_JUMP_IF_EQUAL,
        reg_index_ok(s.mem[(s.pc + 2) as int]),
        s.regs[s.mem[(s.pc + 2) as int] as int] != s.mem[(s.pc + 3) as int],
    ensures
        step_model(s) == StepRes::Next(VmModel { pc: (s.pc + 4) as nat, ..s }),
{
}

/// A `constant-literal` block appends exactly one pool entry — the
/// block's words decoded as character codes — and touches neither the
/// registers, the function table nor the output.
pub proof fn lemma_constant_literal_appends(s: VmModel)
    requires
        s.wf(),
        s.pc < MEMORY_CAPACITY,
        s.mem[s.pc as int] == OP_CONSTANT_LITERAL,
    ensures
        step_model(s) matches StepRes::Next(t) && ({
            &&& t.consts == s.consts.push(
                decode_payload(scan_block(s.mem, s.pc, OP_CONSTANT_LITERAL).payload),
            )
            &&& t.regs == s.regs
            &&& t.funcs == s.funcs
            &&& t.out == s.out
        }),
{
}

/// A `function-call` to a bound name hands the child frame a snapshot
/// of the caller's registers, constants and function table, loads the
/// bound body as the child's memory, and leaves the caller unchanged
/// but for the counter, which has advanced past the operand.
pub proof fn lemma_call_isolation(s: VmModel)
    requires
        s.wf(),
        s.pc < MEMORY_CAPACITY,
        s.mem[s.pc as int] == OP_FUNCTION_CALL,
        const_index_ok(s.consts, fetch_next(s.mem, s.pc).1),
        table_lookup(s.funcs, s.consts[fetch_next(s.mem, s.pc).1 as int]) is Some,
    ensures
        step_model(s) matches StepRes::Call(c, child) && ({
            &&& c == (VmModel { pc: (fetch_next(s.mem, s.pc).0 + 1) as nat, ..s })
            &&& child.regs == s.regs
            &&& child.consts == s.consts
            &&& child.funcs == s.funcs
            &&& child.pc == 0
            &&& child.out == s.out
            &&& child.mem == load_words(
                zero_image(),
                table_lookup(s.funcs, s.consts[fetch_next(s.mem, s.pc).1 as int]).unwrap(),
            )
        }),
{
}

/// A `function-call` whose target is not bound — its constant index
/// names no pool entry, or the named constant has no function-table
/// binding — is the fatal `UnboundFunction`.
pub proof fn lemma_call_unbound(s: VmModel)
    requires
        s.wf(),
        s.pc < MEMORY_CAPACITY,
        s.mem[s.pc as int] == OP_FUNCTION_CALL,
        !const_index_ok(s.consts, fetch_next(s.mem, s.pc).1) || table_lookup(
            s.funcs,
            s.consts[fetch_next(s.mem, s.pc).1 as int],
        ) is None,
    ensures
        step_model(s) == StepRes::Stuck(ExecutionFault::UnboundFunction),
{
}

/// `function-declare` binds the named constant to exactly the words
/// between its operand and the closing delimiter (the framing
/// excluded): looking that name up afterwards yields that body, every
/// other name keeps its old binding, and the registers, the constant
/// pool and the output are untouched.
pub proof fn lemma_function_declare_binds(s: VmModel)
    requires
        s.wf(),
        s.pc < MEMORY_CAPACITY,
        s.mem[s.pc as int] == OP_FUNCTION_DECLARE,
        const_index_ok(s.consts, fetch_next(s.mem, s.pc).1),
    ensures
        step_model(s) matches StepRes::Next(t) && ({
            let name = s.consts[fetch_next(s.mem, s.pc).1 as int];
            let body = scan_block(s.mem, fetch_next(s.mem, s.pc).0, OP_FUNCTION_DECLARE).payload;
            &&& table_lookup(t.funcs, name) == Some(body)
            &&& (forall|other: Seq<char>|
                other != name ==> #[trigger] table_lookup(t.funcs, other) == table_lookup(
                    s.funcs,
                    other,
                ))
            &&& t.regs == s.regs
            &&& t.consts == s.consts
            &&& t.out == s.out
        }),
{
    let name = s.consts[fetch_next(s.mem, s.pc).1 as int];
    let body = scan_block(s.mem, fetch_next(s.mem, s.pc).0, OP_FUNCTION_DECLARE).payload;
    lemma_table_lookup_insert_same(s.funcs, name, body);
    assert forall|other: Seq<char>| other != name implies #[trigger] table_lookup(
        table_insert(s.funcs, name, body),
        other,
    ) == table_lookup(s.funcs, other) by {
        lemma_table_lookup_insert_other(s.funcs, name, body, other);
    }
}

/// When a finished child frame is popped, the caller resumes exactly
/// as the call left it — registers, constants, functions and counter
/// untouched; only the output and the reports flow back down. Frames
/// further out are untouched altogether.
pub proof fn lemma_return_isolation(frames: Seq<VmModel>)
    requires
        frames.len() >= 2,
        frames.last().pc >= MEMORY_CAPACITY,
    ensures
        mach_step(Mach::Running { frames }) matches Mach::Running { frames: g } && ({
            &&& g.len() == frames.len() - 1
            &&& g.last().regs == frames[frames.len() - 2].regs
            &&& g.last().consts == frames[frames.len() - 2].consts
            &&& g.last().funcs == frames[frames.len() - 2].funcs
            &&& g.last().pc == frames[frames.len() - 2].pc
            &&& g.last().out == frames.last().out
            &&& g.last().reports == frames.last().reports
            &&& forall|i: int| 0 <= i < g.len() - 1 ==> g[i] == frames[i]
        }),
{
}

/// Looking up the name just bound finds exactly the new body.
pub proof fn lemma_table_lookup_insert_same(fs: Seq<FnBinding>, n: Seq<char>, b: Seq<i32>)
    ensures
        table_lookup(table_insert(fs, n, b), n) == Some(b),
    decreases fs.len(),
{
    if fs.len() == 0 {
    } else if fs[0].name == n {
        assert(table_insert(fs, n, b)[0] == (FnBinding { name: n, body: b }));
    } else {
        lemma_table_lookup_insert_same(fs.drop_first(), n, b);
        assert(table_insert(fs, n, b).drop_first() =~= table_insert(fs.drop_first(), n, b));
    }
}

/// Binding one name leaves every other name's binding unchanged.
pub proof fn lemma_table_lookup_insert_other(
    fs: Seq<FnBinding>,
    n: Seq<char>,
    b: Seq<i32>,
    m: Seq<char>,
)
    requires
        m != n,
    ensures
        table_lookup(table_insert(fs, n, b), m) == table_lookup(fs, m),
    decreases fs.len(),
{
    if fs.len() == 0 {
        let r = table_insert(fs, n, b);
        assert(r =~= seq![FnBinding { name: n, body: b }]);
        assert(r.len() == 1);
        assert(r[0].name == n);
        assert(r.drop_first() =~= Seq::<FnBinding>::empty());
        assert(table_lookup(r.drop_first(), m) is None);
        assert(table_lookup(r, m) is None);
        assert(table_lookup(fs, m) is None);
    } else if fs[0].name == n {
        assert(table_insert(fs, n, b)[0] == (FnBinding { name: n, body: b }));
        assert(table_insert(fs, n, b).drop_first() =~= fs.drop_first());
    } else {
        lemma_table_lookup_insert_other(fs.drop_first(), n, b, m);
        assert(table_insert(fs, n, b)[0] == fs[0]);
        assert(table_insert(fs, n, b).drop_first() =~= table_insert(fs.drop_first(), n, b));
    }
}

/// Determinism: from one starting state the machine reaches at most
/// one finished state, whatever the step budget. Two budgets that both
/// suffice give the same outcome, output included.
pub proof fn lemma_run_deterministic(m: Mach, n1: nat, n2: nat)
    requires
        mach_terminal(mach_iter(m, n1)),
        mach_terminal(mach_iter(m, n2)),
    ensures
        mach_iter(m, n1) == mach_iter(m, n2),
{
    if n1 <= n2 {
        lemma_iter_add(m, n1, (n2 - n1) as nat);
        lemma_terminal_absorbs(mach_iter(m, n1), (n2 - n1) as nat);
    } else {
        lemma_iter_add(m, n2, (n1 - n2) as nat);
        lemma_terminal_absorbs(mach_iter(m, n2), (n1 - n2) as nat);
    }
}

} // verus!
