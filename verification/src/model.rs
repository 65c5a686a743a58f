use vstd::prelude::*;
use vstd::arithmetic::div_mod::lemma_div_is_ordered_by_denominator;
use vstd::arithmetic::div_mod::lemma_div_nonincreasing;
use vstd::arithmetic::div_mod::lemma_div_pos_is_pos;

use crate::fault::ExecutionFault;
use crate::fault::OutputView;
use crate::fault::Report;

verus! {

/// Number of memory words an interpreter instance owns.
pub const MEMORY_CAPACITY: usize = 4096;

/// Number of registers an interpreter instance owns.
pub const REGISTER_CAPACITY: usize = 1000;

pub const OP_NOP_A: i32 = 0x0;
pub const OP_NOP_B: i32 = 0x1;
pub const OP_PUSH: i32 = 0x2;
pub const OP_JUMP: i32 = 0x3;
pub const OP_JUMP_IF_EQUAL: i32 = 0x4;
pub const OP_ADD: i32 = 0x5;
pub const OP_SUB: i32 = 0x6;
pub const OP_MUL: i32 = 0x7;
pub const OP_DIV: i32 = 0x8;
pub const OP_FUNCTION_DECLARE: i32 = 0x9;
pub const OP_PRINT: i32 = 0x10;
pub const OP_FUNCTION_CALL: i32 = 0x11;
pub const OP_CONSTANT_LITERAL: i32 = 0x15;

/// `print` mode 0: print the value held by the register the second
/// operand names.
pub const PRINT_MODE_REGISTER: i32 = 0x0;

/// `print` mode 1: print the constant-pool entry whose position is the
/// second operand itself. The operand is a direct pool index; it is
/// not an indirection through the named register's current value.
pub const PRINT_MODE_CONSTANT: i32 = 0x1;

/// One binding of the function table: a name from the constant pool and
/// the body bound to it.
#[verifier::ext_equal]
pub ghost struct FnBinding {
    pub name: Seq<char>,
    pub body: Seq<i32>,
}

/// The mathematical state of one interpreter instance.
#[verifier::ext_equal]
pub ghost struct VmModel {
    pub mem: Seq<i32>,
    pub regs: Seq<i32>,
    pub consts: Seq<Seq<char>>,
    pub funcs: Seq<FnBinding>,
    pub pc: nat,
    pub out: Seq<OutputView>,
    pub reports: Seq<Report>,
}

impl VmModel {
    pub open spec fn wf(self) -> bool {
        &&& self.mem.len() == MEMORY_CAPACITY
        &&& self.regs.len() == REGISTER_CAPACITY
    }
}

/// The operand-read primitive: advance the counter and read the next
/// word, except at the last valid offset, where the counter stays put
/// and the read yields the sentinel 0.
pub open spec fn fetch_next(mem: Seq<i32>, pc: nat) -> (nat, i32)
    recommends
        mem.len() == MEMORY_CAPACITY,
{
    if pc < MEMORY_CAPACITY - 1 {
        ((pc + 1) as nat, mem[(pc + 1) as int])
    } else {
        (pc, 0)
    }
}

/// What a delimiter scan leaves behind: the words between the opening
/// opcode and its closing delimiter, the counter after the scan, and
/// whether the delimiter was actually found before memory ended.
#[verifier::ext_equal]
pub ghost struct ScanResult {
    pub payload: Seq<i32>,
    pub pc: nat,
    pub terminated: bool,
}

/// Scan forward from `pc` (the position of the opening opcode or of the
/// word last consumed), collecting words until `delim` appears again.
/// If memory ends first, the partial payload stands and the counter is
/// left past the end, so execution ends.
pub open spec fn scan_block(mem: Seq<i32>, pc: nat, delim: i32) -> ScanResult
    recommends
        mem.len() == MEMORY_CAPACITY,
        pc < MEMORY_CAPACITY,
    decreases MEMORY_CAPACITY - pc,
{
    if pc >= MEMORY_CAPACITY - 1 {
        ScanResult { payload: Seq::<i32>::empty(), pc: MEMORY_CAPACITY as nat, terminated: false }
    } else if mem[(pc + 1) as int] == delim {
        ScanResult { payload: Seq::<i32>::empty(), pc: (pc + 2) as nat, terminated: true }
    } else {
        let rest = scan_block(mem, (pc + 1) as nat, delim);
        ScanResult {
            payload: seq![mem[(pc + 1) as int]] + rest.payload,
            pc: rest.pc,
            terminated: rest.terminated,
        }
    }
}

pub proof fn lemma_scan_block_bounds(mem: Seq<i32>, pc: nat, delim: i32)
    requires
        pc < MEMORY_CAPACITY,
    ensures
        scan_block(mem, pc, delim).pc > pc,
        scan_block(mem, pc, delim).pc <= MEMORY_CAPACITY,
    decreases MEMORY_CAPACITY - pc,
{
    if pc >= MEMORY_CAPACITY - 1 {
    } else if mem[(pc + 1) as int] == delim {
    } else {
        lemma_scan_block_bounds(mem, (pc + 1) as nat, delim);
    }
}

/// How one word of a constant block is reinterpreted as a character:
/// its low byte, taken as a character code.
pub open spec fn decode_char(w: i32) -> char {
    (w as u8) as char
}

pub open spec fn decode_payload(ws: Seq<i32>) -> Seq<char> {
    ws.map_values(|w: i32| decode_char(w))
}

/// Look a name up in the function table (first binding wins; the table
/// never holds two bindings of one name, since declaring overwrites).
pub open spec fn table_lookup(funcs: Seq<FnBinding>, name: Seq<char>) -> Option<Seq<i32>>
    decreases funcs.len(),
{
    if funcs.len() == 0 {
        None
    } else if funcs[0].name == name {
        Some(funcs[0].body)
    } else {
        table_lookup(funcs.drop_first(), name)
    }
}

/// Bind `name` to `body`: overwrite the binding that holds `name`, or
/// append a new one.
pub open spec fn table_insert(
    funcs: Seq<FnBinding>,
    name: Seq<char>,
    body: Seq<i32>,
) -> Seq<FnBinding>
    decreases funcs.len(),
{
    if funcs.len() == 0 {
        seq![FnBinding { name: name, body: body }]
    } else if funcs[0].name == name {
        seq![FnBinding { name: name, body: body }] + funcs.drop_first()
    } else {
        seq![funcs[0]] + table_insert(funcs.drop_first(), name, body)
    }
}

/// Inserting where the first match sits at position `i` overwrites
/// exactly that binding.
pub proof fn lemma_table_insert_match(fs: Seq<FnBinding>, n: Seq<char>, b: Seq<i32>, i: int)
    requires
        0 <= i < fs.len(),
        forall|k: int| 0 <= k < i ==> fs[k].name != n,
        fs[i].name == n,
    ensures
        table_insert(fs, n, b) == fs.update(i, FnBinding { name: n, body: b }),
    decreases i,
{
    if i == 0 {
        assert(table_insert(fs, n, b) =~= fs.update(0, FnBinding { name: n, body: b }));
    } else {
        assert(fs[0].name != n);
        lemma_table_insert_match(fs.drop_first(), n, b, i - 1);
        assert(seq![fs[0]] + fs.drop_first().update(i - 1, FnBinding { name: n, body: b })
            =~= fs.update(i, FnBinding { name: n, body: b }));
    }
}

/// Inserting a name that the table nowhere holds appends a binding.
pub proof fn lemma_table_insert_append(fs: Seq<FnBinding>, n: Seq<char>, b: Seq<i32>)
    requires
        forall|k: int| 0 <= k < fs.len() ==> fs[k].name != n,
    ensures
        table_insert(fs, n, b) == fs.push(FnBinding { name: n, body: b }),
    decreases fs.len(),
{
    if fs.len() == 0 {
        assert(table_insert(fs, n, b) =~= fs.push(FnBinding { name: n, body: b }));
    } else {
        lemma_table_insert_append(fs.drop_first(), n, b);
        assert(seq![fs[0]] + fs.drop_first().push(FnBinding { name: n, body: b }) =~= fs.push(
            FnBinding { name: n, body: b },
        ));
    }
}

/// A zero-filled memory image.
pub open spec fn zero_image() -> Seq<i32> {
    Seq::new(MEMORY_CAPACITY as nat, |i: int| 0i32)
}

/// The state a fresh interpreter starts in: everything zeroed or empty.
pub open spec fn initial_model() -> VmModel {
    VmModel {
        mem: zero_image(),
        regs: Seq::new(REGISTER_CAPACITY as nat, |i: int| 0i32),
        consts: Seq::<Seq<char>>::empty(),
        funcs: Seq::<FnBinding>::empty(),
        pc: 0,
        out: Seq::<OutputView>::empty(),
        reports: Seq::<Report>::empty(),
    }
}

/// Copy `words` into `mem` word-for-word from offset 0, up to the
/// shorter of the two; the rest of `mem` stands unchanged.
pub open spec fn load_words(mem: Seq<i32>, words: Seq<i32>) -> Seq<i32>
    recommends
        mem.len() == MEMORY_CAPACITY,
{
    Seq::new(
        MEMORY_CAPACITY as nat,
        |i: int| if i < words.len() { words[i] } else { mem[i] },
    )
}

pub open spec fn reg_index_ok(r: i32) -> bool {
    0 <= r < REGISTER_CAPACITY
}

pub open spec fn const_index_ok(consts: Seq<Seq<char>>, ci: i32) -> bool {
    0 <= ci < consts.len()
}

/// Rust's truncating integer division (round toward zero), on
/// unbounded integers.
pub open spec fn truncated_div(a: int, d: int) -> int
    recommends
        d != 0,
{
    if a >= 0 && d > 0 {
        a / d
    } else if a < 0 && d < 0 {
        (-a) / (-d)
    } else if a < 0 {
        -((-a) / d)
    } else {
        -(a / (-d))
    }
}

/// Rust's truncating division of two `i32` values stays in `i32` range,
/// except for `i32::MIN / -1`.
pub proof fn lemma_in_range_truncated_div(a: int, d: int)
    requires
        i32::MIN <= a <= i32::MAX,
        i32::MIN <= d <= i32::MAX,
        d != 0,
        !(a == i32::MIN && d == -1),
    ensures
        i32::MIN <= truncated_div(a, d) <= i32::MAX,
{
    if a == 0 {
    } else if a > 0 && d > 0 {
        lemma_div_pos_is_pos(a, d);
        lemma_div_nonincreasing(a, d);
    } else if a < 0 && d < 0 {
        lemma_div_pos_is_pos(-a, -d);
        if d == -1 {
            assert(a > i32::MIN);
            lemma_div_nonincreasing(-a, -d);
        } else {
            lemma_div_is_ordered_by_denominator(-a, 2, -d);
            lemma_div_nonincreasing(-a, 2);
        }
    } else if a < 0 {
        lemma_div_pos_is_pos(-a, d);
        lemma_div_nonincreasing(-a, d);
    } else {
        lemma_div_pos_is_pos(a, -d);
        lemma_div_nonincreasing(a, -d);
    }
}

/// 32-bit division as the interpreter performs it: truncating, with the
/// one overflowing case wrapping back to `i32::MIN`.
pub open spec fn wrap_div(a: i32, b: i32) -> i32
    recommends
        b != 0,
{
    if a == i32::MIN && b == -1 {
        i32::MIN
    } else {
        truncated_div(a as int, b as int) as i32
    }
}

/// What dispatching the instruction at the counter does to one frame.
#[verifier::ext_equal]
pub ghost enum StepRes {
    /// The frame continues with the given state.
    Next(VmModel),
    /// A `function-call`: the caller's state after the call instruction,
    /// and the child frame to run before the caller resumes.
    Call(VmModel, VmModel),
    /// A fatal condition.
    Stuck(ExecutionFault),
}

/// The fetch-decode-execute step: the whole instruction at `s.pc`,
/// operands included. Arithmetic is 32-bit wrapping: a result out of
/// range wraps around, and `i32::MIN / -1` yields `i32::MIN`; of the
/// arithmetic conditions only division by zero is fatal.
pub open spec fn step_model(s: VmModel) -> StepRes
    recommends
        s.wf(),
        s.pc < MEMORY_CAPACITY,
{
    let op = s.mem[s.pc as int];
    if op == OP_NOP_A || op == OP_NOP_B {
        StepRes::Next(VmModel { pc: (s.pc + 1) as nat, ..s })
    } else if op == OP_PUSH {
        let n1 = fetch_next(s.mem, s.pc);
        let n2 = fetch_next(s.mem, n1.0);
        let v = n1.1;
        let r = n2.1;
        if !reg_index_ok(r) {
            StepRes::Stuck(ExecutionFault::RegisterOutOfRange)
        } else {
            StepRes::Next(VmModel { regs: s.regs.update(r as int, v), pc: (n2.0 + 1) as nat, ..s })
        }
    } else if op == OP_JUMP {
        let n1 = fetch_next(s.mem, s.pc);
        if n1.1 < 0 {
            StepRes::Stuck(ExecutionFault::MemoryOverrun)
        } else {
            StepRes::Next(VmModel { pc: n1.1 as nat, ..s })
        }
    } else if op == OP_JUMP_IF_EQUAL {
        let n1 = fetch_next(s.mem, s.pc);
        let n2 = fetch_next(s.mem, n1.0);
        let n3 = fetch_next(s.mem, n2.0);
        let target = n1.1;
        let r = n2.1;
        let v = n3.1;
        if !reg_index_ok(r) {
            StepRes::Stuck(ExecutionFault::RegisterOutOfRange)
        } else if s.regs[r as int] == v {
            if target < 0 {
                StepRes::Stuck(ExecutionFault::MemoryOverrun)
            } else {
                StepRes::Next(VmModel { pc: target as nat, ..s })
            }
        } else {
            StepRes::Next(VmModel { pc: (n3.0 + 1) as nat, ..s })
        }
    } else if op == OP_ADD || op == OP_SUB || op == OP_MUL || op == OP_DIV {
        let n1 = fetch_next(s.mem, s.pc);
        let n2 = fetch_next(s.mem, n1.0);
        let a = n1.1;
        let b = n2.1;
        if !reg_index_ok(a) || !reg_index_ok(b) {
            StepRes::Stuck(ExecutionFault::RegisterOutOfRange)
        } else {
            let va = s.regs[a as int];
            let vb = s.regs[b as int];
            if op == OP_DIV && vb == 0 {
                StepRes::Stuck(ExecutionFault::DivisionByZero)
            } else {
                let res = if op == OP_ADD {
                    va.wrapping_add(vb)
                } else if op == OP_SUB {
                    va.wrapping_sub(vb)
                } else if op == OP_MUL {
                    va.wrapping_mul(vb)
                } else {
                    wrap_div(va, vb)
                };
                StepRes::Next(
                    VmModel {
                        regs: s.regs.update(a as int, res).update(b as int, 0),
                        pc: (n2.0 + 1) as nat,
                        ..s
                    },
                )
            }
        }
    } else if op == OP_FUNCTION_DECLARE {
        let n1 = fetch_next(s.mem, s.pc);
        let ci = n1.1;
        if !const_index_ok(s.consts, ci) {
            StepRes::Stuck(ExecutionFault::ConstantOutOfRange)
        } else {
            let name = s.consts[ci as int];
            let sc = scan_block(s.mem, n1.0, OP_FUNCTION_DECLARE);
            let reps = if sc.terminated {
                s.reports
            } else {
                s.reports.push(Report::UnterminatedBlock)
            };
            StepRes::Next(
                VmModel {
                    funcs: table_insert(s.funcs, name, sc.payload),
                    pc: sc.pc,
                    reports: reps,
                    ..s
                },
            )
        }
    } else if op == OP_PRINT {
        let n1 = fetch_next(s.mem, s.pc);
        let n2 = fetch_next(s.mem, n1.0);
        let mode = n1.1;
        let r = n2.1;
        if mode == PRINT_MODE_REGISTER {
            if !reg_index_ok(r) {
                StepRes::Stuck(ExecutionFault::RegisterOutOfRange)
            } else {
                StepRes::Next(
                    VmModel {
                        out: s.out.push(OutputView::Number(s.regs[r as int])),
                        pc: (n2.0 + 1) as nat,
                        ..s
                    },
                )
            }
        } else if mode == PRINT_MODE_CONSTANT {
            if !const_index_ok(s.consts, r) {
                StepRes::Stuck(ExecutionFault::ConstantOutOfRange)
            } else {
                StepRes::Next(
                    VmModel {
                        out: s.out.push(OutputView::Text(s.consts[r as int])),
                        pc: (n2.0 + 1) as nat,
                        ..s
                    },
                )
            }
        } else {
            StepRes::Next(VmModel { pc: (n2.0 + 1) as nat, ..s })
        }
    } else if op == OP_FUNCTION_CALL {
        let n1 = fetch_next(s.mem, s.pc);
        let ci = n1.1;
        if !const_index_ok(s.consts, ci) {
            // no pool entry, hence no name, hence no bound function:
            // the call target is unbound either way
            StepRes::Stuck(ExecutionFault::UnboundFunction)
        } else {
            match table_lookup(s.funcs, s.consts[ci as int]) {
                None => StepRes::Stuck(ExecutionFault::UnboundFunction),
                Some(body) => {
                    let caller = VmModel { pc: (n1.0 + 1) as nat, ..s };
                    let child = VmModel {
                        mem: load_words(zero_image(), body),
                        regs: s.regs,
                        consts: s.consts,
                        funcs: s.funcs,
                        pc: 0,
                        out: s.out,
                        reports: s.reports,
                    };
                    StepRes::Call(caller, child)
                },
            }
        }
    } else if op == OP_CONSTANT_LITERAL {
        let sc = scan_block(s.mem, s.pc, OP_CONSTANT_LITERAL);
        let reps = if sc.terminated {
            s.reports
        } else {
            s.reports.push(Report::UnterminatedBlock)
        };
        StepRes::Next(
            VmModel {
                consts: s.consts.push(decode_payload(sc.payload)),
                pc: sc.pc,
                reports: reps,
                ..s
            },
        )
    } else {
        StepRes::Next(
            VmModel { reports: s.reports.push(Report::UnknownOpcode(op)), pc: (s.pc + 1) as nat, ..s },
        )
    }
}

} // verus!
