use vstd::prelude::*;

use crate::fault::ExecutionFault;
use crate::fault::OutputItem;
use crate::fault::Report;
use crate::model::FnBinding;
use crate::model::VmModel;
use crate::model::decode_payload;
use crate::model::fetch_next;
use crate::model::initial_model;
use crate::model::load_words;
use crate::model::scan_block;
use crate::model::step_model;
use crate::model::StepRes;
use crate::model::zero_image;
use crate::model::OP_NOP_A;
use crate::model::OP_NOP_B;
use crate::model::OP_PUSH;
use crate::model::OP_JUMP;
use crate::model::OP_JUMP_IF_EQUAL;
use crate::model::OP_ADD;
use crate::model::OP_SUB;
use crate::model::OP_MUL;
use crate::model::OP_DIV;
use crate::model::OP_FUNCTION_DECLARE;
use crate::model::OP_PRINT;
use crate::model::OP_FUNCTION_CALL;
use crate::model::OP_CONSTANT_LITERAL;
use crate::model::PRINT_MODE_REGISTER;
use crate::model::PRINT_MODE_CONSTANT;
use crate::fault::OutputView;
use crate::fault::RunOutcome;
use crate::machine::Mach;
use crate::machine::init_mach;
use crate::machine::mach_iter;
use crate::machine::salvage;
use crate::machine::lemma_iter_snoc;
use crate::machine::lemma_iter_add;
use crate::machine::lemma_terminal_absorbs;
use crate::model::table_insert;
use crate::model::lemma_table_insert_match;
use crate::model::lemma_table_insert_append;
use crate::model::table_lookup;
use crate::model::truncated_div;
use crate::model::lemma_in_range_truncated_div;
use crate::model::wrap_div;
use crate::model::MEMORY_CAPACITY;
use crate::model::REGISTER_CAPACITY;

verus! {

/// One entry of the function table.
pub struct FnEntry {
    pub name: String,
    pub body: Vec<i32>,
}

impl FnEntry {
    pub open spec fn binding(&self) -> FnBinding {
        FnBinding { name: self.name@, body: self.body@ }
    }
}

/// The interpreter core: memory image, register file, constant pool,
/// function table and program counter, with the output and the
/// non-fatal reports the run so far has produced.
pub struct VM {
    memory: Vec<i32>,
    registers: Vec<i32>,
    constants: Vec<String>,
    functions: Vec<FnEntry>,
    pc: usize,
    output: Vec<OutputItem>,
    reports: Vec<Report>,
}

impl View for VM {
    type V = VmModel;

    closed spec fn view(&self) -> VmModel {
        VmModel {
            mem: self.memory@,
            regs: self.registers@,
            consts: self.constants.deep_view(),
            funcs: self.functions@.map_values(|e: FnEntry| e.binding()),
            pc: self.pc as nat,
            out: self.output@.map_values(|o: OutputItem| o@),
            reports: self.reports@,
        }
    }
}

impl VM {
    pub open spec fn wf(&self) -> bool {
        self@.wf()
    }

    /// A fresh instance: memory and registers zero-filled, constant
    /// pool and function table empty, counter at 0, nothing output.
    pub fn new() -> (vm: VM)
        ensures
            vm.wf(),
            vm@ == initial_model(),
    {
        let mut memory: Vec<i32> = Vec::new();
        while memory.len() < MEMORY_CAPACITY
            invariant
                memory@.len() <= MEMORY_CAPACITY,
                forall|j: int| 0 <= j < memory@.len() ==> memory@[j] == 0i32,
            decreases MEMORY_CAPACITY - memory.len(),
        {
            memory.push(0);
        }
        let mut registers: Vec<i32> = Vec::new();
        while registers.len() < REGISTER_CAPACITY
            invariant
                registers@.len() <= REGISTER_CAPACITY,
                forall|j: int| 0 <= j < registers@.len() ==> registers@[j] == 0i32,
            decreases REGISTER_CAPACITY - registers.len(),
        {
            registers.push(0);
        }
        let vm = VM {
            memory,
            registers,
            constants: Vec::new(),
            functions: Vec::new(),
            pc: 0,
            output: Vec::new(),
            reports: Vec::new(),
        };
        proof {
            assert(vm@ =~~= initial_model());
        }
        vm
    }

    /// Copy a program image into memory from offset 0, truncating
    /// silently at memory capacity; nothing else changes.
    pub fn load(&mut self, program: &[i32])
        requires
            old(self).wf(),
        ensures
            final(self).wf(),
            final(self)@ == (VmModel { mem: load_words(old(self)@.mem, program@), ..old(self)@ }),
    {
        let ghost pre: VmModel = self@;
        let n: usize = if program.len() < MEMORY_CAPACITY {
            program.len()
        } else {
            MEMORY_CAPACITY
        };
        let mut i: usize = 0;
        while i < n
            invariant
                self@.regs == pre.regs,
                self@.consts == pre.consts,
                self@.funcs == pre.funcs,
                self@.pc == pre.pc,
                self@.out == pre.out,
                self@.reports == pre.reports,
                self@.mem.len() == MEMORY_CAPACITY,
                pre.mem.len() == MEMORY_CAPACITY,
                n <= program@.len(),
                n <= MEMORY_CAPACITY,
                n == if program@.len() < MEMORY_CAPACITY {
                    program@.len() as int
                } else {
                    MEMORY_CAPACITY as int
                },
                i <= n,
                forall|j: int| 0 <= j < i ==> self@.mem[j] == program@[j],
                forall|j: int| i <= j < MEMORY_CAPACITY ==> self@.mem[j] == pre.mem[j],
            decreases n - i,
        {
            self.memory[i] = program[i];
            i = i + 1;
        }
        proof {
            assert(self@.mem =~= load_words(pre.mem, program@));
            assert(self@ =~~= (VmModel { mem: load_words(pre.mem, program@), ..pre }));
        }
    }

    /// Append one string to the constant pool; nothing else changes.
    pub fn new_constant(&mut self, name: &str)
        requires
            old(self).wf(),
        ensures
            final(self).wf(),
            final(self)@ == (VmModel { consts: old(self)@.consts.push(name@), ..old(self)@ }),
    {
        let ghost pre: VmModel = self@;
        self.constants.push(name.to_owned());
        proof {
            assert(self@.consts =~= pre.consts.push(name@));
            assert(self@ =~~= (VmModel { consts: pre.consts.push(name@), ..pre }));
        }
    }

    /// The current program counter.
    pub fn pc(&self) -> (r: usize)
        ensures
            r == self@.pc,
    {
        self.pc
    }

    /// The value of one register.
    pub fn register(&self, i: usize) -> (r: i32)
        requires
            self.wf(),
            i < REGISTER_CAPACITY,
        ensures
            r == self@.regs[i as int],
    {
        self.registers[i]
    }

    /// How many constants the pool holds.
    pub fn constant_count(&self) -> (r: usize)
        ensures
            r == self@.consts.len(),
    {
        self.constants.len()
    }

    /// The constant at one pool position.
    pub fn constant(&self, i: usize) -> (r: &String)
        requires
            i < self@.consts.len(),
        ensures
            r@ == self@.consts[i as int],
    {
        &self.constants[i]
    }

    /// Everything the program printed so far, in order.
    pub fn output(&self) -> (r: &Vec<OutputItem>)
        ensures
            r@.len() == self@.out.len(),
            forall|i: int| 0 <= i < r@.len() ==> r@[i]@ == self@.out[i],
    {
        &self.output
    }

    /// The non-fatal conditions reported so far, in order.
    pub fn reports(&self) -> (r: &Vec<Report>)
        ensures
            r@ == self@.reports,
    {
        &self.reports
    }

    /// A read-only diagnostic: the registers from index 0 up to
    /// `reg_limit` and the memory words from 0 up to `mem_limit`, each
    /// cut off at its capacity.
    pub fn dump(&self, mem_limit: usize, reg_limit: usize) -> (r: (Vec<i32>, Vec<i32>))
        requires
            self.wf(),
        ensures
            r.0@ == self@.regs.take(
                if reg_limit < REGISTER_CAPACITY { reg_limit as int } else { REGISTER_CAPACITY as int },
            ),
            r.1@ == self@.mem.take(
                if mem_limit < MEMORY_CAPACITY { mem_limit as int } else { MEMORY_CAPACITY as int },
            ),
    {
        let rn: usize = if reg_limit < REGISTER_CAPACITY {
            reg_limit
        } else {
            REGISTER_CAPACITY
        };
        let mut regs: Vec<i32> = Vec::new();
        let mut i: usize = 0;
        while i < rn
            invariant
                self.wf(),
                rn <= REGISTER_CAPACITY,
                i <= rn,
                regs@ == self@.regs.take(i as int),
            decreases rn - i,
        {
            regs.push(self.registers[i]);
            i = i + 1;
            proof {
                assert(regs@ =~= self@.regs.take(i as int));
            }
        }
        let mn: usize = if mem_limit < MEMORY_CAPACITY {
            mem_limit
        } else {
            MEMORY_CAPACITY
        };
        let mut mem: Vec<i32> = Vec::new();
        let mut j: usize = 0;
        while j < mn
            invariant
                self.wf(),
                mn <= MEMORY_CAPACITY,
                j <= mn,
                mem@ == self@.mem.take(j as int),
            decreases mn - j,
        {
            mem.push(self.memory[j]);
            j = j + 1;
            proof {
                assert(mem@ =~= self@.mem.take(j as int));
            }
        }
        (regs, mem)
    }

    /// Advance the counter by one word, unconditionally.
    fn step(&mut self)
        requires
            old(self)@.pc < MEMORY_CAPACITY,
        ensures
            final(self)@ == (VmModel { pc: (old(self)@.pc + 1) as nat, ..old(self)@ }),
    {
        self.pc = self.pc + 1;
    }

    /// Read the next operand word, advancing the counter — except at
    /// the last valid offset, where the counter stays and 0 comes back.
    fn next(&mut self) -> (r: i32)
        requires
            old(self).wf(),
            old(self)@.pc < MEMORY_CAPACITY,
        ensures
            final(self).wf(),
            ({
                let f = fetch_next(old(self)@.mem, old(self)@.pc);
                final(self)@ == (VmModel { pc: f.0, ..old(self)@ }) && r == f.1 && f.0
                    < MEMORY_CAPACITY
            }),
    {
        if self.pc < MEMORY_CAPACITY - 1 {
            self.pc = self.pc + 1;
            self.memory[self.pc]
        } else {
            0
        }
    }

    /// Write one register.
    fn setr(&mut self, register: usize, value: i32)
        requires
            old(self).wf(),
            register < REGISTER_CAPACITY,
        ensures
            final(self).wf(),
            final(self)@ == (VmModel {
                regs: old(self)@.regs.update(register as int, value),
                ..old(self)@
            }),
    {
        self.registers[register] = value;
    }

    /// Consume words until `delim` reappears (or memory ends), exactly
    /// as `scan_block` describes; only the counter changes.
    fn scan_words(&mut self, delim: i32) -> (r: (Vec<i32>, bool))
        requires
            old(self).wf(),
            old(self)@.pc < MEMORY_CAPACITY,
        ensures
            final(self).wf(),
            ({
                let sc = scan_block(old(self)@.mem, old(self)@.pc, delim);
                final(self)@ == (VmModel { pc: sc.pc, ..old(self)@ }) && r.0@ == sc.payload
                    && r.1 == sc.terminated
            }),
    {
        let ghost pre: VmModel = self@;
        let mut payload: Vec<i32> = Vec::new();
        proof {
            assert(scan_block(pre.mem, pre.pc, delim).payload =~= payload@ + scan_block(
                pre.mem,
                pre.pc,
                delim,
            ).payload);
        }
        loop
            invariant
                pre == old(self)@,
                self.wf(),
                self@.pc < MEMORY_CAPACITY,
                self@.mem == pre.mem,
                self@.regs == pre.regs,
                self@.consts == pre.consts,
                self@.funcs == pre.funcs,
                self@.out == pre.out,
                self@.reports == pre.reports,
                scan_block(pre.mem, pre.pc, delim).payload == payload@ + scan_block(
                    pre.mem,
                    self@.pc,
                    delim,
                ).payload,
                scan_block(pre.mem, pre.pc, delim).pc == scan_block(
                    pre.mem,
                    self@.pc,
                    delim,
                ).pc,
                scan_block(pre.mem, pre.pc, delim).terminated == scan_block(
                    pre.mem,
                    self@.pc,
                    delim,
                ).terminated,
            decreases MEMORY_CAPACITY - self.pc,
        {
            if self.pc >= MEMORY_CAPACITY - 1 {
                self.pc = MEMORY_CAPACITY;
                proof {
                    assert(scan_block(pre.mem, pre.pc, delim).payload =~= payload@);
                    assert(self@ =~~= (VmModel {
                        pc: scan_block(pre.mem, pre.pc, delim).pc,
                        ..pre
                    }));
                }
                return (payload, false);
            }
            let ghost cur: nat = self@.pc;
            let w = self.next();
            if w == delim {
                self.step();
                proof {
                    assert(scan_block(pre.mem, pre.pc, delim).payload =~= payload@);
                    assert(self@ =~~= (VmModel {
                        pc: scan_block(pre.mem, pre.pc, delim).pc,
                        ..pre
                    }));
                }
                return (payload, true);
            }
            payload.push(w);
            proof {
                assert(scan_block(pre.mem, cur, delim).payload =~= seq![w] + scan_block(
                    pre.mem,
                    self@.pc,
                    delim,
                ).payload);
                assert(payload@ + scan_block(pre.mem, self@.pc, delim).payload
                    =~= scan_block(pre.mem, pre.pc, delim).payload);
            }
        }
    }

    /// Bind a name to a body in the function table, overwriting the
    /// binding that already holds the name, if any.
    fn insert_function(&mut self, name: String, body: Vec<i32>)
        requires
            old(self).wf(),
        ensures
            final(self).wf(),
            final(self)@ == (VmModel {
                funcs: table_insert(old(self)@.funcs, name@, body@),
                ..old(self)@
            }),
    {
        let ghost pre: VmModel = self@;
        let ghost nm: Seq<char> = name@;
        let ghost bd: Seq<i32> = body@;
        let mut i: usize = 0;
        while i < self.functions.len()
            invariant
                pre == old(self)@,
                nm == name@,
                bd == body@,
                self.wf(),
                self@ == pre,
                i <= self@.funcs.len(),
                self@.funcs.len() == self.functions@.len(),
                forall|k: int| 0 <= k < i ==> pre.funcs[k].name != nm,
            decreases self.functions@.len() - i,
        {
            proof {
                assert(pre.funcs[i as int] == self.functions@[i as int].binding());
            }
            if self.functions[i].name == name {
                proof {
                    assert(self.functions@[i as int].name@ == nm);
                    assert(pre.funcs[i as int].name == nm);
                    lemma_table_insert_match(pre.funcs, nm, bd, i as int);
                }
                self.functions[i] = FnEntry { name, body };
                proof {
                    assert(self@.funcs =~= pre.funcs.update(
                        i as int,
                        FnBinding { name: nm, body: bd },
                    ));
                    assert(self@ =~~= (VmModel { funcs: table_insert(pre.funcs, nm, bd), ..pre }));
                }
                return ;
            }
            i = i + 1;
        }
        proof {
            lemma_table_insert_append(pre.funcs, nm, bd);
        }
        self.functions.push(FnEntry { name, body });
        proof {
            assert(self@.funcs =~= pre.funcs.push(FnBinding { name: nm, body: bd }));
            assert(self@ =~~= (VmModel { funcs: table_insert(pre.funcs, nm, bd), ..pre }));
        }
    }

    /// Dispatch the one whole instruction at the counter, operands
    /// included, exactly as `step_model` describes: `Ok(None)` to
    /// continue in this frame, `Ok(Some(child))` for a `function-call`
    /// (the child frame runs to completion before this frame resumes),
    /// `Err` for a fatal condition, which leaves the state untouched.
    pub fn exec_step(&mut self) -> (r: Result<Option<VM>, ExecutionFault>)
        requires
            old(self).wf(),
            old(self)@.pc < MEMORY_CAPACITY,
        ensures
            final(self).wf(),
            (match r {
                Ok(opt) => match opt {
                    None => step_model(old(self)@) == StepRes::Next(final(self)@),
                    Some(child) => child.wf() && step_model(old(self)@) == (StepRes::Call(
                        final(self)@,
                        child@,
                    )),
                },
                Err(f) => step_model(old(self)@) == StepRes::Stuck(f) && final(self)@ == old(
                    self,
                )@,
            }),
    {
        let ghost pre: VmModel = self@;
        let entry_pc: usize = self.pc;
        let op = self.memory[self.pc];
        if op == OP_NOP_A || op == OP_NOP_B {
            self.step();
            proof {
                assert(step_model(pre) =~~= StepRes::Next(self@));
            }
            Ok(None)
        } else if op == OP_PUSH {
            let value = self.next();
            let rw = self.next();
            if rw < 0 || rw >= 1000 {
                self.pc = entry_pc;
                proof {
                    assert(self@ =~~= pre);
                }
                return Err(ExecutionFault::RegisterOutOfRange);
            }
            self.setr(rw as usize, value);
            self.step();
            proof {
                assert(step_model(pre) =~~= StepRes::Next(self@));
            }
            Ok(None)
        } else if op == OP_JUMP {
            let target = self.next();
            if target < 0 {
                self.pc = entry_pc;
                proof {
                    assert(self@ =~~= pre);
                }
                return Err(ExecutionFault::MemoryOverrun);
            }
            self.pc = target as usize;
            proof {
                assert(step_model(pre) =~~= StepRes::Next(self@));
            }
            Ok(None)
        } else if op == OP_JUMP_IF_EQUAL {
            let target = self.next();
            let rw = self.next();
            let value = self.next();
            if rw < 0 || rw >= 1000 {
                self.pc = entry_pc;
                proof {
                    assert(self@ =~~= pre);
                }
                return Err(ExecutionFault::RegisterOutOfRange);
            }
            if self.registers[rw as usize] == value {
                if target < 0 {
                    self.pc = entry_pc;
                    proof {
                        assert(self@ =~~= pre);
                    }
                    return Err(ExecutionFault::MemoryOverrun);
                }
                self.pc = target as usize;
            } else {
                self.step();
            }
            proof {
                assert(step_model(pre) =~~= StepRes::Next(self@));
            }
            Ok(None)
        } else if op == OP_ADD || op == OP_SUB || op == OP_MUL || op == OP_DIV {
            let aw = self.next();
            let bw = self.next();
            if aw < 0 || aw >= 1000 || bw < 0 || bw >= 1000 {
                self.pc = entry_pc;
                proof {
                    assert(self@ =~~= pre);
                }
                return Err(ExecutionFault::RegisterOutOfRange);
            }
            let va = self.registers[aw as usize];
            let vb = self.registers[bw as usize];
            if op == OP_DIV && vb == 0 {
                self.pc = entry_pc;
                proof {
                    assert(self@ =~~= pre);
                }
                return Err(ExecutionFault::DivisionByZero);
            }
            let res = if op == OP_ADD {
                va.wrapping_add(vb)
            } else if op == OP_SUB {
                va.wrapping_sub(vb)
            } else if op == OP_MUL {
                va.wrapping_mul(vb)
            } else {
                div_wrapped(va, vb)
            };
            self.setr(aw as usize, res);
            self.setr(bw as usize, 0);
            self.step();
            proof {
                assert(step_model(pre) =~~= StepRes::Next(self@));
            }
            Ok(None)
        } else if op == OP_FUNCTION_DECLARE {
            let ci = self.next();
            if ci < 0 {
                self.pc = entry_pc;
                proof {
                    assert(self@ =~~= pre);
                }
                return Err(ExecutionFault::ConstantOutOfRange);
            }
            let ciu = ci as usize;
            if ciu >= self.constants.len() {
                self.pc = entry_pc;
                proof {
                    assert(self@ =~~= pre);
                }
                return Err(ExecutionFault::ConstantOutOfRange);
            }
            proof {
                assert(pre.consts[ci as int] == self.constants@[ci as int]@);
            }
            let name = self.constants[ciu].clone();
            let (body, terminated) = self.scan_words(OP_FUNCTION_DECLARE);
            self.insert_function(name, body);
            if !terminated {
                self.reports.push(Report::UnterminatedBlock);
            }
            proof {
                assert(step_model(pre) =~~= StepRes::Next(self@));
            }
            Ok(None)
        } else if op == OP_PRINT {
            let mode = self.next();
            let rw = self.next();
            if mode == PRINT_MODE_REGISTER {
                if rw < 0 || rw >= 1000 {
                    self.pc = entry_pc;
                    proof {
                        assert(self@ =~~= pre);
                    }
                    return Err(ExecutionFault::RegisterOutOfRange);
                }
                let v = self.registers[rw as usize];
                self.output.push(OutputItem::Number(v));
                self.step();
                proof {
                    assert(self@.out =~= pre.out.push(OutputView::Number(pre.regs[rw as int])));
                    assert(step_model(pre) =~~= StepRes::Next(self@));
                }
                Ok(None)
            } else if mode == PRINT_MODE_CONSTANT {
                if rw < 0 {
                    self.pc = entry_pc;
                    proof {
                        assert(self@ =~~= pre);
                    }
                    return Err(ExecutionFault::ConstantOutOfRange);
                }
                let ciu = rw as usize;
                if ciu >= self.constants.len() {
                    self.pc = entry_pc;
                    proof {
                        assert(self@ =~~= pre);
                    }
                    return Err(ExecutionFault::ConstantOutOfRange);
                }
                proof {
                    assert(pre.consts[rw as int] == self.constants@[rw as int]@);
                }
                let text = self.constants[ciu].clone();
                self.output.push(OutputItem::Text(text));
                self.step();
                proof {
                    assert(self@.out =~= pre.out.push(OutputView::Text(pre.consts[rw as int])));
                    assert(step_model(pre) =~~= StepRes::Next(self@));
                }
                Ok(None)
            } else {
                self.step();
                proof {
                    assert(step_model(pre) =~~= StepRes::Next(self@));
                }
                Ok(None)
            }
        } else if op == OP_FUNCTION_CALL {
            let ci = self.next();
            if ci < 0 {
                self.pc = entry_pc;
                proof {
                    assert(self@ =~~= pre);
                }
                return Err(ExecutionFault::UnboundFunction);
            }
            let ciu = ci as usize;
            if ciu >= self.constants.len() {
                self.pc = entry_pc;
                proof {
                    assert(self@ =~~= pre);
                }
                return Err(ExecutionFault::UnboundFunction);
            }
            proof {
                assert(pre.consts[ci as int] == self.constants@[ci as int]@);
            }
            match self.find_function(&self.constants[ciu]) {
                None => {
                    self.pc = entry_pc;
                    proof {
                        assert(self@ =~~= pre);
                    }
                    Err(ExecutionFault::UnboundFunction)
                },
                Some(fi) => {
                    proof {
                        assert(self@.funcs[fi as int] == self.functions@[fi as int].binding());
                    }
                    let body = clone_words(&self.functions[fi].body);
                    self.step();
                    let mut child = VM::new();
                    child.load(body.as_slice());
                    child.registers = clone_words(&self.registers);
                    child.constants = clone_strings(&self.constants);
                    child.functions = clone_table(&self.functions);
                    child.output = clone_output(&self.output);
                    child.reports = clone_reports(&self.reports);
                    proof {
                        assert(child.constants.deep_view() =~= pre.consts);
                        assert(child@ =~~= (VmModel {
                            mem: load_words(zero_image(), body@),
                            regs: pre.regs,
                            consts: pre.consts,
                            funcs: pre.funcs,
                            pc: 0,
                            out: pre.out,
                            reports: pre.reports,
                        }));
                        assert(step_model(pre) =~~= StepRes::Call(self@, child@));
                    }
                    Ok(Some(child))
                },
            }
        } else if op == OP_CONSTANT_LITERAL {
            let (words, terminated) = self.scan_words(OP_CONSTANT_LITERAL);
            let text = decode_words(&words);
            self.constants.push(text);
            if !terminated {
                self.reports.push(Report::UnterminatedBlock);
            }
            proof {
                assert(self@.consts =~= pre.consts.push(
                    decode_payload(scan_block(pre.mem, pre.pc, OP_CONSTANT_LITERAL).payload),
                ));
                assert(step_model(pre) =~~= StepRes::Next(self@));
            }
            Ok(None)
        } else {
            self.reports.push(Report::UnknownOpcode(op));
            self.step();
            proof {
                assert(step_model(pre) =~~= StepRes::Next(self@));
            }
            Ok(None)
        }
    }

    /// Take over the output channel (output and reports) of `donor`:
    /// the two channels are exchanged.
    fn adopt_channel(&mut self, donor: &mut VM)
        ensures
            final(self)@ == (VmModel {
                out: old(donor)@.out,
                reports: old(donor)@.reports,
                ..old(self)@
            }),
            final(donor)@ == (VmModel {
                out: old(self)@.out,
                reports: old(self)@.reports,
                ..old(donor)@
            }),
    {
        let ghost pre_self: VmModel = self@;
        let ghost pre_donor: VmModel = donor@;
        core::mem::swap(&mut self.output, &mut donor.output);
        core::mem::swap(&mut self.reports, &mut donor.reports);
        proof {
            assert(self@ =~~= (VmModel {
                out: pre_donor.out,
                reports: pre_donor.reports,
                ..pre_self
            }));
            assert(donor@ =~~= (VmModel {
                out: pre_self.out,
                reports: pre_self.reports,
                ..pre_donor
            }));
        }
    }

    /// Drive the fetch-decode-execute machine for at most `fuel`
    /// machine steps (one step is one dispatched instruction or one
    /// frame return). Execution ends when the outermost frame's
    /// counter leaves memory bounds, when a fatal condition strikes,
    /// or when the budget runs out; the outcome and the final state
    /// are exactly what `mach_iter` of the machine model gives.
    pub fn run(&mut self, fuel: u64) -> (r: RunOutcome)
        requires
            old(self).wf(),
        ensures
            final(self).wf(),
            ({
                let m = mach_iter(init_mach(old(self)@), fuel as nat);
                match r {
                    RunOutcome::Completed => m == (Mach::Done { state: final(self)@ }),
                    RunOutcome::Faulted(f) => m == (Mach::Failed {
                        state: final(self)@,
                        fault: f,
                    }),
                    RunOutcome::OutOfFuel => m matches Mach::Running { frames } && final(self)@
                        == salvage(frames),
                }
            }),
    {
        let ghost init: Mach = init_mach(self@);
        proof {
            assert(Seq::<VM>::empty().map_values(|v: VM| v@).push(self@) =~= seq![self@]);
        }
        let mut callers: Vec<VM> = Vec::new();
        let mut left: u64 = fuel;
        loop
            invariant
                init == init_mach(old(self)@),
                left <= fuel,
                self.wf(),
                forall|i: int| 0 <= i < callers@.len() ==> (#[trigger] callers@[i]).wf(),
                mach_iter(init, (fuel - left) as nat) == (Mach::Running {
                    frames: callers@.map_values(|v: VM| v@).push(self@),
                }),
            decreases left,
        {
            let ghost steps: nat = (fuel - left) as nat;
            let ghost frames_now: Seq<VmModel> = callers@.map_values(|v: VM| v@).push(self@);
            if left == 0 {
                if callers.len() > 0 {
                    let ghost first: VmModel = callers@[0]@;
                    let mut bottom = callers.remove(0);
                    bottom.adopt_channel(self);
                    core::mem::swap(self, &mut bottom);
                    proof {
                        assert(frames_now[0] == first);
                    }
                }
                proof {
                    assert(self@ =~~= salvage(frames_now));
                }
                return RunOutcome::OutOfFuel;
            }
            if self.pc >= MEMORY_CAPACITY {
                let popped = callers.pop();
                match popped {
                    None => {
                        proof {
                            assert(frames_now.len() == 1);
                            assert(frames_now.last() == self@);
                            lemma_iter_snoc(init, steps);
                            assert(mach_iter(init, steps + 1) == (Mach::Done { state: self@ }));
                            lemma_iter_add(init, steps + 1, (fuel - steps - 1) as nat);
                            lemma_terminal_absorbs(
                                Mach::Done { state: self@ },
                                (fuel - steps - 1) as nat,
                            );
                        }
                        return RunOutcome::Completed;
                    },
                    Some(mut caller) => {
                        caller.adopt_channel(self);
                        core::mem::swap(self, &mut caller);
                        left = left - 1;
                        proof {
                            lemma_iter_snoc(init, steps);
                            assert(frames_now.drop_last().update(
                                frames_now.len() - 2,
                                self@,
                            ) =~= callers@.map_values(|v: VM| v@).push(self@));
                            assert(mach_iter(init, (fuel - left) as nat) =~~= (Mach::Running {
                                frames: callers@.map_values(|v: VM| v@).push(self@),
                            }));
                        }
                    },
                }
            } else {
                match self.exec_step() {
                    Ok(None) => {
                        left = left - 1;
                        proof {
                            lemma_iter_snoc(init, steps);
                            assert(frames_now.update(frames_now.len() - 1, self@)
                                =~= callers@.map_values(|v: VM| v@).push(self@));
                            assert(mach_iter(init, (fuel - left) as nat) =~~= (Mach::Running {
                                frames: callers@.map_values(|v: VM| v@).push(self@),
                            }));
                        }
                    },
                    Ok(Some(mut child)) => {
                        core::mem::swap(self, &mut child);
                        callers.push(child);
                        left = left - 1;
                        proof {
                            lemma_iter_snoc(init, steps);
                            assert(frames_now.update(frames_now.len() - 1, callers@.last()@).push(
                                self@,
                            ) =~= callers@.map_values(|v: VM| v@).push(self@));
                            assert(mach_iter(init, (fuel - left) as nat) =~~= (Mach::Running {
                                frames: callers@.map_values(|v: VM| v@).push(self@),
                            }));
                        }
                    },
                    Err(f) => {
                        if callers.len() > 0 {
                            let mut bottom = callers.remove(0);
                            bottom.adopt_channel(self);
                            core::mem::swap(self, &mut bottom);
                        }
                        proof {
                            lemma_iter_snoc(init, steps);
                            assert(self@ =~~= salvage(frames_now));
                            assert(mach_iter(init, steps + 1) == (Mach::Failed {
                                state: self@,
                                fault: f,
                            }));
                            lemma_iter_add(init, steps + 1, (fuel - steps - 1) as nat);
                            lemma_terminal_absorbs(
                                Mach::Failed { state: self@, fault: f },
                                (fuel - steps - 1) as nat,
                            );
                        }
                        return RunOutcome::Faulted(f);
                    },
                }
            }
        }
    }

    /// Where in the function table a name is bound, if anywhere.
    fn find_function(&self, name: &String) -> (r: Option<usize>)
        ensures
            (match r {
                Some(i) => i < self@.funcs.len() && table_lookup(self@.funcs, name@) == Some(
                    self@.funcs[i as int].body,
                ),
                None => table_lookup(self@.funcs, name@) is None,
            }),
    {
        let ghost fs: Seq<FnBinding> = self@.funcs;
        let ghost nm: Seq<char> = name@;
        let mut i: usize = 0;
        proof {
            assert(fs.skip(0) =~= fs);
        }
        while i < self.functions.len()
            invariant
                i <= self@.funcs.len(),
                fs == self@.funcs,
                nm == name@,
                self@.funcs.len() == self.functions@.len(),
                table_lookup(fs, nm) == table_lookup(fs.skip(i as int), nm),
            decreases self.functions@.len() - i,
        {
            if self.functions[i].name == *name {
                proof {
                    assert(fs.skip(i as int)[0] == fs[i as int]);
                }
                return Some(i);
            }
            proof {
                assert(fs.skip(i as int).drop_first() =~= fs.skip(i as int + 1));
            }
            i = i + 1;
        }
        None
    }
}

/// 32-bit division with the interpreter's semantics: truncating, and
/// the one overflowing case wraps back to `i32::MIN`.
fn div_wrapped(a: i32, b: i32) -> (r: i32)
    requires
        b != 0,
    ensures
        r == wrap_div(a, b),
{
    if a == i32::MIN && b == -1 {
        i32::MIN
    } else {
        proof {
            lemma_in_range_truncated_div(a as int, b as int);
        }
        match a.checked_div(b) {
            Some(q) => q,
            None => {
                proof {
                    assert(false);
                }
                0
            },
        }
    }
}

/// Relies on String::push: appends one character to the end of the string.
#[verifier::external_body]
fn push_char(s: &mut String, c: char)
    ensures
        final(s)@ == old(s)@.push(c),
{
    s.push(c);
}

/// An element-for-element copy of a word vector.
fn clone_words(v: &Vec<i32>) -> (r: Vec<i32>)
    ensures
        r@ == v@,
{
    let mut r: Vec<i32> = Vec::new();
    let mut i: usize = 0;
    while i < v.len()
        invariant
            i <= v@.len(),
            r@ == v@.take(i as int),
        decreases v@.len() - i,
    {
        r.push(v[i]);
        i = i + 1;
        proof {
            assert(r@ =~= v@.take(i as int));
        }
    }
    proof {
        assert(r@ =~= v@);
    }
    r
}

/// An element-for-element copy of the constant pool.
fn clone_strings(v: &Vec<String>) -> (r: Vec<String>)
    ensures
        r@ == v@,
{
    let mut r: Vec<String> = Vec::new();
    let mut i: usize = 0;
    while i < v.len()
        invariant
            i <= v@.len(),
            r@ == v@.take(i as int),
        decreases v@.len() - i,
    {
        r.push(v[i].clone());
        i = i + 1;
        proof {
            assert(r@ =~= v@.take(i as int));
        }
    }
    proof {
        assert(r@ =~= v@);
    }
    r
}

/// A copy of the function table that binds the same names to the same
/// bodies.
fn clone_table(v: &Vec<FnEntry>) -> (r: Vec<FnEntry>)
    ensures
        r@.map_values(|e: FnEntry| e.binding()) == v@.map_values(|e: FnEntry| e.binding()),
{
    let mut r: Vec<FnEntry> = Vec::new();
    let mut i: usize = 0;
    while i < v.len()
        invariant
            i <= v@.len(),
            r@.len() == i,
            forall|k: int| 0 <= k < i ==> #[trigger] r@[k].binding() == v@[k].binding(),
        decreases v@.len() - i,
    {
        let e = FnEntry { name: v[i].name.clone(), body: clone_words(&v[i].body) };
        r.push(e);
        i = i + 1;
    }
    proof {
        assert(r@.map_values(|e: FnEntry| e.binding()) =~= v@.map_values(
            |e: FnEntry| e.binding(),
        ));
    }
    r
}

/// A copy of the output collected so far, item for item.
fn clone_output(v: &Vec<OutputItem>) -> (r: Vec<OutputItem>)
    ensures
        r@.map_values(|o: OutputItem| o@) == v@.map_values(|o: OutputItem| o@),
{
    let mut r: Vec<OutputItem> = Vec::new();
    let mut i: usize = 0;
    while i < v.len()
        invariant
            i <= v@.len(),
            r@.len() == i,
            forall|k: int| 0 <= k < i ==> #[trigger] r@[k]@ == v@[k]@,
        decreases v@.len() - i,
    {
        let item = match &v[i] {
            OutputItem::Number(n) => OutputItem::Number(*n),
            OutputItem::Text(s) => OutputItem::Text(s.clone()),
        };
        r.push(item);
        i = i + 1;
    }
    proof {
        assert(r@.map_values(|o: OutputItem| o@) =~= v@.map_values(|o: OutputItem| o@));
    }
    r
}

/// A copy of the report list.
fn clone_reports(v: &Vec<Report>) -> (r: Vec<Report>)
    ensures
        r@ == v@,
{
    let mut r: Vec<Report> = Vec::new();
    let mut i: usize = 0;
    while i < v.len()
        invariant
            i <= v@.len(),
            r@ == v@.take(i as int),
        decreases v@.len() - i,
    {
        r.push(v[i]);
        i = i + 1;
        proof {
            assert(r@ =~= v@.take(i as int));
        }
    }
    proof {
        assert(r@ =~= v@);
    }
    r
}

/// Decode the words of a constant block into the string they spell,
/// one character per word.
fn decode_words(words: &Vec<i32>) -> (r: String)
    ensures
        r@ == decode_payload(words@),
{
    let mut s = String::new();
    let mut i: usize = 0;
    while i < words.len()
        invariant
            i <= words@.len(),
            s@ == decode_payload(words@.take(i as int)),
        decreases words@.len() - i,
    {
        let w = words[i];
        let c = (#[verifier::truncate] (w as u8)) as char;
        push_char(&mut s, c);
        i = i + 1;
        proof {
            assert(s@ =~= decode_payload(words@.take(i as int)));
        }
    }
    proof {
        assert(words@.take(words@.len() as int) =~= words@);
    }
    s
}

} // verus!
