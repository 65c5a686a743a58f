use vstd::prelude::*;

verus! {

/// A fatal condition: execution stops at once and unwinds to the caller
/// of `run`. These correspond to resource violations that the instruction
/// stream can provoke but that a well-formed program never does.
#[derive(Clone, Copy, Debug, PartialEq, Eq, Structural)]
pub enum ExecutionFault {
    /// A register index operand lies outside the register file.
    RegisterOutOfRange,
    /// A constant-pool index operand of `function-declare` or of
    /// `print` in constant mode names no pool entry. This kind is an
    /// addition beyond the four classic fatal conditions, for index
    /// violations those two instructions can provoke; a `function-call`
    /// with a bad pool index is `UnboundFunction` instead, since its
    /// target cannot be bound.
    ConstantOutOfRange,
    /// A `function-call` whose target is not bound to a body: its
    /// constant index names no pool entry, or the named constant has
    /// no function-table binding.
    UnboundFunction,
    /// A `div` found its divisor register holding zero.
    DivisionByZero,
    /// A jump target cannot be represented as a memory address.
    MemoryOverrun,
}

/// A reportable but non-fatal condition: execution continues, and the
/// condition is recorded in order of occurrence.
#[derive(Clone, Copy, Debug, PartialEq, Eq, Structural)]
pub enum Report {
    /// A word was dispatched as an opcode but names no operation.
    UnknownOpcode(i32),
    /// A constant or function block reached the end of memory before its
    /// closing delimiter; the partial payload was still committed.
    UnterminatedBlock,
}

/// What a bounded `run` ended with.
#[derive(Clone, Copy, Debug, PartialEq, Eq, Structural)]
pub enum RunOutcome {
    /// The program counter left memory bounds: normal termination.
    Completed,
    /// A fatal condition stopped execution.
    Faulted(ExecutionFault),
    /// The step budget ran out before the program ended.
    OutOfFuel,
}

/// One item of program output, as the `print` opcode produced it:
/// either a register value or a constant-pool string.
#[derive(Debug)]
pub enum OutputItem {
    Number(i32),
    Text(String),
}

/// The mathematical value of an `OutputItem`.
pub enum OutputView {
    Number(i32),
    Text(Seq<char>),
}

impl View for OutputItem {
    type V = OutputView;

    open spec fn view(&self) -> OutputView {
        match self {
            OutputItem::Number(n) => OutputView::Number(*n),
            OutputItem::Text(s) => OutputView::Text(s@),
        }
    }
}

} // verus!
