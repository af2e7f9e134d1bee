//! The instruction set, the fault values, and well-formedness of a built
//! program (instruction sequence plus jump table).

use vstd::prelude::*;

verus! {

/// One tagged instruction. The unsigned payload of the arithmetic and move
/// instructions is a delta; the builder only ever emits a delta of 1, but the
/// shape admits larger deltas.
#[derive(Debug, Clone, Copy, PartialEq, Eq, Structural)]
pub enum BfIR {
    BfAdd(u8),
    BfSub(u8),
    BfNext(u8),
    BfPre(u8),
    BfJz,
    BfJnz,
    BfRead,
    BfWrite,
}

/// The two compile-time faults.
#[derive(Debug, Clone, Copy, PartialEq, Eq, Structural)]
pub enum CompileErrorType {
    /// A `[` was never closed.
    LeftBracketError,
    /// A `]` had no open `[` to match.
    RightBracketError,
}

/// The single run-time fault: a move would take the cursor off the tape.
#[derive(Debug, Clone, Copy, PartialEq, Eq, Structural)]
pub enum RuntimeErrorType {
    PointerOverFlowError,
}

/// Either phase's fault kind.
#[derive(Debug, Clone, Copy, PartialEq, Eq, Structural)]
pub enum BfErrorType {
    CompileError(CompileErrorType),
    RuntimeError(RuntimeErrorType),
}

/// A fault together with the 1-indexed (line, column) of the source character
/// it is reported at.
#[derive(Debug, Clone, Copy, PartialEq, Eq, Structural)]
pub struct BfError {
    pub line: u32,
    pub col: u32,
    pub error_type: BfErrorType,
}

/// True of the two loop-boundary instructions, the only ones the jump table
/// has entries for.
pub open spec fn is_jump(ir: BfIR) -> bool {
    ir is BfJz || ir is BfJnz
}

/// Well-formedness of a built program: the jump table's keys are exactly the
/// indices of loop-boundary instructions, every entry points at the partner
/// bracket of the opposite kind, entries are mutually consistent
/// (`table[table[k]] == k`), and each open bracket stands before its partner.
pub open spec fn wf_prog(code: Seq<(BfIR, u32, u32)>, table: Map<usize, usize>) -> bool {
    &&& forall|i: int|
        0 <= i < code.len() ==> (is_jump(#[trigger] code[i].0) <==> table.contains_key(i as usize))
    &&& forall|k: usize|
        #[trigger] table.contains_key(k) ==> {
            &&& k < code.len()
            &&& table[k] < code.len()
            &&& table.contains_key(table[k])
            &&& table[table[k]] == k
            &&& (code[k as int].0 is BfJz ==> code[table[k] as int].0 is BfJnz && k < table[k])
            &&& (code[k as int].0 is BfJnz ==> code[table[k] as int].0 is BfJz && table[k] < k)
        }
}

} // verus!
