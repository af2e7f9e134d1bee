//! The interpreter: a dispatch loop over a built program, executing against a
//! 512-cell byte tape whose cursor starts at the midpoint, with a line of
//! input consumed per read instruction and output buffered in memory.
//!
//! The semantics is given by the spec functions `step` (one instruction) and
//! `run_n` (up to `n` instructions). A `Machine` carries one run's state;
//! `Machine::step_once` performs exactly one semantic step, and
//! `Machine::run_steps` performs up to a given number of them. A source
//! program need not terminate, so an unbounded dispatch loop cannot be
//! verified to; a caller that wants the original run-to-completion behaviour
//! drives `step_once` in its own loop.

use vstd::prelude::*;

use crate::builder::build_spec;
use crate::builder::lemma_build_spec_wf;
use crate::ir::BfError;
use crate::ir::BfErrorType;
use crate::ir::BfIR;
use crate::ir::RuntimeErrorType;
use crate::ir::wf_prog;

use std::collections::HashMap;

verus! {

broadcast use vstd::std_specs::hash::group_hash_axioms;

/// The tape holds 512 cells.
pub const MEMORY_SIZE: usize = 512;

/// One run's whole state: program counter, cursor, tape contents, the output
/// so far, and the input lines not yet consumed.
pub ghost struct RunState {
    pub pc: int,
    pub cursor: int,
    pub tape: Seq<u8>,
    pub out: Seq<char>,
    pub inp: Seq<Seq<char>>,
}

/// The outcome of stepping: still running in a new state, normal completion
/// with the accumulated output, or a fault.
pub ghost enum StepResult {
    Next(RunState),
    Halt(Seq<char>),
    Fail(BfError),
}

/// The state a run starts in: program counter 0, cursor at the tape's
/// midpoint, all cells zero, no output, all input still pending.
pub open spec fn init_run_state(inp: Seq<Seq<char>>) -> RunState {
    RunState {
        pc: 0,
        cursor: MEMORY_SIZE as int / 2,
        tape: Seq::new(MEMORY_SIZE as nat, |i: int| 0u8),
        out: Seq::empty(),
        inp,
    }
}

/// The pointer-overflow fault at a given source position.
pub open spec fn ptr_fault(ln: u32, cl: u32) -> BfError {
    BfError {
        line: ln,
        col: cl,
        error_type: BfErrorType::RuntimeError(RuntimeErrorType::PointerOverFlowError),
    }
}

/// What one read instruction stores: the code of the first character of the
/// next input line, truncated to a byte, or 0 when that line is empty or no
/// input remains.
pub open spec fn read_cell(inp: Seq<Seq<char>>) -> u8 {
    if inp.len() == 0 {
        0u8
    } else if inp[0].len() == 0 {
        0u8
    } else {
        (inp[0][0] as u32) as u8
    }
}

/// One instruction's effect. Past the end of the sequence the run halts with
/// its output. Arithmetic wraps modulo 256; a move off either end of the tape
/// faults at the instruction's recorded position; a conditional jump on a zero
/// cell resumes just past its partner, an unconditional one back at its
/// partner; a read consumes one input line; a write appends the cell, decoded
/// as a character, to the output.
pub open spec fn step(code: Seq<(BfIR, u32, u32)>, table: Map<usize, usize>, st: RunState) -> StepResult {
    if !(0 <= st.pc < code.len()) {
        StepResult::Halt(st.out)
    } else {
        let ir = code[st.pc].0;
        let ln = code[st.pc].1;
        let cl = code[st.pc].2;
        match ir {
            BfIR::BfAdd(n) => StepResult::Next(
                RunState {
                    pc: st.pc + 1,
                    tape: st.tape.update(st.cursor, st.tape[st.cursor].wrapping_add(n)),
                    ..st
                },
            ),
            BfIR::BfSub(n) => StepResult::Next(
                RunState {
                    pc: st.pc + 1,
                    tape: st.tape.update(st.cursor, st.tape[st.cursor].wrapping_sub(n)),
                    ..st
                },
            ),
            BfIR::BfNext(n) => {
                if st.cursor + n >= MEMORY_SIZE {
                    StepResult::Fail(ptr_fault(ln, cl))
                } else {
                    StepResult::Next(RunState { pc: st.pc + 1, cursor: st.cursor + n, ..st })
                }
            },
            BfIR::BfPre(n) => {
                if st.cursor < n {
                    StepResult::Fail(ptr_fault(ln, cl))
                } else {
                    StepResult::Next(RunState { pc: st.pc + 1, cursor: st.cursor - n, ..st })
                }
            },
            BfIR::BfJz => {
                if st.tape[st.cursor] == 0 {
                    StepResult::Next(RunState { pc: table[st.pc as usize] + 1, ..st })
                } else {
                    StepResult::Next(RunState { pc: st.pc + 1, ..st })
                }
            },
            BfIR::BfJnz => StepResult::Next(RunState { pc: table[st.pc as usize] as int, ..st }),
            BfIR::BfRead => StepResult::Next(
                RunState {
                    pc: st.pc + 1,
                    tape: st.tape.update(st.cursor, read_cell(st.inp)),
                    inp: if st.inp.len() == 0 {
                        st.inp
                    } else {
                        st.inp.drop_first()
                    },
                    ..st
                },
            ),
            BfIR::BfWrite => StepResult::Next(
                RunState { pc: st.pc + 1, out: st.out.push(st.tape[st.cursor] as char), ..st },
            ),
        }
    }
}

/// Up to `n` steps from `st`: the state still running after `n` steps, or the
/// completion or fault reached within them (which no further step changes).
pub open spec fn run_n(
    code: Seq<(BfIR, u32, u32)>,
    table: Map<usize, usize>,
    st: RunState,
    n: nat,
) -> StepResult
    decreases n,
{
    if n == 0 {
        StepResult::Next(st)
    } else {
        match step(code, table, st) {
            StepResult::Next(st2) => run_n(code, table, st2, (n - 1) as nat),
            r => r,
        }
    }
}

/// Taking one more step after `n` steps applies `step` to the state reached,
/// and leaves a completion or fault already reached unchanged.
pub proof fn lemma_run_n_snoc(
    code: Seq<(BfIR, u32, u32)>,
    table: Map<usize, usize>,
    st: RunState,
    n: nat,
)
    ensures
        (match run_n(code, table, st, n) {
            StepResult::Next(st2) => run_n(code, table, st, n + 1) == step(code, table, st2),
            r => run_n(code, table, st, n + 1) == r,
        }),
    decreases n,
{
    reveal_with_fuel(run_n, 2);
    if n > 0 {
        match step(code, table, st) {
            StepResult::Next(st2) => {
                lemma_run_n_snoc(code, table, st2, (n - 1) as nat);
            },
            _ => {},
        }
    }
}

/// What stepping reported: the run is still going, it completed normally (the
/// whole output stands in the machine's `display`), or it faulted.
#[derive(Debug, Clone, Copy, PartialEq, Eq, Structural)]
pub enum RunStatus {
    Running,
    Done,
    Fault(BfError),
}

/// One run in progress: the immutable program and jump table, the tape and
/// cursor, the output so far, and the index of the next input line.
pub struct Machine {
    pub code: Vec<(BfIR, u32, u32)>,
    pub jmp_table: HashMap<usize, usize>,
    pub memory: Vec<u8>,
    pub data_p: usize,
    pub code_p: usize,
    pub inputs: Vec<String>,
    pub in_p: usize,
    pub display: Vec<char>,
}

impl Machine {
    /// The machine is over a well-formed program and its fields are in range.
    pub open spec fn wf(&self) -> bool {
        &&& wf_prog(self.code@, self.jmp_table@)
        &&& self.memory@.len() == MEMORY_SIZE
        &&& self.data_p < MEMORY_SIZE
        &&& self.code_p <= self.code@.len()
        &&& self.in_p <= self.inputs@.len()
    }

    /// The semantic state this machine is in.
    pub open spec fn state(&self) -> RunState {
        RunState {
            pc: self.code_p as int,
            cursor: self.data_p as int,
            tape: self.memory@,
            out: self.display@,
            inp: self.inputs.deep_view().skip(self.in_p as int),
        }
    }

    /// A fresh machine over a well-formed program, in the initial state, with
    /// all of `inputs` pending.
    pub fn new(
        code: Vec<(BfIR, u32, u32)>,
        jmp_table: HashMap<usize, usize>,
        inputs: Vec<String>,
    ) -> (m: Machine)
        requires
            wf_prog(code@, jmp_table@),
        ensures
            m.wf(),
            m.code@ == code@,
            m.jmp_table@ == jmp_table@,
            m.state() == init_run_state(inputs.deep_view()),
    {
        let mut memory: Vec<u8> = Vec::new();
        let mut k: usize = 0;
        while k < MEMORY_SIZE
            invariant
                k <= MEMORY_SIZE,
                memory@ =~= Seq::new(k as nat, |i: int| 0u8),
            decreases MEMORY_SIZE - k,
        {
            memory.push(0u8);
            k = k + 1;
        }
        let m = Machine {
            code,
            jmp_table,
            memory,
            data_p: MEMORY_SIZE / 2,
            code_p: 0,
            inputs,
            in_p: 0,
            display: Vec::new(),
        };
        proof {
            assert(m.state().tape =~= init_run_state(m.inputs.deep_view()).tape);
            assert(m.state().inp =~= m.inputs.deep_view());
        }
        m
    }

    /// Build a source text and stand a fresh machine over the result, with
    /// all of `inputs` pending; or return the compile fault, which is exactly
    /// the one `build_spec` gives.
    pub fn from_source(str_tokens: &str, inputs: Vec<String>) -> (r: Result<Machine, BfError>)
        requires
            str_tokens@.len() < u32::MAX,
        ensures
            (match (build_spec(str_tokens@), r) {
                (Ok(p), Ok(m)) => m.wf() && m.code@ == p.0 && m.jmp_table@ == p.1 && m.state()
                    == init_run_state(inputs.deep_view()),
                (Err(e1), Err(e2)) => e2 == e1,
                _ => false,
            }),
    {
        match BfIR::build(str_tokens) {
            Ok((code, table)) => {
                proof {
                    lemma_build_spec_wf(str_tokens@);
                }
                Ok(Machine::new(code, table, inputs))
            },
            Err(e) => Err(e),
        }
    }

    /// Execute exactly one semantic step: the status says whether the run
    /// goes on, halted (the whole output is in `display`), or faulted; the
    /// machine's new state is the stepped one, and is unchanged on a halt or
    /// a fault.
    pub fn step_once(&mut self) -> (r: RunStatus)
        requires
            old(self).wf(),
        ensures
            final(self).wf(),
            final(self).code@ == old(self).code@,
            final(self).jmp_table@ == old(self).jmp_table@,
            (match r {
                RunStatus::Running => step(old(self).code@, old(self).jmp_table@, old(self).state())
                    == StepResult::Next(final(self).state()),
                RunStatus::Done => *final(self) == *old(self) && step(
                    old(self).code@,
                    old(self).jmp_table@,
                    old(self).state(),
                ) == StepResult::Halt(old(self).display@),
                RunStatus::Fault(e) => *final(self) == *old(self) && step(
                    old(self).code@,
                    old(self).jmp_table@,
                    old(self).state(),
                ) == StepResult::Fail(e),
            }),
    {
        if self.code_p == self.code.len() {
            return RunStatus::Done;
        }
        let ins = self.code[self.code_p];
        match ins.0 {
            BfIR::BfAdd(num) => {
                let cell = self.memory[self.data_p];
                self.memory[self.data_p] = cell.wrapping_add(num);
                self.code_p = self.code_p + 1;
            },
            BfIR::BfSub(num) => {
                let cell = self.memory[self.data_p];
                self.memory[self.data_p] = cell.wrapping_sub(num);
                self.code_p = self.code_p + 1;
            },
            BfIR::BfNext(num) => {
                if self.data_p >= MEMORY_SIZE - num as usize {
                    return RunStatus::Fault(ptr_fault_at(ins.1, ins.2));
                }
                self.data_p = self.data_p + num as usize;
                self.code_p = self.code_p + 1;
            },
            BfIR::BfPre(num) => {
                if self.data_p < num as usize {
                    return RunStatus::Fault(ptr_fault_at(ins.1, ins.2));
                }
                self.data_p = self.data_p - num as usize;
                self.code_p = self.code_p + 1;
            },
            BfIR::BfJz => {
                if self.memory[self.data_p] == 0 {
                    let t = match self.jmp_table.get(&self.code_p) {
                        Some(t) => *t,
                        None => {
                            proof {
                                assert(false);
                            }
                            0usize
                        },
                    };
                    self.code_p = t + 1;
                } else {
                    self.code_p = self.code_p + 1;
                }
            },
            BfIR::BfJnz => {
                let t = match self.jmp_table.get(&self.code_p) {
                    Some(t) => *t,
                    None => {
                        proof {
                            assert(false);
                        }
                        0usize
                    },
                };
                self.code_p = t;
            },
            BfIR::BfRead => {
                let ghost prior = self.state();
                if self.in_p < self.inputs.len() {
                    let line: &String = &self.inputs[self.in_p];
                    let b: u8 = if line.as_str().unicode_len() > 0 {
                        let c = line.as_str().get_char(0);
                        char_to_byte(c)
                    } else {
                        0u8
                    };
                    self.memory[self.data_p] = b;
                    self.in_p = self.in_p + 1;
                    proof {
                        assert(prior.inp[0] == self.inputs.deep_view()[self.in_p - 1]);
                        assert(prior.inp.drop_first() =~= self.inputs.deep_view().skip(
                            self.in_p as int,
                        ));
                    }
                } else {
                    self.memory[self.data_p] = 0;
                    proof {
                        assert(prior.inp.len() == 0);
                    }
                }
                self.code_p = self.code_p + 1;
            },
            BfIR::BfWrite => {
                let cell = self.memory[self.data_p];
                self.display.push(cell as char);
                self.code_p = self.code_p + 1;
            },
        }
        RunStatus::Running
    }

    /// Execute up to `fuel` semantic steps. `Done` and `Fault` report what
    /// the semantics reaches within that many steps from the machine's prior
    /// state; `Running` means all `fuel` steps went by and the machine now
    /// stands exactly `fuel` steps further on.
    pub fn run_steps(&mut self, fuel: usize) -> (r: RunStatus)
        requires
            old(self).wf(),
        ensures
            final(self).wf(),
            final(self).code@ == old(self).code@,
            final(self).jmp_table@ == old(self).jmp_table@,
            (match r {
                RunStatus::Running => run_n(
                    old(self).code@,
                    old(self).jmp_table@,
                    old(self).state(),
                    fuel as nat,
                ) == StepResult::Next(final(self).state()),
                RunStatus::Done => exists|n: nat|
                    n <= fuel && run_n(old(self).code@, old(self).jmp_table@, old(self).state(), n)
                        == StepResult::Halt(final(self).display@),
                RunStatus::Fault(e) => exists|n: nat|
                    n <= fuel && run_n(old(self).code@, old(self).jmp_table@, old(self).state(), n)
                        == StepResult::Fail(e),
            }),
    {
        let mut k: usize = 0;
        while k < fuel
            invariant
                self.wf(),
                self.code@ == old(self).code@,
                self.jmp_table@ == old(self).jmp_table@,
                k <= fuel,
                run_n(old(self).code@, old(self).jmp_table@, old(self).state(), k as nat)
                    == StepResult::Next(self.state()),
            decreases fuel - k,
        {
            proof {
                lemma_run_n_snoc(old(self).code@, old(self).jmp_table@, old(self).state(), k as nat);
            }
            let st = self.step_once();
            match st {
                RunStatus::Running => {
                    k = k + 1;
                },
                RunStatus::Done => {
                    return RunStatus::Done;
                },
                RunStatus::Fault(e) => {
                    return RunStatus::Fault(e);
                },
            }
        }
        RunStatus::Running
    }
}

impl BfIR {
    /// Build a source text and execute it for up to `fuel` semantic steps.
    /// A compile fault comes back as-is; otherwise `Some(Ok(out))` is the
    /// output the semantics halts with within `fuel` steps, `Some(Err(e))`
    /// the pointer fault it reaches within them, and `None` means the program
    /// is still running after all `fuel` steps.
    pub fn run(str_tokens: &str, inputs: Vec<String>, fuel: usize) -> (r: Option<
        Result<Vec<char>, BfError>,
    >)
        requires
            str_tokens@.len() < u32::MAX,
        ensures
            (match build_spec(str_tokens@) {
                Err(ce) => r == Some(Err::<Vec<char>, BfError>(ce)),
                Ok(p) => (match r {
                    Some(rr) => (match rr {
                        Ok(out) => exists|n: nat|
                            n <= fuel && run_n(p.0, p.1, init_run_state(inputs.deep_view()), n)
                                == StepResult::Halt(out@),
                        Err(e) => exists|n: nat|
                            n <= fuel && run_n(p.0, p.1, init_run_state(inputs.deep_view()), n)
                                == StepResult::Fail(e),
                    }),
                    None => run_n(p.0, p.1, init_run_state(inputs.deep_view()), fuel as nat)
                        is Next,
                }),
            }),
    {
        let mut m = match Machine::from_source(str_tokens, inputs) {
            Ok(m) => m,
            Err(e) => {
                return Some(Err(e));
            },
        };
        match m.run_steps(fuel) {
            RunStatus::Done => Some(Ok(m.display)),
            RunStatus::Fault(e) => Some(Err(e)),
            RunStatus::Running => None,
        }
    }
}

/// The executable pointer-overflow fault at a given source position.
fn ptr_fault_at(ln: u32, cl: u32) -> (e: BfError)
    ensures
        e == ptr_fault(ln, cl),
{
    BfError {
        line: ln,
        col: cl,
        error_type: BfErrorType::RuntimeError(RuntimeErrorType::PointerOverFlowError),
    }
}

/// The code of a character, truncated to a byte.
fn char_to_byte(c: char) -> (b: u8)
    ensures
        b == (c as u32) as u8,
{
    #[verifier::truncate]
    ((c as u32) as u8)
}

} // verus!
