//! The builder: a single left-to-right scan of the source text that yields
//! the instruction sequence and the jump table, or the first compile fault.
//!
//! The whole scan is mirrored by spec functions (`scan_char`, `scan`,
//! `build_spec`), so `BfIR::build`'s contract pins its result down to a pure
//! function of the source text.

use vstd::prelude::*;

use crate::ir::BfError;
use crate::ir::BfErrorType;
use crate::ir::BfIR;
use crate::ir::CompileErrorType;
use crate::ir::is_jump;
use crate::ir::wf_prog;

use std::collections::HashMap;

verus! {

broadcast use vstd::std_specs::hash::group_hash_axioms;

/// The scan's running state: the position of the next character, the
/// instructions emitted so far, the stack of still-open `[` (emitted index and
/// source position), and the jump-table entries recorded so far.
pub ghost struct BuildState {
    pub line: int,
    pub col: int,
    pub toks: Seq<(BfIR, u32, u32)>,
    pub stack: Seq<(usize, u32, u32)>,
    pub table: Map<usize, usize>,
}

/// The state the scan starts in: position (1, 0), nothing emitted.
pub open spec fn init_build_state() -> BuildState {
    BuildState {
        line: 1,
        col: 0,
        toks: Seq::empty(),
        stack: Seq::empty(),
        table: Map::empty(),
    }
}

/// One scanned character. The column advances before the character is
/// classified; a newline instead resets the column and advances the line.
/// Recognized characters emit one instruction; `[` also pushes the open
/// bracket, `]` pops it and records both jump-table entries, or faults when
/// nothing is open. Unrecognized characters only advance the position.
pub open spec fn scan_char(st: BuildState, c: char) -> Result<BuildState, BfError> {
    if c == '\n' {
        Ok(BuildState { line: st.line + 1, col: 0, ..st })
    } else {
        let col = st.col + 1;
        let ln = st.line as u32;
        let cl = col as u32;
        if c == '+' {
            Ok(BuildState { col, toks: st.toks.push((BfIR::BfAdd(1), ln, cl)), ..st })
        } else if c == '-' {
            Ok(BuildState { col, toks: st.toks.push((BfIR::BfSub(1), ln, cl)), ..st })
        } else if c == '>' {
            Ok(BuildState { col, toks: st.toks.push((BfIR::BfNext(1), ln, cl)), ..st })
        } else if c == '<' {
            Ok(BuildState { col, toks: st.toks.push((BfIR::BfPre(1), ln, cl)), ..st })
        } else if c == '[' {
            Ok(
                BuildState {
                    col,
                    toks: st.toks.push((BfIR::BfJz, ln, cl)),
                    stack: st.stack.push((st.toks.len() as usize, ln, cl)),
                    ..st
                },
            )
        } else if c == ']' {
            if st.stack.len() == 0 {
                Err(
                    BfError {
                        line: ln,
                        col: cl,
                        error_type: BfErrorType::CompileError(CompileErrorType::RightBracketError),
                    },
                )
            } else {
                let open = st.stack.last().0;
                let close = st.toks.len() as usize;
                Ok(
                    BuildState {
                        col,
                        toks: st.toks.push((BfIR::BfJnz, ln, cl)),
                        stack: st.stack.drop_last(),
                        table: st.table.insert(open, close).insert(close, open),
                        ..st
                    },
                )
            }
        } else if c == '.' {
            Ok(BuildState { col, toks: st.toks.push((BfIR::BfWrite, ln, cl)), ..st })
        } else if c == ',' {
            Ok(BuildState { col, toks: st.toks.push((BfIR::BfRead, ln, cl)), ..st })
        } else {
            Ok(BuildState { col, ..st })
        }
    }
}

/// The scan of a whole text, folding `scan_char` over it from the left; the
/// first fault aborts the rest.
pub open spec fn scan(st: BuildState, s: Seq<char>) -> Result<BuildState, BfError>
    decreases s.len(),
{
    if s.len() == 0 {
        Ok(st)
    } else {
        match scan(st, s.drop_last()) {
            Ok(st2) => scan_char(st2, s.last()),
            Err(e) => Err(e),
        }
    }
}

/// What building a source text yields: the scanned instructions and table, or
/// the fault. A `]` without an open `[` faults at its own position during the
/// scan; a `[` still open at the end faults at the position of the oldest
/// such `[` (the bottom of the stack).
pub open spec fn build_spec(s: Seq<char>) -> Result<(Seq<(BfIR, u32, u32)>, Map<usize, usize>), BfError> {
    match scan(init_build_state(), s) {
        Ok(st) => {
            if st.stack.len() == 0 {
                Ok((st.toks, st.table))
            } else {
                Err(
                    BfError {
                        line: st.stack[0].1,
                        col: st.stack[0].2,
                        error_type: BfErrorType::CompileError(CompileErrorType::LeftBracketError),
                    },
                )
            }
        },
        Err(e) => Err(e),
    }
}

/// Once the scan faults on a prefix of the text, the rest of the text cannot
/// change the outcome: the scan of the whole text yields the same fault.
proof fn lemma_scan_err_prefix(st: BuildState, s: Seq<char>, j: int)
    requires
        0 <= j <= s.len(),
        scan(st, s.take(j)) is Err,
    ensures
        scan(st, s) == scan(st, s.take(j)),
    decreases s.len() - j,
{
    if j == s.len() {
        assert(s.take(j) =~= s);
    } else {
        assert(s.take(j + 1).drop_last() =~= s.take(j));
        lemma_scan_err_prefix(st, s, j + 1);
    }
}

/// Whether some still-open `[` on the stack was emitted at instruction index
/// `i`.
spec fn stack_holds(stack: Seq<(usize, u32, u32)>, i: usize) -> bool {
    exists|q: int| 0 <= q < stack.len() && stack[q].0 == i
}

/// The scan's structural invariant. Stack entries are indices of `BfJz`
/// instructions not yet in the table, in strictly increasing order; the
/// table's keys are exactly the loop-boundary indices that are no longer
/// open; and the table already pairs each closed bracket with its partner,
/// symmetrically, the `[` before the `]`.
spec fn scan_inv(st: BuildState) -> bool {
    &&& forall|q: int|
        0 <= q < st.stack.len() ==> {
            &&& (#[trigger] st.stack[q]).0 < st.toks.len()
            &&& st.toks[st.stack[q].0 as int].0 is BfJz
            &&& !st.table.contains_key(st.stack[q].0)
        }
    &&& forall|q1: int, q2: int|
        0 <= q1 < q2 < st.stack.len() ==> (#[trigger] st.stack[q1]).0 < (#[trigger] st.stack[q2]).0
    &&& forall|i: int|
        0 <= i < st.toks.len() ==> (is_jump(#[trigger] st.toks[i].0) <==> (st.table.contains_key(
            i as usize,
        ) || stack_holds(st.stack, i as usize)))
    &&& forall|k: usize|
        #[trigger] st.table.contains_key(k) ==> {
            &&& k < st.toks.len()
            &&& st.table[k] < st.toks.len()
            &&& st.table.contains_key(st.table[k])
            &&& st.table[st.table[k]] == k
            &&& (st.toks[k as int].0 is BfJz ==> st.toks[st.table[k] as int].0 is BfJnz && k
                < st.table[k])
            &&& (st.toks[k as int].0 is BfJnz ==> st.toks[st.table[k] as int].0 is BfJz && st.table[k]
                < k)
        }
}

/// One scanned character keeps the structural invariant and emits at most one
/// instruction.
proof fn lemma_scan_char_inv(st: BuildState, c: char)
    requires
        scan_inv(st),
        st.toks.len() < usize::MAX,
    ensures
        (match scan_char(st, c) {
            Ok(st2) => scan_inv(st2) && st2.toks.len() <= st.toks.len() + 1,
            Err(_) => true,
        }),
{
    match scan_char(st, c) {
        Ok(st2) => {
            if c == ']' && st.stack.len() > 0 {
                let open = st.stack.last().0;
                let close = st.toks.len() as usize;
                assert(stack_holds(st.stack, open));
                assert(open < close);
                assert forall|q: int| 0 <= q < st2.stack.len() implies {
                    &&& (#[trigger] st2.stack[q]).0 < st2.toks.len()
                    &&& st2.toks[st2.stack[q].0 as int].0 is BfJz
                    &&& !st2.table.contains_key(st2.stack[q].0)
                } by {
                    assert(st2.stack[q] == st.stack[q]);
                    assert(st.stack[q].0 < st.stack[st.stack.len() - 1].0);
                }
                assert forall|i: int|
                    0 <= i < st2.toks.len() implies (is_jump(#[trigger] st2.toks[i].0) <==> (
                st2.table.contains_key(i as usize) || stack_holds(st2.stack, i as usize))) by {
                    if i < st.toks.len() {
                        assert(st2.toks[i] == st.toks[i]);
                        if stack_holds(st.stack, i as usize) {
                            let q = choose|q: int|
                                0 <= q < st.stack.len() && st.stack[q].0 == i as usize;
                            if q < st.stack.len() - 1 {
                                assert(st2.stack[q].0 == i as usize);
                                assert(stack_holds(st2.stack, i as usize));
                            } else {
                                assert(i as usize == open);
                            }
                        }
                        if stack_holds(st2.stack, i as usize) {
                            let q = choose|q: int|
                                0 <= q < st2.stack.len() && st2.stack[q].0 == i as usize;
                            assert(st.stack[q].0 == i as usize);
                            assert(stack_holds(st.stack, i as usize));
                        }
                    } else {
                        assert(i == close);
                        assert(st2.toks[i].0 is BfJnz);
                    }
                }
                assert forall|k: usize| #[trigger] st2.table.contains_key(k) implies {
                    &&& k < st2.toks.len()
                    &&& st2.table[k] < st2.toks.len()
                    &&& st2.table.contains_key(st2.table[k])
                    &&& st2.table[st2.table[k]] == k
                    &&& (st2.toks[k as int].0 is BfJz ==> st2.toks[st2.table[k] as int].0 is BfJnz
                        && k < st2.table[k])
                    &&& (st2.toks[k as int].0 is BfJnz ==> st2.toks[st2.table[k] as int].0 is BfJz
                        && st2.table[k] < k)
                } by {
                    if k == open || k == close {
                    } else {
                        assert(st.table.contains_key(k));
                        assert(st.table[k] != open);
                        assert(st.table[k] != close);
                        assert(st2.toks[k as int] == st.toks[k as int]);
                        assert(st2.toks[st.table[k] as int] == st.toks[st.table[k] as int]);
                    }
                }
            } else {
                if st2.toks.len() > st.toks.len() {
                    assert forall|i: int|
                        0 <= i < st2.toks.len() implies (is_jump(#[trigger] st2.toks[i].0) <==> (
                    st2.table.contains_key(i as usize) || stack_holds(st2.stack, i as usize))) by {
                        if i < st.toks.len() {
                            assert(st2.toks[i] == st.toks[i]);
                            if stack_holds(st.stack, i as usize) {
                                let q = choose|q: int|
                                    0 <= q < st.stack.len() && st.stack[q].0 == i as usize;
                                assert(st2.stack[q].0 == i as usize);
                                assert(stack_holds(st2.stack, i as usize));
                            }
                            if stack_holds(st2.stack, i as usize) && !stack_holds(
                                st.stack,
                                i as usize,
                            ) {
                                let q = choose|q: int|
                                    0 <= q < st2.stack.len() && st2.stack[q].0 == i as usize;
                                assert(q == st2.stack.len() - 1);
                            }
                        } else {
                            if c == '[' {
                                assert(st2.stack.last().0 == i as usize);
                                assert(stack_holds(st2.stack, i as usize));
                            } else {
                                assert(!is_jump(st2.toks[i].0));
                                if stack_holds(st2.stack, i as usize) {
                                    let q = choose|q: int|
                                        0 <= q < st2.stack.len() && st2.stack[q].0 == i as usize;
                                    assert(st.stack[q].0 == i as usize);
                                }
                            }
                        }
                    }
                }
            }
        },
        Err(_) => {},
    }
}

/// A scan from a state that satisfies the structural invariant ends, when it
/// succeeds, in a state that satisfies it too.
proof fn lemma_scan_inv(st0: BuildState, s: Seq<char>)
    requires
        scan_inv(st0),
        st0.toks.len() + s.len() <= usize::MAX,
    ensures
        (match scan(st0, s) {
            Ok(st) => scan_inv(st) && st.toks.len() <= st0.toks.len() + s.len(),
            Err(_) => true,
        }),
    decreases s.len(),
{
    if s.len() > 0 {
        lemma_scan_inv(st0, s.drop_last());
        match scan(st0, s.drop_last()) {
            Ok(st2) => lemma_scan_char_inv(st2, s.last()),
            Err(_) => {},
        }
    }
}

/// A successful build yields a well-formed program: the jump table's keys are
/// exactly the loop-boundary instruction indices, entries point at partners
/// of the opposite kind, the table is symmetric, and each `[` stands before
/// its `]`.
pub proof fn lemma_build_spec_wf(s: Seq<char>)
    requires
        s.len() <= usize::MAX,
    ensures
        (match build_spec(s) {
            Ok(p) => wf_prog(p.0, p.1),
            Err(_) => true,
        }),
{
    lemma_scan_inv(init_build_state(), s);
}

/// True when an executable build result agrees with `build_spec` of the
/// source: equal faults, or views equal to the specified sequence and table.
pub open spec fn build_agrees(
    s: Seq<char>,
    r: Result<(Vec<(BfIR, u32, u32)>, HashMap<usize, usize>), BfError>,
) -> bool {
    match (build_spec(s), r) {
        (Ok(p), Ok(q)) => q.0@ == p.0 && q.1@ == p.1,
        (Err(e1), Err(e2)) => e2 == e1,
        _ => false,
    }
}

impl BfIR {
    /// Scan `str_tokens` once, producing the instruction sequence and the
    /// jump table, or the first compile fault. The result is exactly
    /// `build_spec` of the text, so building is a pure function of its input.
    pub fn build(str_tokens: &str) -> (r: Result<
        (Vec<(BfIR, u32, u32)>, HashMap<usize, usize>),
        BfError,
    >)
        requires
            str_tokens@.len() < u32::MAX,
        ensures
            build_agrees(str_tokens@, r),
    {
        let n = str_tokens.unicode_len();
        let mut line_p: u32 = 1;
        let mut col_p: u32 = 0;
        let mut tokens: Vec<(BfIR, u32, u32)> = Vec::new();
        let mut sta: Vec<(usize, u32, u32)> = Vec::new();
        let mut jmp_table: HashMap<usize, usize> = HashMap::new();
        let mut i: usize = 0;

        while i < n
            invariant
                n == str_tokens@.len(),
                n < u32::MAX,
                i <= n,
                col_p <= i,
                line_p <= 1 + i,
                scan(init_build_state(), str_tokens@.take(i as int)) == Ok::<BuildState, BfError>(
                    (BuildState {
                        line: line_p as int,
                        col: col_p as int,
                        toks: tokens@,
                        stack: sta@,
                        table: jmp_table@,
                    }),
                ),
            decreases n - i,
        {
            let c = str_tokens.get_char(i);
            proof {
                assert(str_tokens@.take(i + 1).drop_last() =~= str_tokens@.take(i as int));
                assert(str_tokens@.take(i + 1).last() == c);
            }
            if c == '\n' {
                col_p = 0;
                line_p = line_p + 1;
            } else {
                col_p = col_p + 1;
                if c == '+' {
                    tokens.push((BfIR::BfAdd(1), line_p, col_p));
                } else if c == '-' {
                    tokens.push((BfIR::BfSub(1), line_p, col_p));
                } else if c == '>' {
                    tokens.push((BfIR::BfNext(1), line_p, col_p));
                } else if c == '<' {
                    tokens.push((BfIR::BfPre(1), line_p, col_p));
                } else if c == '[' {
                    sta.push((tokens.len(), line_p, col_p));
                    tokens.push((BfIR::BfJz, line_p, col_p));
                } else if c == ']' {
                    if sta.len() == 0 {
                        proof {
                            lemma_scan_err_prefix(init_build_state(), str_tokens@, i + 1);
                        }
                        return Err(
                            BfError {
                                line: line_p,
                                col: col_p,
                                error_type: BfErrorType::CompileError(
                                    CompileErrorType::RightBracketError,
                                ),
                            },
                        );
                    }
                    let jz = match sta.pop() {
                        Some(x) => x,
                        None => {
                            proof {
                                assert(false);
                            }
                            (0usize, 0u32, 0u32)
                        },
                    };
                    let close_idx = tokens.len();
                    tokens.push((BfIR::BfJnz, line_p, col_p));
                    jmp_table.insert(jz.0, close_idx);
                    jmp_table.insert(close_idx, jz.0);
                } else if c == '.' {
                    tokens.push((BfIR::BfWrite, line_p, col_p));
                } else if c == ',' {
                    tokens.push((BfIR::BfRead, line_p, col_p));
                }
            }
            i = i + 1;
        }

        proof {
            assert(str_tokens@.take(n as int) =~= str_tokens@);
        }
        if sta.len() > 0 {
            let first = sta[0];
            return Err(
                BfError {
                    line: first.1,
                    col: first.2,
                    error_type: BfErrorType::CompileError(CompileErrorType::LeftBracketError),
                },
            );
        }
        Ok((tokens, jmp_table))
    }
}

} // verus!
