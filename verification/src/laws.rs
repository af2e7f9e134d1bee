//! Laws relating the builder's results: the jump table's symmetry, and the
//! builder being a pure function of its source text.

use vstd::prelude::*;

use crate::builder::build_agrees;
use crate::builder::build_spec;
use crate::builder::lemma_build_spec_wf;
use crate::ir::BfError;
use crate::ir::BfIR;

use std::collections::HashMap;

verus! {

/// For every well-formed bracket nesting — every source text whose build
/// succeeds — the jump table is symmetric: for every key `k`,
/// `table[table[k]] == k`.
pub proof fn lemma_jump_table_symmetric(
    s: Seq<char>,
    toks: Seq<(BfIR, u32, u32)>,
    table: Map<usize, usize>,
)
    requires
        s.len() <= usize::MAX,
        build_spec(s) == Ok::<(Seq<(BfIR, u32, u32)>, Map<usize, usize>), BfError>((toks, table)),
    ensures
        forall|k: usize| #[trigger]
            table.contains_key(k) ==> table.contains_key(table[k]) && table[table[k]] == k,
{
    lemma_build_spec_wf(s);
}

/// Building the same source text twice yields structurally identical
/// instruction sequences and jump tables, and identical faults: the build
/// result is a pure function of the text alone.
pub proof fn lemma_build_idempotent(
    s: Seq<char>,
    r1: Result<(Vec<(BfIR, u32, u32)>, HashMap<usize, usize>), BfError>,
    r2: Result<(Vec<(BfIR, u32, u32)>, HashMap<usize, usize>), BfError>,
)
    requires
        build_agrees(s, r1),
        build_agrees(s, r2),
    ensures
        (match (r1, r2) {
            (Ok(a), Ok(b)) => a.0@ == b.0@ && a.1@ == b.1@,
            (Err(e1), Err(e2)) => e1 == e2,
            _ => false,
        }),
{
}

} // verus!
