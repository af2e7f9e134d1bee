use bfir::interp::Machine;
use bfir::interp::RunStatus;
use bfir::ir::BfError;
use bfir::ir::BfErrorType;
use bfir::ir::BfIR;
use bfir::ir::CompileErrorType;
use bfir::ir::RuntimeErrorType;

const FUEL: usize = 10_000_000;

fn run_str(src: &str, inputs: Vec<String>) -> Option<Result<Vec<char>, BfError>> {
    BfIR::run(src, inputs, FUEL)
}

fn run_ok(src: &str, inputs: Vec<String>) -> String {
    run_str(src, inputs)
        .expect("ran out of fuel")
        .expect("unexpected fault")
        .into_iter()
        .collect()
}

fn compile_fault(line: u32, col: u32, kind: CompileErrorType) -> BfError {
    BfError { line, col, error_type: BfErrorType::CompileError(kind) }
}

fn pointer_fault(line: u32, col: u32) -> BfError {
    BfError {
        line,
        col,
        error_type: BfErrorType::RuntimeError(RuntimeErrorType::PointerOverFlowError),
    }
}

#[test]
fn build_empty_source() {
    let (toks, table) = BfIR::build("").expect("empty source must build");
    assert!(toks.is_empty());
    assert!(table.is_empty());
}

#[test]
fn build_bracket_pair() {
    let (toks, table) = BfIR::build("[]").expect("\"[]\" must build");
    assert_eq!(toks, vec![(BfIR::BfJz, 1, 1), (BfIR::BfJnz, 1, 2)]);
    assert_eq!(table.len(), 2);
    assert_eq!(table[&0], 1);
    assert_eq!(table[&1], 0);
}

#[test]
fn build_unmatched_closing_bracket() {
    let e = BfIR::build("]").expect_err("\"]\" must not build");
    assert_eq!(e, compile_fault(1, 1, CompileErrorType::RightBracketError));
}

#[test]
fn build_unclosed_opening_bracket_reports_oldest() {
    let e = BfIR::build("[[]").expect_err("\"[[]\" must not build");
    assert_eq!(e, compile_fault(1, 1, CompileErrorType::LeftBracketError));

    let e = BfIR::build("[[][").expect_err("\"[[][\" must not build");
    assert_eq!(e, compile_fault(1, 1, CompileErrorType::LeftBracketError));
}

#[test]
fn build_positions_count_every_character() {
    let (toks, _) = BfIR::build("a+\nb-").expect("comments must be skipped");
    assert_eq!(toks, vec![(BfIR::BfAdd(1), 1, 2), (BfIR::BfSub(1), 2, 2)]);
}

#[test]
fn build_fault_position_after_newline() {
    let e = BfIR::build("+\n]").expect_err("\"+\\n]\" must not build");
    assert_eq!(e, compile_fault(2, 1, CompileErrorType::RightBracketError));
}

#[test]
fn build_nested_brackets_match_by_stack() {
    let (toks, table) = BfIR::build("[[]]").expect("\"[[]]\" must build");
    assert_eq!(toks.len(), 4);
    assert_eq!(table[&0], 3);
    assert_eq!(table[&3], 0);
    assert_eq!(table[&1], 2);
    assert_eq!(table[&2], 1);
}

#[test]
fn build_jump_table_is_symmetric() {
    let (_, table) = BfIR::build("[[][[]]][]").expect("nesting must build");
    for (&k, &v) in table.iter() {
        assert_eq!(table[&v], k, "table must be symmetric at key {}", k);
    }
}

#[test]
fn build_twice_is_identical() {
    let src = "++[>+<-]>.\ncomment,[]";
    let a = BfIR::build(src).expect("must build");
    let b = BfIR::build(src).expect("must build");
    assert_eq!(a.0, b.0);
    assert_eq!(a.1, b.1);

    let ea = BfIR::build("]]").expect_err("must not build");
    let eb = BfIR::build("]]").expect_err("must not build");
    assert_eq!(ea, eb);
}

#[test]
fn run_empty_program() {
    assert_eq!(run_ok("", vec![]), "");
}

#[test]
fn run_hello_world() {
    let src = "++++++++++[>+++++++>++++++++++>+++>+<<<<-]>++.>+.+++++++..+++.>++.<<+++++++++++++++.>.+++.------.--------.>+.>.";
    assert_eq!(run_ok(src, vec![]), "Hello World!\n");
}

#[test]
fn run_wraparound_modulo_256() {
    let mut plus255 = "+".repeat(255);
    plus255.push('.');
    assert_eq!(run_ok(&plus255, vec![]), "\u{ff}");

    let mut plus256 = "+".repeat(256);
    plus256.push('.');
    assert_eq!(run_ok(&plus256, vec![]), "\u{0}");

    assert_eq!(run_ok("-.", vec![]), "\u{ff}");
}

#[test]
fn run_single_move_left_is_legal() {
    assert_eq!(run_ok("<", vec![]), "");
}

#[test]
fn run_moving_left_past_zero_faults() {
    let src = "<".repeat(257);
    let r = run_str(&src, vec![]).expect("fault must come within fuel");
    assert_eq!(r.expect_err("must fault"), pointer_fault(1, 257));
}

#[test]
fn run_moving_right_past_end_faults() {
    let src = ">".repeat(256);
    let r = run_str(&src, vec![]).expect("fault must come within fuel");
    assert_eq!(r.expect_err("must fault"), pointer_fault(1, 256));

    let almost = ">".repeat(255);
    assert_eq!(run_ok(&almost, vec![]), "");
}

#[test]
fn run_skips_loop_when_cell_zero() {
    assert_eq!(run_ok("[.]", vec![]), "");
}

#[test]
fn run_nested_loops_multiply() {
    assert_eq!(run_ok("++[>++[>+<-]<-]>>.", vec![]), "\u{4}");
}

#[test]
fn run_compile_fault_comes_back_unchanged() {
    let r = run_str("]", vec![]).expect("a compile fault needs no fuel");
    assert_eq!(
        r.expect_err("must fail"),
        compile_fault(1, 1, CompileErrorType::RightBracketError)
    );
}

#[test]
fn run_out_of_fuel_is_pending() {
    assert_eq!(BfIR::run("+[]", vec![], 1000), None);
}

#[test]
fn read_takes_first_character_of_a_line() {
    assert_eq!(run_ok(",.", vec!["A".to_string()]), "A");
    assert_eq!(run_ok(",.,.", vec!["AB".to_string(), "C".to_string()]), "AC");
}

#[test]
fn read_empty_line_or_exhausted_input_stores_zero() {
    assert_eq!(run_ok(",.", vec![]), "\u{0}");
    assert_eq!(run_ok(",.", vec!["".to_string()]), "\u{0}");
    assert_eq!(run_ok(",.,.", vec!["A".to_string()]), "A\u{0}");
}

#[test]
fn read_truncates_wide_characters_to_a_byte() {
    // U+0100 has code 256, which truncates to byte 0.
    assert_eq!(run_ok(",.", vec!["\u{100}".to_string()]), "\u{0}");
    // U+0141 has code 321, which truncates to byte 65, the code of 'A'.
    assert_eq!(run_ok(",.", vec!["\u{141}".to_string()]), "A");
}

#[test]
fn machine_steps_one_instruction_at_a_time() {
    let mut m = Machine::from_source("+.", vec![]).expect("must build");
    assert_eq!(m.step_once(), RunStatus::Running);
    assert_eq!(m.step_once(), RunStatus::Running);
    assert_eq!(m.step_once(), RunStatus::Done);
    assert_eq!(m.display, vec!['\u{1}']);
    // Stepping a finished machine stays done and changes nothing.
    assert_eq!(m.step_once(), RunStatus::Done);
    assert_eq!(m.display, vec!['\u{1}']);
}

#[test]
fn machine_resumes_where_it_stopped() {
    let mut m = Machine::from_source("+++.", vec![]).expect("must build");
    assert_eq!(m.run_steps(2), RunStatus::Running);
    assert_eq!(m.run_steps(FUEL), RunStatus::Done);
    assert_eq!(m.display, vec!['\u{3}']);
}

#[test]
fn machine_run_steps_reports_fault() {
    let mut m = Machine::from_source("+[><]", vec![]).expect("must build");
    assert_eq!(m.run_steps(3), RunStatus::Running);
    let mut m2 = Machine::from_source(">".repeat(300).as_str(), vec![]).expect("must build");
    assert_eq!(m2.run_steps(FUEL), RunStatus::Fault(pointer_fault(1, 256)));
}
