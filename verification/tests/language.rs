//! End-to-end tests: source text through the whole pipeline, with the
//! numeric closures backed by real IEEE-754 double arithmetic.

use lll::error::ErrorType;
use lll::run;
use lll::token::NumCmp;
use lll::token::NumOp;
use lll::RunReport;

fn parse_num(s: String) -> u64 {
    s.parse::<f64>().unwrap().to_bits()
}

fn arith(op: NumOp, a: u64, b: u64) -> u64 {
    let x = f64::from_bits(a);
    let y = f64::from_bits(b);
    let r = match op {
        NumOp::Add => x + y,
        NumOp::Sub => x - y,
        NumOp::Mul => x * y,
        NumOp::Div => x / y,
    };
    r.to_bits()
}

fn cmp(op: NumCmp, a: u64, b: u64) -> bool {
    let x = f64::from_bits(a);
    let y = f64::from_bits(b);
    match op {
        NumCmp::Eq => x == y,
        NumCmp::Gt => x > y,
        NumCmp::Ge => x >= y,
        NumCmp::Lt => x < y,
        NumCmp::Le => x <= y,
    }
}

fn render(b: u64) -> String {
    format!("{}", f64::from_bits(b))
}

fn run_src(src: &str) -> RunReport {
    run(src.to_string(), parse_num, arith, cmp, render).expect("run aborted")
}

fn fatal_count(report: &RunReport) -> usize {
    report.diagnostics.iter().filter(|e| e.typing == ErrorType::Fatal).count()
}

#[test]
fn prints_string_concat() {
    let report = run_src("print \"a\" + \"b\";");
    assert_eq!(report.output, "ab");
    assert_eq!(report.diagnostics.len(), 0);
}

#[test]
fn mixed_sum_is_fatal_and_prints_nothing() {
    let report = run_src("print 1 + \"a\";");
    assert_eq!(report.output, "");
    assert_eq!(fatal_count(&report), 1);
    assert_eq!(report.diagnostics[0].msg, "FATAL: cannot sum float and string");
}

#[test]
fn block_scoping_shadows_and_restores() {
    let report = run_src("{ var x = 1; { var x = 2; print x; } print x; }");
    assert_eq!(report.output, "21");
    assert_eq!(report.diagnostics.len(), 0);
}

#[test]
fn inner_assignment_to_outer_variable_stays_visible() {
    let report = run_src("var x = 1; { x = 2; } print x;");
    assert_eq!(report.output, "2");
    assert_eq!(report.diagnostics.len(), 0);
}

#[test]
fn assignment_to_undeclared_fails_but_run_goes_on() {
    let report = run_src("x = 1; print 2;");
    assert_eq!(report.output, "2");
    assert_eq!(fatal_count(&report), 1);
    assert_eq!(report.diagnostics[0].msg, "trying to change non-existing variable");
}

#[test]
fn string_ordering_is_length_based() {
    let report = run_src("print \"aa\" < \"b\";");
    assert_eq!(report.output, "false");
    let report = run_src("print \"aa\" > \"b\";");
    assert_eq!(report.output, "true");
    let report = run_src("print \"aa\" <= \"bb\";");
    assert_eq!(report.output, "true");
    let report = run_src("print \"a\" >= \"bb\";");
    assert_eq!(report.output, "false");
}

#[test]
fn unterminated_string_aborts_the_whole_run() {
    let err = match run("print \"abc".to_string(), parse_num, arith, cmp, render) {
        Ok(_) => panic!("should abort"),
        Err(e) => e,
    };
    assert_eq!(err.typing, ErrorType::Fatal);
    assert_eq!(err.msg, "unterminated string, line 0");
}

#[test]
fn terminated_string_does_not_abort() {
    let report = run_src("print \"abc\";");
    assert_eq!(report.output, "abc");
}

#[test]
fn quote_inside_comment_does_not_abort() {
    let report = run_src("// \"\nprint 1;");
    assert_eq!(report.output, "1");
    assert_eq!(report.diagnostics.len(), 0);
}

#[test]
fn var_decl_evaluates_initializer() {
    let report = run_src("var x = 1 + 2; print x;");
    assert_eq!(report.output, "3");
    assert_eq!(report.diagnostics.len(), 0);
}

#[test]
fn numeric_arithmetic_and_precedence() {
    assert_eq!(run_src("print 1 + 2;").output, "3");
    assert_eq!(run_src("print 10 / 4;").output, "2.5");
    assert_eq!(run_src("print 2 * 3 - 1;").output, "5");
    assert_eq!(run_src("print 1 + 2 * 3;").output, "7");
    assert_eq!(run_src("print 1.5 + 2.25;").output, "3.75");
}

#[test]
fn division_by_zero_is_infinite() {
    assert_eq!(run_src("print 1 / 0;").output, "inf");
}

#[test]
fn grouping_changes_precedence() {
    assert_eq!(run_src("print (1 + 2) * 3;").output, "9");
}

#[test]
fn unary_operators() {
    assert_eq!(run_src("print -3;").output, "-3");
    assert_eq!(run_src("print !true;").output, "false");
    assert_eq!(run_src("print !false;").output, "true");
}

#[test]
fn unary_bang_on_number_is_fatal() {
    let report = run_src("print !1;");
    assert_eq!(report.output, "");
    assert_eq!(fatal_count(&report), 1);
}

#[test]
fn boolean_operators() {
    assert_eq!(run_src("print true + false;").output, "true");
    assert_eq!(run_src("print true == false;").output, "false");
    assert_eq!(run_src("print false < true;").output, "true");
    assert_eq!(run_src("print true <= false;").output, "false");
}

#[test]
fn numeric_comparisons() {
    assert_eq!(run_src("print 1 < 2;").output, "true");
    assert_eq!(run_src("print 2 <= 1;").output, "false");
    assert_eq!(run_src("print 1 == 1;").output, "true");
    assert_eq!(run_src("print 3 >= 3;").output, "true");
    assert_eq!(run_src("print 2 > 3;").output, "false");
}

#[test]
fn nil_prints_as_nil() {
    assert_eq!(run_src("print nil;").output, "nil");
    assert_eq!(run_src("var x; print x;").output, "nil");
}

#[test]
fn nil_operand_is_fatal() {
    let report = run_src("print nil + 1;");
    assert_eq!(report.output, "");
    assert_eq!(fatal_count(&report), 1);
    assert_eq!(report.diagnostics[0].msg, "FATAL: cannot sum nil or identifier");
}

#[test]
fn subtraction_of_strings_is_fatal() {
    let report = run_src("print \"a\" - \"b\";");
    assert_eq!(report.output, "");
    assert_eq!(report.diagnostics[0].msg, "FATAL: cannot sub string and string");
}

#[test]
fn division_of_bools_is_fatal() {
    let report = run_src("print true / false;");
    assert_eq!(report.output, "");
    assert_eq!(report.diagnostics[0].msg, "FATAL: cannot div bool and bool");
}

#[test]
fn multiplication_of_bools_is_fatal() {
    let report = run_src("print true * false;");
    assert_eq!(report.output, "");
    assert_eq!(report.diagnostics[0].msg, "FATAL: cannot mul bool and bool");
}

#[test]
fn ordering_mismatch_messages_name_their_operator() {
    assert_eq!(run_src("print \"a\" > 1;").output, "");
    assert_eq!(run_src("print \"a\" > 1;").diagnostics[0].msg, "FATAL: cannot gt string and float");
    assert_eq!(run_src("print \"a\" >= 1;").diagnostics[0].msg, "FATAL: cannot egt string and float");
    assert_eq!(run_src("print \"a\" < 1;").diagnostics[0].msg, "FATAL: cannot lt string and float");
    assert_eq!(run_src("print \"a\" <= 1;").diagnostics[0].msg, "FATAL: cannot elt string and float");
}

#[test]
fn equality_of_mixed_kinds_is_fatal() {
    let report = run_src("print 1 == \"1\";");
    assert_eq!(report.output, "");
    assert_eq!(report.diagnostics[0].msg, "FATAL: cannot eq float and string");
}

#[test]
fn newline_escape_becomes_newline_when_printed() {
    let report = run_src("print \"a\\nb\";");
    assert_eq!(report.output, "a\nb");
}

#[test]
fn comment_runs_to_end_of_line() {
    let report = run_src("// nothing here\nprint 1; // trailing\nprint 2;");
    assert_eq!(report.output, "12");
    assert_eq!(report.diagnostics.len(), 0);
}

#[test]
fn unknown_character_warns_and_scan_continues() {
    let report = run_src("@ print 1;");
    assert_eq!(report.output, "1");
    assert_eq!(report.diagnostics.len(), 1);
    assert_eq!(report.diagnostics[0].typing, ErrorType::Warn);
    assert_eq!(report.diagnostics[0].msg, "unexpected character, line 0");
}

#[test]
fn assignment_is_an_expression_with_a_value() {
    assert_eq!(run_src("var x = 1; x = 2; print x;").output, "2");
    assert_eq!(run_src("var x = 1; print x = 5;").output, "5");
}

#[test]
fn invalid_assignment_target_is_a_parse_error() {
    let report = run_src("1 = 2;");
    assert_eq!(report.output, "");
    assert_eq!(fatal_count(&report), 1);
    assert_eq!(report.diagnostics[0].msg, "invalid assignment target");
    // Panic-mode recovery finds its footing at the next statement
    // terminator, so the statement right after the bad one is skipped
    // and the one after that runs.
    let report = run_src("1 = 2; print 3; print 4;");
    assert_eq!(report.output, "4");
    assert_eq!(fatal_count(&report), 1);
}

#[test]
fn missing_semicolon_is_reported() {
    let report = run_src("print 1");
    assert_eq!(report.output, "");
    assert_eq!(fatal_count(&report), 1);
    assert_eq!(report.diagnostics[0].msg, "expected Semicolon");
}

#[test]
fn undefined_variable_reference_is_fatal() {
    let report = run_src("print y;");
    assert_eq!(report.output, "");
    assert_eq!(report.diagnostics[0].msg, "variable identifier not found");
}

#[test]
fn several_errors_are_reported_in_one_pass() {
    let report = run_src("var 1; print 2; print (3;");
    assert_eq!(report.output, "2");
    assert_eq!(fatal_count(&report), 2);
}

#[test]
fn bang_equal_parses_but_evaluation_rejects_it() {
    let report = run_src("print 1 != 2;");
    assert_eq!(report.output, "");
    assert_eq!(report.diagnostics[0].msg, "FATAL: unexpected operator in binary!");
}

#[test]
fn trailing_dot_number_parses() {
    assert_eq!(run_src("print 1. + 2;").output, "3");
}

#[test]
fn escaped_quote_stays_inside_the_string() {
    let report = run_src("print \"a\\\"b\";");
    assert_eq!(report.output, "a\\\"b");
    assert_eq!(report.diagnostics.len(), 0);
}

#[test]
fn shadowing_keeps_outer_value_intact() {
    let report = run_src("var x = 1; { var x = x + 1; print x; } print x;");
    assert_eq!(report.output, "21");
}

#[test]
fn error_in_block_does_not_leak_scope() {
    let report = run_src("var x = 1; { var x = 2; y; } print x;");
    assert_eq!(report.output, "1");
    assert_eq!(fatal_count(&report), 1);
}

#[test]
fn identifier_may_start_with_underscore() {
    let report = run_src("var _x = 1; print _x;");
    assert_eq!(report.output, "1");
    assert_eq!(report.diagnostics.len(), 0);
}

#[test]
fn empty_source_does_nothing() {
    let report = run_src("");
    assert_eq!(report.output, "");
    assert_eq!(report.diagnostics.len(), 0);
}

#[test]
fn empty_block_is_a_statement() {
    let report = run_src("{} print 1;");
    assert_eq!(report.output, "1");
    assert_eq!(report.diagnostics.len(), 0);
}

#[test]
fn unclosed_block_is_reported() {
    let report = run_src("{ print 1;");
    assert_eq!(report.output, "");
    assert_eq!(fatal_count(&report), 1);
    assert_eq!(report.diagnostics[0].msg, "expected RightBrace");
}

#[test]
fn empty_parens_need_an_expression() {
    let report = run_src("print ();");
    assert_eq!(report.output, "");
    assert_eq!(fatal_count(&report), 1);
    assert_eq!(report.diagnostics[0].msg, "expected expression");
}
