//! Scenario tests for the interpreter: stack shapes, directions, macros,
//! the counted loop, and error reporting.

use esianolop::errors::{ErrorKind, Frame};
use esianolop::instruction::{ArithErr, EsianolopInstruction};
use esianolop::interp::Esianolop;

fn run(text: &str) -> Esianolop {
    let mut e = Esianolop::new();
    e.parse_text(text).expect("run should succeed");
    e
}

fn fail(text: &str) -> esianolop::errors::RunError {
    let mut e = Esianolop::new();
    e.parse_text(text).expect_err("run should fail")
}

fn num(v: usize) -> EsianolopInstruction {
    EsianolopInstruction::Num(v)
}

fn add(l: EsianolopInstruction, r: EsianolopInstruction) -> EsianolopInstruction {
    EsianolopInstruction::Add(Box::new(l), Box::new(r))
}

#[test]
fn add_front_combines_first_two() {
    let e = run("1 2 add");
    assert_eq!(e.values, vec![add(num(1), num(2))]);
    assert_eq!(e.get_result(), vec![Ok(3)]);
}

#[test]
fn add_front_symbol_alias() {
    let e = run("1 2 +");
    assert_eq!(e.values, vec![add(num(1), num(2))]);
}

#[test]
fn add_back_combines_last_two() {
    let e = run("1 2 3 >add");
    assert_eq!(e.values, vec![num(1), add(num(2), num(3))]);
    assert_eq!(e.get_result(), vec![Ok(1), Ok(5)]);
}

#[test]
fn dup_front_prepends_snapshot() {
    let e = run("1 2 3 ~");
    assert_eq!(
        e.values,
        vec![EsianolopInstruction::Dup(1), num(1), num(2), num(3)]
    );
}

#[test]
fn dup_back_appends_snapshot() {
    let e = run("1 2 3 >~");
    assert_eq!(
        e.values,
        vec![num(1), num(2), num(3), EsianolopInstruction::Dup(3)]
    );
}

#[test]
fn dpl_prepends_front_value() {
    let e = run("1 2 3 <");
    assert_eq!(
        e.values,
        vec![EsianolopInstruction::Dup(1), num(1), num(2), num(3)]
    );
}

#[test]
fn bare_dpr_reads_front_appends_back() {
    // An unprefixed token keeps the default front direction, so a lone
    // `>` reads the front node and appends its snapshot at the back.
    let e = run("1 2 3 >");
    assert_eq!(
        e.values,
        vec![num(1), num(2), num(3), EsianolopInstruction::Dup(1)]
    );
}

#[test]
fn dpl_from_back_duplicates_back_to_front() {
    let e = run("1 2 3 ><");
    assert_eq!(
        e.values,
        vec![EsianolopInstruction::Dup(3), num(1), num(2), num(3)]
    );
}

#[test]
fn dpr_from_front_duplicates_front_to_back() {
    let e = run("1 2 3 <>");
    assert_eq!(
        e.values,
        vec![num(1), num(2), num(3), EsianolopInstruction::Dup(1)]
    );
}

#[test]
fn dup_word_follows_the_direction() {
    let e = run("1 2 3 dup");
    assert_eq!(
        e.values,
        vec![EsianolopInstruction::Dup(1), num(1), num(2), num(3)]
    );
    let e2 = run("1 2 3 >dup");
    assert_eq!(
        e2.values,
        vec![num(1), num(2), num(3), EsianolopInstruction::Dup(3)]
    );
}

#[test]
fn dpl_and_dpr_words_have_fixed_destinations() {
    let e = run("1 2 3 dpl");
    assert_eq!(
        e.values,
        vec![EsianolopInstruction::Dup(1), num(1), num(2), num(3)]
    );
    let e2 = run("1 2 3 >dpr");
    assert_eq!(
        e2.values,
        vec![num(1), num(2), num(3), EsianolopInstruction::Dup(3)]
    );
    let e3 = run("1 2 3 dpr");
    assert_eq!(
        e3.values,
        vec![num(1), num(2), num(3), EsianolopInstruction::Dup(1)]
    );
}

#[test]
fn dup_evaluates_eagerly_snapshot_is_fixed() {
    // The duplicated value is a snapshot: deleting the source later must
    // not change it.
    let mut e = run("2 3 add ~ >del");
    assert_eq!(e.values, vec![EsianolopInstruction::Dup(5)]);
    e.parse_text("9 >del").expect("ok");
    assert_eq!(e.get_result(), vec![Ok(5)]);
}

#[test]
fn get_result_has_one_entry_per_node() {
    let e = run("1 2 3 4");
    assert_eq!(e.values.len(), 4);
    assert_eq!(e.get_result().len(), 4);
    let e2 = run("");
    assert_eq!(e2.get_result().len(), 0);
}

#[test]
fn sub_below_zero_fails_at_evaluation() {
    let e = run("5 8 sub");
    assert_eq!(e.get_result(), vec![Err(ArithErr::SubUnderflow)]);
}

#[test]
fn div_by_zero_fails_at_evaluation() {
    let e = run("4 0 div");
    assert_eq!(e.get_result(), vec![Err(ArithErr::DivByZero)]);
}

#[test]
fn function_defined_and_invoked() {
    let e = run("test:1 2 add: test");
    assert_eq!(e.values, vec![add(num(1), num(2))]);
    assert_eq!(e.get_result(), vec![Ok(3)]);
}

#[test]
fn function_redefinition_is_refused() {
    let err = fail("test:1 2 add: test:9:");
    assert_eq!(err.kind, ErrorKind::DefinitionDuplicate);
    assert_eq!(err.line, 1);
    assert_eq!(err.token, 4);
}

#[test]
fn for_back_count_repeats_body() {
    let e = run("90 5 for:2 add:");
    let r = e.get_result();
    assert_eq!(r, vec![Ok(100)]);
}

#[test]
fn for_front_count_repeats_body() {
    let e = run("90 5 <for:2 add:");
    let r = e.get_result();
    assert_eq!(r, vec![Ok(185)]);
}

#[test]
fn for_zero_count_is_a_no_op() {
    let e = run("7 0 for:2 add:");
    assert_eq!(e.get_result(), vec![Ok(7)]);
}

#[test]
fn prepend_then_back_delete() {
    let e = run("2 3 <1 >del");
    assert_eq!(e.values, vec![num(1), num(2)]);
}

#[test]
fn literal_defaults_to_back_insertion() {
    let e = run("2 3 <1");
    assert_eq!(e.values, vec![num(1), num(2), num(3)]);
}

#[test]
fn plus_prefixed_literal_is_a_number() {
    let e = run("+5");
    assert_eq!(e.values, vec![num(5)]);
}

#[test]
fn sqr_front_wraps_front_node() {
    let e = run("4 9 sqr");
    assert_eq!(
        e.values,
        vec![EsianolopInstruction::Sqr(Box::new(num(4))), num(9)]
    );
    assert_eq!(e.get_result(), vec![Ok(2), Ok(9)]);
}

#[test]
fn sqr_back_replaces_back_node_in_place() {
    let e = run("4 9 >sqr");
    assert_eq!(
        e.values,
        vec![num(4), EsianolopInstruction::Sqr(Box::new(num(9)))]
    );
    assert_eq!(e.get_result(), vec![Ok(4), Ok(3)]);
}

#[test]
fn sqrt_rounds_down() {
    let e = run("10 sqr");
    assert_eq!(e.get_result(), vec![Ok(3)]);
}

#[test]
fn pow_computes_checked_power() {
    let e = run("2 10 pow");
    assert_eq!(e.get_result(), vec![Ok(1024)]);
}

#[test]
fn pow_overflow_surfaces_in_results() {
    let e = run("2 99 pow");
    assert_eq!(e.get_result(), vec![Err(ArithErr::PowOverflow)]);
}

#[test]
fn mul_and_div_work() {
    let e = run("6 7 mul 2 >div");
    // mul at the front: [Mul(6,7)]; push 2; div at the back: Div(Mul(6,7), 2).
    assert_eq!(e.get_result(), vec![Ok(21)]);
}

#[test]
fn nested_combinators_build_in_order() {
    let e = run("1 2 3 pow add");
    // pow at the front gives [Pow(1,2), 3]; add combines to Add(Pow(1,2), 3).
    assert_eq!(e.get_result(), vec![Ok(4)]);
    let e2 = run("1 2 3 >pow add");
    // pow at the back gives [1, Pow(2,3)]; add combines to Add(1, Pow(2,3)).
    assert_eq!(e2.get_result(), vec![Ok(9)]);
}

#[test]
fn comments_cut_the_rest_of_the_line() {
    let e = run("1 2 ; add ignored");
    assert_eq!(e.values, vec![num(1), num(2)]);
    let e2 = run("1 2 # add ignored");
    assert_eq!(e2.values, vec![num(1), num(2)]);
    // The comment region is cut before tokenization, so the marker may
    // touch the last token.
    let e3 = run("1 2 add;still a comment");
    assert_eq!(e3.values, vec![add(num(1), num(2))]);
}

#[test]
fn earliest_comment_marker_wins() {
    let e = run("1 #;\n2 ;#");
    assert_eq!(e.values, vec![num(1), num(2)]);
}

#[test]
fn instructions_and_names_are_case_insensitive() {
    let e = run("1 2 ADD");
    assert_eq!(e.values, vec![add(num(1), num(2))]);
    let e2 = run("TeSt:7: tEsT");
    assert_eq!(e2.values, vec![num(7)]);
}

#[test]
fn lines_run_in_order() {
    let e = run("1\n2 add");
    assert_eq!(e.values, vec![add(num(1), num(2))]);
}

#[test]
fn chained_definitions_in_one_token() {
    let e = run("t:7:u:+:o:2: t o u");
    assert_eq!(e.get_result(), vec![Ok(9)]);
}

#[test]
fn functions_bind_late() {
    let e = run("g:h: h:5: g");
    assert_eq!(e.values, vec![num(5)]);
}

#[test]
fn unknown_token_is_a_parse_error() {
    let err = fail("xyz");
    assert_eq!(err.kind, ErrorKind::ParseError);
    assert_eq!(err.line, 1);
    assert_eq!(err.token, 1);
    assert!(err.context.is_empty());
}

#[test]
fn oversized_literal_is_a_parse_error() {
    let err = fail("99999999999999999999999999");
    assert_eq!(err.kind, ErrorKind::ParseError);
}

#[test]
fn binary_op_needs_two_nodes() {
    let err = fail("1 add");
    assert_eq!(err.kind, ErrorKind::StackUnderflow);
    assert_eq!(err.token, 2);
}

#[test]
fn duplicate_needs_a_node() {
    let err = fail("~");
    assert_eq!(err.kind, ErrorKind::StackUnderflow);
}

#[test]
fn delete_needs_a_node() {
    let err = fail("del");
    assert_eq!(err.kind, ErrorKind::StackUnderflow);
}

#[test]
fn sqr_needs_a_node() {
    let err = fail("sqr");
    assert_eq!(err.kind, ErrorKind::StackUnderflow);
}

#[test]
fn for_needs_a_count_on_the_stack() {
    let err = fail("for:1:");
    assert_eq!(err.kind, ErrorKind::StackUnderflow);
}

#[test]
fn empty_definition_name_is_refused() {
    let err = fail("1 :body:");
    assert_eq!(err.kind, ErrorKind::DefinitionEmpty);
    assert_eq!(err.token, 2);
}

#[test]
fn empty_definition_body_is_refused() {
    let err = fail("f::");
    assert_eq!(err.kind, ErrorKind::DefinitionEmpty);
}

#[test]
fn lone_unterminated_definition_is_refused() {
    let err = fail("f:x");
    assert_eq!(err.kind, ErrorKind::DefinitionUnterminated);
}

#[test]
fn unterminated_body_runs_to_end_of_line() {
    let e = run("f:1 2\nf");
    assert_eq!(e.values, vec![num(1), num(2)]);
}

#[test]
fn duplicating_a_failing_tree_reports_arithmetic() {
    let err = fail("5 8 sub ~");
    assert_eq!(err.kind, ErrorKind::Arithmetic(ArithErr::SubUnderflow));
    assert_eq!(err.token, 4);
}

#[test]
fn failing_for_count_reports_arithmetic() {
    let err = fail("4 0 div for:1:");
    assert_eq!(err.kind, ErrorKind::Arithmetic(ArithErr::DivByZero));
}

#[test]
fn error_position_is_one_based_line_and_token() {
    let err = fail("1 2\n3 xyz");
    assert_eq!(err.line, 2);
    assert_eq!(err.token, 2);
    assert_eq!(err.kind, ErrorKind::ParseError);
}

#[test]
fn failure_inside_function_records_the_call() {
    let err = fail("f:xyz: 1 f");
    assert_eq!(err.kind, ErrorKind::ParseError);
    assert_eq!(err.line, 1);
    assert_eq!(err.token, 1);
    assert_eq!(
        err.context,
        vec![Frame::InFunction { line: 1, token: 3, name: b"f".to_vec() }]
    );
}

#[test]
fn failure_inside_for_records_the_loop() {
    let err = fail("0 1 for:div:");
    assert_eq!(err.kind, ErrorKind::StackUnderflow);
    assert_eq!(err.context, vec![Frame::InForLoop { line: 1, token: 3 }]);
}

#[test]
fn nested_failure_records_the_whole_trail() {
    let err = fail("g:xyz: f:g: f");
    assert_eq!(err.kind, ErrorKind::ParseError);
    assert_eq!(
        err.context,
        vec![
            Frame::InFunction { line: 1, token: 1, name: b"g".to_vec() },
            Frame::InFunction { line: 1, token: 3, name: b"f".to_vec() },
        ]
    );
}

#[test]
fn self_recursion_hits_the_depth_limit() {
    let err = fail("f:f: f");
    assert_eq!(err.kind, ErrorKind::RecursionLimit);
}

#[test]
fn partial_mutations_stay_after_a_failure() {
    let mut e = Esianolop::new();
    let err = e.parse_text("1 2 xyz").expect_err("should fail");
    assert_eq!(err.kind, ErrorKind::ParseError);
    assert_eq!(e.values, vec![num(1), num(2)]);
}

#[test]
fn clear_drops_stack_and_functions() {
    let mut e = run("f:1: f");
    e.clear();
    assert!(e.values.is_empty());
    let err = e.parse_text("f").expect_err("function should be gone");
    assert_eq!(err.kind, ErrorKind::ParseError);
}

#[test]
fn reset_stack_keeps_functions() {
    let mut e = run("f:1: f");
    e.reset_stack();
    assert!(e.values.is_empty());
    e.parse_text("f").expect("function should survive");
    assert_eq!(e.values, vec![num(1)]);
}

#[test]
fn functions_persist_across_parse_text_calls() {
    let mut e = Esianolop::new();
    e.parse_text("plus:+:").expect("ok");
    e.parse_text("3 4 plus").expect("ok");
    assert_eq!(e.get_result(), vec![Ok(7)]);
}

#[test]
fn whitespace_variants_split_tokens() {
    let e = run("1\t2\r\n3");
    assert_eq!(e.values, vec![num(1), num(2), num(3)]);
}

#[test]
fn stored_function_name_with_digits_loses_to_literal() {
    // A literal wins over a stored function of the same spelling.
    let mut e = Esianolop::new();
    e.parse_text("5:1 2 add:").expect("ok");
    e.parse_text("5").expect("ok");
    assert_eq!(e.values, vec![num(5)]);
}

#[test]
fn definition_body_resumes_after_terminator() {
    let e = run("f:1 2: 9");
    assert_eq!(e.values, vec![num(9)]);
    let e2 = run("f:1 2:8 9");
    assert_eq!(e2.values, vec![num(8), num(9)]);
}
