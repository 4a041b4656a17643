use cxterminfo::param_string::{evaluate, EvalError, Param, Variables};

fn run(template: &str, args: &[Param]) -> String {
    evaluate(template, args).unwrap()
}

#[test]
fn decimal_of_first_parameter() {
    assert_eq!(run("%p1%d", &[Param::Number(42)]), "42");
}

#[test]
fn sum_takes_left_then_right() {
    assert_eq!(run("%p1%p2%+%d", &[Param::Number(2), Param::Number(3)]), "5");
}

#[test]
fn difference_takes_left_then_right() {
    assert_eq!(run("%p1%p2%-%d", &[Param::Number(2), Param::Number(3)]), "-1");
}

#[test]
fn conditional_true_keeps_then_branch() {
    assert_eq!(run("%?%p1%t1%e0%;", &[Param::Bool(true)]), "1");
}

#[test]
fn conditional_false_keeps_else_branch() {
    assert_eq!(run("%?%p1%t1%e0%;", &[Param::Bool(false)]), "0");
}

#[test]
fn literal_as_character() {
    assert_eq!(run("%{65}%c", &[]), "A");
}

#[test]
fn length_of_text() {
    assert_eq!(run("%p1%l%d", &[Param::Word("hi".to_string())]), "2");
}

#[test]
fn truncated_parameter_directive_is_invalid() {
    assert_eq!(evaluate("%p", &[Param::Number(1)]), Err(EvalError::Invalid(2)));
}

#[test]
fn registers_start_at_zero_in_every_call() {
    assert_eq!(run("%p1%PA%gA%d", &[Param::Number(7)]), "7");
    assert_eq!(run("%gA%d", &[]), "0");
    assert_eq!(run("%p1%Pa%ga%d", &[Param::Number(9)]), "9");
    assert_eq!(run("%ga%d", &[]), "0");
}

#[test]
fn static_and_dynamic_banks_are_apart() {
    let args = [Param::Number(1), Param::Number(2)];
    assert_eq!(run("%p1%PA%p2%Pa%gA%d%ga%d", &args), "12");
    assert_eq!(run("%p1%PZ%p2%Pz%gz%d%gZ%d", &args), "21");
}

#[test]
fn literal_text_is_copied() {
    assert_eq!(run("\u{1b}[0m", &[]), "\u{1b}[0m");
    assert_eq!(run("", &[]), "");
    assert_eq!(run("100%%", &[]), "100%");
}

#[test]
fn cursor_address_template() {
    let args = [Param::Number(4), Param::Number(9)];
    assert_eq!(run("\u{1b}[%i%p1%d;%p2%dH", &args), "\u{1b}[4;9H");
}

#[test]
fn zero_is_written_as_character_128() {
    assert_eq!(run("%{0}%c", &[]), "\u{80}");
    assert_eq!(run("%{256}%c", &[]), "\u{0}");
    assert_eq!(run("%{321}%c", &[]), "A");
    assert_eq!(run("%p1%c", &[Param::Number(-1)]), "\u{ff}");
    assert_eq!(run("%p1%cx", &[Param::Bool(true)]), "\u{0}x");
}

#[test]
fn string_directive_writes_text_only() {
    assert_eq!(run("<%p1%s>", &[Param::Word("ab".to_string())]), "<ab>");
    assert_eq!(run("<%p1%s>", &[Param::Number(5)]), "<>");
}

#[test]
fn booleans_count_as_one_and_zero() {
    assert_eq!(run("%p1%d%p2%d", &[Param::Bool(true), Param::Bool(false)]), "10");
    assert_eq!(run("%p1%d", &[Param::Word("x".to_string())]), "0");
}

#[test]
fn directives_on_an_empty_stack_do_nothing() {
    assert_eq!(run("a%db%sc%cd%le%!f%~g%+h", &[]), "abcdefgh");
    assert_eq!(run("%5dz", &[]), "z");
}

#[test]
fn binary_operator_with_one_operand_drops_it() {
    assert_eq!(run("%{5}%+%dx", &[]), "x");
}

#[test]
fn quoted_character_pushes_its_code() {
    assert_eq!(run("%'A'%d", &[]), "65");
    assert_eq!(run("%'''%d", &[]), "39");
}

#[test]
fn malformed_quote_is_invalid() {
    assert_eq!(evaluate("%'", &[]), Err(EvalError::Invalid(2)));
    assert_eq!(evaluate("%'A", &[]), Err(EvalError::Invalid(3)));
    assert_eq!(evaluate("%'AB", &[]), Err(EvalError::Invalid(3)));
}

#[test]
fn malformed_literal_is_invalid() {
    assert_eq!(evaluate("%{12", &[]), Err(EvalError::Invalid(4)));
    assert_eq!(evaluate("%{1x}", &[]), Err(EvalError::Invalid(3)));
    assert_eq!(run("%{}%d", &[]), "0");
}

#[test]
fn literal_wraps_around() {
    assert_eq!(run("%{4294967295}%d", &[]), "-1");
    assert_eq!(run("%{4294967296}%d", &[]), "0");
    assert_eq!(run("%{2147483648}%d", &[]), "-2147483648");
}

#[test]
fn parameter_must_be_one_to_nine_and_given() {
    assert_eq!(evaluate("%p0", &[Param::Number(1)]), Err(EvalError::Invalid(2)));
    assert_eq!(evaluate("%px", &[Param::Number(1)]), Err(EvalError::Invalid(2)));
    assert_eq!(evaluate("ab%p2", &[Param::Number(1)]), Err(EvalError::Invalid(4)));
    let nine: Vec<Param> = (1..=9).map(Param::Number).collect();
    assert_eq!(run("%p9%d%p1%d", &nine), "91");
}

#[test]
fn percent_at_the_end_is_invalid() {
    assert_eq!(evaluate("abc%", &[]), Err(EvalError::Invalid(4)));
}

#[test]
fn register_letter_is_required() {
    assert_eq!(evaluate("%g", &[]), Err(EvalError::Invalid(2)));
    assert_eq!(evaluate("%g1", &[]), Err(EvalError::Invalid(2)));
    assert_eq!(evaluate("%P", &[]), Err(EvalError::Invalid(2)));
}

#[test]
fn store_needs_an_operand() {
    assert_eq!(evaluate("%PA", &[]), Err(EvalError::StackEmpty(2)));
}

#[test]
fn condition_needs_an_operand() {
    assert_eq!(evaluate("ab%t", &[]), Err(EvalError::StackEmpty(3)));
}

#[test]
fn arithmetic_and_bits() {
    assert_eq!(run("%{6}%{7}%*%d", &[]), "42");
    assert_eq!(run("%{7}%{2}%/%d", &[]), "3");
    assert_eq!(run("%{7}%{2}%m%d", &[]), "1");
    assert_eq!(run("%{6}%{3}%^%d", &[]), "5");
    assert_eq!(run("%{6}%{3}%&%d", &[]), "2");
    assert_eq!(run("%{6}%{3}%|%d", &[]), "7");
    assert_eq!(run("%{5}%~%d", &[]), "-6");
    assert_eq!(run("%{5}%!%d%{0}%!%d", &[]), "01");
}

#[test]
fn division_rounds_towards_zero() {
    let args = [Param::Number(-7), Param::Number(2)];
    assert_eq!(run("%p1%p2%/%d", &args), "-3");
    assert_eq!(run("%p1%p2%m%d", &args), "-1");
    let args = [Param::Number(7), Param::Number(-2)];
    assert_eq!(run("%p1%p2%/%d", &args), "-3");
    assert_eq!(run("%p1%p2%m%d", &args), "1");
    let args = [Param::Number(-7), Param::Number(-2)];
    assert_eq!(run("%p1%p2%/%d", &args), "3");
    assert_eq!(run("%p1%p2%m%d", &args), "-1");
}

#[test]
fn division_without_result_is_invalid() {
    assert_eq!(evaluate("%{7}%{0}%/%d", &[]), Err(EvalError::Invalid(9)));
    assert_eq!(evaluate("%{7}%{0}%m%d", &[]), Err(EvalError::Invalid(9)));
    let args = [Param::Number(i32::MIN), Param::Number(-1)];
    assert_eq!(evaluate("%p1%p2%/", &args), Err(EvalError::Invalid(7)));
    assert_eq!(evaluate("%p1%p2%m", &args), Err(EvalError::Invalid(7)));
}

#[test]
fn sums_and_products_wrap_around() {
    let args = [Param::Number(i32::MAX), Param::Number(1)];
    assert_eq!(run("%p1%p2%+%d", &args), "-2147483648");
    let args = [Param::Number(i32::MIN), Param::Number(1)];
    assert_eq!(run("%p1%p2%-%d", &args), "2147483647");
    let args = [Param::Number(65536), Param::Number(65537)];
    assert_eq!(run("%p1%p2%*%d", &args), "65536");
}

#[test]
fn comparisons_and_logic() {
    assert_eq!(run("%{1}%{2}%<%d%{1}%{2}%>%d%{2}%{2}%=%d", &[]), "101");
    assert_eq!(run("%{1}%{0}%A%d%{1}%{0}%O%d%{0}%{0}%O%d%{3}%{4}%A%d", &[]), "0101");
}

#[test]
fn conditional_without_else() {
    assert_eq!(run("%?%p1%tyes%;", &[Param::Number(1)]), "yes");
    assert_eq!(run("%?%p1%tyes%;", &[Param::Number(0)]), "");
}

#[test]
fn frame_that_saw_if_ends_with_its_conditional() {
    assert_eq!(run("a%?%p1%tb%ec%;d", &[Param::Number(1)]), "ab");
    assert_eq!(run("a%?%p1%tb%ec%;d", &[Param::Number(0)]), "ac");
}

#[test]
fn frame_without_if_goes_on_behind_the_conditional() {
    assert_eq!(run("a%p1%tb%ec%;d", &[Param::Number(1)]), "abd");
    assert_eq!(run("a%p1%tb%ec%;d", &[Param::Number(0)]), "acd");
}

#[test]
fn else_if_chain() {
    let t = "%?%p1%tA%e%?%p2%tB%eC%;%;";
    assert_eq!(run(t, &[Param::Number(1), Param::Number(1)]), "A");
    assert_eq!(run(t, &[Param::Number(1), Param::Number(0)]), "A");
    assert_eq!(run(t, &[Param::Number(0), Param::Number(1)]), "B");
    assert_eq!(run(t, &[Param::Number(0), Param::Number(0)]), "C");
}

#[test]
fn conditional_inside_then_branch_ends_the_branch() {
    let t = "%?%p1%t%?%p2%tA%eB%;%e%?%p2%tC%eD%;%;";
    assert_eq!(run(t, &[Param::Number(1), Param::Number(1)]), "A");
    assert_eq!(run(t, &[Param::Number(1), Param::Number(0)]), "B");
    assert_eq!(run(t, &[Param::Number(0), Param::Number(1)]), "");
    assert_eq!(run(t, &[Param::Number(0), Param::Number(0)]), "");
}

#[test]
fn then_branch_must_be_terminated() {
    assert_eq!(evaluate("%p1%tyes", &[Param::Number(1)]), Err(EvalError::Invalid(8)));
    assert_eq!(evaluate("%p1%tyes", &[Param::Number(0)]), Err(EvalError::Invalid(8)));
    assert_eq!(evaluate("%?%p1%t", &[Param::Number(1)]), Err(EvalError::Invalid(7)));
    assert_eq!(evaluate("%p1%t%p1%ta%eb", &[Param::Number(1)]), Err(EvalError::Invalid(14)));
}

#[test]
fn else_branch_may_run_into_the_end() {
    assert_eq!(run("%p1%tyes%eno", &[Param::Number(0)]), "no");
    assert_eq!(run("%p1%tyes%eno", &[Param::Number(1)]), "yes");
    assert_eq!(run("%?%p1%tyes%e", &[Param::Number(1)]), "yes");
}

#[test]
fn second_else_is_invalid() {
    assert_eq!(evaluate("%p1%ta%eb%ec", &[Param::Number(1)]), Err(EvalError::Invalid(10)));
}

#[test]
fn terminator_ends_the_template() {
    assert_eq!(run("ab%;cd", &[]), "ab");
    assert_eq!(run("ab%ecd", &[]), "ab");
}

#[test]
fn unknown_directive_is_skipped() {
    assert_eq!(run("a%ib%.c", &[]), "abc");
}

#[test]
fn format_width_and_zero_flag() {
    assert_eq!(run("%p1%5d|", &[Param::Number(42)]), "   42|");
    assert_eq!(run("%p1%05d|", &[Param::Number(42)]), "00042|");
    assert_eq!(run("%p1%05d|", &[Param::Number(-42)]), "-0042|");
    assert_eq!(run("%p1%5d|", &[Param::Number(-42)]), "  -42|");
    assert_eq!(run("%p1%1d|", &[Param::Number(12345)]), "12345|");
    assert_eq!(run("%p1%:d|", &[Param::Number(3)]), "3|");
    assert_eq!(run("%p1%2d", &[Param::Bool(true)]), " 1");
}

#[test]
fn format_precision() {
    assert_eq!(run("%p1%3.2d|", &[Param::Number(7)]), " 07|");
    assert_eq!(run("%p1%:.3d|", &[Param::Number(-7)]), "-007|");
    assert_eq!(run("%p1%:.0d|", &[Param::Number(0)]), "|");
    assert_eq!(run("%p1%06.3d|", &[Param::Number(7)]), "   007|");
    assert_eq!(run("%p1%:.2s|", &[Param::Word("abcd".to_string())]), "ab|");
    assert_eq!(run("%p1%5.2s|", &[Param::Word("abcd".to_string())]), "   ab|");
    assert_eq!(run("%p1%:.9s|", &[Param::Word("abcd".to_string())]), "abcd|");
}

#[test]
fn format_bases() {
    assert_eq!(run("%p1%x", &[Param::Number(255)]), "ff");
    assert_eq!(run("%p1%X", &[Param::Number(255)]), "FF");
    assert_eq!(run("%p1%o", &[Param::Number(8)]), "10");
    assert_eq!(run("%p1%x", &[Param::Number(-1)]), "ffffffff");
    assert_eq!(run("%p1%o", &[Param::Number(-1)]), "37777777777");
    assert_eq!(run("%p1%4x|", &[Param::Number(10)]), "   a|");
    assert_eq!(run("%p1%04X|", &[Param::Number(10)]), "000A|");
    assert_eq!(run("%p1%x", &[Param::Number(0)]), "0");
}

#[test]
fn format_text() {
    assert_eq!(run("%p1%4s|", &[Param::Word("ab".to_string())]), "  ab|");
    assert_eq!(run("%p1%04s|", &[Param::Word("ab".to_string())]), "  ab|");
    assert_eq!(run("%p1%1s|", &[Param::Word("ab".to_string())]), "ab|");
}

#[test]
fn format_without_conversion_is_invalid() {
    assert_eq!(evaluate("%p1%5", &[Param::Number(1)]), Err(EvalError::InvalidPrintf(4)));
    assert_eq!(evaluate("%p1%:5", &[Param::Number(1)]), Err(EvalError::InvalidPrintf(4)));
    assert_eq!(evaluate("%5", &[]), Err(EvalError::InvalidPrintf(1)));
}

#[test]
fn malformed_format_is_invalid() {
    assert_eq!(evaluate("%p1%5-d", &[Param::Number(1)]), Err(EvalError::InvalidPrintf(4)));
    assert_eq!(evaluate("%p1%5.2.1d", &[Param::Number(1)]), Err(EvalError::InvalidPrintf(4)));
    assert_eq!(evaluate("%p1%4294967296d", &[Param::Number(1)]), Err(EvalError::InvalidPrintf(4)));
}

#[test]
fn format_of_the_wrong_kind_is_invalid() {
    assert_eq!(evaluate("%p1%5s", &[Param::Number(1)]), Err(EvalError::InvalidPrintf(4)));
    assert_eq!(
        evaluate("%p1%5d", &[Param::Word("a".to_string())]),
        Err(EvalError::InvalidPrintf(4))
    );
    assert_eq!(
        evaluate("%p1%x", &[Param::Word("a".to_string())]),
        Err(EvalError::InvalidPrintf(4))
    );
}

#[test]
fn template_is_read_byte_by_byte() {
    assert_eq!(run("\u{e9}", &[]), "\u{c3}\u{a9}");
    assert_eq!(run("\u{e9}%'A'%d", &[]), "\u{c3}\u{a9}65");
    assert_eq!(evaluate("\u{e9}%p", &[]), Err(EvalError::Invalid(4)));
    assert_eq!(run("%p1%s", &[Param::Word("\u{e9}".to_string())]), "\u{e9}");
}

#[test]
fn length_counts_bytes() {
    assert_eq!(run("%p1%l%d", &[Param::Word("h\u{e9}\u{e9}".to_string())]), "5");
    assert_eq!(run("%p1%l%d", &[Param::Word(String::new())]), "0");
    assert_eq!(run("%p1%l%d", &[Param::Number(12345)]), "0");
}

#[test]
fn operand_coercions() {
    assert_eq!(Param::Word("ab".to_string()).as_str(), "ab");
    assert_eq!(Param::Number(3).as_str(), "");
    assert_eq!(Param::Bool(true).as_str(), "");
    assert_eq!(Param::Number(-3).as_int(), -3);
    assert_eq!(Param::Bool(true).as_int(), 1);
    assert_eq!(Param::Bool(false).as_int(), 0);
    assert_eq!(Param::Word("7".to_string()).as_int(), 0);
    assert!(Param::Number(-1).as_bool());
    assert!(!Param::Number(0).as_bool());
    assert!(Param::Bool(true).as_bool());
    assert!(!Param::Word("true".to_string()).as_bool());
    assert_eq!(Param::Number(65).as_char(), 'A');
    assert_eq!(Param::Number(0).as_char(), '\u{80}');
    assert_eq!(Param::Number(-191).as_char(), 'A');
    assert_eq!(Param::Bool(true).as_char(), '\0');
}

#[test]
fn default_operand_is_zero() {
    let p = Param::default();
    assert!(matches!(p, Param::Number(0)));
    let q = Param::Word("x".to_string()).clone();
    assert!(matches!(q, Param::Word(ref s) if s == "x"));
}

#[test]
fn new_variables_can_be_made() {
    let _ = Variables::new();
}

#[test]
fn error_messages() {
    assert_eq!(EvalError::StackEmpty(3).message(), "Stack is empty (3)");
    assert_eq!(EvalError::Invalid(0).message(), "Invalid terminfo (0)");
    assert_eq!(EvalError::InvalidPrintf(120).message(), "Invalid printf format pattern (120)");
    assert_eq!(EvalError::Invalid(17).position(), 17);
}
