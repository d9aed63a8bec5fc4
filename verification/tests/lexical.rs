use marcup::lexical::{
    beginning_of_line, blank_line, chars_of, count_trailing_whitespace, end_of_line_or_input,
    span_as_string, trim_trailing_whitespace, trim_whitespace,
};
use marcup::span::full_span;

#[test]
fn count_trailing_whitespace_should_return_zero_if_no_spaces_or_tabs_at_end() {
    let chars = chars_of("abc");
    let input = full_span(&chars);
    let cnt = count_trailing_whitespace(&chars, input);
    assert_eq!(span_as_string(&chars, input), "abc");
    assert_eq!(cnt, 0);
}

#[test]
fn count_trailing_whitespace_should_return_total_spaces_at_end() {
    let chars = chars_of("abc   ");
    let input = full_span(&chars);
    let cnt = count_trailing_whitespace(&chars, input);
    assert_eq!(span_as_string(&chars, input), "abc   ");
    assert_eq!(cnt, 3);
}

#[test]
fn count_trailing_whitespace_should_return_total_tabs_at_end() {
    let chars = chars_of("abc\t\t\t");
    let input = full_span(&chars);
    let cnt = count_trailing_whitespace(&chars, input);
    assert_eq!(span_as_string(&chars, input), "abc\t\t\t");
    assert_eq!(cnt, 3);
}

#[test]
fn count_trailing_whitespace_should_return_total_spaces_and_tabs_at_end() {
    let chars = chars_of("abc \t ");
    let input = full_span(&chars);
    let cnt = count_trailing_whitespace(&chars, input);
    assert_eq!(span_as_string(&chars, input), "abc \t ");
    assert_eq!(cnt, 3);
}

#[test]
fn trim_trailing_whitespace_should_return_input_if_no_trailing_whitespace() {
    let chars = chars_of(" abc");
    let input = full_span(&chars);
    let trimmed = trim_trailing_whitespace(&chars, input);
    assert_eq!(span_as_string(&chars, trimmed), " abc");
}

#[test]
fn trim_trailing_whitespace_should_return_input_with_trailing_whitespace_removed() {
    let chars = chars_of(" abc \t ");
    let input = full_span(&chars);
    let trimmed = trim_trailing_whitespace(&chars, input);
    assert_eq!(span_as_string(&chars, trimmed), " abc");
}

#[test]
fn trim_whitespace_should_return_input_with_leading_whitespace_removed() {
    let chars = chars_of("\t \tabc");
    let input = full_span(&chars);
    let trimmed = trim_whitespace(&chars, input);
    assert_eq!(span_as_string(&chars, trimmed), "abc");
}

#[test]
fn trim_whitespace_should_return_input_with_trailing_whitespace_removed() {
    let chars = chars_of("abc\t \t");
    let input = full_span(&chars);
    let trimmed = trim_whitespace(&chars, input);
    assert_eq!(span_as_string(&chars, trimmed), "abc");
}

#[test]
fn trim_whitespace_should_return_input_with_leading_and_trailing_whitespace_removed() {
    let chars = chars_of("\t \tabc \t ");
    let input = full_span(&chars);
    let trimmed = trim_whitespace(&chars, input);
    assert_eq!(span_as_string(&chars, trimmed), "abc");
}

#[test]
fn beginning_of_line_should_succeed_only_at_column_one() {
    let chars = chars_of("ab");
    let input = full_span(&chars);
    let at_start = beginning_of_line(input).expect("start of input is a line start");
    assert_eq!(at_start, input);

    let advanced = input.advance(&chars);
    assert!(beginning_of_line(advanced).is_err());
}

#[test]
fn end_of_line_or_input_should_consume_a_terminator_or_nothing_at_the_end() {
    let chars = chars_of("a\nb");
    let input = full_span(&chars);
    assert!(end_of_line_or_input(&chars, input).is_err());

    let at_newline = input.advance(&chars);
    let past = end_of_line_or_input(&chars, at_newline).expect("a terminator is consumed");
    assert_eq!(past.start_offset(), 2);
    assert_eq!(past.line(), 2);
    assert_eq!(past.column(), 1);

    let at_end = past.advance(&chars);
    let still = end_of_line_or_input(&chars, at_end).expect("the end of input is accepted");
    assert_eq!(still.start_offset(), 3);
}

#[test]
fn blank_line_should_consume_a_whitespace_only_line_through_its_terminator() {
    let chars = chars_of("  \t\nx");
    let input = full_span(&chars);
    let past = blank_line(&chars, input).expect("an all-whitespace line is blank");
    assert_eq!(past.start_offset(), 4);
    assert_eq!(past.line(), 2);

    let chars2 = chars_of(" a\n");
    let input2 = full_span(&chars2);
    assert!(blank_line(&chars2, input2).is_err());
}
