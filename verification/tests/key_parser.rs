//! The key-sequence compiler, exercised from outside.

use autoclicker::actions::Actions;
use autoclicker::key_parser::{parse, serialize_actions, highlight_spans, SpanKind};
use autoclicker::key_parser::strings;

#[test]
fn test_string_parsing() {
    let data = "\"tab:\\tafter tab, newline:\\nnew line, quote: \\\", emoji: \\u{1F602}, newline:\\nescaped whitespace: \\    abc\"";
    let result = strings::parse_string(data);
    assert_eq!(
        result,
        Ok((
            "".to_string(),
            "tab:\tafter tab, newline:\nnew line, quote: \", emoji: \u{1F602}, newline:\nescaped whitespace: abc".to_string(),
        ))
    );

    assert!(strings::parse_string("\"this is another test\"").is_ok());
    assert!(strings::parse_string("\"this is another test").is_err());
    assert!(strings::parse_string("this is another test\"").is_err());
    assert!(strings::parse_string("\"this \\h is another test\"").is_err());
}

#[test]
fn test_keyword_parsing() {
    let vec = parse("Space Tab".into()).unwrap();
    assert_eq!(
        vec,
        [
            Actions::PressAndRelease("KEY_SPACE".into()),
            Actions::PressAndRelease("KEY_TAB".into()),
        ]
    );
}

#[test]
fn test_func_parsing() {
    assert!(parse("delay(1, 2)".into()).is_err());
    assert!(parse("delay(1)".into()).is_ok());
    assert!(parse("press(Space)".into()).is_ok());
    assert!(parse("not_a_func(Space)".into()).is_err());
}

#[test]
fn test_generic_parsing() {
    assert!(parse("Space Tab \"this is another test\"".into()).is_ok());
    assert!(parse("Space Tab \"this is another test".into()).is_err());
    assert!(parse("Space Tab this is another test\"".into()).is_err());

    assert!(parse("Space Tab move delay(2)".into()).is_ok());
    assert!(parse("Space Tab move dely".into()).is_err());
}

#[test]
fn test_number_parsing() {
    assert_eq!(parse("delay(234)".into()).unwrap(), [Actions::Delay(234)]);
    assert_eq!(parse("delay(-234)".into()).unwrap(), [Actions::Delay(-234)]);
    assert!(parse("a234".into()).is_err());
    assert!(parse("delay(-23a4)".into()).is_err());
}

#[test]
fn test_actions_parsing() {
    let vec = parse("Space Tab \"a\\n \\t \\\\ \\\"test\" delay(2)".into()).unwrap();
    assert_eq!(
        vec,
        [
            Actions::PressAndRelease("KEY_SPACE".into()),
            Actions::PressAndRelease("KEY_TAB".into()),
            Actions::PressAndRelease("KEY_A".into()),
            Actions::PressAndRelease("KEY_ENTER".into()),
            Actions::PressAndRelease("KEY_SPACE".into()),
            Actions::PressAndRelease("KEY_TAB".into()),
            Actions::PressAndRelease("KEY_SPACE".into()),
            Actions::PressAndRelease("KEY_BACKSLASH".into()),
            Actions::PressAndRelease("KEY_SPACE".into()),
            Actions::Press("KEY_LEFTSHIFT".into()),
            Actions::Press("KEY_APOSTROPHE".into()),
            Actions::Release("KEY_LEFTSHIFT".into()),
            Actions::Release("KEY_APOSTROPHE".into()),
            Actions::PressAndRelease("KEY_T".into()),
            Actions::PressAndRelease("KEY_E".into()),
            Actions::PressAndRelease("KEY_S".into()),
            Actions::PressAndRelease("KEY_T".into()),
            Actions::Delay(2),
        ]
    );
}

#[test]
fn two_bare_keywords() {
    let vec = parse("A B".into()).unwrap();
    assert_eq!(
        vec,
        [
            Actions::PressAndRelease("KEY_A".into()),
            Actions::PressAndRelease("KEY_B".into()),
        ]
    );
}

#[test]
fn press_call_and_arity_error() {
    assert_eq!(
        parse("press(Space)".into()).unwrap(),
        [Actions::Press("KEY_SPACE".into())]
    );
    let err = parse("press(Space,X)".into()).unwrap_err();
    assert!(err.message.contains("press is defined as: `press(key)`"));
}

#[test]
fn string_literal_with_newline_escape() {
    let vec = parse("\"a\\n\"".into()).unwrap();
    assert_eq!(
        vec,
        [
            Actions::PressAndRelease("KEY_A".into()),
            Actions::PressAndRelease("KEY_ENTER".into()),
        ]
    );
}

#[test]
fn unknown_keyword_cites_line_and_column() {
    let err = parse("Foo".into()).unwrap_err();
    assert_eq!(err.line, 1);
    assert_eq!(err.column, 1);
    assert_eq!(err.offset, 0);
    assert_eq!(err.message, "error: unknown token: Foo\nline:column 1:1\nFoo\n\n");
}

#[test]
fn diagnostics_cite_later_lines() {
    let err = parse("Space\nTab Foo".into()).unwrap_err();
    assert_eq!(err.line, 2);
    assert_eq!(err.column, 5);
    assert_eq!(err.line_text, "Tab Foo");
}

#[test]
fn release_and_unknown_key_errors() {
    assert_eq!(
        parse("release(Space)".into()).unwrap(),
        [Actions::Release("KEY_SPACE".into())]
    );
    let err = parse("press(NoSuchKey)".into()).unwrap_err();
    assert!(err.message.contains("invalid key: NoSuchKey"));
    let err = parse("delay(Space)".into()).unwrap_err();
    assert!(err.message.contains("delay is defined as: `delay(number)`"));
}

#[test]
fn call_without_parenthesis_is_hard_error() {
    let err = parse("press Space".into()).unwrap_err();
    assert!(err.message.contains("expected ("));
}

#[test]
fn out_of_range_number_is_rejected() {
    assert_eq!(
        parse("delay(9223372036854775807)".into()).unwrap(),
        [Actions::Delay(i64::MAX)]
    );
    assert_eq!(
        parse("delay(-9223372036854775808)".into()).unwrap(),
        [Actions::Delay(i64::MIN)]
    );
    assert!(parse("delay(9223372036854775808)".into()).is_err());
}

#[test]
fn underscores_separate_digits() {
    assert_eq!(parse("delay(1_000)".into()).unwrap(), [Actions::Delay(1000)]);
}

#[test]
fn empty_input_is_an_error() {
    assert!(parse("".into()).is_err());
    assert!(parse("   ".into()).is_err());
}

#[test]
fn shifted_characters_hold_shift_explicitly() {
    let vec = parse("\"!\"".into()).unwrap();
    assert_eq!(
        vec,
        [
            Actions::Press("KEY_LEFTSHIFT".into()),
            Actions::Press("KEY_1".into()),
            Actions::Release("KEY_LEFTSHIFT".into()),
            Actions::Release("KEY_1".into()),
        ]
    );
}

#[test]
fn unmapped_characters_in_strings_are_skipped() {
    let vec = parse("\"a\u{1F602}b\"".into()).unwrap();
    assert_eq!(
        vec,
        [
            Actions::PressAndRelease("KEY_A".into()),
            Actions::PressAndRelease("KEY_B".into()),
        ]
    );
}

#[test]
fn reserialized_output_parses_back() {
    let vec = parse("Space press(Tab) release(Tab) delay(-25) A".into()).unwrap();
    let text = serialize_actions(&vec).unwrap();
    assert_eq!(text, "SPACE press(TAB) release(TAB) delay(-25) A");
    let again = parse(text).unwrap();
    assert_eq!(again, vec);
}

#[test]
fn serializer_refuses_foreign_keys() {
    let bad = vec![Actions::Press("NOT_A_STORED_KEY".into())];
    assert!(serialize_actions(&bad).is_none());
}

#[test]
fn highlight_tags_recognized_tokens() {
    let spans = highlight_spans("Space \"ab\" press(Tab) junk Tab");
    assert_eq!(spans.len(), 4);
    assert_eq!((spans[0].start, spans[0].len, spans[0].kind), (0, 5, SpanKind::Key));
    assert_eq!((spans[1].start, spans[1].len, spans[1].kind), (5, 5, SpanKind::Str));
    assert_eq!((spans[2].start, spans[2].len, spans[2].kind), (10, 11, SpanKind::Call));
    // `junk` is left untagged; the final keyword's span covers the
    // whitespace run before it.
    assert_eq!((spans[3].start, spans[3].len, spans[3].kind), (26, 4, SpanKind::Key));
}

#[test]
fn highlight_never_errors() {
    assert_eq!(highlight_spans("").len(), 0);
    assert_eq!(highlight_spans("\"unclosed").len(), 0);
    let spans = highlight_spans("Tab \"unclosed");
    assert_eq!(spans.len(), 1);
}

#[test]
fn empty_argument_lists_are_arity_errors() {
    assert!(parse("press()".into()).unwrap_err().message.contains("press is defined as"));
    assert!(parse("delay()".into()).unwrap_err().message.contains("delay is defined as"));
    assert!(parse("release()".into()).unwrap_err().message.contains("release is defined as"));
}

#[test]
fn unclosed_and_bad_escapes_are_diagnosed() {
    assert!(parse("\"abc".into()).is_err());
    assert!(parse("\"ab\\q\"".into()).is_err());
    assert!(parse("\"ab\\u{}\"".into()).is_err());
    assert!(parse("\"ab\\u{110000}\"".into()).is_err());
    assert_eq!(
        parse("\"\\u{41}\"".into()).unwrap(),
        [Actions::PressAndRelease("KEY_A".into())]
    );
}

#[test]
fn line_continuations_elide_whitespace() {
    let vec = parse("\"a\\\n   b\"".into()).unwrap();
    assert_eq!(
        vec,
        [
            Actions::PressAndRelease("KEY_A".into()),
            Actions::PressAndRelease("KEY_B".into()),
        ]
    );
}
