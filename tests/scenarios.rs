use argc::{
    parse, parse_flag_param, parse_line, parse_option_param, parse_positional_param,
    take_comment_lines, Event, EventData, EventScope, ParseError,
};

fn strings(v: &[&str]) -> Vec<String> {
    v.iter().map(|s| s.to_string()).collect()
}

#[test]
fn describe_line_gives_one_event() {
    let events = parse("# @describe A demo cli").unwrap();
    assert_eq!(
        events,
        vec![Event { data: EventData::Describe("A demo cli".to_string()), position: 1 }]
    );
}

#[test]
fn cmd_takes_continuation_then_function() {
    let events = parse("# @cmd Build the project\n# more detail\nbuild () { :; }").unwrap();
    assert_eq!(
        events,
        vec![
            Event { data: EventData::Cmd("Build the project\nmore detail".to_string()), position: 1 },
            Event { data: EventData::Func("build".to_string()), position: 3 },
        ]
    );
}

#[test]
fn option_with_short_default_and_notation() {
    let p = parse_option_param("-f --foo=a <FOO> A foo option").unwrap();
    assert_eq!(p.data.name, "foo");
    assert_eq!(p.short, Some('f'));
    assert_eq!(p.dashes, "--");
    assert_eq!(p.data.default, Some("a".to_string()));
    assert_eq!(p.value_names, strings(&["FOO"]));
    assert_eq!(p.describe, "A foo option");
    assert!(!p.data.required);
    assert!(!p.data.multiple);
    assert!(!p.is_flag);
}

#[test]
fn defaulted_choices_drop_required() {
    let p = parse_option_param("--foo![=a|b]").unwrap();
    assert_eq!(p.data.choices, Some(strings(&["a", "b"])));
    assert_eq!(p.data.default, Some("a".to_string()));
    assert!(!p.data.required);
    assert!(!p.data.multiple);
    assert_eq!(p.render(), "--foo[=a|b]");
    let q = parse_positional_param("foo+[=x|y|z]").unwrap();
    assert!(!q.data.required);
    assert!(q.data.multiple);
    assert_eq!(q.data.default, Some("x".to_string()));
}

#[test]
fn positional_with_choice_generator() {
    let events = parse("# @arg foo*[`gen_foo`]").unwrap();
    assert_eq!(events.len(), 1);
    match &events[0].data {
        EventData::Positional(p) => {
            assert_eq!(p.data.name, "foo");
            assert!(p.data.multiple);
            assert!(!p.data.required);
            assert_eq!(p.data.choices_fn, Some(("gen_foo".to_string(), true)));
        }
        other => panic!("unexpected event {:?}", other),
    }
    let p = parse_positional_param("foo[?`gen_foo`]").unwrap();
    assert_eq!(p.data.choices_fn, Some(("gen_foo".to_string(), false)));
}

#[test]
fn plain_assignment_is_ignored() {
    assert_eq!(parse("foo=bar").unwrap(), vec![]);
    assert_eq!(parse_line("foo=bar"), None);
}

#[test]
fn unknown_tag_after_option() {
    let events = parse("# @option --foo\n# @bad_tag").unwrap();
    assert_eq!(events.len(), 2);
    assert!(matches!(events[0].data, EventData::FlagOption(_)));
    assert_eq!(events[0].position, 1);
    assert_eq!(events[1], Event { data: EventData::Unknown("bad_tag".to_string()), position: 2 });
}

#[test]
fn nested_notation_keeps_inner_brackets() {
    let p = parse_option_param("--foo <<a>>").unwrap();
    assert_eq!(p.value_names, strings(&["<a>"]));
    let p = parse_option_param("--foo <>").unwrap();
    assert_eq!(p.value_names, strings(&[""]));
    let p = parse_option_param("--foo <<<x>> <y>>").unwrap();
    assert_eq!(p.value_names, strings(&["<<x>> <y>"]));
}

#[test]
fn unterminated_notation_is_no_notation() {
    let p = parse_option_param("--foo <abc").unwrap();
    assert_eq!(p.value_names, Vec::<String>::new());
    assert_eq!(p.describe, "<abc");
    assert_eq!(parse_positional_param("foo<abc"), None);
}

#[test]
fn continuation_stops_at_blank_code_or_directive() {
    let events = parse("# @describe A\n# b\n\n# c").unwrap();
    assert_eq!(events, vec![Event { data: EventData::Describe("A\nb".to_string()), position: 1 }]);
    let events = parse("# @flag --foo A flag\n#  more\ncode\n# not taken").unwrap();
    match &events[0].data {
        EventData::FlagOption(p) => assert_eq!(p.describe, "A flag\n more"),
        other => panic!("unexpected event {:?}", other),
    }
    assert_eq!(events.len(), 1);
    let events = parse("# @arg foo A foo\n# @version 2").unwrap();
    assert_eq!(events.len(), 2);
    assert_eq!(events[1], Event { data: EventData::Version("2".to_string()), position: 2 });
}

#[test]
fn quoted_values_unescape_matching_quote_only() {
    let p = parse_option_param("--foo='it\\'s'").unwrap();
    assert_eq!(p.data.default, Some("it's".to_string()));
    let p = parse_option_param("--foo=\"say \\\"hi\\\"\"").unwrap();
    assert_eq!(p.data.default, Some("say \"hi\"".to_string()));
    let p = parse_option_param("--foo=\"it\\'s\"").unwrap();
    assert_eq!(p.data.default, Some("\"it\\'s\"".to_string()));
    let p = parse_option_param("--foo=''").unwrap();
    assert_eq!(p.data.default, Some("".to_string()));
    let p = parse_option_param("--foo['a|b'|c]").unwrap();
    assert_eq!(p.data.choices, Some(strings(&["a|b", "c"])));
}

#[test]
fn malformed_parameter_directive_is_an_error() {
    assert_eq!(parse("# @option"), Err(ParseError::DirectiveBodyInvalid(1)));
    assert_eq!(parse("# @describe x\n# @arg =x"), Err(ParseError::DirectiveBodyInvalid(2)));
    assert_eq!(parse_line("# @flag --"), Some(None));
}

#[test]
fn aliases_are_trimmed() {
    assert_eq!(
        parse_line("# @alias a , b,c"),
        Some(Some(EventData::Aliases(strings(&["a", "b", "c"]))))
    );
}

#[test]
fn crlf_lines_and_trailing_newline() {
    let events = parse("# @version 1.0\r\n# @author Me\r\n").unwrap();
    assert_eq!(
        events,
        vec![
            Event { data: EventData::Version("1.0".to_string()), position: 1 },
            Event { data: EventData::Author("Me".to_string()), position: 2 },
        ]
    );
    assert_eq!(parse("").unwrap(), vec![]);
}

#[test]
fn take_comment_lines_counts_and_trims() {
    let lines: Vec<Vec<char>> = ["# @cmd x", "# one", "##\ttwo", "#", "echo"]
        .iter()
        .map(|l| l.chars().collect())
        .collect();
    let mut text = "x".to_string();
    let n = take_comment_lines(&lines, 1, &mut text);
    assert_eq!(n, 3);
    assert_eq!(text, "x\none\ntwo");
    let mut empty = "  y  ".to_string();
    assert_eq!(take_comment_lines(&lines, 4, &mut empty), 0);
    assert_eq!(empty, "y");
}

#[test]
fn render_quotes_values_that_need_it() {
    let p = parse_option_param("--foo=\"a b\"").unwrap();
    assert_eq!(p.render(), "--foo=\"a b\"");
    let p = parse_option_param("--foo[\"a|b\"|\"c]d\"]").unwrap();
    assert_eq!(p.render(), "--foo[\"a|b\"|\"c]d\"]");
    let p = parse_option_param("--foo='say \"x\"'").unwrap();
    assert_eq!(p.render(), "--foo=\"say \\\"x\\\"\"");
}

#[test]
fn render_then_parse_gives_same_record() {
    for text in ["-f --foo+[=a|b] <X> <Y> some text", "-x!", "--bar=`fn`", "--baz[?`g`]"] {
        let p = parse_option_param(text).unwrap();
        let again = parse_option_param(&p.render()).unwrap();
        assert_eq!(p, again);
    }
    let f = parse_flag_param("-. --hidden*").unwrap();
    assert_eq!(parse_flag_param(&f.render()).unwrap(), f);
}

#[test]
fn function_headers() {
    assert_eq!(parse_line("function  foo"), Some(Some(EventData::Func("foo".to_string()))));
    assert_eq!(parse_line("  foo ( )"), Some(Some(EventData::Func("foo".to_string()))));
    assert_eq!(parse_line("foo (x)"), None);
}

#[test]
fn positional_render_reads_back() {
    for text in [
        "foo",
        "foo+ <FOO> more words",
        "bar=\"a b\" <X>",
        "baz=`gen`",
        "qux![?`choices`] described",
        "v='it\\'s'",
    ] {
        let p = parse_positional_param(text).unwrap();
        assert_eq!(parse_positional_param(&p.render()).unwrap(), p);
    }
    let p = parse_positional_param("bar=\"a b\" <X>").unwrap();
    assert_eq!(p.render(), "bar=\"a b\" <X>");
    let p = parse_positional_param("v='it\\'s'").unwrap();
    assert_eq!(p.render(), "v=it's");
    let p = parse_positional_param("w='#x'").unwrap();
    assert_eq!(p.render(), "w=\"#x\"");
}

#[test]
fn scope_starts_at_root() {
    assert_eq!(EventScope::default(), EventScope::Root);
}

#[test]
fn choices_render_and_read_back() {
    let p = parse_option_param("-f --foo+[=a|b] <X> choice").unwrap();
    assert_eq!(p.render(), "-f --foo*[=a|b] <X> choice");
    assert_eq!(parse_option_param(&p.render()).unwrap(), p);
    let p = parse_positional_param("foo['?x'|'=y'|z]").unwrap();
    assert_eq!(p.data.choices, Some(strings(&["?x", "=y", "z"])));
    assert_eq!(p.render(), "foo[\"?x\"|\"=y\"|z]");
    assert_eq!(parse_positional_param(&p.render()).unwrap(), p);
}

#[test]
fn empty_choice_list_is_malformed() {
    assert_eq!(parse("# @option --foo[]"), Err(ParseError::DirectiveBodyInvalid(1)));
    assert_eq!(parse_option_param("--foo[]"), None);
    let p = parse_option_param("--foo[\"\"]").unwrap();
    assert_eq!(p.data.choices, Some(strings(&[""])));
    assert_eq!(p.render(), "--foo[\"\"]");
    assert_eq!(parse_option_param(&p.render()).unwrap(), p);
}

#[test]
fn short_option_is_never_a_dash() {
    assert_eq!(parse_option_param("--"), None);
    assert_eq!(parse("# @option --"), Err(ParseError::DirectiveBodyInvalid(1)));
    let p = parse_option_param("-f <FOO> A foo option").unwrap();
    assert_eq!(p.short, Some('f'));
    assert_eq!(p.dashes, "");
}

#[test]
fn function_names_stop_at_any_whitespace() {
    assert_eq!(parse_line("foo\u{b}()"), None);
    assert_eq!(parse_line("function foo\u{b}bar"), Some(Some(EventData::Func("foo".to_string()))));
    assert_eq!(parse_line("fo\u{a0}o ()"), None);
}

#[test]
fn values_with_backslash_render_bare() {
    let p = parse_positional_param("a='\\").unwrap();
    assert_eq!(p.data.default, Some("'\\".to_string()));
    assert_eq!(p.render(), "a='\\");
    assert_eq!(parse_positional_param(&p.render()).unwrap(), p);
    let p = parse_option_param("--a='\\").unwrap();
    assert_eq!(parse_option_param(&p.render()).unwrap(), p);
    let p = parse_option_param("--a[?x\\y|b]").unwrap();
    assert_eq!(p.render(), "--a[?x\\y|b]");
    assert_eq!(parse_option_param(&p.render()).unwrap(), p);
}

#[test]
fn take_comment_lines_past_the_end() {
    let lines: Vec<Vec<char>> = vec!["# a".chars().collect()];
    let mut text = " x ".to_string();
    assert_eq!(take_comment_lines(&lines, 5, &mut text), 0);
    assert_eq!(text, "x");
}

#[test]
fn error_message_names_the_line() {
    assert_eq!(ParseError::DirectiveBodyInvalid(12).message(), "syntax error at line 12");
    assert_eq!(ParseError::DirectiveBodyInvalid(7).position(), 7);
    let err = parse("# @describe x\n\n# @arg =x").unwrap_err();
    assert_eq!(err.message(), "syntax error at line 3");
}
