use argc::{parse_flag_param, parse_line, parse_option_param, parse_positional_param, EventData};

#[test]
fn test_parse_with_long_option_arg() {
    assert_eq!(parse_option_param("-f --foo=a <FOO> A foo option").unwrap().render().as_str(), "-f --foo=a <FOO> A foo option");
    assert_eq!(parse_option_param("--foo!").unwrap().render().as_str(), "--foo!");
    assert_eq!(parse_option_param("--foo+").unwrap().render().as_str(), "--foo+");
    assert_eq!(parse_option_param("--foo*").unwrap().render().as_str(), "--foo*");
    assert_eq!(parse_option_param("--foo!").unwrap().render().as_str(), "--foo!");
    assert_eq!(parse_option_param("--foo=a").unwrap().render().as_str(), "--foo=a");
    assert_eq!(parse_option_param("--foo=`_foo`").unwrap().render().as_str(), "--foo=`_foo`");
    assert_eq!(parse_option_param("--foo[a|b]").unwrap().render().as_str(), "--foo[a|b]");
    assert_eq!(parse_option_param("--foo[=a|b]").unwrap().render().as_str(), "--foo[=a|b]");
    assert_eq!(parse_option_param("--foo[`_foo`]").unwrap().render().as_str(), "--foo[`_foo`]");
    assert_eq!(parse_option_param("--foo![a|b]").unwrap().render().as_str(), "--foo![a|b]");
    assert_eq!(parse_option_param("--foo![`_foo`]").unwrap().render().as_str(), "--foo![`_foo`]");
    assert_eq!(parse_option_param("--foo![=a|b]").unwrap().render().as_str(), "--foo[=a|b]");
    assert_eq!(parse_option_param("--foo+[a|b]").unwrap().render().as_str(), "--foo+[a|b]");
    assert_eq!(parse_option_param("--foo+[`_foo`]").unwrap().render().as_str(), "--foo+[`_foo`]");
    assert_eq!(parse_option_param("--foo+[=a|b]").unwrap().render().as_str(), "--foo*[=a|b]");
    assert_eq!(parse_option_param("--foo*[a|b]").unwrap().render().as_str(), "--foo*[a|b]");
    assert_eq!(parse_option_param("--foo*[=a|b]").unwrap().render().as_str(), "--foo*[=a|b]");
    assert_eq!(parse_option_param("--foo*[`_foo`]").unwrap().render().as_str(), "--foo*[`_foo`]");
    assert_eq!(parse_option_param("--foo <FOO>").unwrap().render().as_str(), "--foo <FOO>");
    assert_eq!(parse_option_param("--foo-abc <FOO>").unwrap().render().as_str(), "--foo-abc <FOO>");
    assert_eq!(parse_option_param("--foo=\"a b\"").unwrap().render().as_str(), "--foo=\"a b\"");
    assert_eq!(parse_option_param("--foo[\"a|b\"|\"c]d\"]").unwrap().render().as_str(), "--foo[\"a|b\"|\"c]d\"]");
    assert_eq!(parse_option_param("--foo <abc>").unwrap().render().as_str(), "--foo <abc>");
    assert_eq!(parse_option_param("--foo <abc> <def>").unwrap().render().as_str(), "--foo <abc> <def>");
    assert_eq!(parse_option_param("--foo <>").unwrap().render().as_str(), "--foo <>");
    assert_eq!(parse_option_param("--foo <abc def>").unwrap().render().as_str(), "--foo <abc def>");
    assert_eq!(parse_option_param("--foo <<abc def>>").unwrap().render().as_str(), "--foo <<abc def>>");
}

#[test]
fn test_parse_with_long_option_arg_single_dash() {
    assert_eq!(parse_option_param("-f -foo=a <FOO> A foo option").unwrap().render().as_str(), "-f -foo=a <FOO> A foo option");
    assert_eq!(parse_option_param("-foo!").unwrap().render().as_str(), "-foo!");
    assert_eq!(parse_option_param("-foo+").unwrap().render().as_str(), "-foo+");
    assert_eq!(parse_option_param("-foo*").unwrap().render().as_str(), "-foo*");
    assert_eq!(parse_option_param("-foo!").unwrap().render().as_str(), "-foo!");
    assert_eq!(parse_option_param("-foo=a").unwrap().render().as_str(), "-foo=a");
    assert_eq!(parse_option_param("-foo=`_foo`").unwrap().render().as_str(), "-foo=`_foo`");
    assert_eq!(parse_option_param("-foo[a|b]").unwrap().render().as_str(), "-foo[a|b]");
    assert_eq!(parse_option_param("-foo[=a|b]").unwrap().render().as_str(), "-foo[=a|b]");
    assert_eq!(parse_option_param("-foo[`_foo`]").unwrap().render().as_str(), "-foo[`_foo`]");
    assert_eq!(parse_option_param("-foo![a|b]").unwrap().render().as_str(), "-foo![a|b]");
    assert_eq!(parse_option_param("-foo![`_foo`]").unwrap().render().as_str(), "-foo![`_foo`]");
    assert_eq!(parse_option_param("-foo![=a|b]").unwrap().render().as_str(), "-foo[=a|b]");
    assert_eq!(parse_option_param("-foo+[a|b]").unwrap().render().as_str(), "-foo+[a|b]");
    assert_eq!(parse_option_param("-foo+[`_foo`]").unwrap().render().as_str(), "-foo+[`_foo`]");
    assert_eq!(parse_option_param("-foo+[=a|b]").unwrap().render().as_str(), "-foo*[=a|b]");
    assert_eq!(parse_option_param("-foo*[a|b]").unwrap().render().as_str(), "-foo*[a|b]");
    assert_eq!(parse_option_param("-foo*[=a|b]").unwrap().render().as_str(), "-foo*[=a|b]");
    assert_eq!(parse_option_param("-foo*[`_foo`]").unwrap().render().as_str(), "-foo*[`_foo`]");
    assert_eq!(parse_option_param("-foo <FOO>").unwrap().render().as_str(), "-foo <FOO>");
    assert_eq!(parse_option_param("-foo-abc <FOO>").unwrap().render().as_str(), "-foo-abc <FOO>");
    assert_eq!(parse_option_param("-foo=\"a b\"").unwrap().render().as_str(), "-foo=\"a b\"");
    assert_eq!(parse_option_param("-foo[\"a|b\"|\"c]d\"]").unwrap().render().as_str(), "-foo[\"a|b\"|\"c]d\"]");
    assert_eq!(parse_option_param("-foo <abc>").unwrap().render().as_str(), "-foo <abc>");
    assert_eq!(parse_option_param("-foo <abc> <def>").unwrap().render().as_str(), "-foo <abc> <def>");
    assert_eq!(parse_option_param("-foo <>").unwrap().render().as_str(), "-foo <>");
    assert_eq!(parse_option_param("-foo <abc def>").unwrap().render().as_str(), "-foo <abc def>");
    assert_eq!(parse_option_param("-foo <<abc def>>").unwrap().render().as_str(), "-foo <<abc def>>");
}

#[test]
fn test_parse_no_long_option_arg() {
    assert_eq!(parse_option_param("-f").unwrap().render().as_str(), "-f");
    assert_eq!(parse_option_param("-f!").unwrap().render().as_str(), "-f!");
    assert_eq!(parse_option_param("-f=a").unwrap().render().as_str(), "-f=a");
    assert_eq!(parse_option_param("-f=`_foo`").unwrap().render().as_str(), "-f=`_foo`");
    assert_eq!(parse_option_param("-f[a|b]").unwrap().render().as_str(), "-f[a|b]");
    assert_eq!(parse_option_param("-f[=a|b]").unwrap().render().as_str(), "-f[=a|b]");
    assert_eq!(parse_option_param("-f[`_foo`]").unwrap().render().as_str(), "-f[`_foo`]");
    assert_eq!(parse_option_param("-f![a|b]").unwrap().render().as_str(), "-f![a|b]");
    assert_eq!(parse_option_param("-f![`_foo`]").unwrap().render().as_str(), "-f![`_foo`]");
    assert_eq!(parse_option_param("-f![=a|b]").unwrap().render().as_str(), "-f[=a|b]");
}

#[test]
fn test_parse_with_long_flag_arg() {
    assert_eq!(parse_flag_param("-f --foo A foo flag").unwrap().render().as_str(), "-f --foo A foo flag");
    assert_eq!(parse_flag_param("-. --hidden").unwrap().render().as_str(), "-. --hidden");
    assert_eq!(parse_flag_param("--http1.1").unwrap().render().as_str(), "--http1.1");
    assert_eq!(parse_flag_param("--foo A foo flag").unwrap().render().as_str(), "--foo A foo flag");
    assert_eq!(parse_flag_param("--foo").unwrap().render().as_str(), "--foo");
    assert_eq!(parse_flag_param("--foo*").unwrap().render().as_str(), "--foo*");
}

#[test]
fn test_parse_with_long_flag_arg_single_dash() {
    assert_eq!(parse_flag_param("-f -foo A foo flag").unwrap().render().as_str(), "-f -foo A foo flag");
    assert_eq!(parse_flag_param("-. -hidden").unwrap().render().as_str(), "-. -hidden");
    assert_eq!(parse_flag_param("-http1.1").unwrap().render().as_str(), "-http1.1");
    assert_eq!(parse_flag_param("-foo A foo flag").unwrap().render().as_str(), "-foo A foo flag");
    assert_eq!(parse_flag_param("-foo").unwrap().render().as_str(), "-foo");
    assert_eq!(parse_flag_param("-foo*").unwrap().render().as_str(), "-foo*");
}

#[test]
fn test_parse_no_long_flag_arg() {
    assert_eq!(parse_flag_param("-f A foo flag").unwrap().render().as_str(), "-f A foo flag");
    assert_eq!(parse_flag_param("-f").unwrap().render().as_str(), "-f");
    assert_eq!(parse_flag_param("-.").unwrap().render().as_str(), "-.");
    assert_eq!(parse_flag_param("-0").unwrap().render().as_str(), "-0");
    assert_eq!(parse_flag_param("-#").unwrap().render().as_str(), "-#");
    assert_eq!(parse_flag_param("-:").unwrap().render().as_str(), "-:");
    assert_eq!(parse_flag_param("-f*").unwrap().render().as_str(), "-f*");
}

#[test]
fn test_parse_positional_arg() {
    assert_eq!(parse_positional_param("foo <FOO> A foo arg").unwrap().render().as_str(), "foo <FOO> A foo arg");
    assert_eq!(parse_positional_param("a.b").unwrap().render().as_str(), "a.b");
    assert_eq!(parse_positional_param("foo").unwrap().render().as_str(), "foo");
    assert_eq!(parse_positional_param("foo!").unwrap().render().as_str(), "foo!");
    assert_eq!(parse_positional_param("foo+").unwrap().render().as_str(), "foo+");
    assert_eq!(parse_positional_param("foo*").unwrap().render().as_str(), "foo*");
    assert_eq!(parse_positional_param("foo <FOO>").unwrap().render().as_str(), "foo <FOO>");
    assert_eq!(parse_positional_param("foo=a").unwrap().render().as_str(), "foo=a");
    assert_eq!(parse_positional_param("foo=`_foo`").unwrap().render().as_str(), "foo=`_foo`");
    assert_eq!(parse_positional_param("foo[a|b]").unwrap().render().as_str(), "foo[a|b]");
    assert_eq!(parse_positional_param("foo[`_foo`]").unwrap().render().as_str(), "foo[`_foo`]");
    assert_eq!(parse_positional_param("foo[=a|b]").unwrap().render().as_str(), "foo[=a|b]");
    assert_eq!(parse_positional_param("foo![a|b]").unwrap().render().as_str(), "foo![a|b]");
    assert_eq!(parse_positional_param("foo![`_foo`]").unwrap().render().as_str(), "foo![`_foo`]");
    assert_eq!(parse_positional_param("foo![=a|b]").unwrap().render().as_str(), "foo[=a|b]");
    assert_eq!(parse_positional_param("foo+[a|b]").unwrap().render().as_str(), "foo+[a|b]");
    assert_eq!(parse_positional_param("foo+[`_foo`]").unwrap().render().as_str(), "foo+[`_foo`]");
    assert_eq!(parse_positional_param("foo+[=a|b]").unwrap().render().as_str(), "foo*[=a|b]");
    assert_eq!(parse_positional_param("foo*[a|b]").unwrap().render().as_str(), "foo*[a|b]");
    assert_eq!(parse_positional_param("foo*[`_foo`]").unwrap().render().as_str(), "foo*[`_foo`]");
    assert_eq!(parse_positional_param("foo*[=a|b]").unwrap().render().as_str(), "foo*[=a|b]");
}

#[test]
fn test_parse_line() {
    assert_eq!(parse_line("# @describe A demo cli"), Some(Some(EventData::Describe("A demo cli".to_string()))));
    assert_eq!(parse_line("# @version 1.0.0"), Some(Some(EventData::Version("1.0.0".to_string()))));
    assert_eq!(parse_line("# @author Somebody"), Some(Some(EventData::Author("Somebody".to_string()))));
    assert_eq!(parse_line("# @cmd A subcommand"), Some(Some(EventData::Cmd("A subcommand".to_string()))));
    assert_eq!(
        parse_line("# @alias tst"),
        Some(Some(EventData::Aliases(
            vec!["tst"].iter().map(|v| v.to_string()).collect()
        )))
    );
    assert_eq!(
        parse_line("# @alias t,tst"),
        Some(Some(EventData::Aliases(
            vec!["t", "tst"].iter().map(|v| v.to_string()).collect()
        )))
    );
    assert!(matches!(parse_line("# @flag -f --foo"), Some(Some(EventData::FlagOption(_)))));
    assert!(matches!(parse_line("# @option -f --foo"), Some(Some(EventData::FlagOption(_)))));
    assert!(matches!(parse_line("# @arg foo"), Some(Some(EventData::Positional(_)))));
    assert_eq!(parse_line("foo()"), Some(Some(EventData::Func("foo".to_string()))));
    assert_eq!(parse_line("foo ()"), Some(Some(EventData::Func("foo".to_string()))));
    assert_eq!(parse_line("foo  ()"), Some(Some(EventData::Func("foo".to_string()))));
    assert_eq!(parse_line("foo ( )"), Some(Some(EventData::Func("foo".to_string()))));
    assert_eq!(parse_line(" foo ()"), Some(Some(EventData::Func("foo".to_string()))));
    assert_eq!(parse_line("foo_bar ()"), Some(Some(EventData::Func("foo_bar".to_string()))));
    assert_eq!(parse_line("foo-bar ()"), Some(Some(EventData::Func("foo-bar".to_string()))));
    assert_eq!(parse_line("foo:bar ()"), Some(Some(EventData::Func("foo:bar".to_string()))));
    assert_eq!(parse_line("foo.bar ()"), Some(Some(EventData::Func("foo.bar".to_string()))));
    assert_eq!(parse_line("foo@bar ()"), Some(Some(EventData::Func("foo@bar".to_string()))));
    assert_eq!(parse_line("function foo"), Some(Some(EventData::Func("foo".to_string()))));
    assert_eq!(parse_line("function  foo"), Some(Some(EventData::Func("foo".to_string()))));
    assert_eq!(parse_line(" function foo"), Some(Some(EventData::Func("foo".to_string()))));
    assert_eq!(parse_line("function foo_bar"), Some(Some(EventData::Func("foo_bar".to_string()))));
    assert_eq!(parse_line("function foo-bar"), Some(Some(EventData::Func("foo-bar".to_string()))));
    assert_eq!(parse_line("function foo:bar"), Some(Some(EventData::Func("foo:bar".to_string()))));
    assert_eq!(parse_line("function foo.bar"), Some(Some(EventData::Func("foo.bar".to_string()))));
    assert_eq!(parse_line("function foo@bar"), Some(Some(EventData::Func("foo@bar".to_string()))));
    assert_eq!(parse_line("foo=bar"), None);
    assert_eq!(parse_line("#!/bin/bash"), None);
}
