use desktop_entry::Comment;
use desktop_entry::DesktopEntry;
use desktop_entry::EntryMap;
use desktop_entry::Key;
use desktop_entry::Locale;
use desktop_entry::ParseError;
use desktop_entry::Value;
use desktop_entry::is_key_char;
use desktop_entry::parse_boolean;
use desktop_entry::parse_comment;
use desktop_entry::parse_desktop_entry;
use desktop_entry::parse_desktop_entry_keeping_comments;
use desktop_entry::parse_empty_line;
use desktop_entry::parse_end_of_line;
use desktop_entry::parse_escaped_string;
use desktop_entry::parse_line;
use desktop_entry::parse_local_string;
use desktop_entry::Line;
use desktop_entry::parse_entry;
use desktop_entry::parse_group_header;
use desktop_entry::parse_key;
use desktop_entry::parse_key_locale;
use desktop_entry::parse_key_part;
use desktop_entry::parse_numeric;
use desktop_entry::parse_string;
use desktop_entry::parse_value;

fn s(text: &str) -> String {
    text.to_string()
}

#[test]
fn shoul_parse_comment() {
    assert_eq!(Ok((s("\n"), s("# Code"))), parse_comment("# Code\n"));
}

#[test]
fn shoul_parse_empty_comment() {
    assert_eq!(Ok((s(""), s("#"))), parse_comment("#"));
}

#[test]
fn shoul_parse_empty_line() {
    assert_eq!(Ok((s("\n"), None)), parse_empty_line("\n"));
}

#[test]
fn shoul_parse_empty_line_whitespace() {
    assert_eq!(Ok((s("\n"), Some(s("  ")))), parse_empty_line("  \n"));
}

#[test]
fn shoul_parse_group_header() {
    assert_eq!(Ok((s(""), s("header"))), parse_group_header("[header]"));
}

#[test]
fn shoul_parse_entry() {
    assert_eq!(
        Ok((s(""), (Key::Simple(s("Ke1")), Value::String(s("Value"))))),
        parse_entry("Ke1=Value")
    );
}

#[test]
fn shoul_parse_key() {
    assert_eq!(Ok((s(""), Key::Simple(s("Ke1")))), parse_key("Ke1"));
}

fn example_file() -> String {
    [
        "# Example file from the spec",
        "[Desktop Entry]",
        "Version=1.0",
        "Type=Application",
        "Name=Foo Viewer",
        "Comment=The best viewer for Foo objects available!",
        "TryExec=fooview",
        "Exec=fooview %F",
        "Icon=fooview",
        "MimeType=image/x-foo;",
        "Actions=Gallery;Create;",
        "",
        "[Desktop Action Gallery]",
        "Exec=fooview --gallery",
        "Name=Browse Gallery",
        "",
        "[Desktop Action Create]",
        "Exec=fooview --create-new",
        "Name=Create a new Foo!",
        "Icon=fooview-new",
    ]
    .join("\n")
}

fn map_of(pairs: Vec<(&str, Value)>) -> EntryMap {
    let mut m = EntryMap::new();
    for (k, v) in pairs {
        m.insert(Key::Simple(s(k)), v);
    }
    m
}

fn example_file_document() -> DesktopEntry {
    let mut doc = DesktopEntry::new();
    doc.push_group(
        s("Desktop Entry"),
        map_of(vec![
            ("Version", Value::Numeric(s("1.0"))),
            ("Type", Value::String(s("Application"))),
            ("Name", Value::String(s("Foo Viewer"))),
            (
                "Comment",
                Value::String(s("The best viewer for Foo objects available!")),
            ),
            ("TryExec", Value::String(s("fooview"))),
            ("Exec", Value::String(s("fooview %F"))),
            ("Icon", Value::String(s("fooview"))),
            ("MimeType", Value::String(s("image/x-foo;"))),
            ("Actions", Value::String(s("Gallery;Create;"))),
        ]),
    );
    doc.push_group(
        s("Desktop Action Gallery"),
        map_of(vec![
            ("Exec", Value::String(s("fooview --gallery"))),
            ("Name", Value::String(s("Browse Gallery"))),
        ]),
    );
    doc.push_group(
        s("Desktop Action Create"),
        map_of(vec![
            ("Exec", Value::String(s("fooview --create-new"))),
            ("Name", Value::String(s("Create a new Foo!"))),
            ("Icon", Value::String(s("fooview-new"))),
        ]),
    );
    doc
}

#[test]
fn should_parse_example_file_with_comments() {
    let text = example_file();
    let doc = parse_desktop_entry_keeping_comments(&text).unwrap();

    let mut expected = example_file_document();
    expected.push_comment(0, Comment::Comment(s("# Example file from the spec")));
    expected.push_comment(11, Comment::EmptyLine { white_space: None });
    expected.push_comment(15, Comment::EmptyLine { white_space: None });
    // the comment log is built in line order, so the push order above is
    // the parse order; positions 11 and 15 are the blank separator lines
    assert_eq!(doc.comment_count(), 3);
    assert_eq!(
        doc.comment_at(0),
        &(0usize, Comment::Comment(s("# Example file from the spec")))
    );
    assert_eq!(doc.comment_at(1), &(11usize, Comment::EmptyLine { white_space: None }));
    assert_eq!(doc.comment_at(2), &(15usize, Comment::EmptyLine { white_space: None }));
    assert_eq!(expected, doc);
}

#[test]
fn lib_should_parse_example_file_with_comments() {
    let text = example_file();
    let doc = parse_desktop_entry(&text).unwrap();

    let expected = example_file_document();
    assert_eq!(expected, doc);
    assert_eq!(doc.comment_count(), 0);
}

#[test]
fn should_parse_string() {
    assert_eq!(Ok((s(""), s("foo bar"))), parse_string("foo bar"));

    assert_eq!(Ok((s(""), s("foo 'bar'"))), parse_string("foo 'bar'"));
}

#[test]
fn should_parse_escaped_string() {
    assert_eq!(Ok((s(""), s("foo \nbar"))), parse_string("foo \\nbar"));

    assert_eq!(Ok((s(""), s("foo \t bar"))), parse_string("foo \\t\\sbar"));

    assert_eq!(Ok((s(""), s("foo;bar"))), parse_string("foo\\;bar"));
}

#[test]
fn should_parse_value() {
    assert_eq!(
        Ok((s(""), Value::String(s("foo \nbar")))),
        parse_value("foo \\nbar")
    );

    assert_eq!(Ok((s("\nas"), Value::Boolean(true))), parse_value("true\nas"));
    assert_eq!(Ok((s("\nas"), Value::Boolean(false))), parse_value("false\nas"));

    assert_eq!(Ok((s("\nas"), Value::Numeric(s("1")))), parse_value("1\nas"));
    assert_eq!(Ok((s("\nas"), Value::Numeric(s("4.20")))), parse_value("4.20\nas"));
    // the numeric literal is kept as text; it still denotes the numbers the
    // format means
    assert_eq!("1".parse::<f32>().unwrap(), 1.0f32);
    assert_eq!("4.20".parse::<f32>().unwrap(), 4.2f32);
}

#[test]
fn typed_value_precedence() {
    assert_eq!(Ok((s(""), Value::Boolean(true))), parse_value("true"));
    assert_eq!(Ok((s(""), Value::Numeric(s("1")))), parse_value("1"));
    assert_eq!(Ok((s(""), Value::Numeric(s("4.20")))), parse_value("4.20"));
    assert_eq!(Ok((s(""), Value::String(s("fooview")))), parse_value("fooview"));
}

#[test]
fn locale_key_parsing() {
    assert_eq!(
        Ok((
            s(""),
            Key::Localized {
                key: s("Name"),
                locale: Locale {
                    lang: s("en"),
                    country: Some(s("US")),
                    encoding: Some(s("UTF-8")),
                    modifier: Some(s("modifier")),
                },
            }
        )),
        parse_key("Name[en_US.UTF-8@modifier]")
    );
}

#[test]
fn locale_partial_segments() {
    assert_eq!(
        Ok((
            s(""),
            Key::Localized {
                key: s("Name"),
                locale: Locale { lang: s("en"), country: None, encoding: None, modifier: None },
            }
        )),
        parse_key("Name[en]")
    );
    // an empty bracket completes no locale: the key stays simple and the
    // bracket is left unconsumed
    assert_eq!(Ok((s("[]"), Key::Simple(s("Name")))), parse_key("Name[]"));
    assert_eq!(
        Ok((s(""), Locale { lang: s("de"), country: None, encoding: None, modifier: Some(s("euro")) })),
        parse_key_locale("de@euro")
    );
}

#[test]
fn group_header_validation() {
    assert_eq!(Ok((s(""), s("header"))), parse_group_header("[header]"));
    assert_eq!(Err(ParseError::UnterminatedHeader), parse_group_header("[unterminated"));
    assert_eq!(Err(ParseError::EmptyHeader), parse_group_header("[]"));
    assert_eq!(Err(ParseError::NoMatch), parse_group_header("header]"));
}

#[test]
fn key_part_stops_at_non_key_characters() {
    assert_eq!(Ok((s("=1"), s("Key-2"))), parse_key_part("Key-2=1"));
    assert_eq!(Err(ParseError::NoMatch), parse_key_part("=1"));
    assert!(is_key_char('-') && is_key_char('A') && is_key_char('9'));
    assert!(!is_key_char('_') && !is_key_char(' ') && !is_key_char('=')); 
}

#[test]
fn boolean_and_numeric_require_the_whole_value() {
    assert_eq!(Ok((s(""), true)), parse_boolean("true"));
    assert_eq!(Ok((s("\nx"), false)), parse_boolean("false\nx"));
    assert_eq!(Err(ParseError::NoMatch), parse_boolean("truex"));
    assert_eq!(Ok((s(""), s("-1.5e3"))), parse_numeric("-1.5e3"));
    assert_eq!(Err(ParseError::NoMatch), parse_numeric("1.5.3"));
}

#[test]
fn float_literal_forms() {
    assert_eq!(Ok((s(""), Value::Numeric(s("1e5")))), parse_value("1e5"));
    assert_eq!(Ok((s(""), Value::Numeric(s("1.")))), parse_value("1."));
    assert_eq!(Ok((s(""), Value::Numeric(s(".5")))), parse_value(".5"));
    assert_eq!(Ok((s(""), Value::Numeric(s("+.5e-2")))), parse_value("+.5e-2"));
    assert_eq!(Ok((s(""), Value::String(s("1e")))), parse_value("1e"));
    assert_eq!(Ok((s(""), Value::String(s("1.2.3")))), parse_value("1.2.3"));
    assert_eq!(Ok((s(""), Value::String(s("-")))), parse_value("-"));
}

#[test]
fn non_ascii_values_become_locale_strings() {
    assert_eq!(
        Ok((s(""), Value::LocaleString(s("Bildbetrachter f\u{fc}r Foo")))),
        parse_value("Bildbetrachter f\u{fc}r Foo")
    );
    assert_eq!(Err(ParseError::NotAscii), parse_string("f\u{fc}r"));
}

#[test]
fn bad_escapes_are_fatal() {
    assert_eq!(Err(ParseError::InvalidEscape), parse_value("foo \\qbar"));
    assert_eq!(Err(ParseError::InvalidEscape), parse_value("trailing\\"));
    assert_eq!(
        Err(ParseError::InvalidEscape),
        parse_desktop_entry("[G]\nK=foo \\qbar")
    );
}

#[test]
fn entry_before_any_group_is_rejected() {
    assert_eq!(Err(ParseError::EntryBeforeGroup), parse_desktop_entry("Key=Value\n"));
}

#[test]
fn malformed_lines_fail_the_parse() {
    assert_eq!(Err(ParseError::MalformedLine), parse_desktop_entry("[G]\n???\n"));
    assert_eq!(Err(ParseError::UnterminatedHeader), parse_desktop_entry("[G\nK=1\n"));
    assert_eq!(Err(ParseError::EmptyHeader), parse_desktop_entry("[]\n"));
    // a carriage return must be followed by a line feed
    assert_eq!(Err(ParseError::MalformedLine), parse_desktop_entry("[G]\rK=1\n"));
    // text after a header's closing bracket matches no rule
    assert_eq!(Err(ParseError::MalformedLine), parse_desktop_entry("[G]x\n"));
}

#[test]
fn crlf_line_endings_are_accepted() {
    let doc = parse_desktop_entry("[G]\r\nK=v\r\n").unwrap();
    let mut expected = DesktopEntry::new();
    expected.push_group(s("G"), map_of(vec![("K", Value::String(s("v")))]));
    assert_eq!(expected, doc);
}

#[test]
fn empty_input_is_an_empty_document() {
    let doc = parse_desktop_entry("").unwrap();
    assert_eq!(DesktopEntry::new(), doc);
}

#[test]
fn duplicate_keys_overwrite_in_place() {
    let doc = parse_desktop_entry("[G]\nA=1\nB=2\nA=3\n").unwrap();
    assert_eq!(doc.group_count(), 1);
    let (header, entries) = doc.group_at(0);
    assert_eq!(header, "G");
    assert_eq!(entries.len(), 2);
    // A keeps its first position but holds the second value
    assert_eq!(entries.entry_at(0), &(Key::Simple(s("A")), Value::Numeric(s("3"))));
    assert_eq!(entries.entry_at(1), &(Key::Simple(s("B")), Value::Numeric(s("2"))));
}

#[test]
fn entry_map_overwrite_is_in_place() {
    let mut m = EntryMap::new();
    m.insert(Key::Simple(s("Name")), Value::String(s("first")));
    m.insert(Key::Simple(s("Other")), Value::Boolean(true));
    m.insert(Key::Simple(s("Name")), Value::String(s("second")));
    assert_eq!(m.len(), 2);
    assert_eq!(m.entry_at(0), &(Key::Simple(s("Name")), Value::String(s("second"))));
    assert_eq!(m.get(&Key::Simple(s("Name"))), Some(&Value::String(s("second"))));
}

#[test]
fn simple_and_localized_keys_are_distinct_entries() {
    let doc = parse_desktop_entry("[G]\nName=plain\nName[en]=english\n").unwrap();
    let (_, entries) = doc.group_at(0);
    assert_eq!(entries.len(), 2);
}

#[test]
fn repeated_headers_stay_separate_groups() {
    let doc = parse_desktop_entry("[G]\nA=1\n[G]\nB=2\n").unwrap();
    assert_eq!(doc.group_count(), 2);
    assert_eq!(doc.group_at(0).0, "G");
    assert_eq!(doc.group_at(1).0, "G");
    assert_eq!(doc.group_at(0).1.len(), 1);
    assert_eq!(doc.group_at(1).1.len(), 1);
}

#[test]
fn whitespace_around_equals_is_consumed() {
    let doc = parse_desktop_entry("[G]\nK = v\n").unwrap();
    let (_, entries) = doc.group_at(0);
    assert_eq!(entries.get(&Key::Simple(s("K"))), Some(&Value::String(s("v"))));
}

#[test]
fn parse_line_consumes_the_line_ending() {
    assert_eq!(
        Ok((s("K=1"), Line::GroupHeader(s("G")))),
        parse_line("[G]\nK=1")
    );
    assert_eq!(
        Ok((
            s(""),
            Line::Entry { key: Key::Simple(s("K")), value: Value::Numeric(s("1")) }
        )),
        parse_line("K=1\r\n")
    );
    assert_eq!(Ok((s(""), Line::Comment(s("# c")))), parse_line("# c"));
    assert_eq!(
        Ok((s("x"), Line::EmptyLine { white_space: Some(s(" ")) })),
        parse_line(" \nx")
    );
}

#[test]
fn parse_end_of_line_accepts_endings_and_the_end() {
    assert_eq!(Ok((s("x"), s("\n"))), parse_end_of_line("\nx"));
    assert_eq!(Ok((s("x"), s("\r\n"))), parse_end_of_line("\r\nx"));
    assert_eq!(Ok((s(""), s(""))), parse_end_of_line(""));
    assert_eq!(Err(ParseError::NoMatch), parse_end_of_line("x"));
}

#[test]
fn local_strings_unescape_without_the_ascii_restriction() {
    assert_eq!(Ok((s(""), s("f\u{fc}r\tFoo"))), parse_local_string("f\u{fc}r\\tFoo"));
}

#[test]
fn escaped_string_consumes_the_whole_input() {
    assert_eq!(Ok(s("a b;c\\")), parse_escaped_string("a\\sb\\;c\\\\"));
    assert_eq!(Err(ParseError::InvalidEscape), parse_escaped_string("a\\x"));
}

#[test]
fn kept_blank_lines_record_their_whitespace() {
    let doc = parse_desktop_entry_keeping_comments("[G]\n  \nK=1").unwrap();
    assert_eq!(doc.comment_count(), 1);
    assert_eq!(
        doc.comment_at(0),
        &(1usize, Comment::EmptyLine { white_space: Some(s("  ")) })
    );
    assert_eq!(doc.group_at(0).1.len(), 1);
}
