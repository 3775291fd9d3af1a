use desktop_entry::DesktopEntry;
use desktop_entry::EntryMap;
use desktop_entry::EntrySerializer;
use desktop_entry::Error;
use desktop_entry::HeaderMapSerializer;
use desktop_entry::HeaderSerializer;
use desktop_entry::Key;
use desktop_entry::Locale;
use desktop_entry::Payload;
use desktop_entry::Scalar;
use desktop_entry::SectionSerializer;
use desktop_entry::Shape;
use desktop_entry::Value;
use desktop_entry::ValueSerializer;
use desktop_entry::parse_desktop_entry;
use desktop_entry::serialize_document;
use desktop_entry::to_string;

fn s(text: &str) -> String {
    text.to_string()
}

fn test_record() -> Shape {
    Shape::Record {
        name: s("Test"),
        fields: vec![
            (s("int"), Shape::Scalar(Scalar::Unsigned(1))),
            (
                s("seq"),
                Shape::Sequence(vec![
                    Shape::Scalar(Scalar::Text(s("a"))),
                    Shape::Scalar(Scalar::Text(s("b"))),
                ]),
            ),
        ],
    }
}

#[test]
fn test_struct() {
    let test = test_record();

    let expected = "[Test]\nint=1\nseq=a;b";
    assert_eq!(to_string(&test).unwrap(), expected);
}

#[test]
fn test_struct_nested() {
    // a record inside a record has two section levels, which the format
    // cannot express: it must fail, never flatten or drop data
    let test = Shape::Record {
        name: s("Wrap"),
        fields: vec![(s("inner"), test_record()), (s("other"), test_record())],
    };

    assert_eq!(to_string(&test), Err(Error::NestingNotSupported));
}

#[test]
fn test_enum() {
    let u = Shape::Variant { name: s("E"), variant: s("Unit"), payload: Payload::Unit };
    assert_eq!(to_string(&u), Err(Error::UnsupportedType));

    let n = Shape::Variant {
        name: s("E"),
        variant: s("Newtype"),
        payload: Payload::Newtype(Box::new(Shape::Scalar(Scalar::Unsigned(1)))),
    };
    let expected = "[E]\nNewtype=1";
    assert_eq!(to_string(&n).unwrap(), expected);

    let t = Shape::Variant {
        name: s("E"),
        variant: s("Tuple"),
        payload: Payload::Tuple(vec![
            Shape::Scalar(Scalar::Unsigned(1)),
            Shape::Scalar(Scalar::Unsigned(2)),
        ]),
    };
    let expected = "[E]\nTuple=1;2";
    assert_eq!(to_string(&t).unwrap(), expected);

    let v = Shape::Variant {
        name: s("E"),
        variant: s("Struct"),
        payload: Payload::Fields(vec![(s("a"), Shape::Scalar(Scalar::Unsigned(1)))]),
    };
    let expected = "[E]\na=1";
    assert_eq!(to_string(&v).unwrap(), expected);
}

#[test]
fn scalar_at_root_is_rejected() {
    assert_eq!(
        to_string(&Shape::Scalar(Scalar::Boolean(true))),
        Err(Error::ExpectedMap)
    );
    assert_eq!(to_string(&Shape::Sequence(vec![])), Err(Error::ExpectedMap));
}

#[test]
fn root_sequence_of_records_becomes_consecutive_groups() {
    let shape = Shape::Sequence(vec![
        Shape::Record { name: s("A"), fields: vec![(s("x"), Shape::Scalar(Scalar::Unsigned(1)))] },
        Shape::Record { name: s("B"), fields: vec![(s("y"), Shape::Scalar(Scalar::Unsigned(2)))] },
    ]);
    assert_eq!(to_string(&shape).unwrap(), "[A]\nx=1\n[B]\ny=2");
}

#[test]
fn scalar_texts() {
    let shape = Shape::Record {
        name: s("S"),
        fields: vec![
            (s("t"), Shape::Scalar(Scalar::Boolean(true))),
            (s("f"), Shape::Scalar(Scalar::Boolean(false))),
            (s("zero"), Shape::Scalar(Scalar::Unsigned(0))),
            (s("big"), Shape::Scalar(Scalar::Unsigned(18446744073709551615))),
            (s("neg"), Shape::Scalar(Scalar::Signed(-42))),
            (s("min"), Shape::Scalar(Scalar::Signed(i64::MIN))),
            (s("text"), Shape::Scalar(Scalar::Text(s("fooview %F")))),
        ],
    };
    assert_eq!(
        to_string(&shape).unwrap(),
        "[S]\nt=true\nf=false\nzero=0\nbig=18446744073709551615\nneg=-42\nmin=-9223372036854775808\ntext=fooview %F"
    );
}

#[test]
fn unit_variant_in_value_position_is_an_empty_value() {
    let shape = Shape::Record {
        name: s("S"),
        fields: vec![(
            s("choice"),
            Shape::Variant { name: s("E"), variant: s("Unit"), payload: Payload::Unit },
        )],
    };
    assert_eq!(to_string(&shape).unwrap(), "[S]\nchoice=");
}

#[test]
fn sequence_inside_sequence_is_rejected() {
    let shape = Shape::Record {
        name: s("S"),
        fields: vec![(
            s("xs"),
            Shape::Sequence(vec![Shape::Sequence(vec![Shape::Scalar(Scalar::Unsigned(1))])]),
        )],
    };
    assert_eq!(to_string(&shape), Err(Error::UnsupportedType));
}

#[test]
fn serialize_document_writes_groups_and_entries_in_order() {
    let mut entries = EntryMap::new();
    entries.insert(Key::Simple(s("Version")), Value::Numeric(s("1.0")));
    entries.insert(Key::Simple(s("Hidden")), Value::Boolean(false));
    entries.insert(
        Key::Localized {
            key: s("Name"),
            locale: Locale { lang: s("en"), country: Some(s("US")), encoding: None, modifier: None },
        },
        Value::LocaleString(s("Foo")),
    );
    let mut doc = DesktopEntry::new();
    doc.push_group(s("Desktop Entry"), entries);
    assert_eq!(
        serialize_document(&doc),
        "[Desktop Entry]\nVersion=1.0\nHidden=false\nName[en_US]=Foo"
    );
}

#[test]
fn round_trip_of_a_simple_document() {
    let text = "[Desktop Entry]\nVersion=1.0\nType=Application\nExec=fooview %F\n[Desktop Action Gallery]\nExec=fooview --gallery";
    let doc = parse_desktop_entry(text).unwrap();
    assert_eq!(serialize_document(&doc), text);
}

#[test]
fn round_trip_starting_from_a_document() {
    let mut entries = EntryMap::new();
    entries.insert(Key::Simple(s("A")), Value::Numeric(s("4.20")));
    entries.insert(Key::Simple(s("B")), Value::String(s("plain text")));
    entries.insert(Key::Simple(s("C")), Value::Boolean(true));
    let mut doc = DesktopEntry::new();
    doc.push_group(s("G"), entries);
    let text = serialize_document(&doc);
    assert_eq!(parse_desktop_entry(&text).unwrap(), doc);
}

#[test]
fn header_map_serializer_separates_sections() {
    let mut ser = HeaderMapSerializer::new(String::new());
    let a = Shape::Record { name: s("A"), fields: vec![(s("x"), Shape::Scalar(Scalar::Unsigned(1)))] };
    let b = Shape::Record { name: s("B"), fields: vec![] };
    ser.serialize_element(&a).unwrap();
    ser.serialize_element(&b).unwrap();
    assert_eq!(ser.into_output(), "[A]\nx=1\n[B]");
}

#[test]
fn header_map_serializer_keeps_output_on_error() {
    let mut ser = HeaderMapSerializer::new(s("before"));
    assert_eq!(ser.serialize(&Shape::Scalar(Scalar::Unsigned(1))), Err(Error::ExpectedMap));
    assert_eq!(ser.into_output(), "before");
}

#[test]
fn section_serializer_prepends_the_separator() {
    let mut ser = SectionSerializer::new(s("[A]"), true);
    let b = Shape::Record { name: s("B"), fields: vec![(s("y"), Shape::Scalar(Scalar::Signed(-1)))] };
    ser.serialize(&b).unwrap();
    assert_eq!(ser.into_output(), "[A]\n[B]\ny=-1");
}

#[test]
fn header_serializer_emits_bracketed_headers() {
    let mut ser = HeaderSerializer::new(String::new(), false);
    ser.serialize_str("Desktop Entry");
    ser.serialize_str("Desktop Action Gallery");
    assert_eq!(ser.into_output(), "[Desktop Entry]\n[Desktop Action Gallery]");
}

#[test]
fn entry_serializer_emits_field_lines() {
    let mut ser = EntrySerializer::new(s("[G]"));
    ser.serialize_field("int", &Shape::Scalar(Scalar::Unsigned(7))).unwrap();
    ser.serialize_fields(&vec![(s("seq"), Shape::Sequence(vec![Shape::Scalar(Scalar::Text(s("a")))]))])
        .unwrap();
    assert_eq!(ser.into_output(), "[G]\nint=7\nseq=a");
}

#[test]
fn value_serializer_emits_inline_text() {
    let mut ser = ValueSerializer::new(String::new());
    ser.serialize(&Shape::Sequence(vec![
        Shape::Scalar(Scalar::Text(s("Gallery"))),
        Shape::Scalar(Scalar::Text(s("Create"))),
    ]))
        .unwrap();
    assert_eq!(ser.into_output(), "Gallery;Create");
    let mut ser2 = ValueSerializer::new(s("kept"));
    assert_eq!(
        ser2.serialize(&Shape::Record { name: s("N"), fields: vec![] }),
        Err(Error::NestingNotSupported)
    );
    assert_eq!(ser2.into_output(), "kept");
}

#[test]
fn end_to_end_example_content_survives_rewriting() {
    let text = [
        "[Desktop Entry]",
        "Version=1.0",
        "Type=Application",
        "Name=Foo Viewer",
        "Comment=The best viewer for Foo objects available!",
        "TryExec=fooview",
        "Exec=fooview %F",
        "Icon=fooview",
        "MimeType=image/x-foo;",
        "Actions=Gallery;Create;",
        "",
        "[Desktop Action Gallery]",
        "Exec=fooview --gallery",
        "Name=Browse Gallery",
        "",
        "[Desktop Action Create]",
        "Exec=fooview --create-new",
        "Name=Create a new Foo!",
    ]
    .join("\n");
    let doc = parse_desktop_entry(&text).unwrap();
    assert_eq!(doc.group_count(), 3);
    assert_eq!(doc.group_at(0).0, "Desktop Entry");
    assert_eq!(doc.group_at(1).0, "Desktop Action Gallery");
    assert_eq!(doc.group_at(2).0, "Desktop Action Create");
    assert_eq!(
        doc.group_at(0).1.get(&Key::Simple(s("Version"))),
        Some(&Value::Numeric(s("1.0")))
    );
    assert_eq!(
        doc.group_at(0).1.get(&Key::Simple(s("Type"))),
        Some(&Value::String(s("Application")))
    );
    // rewriting keeps every group, key and value; only the blank separator
    // lines are normalized away
    let rewritten = serialize_document(&doc);
    let doc2 = parse_desktop_entry(&rewritten).unwrap();
    assert_eq!(doc, doc2);
    let blank_free: Vec<&str> = text.split('\n').filter(|l| !l.is_empty()).collect();
    assert_eq!(rewritten, blank_free.join("\n"));
}

#[test]
fn round_trip_with_a_locale_string_value() {
    let text = "[G]\nName=Gr\u{fc}\u{df}e";
    let doc = parse_desktop_entry(text).unwrap();
    assert_eq!(
        doc.group_at(0).1.get(&Key::Simple(s("Name"))),
        Some(&Value::LocaleString(s("Gr\u{fc}\u{df}e")))
    );
    assert_eq!(serialize_document(&doc), text);
}
