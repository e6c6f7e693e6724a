use annotations::value::parse_list;
use annotations::{AnnotationSet, AnnotationValue, AtomParseable, DeclAttrs, Language, LoadError};

fn no_attrs() -> DeclAttrs {
    DeclAttrs {
        must_use_word: false,
        deprecated_value: None,
        deprecated_word: false,
        deprecated_args: None,
    }
}

fn load_lines(lines: &[&str]) -> AnnotationSet {
    let lines: Vec<String> = lines.iter().map(|l| l.to_string()).collect();
    AnnotationSet::load(&lines, &no_attrs()).unwrap()
}

#[test]
fn non_directive_lines_contribute_nothing() {
    let set = load_lines(&[
        "A plain comment.",
        "  indented prose with = signs a=b=c",
        "cbindgen without the colon marker",
        " bindgen:foo=1",
        "",
    ]);
    assert!(set.is_empty());
    assert_eq!(set.bool("foo"), None);
}

#[test]
fn non_directive_line_between_directives_is_skipped() {
    let set = load_lines(&["cbindgen:a=1", "just a comment", "cbindgen:b=2"]);
    assert_eq!(set.atom("a"), Some(Some("1".to_string())));
    assert_eq!(set.atom("b"), Some(Some("2".to_string())));
    assert_eq!(set.atom("just a comment"), None);
}

#[test]
fn field_names_list() {
    let set = load_lines(&["cbindgen:field-names=[mHandle, mNamespace]"]);
    assert_eq!(
        set.list("field-names"),
        Some(vec!["mHandle".to_string(), "mNamespace".to_string()])
    );
}

#[test]
fn bare_directive_is_true() {
    let set = load_lines(&["cbindgen:must-use"]);
    assert_eq!(set.bool("must-use"), Some(true));
    assert!(!set.is_empty());
}

#[test]
fn value_inference_bool_atom_empty() {
    let set = load_lines(&["cbindgen:foo=true"]);
    assert_eq!(set.bool("foo"), Some(true));

    let set = load_lines(&["cbindgen:foo=false"]);
    assert_eq!(set.bool("foo"), Some(false));

    let set = load_lines(&["cbindgen:foo=bar"]);
    assert_eq!(set.atom("foo"), Some(Some("bar".to_string())));

    let set = load_lines(&["cbindgen:foo="]);
    assert_eq!(set.atom("foo"), Some(None));
}

#[test]
fn directive_parts_are_trimmed() {
    let set = load_lines(&["  cbindgen:  spaced  =  value text  "]);
    assert_eq!(set.atom("spaced"), Some(Some("value text".to_string())));
}

#[test]
fn double_separator_is_malformed() {
    let lines: Vec<String> = vec!["cbindgen:a=b=c".to_string()];
    let err = AnnotationSet::load(&lines, &no_attrs()).unwrap_err();
    match &err {
        LoadError::MalformedDirective(line) => assert_eq!(line, "cbindgen:a=b=c"),
        other => panic!("unexpected fault: {:?}", other),
    }
    assert_eq!(err.message(), "Couldn't parse cbindgen:a=b=c.");
}

#[test]
fn malformed_directive_aborts_declaration() {
    let lines: Vec<String> = vec!["cbindgen:good=1".to_string(), "cbindgen:a=b=c".to_string()];
    assert!(matches!(
        AnnotationSet::load(&lines, &no_attrs()),
        Err(LoadError::MalformedDirective(_))
    ));
}

#[test]
fn repeated_name_last_wins() {
    let set = load_lines(&["cbindgen:x=1", "cbindgen:x=2"]);
    assert_eq!(set.atom("x"), Some(Some("2".to_string())));
}

#[test]
fn add_default_never_overwrites() {
    let mut set = load_lines(&["cbindgen:x=explicit"]);
    set.add_default("x", AnnotationValue::Atom(Some("default".to_string())));
    assert_eq!(set.atom("x"), Some(Some("explicit".to_string())));
}

#[test]
fn first_default_wins_for_absent_name() {
    let mut set = AnnotationSet::new();
    set.add_default("x", AnnotationValue::Atom(Some("first".to_string())));
    set.add_default("x", AnnotationValue::Atom(Some("second".to_string())));
    assert_eq!(set.atom("x"), Some(Some("first".to_string())));
}

#[test]
fn must_use_suppressed_for_bridging_language() {
    let attrs = DeclAttrs { must_use_word: true, ..no_attrs() };
    let lines: Vec<String> = Vec::new();
    let set = AnnotationSet::load(&lines, &attrs).unwrap();
    assert!(set.must_use);
    assert!(set.must_use(Language::C));
    assert!(set.must_use(Language::Cxx));
    assert!(!set.must_use(Language::Cython));
    assert!(set.must_use);
    assert!(!set.is_empty());
}

#[test]
fn deprecated_suppressed_for_bridging_language() {
    let attrs = DeclAttrs { deprecated_word: true, ..no_attrs() };
    let lines: Vec<String> = Vec::new();
    let set = AnnotationSet::load(&lines, &attrs).unwrap();
    assert!(set.deprecated(Language::C));
    assert!(set.deprecated(Language::Cxx));
    assert!(!set.deprecated(Language::Cython));
    assert_eq!(set.deprecated, Some(String::new()));
}

#[test]
fn deprecation_note_absence_keeps_set_empty() {
    let attrs = DeclAttrs { deprecated_word: true, ..no_attrs() };
    let lines: Vec<String> = Vec::new();
    let set = AnnotationSet::load(&lines, &attrs).unwrap();
    assert!(set.is_empty());
}

#[test]
fn deprecation_bare_marker_gives_empty_note() {
    let attrs = DeclAttrs { deprecated_word: true, ..no_attrs() };
    let set = AnnotationSet::load(&Vec::new(), &attrs).unwrap();
    assert_eq!(set.deprecated, Some("".to_string()));
}

#[test]
fn deprecation_name_value_gives_text() {
    let attrs = DeclAttrs { deprecated_value: Some("reason".to_string()), ..no_attrs() };
    let set = AnnotationSet::load(&Vec::new(), &attrs).unwrap();
    assert_eq!(set.deprecated, Some("reason".to_string()));
}

#[test]
fn deprecation_structured_note_field() {
    let attrs = DeclAttrs {
        deprecated_args: Some("note = \"reason\"".to_string()),
        ..no_attrs()
    };
    let set = AnnotationSet::load(&Vec::new(), &attrs).unwrap();
    assert_eq!(set.deprecated, Some("reason".to_string()));
}

#[test]
fn deprecation_structured_several_fields() {
    let attrs = DeclAttrs {
        deprecated_args: Some("since = \"0.9\", note = \"old\"".to_string()),
        ..no_attrs()
    };
    let set = AnnotationSet::load(&Vec::new(), &attrs).unwrap();
    assert_eq!(set.deprecated, Some("old".to_string()));
}

#[test]
fn deprecation_structured_missing_note_faults() {
    let attrs = DeclAttrs {
        deprecated_args: Some("since = \"1.0\"".to_string()),
        ..no_attrs()
    };
    let err = AnnotationSet::load(&Vec::new(), &attrs).unwrap_err();
    assert!(matches!(err, LoadError::DeprecatedNoteMissing));
    assert_eq!(
        err.message(),
        "Couldn't parse deprecated attribute: no `note` field"
    );
}

#[test]
fn deprecation_structured_non_string_note_faults() {
    let attrs = DeclAttrs { deprecated_args: Some("note = 3".to_string()), ..no_attrs() };
    let err = AnnotationSet::load(&Vec::new(), &attrs).unwrap_err();
    assert!(matches!(err, LoadError::DeprecatedNoteNotString));
    assert_eq!(err.message(), "deprecated attribute must be a string");
}

#[test]
fn deprecation_structured_unparseable_faults() {
    let attrs = DeclAttrs { deprecated_args: Some("note = ".to_string()), ..no_attrs() };
    let err = AnnotationSet::load(&Vec::new(), &attrs).unwrap_err();
    match &err {
        LoadError::DeprecatedUnparseable(report) => assert!(!report.is_empty()),
        other => panic!("unexpected fault: {:?}", other),
    }
    assert!(err
        .message()
        .starts_with("Couldn't parse deprecated attribute: "));
}

#[test]
fn deprecation_name_value_outranks_marker_and_structured() {
    let attrs = DeclAttrs {
        must_use_word: false,
        deprecated_value: Some("from value".to_string()),
        deprecated_word: true,
        deprecated_args: Some("nonsense ===".to_string()),
    };
    let set = AnnotationSet::load(&Vec::new(), &attrs).unwrap();
    assert_eq!(set.deprecated, Some("from value".to_string()));
}

#[test]
fn deprecation_marker_outranks_structured() {
    let attrs = DeclAttrs {
        deprecated_word: true,
        deprecated_args: Some("nonsense ===".to_string()),
        ..no_attrs()
    };
    let set = AnnotationSet::load(&Vec::new(), &attrs).unwrap();
    assert_eq!(set.deprecated, Some("".to_string()));
}

#[test]
fn deprecation_fault_outranks_malformed_directive() {
    let attrs = DeclAttrs {
        deprecated_args: Some("since = \"1.0\"".to_string()),
        ..no_attrs()
    };
    let lines: Vec<String> = vec!["cbindgen:a=b=c".to_string()];
    let err = AnnotationSet::load(&lines, &attrs).unwrap_err();
    assert!(matches!(err, LoadError::DeprecatedNoteMissing));
}

#[test]
fn lookups_check_the_tag_only() {
    let set = load_lines(&["cbindgen:flag", "cbindgen:name=text", "cbindgen:items=[a]"]);
    assert_eq!(set.bool("flag"), Some(true));
    assert_eq!(set.list("flag"), None);
    assert_eq!(set.atom("flag"), None);
    assert_eq!(set.atom("name"), Some(Some("text".to_string())));
    assert_eq!(set.bool("name"), None);
    assert_eq!(set.list("name"), None);
    assert_eq!(set.list("items"), Some(vec!["a".to_string()]));
    assert_eq!(set.bool("items"), None);
    assert_eq!(set.bool("absent"), None);
    assert_eq!(set.atom("absent"), None);
    assert_eq!(set.list("absent"), None);
}

#[test]
fn parse_list_shapes() {
    assert_eq!(parse_list("[x, y, z]"), Some(vec![
        "x".to_string(),
        "y".to_string(),
        "z".to_string()
    ]));
    assert_eq!(parse_list("[]"), Some(vec!["".to_string()]));
    assert_eq!(parse_list("[ ]"), Some(vec!["".to_string()]));
    assert_eq!(parse_list("[a,,b]"), Some(vec![
        "a".to_string(),
        "".to_string(),
        "b".to_string()
    ]));
    assert_eq!(parse_list("x, y"), None);
    assert_eq!(parse_list("[x, y"), None);
    assert_eq!(parse_list("x, y]"), None);
    assert_eq!(parse_list("["), None);
    assert_eq!(parse_list(""), None);
}

#[test]
fn parse_atom_converts_or_defaults() {
    let set = load_lines(&["cbindgen:count=42", "cbindgen:empty=", "cbindgen:flag=true"]);
    assert_eq!(set.parse_atom::<u64>("count"), Some(42));
    assert_eq!(set.parse_atom::<u64>("empty"), Some(0));
    assert_eq!(set.parse_atom::<bool>("empty"), Some(false));
    assert_eq!(set.parse_atom::<u64>("flag"), None);
    assert_eq!(set.parse_atom::<u64>("absent"), None);
    let set = load_lines(&["cbindgen:yes=maybe-not-a-bool-so-atom"]);
    assert_eq!(set.atom("yes"), Some(Some("maybe-not-a-bool-so-atom".to_string())));
}

#[test]
fn u64_text_conversion_edges() {
    assert_eq!(<u64 as AtomParseable>::parse_text("0"), Some(0));
    assert_eq!(<u64 as AtomParseable>::parse_text("+42"), Some(42));
    assert_eq!(
        <u64 as AtomParseable>::parse_text("18446744073709551615"),
        Some(u64::MAX)
    );
    assert_eq!(<u64 as AtomParseable>::parse_text("18446744073709551616"), None);
    assert_eq!(<u64 as AtomParseable>::parse_text(""), None);
    assert_eq!(<u64 as AtomParseable>::parse_text("+"), None);
    assert_eq!(<u64 as AtomParseable>::parse_text("1 2"), None);
    assert_eq!(<u64 as AtomParseable>::parse_text("-1"), None);
    assert_eq!(<u64 as AtomParseable>::parse_text("007"), Some(7));
}

#[test]
fn bool_text_conversion_is_exact() {
    assert_eq!(<bool as AtomParseable>::parse_text("true"), Some(true));
    assert_eq!(<bool as AtomParseable>::parse_text("false"), Some(false));
    assert_eq!(<bool as AtomParseable>::parse_text("True"), None);
    assert_eq!(<bool as AtomParseable>::parse_text(" true"), None);
}

#[test]
fn empty_name_directive_is_kept_verbatim() {
    let set = load_lines(&["cbindgen:"]);
    assert_eq!(set.bool(""), Some(true));
    assert!(!set.is_empty());
}

#[test]
fn new_set_is_empty() {
    let set = AnnotationSet::new();
    assert!(set.is_empty());
    assert!(!set.must_use);
    assert_eq!(set.deprecated, None);
    let set: AnnotationSet = Default::default();
    assert!(set.is_empty());
}

#[test]
fn leading_unicode_whitespace_is_trimmed() {
    let set = load_lines(&["\u{00A0}\t cbindgen:x=1"]);
    assert_eq!(set.atom("x"), Some(Some("1".to_string())));
}

#[test]
fn list_segments_are_trimmed_lexically() {
    let set = load_lines(&["cbindgen:names=[ a , b c ,d ]"]);
    assert_eq!(
        set.list("names"),
        Some(vec!["a".to_string(), "b c".to_string(), "d".to_string()])
    );
}

#[test]
fn adjacent_separators_are_malformed() {
    let lines: Vec<String> = vec!["cbindgen:a==b".to_string()];
    let err = AnnotationSet::load(&lines, &no_attrs()).unwrap_err();
    assert!(matches!(err, LoadError::MalformedDirective(_)));
}

#[test]
fn non_ascii_value_text_is_kept() {
    let set = load_lines(&["cbindgen:name=caf\u{00E9}"]);
    assert_eq!(set.atom("name"), Some(Some("caf\u{00E9}".to_string())));
}
