use verso::{
    expand_metadata, extract_fragments, extract_id, weave, AnnotationMap, FileError, Fragment,
    IdExtractError, ParseError, SymbolKey, WeaveError,
};

fn fragment(id: &str, body: &str, file: &str, line: usize, col: usize) -> Fragment {
    Fragment {
        id: String::from(id),
        body: String::from(body),
        file: String::from(file),
        line,
        col,
    }
}

// Weaving text without insertion, pattern or metadata markers returns it
// unchanged, byte for byte.
#[test]
fn test_weave_no_markers_is_identity() {
    let annotations = AnnotationMap::new();
    let symbols = SymbolKey::default();
    for text in [
        "plain text\nwith several lines\nand no markers",
        "trailing newline is kept\n",
        "",
        "\n",
        "  indented\n\n\nblank lines too\n",
    ] {
        let woven = weave("test", text, &annotations, &symbols).expect("Expected weave to return Ok");
        assert_eq!(woven, String::from(text));
    }
}

// Three nested fragments where only the innermost holds text: the marker
// lines never reach any body, and the text propagates outward with no blank
// lines added.
#[test]
fn test_flattening_three_nested() {
    let fragments = extract_fragments(
        "@<a
@<b
@<c
x
>@
>@
>@",
        "test.code",
        &SymbolKey::default(),
    )
    .expect("Expected no parse errors");
    assert_eq!(fragments.len(), 3);
    assert_eq!(fragments[0].id, "c");
    assert_eq!(fragments[0].body, "x");
    assert_eq!(fragments[1].id, "b");
    assert_eq!(fragments[1].body, "x");
    assert_eq!(fragments[2].id, "a");
    assert_eq!(fragments[2].body, "x");
}

// A fragment with no body lines adds nothing to its parent, not even a blank
// line.
#[test]
fn test_empty_fragment_no_blank_line() {
    let fragments = extract_fragments(
        "@<outer
before
@<inner
>@
after
>@",
        "test.code",
        &SymbolKey::default(),
    )
    .expect("Expected no parse errors");
    assert_eq!(fragments.len(), 2);
    assert_eq!(fragments[0].id, "inner");
    assert_eq!(fragments[0].body, "");
    assert_eq!(fragments[1].id, "outer");
    assert_eq!(fragments[1].body, "before\nafter");
}

// The identifier validation scenarios: a dot is reserved, the separator set
// `/ _ -` is allowed.
#[test]
fn test_id_validation_exact() {
    let err = extract_id("foo.bar", 0).expect_err("Expected a reserved-character error");
    assert_eq!(err, IdExtractError::ReservedCharacterUsed('.'));

    let id = extract_id("foo/bar-baz_1", 0).expect("Expected successful ID extraction");
    assert_eq!(id, String::from("foo/bar-baz_1"));
}

// Input that ends while a fragment is open fails with UnclosedFragment at
// the final line, column 0.
#[test]
fn test_unclosed_fragment() {
    let err = extract_fragments(
        "line one
@<open
body text",
        "test.code",
        &SymbolKey::default(),
    )
    .expect_err("Expected a parsing error");
    match err {
        FileError {
            err_type: ParseError::UnclosedFragment,
            line,
            col,
            ..
        } => {
            assert_eq!(line, 3, "Expected error on line 3, found line {:?}", line);
            assert_eq!(col, 0, "Expected error on col 0, found col {:?}", col);
        }
        _ => panic!("Expected ParseError::UnclosedFragment, got {:?}", err),
    }

    // A trailing newline does not open a further line.
    let err = extract_fragments("@<open\nbody\n", "test.code", &SymbolKey::default())
        .expect_err("Expected a parsing error");
    match err {
        FileError {
            err_type: ParseError::UnclosedFragment,
            line,
            col,
            ..
        } => {
            assert_eq!(line, 2, "Expected error on line 2, found line {:?}", line);
            assert_eq!(col, 0, "Expected error on col 0, found col {:?}", col);
        }
        _ => panic!("Expected ParseError::UnclosedFragment, got {:?}", err),
    }
}

// A missing fragment at weave time is reported at the insertion marker's
// line and column, naming the identifier.
#[test]
fn test_weave_missing_fragment_position() {
    let text = "This is the first line!

@@1

Another line.";
    let annotations = AnnotationMap::new();
    let err = weave("test", text, &annotations, &SymbolKey::default())
        .expect_err("Expected weave to return an error");
    match err {
        FileError {
            err_type: WeaveError::MissingFragment(s),
            line,
            col,
            ..
        } => {
            assert_eq!(line, 3, "Expected error on line 3, found line {:?}", line);
            assert_eq!(col, 0, "Expected error on col 0, found col {:?}", col);
            assert_eq!(s, "1");
        }
        _ => panic!("Expected WeaveError::MissingFragment, got {:?}", err),
    }

    // An indented insertion marker: the column points at the marker itself.
    let err = weave("test", "    @@1", &annotations, &SymbolKey::default())
        .expect_err("Expected weave to return an error");
    match err {
        FileError {
            err_type: WeaveError::MissingFragment(s),
            line,
            col,
            ..
        } => {
            assert_eq!(line, 1, "Expected error on line 1, found line {:?}", line);
            assert_eq!(col, 4, "Expected error on col 4, found col {:?}", col);
            assert_eq!(s, "1");
        }
        _ => panic!("Expected WeaveError::MissingFragment, got {:?}", err),
    }
}

// An insertion marker with no identifier after it.
#[test]
fn test_weave_missing_id() {
    let annotations = AnnotationMap::new();
    let err = weave("test", "@@ nothing", &annotations, &SymbolKey::default())
        .expect_err("Expected weave to return an error");
    assert!(
        matches!(err.err_type, WeaveError::MissingId),
        "Expected WeaveError::MissingId, got {:?}",
        err
    );
    assert_eq!(err.line, 1);
    assert_eq!(err.col, 0);
}

// An insertion marker whose identifier holds a reserved character.
#[test]
fn test_weave_id_extract_error() {
    let annotations = AnnotationMap::new();
    let err = weave("test", "@@foo.bar", &annotations, &SymbolKey::default())
        .expect_err("Expected weave to return an error");
    assert!(
        matches!(err.err_type, WeaveError::IdExtractError),
        "Expected WeaveError::IdExtractError, got {:?}",
        err
    );
}

// An empty pattern, and a pattern that does not compile.
#[test]
fn test_weave_pattern_errors() {
    let annotations = AnnotationMap::new();
    let symbols = SymbolKey::default();

    let err = weave("test", "@*   ", &annotations, &symbols)
        .expect_err("Expected weave to return an error");
    assert!(
        matches!(err.err_type, WeaveError::PatternExtractError),
        "Expected WeaveError::PatternExtractError, got {:?}",
        err
    );

    let err = weave("test", "@* {[}]", &annotations, &symbols)
        .expect_err("Expected weave to return an error");
    assert!(
        matches!(err.err_type, WeaveError::PatternExtractError),
        "Expected WeaveError::PatternExtractError, got {:?}",
        err
    );
}

// A pattern line that matches nothing vanishes without leaving a blank line.
#[test]
fn test_weave_pattern_no_match() {
    let mut annotations = AnnotationMap::new();
    annotations.insert(fragment("alpha", "A", "f.code", 1, 0));
    let woven = weave("test", "start\n@* [0-9]\nend", &annotations, &SymbolKey::default())
        .expect("Expected weave to return Ok");
    assert_eq!(woven, String::from("start\nend"));
}

// A trailing input newline survives even when every content line expands to
// nothing; none is invented when the input lacks one.
#[test]
fn test_weave_trailing_newline_preserved() {
    let annotations = AnnotationMap::new();
    let symbols = SymbolKey::default();
    let woven = weave("test", "@* zzz\n", &annotations, &symbols)
        .expect("Expected weave to return Ok");
    assert_eq!(woven, String::from("\n"));

    let woven = weave("test", "@* zzz", &annotations, &symbols)
        .expect("Expected weave to return Ok");
    assert_eq!(woven, String::from(""));
}

// A malformed metadata reference: a non-identifier character where the
// identifier should be.
#[test]
fn test_weave_metadata_parse_error() {
    let mut annotations = AnnotationMap::new();
    annotations.insert(fragment("1", "{Example Code}", "example.code", 1, 0));
    let err = weave("test", "see @?1 loc", &annotations, &SymbolKey::default())
        .expect_err("Expected weave to return an error");
    assert!(
        matches!(err.err_type, WeaveError::MetadataParseError),
        "Expected WeaveError::MetadataParseError, got {:?}",
        err
    );
}

// A metadata word with the wrong number of separator-delimited parts.
#[test]
fn test_expand_metadata_bad_word() {
    let annotations = AnnotationMap::new();
    let symbols = SymbolKey::default();
    let err = expand_metadata("1.loc.extra", "test", 1, 0, &annotations, &symbols)
        .expect_err("Expected a malformed lookup error");
    match err.err_type {
        WeaveError::BadMetadata(w) => assert_eq!(w, "1.loc.extra"),
        other => panic!("Expected WeaveError::BadMetadata, got {:?}", other),
    }
}

// Every metadata property of one fragment.
#[test]
fn test_expand_metadata_properties() {
    let mut annotations = AnnotationMap::new();
    annotations.insert(fragment("f1", "body", "src/example.code", 7, 3));
    let symbols = SymbolKey::default();

    let cases = [
        ("@?f1.file", "src/example.code"),
        ("@?f1.line", "7"),
        ("@?f1.col", "3"),
        ("@?f1.loc", "src/example.code (7:3)"),
        ("@?f1.abspath", "/src/example.code"),
        ("@?f1.LOC", "src/example.code (7:3)"),
    ];
    for (word, expected) in cases {
        let got = expand_metadata(word, "docs/page.md", 1, 0, &annotations, &symbols)
            .expect("Expected metadata expansion to succeed");
        assert_eq!(got, String::from(expected), "for {}", word);
    }

    let rel = expand_metadata("@?f1.relpath", "docs/page.md", 1, 0, &annotations, &symbols)
        .expect("Expected metadata expansion to succeed");
    assert_eq!(rel, String::from("../src/example.code"));
}

// Metadata references expand in place, preserving the text around them.
#[test]
fn test_weave_metadata_in_context() {
    let mut annotations = AnnotationMap::new();
    annotations.insert(fragment("1", "{Example Code}", "example.code", 1, 0));
    let woven = weave(
        "test",
        "prefix @?1.line suffix",
        &annotations,
        &SymbolKey::default(),
    )
    .expect("Expected weave to return Ok");
    assert_eq!(woven, String::from("prefix 1 suffix"));
}

// Later insertions under the same identifier overwrite earlier ones.
#[test]
fn test_annotation_map_last_write_wins() {
    let mut annotations = AnnotationMap::new();
    annotations.insert(fragment("k", "first", "a.code", 1, 0));
    annotations.insert(fragment("k", "second", "b.code", 2, 0));
    let f = annotations.get("k").expect("Expected the identifier to be present");
    assert_eq!(f.body, "second");
    assert_eq!(f.file, "b.code");
    assert!(annotations.get("missing").is_none());
}

// The markers are configuration: custom symbols drive both passes.
#[test]
fn test_custom_symbols() {
    let symbols = SymbolKey::new(
        String::from("<<"),
        String::from(">>"),
        String::from("#stop"),
        String::from("%%"),
        String::from("%*"),
        String::from("%?"),
        ':',
    );
    let fragments = extract_fragments("<<name\npayload\n>>", "test.code", &symbols)
        .expect("Expected no parse errors");
    assert_eq!(fragments.len(), 1);
    assert_eq!(fragments[0].body, "payload");

    let mut annotations = AnnotationMap::new();
    annotations.insert(fragment("name", "payload", "test.code", 2, 0));
    let woven = weave("doc.md", "%%name\nat %?name:line.", &annotations, &symbols)
        .expect("Expected weave to return Ok");
    assert_eq!(woven, String::from("payload\nat 2."));
}

// The fragment records carry the position of the first body line.
#[test]
fn test_fragment_positions() {
    let fragments = extract_fragments(
        "intro
@<first
a
>@
@<second
b
>@",
        "test.code",
        &SymbolKey::default(),
    )
    .expect("Expected no parse errors");
    assert_eq!(fragments.len(), 2);
    assert_eq!(fragments[0].id, "first");
    assert_eq!(fragments[0].line, 3);
    assert_eq!(fragments[0].col, 0);
    assert_eq!(fragments[0].file, "test.code");
    assert_eq!(fragments[1].id, "second");
    assert_eq!(fragments[1].line, 6);
}

// An insertion line replaces the whole line, trailing text included, and a
// multi-line body arrives verbatim.
#[test]
fn test_weave_insertion_multiline_body() {
    let mut annotations = AnnotationMap::new();
    annotations.insert(fragment("block", "one\ntwo", "f.code", 1, 0));
    let woven = weave(
        "test",
        "before\n  @@block trailing words\nafter",
        &annotations,
        &SymbolKey::default(),
    )
    .expect("Expected weave to return Ok");
    assert_eq!(woven, String::from("before\none\ntwo\nafter"));
}

// The configuration readers for the two entry points.
#[test]
fn test_config_new() {
    let args = [
        String::from("prog"),
        String::from("out"),
        String::from("a.md"),
        String::from("b.md"),
    ];
    let recto_cfg = verso::recto::Config::new(&args).expect("Expected a configuration");
    assert_eq!(recto_cfg.out_dir, "out");
    assert_eq!(recto_cfg.filenames, vec![String::from("a.md"), String::from("b.md")]);

    let short = [String::from("prog")];
    assert_eq!(
        verso::recto::Config::new(&short),
        Err("Expected at least two arguments")
    );

    let verso_cfg = verso::verso::Config::new(&args).expect("Expected a configuration");
    assert_eq!(
        verso_cfg.filenames,
        vec![String::from("out"), String::from("a.md"), String::from("b.md")]
    );
}
