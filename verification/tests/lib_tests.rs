use verso::{
    extract_fragments, extract_id, extract_pattern, weave, AnnotationMap, FileError, Fragment,
    IdExtractError, ParseError, PatternExtractError, SymbolKey, WeaveError,
};

#[test]
fn lib_test_extract_id_missing() {
    let id = extract_id("", 0);
    assert_eq!(
        id,
        Err(IdExtractError::NoIdFound),
        "Expected NoIdFound, got {:?}",
        id
    );
}

#[test]
fn lib_test_extract_id_good() {
    let id = extract_id("foobarbaz", 0);
    assert_eq!(
        id.expect("Expected successful ID extraction"),
        String::from("foobarbaz")
    );
}

#[test]
fn lib_test_extract_id_whitespace() {
    let id = extract_id("foo bar baz quuz", 0);
    assert_eq!(
        id.expect("Expected successful ID extraction"),
        String::from("foo")
    );
}

#[test]
fn test_extract_id_acceptable_separators() {
    let id_elements = ["foo", "bar", "baz", "quuz"];
    for sep in ['/', '_', '-'] {
        let input = &id_elements.join(&sep.to_string());
        let id = extract_id(input, 0);
        assert_eq!(&id.expect("Expected successful ID extraction"), input);
    }
}

#[test]
fn test_extract_id_reserved_chars() {
    let id_elements = ["foo", "bar", "baz", "quuz"];
    let id_reserved_chars = &['.'];
    for sep in id_reserved_chars {
        let input = &id_elements.join(&sep.to_string());
        let id = extract_id(input, 0);
        assert_eq!(
            id.expect_err(&format!(
                "Expected ID extraction to fail due to reserved char '{}'",
                sep
            )),
            IdExtractError::ReservedCharacterUsed(*sep)
        );
    }
}

#[test]
fn lib_test_extract_id_offset() {
    let id = extract_id("foo bar baz quuz", 4);
    assert_eq!(
        id.expect("Expected successful ID extraction"),
        String::from("bar")
    );
}

#[test]
fn test_extract_pattern_good() {
    let pattern = extract_pattern("[a-z0-9]+", 0);
    assert!(pattern
        .expect("Expected successful pattern extraction")
        .is_match("abc123"));
}

#[test]
fn test_extract_pattern_missing() {
    let pattern = extract_pattern("   ", 0).expect_err("Expected error extracting empty pattern");
    assert!(
        matches!(pattern, PatternExtractError::NoPatternFound),
        "Expected NoPatternFound, got {:?}",
        pattern
    );
}

#[test]
fn test_extract_pattern_invalid() {
    let pattern = extract_pattern("{[}]", 0).expect_err("Expected error extracting invalid pattern");
    assert!(
        matches!(pattern, PatternExtractError::RegexConstruction(_)),
        "Expected RegexConstruction, got {:?}",
        pattern
    );
}

#[test]
fn lib_test_extract_fragments() {
    let fragments: Result<Vec<Fragment>, FileError<ParseError>> = extract_fragments(
        "# This is an example
import sys

# @<foobarbaz The fragment starts and its ID is defined on this line; it is foobarbaz.
def main():
    do_stuff()
    make_awesome()
    # >@ This line ends the fragment.
    sys.exit(1) # oops",
        "test.py",
        &SymbolKey::default(),
    );

    let fragments = fragments.expect("Expected no parse errors");
    assert!(
        fragments.len() == 1,
        "Expected one fragment, found {}",
        fragments.len()
    );
    assert!(
        fragments[0].body
            == *"def main():
    do_stuff()
    make_awesome()",
        "Unexpected code fragment {:?}",
        fragments[0].body
    );
    assert!(
        fragments[0].id == *"foobarbaz",
        "Unexpected ID {:?}",
        fragments[0].id
    );
}

#[test]
fn test_extract_fragments_nested() {
    let fragments: Result<Vec<Fragment>, FileError<ParseError>> = extract_fragments(
        "# This is an example.
    # @<foobarbaz This begins the fragment.
    Start of outer
    # @<qux
        Start of inner
            # @<quux
            # >@
        End of inner
    # >@
    End of outer
    # >@",
        "test.py",
        &SymbolKey::default(),
    );

    let fragments = fragments.expect("Expected no parse errors");
    assert!(
        fragments.len() == 3, // Two fragments in addition to the full file
        "Expected two fragments, found {}",
        fragments.len()
    );
    // Innermost, empty fragment
    assert_eq!(fragments[0].body, "", "Expected fragment to be empty");
    assert!(
        fragments[0].id == *"quux",
        "Unexpected ID {:?}",
        fragments[0].id
    );
    // Middle fragment, that has content, including all child fragments with tags removed.
    assert_eq!(
        fragments[1].body,
        "        Start of inner
        End of inner",
        "Expected nested fragment markers to be removed"
    );
    assert!(
        fragments[1].id == *"qux",
        "Unexpected ID {:?}",
        fragments[1].id
    );
    // Outer fragment, that has content, including all child fragments with tags removed.
    assert_eq!(
        fragments[2].body,
        "    Start of outer
        Start of inner
        End of inner
    End of outer",
        "Expected nested fragment markers to be removed"
    );
    assert!(
        fragments[2].id == *"foobarbaz",
        "Unexpected ID {:?}",
        fragments[2].id
    );
}

#[test]
fn lib_test_extract_fragments_close_before_open() {
    let fragments: Result<Vec<Fragment>, FileError<ParseError>> = extract_fragments(
        "# This is an example.

# >@ This is an error on line 3.
012345 The error is at column 2.
# @< This begins the fragment.
# >@ This line ends the fragment.",
        "test.py",
        &SymbolKey::default(),
    );

    let fragments = fragments.expect_err("Expected a parsing error");
    match fragments {
        FileError {
            err_type: ParseError::CloseBeforeOpen,
            line,
            col,
            ..
        } => {
            assert_eq!(line, 3, "Expected error on line 3, found line {:?}", line);
            assert_eq!(col, 2, "Expected error on col 2, found col {:?}", col);
        }
        _ => panic!("Expected ParseError::CloseBeforeOpen, got {:?}", fragments),
    }
}

#[test]
fn test_extract_fragments_halt() {
    let fragments: Result<Vec<Fragment>, FileError<ParseError>> = extract_fragments(
        "# This is an example.

# @<1
Fragment 1
# >@

# @!halt This line causes the reader to stop looking for fragments in this file.
# Mostly this is useful for keeping the tangle pass out of uninteresting areas, like these tests.

# >@ This would cause an error.",
        "test.py",
        &SymbolKey::default(),
    );

    let fragments = fragments.expect("Expected a clean read");
    assert!(
        fragments.len() == 1,
        "Expected one fragment, found {}",
        fragments.len()
    );
}

#[test]
fn test_extract_fragments_halt_while_open() {
    let fragments: Result<Vec<Fragment>, FileError<ParseError>> = extract_fragments(
        "# This is an example.
# @<1
Fragment 1
# @!halt This line causes an error as we have an open Fragment.
# >@",
        "test.py",
        &SymbolKey::default(),
    );

    let fragments = fragments.expect_err("Expected a parsing error");
    match fragments {
        FileError {
            err_type: ParseError::HaltWhileOpen,
            line,
            col,
            ..
        } => {
            assert_eq!(line, 4, "Expected error on line 4, found line {:?}", line);
            assert_eq!(col, 2, "Expected error on col 2, found col {:?}", col);
        }
        _ => panic!("Expected ParseError::HaltWhileOpen, got {:?}", fragments),
    }
}

#[test]
fn lib_test_extract_fragments_missing_id() {
    let fragments: Result<Vec<Fragment>, FileError<ParseError>> = extract_fragments(
        "# This is an example.

# @< This is an error on line 3: No ID.
012345 The error is at column 2.
# >@ This line ends the fragment.",
        "test.py",
        &SymbolKey::default(),
    );

    let fragments = fragments.expect_err("Expected a parsing error");
    match fragments {
        FileError {
            err_type: ParseError::MissingId,
            line,
            col,
            ..
        } => {
            assert_eq!(line, 3, "Expected error on line 3, found line {:?}", line);
            assert_eq!(col, 2, "Expected error on col 2, found col {:?}", col);
        }
        _ => panic!("Expected ParseError::MissingId, got {:?}", fragments),
    }
}

#[test]
fn lib_test_weave_good() {
    let text = "This is the first line!

@@1
  @@1
@* [0-9]
@?1.file (@?1.line:@?1.col)
@?1.loc

Another line.";

    let frag = Fragment {
        id: String::from("1"),
        body: String::from("{Example Code}"),
        file: String::from("example.code"),
        line: 1,
        col: 0,
    };

    let mut annotations = AnnotationMap::new();
    annotations.insert(frag);
    let result =
        weave("test", text, &annotations, &SymbolKey::default()).expect("Expected weave to return Ok");

    assert_eq!(
        result,
        String::from(
            "This is the first line!

{Example Code}
{Example Code}
{Example Code}
example.code (1:0)
example.code (1:0)

Another line."
        )
    );
}

#[test]
fn test_weave_pattern_order() {
    let text = "@* [0-9]";

    let frag1 = Fragment {
        id: String::from("1"),
        body: String::from("{Example Code 1}"),
        file: String::from("example.code"),
        line: 1,
        col: 0,
    };

    let frag2 = Fragment {
        id: String::from("2"),
        body: String::from("{Example Code 2}"),
        file: String::from("example.code"),
        line: 2,
        col: 0,
    };

    let mut annotations = AnnotationMap::new();
    annotations.insert(frag2);
    annotations.insert(frag1);
    let result =
        weave("test", text, &annotations, &SymbolKey::default()).expect("Expected weave to return Ok");

    assert_eq!(
        result,
        String::from(
            "{Example Code 1}
{Example Code 2}"
        )
    );
}

#[test]
fn lib_test_weave_missing_fragment() {
    let text = "This is the first line!

@@1

Another line.";

    let annotations = AnnotationMap::new();
    weave("test", text, &annotations, &SymbolKey::default())
        .expect_err("Expected weave to return an error");
}

#[test]
fn test_weave_bad_metadata_type() {
    let text = "This is the first line!

@?1.foo

Another line.";

    let frag = Fragment {
        id: String::from("1"),
        body: String::from("{Example Code}"),
        file: String::from("example.code"),
        line: 1,
        col: 0,
    };

    let mut annotations = AnnotationMap::new();
    annotations.insert(frag);

    let err = weave("test", text, &annotations, &SymbolKey::default())
        .expect_err("Expected weave to return an error");
    match err {
        FileError {
            err_type: WeaveError::UnknownProperty(s),
            line,
            col,
            ..
        } => {
            assert_eq!(line, 3, "Expected error on line 3, found line {:?}", line);
            assert_eq!(col, 4, "Expected error on col 4, found col {:?}", col);
            assert_eq!(s, "foo", "Expected error message to be \"foo\", got {:?}", s);
        }
        _ => panic!("Expected WeaveError::UnknownProperty, got {:?}", err),
    }
}

#[test]
fn test_weave_bad_metadata_id() {
    let text = "This is the first line!

@?1.loc

Another line.";

    let annotations = AnnotationMap::new();

    let err = weave("test", text, &annotations, &SymbolKey::default())
        .expect_err("Expected weave to return an error");
    match err {
        FileError {
            err_type: WeaveError::MissingFragment(s),
            line,
            col,
            ..
        } => {
            assert_eq!(line, 3, "Expected error on line 3, found line {:?}", line);
            assert_eq!(col, 2, "Expected error on col 2, found col {:?}", col);
            assert_eq!(s, "1", "Expected error message to be \"1\", got {:?}", s);
        }
        _ => panic!("Expected WeaveError::MissingFragment, got {:?}", err),
    }
}

#[test]
fn test_find_relative_path() {
    {
        let rel_path = verso::find_relative_path("/a/b/c/d.foo", "/a/b/e/f/g.bar");
        assert_eq!(rel_path, String::from("../e/f/g.bar"));
    }

    {
        let rel_path = verso::find_relative_path("/a/b/c/d.foo", "/a/g.bar");
        assert_eq!(rel_path, String::from("../../g.bar"));
    }

    {
        let rel_path = verso::find_relative_path("/a/b/c/d.foo", "/e/f/g.bar");
        assert_eq!(rel_path, String::from("../../../e/f/g.bar"));
    }
}
