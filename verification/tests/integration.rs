use verso::{
    extract_fragments, extract_id, weave, AnnotationMap, FileError, Fragment, IdExtractError,
    ParseError, SymbolKey,
};

#[test]
fn tests_test_extract_id_good() {
    let id = extract_id(&String::from("foobarbaz"), 0);
    assert_eq!(
        id.expect("Expected successful ID extraction"),
        String::from("foobarbaz")
    );
}

#[test]
fn tests_test_extract_id_missing() {
    let id = extract_id(&String::from(""), 0);
    assert_eq!(
        id,
        Err(IdExtractError::NoIdFound),
        "Expected no identifier, got {:?}",
        id
    );
}

#[test]
fn tests_test_extract_id_whitespace() {
    let id = extract_id(&String::from("foo bar baz quuz"), 0);
    assert_eq!(
        id.expect("Expected successful ID extraction"),
        String::from("foo")
    );
}

#[test]
fn tests_test_extract_fragments() {
    let fragments: Result<Vec<Fragment>, FileError<ParseError>> = extract_fragments(
        "# This is an example
import sys

# @<foobarbaz The fragment starts and its ID is defined on this line; it is foobarbaz.
def main():
    do_stuff()
    make_awesome()
    # >@ This line ends the fragment.
    sys.exit(1) # oops",
        "test.py",
        &SymbolKey::default(),
    );

    let fragments = fragments.expect("Expected no parse errors");
    assert!(
        fragments.len() == 1,
        "Expected one fragment, found {}",
        fragments.len()
    );
    assert!(
        fragments[0].body
            == String::from(
                "def main():
    do_stuff()
    make_awesome()"
            ),
        "Unexpected code fragment {:?}",
        fragments[0].body
    );
    assert!(
        fragments[0].id == String::from("foobarbaz"),
        "Unexpected ID {:?}",
        fragments[0].id
    );
}

#[test]
fn tests_test_extract_fragments_close_before_open() {
    let fragments: Result<Vec<Fragment>, FileError<ParseError>> = extract_fragments(
        "# This is an example.

# >@ This is an error on line 3.
012345 The error is at column 2.
# @< This begins the fragment.
# >@ This line ends the fragment.",
        "test.py",
        &SymbolKey::default(),
    );

    let fragments = fragments.expect_err("Expected a parsing error");
    match fragments {
        FileError {
            err_type: ParseError::CloseBeforeOpen,
            line,
            col,
            ..
        } => {
            assert_eq!(line, 3, "Expected error on line 3, found line {:?}", line);
            assert_eq!(col, 2, "Expected error on col 2, found col {:?}", col);
        }
        _ => panic!("Expected ParseError::CloseBeforeOpen, got {:?}", fragments),
    }
}

#[test]
fn tests_test_extract_fragments_missing_id() {
    let fragments: Result<Vec<Fragment>, FileError<ParseError>> = extract_fragments(
        "# This is an example.

# @< This is an error on line 3: No ID.
012345 The error is at column 2.
# >@ This line ends the fragment.",
        "test.py",
        &SymbolKey::default(),
    );

    let fragments = fragments.expect_err("Expected a parsing error");
    match fragments {
        FileError {
            err_type: ParseError::MissingId,
            line,
            col,
            ..
        } => {
            assert_eq!(line, 3, "Expected error on line 3, found line {:?}", line);
            assert_eq!(col, 2, "Expected error on col 2, found col {:?}", col);
        }
        _ => panic!("Expected ParseError::MissingId, got {:?}", fragments),
    }
}

#[test]
fn tests_test_weave_good() {
    let text = "This is the first line!

@@1

Another line.";

    let frag = Fragment {
        id: String::from("1"),
        body: String::from("{Example Code}"),
        file: String::from("example.code"),
        line: 1,
        col: 0,
    };

    let mut annotations = AnnotationMap::new();
    annotations.insert(frag);
    let result =
        weave("test", text, &annotations, &SymbolKey::default()).expect("Expected weave to return Ok");

    assert_eq!(
        result,
        String::from(
            "This is the first line!

{Example Code}

Another line."
        )
    );
}

#[test]
fn tests_test_weave_missing_fragment() {
    let text = "This is the first line!

@@1

Another line.";

    let annotations = AnnotationMap::new();
    weave("test", text, &annotations, &SymbolKey::default())
        .expect_err("Expected weave to return an error");
}
