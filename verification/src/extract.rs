//! The fragment extractor (tangle): scans a file's lines, maintains a stack
//! of open fragments, and emits closed fragments with nesting flattened into
//! parent bodies.

use vstd::prelude::*;

use crate::errors::{FileError, IdExtractError, ParseError};
use crate::fragment::{
    frags_view, lemma_frags_view_drop_last, lemma_frags_view_push, Fragment, FragmentV,
};
use crate::ids::{extract_id, extract_id_model};
use crate::symbols::{SymbolKey, SymbolKeyV};
use crate::text::{
    find_sub, lemma_find_from_props, lemma_first_occ_props, lemma_split_on_len, line_count,
    split_lines, str_find, str_find_char, str_trim_end_char, trim_end_seq,
};

verus! {

/// The extractor's state: the fragments already closed, in close order, and
/// the stack of still-open fragments, outermost first.
#[verifier::ext_equal]
pub struct ScanState {
    pub frags: Seq<FragmentV>,
    pub stack: Seq<FragmentV>,
}

/// What one line does to the extractor's state.
pub enum LineStep {
    Cont(ScanState),
    Halt,
    Fail(ParseError, int),
}

/// A positioned parse error: the kind, the 1-based line, and the 0-based
/// column.
pub struct ParseErrV {
    pub kind: ParseError,
    pub line: nat,
    pub col: int,
}

/// The outcome of scanning a sequence of lines: still running, stopped at a
/// halt marker with the fragments closed so far, or failed.
pub enum ScanOut {
    Run(ScanState),
    Done(Seq<FragmentV>),
    Failed(ParseErrV),
}

/// Closing the innermost open fragment: its body loses trailing newlines, a
/// non-empty trimmed body is appended (plus one newline) to the parent still
/// on the stack, and the finished fragment joins the output, in close order.
pub open spec fn close_step(st: ScanState, file: Seq<char>) -> ScanState
    recommends
        st.stack.len() > 0,
{
    let fr = st.stack.last();
    let trimmed = trim_end_seq(fr.body, '\n');
    let popped = st.stack.drop_last();
    let new_stack = if popped.len() > 0 && trimmed.len() > 0 {
        let parent = popped.last();
        popped.update(
            popped.len() - 1,
            FragmentV { body: parent.body + trimmed + seq!['\n'], ..parent },
        )
    } else {
        popped
    };
    ScanState { frags: st.frags.push(FragmentV { body: trimmed, ..fr }), stack: new_stack }
}

/// A plain line inside an open fragment joins the innermost body, with a
/// newline after it.
pub open spec fn append_step(st: ScanState, line: Seq<char>) -> ScanState
    recommends
        st.stack.len() > 0,
{
    let top = st.stack.last();
    ScanState {
        frags: st.frags,
        stack: st.stack.update(
            st.stack.len() - 1,
            FragmentV { body: top.body + line + seq!['\n'], ..top },
        ),
    }
}

/// What one line does, checked in priority order: a fragment-open marker, a
/// fragment-close marker, a halt marker, body text of an open fragment, or
/// nothing.
pub open spec fn line_step(
    st: ScanState,
    line: Seq<char>,
    line_no: nat,
    file: Seq<char>,
    sym: SymbolKeyV,
) -> LineStep {
    match find_sub(line, sym.fragment_open) {
        Some(col) => match extract_id_model(line, col + sym.fragment_open.len()) {
            Ok(id) => LineStep::Cont(
                ScanState {
                    frags: st.frags,
                    stack: st.stack.push(
                        FragmentV {
                            body: Seq::empty(),
                            id: id,
                            file: file,
                            line: (line_no + 1) as nat,
                            col: 0,
                        },
                    ),
                },
            ),
            Err(IdExtractError::NoIdFound) => LineStep::Fail(ParseError::MissingId, col),
            Err(IdExtractError::ReservedCharacterUsed(_)) => LineStep::Fail(
                ParseError::IdExtractError,
                col,
            ),
        },
        None => match find_sub(line, sym.fragment_close) {
            Some(col) => if st.stack.len() > 0 {
                LineStep::Cont(close_step(st, file))
            } else {
                LineStep::Fail(ParseError::CloseBeforeOpen, col)
            },
            None => match find_sub(line, sym.halt) {
                Some(col) => if st.stack.len() > 0 {
                    LineStep::Fail(ParseError::HaltWhileOpen, col)
                } else {
                    LineStep::Halt
                },
                None => if st.stack.len() > 0 {
                    LineStep::Cont(append_step(st, line))
                } else {
                    LineStep::Cont(st)
                },
            },
        },
    }
}

/// Scanning a sequence of lines, stopping at the first halt or failure.
pub open spec fn scan_lines(
    st: ScanState,
    lines: Seq<Seq<char>>,
    line_no: nat,
    file: Seq<char>,
    sym: SymbolKeyV,
) -> ScanOut
    decreases lines.len(),
{
    if lines.len() == 0 {
        ScanOut::Run(st)
    } else {
        match line_step(st, lines[0], line_no, file, sym) {
            LineStep::Cont(st2) => scan_lines(st2, lines.drop_first(), line_no + 1, file, sym),
            LineStep::Halt => ScanOut::Done(st.frags),
            LineStep::Fail(kind, col) => ScanOut::Failed(
                ParseErrV { kind: kind, line: line_no, col: col },
            ),
        }
    }
}

pub open spec fn initial_state() -> ScanState {
    ScanState { frags: Seq::empty(), stack: Seq::empty() }
}

/// What extraction returns: the fragments of a full scan in close order, or
/// the first failure; a scan that runs out of input with a fragment still
/// open fails at the final line, column 0.
pub open spec fn extract_model(contents: Seq<char>, file: Seq<char>, sym: SymbolKeyV) -> Result<
    Seq<FragmentV>,
    ParseErrV,
> {
    match scan_lines(initial_state(), split_lines(contents), 1, file, sym) {
        ScanOut::Run(st) => if st.stack.len() == 0 {
            Ok(st.frags)
        } else {
            Err(
                ParseErrV {
                    kind: ParseError::UnclosedFragment,
                    line: line_count(contents),
                    col: 0,
                },
            )
        },
        ScanOut::Done(frags) => Ok(frags),
        ScanOut::Failed(e) => Err(e),
    }
}

/// A closed fragment whose trimmed body is empty contributes nothing to its
/// parent: the parent's frame is left exactly as it was, and the fragment
/// itself is recorded with an empty body.
pub proof fn lemma_empty_fragment_contributes_nothing(st: ScanState, file: Seq<char>)
    requires
        st.stack.len() >= 2,
        trim_end_seq(st.stack.last().body, '\n').len() == 0,
    ensures
        close_step(st, file).stack == st.stack.drop_last(),
        close_step(st, file).frags == st.frags.push(
            FragmentV { body: Seq::empty(), ..st.stack.last() },
        ),
{
    assert(trim_end_seq(st.stack.last().body, '\n') =~= Seq::<char>::empty());
}

/// A halt marker on a line with no fragment open stops extraction at once:
/// the lines after it are never scanned — whatever they hold, even text that
/// would otherwise fail the parse — and the fragments already closed are
/// returned.
pub proof fn lemma_halt_stops_scanning(
    st: ScanState,
    halt_line: Seq<char>,
    rest: Seq<Seq<char>>,
    line_no: nat,
    file: Seq<char>,
    sym: SymbolKeyV,
)
    requires
        find_sub(halt_line, sym.fragment_open) is None,
        find_sub(halt_line, sym.fragment_close) is None,
        find_sub(halt_line, sym.halt) is Some,
        st.stack.len() == 0,
    ensures
        scan_lines(st, seq![halt_line] + rest, line_no, file, sym) == ScanOut::Done(st.frags),
{
    assert((seq![halt_line] + rest)[0] == halt_line);
}

/// A halt marker while a fragment is open always fails with `HaltWhileOpen`
/// at the halt marker's line and column.
pub proof fn lemma_halt_while_open(
    st: ScanState,
    halt_line: Seq<char>,
    rest: Seq<Seq<char>>,
    line_no: nat,
    file: Seq<char>,
    sym: SymbolKeyV,
)
    requires
        find_sub(halt_line, sym.fragment_open) is None,
        find_sub(halt_line, sym.fragment_close) is None,
        find_sub(halt_line, sym.halt) is Some,
        st.stack.len() > 0,
    ensures
        scan_lines(st, seq![halt_line] + rest, line_no, file, sym) == ScanOut::Failed(
            ParseErrV {
                kind: ParseError::HaltWhileOpen,
                line: line_no,
                col: find_sub(halt_line, sym.halt)->Some_0,
            },
        ),
{
    assert((seq![halt_line] + rest)[0] == halt_line);
}

/// An input that ends while a fragment is still open fails with
/// `UnclosedFragment` at the final line, column 0.
pub proof fn lemma_unclosed_fragment(contents: Seq<char>, file: Seq<char>, sym: SymbolKeyV)
    requires
        ({
            let out = scan_lines(initial_state(), split_lines(contents), 1, file, sym);
            out is Run && out->Run_0.stack.len() > 0
        }),
    ensures
        extract_model(contents, file, sym) == Err::<Seq<FragmentV>, ParseErrV>(
            ParseErrV { kind: ParseError::UnclosedFragment, line: line_count(contents), col: 0 },
        ),
{
}

/// Applies one line to the executable state, mirroring `line_step`. Returns
/// `Ok(true)` when a halt marker stops the scan.
fn do_line(
    fragments: &mut Vec<Fragment>,
    stack: &mut Vec<Fragment>,
    line: &str,
    line_no: usize,
    filename: &str,
    symbols: &SymbolKey,
) -> (r: Result<bool, FileError<ParseError>>)
    requires
        symbols@.wf(),
        line_no + 1 <= usize::MAX,
    ensures
        ({
            let st0 = ScanState {
                frags: frags_view(old(fragments)@),
                stack: frags_view(old(stack)@),
            };
            match line_step(st0, line@, line_no as nat, filename@, symbols@) {
                LineStep::Cont(st2) => {
                    &&& r is Ok
                    &&& r->Ok_0 == false
                    &&& frags_view(final(fragments)@) == st2.frags
                    &&& frags_view(final(stack)@) == st2.stack
                },
                LineStep::Halt => {
                    &&& r is Ok
                    &&& r->Ok_0 == true
                    &&& final(fragments)@ == old(fragments)@
                    &&& final(stack)@ == old(stack)@
                },
                LineStep::Fail(kind, col) => {
                    &&& r is Err
                    &&& r->Err_0.err_type == kind
                    &&& r->Err_0.filename@ == filename@
                    &&& r->Err_0.line == line_no
                    &&& r->Err_0.col as int == col
                    &&& final(fragments)@ == old(fragments)@
                    &&& final(stack)@ == old(stack)@
                },
            }
        }),
{
    let fo = symbols.fragment_open();
    if let Some(col) = str_find(line, fo) {
        proof {
            lemma_find_from_props(line@, symbols@.fragment_open, 0);
        }
        let open_len = fo.unicode_len();
        match extract_id(line, col + open_len) {
            Ok(id) => {
                let frame = Fragment {
                    body: String::new(),
                    id: id,
                    file: String::from_str(filename),
                    line: line_no + 1,
                    col: 0,
                };
                proof {
                    lemma_frags_view_push(stack@, frame);
                    assert(frame@ == (FragmentV {
                        body: Seq::<char>::empty(),
                        id: frame.id@,
                        file: filename@,
                        line: (line_no + 1) as nat,
                        col: 0,
                    }));
                }
                stack.push(frame);
                Ok(false)
            },
            Err(IdExtractError::NoIdFound) => Err(
                FileError {
                    err_type: ParseError::MissingId,
                    filename: String::from_str(filename),
                    line: line_no,
                    col: col,
                    message: Some(
                        String::from_str(
                            "no fragment identifier found in fragment open symbol",
                        ),
                    ),
                },
            ),
            Err(IdExtractError::ReservedCharacterUsed(_)) => Err(
                FileError {
                    err_type: ParseError::IdExtractError,
                    filename: String::from_str(filename),
                    line: line_no,
                    col: col,
                    message: Some(
                        String::from_str(
                            "error parsing fragment identifier in fragment open symbol",
                        ),
                    ),
                },
            ),
        }
    } else if let Some(col) = str_find(line, symbols.fragment_close()) {
        if stack.len() > 0 {
            proof {
                lemma_frags_view_drop_last(stack@);
            }
            let closed = stack.pop().unwrap();
            let trimmed = String::from_str(str_trim_end_char(closed.body.as_str(), '\n'));
            let ghost popped = frags_view(stack@);
            if stack.len() > 0 && trimmed.unicode_len() > 0 {
                proof {
                    lemma_frags_view_drop_last(stack@);
                }
                let mut parent = stack.pop().unwrap();
                parent.body.append(trimmed.as_str());
                parent.body.append("\n");
                proof {
                    reveal_strlit("\n");
                    assert(("\n")@ =~= seq!['\n']);
                    lemma_frags_view_push(stack@, parent);
                    assert(frags_view(stack@).push(parent@) =~= popped.update(
                        popped.len() - 1,
                        parent@,
                    ));
                }
                stack.push(parent);
            }
            let done = Fragment {
                body: trimmed,
                id: closed.id,
                file: closed.file,
                line: closed.line,
                col: closed.col,
            };
            proof {
                lemma_frags_view_push(fragments@, done);
            }
            fragments.push(done);
            Ok(false)
        } else {
            Err(
                FileError {
                    err_type: ParseError::CloseBeforeOpen,
                    filename: String::from_str(filename),
                    line: line_no,
                    col: col,
                    message: Some(
                        String::from_str("fragment close symbol found without an open symbol"),
                    ),
                },
            )
        }
    } else if let Some(col) = str_find(line, symbols.halt()) {
        if stack.len() > 0 {
            Err(
                FileError {
                    err_type: ParseError::HaltWhileOpen,
                    filename: String::from_str(filename),
                    line: line_no,
                    col: col,
                    message: Some(
                        String::from_str("halt symbol found while a fragment was open"),
                    ),
                },
            )
        } else {
            Ok(true)
        }
    } else if stack.len() > 0 {
        proof {
            lemma_frags_view_drop_last(stack@);
        }
        let ghost pre = frags_view(stack@);
        let mut top = stack.pop().unwrap();
        top.body.append(line);
        top.body.append("\n");
        proof {
            reveal_strlit("\n");
            assert(("\n")@ =~= seq!['\n']);
            lemma_frags_view_push(stack@, top);
            assert(frags_view(stack@).push(top@) =~= pre.update(pre.len() - 1, top@));
        }
        stack.push(top);
        Ok(false)
    } else {
        Ok(false)
    }
}

/// Extracts every fragment of `contents`, scanning line by line with
/// 1-based line numbers; the returned list is in close order, so a child
/// fragment always stands before the ancestor that contained it.
pub fn extract_fragments(contents: &str, filename: &str, symbols: &SymbolKey) -> (r: Result<
    Vec<Fragment>,
    FileError<ParseError>,
>)
    requires
        symbols@.wf(),
        contents@.len() + 1 < usize::MAX,
    ensures
        match extract_model(contents@, filename@, symbols@) {
            Ok(frs) => r is Ok && frags_view(r->Ok_0@) == frs,
            Err(e) => {
                &&& r is Err
                &&& r->Err_0.err_type == e.kind
                &&& r->Err_0.filename@ == filename@
                &&& r->Err_0.line == e.line
                &&& r->Err_0.col as int == e.col
            },
        },
{
    let mut fragments: Vec<Fragment> = Vec::new();
    let mut stack: Vec<Fragment> = Vec::new();
    let mut rest: &str = contents;
    let mut line_no: usize = 1;
    let ghost lines = split_lines(contents@);
    proof {
        lemma_split_on_len(contents@, '\n');
        assert(frags_view(fragments@) =~= Seq::<FragmentV>::empty());
        assert(frags_view(stack@) =~= Seq::<FragmentV>::empty());
    }
    loop
        invariant_except_break
            symbols@.wf(),
            contents@.len() + 1 < usize::MAX,
            1 <= line_no,
            line_no - 1 + split_lines(rest@).len() == lines.len(),
            lines == split_lines(contents@),
            lines.len() <= contents@.len() + 1,
            scan_lines(initial_state(), lines, 1, filename@, symbols@) == scan_lines(
                ScanState { frags: frags_view(fragments@), stack: frags_view(stack@) },
                split_lines(rest@),
                line_no as nat,
                filename@,
                symbols@,
            ),
        ensures
            scan_lines(initial_state(), lines, 1, filename@, symbols@) == ScanOut::Run(
                ScanState { frags: frags_view(fragments@), stack: frags_view(stack@) },
            ),
            line_no == lines.len(),
            lines == split_lines(contents@),
        decreases rest@.len(),
    {
        let n = rest.unicode_len();
        let nl = str_find_char(rest, '\n', 0);
        proof {
            lemma_first_occ_props(rest@, '\n', 0);
            lemma_split_on_len(rest@, '\n');
        }
        if nl < n {
            let line = rest.substring_char(0, nl);
            proof {
                assert(line@ =~= rest@.take(nl as int));
                assert(split_lines(rest@) == seq![line@] + split_lines(rest@.skip(nl + 1)));
                assert((seq![line@] + split_lines(rest@.skip(nl + 1))).drop_first()
                    =~= split_lines(rest@.skip(nl + 1)));
                assert((seq![line@] + split_lines(rest@.skip(nl + 1)))[0] == line@);
            }
            match do_line(&mut fragments, &mut stack, line, line_no, filename, symbols) {
                Ok(true) => {
                    return Ok(fragments);
                },
                Ok(false) => {},
                Err(e) => {
                    return Err(e);
                },
            }
            let new_rest = rest.substring_char(nl + 1, n);
            proof {
                assert(new_rest@ =~= rest@.skip(nl + 1));
            }
            rest = new_rest;
            line_no += 1;
        } else {
            proof {
                assert(split_lines(rest@) == seq![rest@]);
                assert(seq![rest@][0] == rest@);
                assert(seq![rest@].drop_first() =~= Seq::<Seq<char>>::empty());
            }
            match do_line(&mut fragments, &mut stack, rest, line_no, filename, symbols) {
                Ok(true) => {
                    return Ok(fragments);
                },
                Ok(false) => {},
                Err(e) => {
                    return Err(e);
                },
            }
            proof {
                assert(scan_lines(
                    ScanState { frags: frags_view(fragments@), stack: frags_view(stack@) },
                    Seq::<Seq<char>>::empty(),
                    (line_no + 1) as nat,
                    filename@,
                    symbols@,
                ) == ScanOut::Run(
                    ScanState { frags: frags_view(fragments@), stack: frags_view(stack@) },
                ));
            }
            break ;
        }
    }
    if stack.is_empty() {
        Ok(fragments)
    } else {
        let n0 = contents.unicode_len();
        let lc: usize = if n0 == 0 {
            0
        } else if contents.get_char(n0 - 1) == '\n' {
            line_no - 1
        } else {
            line_no
        };
        Err(
            FileError {
                err_type: ParseError::UnclosedFragment,
                filename: String::from_str(filename),
                line: lc,
                col: 0,
                message: Some(String::from_str("not all fragments were closed")),
            },
        )
    }
}

} // verus!
