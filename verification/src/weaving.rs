//! The weave engine: re-inserts extracted fragments and metadata about them
//! into prose text. The outer scanner classifies each line (insertion,
//! pattern, metadata, plain); a character-level sub-scanner tokenizes the
//! metadata references embedded in a line.

use vstd::prelude::*;

use crate::annotations::{lookup, AnnotationMap};
use crate::chars::{id_safe_char, is_id_safe_char, is_ref_safe_char, ref_safe_char};
use crate::errors::{FileError, IdExtractError, WeaveError, WeaveErrorV};
use crate::fragment::FragmentV;
use crate::ids::{extract_id, extract_id_model};
use crate::paths::{find_relative_path, rel_path};
use crate::pattern::{extract_pattern, pattern_span, regex_compiles, regex_matches};
use crate::symbols::{SymbolKey, SymbolKeyV};
use crate::text::{
    dec_str, find_sub, join_lines, lemma_first_occ_unique, lemma_join_sep_snoc,
    lemma_split_on_len, lemma_starts_with_skip, lemma_trim_start_idx_props, split_lines, split_on,
    starts_with, str_find, str_find_char, str_starts_with, str_trim_start, strings_view,
    trim_start_idx, trim_start_seq, usize_to_string,
};

verus! {

/// A positioned weave error: the kind, the 1-based line, and the 0-based
/// column.
pub struct WeaveErrV {
    pub kind: WeaveErrorV,
    pub line: nat,
    pub col: int,
}

// ---------------------------------------------------------------------------
// Metadata resolution
// ---------------------------------------------------------------------------

/// `word` with every leading copy of the marker `m` removed.
pub open spec fn strip_marker(w: Seq<char>, m: Seq<char>) -> Seq<char>
    decreases w.len(),
{
    if m.len() >= 1 && starts_with(w, m) {
        strip_marker(w.skip(m.len() as int), m)
    } else {
        w
    }
}

/// Case-insensitive match of one character against an ASCII lowercase one.
pub open spec fn ci_char_eq(a: char, b: char) -> bool {
    a == b || (('A' as u32) <= a as u32 && a as u32 <= ('Z' as u32) && a as u32 + 32 == b as u32)
}

/// Case-insensitive match against an ASCII lowercase name.
pub open spec fn ci_eq(a: Seq<char>, b: Seq<char>) -> bool {
    a.len() == b.len() && forall|i: int| 0 <= i < a.len() ==> ci_char_eq(a[i], b[i])
}

pub open spec fn prop_file() -> Seq<char> {
    seq!['f', 'i', 'l', 'e']
}

pub open spec fn prop_line() -> Seq<char> {
    seq!['l', 'i', 'n', 'e']
}

pub open spec fn prop_col() -> Seq<char> {
    seq!['c', 'o', 'l']
}

pub open spec fn prop_loc() -> Seq<char> {
    seq!['l', 'o', 'c']
}

pub open spec fn prop_abspath() -> Seq<char> {
    seq!['a', 'b', 's', 'p', 'a', 't', 'h']
}

pub open spec fn prop_relpath() -> Seq<char> {
    seq!['r', 'e', 'l', 'p', 'a', 't', 'h']
}

/// The `loc` property: `<file> (<line>:<col>)`.
pub open spec fn loc_text(f: FragmentV) -> Seq<char> {
    f.file + seq![' ', '('] + dec_str(f.line) + seq![':'] + dec_str(f.col) + seq![')']
}

/// What metadata resolution returns for `word`, which should read
/// `<fragment-id><separator><property>` after the metadata marker: the
/// property's textual value, or the failure, with the column advanced past
/// the marker (and, for an unknown property, to the property text).
pub open spec fn expand_metadata_model(
    word: Seq<char>,
    filename: Seq<char>,
    line: nat,
    col: int,
    anns: Seq<FragmentV>,
    sym: SymbolKeyV,
) -> Result<Seq<char>, WeaveErrV> {
    let w = strip_marker(word, sym.metadata);
    let c2 = col + sym.metadata.len();
    let ps = split_on(w, sym.separator);
    if ps.len() == 2 {
        let frag_id = ps[0];
        let prop = ps[1];
        match lookup(anns, frag_id) {
            Some(f) => if ci_eq(prop, prop_file()) {
                Ok(f.file)
            } else if ci_eq(prop, prop_line()) {
                Ok(dec_str(f.line))
            } else if ci_eq(prop, prop_col()) {
                Ok(dec_str(f.col))
            } else if ci_eq(prop, prop_loc()) {
                Ok(loc_text(f))
            } else if ci_eq(prop, prop_abspath()) {
                Ok(seq!['/'] + f.file)
            } else if ci_eq(prop, prop_relpath()) {
                Ok(rel_path(filename, f.file))
            } else {
                Err(
                    WeaveErrV {
                        kind: WeaveErrorV::UnknownProperty(prop),
                        line: line,
                        col: c2 + frag_id.len() + 1,
                    },
                )
            },
            None => Err(
                WeaveErrV { kind: WeaveErrorV::MissingFragment(frag_id), line: line, col: c2 },
            ),
        }
    } else {
        Err(WeaveErrV { kind: WeaveErrorV::BadMetadata(w), line: line, col: c2 })
    }
}

/// Case-insensitive comparison of `a` against the ASCII lowercase name `b`.
fn str_ci_eq(a: &str, b: &str) -> (r: bool)
    ensures
        r == ci_eq(a@, b@),
{
    let n = a.unicode_len();
    if n != b.unicode_len() {
        return false;
    }
    let mut i: usize = 0;
    while i < n
        invariant
            0 <= i <= n,
            n == a@.len(),
            n == b@.len(),
            forall|k: int| 0 <= k < i ==> ci_char_eq(a@[k], b@[k]),
        decreases n - i,
    {
        let ca = a.get_char(i);
        let cb = b.get_char(i);
        let au = ca as u32;
        if !(ca == cb || (('A' as u32) <= au && au <= ('Z' as u32) && au + 32 == cb as u32)) {
            return false;
        }
        i += 1;
    }
    true
}

/// Resolves the metadata reference `word` (`<id><separator><property>`,
/// possibly still carrying the metadata marker) against the annotation map.
/// `line` and `col` position the reference in the woven file for
/// diagnostics.
pub fn expand_metadata(
    word: &str,
    filename: &str,
    line: usize,
    col: usize,
    annotations: &AnnotationMap,
    symbols: &SymbolKey,
) -> (r: Result<String, FileError<WeaveError>>)
    requires
        symbols@.wf(),
        col + symbols@.metadata.len() + word@.len() + 1 <= usize::MAX,
    ensures
        match expand_metadata_model(
            word@,
            filename@,
            line as nat,
            col as int,
            annotations.entries(),
            symbols@,
        ) {
            Ok(text) => r is Ok && r->Ok_0@ == text,
            Err(e) => {
                &&& r is Err
                &&& r->Err_0.err_type@ == e.kind
                &&& r->Err_0.filename@ == filename@
                &&& r->Err_0.line == e.line
                &&& r->Err_0.col as int == e.col
            },
        },
{
    let m = symbols.metadata();
    let mlen = m.unicode_len();
    let mut w: &str = word;
    loop
        invariant_except_break
            m@ == symbols@.metadata,
            mlen == symbols@.metadata.len(),
            mlen >= 1,
            w@.len() <= word@.len(),
            strip_marker(word@, symbols@.metadata) == strip_marker(w@, symbols@.metadata),
        ensures
            w@.len() <= word@.len(),
            w@ == strip_marker(word@, symbols@.metadata),
        decreases w@.len(),
    {
        if !str_starts_with(w, m) {
            break ;
        }
        let new_w = w.substring_char(mlen, w.unicode_len());
        proof {
            assert(new_w@ =~= w@.skip(mlen as int));
        }
        w = new_w;
    }
    let c2 = col + mlen;
    let n = w.unicode_len();
    let sep = symbols.separator();
    let j = str_find_char(w, sep, 0);
    proof {
        crate::text::lemma_first_occ_props(w@, sep, 0);
        lemma_split_on_len(w@, sep);
    }
    if j >= n {
        // no separator: one piece only
        proof {
            assert(split_on(w@, sep) == seq![w@]);
        }
        return Err(
            FileError {
                err_type: WeaveError::BadMetadata(String::from_str(w)),
                filename: String::from_str(filename),
                line: line,
                col: c2,
                message: Some(String::from_str("malformed property lookup")),
            },
        );
    }
    proof {
        assert(split_on(w@, sep) == seq![w@.take(j as int)] + split_on(w@.skip(j + 1), sep));
    }
    let k = str_find_char(w, sep, j + 1);
    proof {
        crate::text::lemma_first_occ_props(w@, sep, j + 1);
        assert forall|t: int| 0 <= t < w@.skip(j + 1).len() implies #[trigger] w@.skip(j + 1)[t]
            == w@[j + 1 + t] by {}
        lemma_first_occ_unique(w@.skip(j + 1), sep, 0, k - (j + 1));
        lemma_split_on_len(w@.skip(j + 1).skip(k - j), sep);
    }
    if k < n {
        // a second separator: three or more pieces
        proof {
            assert(split_on(w@.skip(j + 1), sep) == seq![w@.skip(j + 1).take(k - (j + 1))]
                + split_on(w@.skip(j + 1).skip(k - j), sep));
            assert(split_on(w@, sep).len() >= 3);
        }
        return Err(
            FileError {
                err_type: WeaveError::BadMetadata(String::from_str(w)),
                filename: String::from_str(filename),
                line: line,
                col: c2,
                message: Some(String::from_str("malformed property lookup")),
            },
        );
    }
    proof {
        assert(split_on(w@.skip(j + 1), sep) == seq![w@.skip(j + 1)]);
        assert(split_on(w@, sep) =~= seq![w@.take(j as int), w@.skip(j + 1)]);
        assert(split_on(w@, sep).len() == 2);
        assert(split_on(w@, sep)[0] == w@.take(j as int));
        assert(split_on(w@, sep)[1] == w@.skip(j + 1));
    }
    let frag_id = w.substring_char(0, j);
    let prop = w.substring_char(j + 1, n);
    proof {
        assert(frag_id@ =~= w@.take(j as int));
        assert(prop@ =~= w@.skip(j + 1));
    }
    match annotations.get(frag_id) {
        Some(f) => {
            proof {
                reveal_strlit("file");
                reveal_strlit("line");
                reveal_strlit("col");
                reveal_strlit("loc");
                reveal_strlit("abspath");
                reveal_strlit("relpath");
                assert(("file")@ =~= prop_file());
                assert(("line")@ =~= prop_line());
                assert(("col")@ =~= prop_col());
                assert(("loc")@ =~= prop_loc());
                assert(("abspath")@ =~= prop_abspath());
                assert(("relpath")@ =~= prop_relpath());
            }
            if str_ci_eq(prop, "file") {
                Ok(f.file.clone())
            } else if str_ci_eq(prop, "line") {
                Ok(usize_to_string(f.line))
            } else if str_ci_eq(prop, "col") {
                Ok(usize_to_string(f.col))
            } else if str_ci_eq(prop, "loc") {
                let mut s = f.file.clone();
                proof {
                    reveal_strlit(" (");
                    reveal_strlit(":");
                    reveal_strlit(")");
                    assert((" (")@ =~= seq![' ', '(']);
                    assert((":")@ =~= seq![':']);
                    assert((")")@ =~= seq![')']);
                }
                s.append(" (");
                let line_str = usize_to_string(f.line);
                s.append(line_str.as_str());
                s.append(":");
                let col_str = usize_to_string(f.col);
                s.append(col_str.as_str());
                s.append(")");
                proof {
                    assert(s@ =~= loc_text(f@));
                }
                Ok(s)
            } else if str_ci_eq(prop, "abspath") {
                let mut s = String::from_str("/");
                proof {
                    reveal_strlit("/");
                    assert(("/")@ =~= seq!['/']);
                }
                s.append(f.file.as_str());
                proof {
                    assert(s@ =~= seq!['/'] + f@.file);
                }
                Ok(s)
            } else if str_ci_eq(prop, "relpath") {
                Ok(find_relative_path(filename, f.file.as_str()))
            } else {
                Err(
                    FileError {
                        err_type: WeaveError::UnknownProperty(String::from_str(prop)),
                        filename: String::from_str(filename),
                        line: line,
                        col: c2 + j + 1,
                        message: Some(String::from_str("unknown metadata type")),
                    },
                )
            }
        },
        None => Err(
            FileError {
                err_type: WeaveError::MissingFragment(String::from_str(frag_id)),
                filename: String::from_str(filename),
                line: line,
                col: c2,
                message: Some(String::from_str("unknown fragment")),
            },
        ),
    }
}

// ---------------------------------------------------------------------------
// The metadata sub-scanner
// ---------------------------------------------------------------------------

/// The states of the character-level sub-scanner that tokenizes metadata
/// references within one line.
#[derive(Debug, PartialEq, Eq, Clone, Copy)]
pub enum ScannerState {
    SearchingForRefStart,
    ReadingMetaStart,
    ReadingId,
    ReadingRefType,
}

/// The sub-scanner, one character at a time from `col`: literal text is kept
/// as it stands, `marker id separator property` sequences are resolved in
/// place, and a reference still open at the end of the line is flushed there.
/// `start` marks where the piece being read began.
pub open spec fn refs_scan(
    line: Seq<char>,
    filename: Seq<char>,
    line_no: nat,
    anns: Seq<FragmentV>,
    sym: SymbolKeyV,
    col: int,
    start: int,
    state: ScannerState,
) -> Result<Seq<char>, WeaveErrV>
    decreases line.len() - col,
{
    if !(0 <= col < line.len()) {
        if state is ReadingRefType {
            Ok(Seq::empty())
        } else {
            Ok(line.skip(start))
        }
    } else {
        let c = line[col];
        match state {
            ScannerState::SearchingForRefStart => {
                if starts_with(line.skip(col), sym.metadata) {
                    let lit = if col > start {
                        line.subrange(start, col)
                    } else {
                        Seq::<char>::empty()
                    };
                    match refs_scan(
                        line,
                        filename,
                        line_no,
                        anns,
                        sym,
                        col + 1,
                        col,
                        ScannerState::ReadingMetaStart,
                    ) {
                        Ok(rest) => Ok(lit + rest),
                        Err(e) => Err(e),
                    }
                } else {
                    refs_scan(
                        line,
                        filename,
                        line_no,
                        anns,
                        sym,
                        col + 1,
                        start,
                        ScannerState::SearchingForRefStart,
                    )
                }
            },
            ScannerState::ReadingMetaStart => {
                if col - start >= sym.metadata.len() {
                    refs_scan(line, filename, line_no, anns, sym, col + 1, start, ScannerState::ReadingId)
                } else if c == sym.metadata[col - start] {
                    refs_scan(
                        line,
                        filename,
                        line_no,
                        anns,
                        sym,
                        col + 1,
                        start,
                        ScannerState::ReadingMetaStart,
                    )
                } else {
                    Err(WeaveErrV { kind: WeaveErrorV::MetadataParseError, line: line_no, col: col })
                }
            },
            ScannerState::ReadingId => {
                if id_safe_char(c) {
                    refs_scan(line, filename, line_no, anns, sym, col + 1, start, ScannerState::ReadingId)
                } else if c == sym.separator {
                    refs_scan(
                        line,
                        filename,
                        line_no,
                        anns,
                        sym,
                        col + 1,
                        start,
                        ScannerState::ReadingRefType,
                    )
                } else {
                    Err(WeaveErrV { kind: WeaveErrorV::MetadataParseError, line: line_no, col: col })
                }
            },
            ScannerState::ReadingRefType => {
                if !ref_safe_char(c) {
                    match expand_metadata_model(
                        line.subrange(start, col),
                        filename,
                        line_no,
                        start,
                        anns,
                        sym,
                    ) {
                        Ok(exp) => match refs_scan(
                            line,
                            filename,
                            line_no,
                            anns,
                            sym,
                            col + 1,
                            col,
                            ScannerState::SearchingForRefStart,
                        ) {
                            Ok(rest) => Ok(exp + rest),
                            Err(e) => Err(e),
                        },
                        Err(e) => Err(e),
                    }
                } else if col == line.len() - 1 {
                    match expand_metadata_model(
                        line.subrange(start, col + 1),
                        filename,
                        line_no,
                        start,
                        anns,
                        sym,
                    ) {
                        Ok(exp) => Ok(exp),
                        Err(e) => Err(e),
                    }
                } else {
                    refs_scan(
                        line,
                        filename,
                        line_no,
                        anns,
                        sym,
                        col + 1,
                        start,
                        ScannerState::ReadingRefType,
                    )
                }
            },
        }
    }
}

/// What the sub-scanner yields for a whole line.
pub open spec fn expand_refs_model(
    line: Seq<char>,
    filename: Seq<char>,
    line_no: nat,
    anns: Seq<FragmentV>,
    sym: SymbolKeyV,
) -> Result<Seq<char>, WeaveErrV> {
    refs_scan(line, filename, line_no, anns, sym, 0, 0, ScannerState::SearchingForRefStart)
}

/// Expands every metadata reference embedded in `line`, keeping the
/// surrounding text in place.
pub fn expand_metadata_refs(
    line: &str,
    filename: &str,
    line_no: usize,
    annotations: &AnnotationMap,
    symbols: &SymbolKey,
) -> (r: Result<String, FileError<WeaveError>>)
    requires
        symbols@.wf(),
        line@.len() + symbols@.metadata.len() + 1 <= usize::MAX,
    ensures
        match expand_refs_model(
            line@,
            filename@,
            line_no as nat,
            annotations.entries(),
            symbols@,
        ) {
            Ok(text) => r is Ok && r->Ok_0@ == text,
            Err(e) => {
                &&& r is Err
                &&& r->Err_0.err_type@ == e.kind
                &&& r->Err_0.filename@ == filename@
                &&& r->Err_0.line == e.line
                &&& r->Err_0.col as int == e.col
            },
        },
{
    let ghost anns = annotations.entries();
    let ghost symv = symbols@;
    let ghost full = expand_refs_model(line@, filename@, line_no as nat, anns, symv);
    let n = line.unicode_len();
    let m = symbols.metadata();
    let mlen = m.unicode_len();
    let mut out = String::new();
    let mut col: usize = 0;
    let mut start: usize = 0;
    let mut state: ScannerState = ScannerState::SearchingForRefStart;
    proof {
        let nxt = refs_scan(line@, filename@, line_no as nat, anns, symv, 0, 0, state);
        if nxt is Ok {
            assert(Seq::<char>::empty() + nxt->Ok_0 =~= nxt->Ok_0);
        }
    }
    while col < n
        invariant
            n == line@.len(),
            m@ == symv.metadata,
            mlen == symv.metadata.len(),
            mlen >= 1,
            n + mlen + 1 <= usize::MAX,
            symv == symbols@,
            symv.wf(),
            anns == annotations.entries(),
            full == expand_refs_model(line@, filename@, line_no as nat, anns, symv),
            0 <= start <= col <= n,
            full == (match refs_scan(
                line@,
                filename@,
                line_no as nat,
                anns,
                symv,
                col as int,
                start as int,
                state,
            ) {
                Ok(rest) => Ok::<Seq<char>, WeaveErrV>(out@ + rest),
                Err(e) => Err::<Seq<char>, WeaveErrV>(e),
            }),
        decreases n - col,
    {
        let c = line.get_char(col);
        let ghost old_out = out@;
        let ghost old_col = col as int;
        let ghost old_start = start as int;
        match state {
            ScannerState::SearchingForRefStart => {
                proof {
                    lemma_starts_with_skip(line@, symv.metadata, col as int);
                }
                let matched = col + mlen <= n && crate::text::str_match_at(line, m, col);
                if matched {
                    if col > start {
                        out.append(line.substring_char(start, col));
                    }
                    proof {
                        let nxt = refs_scan(
                            line@,
                            filename@,
                            line_no as nat,
                            anns,
                            symv,
                            old_col + 1,
                            old_col,
                            ScannerState::ReadingMetaStart,
                        );
                        let lit = if old_col > old_start {
                            line@.subrange(old_start, old_col)
                        } else {
                            Seq::<char>::empty()
                        };
                        assert(out@ =~= old_out + lit);
                        if nxt is Ok {
                            assert(old_out + (lit + nxt->Ok_0) =~= out@ + nxt->Ok_0);
                        }
                    }
                    start = col;
                    state = ScannerState::ReadingMetaStart;
                }
                col += 1;
            },
            ScannerState::ReadingMetaStart => {
                let k = col - start;
                if k >= mlen {
                    state = ScannerState::ReadingId;
                } else if c == m.get_char(k) {
                } else {
                    return Err(
                        FileError {
                            err_type: WeaveError::MetadataParseError,
                            filename: String::from_str(filename),
                            line: line_no,
                            col: col,
                            message: Some(
                                String::from_str(
                                    "unexpected character while reading metadata symbol",
                                ),
                            ),
                        },
                    );
                }
                col += 1;
            },
            ScannerState::ReadingId => {
                if is_id_safe_char(c) {
                } else if c == symbols.separator() {
                    state = ScannerState::ReadingRefType;
                } else {
                    return Err(
                        FileError {
                            err_type: WeaveError::MetadataParseError,
                            filename: String::from_str(filename),
                            line: line_no,
                            col: col,
                            message: Some(
                                String::from_str(
                                    "unexpected character while reading a metadata identifier",
                                ),
                            ),
                        },
                    );
                }
                col += 1;
            },
            ScannerState::ReadingRefType => {
                if !is_ref_safe_char(c) {
                    let word = line.substring_char(start, col);
                    proof {
                        assert(word@ =~= line@.subrange(old_start, old_col));
                    }
                    match expand_metadata(word, filename, line_no, start, annotations, symbols) {
                        Ok(exp) => {
                            out.append(exp.as_str());
                            proof {
                                let nxt = refs_scan(
                                    line@,
                                    filename@,
                                    line_no as nat,
                                    anns,
                                    symv,
                                    old_col + 1,
                                    old_col,
                                    ScannerState::SearchingForRefStart,
                                );
                                if nxt is Ok {
                                    assert(old_out + (exp@ + nxt->Ok_0) =~= out@ + nxt->Ok_0);
                                }
                            }
                        },
                        Err(e) => {
                            return Err(e);
                        },
                    }
                    start = col;
                    state = ScannerState::SearchingForRefStart;
                    col += 1;
                } else if col == n - 1 {
                    let word = line.substring_char(start, col + 1);
                    proof {
                        assert(word@ =~= line@.subrange(old_start, old_col + 1));
                    }
                    match expand_metadata(word, filename, line_no, start, annotations, symbols) {
                        Ok(exp) => {
                            out.append(exp.as_str());
                            proof {
                                assert(line@.skip(old_col + 1).len() == 0);
                                assert(out@ + line@.skip(old_col + 1) =~= old_out + exp@);
                            }
                        },
                        Err(e) => {
                            return Err(e);
                        },
                    }
                    start = col + 1;
                    state = ScannerState::SearchingForRefStart;
                    col += 1;
                } else {
                    col += 1;
                }
            },
        }
    }
    proof {
        assert(col == n);
    }
    match state {
        ScannerState::ReadingRefType => Ok(out),
        _ => {
            out.append(line.substring_char(start, n));
            proof {
                assert(line@.subrange(start as int, n as int) =~= line@.skip(start as int));
            }
            Ok(out)
        },
    }
}

// ---------------------------------------------------------------------------
// The line classifier and the weave driver
// ---------------------------------------------------------------------------

/// The bodies of the fragments whose identifiers match the pattern, in the
/// order the annotation map iterates them: ascending identifier order.
pub open spec fn matching_bodies(anns: Seq<FragmentV>, pat: Seq<char>) -> Seq<Seq<char>> {
    anns.filter(|f: FragmentV| regex_matches(pat, f.id)).map_values(|f: FragmentV| f.body)
}

proof fn lemma_matching_bodies_snoc(anns: Seq<FragmentV>, pat: Seq<char>, i: int)
    requires
        0 <= i < anns.len(),
    ensures
        matching_bodies(anns.take(i + 1), pat) == if regex_matches(pat, anns[i].id) {
            matching_bodies(anns.take(i), pat).push(anns[i].body)
        } else {
            matching_bodies(anns.take(i), pat)
        },
{
    reveal(Seq::filter);
    let pred = |f: FragmentV| regex_matches(pat, f.id);
    assert(anns.take(i + 1).drop_last() =~= anns.take(i));
    assert(anns.take(i + 1).last() == anns[i]);
    if pred(anns[i]) {
        assert(anns.take(i + 1).filter(pred) == anns.take(i).filter(pred).push(anns[i]));
        assert(matching_bodies(anns.take(i + 1), pat) =~= matching_bodies(anns.take(i), pat).push(
            anns[i].body,
        ));
    } else {
        assert(anns.take(i + 1).filter(pred) == anns.take(i).filter(pred));
    }
}

/// What weaving does with one line, classified by its left-trimmed prefix:
/// an insertion line is replaced by the named fragment's body; a pattern
/// line by the bodies of every matching fragment, in ascending identifier
/// order; a line holding the metadata marker is run through the sub-scanner;
/// any other line is copied through unchanged. A missing fragment is
/// reported at the insertion marker's own column: the width of the
/// whitespace trimmed off the line's start.
pub open spec fn weave_line_model(
    line: Seq<char>,
    filename: Seq<char>,
    line_no: nat,
    anns: Seq<FragmentV>,
    sym: SymbolKeyV,
) -> Result<Seq<Seq<char>>, WeaveErrV> {
    let lt = trim_start_seq(line);
    if starts_with(lt, sym.insertion) {
        match extract_id_model(lt, sym.insertion.len() as int) {
            Ok(id) => match lookup(anns, id) {
                Some(f) => Ok(seq![f.body]),
                None => Err(
                    WeaveErrV {
                        kind: WeaveErrorV::MissingFragment(id),
                        line: line_no,
                        col: trim_start_idx(line),
                    },
                ),
            },
            Err(IdExtractError::NoIdFound) => Err(
                WeaveErrV { kind: WeaveErrorV::MissingId, line: line_no, col: 0 },
            ),
            Err(IdExtractError::ReservedCharacterUsed(_)) => Err(
                WeaveErrV { kind: WeaveErrorV::IdExtractError, line: line_no, col: 0 },
            ),
        }
    } else if starts_with(lt, sym.pattern) {
        let pat = pattern_span(lt, sym.pattern.len() as int);
        if pat.len() == 0 {
            Err(WeaveErrV { kind: WeaveErrorV::PatternExtractError, line: line_no, col: 0 })
        } else if regex_compiles(pat) {
            Ok(matching_bodies(anns, pat))
        } else {
            Err(WeaveErrV { kind: WeaveErrorV::PatternExtractError, line: line_no, col: 0 })
        }
    } else if find_sub(line, sym.metadata) is Some {
        match expand_refs_model(line, filename, line_no, anns, sym) {
            Ok(text) => Ok(seq![text]),
            Err(e) => Err(e),
        }
    } else {
        Ok(seq![line])
    }
}

/// Weaving a sequence of lines: the pieces of every line, concatenated, or
/// the first failure.
pub open spec fn weave_lines_model(
    lines: Seq<Seq<char>>,
    filename: Seq<char>,
    line_no: nat,
    anns: Seq<FragmentV>,
    sym: SymbolKeyV,
) -> Result<Seq<Seq<char>>, WeaveErrV>
    decreases lines.len(),
{
    if lines.len() == 0 {
        Ok(Seq::empty())
    } else {
        match weave_line_model(lines[0], filename, line_no, anns, sym) {
            Ok(ps) => match weave_lines_model(lines.drop_first(), filename, line_no + 1, anns, sym) {
                Ok(rest) => Ok(ps + rest),
                Err(e) => Err(e),
            },
            Err(e) => Err(e),
        }
    }
}

/// `s` ends with a newline character.
pub open spec fn ends_with_newline(s: Seq<char>) -> bool {
    s.len() > 0 && s[s.len() - 1] == '\n'
}

/// What weaving returns: every line's pieces, rejoined with newlines. A
/// trailing newline of the input is preserved in the output; the rejoin
/// alone can lose it when every content line expands to no piece at all (a
/// pattern line matching nothing), so it is restored then. No trailing
/// newline is invented when the input lacks one.
pub open spec fn weave_model(
    contents: Seq<char>,
    filename: Seq<char>,
    anns: Seq<FragmentV>,
    sym: SymbolKeyV,
) -> Result<Seq<char>, WeaveErrV> {
    match weave_lines_model(split_lines(contents), filename, 1, anns, sym) {
        Ok(ps) => {
            let text = join_lines(ps);
            if ends_with_newline(contents) && !ends_with_newline(text) {
                Ok(text + seq!['\n'])
            } else {
                Ok(text)
            }
        },
        Err(e) => Err(e),
    }
}

/// A line that triggers no handling: not an insertion or pattern line, and
/// holding no metadata marker.
pub open spec fn plain_line(line: Seq<char>, sym: SymbolKeyV) -> bool {
    &&& !starts_with(trim_start_seq(line), sym.insertion)
    &&& !starts_with(trim_start_seq(line), sym.pattern)
    &&& find_sub(line, sym.metadata) is None
}

proof fn lemma_weave_plain_lines(
    lines: Seq<Seq<char>>,
    filename: Seq<char>,
    line_no: nat,
    anns: Seq<FragmentV>,
    sym: SymbolKeyV,
)
    requires
        forall|i: int| 0 <= i < lines.len() ==> plain_line(#[trigger] lines[i], sym),
    ensures
        weave_lines_model(lines, filename, line_no, anns, sym) == Ok::<Seq<Seq<char>>, WeaveErrV>(
            lines,
        ),
    decreases lines.len(),
{
    if lines.len() == 0 {
        assert(lines =~= Seq::<Seq<char>>::empty());
    } else {
        assert(plain_line(lines[0], sym));
        assert forall|i: int| 0 <= i < lines.drop_first().len() implies plain_line(
            #[trigger] lines.drop_first()[i],
            sym,
        ) by {
            assert(lines.drop_first()[i] == lines[i + 1]);
        }
        lemma_weave_plain_lines(lines.drop_first(), filename, line_no + 1, anns, sym);
        assert(seq![lines[0]] + lines.drop_first() =~= lines);
    }
}

/// Weaving text that holds no insertion, pattern or metadata marker returns
/// the text unchanged — character for character, a trailing newline
/// included — whatever the annotation map holds.
pub proof fn lemma_weave_no_markers_is_identity(
    contents: Seq<char>,
    filename: Seq<char>,
    anns: Seq<FragmentV>,
    sym: SymbolKeyV,
)
    requires
        forall|i: int|
            0 <= i < split_lines(contents).len() ==> plain_line(
                #[trigger] split_lines(contents)[i],
                sym,
            ),
    ensures
        weave_model(contents, filename, anns, sym) == Ok::<Seq<char>, WeaveErrV>(contents),
{
    lemma_weave_plain_lines(split_lines(contents), filename, 1, anns, sym);
    crate::text::lemma_join_split_id(contents, '\n');
}

proof fn lemma_filter_members(s: Seq<FragmentV>, pred: spec_fn(FragmentV) -> bool)
    ensures
        forall|i: int|
            0 <= i < s.filter(pred).len() ==> exists|k: int|
                0 <= k < s.len() && s[k] == #[trigger] s.filter(pred)[i],
    decreases s.len(),
{
    reveal(Seq::filter);
    if s.len() > 0 {
        lemma_filter_members(s.drop_last(), pred);
        let out = s.filter(pred);
        let fpre = s.drop_last().filter(pred);
        assert forall|i: int| 0 <= i < out.len() implies exists|k: int|
            0 <= k < s.len() && s[k] == #[trigger] out[i] by {
            if pred(s.last()) && i == out.len() - 1 {
                assert(s[s.len() - 1] == out[i]);
            } else {
                assert(out[i] == fpre[i]);
                let k = choose|k: int| 0 <= k < s.drop_last().len() && s.drop_last()[k] == fpre[i];
                assert(s[k] == out[i]);
            }
        }
    }
}

/// Pattern expansion keeps the map's order: when the annotation map's
/// identifiers are strictly ascending, the fragments a pattern selects are
/// still strictly ascending by identifier.
pub proof fn lemma_pattern_matches_ascending(anns: Seq<FragmentV>, pat: Seq<char>)
    requires
        crate::annotations::ascending_ids(anns),
    ensures
        crate::annotations::ascending_ids(
            anns.filter(|f: FragmentV| regex_matches(pat, f.id)),
        ),
    decreases anns.len(),
{
    reveal(Seq::filter);
    let pred = |f: FragmentV| regex_matches(pat, f.id);
    if anns.len() > 0 {
        let pre = anns.drop_last();
        assert forall|i: int, j: int| 0 <= i < j < pre.len() implies crate::text::lex_lt(
            #[trigger] pre[i].id,
            #[trigger] pre[j].id,
        ) by {
            assert(pre[i] == anns[i] && pre[j] == anns[j]);
        }
        lemma_pattern_matches_ascending(pre, pat);
        lemma_filter_members(pre, pred);
        let fpre = pre.filter(pred);
        let out = anns.filter(pred);
        if pred(anns.last()) {
            assert(out == fpre.push(anns.last()));
            assert forall|i: int, j: int| 0 <= i < j < out.len() implies crate::text::lex_lt(
                #[trigger] out[i].id,
                #[trigger] out[j].id,
            ) by {
                if j < out.len() - 1 {
                    assert(out[i] == fpre[i] && out[j] == fpre[j]);
                } else {
                    assert(out[i] == fpre[i]);
                    let k = choose|k: int| 0 <= k < pre.len() && pre[k] == fpre[i];
                    assert(anns[k] == out[i]);
                    assert(crate::text::lex_lt(anns[k].id, anns[anns.len() - 1].id));
                }
            }
        } else {
            assert(out == fpre);
        }
    }
}

/// Weaves one line into its pieces.
fn do_weave_line(
    line: &str,
    filename: &str,
    line_no: usize,
    annotations: &AnnotationMap,
    symbols: &SymbolKey,
) -> (r: Result<Vec<String>, FileError<WeaveError>>)
    requires
        symbols@.wf(),
        line@.len() + symbols@.metadata.len() + 1 <= usize::MAX,
    ensures
        match weave_line_model(
            line@,
            filename@,
            line_no as nat,
            annotations.entries(),
            symbols@,
        ) {
            Ok(ps) => r is Ok && strings_view(r->Ok_0@) == ps,
            Err(e) => {
                &&& r is Err
                &&& r->Err_0.err_type@ == e.kind
                &&& r->Err_0.filename@ == filename@
                &&& r->Err_0.line == e.line
                &&& r->Err_0.col as int == e.col
            },
        },
{
    let ghost anns = annotations.entries();
    let lt = str_trim_start(line);
    let mut pieces: Vec<String> = Vec::new();
    if str_starts_with(lt, symbols.insertion()) {
        let ins_len = symbols.insertion().unicode_len();
        match extract_id(lt, ins_len) {
            Ok(id) => match annotations.get(id.as_str()) {
                Some(f) => {
                    pieces.push(f.body.clone());
                    proof {
                        assert(strings_view(pieces@) =~= seq![f@.body]);
                    }
                    Ok(pieces)
                },
                None => {
                    // The marker stands where the trimmed whitespace ended.
                    proof {
                        lemma_trim_start_idx_props(line@);
                    }
                    let marker_col = line.unicode_len() - lt.unicode_len();
                    Err(
                        FileError {
                            err_type: WeaveError::MissingFragment(id),
                            filename: String::from_str(filename),
                            line: line_no,
                            col: marker_col,
                            message: Some(
                                String::from_str("no fragment found with this identifier"),
                            ),
                        },
                    )
                },
            },
            Err(IdExtractError::NoIdFound) => Err(
                FileError {
                    err_type: WeaveError::MissingId,
                    filename: String::from_str(filename),
                    line: line_no,
                    col: 0,
                    message: Some(String::from_str("no fragment identifier found in line")),
                },
            ),
            Err(IdExtractError::ReservedCharacterUsed(_)) => Err(
                FileError {
                    err_type: WeaveError::IdExtractError,
                    filename: String::from_str(filename),
                    line: line_no,
                    col: 0,
                    message: Some(
                        String::from_str("error parsing identifier at the insertion symbol"),
                    ),
                },
            ),
        }
    } else if str_starts_with(lt, symbols.pattern()) {
        let pat_len = symbols.pattern().unicode_len();
        match extract_pattern(lt, pat_len) {
            Ok(re) => {
                let ghost pat = re.pattern();
                let total = annotations.len();
                let mut i: usize = 0;
                proof {
                    assert(anns.take(0) =~= Seq::<FragmentV>::empty());
                    reveal(Seq::filter);
                    assert(strings_view(pieces@) =~= matching_bodies(anns.take(0), pat));
                }
                while i < total
                    invariant
                        0 <= i <= total,
                        total == anns.len(),
                        anns == annotations.entries(),
                        pat == re.pattern(),
                        strings_view(pieces@) == matching_bodies(anns.take(i as int), pat),
                    decreases total - i,
                {
                    let f = annotations.index(i);
                    proof {
                        lemma_matching_bodies_snoc(anns, pat, i as int);
                    }
                    if re.is_match(f.id.as_str()) {
                        pieces.push(f.body.clone());
                        proof {
                            assert(strings_view(pieces@) =~= matching_bodies(
                                anns.take(i as int),
                                pat,
                            ).push(f@.body));
                        }
                    }
                    proof {
                        assert(strings_view(pieces@) == matching_bodies(anns.take(i + 1), pat));
                    }
                    i += 1;
                }
                proof {
                    assert(anns.take(total as int) =~= anns);
                }
                Ok(pieces)
            },
            Err(_) => Err(
                FileError {
                    err_type: WeaveError::PatternExtractError,
                    filename: String::from_str(filename),
                    line: line_no,
                    col: 0,
                    message: Some(String::from_str("no usable fragment pattern found in line")),
                },
            ),
        }
    } else {
        match str_find(line, symbols.metadata()) {
            Some(_) => match expand_metadata_refs(line, filename, line_no, annotations, symbols) {
                Ok(expanded) => {
                    let ghost ev = expanded@;
                    pieces.push(expanded);
                    proof {
                        assert(strings_view(pieces@) =~= seq![ev]);
                    }
                    Ok(pieces)
                },
                Err(e) => Err(e),
            },
            None => {
                pieces.push(String::from_str(line));
                proof {
                    assert(strings_view(pieces@) =~= seq![line@]);
                }
                Ok(pieces)
            },
        }
    }
}

/// Appends one more piece to the woven text, separated from what is already
/// there by a newline. `have` says whether any piece stands there yet.
fn push_piece(out: &mut String, piece: &str, have: bool, Ghost(ps): Ghost<Seq<Seq<char>>>)
    requires
        old(out)@ == join_lines(ps),
        have == (ps.len() > 0),
    ensures
        final(out)@ == join_lines(ps.push(piece@)),
{
    proof {
        lemma_join_sep_snoc(ps, piece@, '\n');
    }
    if have {
        out.append("\n");
        proof {
            reveal_strlit("\n");
            assert(("\n")@ =~= seq!['\n']);
        }
        out.append(piece);
        proof {
            assert(out@ =~= join_lines(ps) + seq!['\n'] + piece@);
        }
    } else {
        out.append(piece);
        proof {
            assert(out@ =~= piece@);
        }
    }
}

/// Weaves `contents` against the annotation map: processes it line by line
/// (1-based), replacing insertion, pattern and metadata lines, and rejoins
/// the pieces with newlines, preserving a trailing newline of the input.
pub fn weave(
    filename: &str,
    contents: &str,
    annotations: &AnnotationMap,
    symbols: &SymbolKey,
) -> (r: Result<String, FileError<WeaveError>>)
    requires
        symbols@.wf(),
        contents@.len() + symbols@.metadata.len() + 2 <= usize::MAX,
    ensures
        match weave_model(contents@, filename@, annotations.entries(), symbols@) {
            Ok(text) => r is Ok && r->Ok_0@ == text,
            Err(e) => {
                &&& r is Err
                &&& r->Err_0.err_type@ == e.kind
                &&& r->Err_0.filename@ == filename@
                &&& r->Err_0.line == e.line
                &&& r->Err_0.col as int == e.col
            },
        },
{
    let ghost anns = annotations.entries();
    let ghost symv = symbols@;
    let ghost lines = split_lines(contents@);
    let ghost full = weave_lines_model(lines, filename@, 1, anns, symv);
    let mut out = String::new();
    let mut have = false;
    let ghost mut all_pieces: Seq<Seq<char>> = Seq::empty();
    let mut rest: &str = contents;
    let mut line_no: usize = 1;
    proof {
        lemma_split_on_len(contents@, '\n');
        if full is Ok {
            assert(Seq::<Seq<char>>::empty() + full->Ok_0 =~= full->Ok_0);
        }
    }
    loop
        invariant_except_break
            symv == symbols@,
            symv.wf(),
            anns == annotations.entries(),
            lines == split_lines(contents@),
            full == weave_lines_model(lines, filename@, 1, anns, symv),
            contents@.len() + symv.metadata.len() + 2 <= usize::MAX,
            rest@.len() <= contents@.len(),
            1 <= line_no,
            line_no - 1 + split_lines(rest@).len() == lines.len(),
            lines.len() <= contents@.len() + 1,
            out@ == join_lines(all_pieces),
            have == (all_pieces.len() > 0),
            full == (match weave_lines_model(
                split_lines(rest@),
                filename@,
                line_no as nat,
                anns,
                symv,
            ) {
                Ok(rps) => Ok::<Seq<Seq<char>>, WeaveErrV>(all_pieces + rps),
                Err(e) => Err::<Seq<Seq<char>>, WeaveErrV>(e),
            }),
        ensures
            full == Ok::<Seq<Seq<char>>, WeaveErrV>(all_pieces),
            out@ == join_lines(all_pieces),
        decreases rest@.len(),
    {
        let n = rest.unicode_len();
        let nl = str_find_char(rest, '\n', 0);
        proof {
            crate::text::lemma_first_occ_props(rest@, '\n', 0);
            lemma_split_on_len(rest@, '\n');
        }
        let last = nl >= n;
        let line: &str = if last {
            rest
        } else {
            rest.substring_char(0, nl)
        };
        proof {
            if last {
                assert(split_lines(rest@) == seq![rest@]);
                assert(seq![rest@][0] == rest@);
                assert(seq![rest@].drop_first() =~= Seq::<Seq<char>>::empty());
            } else {
                assert(line@ =~= rest@.take(nl as int));
                assert(split_lines(rest@) == seq![line@] + split_lines(rest@.skip(nl + 1)));
                assert((seq![line@] + split_lines(rest@.skip(nl + 1))).drop_first()
                    =~= split_lines(rest@.skip(nl + 1)));
                assert((seq![line@] + split_lines(rest@.skip(nl + 1)))[0] == line@);
            }
        }
        let ghost line_ps = (match weave_line_model(line@, filename@, line_no as nat, anns, symv) {
            Ok(ps) => ps,
            Err(e) => Seq::empty(),
        });
        match do_weave_line(line, filename, line_no, annotations, symbols) {
            Ok(ps_vec) => {
                let ghost old_all = all_pieces;
                let count = ps_vec.len();
                let mut q: usize = 0;
                while q < count
                    invariant
                        0 <= q <= count,
                        count == ps_vec@.len(),
                        strings_view(ps_vec@) == line_ps,
                        all_pieces == old_all + line_ps.take(q as int),
                        out@ == join_lines(all_pieces),
                        have == (all_pieces.len() > 0),
                    decreases count - q,
                {
                    push_piece(&mut out, ps_vec[q].as_str(), have, Ghost(all_pieces));
                    proof {
                        assert(ps_vec@[q as int]@ == line_ps[q as int]);
                        all_pieces = all_pieces.push(line_ps[q as int]);
                        assert(all_pieces =~= old_all + line_ps.take(q + 1));
                    }
                    have = true;
                    q += 1;
                }
                proof {
                    assert(line_ps.take(count as int) =~= line_ps);
                    let nxt = weave_lines_model(
                        split_lines(rest@).drop_first(),
                        filename@,
                        (line_no + 1) as nat,
                        anns,
                        symv,
                    );
                    if nxt is Ok {
                        assert(old_all + (line_ps + nxt->Ok_0) =~= all_pieces + nxt->Ok_0);
                    }
                }
            },
            Err(e) => {
                return Err(e);
            },
        }
        if last {
            proof {
                assert(weave_lines_model(
                    Seq::<Seq<char>>::empty(),
                    filename@,
                    (line_no + 1) as nat,
                    anns,
                    symv,
                ) == Ok::<Seq<Seq<char>>, WeaveErrV>(Seq::empty()));
                assert(all_pieces + Seq::<Seq<char>>::empty() =~= all_pieces);
            }
            break ;
        }
        let new_rest = rest.substring_char(nl + 1, n);
        proof {
            assert(new_rest@ =~= rest@.skip(nl + 1));
        }
        rest = new_rest;
        line_no += 1;
    }
    // Restore the input's trailing newline where the rejoin lost it.
    let n0 = contents.unicode_len();
    if n0 > 0 && contents.get_char(n0 - 1) == '\n' {
        let out_len = out.as_str().unicode_len();
        if out_len == 0 || out.as_str().get_char(out_len - 1) != '\n' {
            out.append("\n");
            proof {
                reveal_strlit("\n");
                assert(("\n")@ =~= seq!['\n']);
                assert(out@ == join_lines(all_pieces) + seq!['\n']);
            }
        }
    }
    Ok(out)
}

} // verus!
