//! Text primitives shared by the tangle and weave scanners: substring search,
//! splitting on a separator character, trimming, lexicographic ordering of
//! character sequences, and decimal rendering of numbers.

use vstd::prelude::*;

use crate::chars::whitespace_char;

verus! {

// ---------------------------------------------------------------------------
// Substring search
// ---------------------------------------------------------------------------

/// `pat` occurs in `s` starting at position `i`.
pub open spec fn match_at(s: Seq<char>, pat: Seq<char>, i: int) -> bool {
    0 <= i && i + pat.len() <= s.len() && s.subrange(i, i + pat.len() as int) == pat
}

/// Position of the first occurrence of `pat` in `s` at or after `i`.
pub open spec fn find_from(s: Seq<char>, pat: Seq<char>, i: int) -> Option<int>
    decreases s.len() - i,
{
    if i < 0 || i + pat.len() > s.len() {
        None
    } else if pat.len() == 0 || match_at(s, pat, i) {
        Some(i)
    } else {
        find_from(s, pat, i + 1)
    }
}

/// Position of the first occurrence of `pat` in `s`.
pub open spec fn find_sub(s: Seq<char>, pat: Seq<char>) -> Option<int> {
    find_from(s, pat, 0)
}

/// `s` begins with `pat`.
pub open spec fn starts_with(s: Seq<char>, pat: Seq<char>) -> bool {
    match_at(s, pat, 0)
}

pub proof fn lemma_find_from_props(s: Seq<char>, pat: Seq<char>, i: int)
    requires
        0 <= i,
    ensures
        match find_from(s, pat, i) {
            Some(j) => i <= j && match_at(s, pat, j) && (forall|k: int|
                i <= k < j ==> !match_at(s, pat, k)),
            None => forall|k: int| i <= k ==> !match_at(s, pat, k),
        },
    decreases s.len() - i,
{
    if i + pat.len() > s.len() {
        assert forall|k: int| i <= k implies !match_at(s, pat, k) by {}
    } else if pat.len() == 0 || match_at(s, pat, i) {
        if pat.len() == 0 {
            assert(s.subrange(i, i) =~= pat);
        }
    } else {
        lemma_find_from_props(s, pat, i + 1);
    }
}

// ---------------------------------------------------------------------------
// Splitting on a separator character, and joining back
// ---------------------------------------------------------------------------

/// Position of the first occurrence of the character `c` in `s` at or after
/// `i`; `s.len()` when there is none.
pub open spec fn first_occ(s: Seq<char>, c: char, i: int) -> int
    decreases s.len() - i,
{
    if i < 0 {
        0
    } else if i >= s.len() {
        s.len() as int
    } else if s[i] == c {
        i
    } else {
        first_occ(s, c, i + 1)
    }
}

pub proof fn lemma_first_occ_props(s: Seq<char>, c: char, i: int)
    requires
        0 <= i <= s.len(),
    ensures
        i <= first_occ(s, c, i) <= s.len(),
        first_occ(s, c, i) < s.len() ==> s[first_occ(s, c, i)] == c,
        forall|k: int| i <= k < first_occ(s, c, i) ==> s[k] != c,
    decreases s.len() - i,
{
    if i < s.len() && s[i] != c {
        lemma_first_occ_props(s, c, i + 1);
    }
}

/// A prefix of a suffix is an occurrence in the middle.
pub proof fn lemma_starts_with_skip(s: Seq<char>, pat: Seq<char>, i: int)
    requires
        0 <= i <= s.len(),
    ensures
        starts_with(s.skip(i), pat) == match_at(s, pat, i),
{
    if i + pat.len() <= s.len() {
        assert(s.skip(i).subrange(0, pat.len() as int) =~= s.subrange(i, i + pat.len()));
    }
}

pub proof fn lemma_first_occ_unique(s: Seq<char>, c: char, i: int, j: int)
    requires
        0 <= i <= j <= s.len(),
        forall|k: int| i <= k < j ==> s[k] != c,
        j < s.len() ==> s[j] == c,
    ensures
        first_occ(s, c, i) == j,
{
    lemma_first_occ_props(s, c, i);
    let e = first_occ(s, c, i);
    if e < j {
        assert(s[e] != c);
    } else if j < e {
        assert(s[j] != c);
    }
}

/// The pieces of `s` between occurrences of the separator `c`; always at
/// least one piece, and `n` separators give `n + 1` pieces.
pub open spec fn split_on(s: Seq<char>, c: char) -> Seq<Seq<char>>
    decreases s.len(),
{
    let j = first_occ(s, c, 0);
    if 0 <= j < s.len() {
        seq![s.take(j)] + split_on(s.skip(j + 1), c)
    } else {
        seq![s]
    }
}

/// Concatenation of the pieces `ps` with the separator `c` between them.
pub open spec fn join_sep(ps: Seq<Seq<char>>, c: char) -> Seq<char>
    decreases ps.len(),
{
    if ps.len() == 0 {
        Seq::empty()
    } else if ps.len() == 1 {
        ps[0]
    } else {
        ps[0] + seq![c] + join_sep(ps.drop_first(), c)
    }
}

pub proof fn lemma_split_on_len(s: Seq<char>, c: char)
    ensures
        1 <= split_on(s, c).len() <= s.len() + 1,
    decreases s.len(),
{
    let j = first_occ(s, c, 0);
    lemma_first_occ_props(s, c, 0);
    if 0 <= j < s.len() {
        lemma_split_on_len(s.skip(j + 1), c);
    }
}

/// Joining the pieces of a split rebuilds the original sequence.
pub proof fn lemma_join_split_id(s: Seq<char>, c: char)
    ensures
        join_sep(split_on(s, c), c) == s,
    decreases s.len(),
{
    lemma_first_occ_props(s, c, 0);
    let j = first_occ(s, c, 0);
    if 0 <= j < s.len() {
        lemma_join_split_id(s.skip(j + 1), c);
        lemma_split_on_len(s.skip(j + 1), c);
        assert(split_on(s, c).drop_first() == split_on(s.skip(j + 1), c));
        assert(s.take(j) + seq![c] + s.skip(j + 1) =~= s);
    }
}

/// Appending one more piece to a join.
pub proof fn lemma_join_sep_snoc(ps: Seq<Seq<char>>, p: Seq<char>, c: char)
    ensures
        join_sep(ps.push(p), c) == if ps.len() == 0 {
            p
        } else {
            join_sep(ps, c) + seq![c] + p
        },
    decreases ps.len(),
{
    if ps.len() == 0 {
        assert(ps.push(p)[0] == p);
        assert(join_sep(ps.push(p), c) == p);
    } else {
        lemma_join_sep_snoc(ps.drop_first(), p, c);
        assert(ps.push(p).drop_first() == ps.drop_first().push(p));
        if ps.len() == 1 {
            assert(join_sep(ps, c) == ps[0]);
        } else {
            assert(join_sep(ps, c) == ps[0] + seq![c] + join_sep(ps.drop_first(), c));
        }
    }
}

// ---------------------------------------------------------------------------
// Lines
// ---------------------------------------------------------------------------

/// The lines of `s`, split on newline characters; an empty input gives one
/// empty line, and a trailing newline gives a final empty piece.
pub open spec fn split_lines(s: Seq<char>) -> Seq<Seq<char>> {
    split_on(s, '\n')
}

/// Concatenation of lines with newline separators.
pub open spec fn join_lines(ps: Seq<Seq<char>>) -> Seq<char> {
    join_sep(ps, '\n')
}

/// The number of lines of `s`, counting as `str::lines` does: a trailing
/// newline does not open a further empty line, and an empty input has none.
pub open spec fn line_count(s: Seq<char>) -> nat {
    if s.len() == 0 {
        0
    } else if s[s.len() - 1] == '\n' {
        (split_lines(s).len() - 1) as nat
    } else {
        split_lines(s).len()
    }
}

// ---------------------------------------------------------------------------
// Trimming
// ---------------------------------------------------------------------------

/// Index of the first non-whitespace character of `s` (or `s.len()`).
pub open spec fn trim_start_idx(s: Seq<char>) -> int
    decreases s.len(),
{
    if s.len() == 0 {
        0
    } else if whitespace_char(s[0]) {
        1 + trim_start_idx(s.drop_first())
    } else {
        0
    }
}

/// `s` with leading whitespace removed.
pub open spec fn trim_start_seq(s: Seq<char>) -> Seq<char> {
    s.skip(trim_start_idx(s))
}

pub proof fn lemma_trim_start_idx_props(s: Seq<char>)
    ensures
        0 <= trim_start_idx(s) <= s.len(),
        forall|k: int| 0 <= k < trim_start_idx(s) ==> whitespace_char(s[k]),
        trim_start_idx(s) < s.len() ==> !whitespace_char(s[trim_start_idx(s)]),
    decreases s.len(),
{
    if s.len() > 0 && whitespace_char(s[0]) {
        lemma_trim_start_idx_props(s.drop_first());
        assert forall|k: int| 0 <= k < trim_start_idx(s) implies whitespace_char(s[k]) by {
            if k > 0 {
                assert(s.drop_first()[k - 1] == s[k]);
            }
        }
    }
}

/// Any index with the first-non-whitespace property is the trim index.
pub proof fn lemma_trim_start_idx_unique(s: Seq<char>, j: int)
    requires
        0 <= j <= s.len(),
        forall|k: int| 0 <= k < j ==> whitespace_char(s[k]),
        j < s.len() ==> !whitespace_char(s[j]),
    ensures
        trim_start_idx(s) == j,
{
    lemma_trim_start_idx_props(s);
    let t = trim_start_idx(s);
    if t < j {
        assert(whitespace_char(s[t]));
    } else if j < t {
        assert(whitespace_char(s[j]));
    }
}

/// Index just past the last character of `s` not equal to `c` (or 0).
pub open spec fn trim_end_idx(s: Seq<char>, c: char) -> int
    decreases s.len(),
{
    if s.len() == 0 {
        0
    } else if s[s.len() - 1] == c {
        trim_end_idx(s.drop_last(), c)
    } else {
        s.len() as int
    }
}

/// `s` with trailing copies of `c` removed.
pub open spec fn trim_end_seq(s: Seq<char>, c: char) -> Seq<char> {
    s.take(trim_end_idx(s, c))
}

pub proof fn lemma_trim_end_idx_props(s: Seq<char>, c: char)
    ensures
        0 <= trim_end_idx(s, c) <= s.len(),
        forall|k: int| trim_end_idx(s, c) <= k < s.len() ==> s[k] == c,
        trim_end_idx(s, c) > 0 ==> s[trim_end_idx(s, c) - 1] != c,
    decreases s.len(),
{
    if s.len() > 0 && s[s.len() - 1] == c {
        lemma_trim_end_idx_props(s.drop_last(), c);
        assert forall|k: int| trim_end_idx(s, c) <= k < s.len() implies s[k] == c by {
            if k < s.len() - 1 {
                assert(s.drop_last()[k] == s[k]);
            }
        }
    }
}

pub proof fn lemma_trim_end_idx_unique(s: Seq<char>, c: char, j: int)
    requires
        0 <= j <= s.len(),
        forall|k: int| j <= k < s.len() ==> s[k] == c,
        j > 0 ==> s[j - 1] != c,
    ensures
        trim_end_idx(s, c) == j,
{
    lemma_trim_end_idx_props(s, c);
    let t = trim_end_idx(s, c);
    if t < j {
        assert(s[j - 1] == c);
    } else if j < t {
        assert(s[t - 1] == c);
    }
}

/// Index just past the last non-whitespace character of `s` (or 0).
pub open spec fn trim_end_ws_idx(s: Seq<char>) -> int
    decreases s.len(),
{
    if s.len() == 0 {
        0
    } else if whitespace_char(s[s.len() - 1]) {
        trim_end_ws_idx(s.drop_last())
    } else {
        s.len() as int
    }
}

/// `s` with leading and trailing whitespace removed.
pub open spec fn trim_seq(s: Seq<char>) -> Seq<char> {
    let t = trim_start_seq(s);
    t.take(trim_end_ws_idx(t))
}

pub proof fn lemma_trim_end_ws_idx_props(s: Seq<char>)
    ensures
        0 <= trim_end_ws_idx(s) <= s.len(),
        forall|k: int| trim_end_ws_idx(s) <= k < s.len() ==> whitespace_char(s[k]),
        trim_end_ws_idx(s) > 0 ==> !whitespace_char(s[trim_end_ws_idx(s) - 1]),
    decreases s.len(),
{
    if s.len() > 0 && whitespace_char(s[s.len() - 1]) {
        lemma_trim_end_ws_idx_props(s.drop_last());
        assert forall|k: int| trim_end_ws_idx(s) <= k < s.len() implies whitespace_char(s[k]) by {
            if k < s.len() - 1 {
                assert(s.drop_last()[k] == s[k]);
            }
        }
    }
}

pub proof fn lemma_trim_end_ws_idx_unique(s: Seq<char>, j: int)
    requires
        0 <= j <= s.len(),
        forall|k: int| j <= k < s.len() ==> whitespace_char(s[k]),
        j > 0 ==> !whitespace_char(s[j - 1]),
    ensures
        trim_end_ws_idx(s) == j,
{
    lemma_trim_end_ws_idx_props(s);
    let t = trim_end_ws_idx(s);
    if t < j {
        assert(whitespace_char(s[j - 1]));
    } else if j < t {
        assert(whitespace_char(s[t - 1]));
    }
}

// ---------------------------------------------------------------------------
// Lexicographic order on character sequences (by code point)
// ---------------------------------------------------------------------------

/// Strict lexicographic order on character sequences, by code point; the
/// order `String`'s `Ord` gives, stated over views.
pub open spec fn lex_lt(a: Seq<char>, b: Seq<char>) -> bool
    decreases a.len(),
{
    if b.len() == 0 {
        false
    } else if a.len() == 0 {
        true
    } else if a[0] != b[0] {
        a[0] < b[0]
    } else {
        lex_lt(a.drop_first(), b.drop_first())
    }
}

/// Exactly one of `lex_lt(a, b)`, `a == b`, `lex_lt(b, a)` holds.
pub proof fn lemma_lex_trichotomy(a: Seq<char>, b: Seq<char>)
    ensures
        lex_lt(a, b) || lex_lt(b, a) || a == b,
        lex_lt(a, b) ==> !lex_lt(b, a) && a != b,
        lex_lt(b, a) ==> !lex_lt(a, b) && a != b,
    decreases a.len(),
{
    if a.len() == 0 && b.len() == 0 {
        assert(a =~= b);
    } else if a.len() > 0 && b.len() > 0 {
        lemma_lex_trichotomy(a.drop_first(), b.drop_first());
        if a[0] == b[0] && a.drop_first() == b.drop_first() {
            assert forall|i: int| 0 <= i < a.len() implies a[i] == b[i] by {
                if i > 0 {
                    assert(a.drop_first()[i - 1] == b.drop_first()[i - 1]);
                }
            }
            assert(a =~= b);
        }
        if a == b {
            assert(a.drop_first() =~= b.drop_first());
        }
    }
}

pub proof fn lemma_lex_transitive(a: Seq<char>, b: Seq<char>, c: Seq<char>)
    requires
        lex_lt(a, b),
        lex_lt(b, c),
    ensures
        lex_lt(a, c),
    decreases a.len(),
{
    if a.len() > 0 && b.len() > 0 && c.len() > 0 {
        if a[0] == b[0] && b[0] == c[0] {
            lemma_lex_transitive(a.drop_first(), b.drop_first(), c.drop_first());
        }
    }
}

/// Dropping a common prefix preserves the order.
pub proof fn lemma_lex_lt_common_prefix(a: Seq<char>, b: Seq<char>, i: int)
    requires
        0 <= i <= a.len(),
        i <= b.len(),
        forall|k: int| 0 <= k < i ==> a[k] == b[k],
    ensures
        lex_lt(a, b) == lex_lt(a.skip(i), b.skip(i)),
    decreases i,
{
    if i > 0 {
        assert(a.len() > 0 && b.len() > 0 && a[0] == b[0]);
        lemma_lex_lt_common_prefix(a.drop_first(), b.drop_first(), i - 1);
        assert(a.drop_first().skip(i - 1) =~= a.skip(i));
        assert(b.drop_first().skip(i - 1) =~= b.skip(i));
    } else {
        assert(a.skip(0) =~= a);
        assert(b.skip(0) =~= b);
    }
}

// ---------------------------------------------------------------------------
// Decimal rendering
// ---------------------------------------------------------------------------

/// The decimal digit character for `d` (which must be below ten).
pub open spec fn digit_char(d: nat) -> char {
    if d == 0 {
        '0'
    } else if d == 1 {
        '1'
    } else if d == 2 {
        '2'
    } else if d == 3 {
        '3'
    } else if d == 4 {
        '4'
    } else if d == 5 {
        '5'
    } else if d == 6 {
        '6'
    } else if d == 7 {
        '7'
    } else if d == 8 {
        '8'
    } else {
        '9'
    }
}

/// The decimal rendering of `n`, without sign or leading zeros.
pub open spec fn dec_str(n: nat) -> Seq<char>
    decreases n,
{
    if n < 10 {
        seq![digit_char(n)]
    } else {
        dec_str(n / 10) + seq![digit_char(n % 10)]
    }
}

/// The views of a sequence of strings.
pub open spec fn strings_view(s: Seq<String>) -> Seq<Seq<char>> {
    s.map_values(|x: String| x@)
}

pub proof fn lemma_strings_view_push(s: Seq<String>, x: String)
    ensures
        strings_view(s.push(x)) == strings_view(s).push(x@),
{
    assert(strings_view(s.push(x)) =~= strings_view(s).push(x@));
}

// ---------------------------------------------------------------------------
// Executable counterparts
// ---------------------------------------------------------------------------

/// Whether `pat` occurs in `s` at position `i`.
pub fn str_match_at(s: &str, pat: &str, i: usize) -> (r: bool)
    requires
        i + pat@.len() <= s@.len(),
        s@.len() <= usize::MAX,
    ensures
        r == match_at(s@, pat@, i as int),
{
    let m = pat.unicode_len();
    let mut j: usize = 0;
    while j < m
        invariant
            j <= m,
            m == pat@.len(),
            i + m <= s@.len(),
            s@.len() <= usize::MAX,
            forall|k: int| 0 <= k < j ==> s@[i + k] == pat@[k],
        decreases m - j,
    {
        if s.get_char(i + j) != pat.get_char(j) {
            proof {
                assert(s@.subrange(i as int, i + m as int)[j as int] == s@[i + j]);
            }
            return false;
        }
        j += 1;
    }
    proof {
        assert(s@.subrange(i as int, i + m as int) =~= pat@);
    }
    true
}

/// First occurrence of `pat` in `s` at or after `from`.
pub fn str_find_from(s: &str, pat: &str, from: usize) -> (r: Option<usize>)
    requires
        pat@.len() >= 1,
    ensures
        match r {
            Some(j) => find_from(s@, pat@, from as int) == Some(j as int),
            None => find_from(s@, pat@, from as int) is None,
        },
        s@.len() <= usize::MAX,
{
    let n = s.unicode_len();
    let m = pat.unicode_len();
    let mut i: usize = from;
    loop
        invariant
            from <= i,
            n == s@.len(),
            m == pat@.len(),
            m >= 1,
            find_from(s@, pat@, from as int) == find_from(s@, pat@, i as int),
        decreases n + 1 - i,
    {
        if m > n || i > n - m {
            assert(find_from(s@, pat@, i as int) is None);
            return None;
        }
        if str_match_at(s, pat, i) {
            assert(find_from(s@, pat@, i as int) == Some(i as int));
            return Some(i);
        }
        assert(find_from(s@, pat@, i as int) == find_from(s@, pat@, i + 1));
        i += 1;
    }
}

/// Position of the first occurrence of the character `c` in `s` at or after
/// `from`; the length of `s` when there is none.
pub fn str_find_char(s: &str, c: char, from: usize) -> (r: usize)
    requires
        from <= s@.len(),
    ensures
        r == first_occ(s@, c, from as int),
        r <= s@.len(),
{
    let n = s.unicode_len();
    let mut i: usize = from;
    while i < n && s.get_char(i) != c
        invariant
            from <= i <= n,
            n == s@.len(),
            forall|k: int| from <= k < i ==> s@[k] != c,
        decreases n - i,
    {
        i += 1;
    }
    proof {
        lemma_first_occ_unique(s@, c, from as int, i as int);
    }
    i
}

/// First occurrence of `pat` anywhere in `s`.
pub fn str_find(s: &str, pat: &str) -> (r: Option<usize>)
    requires
        pat@.len() >= 1,
    ensures
        match r {
            Some(j) => find_sub(s@, pat@) == Some(j as int),
            None => find_sub(s@, pat@) is None,
        },
        s@.len() <= usize::MAX,
{
    str_find_from(s, pat, 0)
}

/// Whether `s` begins with `pat`.
pub fn str_starts_with(s: &str, pat: &str) -> (r: bool)
    ensures
        r == starts_with(s@, pat@),
{
    let n = s.unicode_len();
    let m = pat.unicode_len();
    if m > n {
        false
    } else {
        str_match_at(s, pat, 0)
    }
}

/// `s` without its leading whitespace.
pub fn str_trim_start<'a>(s: &'a str) -> (r: &'a str)
    ensures
        r@ == trim_start_seq(s@),
{
    let n = s.unicode_len();
    let mut i: usize = 0;
    while i < n && is_whitespace_exec(s, i)
        invariant
            0 <= i <= n,
            n == s@.len(),
            forall|k: int| 0 <= k < i ==> whitespace_char(s@[k]),
        decreases n - i,
    {
        i += 1;
    }
    proof {
        lemma_trim_start_idx_unique(s@, i as int);
    }
    s.substring_char(i, n)
}

fn is_whitespace_exec(s: &str, i: usize) -> (r: bool)
    requires
        i < s@.len(),
    ensures
        r == whitespace_char(s@[i as int]),
{
    crate::chars::is_whitespace_char(s.get_char(i))
}

/// `s` without leading or trailing whitespace.
pub fn str_trim<'a>(s: &'a str) -> (r: &'a str)
    ensures
        r@ == trim_seq(s@),
{
    let n = s.unicode_len();
    let mut i: usize = 0;
    while i < n && is_whitespace_exec(s, i)
        invariant
            0 <= i <= n,
            n == s@.len(),
            forall|k: int| 0 <= k < i ==> whitespace_char(s@[k]),
        decreases n - i,
    {
        i += 1;
    }
    proof {
        lemma_trim_start_idx_unique(s@, i as int);
    }
    let mut j: usize = n;
    while j > i && is_whitespace_exec(s, j - 1)
        invariant
            i <= j <= n,
            n == s@.len(),
            forall|k: int| j <= k < n ==> whitespace_char(s@[k]),
        decreases j,
    {
        j -= 1;
    }
    proof {
        let t = trim_start_seq(s@);
        assert forall|k: int| j - i <= k < t.len() implies whitespace_char(t[k]) by {
            assert(t[k] == s@[k + i]);
        }
        if j > i {
            assert(t[j - i - 1] == s@[j - 1]);
        }
        lemma_trim_end_ws_idx_unique(t, j - i);
        assert(t.take(j - i) =~= s@.subrange(i as int, j as int));
    }
    s.substring_char(i, j)
}

/// `s` without trailing copies of `c`.
pub fn str_trim_end_char<'a>(s: &'a str, c: char) -> (r: &'a str)
    ensures
        r@ == trim_end_seq(s@, c),
{
    let n = s.unicode_len();
    let mut j: usize = n;
    while j > 0 && s.get_char(j - 1) == c
        invariant
            0 <= j <= n,
            n == s@.len(),
            forall|k: int| j <= k < n ==> s@[k] == c,
        decreases j,
    {
        j -= 1;
    }
    proof {
        lemma_trim_end_idx_unique(s@, c, j as int);
    }
    s.substring_char(0, j)
}

/// Whether two string slices hold the same characters.
pub fn str_eq(a: &str, b: &str) -> (r: bool)
    ensures
        r == (a@ == b@),
{
    let n = a.unicode_len();
    if n != b.unicode_len() {
        return false;
    }
    let mut i: usize = 0;
    while i < n
        invariant
            0 <= i <= n,
            n == a@.len(),
            n == b@.len(),
            forall|k: int| 0 <= k < i ==> a@[k] == b@[k],
        decreases n - i,
    {
        if a.get_char(i) != b.get_char(i) {
            return false;
        }
        i += 1;
    }
    proof {
        assert(a@ =~= b@);
    }
    true
}

/// Whether `a` comes strictly before `b` in lexicographic order.
pub fn str_lex_lt(a: &str, b: &str) -> (r: bool)
    ensures
        r == lex_lt(a@, b@),
{
    let n = a.unicode_len();
    let m = b.unicode_len();
    let mut i: usize = 0;
    while i < n && i < m
        invariant
            0 <= i <= n,
            i <= m,
            n == a@.len(),
            m == b@.len(),
            forall|k: int| 0 <= k < i ==> a@[k] == b@[k],
        decreases n - i,
    {
        let ca = a.get_char(i);
        let cb = b.get_char(i);
        if ca != cb {
            proof {
                lemma_lex_lt_common_prefix(a@, b@, i as int);
                assert(a@.skip(i as int)[0] == ca);
                assert(b@.skip(i as int)[0] == cb);
            }
            return (ca as u32) < (cb as u32);
        }
        i += 1;
    }
    proof {
        lemma_lex_lt_common_prefix(a@, b@, if i <= m { i as int } else { m as int });
        if i >= n {
            assert(a@.skip(i as int).len() == 0);
        } else {
            assert(b@.skip(i as int).len() == 0);
        }
    }
    n < m
}

fn digit_str(d: u8) -> (r: &'static str)
    requires
        d < 10,
    ensures
        r@ == seq![digit_char(d as nat)],
{
    if d == 0 {
        proof {
            reveal_strlit("0");
        }
        let r = "0";
        assert(r@ =~= seq![digit_char(d as nat)]);
        r
    } else if d == 1 {
        proof {
            reveal_strlit("1");
        }
        let r = "1";
        assert(r@ =~= seq![digit_char(d as nat)]);
        r
    } else if d == 2 {
        proof {
            reveal_strlit("2");
        }
        let r = "2";
        assert(r@ =~= seq![digit_char(d as nat)]);
        r
    } else if d == 3 {
        proof {
            reveal_strlit("3");
        }
        let r = "3";
        assert(r@ =~= seq![digit_char(d as nat)]);
        r
    } else if d == 4 {
        proof {
            reveal_strlit("4");
        }
        let r = "4";
        assert(r@ =~= seq![digit_char(d as nat)]);
        r
    } else if d == 5 {
        proof {
            reveal_strlit("5");
        }
        let r = "5";
        assert(r@ =~= seq![digit_char(d as nat)]);
        r
    } else if d == 6 {
        proof {
            reveal_strlit("6");
        }
        let r = "6";
        assert(r@ =~= seq![digit_char(d as nat)]);
        r
    } else if d == 7 {
        proof {
            reveal_strlit("7");
        }
        let r = "7";
        assert(r@ =~= seq![digit_char(d as nat)]);
        r
    } else if d == 8 {
        proof {
            reveal_strlit("8");
        }
        let r = "8";
        assert(r@ =~= seq![digit_char(d as nat)]);
        r
    } else {
        proof {
            reveal_strlit("9");
        }
        let r = "9";
        assert(r@ =~= seq![digit_char(d as nat)]);
        r
    }
}

/// The characters of the decimal digits `ds`, least significant first, read
/// back most significant first.
spec fn digits_chars_rev(ds: Seq<u8>) -> Seq<char> {
    Seq::new(ds.len(), |i: int| digit_char(ds[ds.len() - 1 - i] as nat))
}

/// Renders `n` in decimal.
pub fn usize_to_string(n: usize) -> (r: String)
    ensures
        r@ == dec_str(n as nat),
{
    let mut digits: Vec<u8> = Vec::new();
    digits.push((n % 10) as u8);
    let mut m: usize = n / 10;
    proof {
        assert(digits_chars_rev(digits@) =~= seq![digit_char((n % 10) as nat)]);
    }
    while m > 0
        invariant
            forall|k: int| 0 <= k < digits@.len() ==> digits@[k] < 10,
            digits@.len() >= 1,
            dec_str(n as nat) == (if m > 0 {
                dec_str(m as nat)
            } else {
                Seq::<char>::empty()
            }) + digits_chars_rev(digits@),
        decreases m,
    {
        let ghost old_digits = digits@;
        let d = (m % 10) as u8;
        digits.push(d);
        let m2: usize = m / 10;
        proof {
            assert(digits_chars_rev(digits@) =~= seq![digit_char(d as nat)] + digits_chars_rev(
                old_digits,
            ));
            if m2 > 0 {
                assert(dec_str(m as nat) == dec_str((m as nat) / 10) + seq![
                    digit_char((m as nat) % 10),
                ]);
                assert(dec_str(m2 as nat) + digits_chars_rev(digits@) =~= dec_str(m as nat)
                    + digits_chars_rev(old_digits));
            } else {
                assert(dec_str(m as nat) == seq![digit_char(m as nat)]);
                assert(Seq::<char>::empty() + digits_chars_rev(digits@) =~= dec_str(m as nat)
                    + digits_chars_rev(old_digits));
            }
        }
        m = m2;
    }
    proof {
        assert(dec_str(n as nat) =~= digits_chars_rev(digits@));
    }
    let mut out = String::new();
    let len = digits.len();
    let mut i: usize = len;
    while i > 0
        invariant
            0 <= i <= len,
            len == digits@.len(),
            forall|k: int| 0 <= k < digits@.len() ==> digits@[k] < 10,
            out@ == digits_chars_rev(digits@).take(len - i),
        decreases i,
    {
        i -= 1;
        let ghost old_out = out@;
        out.append(digit_str(digits[i]));
        proof {
            assert(out@ =~= digits_chars_rev(digits@).take(len - i));
        }
    }
    proof {
        assert(digits_chars_rev(digits@).take(len as int) =~= digits_chars_rev(digits@));
    }
    out
}

} // verus!
