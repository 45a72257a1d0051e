//! The identifier scanner: reads the identifier text immediately following a
//! marker, validating allowed characters.

use vstd::prelude::*;

use crate::chars::{id_safe_char, is_id_safe_char, is_whitespace_char, whitespace_char};
use crate::errors::IdExtractError;

verus! {

/// Index of the first whitespace character of `s` at or after `i` (or
/// `s.len()`).
pub open spec fn id_end(s: Seq<char>, i: int) -> int
    decreases s.len() - i,
{
    if i < 0 {
        0
    } else if i >= s.len() {
        s.len() as int
    } else if whitespace_char(s[i]) {
        i
    } else {
        id_end(s, i + 1)
    }
}

pub proof fn lemma_id_end_props(s: Seq<char>, i: int)
    requires
        0 <= i <= s.len(),
    ensures
        i <= id_end(s, i) <= s.len(),
        id_end(s, i) < s.len() ==> whitespace_char(s[id_end(s, i)]),
        forall|k: int| i <= k < id_end(s, i) ==> !whitespace_char(s[k]),
    decreases s.len() - i,
{
    if i < s.len() && !whitespace_char(s[i]) {
        lemma_id_end_props(s, i + 1);
    }
}

pub proof fn lemma_id_end_unique(s: Seq<char>, i: int, j: int)
    requires
        0 <= i <= j <= s.len(),
        forall|k: int| i <= k < j ==> !whitespace_char(s[k]),
        j < s.len() ==> whitespace_char(s[j]),
    ensures
        id_end(s, i) == j,
{
    lemma_id_end_props(s, i);
    let e = id_end(s, i);
    if e < j {
        assert(!whitespace_char(s[e]));
    } else if j < e {
        assert(!whitespace_char(s[j]));
    }
}

/// The identifier span of `s` starting at `col`: the characters up to (not
/// including) the first whitespace character.
pub open spec fn id_span(s: Seq<char>, col: int) -> Seq<char> {
    if 0 <= col <= s.len() {
        s.subrange(col, id_end(s, col))
    } else {
        Seq::empty()
    }
}

/// Index of the first character of `s` at or after `i` that is not safe in
/// an identifier (or `s.len()`).
pub open spec fn first_unsafe_idx(s: Seq<char>, i: int) -> int
    decreases s.len() - i,
{
    if i < 0 {
        0
    } else if i >= s.len() {
        s.len() as int
    } else if !id_safe_char(s[i]) {
        i
    } else {
        first_unsafe_idx(s, i + 1)
    }
}

pub proof fn lemma_first_unsafe_idx_props(s: Seq<char>, i: int)
    requires
        0 <= i <= s.len(),
    ensures
        i <= first_unsafe_idx(s, i) <= s.len(),
        first_unsafe_idx(s, i) < s.len() ==> !id_safe_char(s[first_unsafe_idx(s, i)]),
        forall|k: int| i <= k < first_unsafe_idx(s, i) ==> id_safe_char(s[k]),
    decreases s.len() - i,
{
    if i < s.len() && id_safe_char(s[i]) {
        lemma_first_unsafe_idx_props(s, i + 1);
    }
}

pub proof fn lemma_first_unsafe_idx_unique(s: Seq<char>, i: int, j: int)
    requires
        0 <= i <= j <= s.len(),
        forall|k: int| i <= k < j ==> id_safe_char(s[k]),
        j < s.len() ==> !id_safe_char(s[j]),
    ensures
        first_unsafe_idx(s, i) == j,
{
    lemma_first_unsafe_idx_props(s, i);
    let e = first_unsafe_idx(s, i);
    if e < j {
        assert(id_safe_char(s[e]));
    } else if j < e {
        assert(id_safe_char(s[j]));
    }
}

/// What the identifier scanner returns: the identifier span, unless it is
/// empty or holds a reserved character (the first offender is reported).
pub open spec fn extract_id_model(s: Seq<char>, col: int) -> Result<Seq<char>, IdExtractError> {
    let id = id_span(s, col);
    if id.len() == 0 {
        Err(IdExtractError::NoIdFound)
    } else {
        let k = first_unsafe_idx(id, 0);
        if k < id.len() {
            Err(IdExtractError::ReservedCharacterUsed(id[k]))
        } else {
            Ok(id)
        }
    }
}

/// Reads the identifier starting at character offset `col` of `content`, up
/// to the first whitespace character.
pub fn extract_id(content: &str, col: usize) -> (r: Result<String, IdExtractError>)
    ensures
        match extract_id_model(content@, col as int) {
            Ok(id) => r is Ok && r->Ok_0@ == id,
            Err(e) => r is Err && r->Err_0 == e,
        },
{
    let n = content.unicode_len();
    if col >= n {
        return Err(IdExtractError::NoIdFound);
    }
    let mut e: usize = col;
    while e < n && !is_whitespace_char(content.get_char(e))
        invariant
            col <= e <= n,
            n == content@.len(),
            forall|k: int| col <= k < e ==> !whitespace_char(content@[k]),
        decreases n - e,
    {
        e += 1;
    }
    proof {
        lemma_id_end_unique(content@, col as int, e as int);
    }
    if e == col {
        return Err(IdExtractError::NoIdFound);
    }
    let ghost id = id_span(content@, col as int);
    let mut k: usize = col;
    while k < e && is_id_safe_char(content.get_char(k))
        invariant
            col <= k <= e,
            e <= n,
            n == content@.len(),
            forall|j: int| col <= j < k ==> id_safe_char(content@[j]),
        decreases e - k,
    {
        k += 1;
    }
    proof {
        assert forall|j: int| 0 <= j < k - col implies id_safe_char(id[j]) by {
            assert(id[j] == content@[col + j]);
        }
        if k < e {
            assert(id[k - col] == content@[k as int]);
        }
        lemma_first_unsafe_idx_unique(id, 0, k - col);
    }
    if k < e {
        Err(IdExtractError::ReservedCharacterUsed(content.get_char(k)))
    } else {
        Ok(String::from_str(content.substring_char(col, e)))
    }
}

} // verus!
