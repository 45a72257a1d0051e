//! The unit of extracted code: a named, positioned span of text.

use vstd::prelude::*;

verus! {

/// One extracted code fragment. `line` is the 1-based line and `col` the
/// 0-based column of the fragment's first body line, used for diagnostics
/// and metadata references.
#[derive(Debug, PartialEq, Eq, Clone)]
pub struct Fragment {
    pub body: String,
    pub id: String,
    pub file: String,
    pub line: usize,
    pub col: usize,
}

/// The mathematical content of a `Fragment`.
pub struct FragmentV {
    pub body: Seq<char>,
    pub id: Seq<char>,
    pub file: Seq<char>,
    pub line: nat,
    pub col: nat,
}

impl View for Fragment {
    type V = FragmentV;

    open spec fn view(&self) -> FragmentV {
        FragmentV {
            body: self.body@,
            id: self.id@,
            file: self.file@,
            line: self.line as nat,
            col: self.col as nat,
        }
    }
}

/// The views of a sequence of fragments.
pub open spec fn frags_view(s: Seq<Fragment>) -> Seq<FragmentV> {
    s.map_values(|f: Fragment| f@)
}

pub proof fn lemma_frags_view_push(s: Seq<Fragment>, f: Fragment)
    ensures
        frags_view(s.push(f)) == frags_view(s).push(f@),
{
    assert(frags_view(s.push(f)) =~= frags_view(s).push(f@));
}

pub proof fn lemma_frags_view_drop_last(s: Seq<Fragment>)
    requires
        s.len() > 0,
    ensures
        frags_view(s.drop_last()) == frags_view(s).drop_last(),
        frags_view(s).last() == s.last()@,
        frags_view(s).len() == s.len(),
{
    assert(frags_view(s.drop_last()) =~= frags_view(s).drop_last());
}

} // verus!
