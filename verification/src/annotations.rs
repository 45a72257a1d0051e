//! The annotation map: the join point between tangle and weave. Fragments
//! are keyed by identifier, later insertions overwrite earlier ones, and
//! iteration runs in ascending identifier order, which pattern expansion
//! depends on.

use vstd::prelude::*;

use crate::fragment::{frags_view, Fragment, FragmentV};
use crate::text::{lemma_lex_trichotomy, lex_lt, str_eq, str_lex_lt};

verus! {

/// The identifiers of `anns` are strictly ascending (hence unique).
pub open spec fn ascending_ids(anns: Seq<FragmentV>) -> bool {
    forall|i: int, j: int| 0 <= i < j < anns.len() ==> lex_lt(anns[i].id, anns[j].id)
}

/// The fragment of `anns` with identifier `id`, if any: the first match.
pub open spec fn lookup(anns: Seq<FragmentV>, id: Seq<char>) -> Option<FragmentV>
    decreases anns.len(),
{
    if anns.len() == 0 {
        None
    } else if anns[0].id == id {
        Some(anns[0])
    } else {
        lookup(anns.drop_first(), id)
    }
}

/// Insertion into an ascending sequence: replaces the entry with an equal
/// identifier, else places the new entry at its ordered position.
pub open spec fn spec_insert(anns: Seq<FragmentV>, f: FragmentV) -> Seq<FragmentV>
    decreases anns.len(),
{
    if anns.len() == 0 {
        seq![f]
    } else if lex_lt(f.id, anns[0].id) {
        seq![f] + anns
    } else if f.id == anns[0].id {
        seq![f] + anns.drop_first()
    } else {
        seq![anns[0]] + spec_insert(anns.drop_first(), f)
    }
}

/// What insertion does to lookups: the new identifier now maps to the new
/// fragment, every other identifier maps as before.
pub proof fn lemma_spec_insert_lookup(anns: Seq<FragmentV>, f: FragmentV, id: Seq<char>)
    ensures
        lookup(spec_insert(anns, f), id) == if id == f.id {
            Some(f)
        } else {
            lookup(anns, id)
        },
    decreases anns.len(),
{
    reveal_with_fuel(lookup, 3);
    lemma_lex_trichotomy(f.id, if anns.len() > 0 {
        anns[0].id
    } else {
        Seq::empty()
    });
    if anns.len() == 0 {
        let r = spec_insert(anns, f);
        assert(r[0] == f);
        assert(r.drop_first() =~= Seq::<FragmentV>::empty());
        assert(lookup(Seq::<FragmentV>::empty(), id) is None);
    } else if lex_lt(f.id, anns[0].id) {
        let r = seq![f] + anns;
        assert(r[0] == f);
        assert(r.drop_first() =~= anns);
    } else if f.id == anns[0].id {
        let r = seq![f] + anns.drop_first();
        assert(r[0] == f);
        assert(r.drop_first() =~= anns.drop_first());
        if id != f.id {
            assert(anns[0].id != id);
        }
    } else {
        lemma_spec_insert_lookup(anns.drop_first(), f, id);
        let r = seq![anns[0]] + spec_insert(anns.drop_first(), f);
        assert(r[0] == anns[0]);
        assert(r.drop_first() =~= spec_insert(anns.drop_first(), f));
    }
}

/// Insertion keeps the identifiers strictly ascending.
pub proof fn lemma_spec_insert_ascending(anns: Seq<FragmentV>, f: FragmentV)
    requires
        ascending_ids(anns),
    ensures
        ascending_ids(spec_insert(anns, f)),
    decreases anns.len(),
{
    if anns.len() == 0 {
    } else if lex_lt(f.id, anns[0].id) {
        let r = seq![f] + anns;
        assert forall|i: int, j: int| 0 <= i < j < r.len() implies lex_lt(r[i].id, r[j].id) by {
            if i == 0 {
                if j > 1 {
                    crate::text::lemma_lex_transitive(f.id, anns[0].id, anns[j - 1].id);
                }
            }
        }
    } else if f.id == anns[0].id {
        let r = seq![f] + anns.drop_first();
        assert forall|i: int, j: int| 0 <= i < j < r.len() implies lex_lt(r[i].id, r[j].id) by {
            assert(anns.drop_first()[j - 1] == anns[j]);
            if i > 0 {
                assert(anns.drop_first()[i - 1] == anns[i]);
            }
        }
    } else {
        lemma_lex_trichotomy(f.id, anns[0].id);
        assert(ascending_ids(anns.drop_first())) by {
            assert forall|i: int, j: int|
                0 <= i < j < anns.drop_first().len() implies lex_lt(
                anns.drop_first()[i].id,
                anns.drop_first()[j].id,
            ) by {
                assert(anns.drop_first()[i] == anns[i + 1]);
                assert(anns.drop_first()[j] == anns[j + 1]);
            }
        }
        lemma_spec_insert_ascending(anns.drop_first(), f);
        let rest = spec_insert(anns.drop_first(), f);
        let r = seq![anns[0]] + rest;
        lemma_spec_insert_members(anns.drop_first(), f);
        assert forall|i: int, j: int| 0 <= i < j < r.len() implies lex_lt(r[i].id, r[j].id) by {
            if i == 0 {
                assert(rest.contains(rest[j - 1]));
                if exists|k: int| 0 <= k < anns.drop_first().len() && anns.drop_first()[k] == rest[j
                    - 1] {
                    let k = choose|k: int|
                        0 <= k < anns.drop_first().len() && anns.drop_first()[k] == rest[j - 1];
                    assert(anns.drop_first()[k] == anns[k + 1]);
                    assert(lex_lt(anns[0].id, anns[k + 1].id));
                } else {
                    assert(rest[j - 1] == f);
                }
            } else {
                assert(rest[i - 1] == r[i] && rest[j - 1] == r[j]);
            }
        }
    }
}

/// Every member of an insertion result is the new fragment or an old member.
pub proof fn lemma_spec_insert_members(anns: Seq<FragmentV>, f: FragmentV)
    ensures
        forall|m: int|
            0 <= m < spec_insert(anns, f).len() ==> (spec_insert(anns, f)[m] == f || exists|k: int|
                0 <= k < anns.len() && anns[k] == spec_insert(anns, f)[m]),
    decreases anns.len(),
{
    if anns.len() == 0 {
    } else if lex_lt(f.id, anns[0].id) {
    } else if f.id == anns[0].id {
        let r = seq![f] + anns.drop_first();
        assert forall|m: int|
            0 <= m < r.len() implies (r[m] == f || exists|k: int|
            0 <= k < anns.len() && anns[k] == r[m]) by {
            if m > 0 {
                assert(anns[m] == r[m]);
            }
        }
    } else {
        lemma_spec_insert_members(anns.drop_first(), f);
        let rest = spec_insert(anns.drop_first(), f);
        let r = seq![anns[0]] + rest;
        assert forall|m: int|
            0 <= m < r.len() implies (r[m] == f || exists|k: int|
            0 <= k < anns.len() && anns[k] == r[m]) by {
            if m > 0 {
                assert(rest[m - 1] == r[m]);
                if rest[m - 1] != f {
                    let k = choose|k: int|
                        0 <= k < anns.drop_first().len() && anns.drop_first()[k] == rest[m - 1];
                    assert(anns[k + 1] == r[m]);
                }
            }
        }
    }
}

/// Insertion after a prefix of strictly smaller identifiers touches only the
/// remainder.
pub proof fn lemma_spec_insert_split(anns: Seq<FragmentV>, f: FragmentV, i: int)
    requires
        0 <= i <= anns.len(),
        forall|k: int| 0 <= k < i ==> lex_lt(anns[k].id, f.id),
    ensures
        spec_insert(anns, f) == anns.take(i) + spec_insert(anns.skip(i), f),
    decreases i,
{
    if i == 0 {
        assert(anns.skip(0) =~= anns);
        assert(anns.take(0) + spec_insert(anns, f) =~= spec_insert(anns, f));
    } else {
        lemma_lex_trichotomy(f.id, anns[0].id);
        assert(spec_insert(anns, f) == seq![anns[0]] + spec_insert(anns.drop_first(), f));
        assert forall|k: int| 0 <= k < i - 1 implies lex_lt(anns.drop_first()[k].id, f.id) by {
            assert(anns.drop_first()[k] == anns[k + 1]);
        }
        lemma_spec_insert_split(anns.drop_first(), f, i - 1);
        assert(anns.drop_first().skip(i - 1) =~= anns.skip(i));
        assert(seq![anns[0]] + (anns.drop_first().take(i - 1) + spec_insert(anns.skip(i), f))
            =~= anns.take(i) + spec_insert(anns.skip(i), f));
    }
}

/// The annotation map: fragments keyed by identifier, kept in ascending
/// identifier order.
pub struct AnnotationMap {
    frags: Vec<Fragment>,
}

impl AnnotationMap {
    /// The entries, in ascending identifier order.
    pub closed spec fn entries(self) -> Seq<FragmentV> {
        frags_view(self.frags@)
    }

    /// The identifiers are strictly ascending.
    pub open spec fn wf(self) -> bool {
        ascending_ids(self.entries())
    }

    pub fn new() -> (r: AnnotationMap)
        ensures
            r.entries() == Seq::<FragmentV>::empty(),
            r.wf(),
    {
        let r = AnnotationMap { frags: Vec::new() };
        proof {
            assert(r.entries() =~= Seq::<FragmentV>::empty());
        }
        r
    }

    pub fn len(&self) -> (r: usize)
        ensures
            r == self.entries().len(),
    {
        self.frags.len()
    }

    /// The entry at position `i` in ascending identifier order.
    pub fn index(&self, i: usize) -> (r: &Fragment)
        requires
            i < self.entries().len(),
        ensures
            r@ == self.entries()[i as int],
    {
        proof {
            assert(self.entries()[i as int] == self.frags@[i as int]@);
        }
        &self.frags[i]
    }

    /// Adds `frag` under its identifier; a later insertion with the same
    /// identifier overwrites an earlier one.
    pub fn insert(&mut self, frag: Fragment)
        requires
            old(self).wf(),
        ensures
            final(self).wf(),
            final(self).entries() == spec_insert(old(self).entries(), frag@),
            forall|id: Seq<char>|
                #![auto]
                lookup(final(self).entries(), id) == if id == frag@.id {
                    Some(frag@)
                } else {
                    lookup(old(self).entries(), id)
                },
    {
        let ghost anns = self.entries();
        let n = self.frags.len();
        let mut i: usize = 0;
        let mut found: u8 = 0;
        while i < n
            invariant_except_break
                found == 0,
            invariant
                0 <= i <= n,
                n == anns.len(),
                self.entries() == anns,
                forall|k: int| 0 <= k < i ==> lex_lt(anns[k].id, frag@.id),
            ensures
                0 <= i <= n,
                n == anns.len(),
                self.entries() == anns,
                forall|k: int| 0 <= k < i ==> lex_lt(anns[k].id, frag@.id),
                found == 0 || found == 1 || found == 2,
                found == 1 ==> i < n && lex_lt(frag@.id, anns[i as int].id),
                found == 2 ==> i < n && frag@.id == anns[i as int].id,
                found == 0 ==> i == n,
            decreases n - i,
        {
            proof {
                assert(anns[i as int] == self.frags@[i as int]@);
            }
            if str_lex_lt(frag.id.as_str(), self.frags[i].id.as_str()) {
                found = 1;
                break ;
            }
            if str_eq(frag.id.as_str(), self.frags[i].id.as_str()) {
                found = 2;
                break ;
            }
            proof {
                lemma_lex_trichotomy(frag@.id, anns[i as int].id);
            }
            i += 1;
        }
        proof {
            lemma_spec_insert_split(anns, frag@, i as int);
            if i < n {
                assert(anns.skip(i as int)[0] == anns[i as int]);
            }
        }
        if found == 1 {
            proof {
                assert(spec_insert(anns.skip(i as int), frag@) == seq![frag@] + anns.skip(
                    i as int,
                ));
                assert(anns.take(i as int) + (seq![frag@] + anns.skip(i as int)) =~= frags_view(
                    self.frags@.insert(i as int, frag),
                ));
            }
            self.frags.insert(i, frag);
        } else if found == 2 {
            proof {
                lemma_lex_trichotomy(frag@.id, anns[i as int].id);
                assert(anns.skip(i as int).drop_first() =~= anns.skip(i + 1));
                assert(spec_insert(anns.skip(i as int), frag@) == seq![frag@] + anns.skip(i + 1));
                assert(anns.take(i as int) + (seq![frag@] + anns.skip(i + 1)) =~= frags_view(
                    self.frags@.remove(i as int).insert(i as int, frag),
                ));
            }
            let _ = self.frags.remove(i);
            self.frags.insert(i, frag);
        } else {
            proof {
                assert(anns.skip(i as int) =~= Seq::<FragmentV>::empty());
                assert(anns.take(i as int) + seq![frag@] =~= frags_view(self.frags@.push(frag)));
            }
            self.frags.push(frag);
        }
        proof {
            lemma_spec_insert_ascending(anns, frag@);
            assert forall|id: Seq<char>|
                #![auto]
                lookup(self.entries(), id) == (if id == frag@.id {
                    Some(frag@)
                } else {
                    lookup(anns, id)
                }) by {
                lemma_spec_insert_lookup(anns, frag@, id);
            }
        }
    }

    /// The fragment stored under `id`, if any.
    pub fn get(&self, id: &str) -> (r: Option<&Fragment>)
        ensures
            match r {
                Some(f) => lookup(self.entries(), id@) == Some(f@),
                None => lookup(self.entries(), id@) is None,
            },
    {
        let n = self.frags.len();
        let mut i: usize = 0;
        proof {
            assert(self.entries().skip(0) =~= self.entries());
        }
        while i < n
            invariant
                0 <= i <= n,
                n == self.entries().len(),
                lookup(self.entries(), id@) == lookup(self.entries().skip(i as int), id@),
            decreases n - i,
        {
            proof {
                assert(self.entries()[i as int] == self.frags@[i as int]@);
                assert(self.entries().skip(i as int)[0] == self.entries()[i as int]);
                assert(self.entries().skip(i as int).drop_first() =~= self.entries().skip(i + 1));
            }
            if str_eq(self.frags[i].id.as_str(), id) {
                return Some(&self.frags[i]);
            }
            i += 1;
        }
        proof {
            assert(self.entries().skip(i as int) =~= Seq::<FragmentV>::empty());
        }
        None
    }
}

} // verus!
