//! The path resolver: computes the minimal relative path between two
//! slash-separated file paths by discarding their shared prefix.

use vstd::prelude::*;

use crate::text::{
    first_occ, join_sep, lemma_first_occ_props, lemma_join_sep_snoc, str_eq, str_find_char,
    strings_view,
};

verus! {

/// The components of a slash-separated path: the non-empty pieces between
/// slashes.
pub open spec fn path_components(s: Seq<char>) -> Seq<Seq<char>>
    decreases s.len(),
{
    let j = first_occ(s, '/', 0);
    if 0 <= j < s.len() {
        if j == 0 {
            path_components(s.skip(1))
        } else {
            seq![s.take(j)] + path_components(s.skip(j + 1))
        }
    } else {
        if s.len() == 0 {
            Seq::empty()
        } else {
            seq![s]
        }
    }
}

/// How many leading components `a` and `b` share.
pub open spec fn common_prefix_len(a: Seq<Seq<char>>, b: Seq<Seq<char>>) -> int
    decreases a.len(),
{
    if a.len() == 0 || b.len() == 0 {
        0
    } else if a[0] == b[0] {
        1 + common_prefix_len(a.drop_first(), b.drop_first())
    } else {
        0
    }
}

pub proof fn lemma_common_prefix_len_props(a: Seq<Seq<char>>, b: Seq<Seq<char>>)
    ensures
        0 <= common_prefix_len(a, b) <= a.len(),
        common_prefix_len(a, b) <= b.len(),
        forall|i: int| 0 <= i < common_prefix_len(a, b) ==> a[i] == b[i],
        common_prefix_len(a, b) < a.len() && common_prefix_len(a, b) < b.len() ==> a[common_prefix_len(
            a,
            b,
        )] != b[common_prefix_len(a, b)],
    decreases a.len(),
{
    if a.len() > 0 && b.len() > 0 && a[0] == b[0] {
        lemma_common_prefix_len_props(a.drop_first(), b.drop_first());
        let k = common_prefix_len(a, b);
        assert forall|i: int| 0 <= i < k implies a[i] == b[i] by {
            if i > 0 {
                assert(a.drop_first()[i - 1] == b.drop_first()[i - 1]);
            }
        }
        if k < a.len() && k < b.len() {
            assert(a.drop_first()[k - 1] == a[k]);
            assert(b.drop_first()[k - 1] == b[k]);
        }
    }
}

pub proof fn lemma_common_prefix_len_unique(a: Seq<Seq<char>>, b: Seq<Seq<char>>, k: int)
    requires
        0 <= k <= a.len(),
        k <= b.len(),
        forall|i: int| 0 <= i < k ==> a[i] == b[i],
        k < a.len() && k < b.len() ==> a[k] != b[k],
    ensures
        common_prefix_len(a, b) == k,
{
    lemma_common_prefix_len_props(a, b);
    let c = common_prefix_len(a, b);
    if c < k {
        assert(a[c] == b[c]);
    } else if k < c {
        assert(a[k] == b[k]);
    }
}

/// The components of the relative path from `a` to `b`, the shared prefix
/// discarded: when `a` runs out first, what is left of `b`; when `b` runs
/// out first, one `.` for each component `a` still has; at a divergence, one
/// `..` for each component of `a` past the diverging one, then the rest of
/// `b`.
pub open spec fn rel_path_parts(a: Seq<Seq<char>>, b: Seq<Seq<char>>) -> Seq<Seq<char>> {
    let k = common_prefix_len(a, b);
    if k == a.len() {
        b.skip(k)
    } else if k == b.len() {
        Seq::new((a.len() - k) as nat, |i: int| seq!['.'])
    } else {
        Seq::new((a.len() - k - 1) as nat, |i: int| seq!['.', '.']) + b.skip(k)
    }
}

/// The relative path from the file `from` to the file `to`, both given as
/// slash-separated paths.
pub open spec fn rel_path(from: Seq<char>, to: Seq<char>) -> Seq<char> {
    join_sep(rel_path_parts(path_components(from), path_components(to)), '/')
}

/// Splits a path into its non-empty slash-separated components.
fn split_path_components(s: &str) -> (v: Vec<String>)
    ensures
        strings_view(v@) == path_components(s@),
{
    let mut v: Vec<String> = Vec::new();
    let mut rest: &str = s;
    proof {
        assert(strings_view(v@) =~= Seq::<Seq<char>>::empty());
    }
    loop
        invariant_except_break
            path_components(s@) == strings_view(v@) + path_components(rest@),
        ensures
            path_components(s@) == strings_view(v@),
        decreases rest@.len(),
    {
        let ghost pre = v@;
        let n = rest.unicode_len();
        let j = str_find_char(rest, '/', 0);
        proof {
            lemma_first_occ_props(rest@, '/', 0);
        }
        if j < n {
            if j > 0 {
                let piece = String::from_str(rest.substring_char(0, j));
                proof {
                    assert(piece@ =~= rest@.take(j as int));
                }
                v.push(piece);
                proof {
                    assert(strings_view(v@) =~= strings_view(pre).push(rest@.take(j as int)));
                    assert(path_components(rest@) == seq![rest@.take(j as int)] + path_components(
                        rest@.skip(j + 1),
                    ));
                    assert(strings_view(pre) + path_components(rest@) =~= strings_view(v@)
                        + path_components(rest@.skip(j + 1)));
                }
            }
            let new_rest = rest.substring_char(j + 1, n);
            proof {
                assert(new_rest@ =~= rest@.skip(j + 1));
            }
            rest = new_rest;
        } else {
            if n > 0 {
                let piece = String::from_str(rest);
                v.push(piece);
                proof {
                    assert(path_components(rest@) == seq![rest@]);
                    assert(strings_view(v@) =~= strings_view(pre).push(rest@));
                    assert(strings_view(pre) + seq![rest@] =~= strings_view(v@));
                }
            }
            proof {
                if n == 0 {
                    assert(path_components(rest@) =~= Seq::<Seq<char>>::empty());
                    assert(strings_view(v@) + Seq::<Seq<char>>::empty() =~= strings_view(v@));
                }
            }
            break ;
        }
    }
    v
}

/// Every path component is non-empty.
pub proof fn lemma_path_components_nonempty(s: Seq<char>)
    ensures
        forall|i: int| 0 <= i < path_components(s).len() ==> path_components(s)[i].len() > 0,
    decreases s.len(),
{
    lemma_first_occ_props(s, '/', 0);
    let j = first_occ(s, '/', 0);
    if 0 <= j < s.len() {
        if j == 0 {
            lemma_path_components_nonempty(s.skip(1));
        } else {
            lemma_path_components_nonempty(s.skip(j + 1));
            let r = seq![s.take(j)] + path_components(s.skip(j + 1));
            assert forall|i: int| 0 <= i < r.len() implies r[i].len() > 0 by {
                if i > 0 {
                    assert(r[i] == path_components(s.skip(j + 1))[i - 1]);
                }
            }
        }
    }
}

/// Appends one more path component to `out`, separating it from what is
/// already there with a slash.
fn push_part(out: &mut String, part: &str, Ghost(parts): Ghost<Seq<Seq<char>>>)
    requires
        old(out)@ == join_sep(parts, '/'),
        forall|i: int| 0 <= i < parts.len() ==> parts[i].len() > 0,
        part@.len() > 0,
    ensures
        final(out)@ == join_sep(parts.push(part@), '/'),
{
    proof {
        reveal_strlit("/");
        lemma_join_sep_snoc(parts, part@, '/');
        if parts.len() >= 1 {
            if parts.len() == 1 {
                assert(join_sep(parts, '/') == parts[0]);
            } else {
                assert(join_sep(parts, '/').len() >= parts[0].len() + 1);
            }
            assert(join_sep(parts, '/').len() > 0);
        }
    }
    if !out.as_str().is_empty() {
        out.append("/");
        proof {
            assert("/"@ =~= seq!['/']);
        }
        out.append(part);
        proof {
            assert(out@ =~= join_sep(parts, '/') + seq!['/'] + part@);
        }
    } else {
        out.append(part);
        proof {
            assert(out@ =~= part@);
        }
    }
}

/// Computes the minimal relative path from the file `from` to the file `to`.
pub fn find_relative_path(from: &str, to: &str) -> (r: String)
    ensures
        r@ == rel_path(from@, to@),
{
    let av = split_path_components(from);
    let bv = split_path_components(to);
    let ghost a = strings_view(av@);
    let ghost b = strings_view(bv@);
    let alen = av.len();
    let blen = bv.len();
    let mut k: usize = 0;
    loop
        invariant
            0 <= k <= alen,
            k <= blen,
            alen == a.len(),
            blen == b.len(),
            a == strings_view(av@),
            b == strings_view(bv@),
            forall|i: int| 0 <= i < k ==> a[i] == b[i],
        ensures
            0 <= k <= alen,
            k <= blen,
            forall|i: int| 0 <= i < k ==> a[i] == b[i],
            k < alen && k < blen ==> a[k as int] != b[k as int],
            k == alen || k == blen || a[k as int] != b[k as int],
        decreases alen - k,
    {
        if k >= alen || k >= blen {
            break ;
        }
        proof {
            assert(a[k as int] == av@[k as int]@);
            assert(b[k as int] == bv@[k as int]@);
        }
        if !str_eq(av[k].as_str(), bv[k].as_str()) {
            break ;
        }
        k += 1;
    }
    proof {
        lemma_common_prefix_len_unique(a, b, k as int);
        lemma_path_components_nonempty(from@);
        lemma_path_components_nonempty(to@);
    }
    let mut out = String::new();
    let ghost mut parts: Seq<Seq<char>> = Seq::empty();
    proof {
        assert(out@ =~= join_sep(parts, '/'));
    }
    if k == alen {
        // `from` ran out: what is left of `to` leads down to it.
        let mut i: usize = k;
        while i < blen
            invariant
                k <= i <= blen,
                blen == b.len(),
                b == strings_view(bv@),
                b == path_components(to@),
                forall|m: int| 0 <= m < b.len() ==> b[m].len() > 0,
                parts == b.subrange(k as int, i as int),
                forall|m: int| 0 <= m < parts.len() ==> parts[m].len() > 0,
                out@ == join_sep(parts, '/'),
            decreases blen - i,
        {
            proof {
                assert(b[i as int] == bv@[i as int]@);
            }
            push_part(&mut out, bv[i].as_str(), Ghost(parts));
            proof {
                parts = parts.push(b[i as int]);
                assert(parts =~= b.subrange(k as int, i + 1));
            }
            i += 1;
        }
        proof {
            assert(parts =~= b.skip(k as int));
        }
    } else if k == blen {
        // `to` ran out: each remaining component of `from` marks the same
        // directory once more.
        let mut i: usize = k;
        while i < alen
            invariant
                k <= i <= alen,
                parts == Seq::new((i - k) as nat, |m: int| seq!['.']),
                forall|m: int| 0 <= m < parts.len() ==> parts[m].len() > 0,
                out@ == join_sep(parts, '/'),
            decreases alen - i,
        {
            proof {
                reveal_strlit(".");
                assert((".")@ =~= seq!['.']);
            }
            push_part(&mut out, ".", Ghost(parts));
            proof {
                parts = parts.push(seq!['.']);
                assert(parts =~= Seq::new((i + 1 - k) as nat, |m: int| seq!['.']));
            }
            i += 1;
        }
    } else {
        // Divergence: climb out of every directory of `from` past the
        // diverging one, then walk down the rest of `to`.
        let ups = alen - k - 1;
        let mut i: usize = 0;
        while i < ups
            invariant
                0 <= i <= ups,
                parts == Seq::new(i as nat, |m: int| seq!['.', '.']),
                forall|m: int| 0 <= m < parts.len() ==> parts[m].len() > 0,
                out@ == join_sep(parts, '/'),
            decreases ups - i,
        {
            proof {
                reveal_strlit("..");
                assert(("..")@ =~= seq!['.', '.']);
            }
            push_part(&mut out, "..", Ghost(parts));
            proof {
                parts = parts.push(seq!['.', '.']);
                assert(parts =~= Seq::new((i + 1) as nat, |m: int| seq!['.', '.']));
            }
            i += 1;
        }
        let mut j: usize = k;
        while j < blen
            invariant
                k <= j <= blen,
                blen == b.len(),
                b == strings_view(bv@),
                b == path_components(to@),
                forall|m: int| 0 <= m < b.len() ==> b[m].len() > 0,
                ups == a.len() - k - 1,
                parts == Seq::new(ups as nat, |m: int| seq!['.', '.']) + b.subrange(
                    k as int,
                    j as int,
                ),
                forall|m: int| 0 <= m < parts.len() ==> parts[m].len() > 0,
                out@ == join_sep(parts, '/'),
            decreases blen - j,
        {
            proof {
                assert(b[j as int] == bv@[j as int]@);
            }
            push_part(&mut out, bv[j].as_str(), Ghost(parts));
            proof {
                parts = parts.push(b[j as int]);
                assert(parts =~= Seq::new(ups as nat, |m: int| seq!['.', '.']) + b.subrange(
                    k as int,
                    j + 1,
                ));
            }
            j += 1;
        }
        proof {
            assert(b.subrange(k as int, blen as int) =~= b.skip(k as int));
        }
    }
    proof {
        assert(parts =~= rel_path_parts(a, b));
    }
    out
}

} // verus!
