//! Path-level naming logic: deriving a candidate file name from the last
//! segment of a URL or path, pairing paths with their file names, and
//! order-preserving de-duplication of source lists.

use vstd::prelude::*;

verus! {

use crate::chars::{str_eq, views_of};
use vstd::string::StrSliceExecFns;

/// Start of the last `/`-separated segment that ends at position `p`.
pub open spec fn seg_start(s: Seq<char>, p: int) -> int
    decreases p,
{
    if p <= 0 {
        0
    } else if s[p - 1] == '/' {
        p
    } else {
        seg_start(s, p - 1)
    }
}

pub proof fn lemma_seg_start_bounds(s: Seq<char>, p: int)
    requires
        0 <= p,
    ensures
        0 <= seg_start(s, p) <= p,
    decreases p,
{
    if p > 0 && s[p - 1] != '/' {
        lemma_seg_start_bounds(s, p - 1);
    }
}

/// The file name that a URL or path yields: its last non-empty segment,
/// ignoring trailing slashes and `.` segments; none when the path is empty
/// or its last segment is `..`.
pub open spec fn file_name_spec(s: Seq<char>) -> Option<Seq<char>>
    decreases s.len(),
    via file_name_spec_decreases
{
    if s.len() == 0 {
        Option::None
    } else if s.last() == '/' {
        file_name_spec(s.drop_last())
    } else {
        let st = seg_start(s, s.len() as int);
        let seg = s.subrange(st, s.len() as int);
        if seg == seq!['.', '.'] {
            Option::None
        } else if seg == seq!['.'] {
            file_name_spec(s.subrange(0, st))
        } else {
            Option::Some(seg)
        }
    }
}

#[via_fn]
proof fn file_name_spec_decreases(s: Seq<char>) {
    if s.len() > 0 && s.last() != '/' {
        lemma_seg_start_bounds(s, s.len() - 1);
    }
}

/// Derives the destination file name for a URL or path.
pub fn file_name_of(path: &str) -> (r: Option<String>)
    ensures
        match r {
            Option::Some(n) => file_name_spec(path@) == Option::Some(n@),
            Option::None => file_name_spec(path@) is None,
        },
    decreases path@.len(),
{
    let len = path.unicode_len();
    if len == 0 {
        return Option::None;
    }
    if path.get_char(len - 1) == '/' {
        let prefix = path.substring_char(0, len - 1);
        proof {
            assert(prefix@ =~= path@.drop_last());
        }
        return file_name_of(prefix);
    }
    let mut st: usize = len;
    while st > 0 && path.get_char(st - 1) != '/'
        invariant
            st <= len,
            len == path@.len(),
            seg_start(path@, len as int) == seg_start(path@, st as int),
        decreases st,
    {
        st = st - 1;
    }
    assert(seg_start(path@, len as int) == st as int);
    let seg = path.substring_char(st, len);
    proof {
        assert(seg@ =~= path@.subrange(st as int, len as int));
    }
    if str_eq(seg, "..") {
        proof {
            reveal_strlit("..");
            assert(seg@ =~= seq!['.', '.']);
        }
        Option::None
    } else if str_eq(seg, ".") {
        proof {
            reveal_strlit(".");
            reveal_strlit("..");
            assert(seg@ =~= seq!['.']);
            assert(path@.subrange(st as int, len as int) != seq!['.', '.']);
        }
        let prefix = path.substring_char(0, st);
        proof {
            assert(prefix@ =~= path@.subrange(0, st as int));
        }
        file_name_of(prefix)
    } else {
        proof {
            reveal_strlit(".");
            reveal_strlit("..");
            assert("."@ =~= seq!['.']);
            assert(".."@ =~= seq!['.', '.']);
            assert(seg@ != seq!['.', '.']);
            assert(seg@ != seq!['.']);
        }
        Option::Some(seg.to_owned())
    }
}

/// Pairs each path with its derived file name, dropping paths that yield
/// none, in order.
pub open spec fn with_names(srcs: Seq<Seq<char>>) -> Seq<(Seq<char>, Seq<char>)>
    decreases srcs.len(),
{
    if srcs.len() == 0 {
        Seq::empty()
    } else {
        match file_name_spec(srcs.first()) {
            Option::Some(n) => seq![(srcs.first(), n)] + with_names(srcs.drop_first()),
            Option::None => with_names(srcs.drop_first()),
        }
    }
}

/// The character sequences of a list of (path, name) pairs.
pub open spec fn pairs_view(v: Seq<(String, String)>) -> Seq<(Seq<char>, Seq<char>)> {
    v.map_values(|p: (String, String)| (p.0@, p.1@))
}

/// Pairs each path with its file name, dropping paths without one.
/// Callers that extract archives first filter the list to paths that exist
/// as regular files; that check is not the concern of this function.
pub fn zip_file_name(paths: &Vec<String>) -> (r: Vec<(String, String)>)
    ensures
        pairs_view(r@) == with_names(views_of(paths@)),
{
    let ghost full = views_of(paths@);
    let mut out: Vec<(String, String)> = Vec::new();
    let mut i: usize = 0;
    proof {
        assert(full.subrange(0, full.len() as int) =~= full);
        assert(pairs_view(out@) =~= Seq::<(Seq<char>, Seq<char>)>::empty());
        assert(pairs_view(out@) + with_names(full) =~= with_names(full));
    }
    while i < paths.len()
        invariant
            i <= paths@.len(),
            full == views_of(paths@),
            with_names(full) == pairs_view(out@) + with_names(
                full.subrange(i as int, full.len() as int),
            ),
        decreases paths@.len() - i,
    {
        let ghost suffix = full.subrange(i as int, full.len() as int);
        proof {
            assert(suffix.first() == full[i as int]);
            assert(suffix.drop_first() =~= full.subrange(i + 1, full.len() as int));
        }
        match file_name_of(paths[i].as_str()) {
            Option::Some(n) => {
                let ghost e = (full[i as int], n@);
                out.push((paths[i].clone(), n));
                proof {
                    assert(with_names(suffix) == seq![e] + with_names(
                        full.subrange(i + 1, full.len() as int),
                    ));
                    assert(pairs_view(out@) =~= pairs_view(out@.drop_last()).push(e));
                    assert(pairs_view(out@) + with_names(
                        full.subrange(i + 1, full.len() as int),
                    ) =~= pairs_view(out@.drop_last()) + with_names(suffix));
                }
            },
            Option::None => {
                proof {
                    assert(with_names(suffix) == with_names(
                        full.subrange(i + 1, full.len() as int),
                    ));
                }
            },
        }
        i = i + 1;
    }
    proof {
        assert(full.subrange(i as int, full.len() as int) =~= Seq::<Seq<char>>::empty());
        assert(with_names(Seq::<Seq<char>>::empty()) =~= Seq::<(Seq<char>, Seq<char>)>::empty());
        assert(pairs_view(out@) + Seq::<(Seq<char>, Seq<char>)>::empty() =~= pairs_view(out@));
    }
    out
}

/// Order-preserving de-duplication: each string keeps its first occurrence.
pub open spec fn dedup_spec(s: Seq<Seq<char>>) -> Seq<Seq<char>>
    decreases s.len(),
{
    if s.len() == 0 {
        Seq::empty()
    } else {
        let rest = dedup_spec(s.drop_last());
        if rest.contains(s.last()) {
            rest
        } else {
            rest.push(s.last())
        }
    }
}

/// De-duplicates a source list, keeping first occurrences in order.
pub fn dedup_sources(src: &Vec<String>) -> (r: Vec<String>)
    ensures
        views_of(r@) == dedup_spec(views_of(src@)),
{
    let ghost full = views_of(src@);
    let mut out: Vec<String> = Vec::new();
    let mut i: usize = 0;
    proof {
        assert(full.subrange(0, 0) =~= Seq::<Seq<char>>::empty());
        assert(views_of(out@) =~= Seq::<Seq<char>>::empty());
    }
    while i < src.len()
        invariant
            i <= src@.len(),
            full == views_of(src@),
            views_of(out@) == dedup_spec(full.subrange(0, i as int)),
        decreases src@.len() - i,
    {
        let ghost prefix1 = full.subrange(0, i + 1);
        proof {
            assert(prefix1.drop_last() =~= full.subrange(0, i as int));
            assert(prefix1.last() == full[i as int]);
        }
        if !crate::chars::contains_str(&out, src[i].as_str()) {
            out.push(src[i].clone());
            proof {
                assert(views_of(out@) =~= views_of(out@.drop_last()).push(full[i as int]));
            }
        }
        i = i + 1;
    }
    proof {
        assert(full.subrange(0, i as int) =~= full);
    }
    out
}

/// No string occurs twice.
pub open spec fn distinct_names(s: Seq<Seq<char>>) -> bool {
    forall|i: int, j: int| 0 <= i < j < s.len() ==> s[i] != s[j]
}

proof fn lemma_dedup_distinct(s: Seq<Seq<char>>)
    ensures
        distinct_names(dedup_spec(s)),
    decreases s.len(),
{
    if s.len() > 0 {
        lemma_dedup_distinct(s.drop_last());
        let rest = dedup_spec(s.drop_last());
        if !rest.contains(s.last()) {
            assert forall|i: int, j: int|
                0 <= i < j < rest.push(s.last()).len() implies rest.push(s.last())[i] != rest.push(
                s.last(),
            )[j] by {
                if j == rest.len() as int {
                    assert(rest[i] == rest.push(s.last())[i]);
                    assert(rest.contains(rest[i]));
                }
            }
        }
    }
}

proof fn lemma_dedup_contains(s: Seq<Seq<char>>, x: Seq<char>)
    ensures
        dedup_spec(s).contains(x) <==> s.contains(x),
    decreases s.len(),
{
    if s.len() > 0 {
        lemma_dedup_contains(s.drop_last(), x);
        let rest = dedup_spec(s.drop_last());
        if s.contains(x) {
            let i = choose|i: int| 0 <= i < s.len() && s[i] == x;
            if i < s.len() - 1 {
                assert(s.drop_last()[i] == x);
                assert(s.drop_last().contains(x));
            }
            if rest.contains(x) {
                let j = choose|j: int| 0 <= j < rest.len() && rest[j] == x;
                if !rest.contains(s.last()) {
                    assert(rest.push(s.last())[j] == x);
                }
            } else {
                assert(x == s.last());
                assert(rest.push(s.last()).last() == x);
            }
        } else {
            if dedup_spec(s).contains(x) {
                let j = choose|j: int| 0 <= j < dedup_spec(s).len() && dedup_spec(s)[j] == x;
                if rest.contains(s.last()) {
                    assert(s.contains(x));
                } else {
                    if j < rest.len() as int {
                        assert(rest[j] == x);
                        let k = choose|k: int| 0 <= k < s.drop_last().len() && s.drop_last()[k]
                            == x;
                        assert(s[k] == x);
                    } else {
                        assert(x == s.last());
                        assert(s.contains(x));
                    }
                }
            }
        }
    }
}

proof fn lemma_dedup_of_distinct(s: Seq<Seq<char>>)
    requires
        distinct_names(s),
    ensures
        dedup_spec(s) == s,
    decreases s.len(),
{
    if s.len() > 0 {
        assert(distinct_names(s.drop_last()));
        lemma_dedup_of_distinct(s.drop_last());
        let rest = dedup_spec(s.drop_last());
        lemma_dedup_contains(s.drop_last(), s.last());
        if s.drop_last().contains(s.last()) {
            let i = choose|i: int| 0 <= i < s.drop_last().len() && s.drop_last()[i] == s.last();
            assert(s[i] == s[s.len() - 1]);
            assert(false);
        }
        assert(dedup_spec(s) =~= s);
    }
}

/// De-duplication is idempotent: de-duplicating a list twice yields the
/// same list as doing it once.
pub proof fn lemma_dedup_idempotent(s: Seq<Seq<char>>)
    ensures
        dedup_spec(dedup_spec(s)) == dedup_spec(s),
{
    lemma_dedup_distinct(s);
    lemma_dedup_of_distinct(dedup_spec(s));
}

/// De-duplication never lengthens a list.
pub proof fn lemma_dedup_len(s: Seq<Seq<char>>)
    ensures
        dedup_spec(s).len() <= s.len(),
    decreases s.len(),
{
    if s.len() > 0 {
        lemma_dedup_len(s.drop_last());
    }
}

/// Pairing with names never lengthens a list.
pub proof fn lemma_with_names_len(s: Seq<Seq<char>>)
    ensures
        with_names(s).len() <= s.len(),
    decreases s.len(),
{
    if s.len() > 0 {
        lemma_with_names_len(s.drop_first());
    }
}

} // verus!
