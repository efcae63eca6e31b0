//! Format sniffing from file names. A fixed suffix grammar recognises a
//! single compression suffix (`xz`, `gz`, `bz2`), a plain `tar` suffix, or a
//! compound tar-plus-compression suffix (`tar.xz`, `tar.gz`, `tar.bz2`),
//! anchored to the end of the name. The bare name is everything between the
//! preceding separator (or the start) and the dot that introduces the
//! matched tag, and may itself contain dots.

use vstd::prelude::*;

verus! {

use crate::chars::str_eq;
use vstd::string::StrSliceExecFns;

pub open spec fn tag_xz() -> Seq<char> {
    seq!['x', 'z']
}

pub open spec fn tag_gz() -> Seq<char> {
    seq!['g', 'z']
}

pub open spec fn tag_bz2() -> Seq<char> {
    seq!['b', 'z', '2']
}

pub open spec fn tag_tar() -> Seq<char> {
    seq!['t', 'a', 'r']
}

pub open spec fn tag_tar_xz() -> Seq<char> {
    seq!['t', 'a', 'r', '.', 'x', 'z']
}

pub open spec fn tag_tar_gz() -> Seq<char> {
    seq!['t', 'a', 'r', '.', 'g', 'z']
}

pub open spec fn tag_tar_bz2() -> Seq<char> {
    seq!['t', 'a', 'r', '.', 'b', 'z', '2']
}

/// The closed set of recognised extension tags.
pub open spec fn is_ext_tag(s: Seq<char>) -> bool {
    ||| s == tag_xz()
    ||| s == tag_gz()
    ||| s == tag_bz2()
    ||| s == tag_tar()
    ||| s == tag_tar_xz()
    ||| s == tag_tar_gz()
    ||| s == tag_tar_bz2()
}

/// A path separator; a bare name may not contain one.
pub open spec fn is_sep(c: char) -> bool {
    c == '/' || c == '\\'
}

/// Position `p` carries a match: a dot preceded by at least one non-separator
/// character, with a recognised tag from `p + 1` to the end of the name.
pub open spec fn dot_ok(s: Seq<char>, p: int) -> bool {
    &&& 1 <= p < s.len()
    &&& s[p] == '.'
    &&& !is_sep(s[p - 1])
    &&& is_ext_tag(s.subrange(p + 1, s.len() as int))
}

/// The first matching dot at or after position `i`.
pub open spec fn first_ok_from(s: Seq<char>, i: int) -> Option<int>
    decreases s.len() - i,
{
    if i >= s.len() {
        Option::None
    } else if dot_ok(s, i) {
        Option::Some(i)
    } else {
        first_ok_from(s, i + 1)
    }
}

/// Start of the run of non-separator characters that ends at position `p`.
pub open spec fn run_start(s: Seq<char>, p: int) -> int
    decreases p,
{
    if p <= 0 {
        0
    } else if is_sep(s[p - 1]) {
        p
    } else {
        run_start(s, p - 1)
    }
}

/// What the suffix grammar yields for a file name: the bare name and the
/// extension tag of the earliest match, or nothing when no suffix matches.
pub open spec fn name_ext_spec(s: Seq<char>) -> Option<(Seq<char>, Seq<char>)> {
    match first_ok_from(s, 0) {
        Option::None => Option::None,
        Option::Some(p) => Option::Some(
            (s.subrange(run_start(s, p), p), s.subrange(p + 1, s.len() as int)),
        ),
    }
}

proof fn lemma_first_ok_from(s: Seq<char>, i: int, p: int)
    requires
        first_ok_from(s, i) == Option::Some(p),
    ensures
        dot_ok(s, p),
        i <= p,
    decreases s.len() - i,
{
    if i < s.len() && !dot_ok(s, i) {
        lemma_first_ok_from(s, i + 1, p);
    }
}

/// A match always carries one of the seven tags.
pub proof fn lemma_name_ext_tag(s: Seq<char>, n: Seq<char>, e: Seq<char>)
    requires
        name_ext_spec(s) == Option::Some((n, e)),
    ensures
        is_ext_tag(e),
        n.len() >= 1,
{
    let p = first_ok_from(s, 0)->Some_0;
    lemma_first_ok_from(s, 0, p);
    lemma_run_start_bounds(s, p - 1);
    assert(run_start(s, p) == run_start(s, p - 1));
}

pub proof fn lemma_run_start_bounds(s: Seq<char>, p: int)
    requires
        0 <= p,
    ensures
        0 <= run_start(s, p) <= p,
    decreases p,
{
    if p > 0 && !is_sep(s[p - 1]) {
        lemma_run_start_bounds(s, p - 1);
    }
}

/// Whether `suffix` is one of the seven recognised tags.
fn ext_tag_ok(suffix: &str) -> (r: bool)
    ensures
        r == is_ext_tag(suffix@),
{
    proof {
        reveal_strlit("xz");
        reveal_strlit("gz");
        reveal_strlit("bz2");
        reveal_strlit("tar");
        reveal_strlit("tar.xz");
        reveal_strlit("tar.gz");
        reveal_strlit("tar.bz2");
        assert("xz"@ =~= tag_xz());
        assert("gz"@ =~= tag_gz());
        assert("bz2"@ =~= tag_bz2());
        assert("tar"@ =~= tag_tar());
        assert("tar.xz"@ =~= tag_tar_xz());
        assert("tar.gz"@ =~= tag_tar_gz());
        assert("tar.bz2"@ =~= tag_tar_bz2());
    }
    str_eq(suffix, "tar.bz2") || str_eq(suffix, "tar.gz") || str_eq(suffix, "tar.xz") || str_eq(
        suffix,
        "tar",
    ) || str_eq(suffix, "bz2") || str_eq(suffix, "gz") || str_eq(suffix, "xz")
}

/// Splits a file name into its bare name and extension tag under the suffix
/// grammar; yields nothing when no recognised suffix matches, or when the
/// suffix is the entire name.
pub fn name_ext(file_name: &str) -> (r: Option<(String, String)>)
    ensures
        match r {
            Option::Some(pair) => name_ext_spec(file_name@) == Option::Some((pair.0@, pair.1@)),
            Option::None => name_ext_spec(file_name@) is None,
        },
{
    let len = file_name.unicode_len();
    let mut p: usize = 0;
    while p < len
        invariant
            p <= len,
            len == file_name@.len(),
            first_ok_from(file_name@, 0) == first_ok_from(file_name@, p as int),
        decreases len - p,
    {
        let c = file_name.get_char(p);
        if c == '.' && p >= 1 {
            let prev = file_name.get_char(p - 1);
            if prev != '/' && prev != '\\' {
                let suffix = file_name.substring_char(p + 1, len);
                proof {
                    assert(suffix@ =~= file_name@.subrange(p + 1, len as int));
                }
                if ext_tag_ok(suffix) {
                    assert(dot_ok(file_name@, p as int));
                    let mut st: usize = p;
                    while st > 0 && file_name.get_char(st - 1) != '/' && file_name.get_char(st - 1)
                        != '\\'
                        invariant
                            st <= p,
                            p < len,
                            len == file_name@.len(),
                            run_start(file_name@, p as int) == run_start(file_name@, st as int),
                        decreases st,
                    {
                        st = st - 1;
                    }
                    assert(run_start(file_name@, p as int) == st as int);
                    let bare = file_name.substring_char(st, p);
                    proof {
                        assert(bare@ =~= file_name@.subrange(st as int, p as int));
                    }
                    return Option::Some((bare.to_owned(), suffix.to_owned()));
                }
            }
        }
        assert(!dot_ok(file_name@, p as int));
        p = p + 1;
    }
    Option::None
}

} // verus!
