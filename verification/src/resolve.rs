//! Destination-name resolution. Given the names already present in the
//! destination directory, a requested name and a collision policy, decide
//! which name to write to, or to skip the source. Under `Rename` the chosen
//! alternate is the lowest-numbered free suffix: `stem2.ext`, `stem3.ext`,
//! and so on, with numbering starting at 2; a name without an extension
//! renames as `stem2`, `stem3`, with no trailing dot.

use vstd::prelude::*;

verus! {

use crate::chars::{contains_str, digits_of, lemma_digits_injective, str_eq, usize_to_string, views_of};
use crate::download::OnDuplicated;
use vstd::string::StrSliceExecFns;
use vstd::string::StringExecFns;

/// Index of the last dot strictly before position `p` and not at the very
/// start of the name; such a dot separates stem from extension.
pub open spec fn last_dot_before(s: Seq<char>, p: int) -> Option<int>
    decreases p,
{
    if p <= 1 {
        Option::None
    } else if s[p - 1] == '.' {
        Option::Some(p - 1)
    } else {
        last_dot_before(s, p - 1)
    }
}

/// Splits a name into stem and extension at the last dot. A name with no
/// dot past its first character has no extension; a leading dot does not
/// begin one.
pub open spec fn stem_ext_spec(s: Seq<char>) -> (Seq<char>, Seq<char>) {
    match last_dot_before(s, s.len() as int) {
        Option::None => (s, Seq::empty()),
        Option::Some(d) => (s.subrange(0, d), s.subrange(d + 1, s.len() as int)),
    }
}

/// The alternate name tried for suffix number `k`: `stem`, then `k` in
/// decimal, then `.ext` when there is an extension.
pub open spec fn candidate_spec(stem: Seq<char>, ext: Seq<char>, k: nat) -> Seq<char> {
    if ext.len() == 0 {
        stem + digits_of(k)
    } else {
        stem + digits_of(k) + seq!['.'] + ext
    }
}

/// `k` is the lowest suffix number from 2 on whose candidate name is free.
pub open spec fn is_first_free(names: Seq<Seq<char>>, stem: Seq<char>, ext: Seq<char>, k: nat) -> bool {
    &&& 2 <= k
    &&& !names.contains(candidate_spec(stem, ext, k))
    &&& forall|j: nat| 2 <= j < k ==> names.contains(candidate_spec(stem, ext, j))
}

/// The lowest free suffix number from 2 on.
pub open spec fn first_free(names: Seq<Seq<char>>, stem: Seq<char>, ext: Seq<char>) -> nat {
    choose|k: nat| is_first_free(names, stem, ext, k)
}

/// The name chosen by the `Rename` policy.
pub open spec fn rename_of(names: Seq<Seq<char>>, req: Seq<char>) -> Seq<char> {
    let (stem, ext) = stem_ext_spec(req);
    candidate_spec(stem, ext, first_free(names, stem, ext))
}

/// What resolution yields: no entry to skip the source, or the name to
/// write to, with a flag telling whether that name already exists and is
/// being replaced.
pub open spec fn resolve_spec(names: Seq<Seq<char>>, req: Seq<char>, policy: OnDuplicated) -> Option<
    (Seq<char>, bool),
> {
    if !names.contains(req) {
        Option::Some((req, false))
    } else {
        match policy {
            OnDuplicated::Skip => Option::None,
            OnDuplicated::Replace => Option::Some((req, true)),
            OnDuplicated::Rename => Option::Some((rename_of(names, req), false)),
        }
    }
}

/// Candidate names for distinct suffix numbers are distinct.
proof fn lemma_candidate_injective(stem: Seq<char>, ext: Seq<char>, k1: nat, k2: nat)
    requires
        candidate_spec(stem, ext, k1) == candidate_spec(stem, ext, k2),
    ensures
        k1 == k2,
{
    let c1 = candidate_spec(stem, ext, k1);
    let c2 = candidate_spec(stem, ext, k2);
    let d1 = digits_of(k1);
    let d2 = digits_of(k2);
    if ext.len() == 0 {
        assert(c1.len() == stem.len() + d1.len());
        assert(c2.len() == stem.len() + d2.len());
    } else {
        assert(c1.len() == stem.len() + d1.len() + 1 + ext.len());
        assert(c2.len() == stem.len() + d2.len() + 1 + ext.len());
    }
    assert(d1.len() == d2.len());
    assert(d1 =~= c1.subrange(stem.len() as int, stem.len() as int + d1.len() as int));
    assert(d2 =~= c2.subrange(stem.len() as int, stem.len() as int + d2.len() as int));
    lemma_digits_injective(k1, k2);
}

/// Among any `names.len() + 1` consecutive suffix numbers, at least one
/// candidate name is free.
proof fn lemma_free_in_range(names: Seq<Seq<char>>, stem: Seq<char>, ext: Seq<char>, k0: nat)
    ensures
        exists|k: nat|
            k0 <= k <= k0 + names.len() && !names.contains(candidate_spec(stem, ext, k)),
    decreases names.len(),
{
    if !names.contains(candidate_spec(stem, ext, k0)) {
        assert(k0 <= k0 <= k0 + names.len() && !names.contains(candidate_spec(stem, ext, k0)));
    } else {
        let i = choose|i: int| 0 <= i < names.len() && names[i] == candidate_spec(stem, ext, k0);
        let rest = names.remove(i);
        lemma_free_in_range(rest, stem, ext, k0 + 1);
        let k = choose|k: nat|
            k0 + 1 <= k <= k0 + 1 + rest.len() && !rest.contains(candidate_spec(stem, ext, k));
        if names.contains(candidate_spec(stem, ext, k)) {
            let j = choose|j: int| 0 <= j < names.len() && names[j] == candidate_spec(stem, ext, k);
            if j == i {
                lemma_candidate_injective(stem, ext, k0, k);
                assert(false);
            } else if j < i {
                assert(rest[j] == names[j]);
                assert(rest.contains(candidate_spec(stem, ext, k)));
                assert(false);
            } else {
                assert(rest[j - 1] == names[j]);
                assert(rest.contains(candidate_spec(stem, ext, k)));
                assert(false);
            }
        }
        assert(k0 <= k <= k0 + names.len() && !names.contains(candidate_spec(stem, ext, k)));
    }
}

/// At most one suffix number is the lowest free one.
proof fn lemma_first_free_unique(
    names: Seq<Seq<char>>,
    stem: Seq<char>,
    ext: Seq<char>,
    k1: nat,
    k2: nat,
)
    requires
        is_first_free(names, stem, ext, k1),
        is_first_free(names, stem, ext, k2),
    ensures
        k1 == k2,
{
    if k1 < k2 {
        assert(names.contains(candidate_spec(stem, ext, k1)));
    }
    if k2 < k1 {
        assert(names.contains(candidate_spec(stem, ext, k2)));
    }
}

proof fn lemma_minimal_free_exists(names: Seq<Seq<char>>, stem: Seq<char>, ext: Seq<char>, fk: nat)
    requires
        fk >= 2,
        !names.contains(candidate_spec(stem, ext, fk)),
    ensures
        exists|k: nat| is_first_free(names, stem, ext, k),
    decreases fk,
{
    if forall|j: nat| 2 <= j < fk ==> names.contains(candidate_spec(stem, ext, j)) {
        assert(is_first_free(names, stem, ext, fk));
    } else {
        let j = choose|j: nat| 2 <= j < fk && !names.contains(candidate_spec(stem, ext, j));
        lemma_minimal_free_exists(names, stem, ext, j);
    }
}

/// The name chosen by the `Rename` policy is never an existing one.
pub proof fn lemma_rename_fresh(names: Seq<Seq<char>>, req: Seq<char>)
    ensures
        !names.contains(rename_of(names, req)),
{
    let (stem, ext) = stem_ext_spec(req);
    lemma_free_in_range(names, stem, ext, 2);
    let fk = choose|k: nat|
        2 <= k <= 2 + names.len() && !names.contains(candidate_spec(stem, ext, k));
    lemma_minimal_free_exists(names, stem, ext, fk);
    assert(is_first_free(names, stem, ext, first_free(names, stem, ext)));
}

/// Under a policy other than `Replace`, a resolved name is never an
/// existing one: an existing destination is never written.
pub proof fn lemma_resolve_fresh(names: Seq<Seq<char>>, req: Seq<char>, policy: OnDuplicated)
    requires
        policy != OnDuplicated::Replace,
    ensures
        match resolve_spec(names, req, policy) {
            Option::Some(rn) => !names.contains(rn.0) && rn.1 == false,
            Option::None => true,
        },
{
    if names.contains(req) && policy == OnDuplicated::Rename {
        lemma_rename_fresh(names, req);
    }
}

/// Splits a requested name into stem and extension at the last dot.
pub fn split_name(requested: &str) -> (r: (String, String))
    ensures
        (r.0@, r.1@) == stem_ext_spec(requested@),
{
    let len = requested.unicode_len();
    let mut p: usize = len;
    while p > 1 && requested.get_char(p - 1) != '.'
        invariant
            p <= len,
            len == requested@.len(),
            last_dot_before(requested@, len as int) == last_dot_before(requested@, p as int),
        decreases p,
    {
        p = p - 1;
    }
    if p <= 1 {
        proof {
            assert(last_dot_before(requested@, len as int) is None);
        }
        let stem = requested.to_owned();
        let ext = String::new();
        proof {
            assert(ext@ =~= Seq::<char>::empty());
        }
        (stem, ext)
    } else {
        proof {
            assert(last_dot_before(requested@, len as int) == Option::Some(p - 1int));
        }
        let stem = requested.substring_char(0, p - 1);
        let ext = requested.substring_char(p, len);
        proof {
            assert(stem@ =~= requested@.subrange(0, p - 1int));
            assert(ext@ =~= requested@.subrange(p as int, len as int));
        }
        (stem.to_owned(), ext.to_owned())
    }
}

/// Builds the alternate name for suffix number `k`.
pub fn rename_candidate(stem: &str, ext: &str, k: usize) -> (r: String)
    ensures
        r@ == candidate_spec(stem@, ext@, k as nat),
{
    let mut s = stem.to_owned();
    let ds = usize_to_string(k);
    s.append(ds.as_str());
    if ext.unicode_len() > 0 {
        s.append(".");
        s.append(ext);
        proof {
            reveal_strlit(".");
            assert("."@ =~= seq!['.']);
            assert(s@ =~= candidate_spec(stem@, ext@, k as nat));
        }
    } else {
        proof {
            assert(s@ =~= candidate_spec(stem@, ext@, k as nat));
        }
    }
    s
}

/// What name resolution decided for one source.
pub enum Resolved {
    /// Write to this name; nothing of that name exists yet.
    Fresh(String),
    /// Write to this name, replacing what exists there.
    Overwrite(String),
    /// Leave the source out: its destination already exists.
    Skipped,
}

/// Resolves a requested destination name against the names already present,
/// under the collision policy.
///
/// A `Fresh` result never names an existing entry, whatever the policy: an
/// existing destination is only ever written under `Replace`, and then as
/// `Overwrite`. Under `Replace` the resolved name always equals the
/// requested one, even when it already exists.
pub fn resolve(existing: &Vec<String>, requested: &str, policy: OnDuplicated) -> (r: Resolved)
    requires
        existing@.len() <= usize::MAX - 3,
    ensures
        match r {
            Resolved::Fresh(n) => resolve_spec(views_of(existing@), requested@, policy)
                == Option::Some((n@, false)) && !views_of(existing@).contains(n@),
            Resolved::Overwrite(n) => resolve_spec(views_of(existing@), requested@, policy)
                == Option::Some((n@, true)) && n@ == requested@ && policy == OnDuplicated::Replace,
            Resolved::Skipped => resolve_spec(views_of(existing@), requested@, policy) is None
                && policy == OnDuplicated::Skip,
        },
        policy == OnDuplicated::Replace ==> !(r is Skipped),
{
    let ghost names = views_of(existing@);
    if !contains_str(existing, requested) {
        return Resolved::Fresh(requested.to_owned());
    }
    match policy {
        OnDuplicated::Skip => Resolved::Skipped,
        OnDuplicated::Replace => Resolved::Overwrite(requested.to_owned()),
        OnDuplicated::Rename => {
            let (stem, ext) = split_name(requested);
            proof {
                lemma_free_in_range(names, stem@, ext@, 2);
            }
            let ghost fk = choose|k: nat|
                2 <= k <= 2 + names.len() && !names.contains(candidate_spec(stem@, ext@, k));
            let mut k: usize = 2;
            let mut cand = rename_candidate(stem.as_str(), ext.as_str(), k);
            while contains_str(existing, cand.as_str())
                invariant
                    2 <= k,
                    k <= fk,
                    fk <= 2 + names.len(),
                    names.len() <= usize::MAX - 3,
                    names == views_of(existing@),
                    !names.contains(candidate_spec(stem@, ext@, fk)),
                    cand@ == candidate_spec(stem@, ext@, k as nat),
                    forall|j: nat| 2 <= j < k ==> names.contains(candidate_spec(stem@, ext@, j)),
                decreases fk - k,
            {
                proof {
                    assert(k as nat != fk);
                }
                k = k + 1;
                cand = rename_candidate(stem.as_str(), ext.as_str(), k);
            }
            proof {
                assert(is_first_free(names, stem@, ext@, k as nat));
                lemma_first_free_unique(
                    names,
                    stem@,
                    ext@,
                    k as nat,
                    first_free(names, stem@, ext@),
                );
                assert(cand@ == rename_of(names, requested@));
            }
            Resolved::Fresh(cand)
        },
    }
}

} // verus!
