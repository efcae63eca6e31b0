//! Download planning: de-duplicating the source list, deriving destination
//! names, resolving collisions under the configured policy, assigning
//! transfer tokens, and collecting the paths of completed transfers.
//!
//! The network transfers themselves are outside work: a surrounding program
//! registers each planned transfer with its transfer engine, drives the
//! engine until no transfer remains active, and hands the per-token outcomes
//! back to [`collect_completions`].

use vstd::prelude::*;

verus! {

use crate::chars::views_of;
use crate::paths::{dedup_spec, dedup_sources, file_name_of, lemma_dedup_len, lemma_with_names_len,
    with_names};
use crate::resolve::{lemma_resolve_fresh, resolve, resolve_spec, Resolved};

/// What to do when a destination name is already taken.
#[derive(Debug, PartialEq, Eq, Structural, Clone, Copy)]
pub enum OnDuplicated {
    Rename,
    Replace,
    Skip,
}

/// Default bound on concurrently active transfers.
pub const DEFAULT_PARALLEL: usize = 3;

/// Configuration of one download batch: the collision policy and the bound
/// on concurrently active transfers.
#[derive(Debug, PartialEq, Eq, Structural, Clone, Copy)]
pub struct Downloader {
    pub on_duplicated: OnDuplicated,
    pub parallel: usize,
}

impl Downloader {
    /// A downloader that skips colliding destinations and runs at most
    /// [`DEFAULT_PARALLEL`] transfers at once.
    pub fn new() -> (r: Self)
        ensures
            r.on_duplicated == OnDuplicated::Skip,
            r.parallel == DEFAULT_PARALLEL,
    {
        Downloader { on_duplicated: OnDuplicated::Skip, parallel: DEFAULT_PARALLEL }
    }

    /// Sets the collision policy.
    pub fn on_duplicated(self, action: OnDuplicated) -> (r: Self)
        ensures
            r.on_duplicated == action,
            r.parallel == self.parallel,
    {
        Downloader { on_duplicated: action, ..self }
    }

    /// Sets the bound on concurrently active transfers.
    pub fn parallel(self, n: usize) -> (r: Self)
        ensures
            r.on_duplicated == self.on_duplicated,
            r.parallel == n,
    {
        Downloader { parallel: n, ..self }
    }

    /// Plans a batch under this downloader's collision policy.
    pub fn plan(&self, sources: &Vec<String>, existing: &Vec<String>) -> (r: Vec<PlannedTransfer>)
        requires
            existing@.len() + sources@.len() <= usize::MAX - 3,
        ensures
            plan_view(r@) == download_plan_spec(
                views_of(sources@),
                views_of(existing@),
                self.on_duplicated,
            ),
    {
        plan_downloads(sources, existing, self.on_duplicated)
    }
}

/// One accepted source: its URL, the resolved destination name, and the
/// token under which its transfer is registered.
pub struct PlannedTransfer {
    pub url: String,
    pub name: String,
    pub token: usize,
}

/// The character-level contents of a plan.
pub open spec fn plan_view(v: Seq<PlannedTransfer>) -> Seq<(Seq<char>, Seq<char>, int)> {
    v.map_values(|t: PlannedTransfer| (t.url@, t.name@, t.token as int))
}

/// The plan for the named sources from index `i` on, given the names
/// already taken. Tokens are indices into the named list, so a source
/// skipped by policy still consumes its token. Each accepted name is taken
/// from then on.
pub open spec fn plan_from(
    named: Seq<(Seq<char>, Seq<char>)>,
    i: int,
    names: Seq<Seq<char>>,
    policy: OnDuplicated,
) -> Seq<(Seq<char>, Seq<char>, int)>
    decreases named.len() - i,
{
    if i < 0 || i >= named.len() {
        Seq::empty()
    } else {
        match resolve_spec(names, named[i].1, policy) {
            Option::None => plan_from(named, i + 1, names, policy),
            Option::Some(rn) => seq![(named[i].0, rn.0, i)] + plan_from(
                named,
                i + 1,
                names.push(rn.0),
                policy,
            ),
        }
    }
}

/// The full plan for a source list: de-duplicate, derive file names, then
/// resolve each name in turn against the evolving set of taken names.
pub open spec fn download_plan_spec(
    sources: Seq<Seq<char>>,
    names: Seq<Seq<char>>,
    policy: OnDuplicated,
) -> Seq<(Seq<char>, Seq<char>, int)> {
    plan_from(with_names(dedup_spec(sources)), 0, names, policy)
}

/// Plans a download batch: de-duplicates `sources` keeping first
/// occurrences, derives a destination name from each source's last path
/// segment (sources without one are dropped), resolves collisions against
/// `existing` and the names accepted earlier in the batch, and assigns each
/// accepted source a unique token.
pub fn plan_downloads(
    sources: &Vec<String>,
    existing: &Vec<String>,
    policy: OnDuplicated,
) -> (r: Vec<PlannedTransfer>)
    requires
        existing@.len() + sources@.len() <= usize::MAX - 3,
    ensures
        plan_view(r@) == download_plan_spec(views_of(sources@), views_of(existing@), policy),
{
    let dd = dedup_sources(sources);
    let ghost dv = views_of(dd@);
    let ghost named = with_names(dv);
    let ghost base = views_of(existing@);
    proof {
        lemma_dedup_len(views_of(sources@));
        lemma_with_names_len(dv);
    }
    let mut work: Vec<String> = Vec::new();
    let mut j: usize = 0;
    while j < existing.len()
        invariant
            j <= existing@.len(),
            views_of(work@) == base.subrange(0, j as int),
            base == views_of(existing@),
        decreases existing@.len() - j,
    {
        let ghost w0 = work@;
        work.push(existing[j].clone());
        proof {
            crate::chars::lemma_views_push(w0, work@.last());
            assert(work@.last()@ == base[j as int]);
            assert(views_of(work@) =~= base.subrange(0, j + 1));
        }
        j = j + 1;
    }
    proof {
        assert(views_of(work@) =~= base);
    }
    let mut res: Vec<PlannedTransfer> = Vec::new();
    let mut t: usize = 0;
    let mut s: usize = 0;
    proof {
        assert(dv.subrange(0, dv.len() as int) =~= dv);
        assert(named.subrange(0, named.len() as int) =~= named);
        assert(plan_view(res@) =~= Seq::<(Seq<char>, Seq<char>, int)>::empty());
        assert(plan_view(res@) + plan_from(named, 0, base, policy) =~= plan_from(
            named,
            0,
            base,
            policy,
        ));
    }
    while s < dd.len()
        invariant
            s <= dd@.len(),
            t <= named.len(),
            dv == views_of(dd@),
            named == with_names(dv),
            named.len() <= dv.len() <= sources@.len(),
            base == views_of(existing@),
            base.len() + sources@.len() <= usize::MAX - 3,
            views_of(work@).len() <= base.len() + t,
            with_names(dv.subrange(s as int, dv.len() as int)) == named.subrange(
                t as int,
                named.len() as int,
            ),
            plan_from(named, 0, base, policy) == plan_view(res@) + plan_from(
                named,
                t as int,
                views_of(work@),
                policy,
            ),
        decreases dd@.len() - s,
    {
        let ghost suffix = dv.subrange(s as int, dv.len() as int);
        proof {
            assert(suffix.first() == dv[s as int]);
            assert(suffix.drop_first() =~= dv.subrange(s + 1, dv.len() as int));
        }
        match file_name_of(dd[s].as_str()) {
            Option::None => {
                proof {
                    assert(with_names(suffix) == with_names(suffix.drop_first()));
                }
            },
            Option::Some(name) => {
                proof {
                    assert(with_names(suffix) == seq![(dv[s as int], name@)] + with_names(
                        suffix.drop_first(),
                    ));
                    assert(named.subrange(t as int, named.len() as int)[0] == named[t as int]);
                    assert(named[t as int] == (dv[s as int], name@));
                    assert(named.subrange(t as int, named.len() as int).drop_first()
                        =~= named.subrange(t + 1, named.len() as int));
                    assert((seq![(dv[s as int], name@)] + with_names(
                        suffix.drop_first(),
                    )).drop_first() =~= with_names(suffix.drop_first()));
                }
                let ghost w0 = views_of(work@);
                let picked: Option<String> = match resolve(&work, name.as_str(), policy) {
                    Resolved::Skipped => Option::None,
                    Resolved::Fresh(n) => Option::Some(n),
                    Resolved::Overwrite(n) => Option::Some(n),
                };
                match picked {
                    Option::None => {
                        proof {
                            assert(plan_from(named, t as int, w0, policy) == plan_from(
                                named,
                                t + 1,
                                w0,
                                policy,
                            ));
                        }
                    },
                    Option::Some(n) => {
                        proof {
                            assert(resolve_spec(w0, name@, policy) is Some);
                            assert(resolve_spec(w0, name@, policy)->Some_0.0 == n@);
                            assert(plan_from(named, t as int, w0, policy) == seq![
                                (dv[s as int], n@, t as int),
                            ] + plan_from(named, t + 1, w0.push(n@), policy));
                        }
                        let entry = PlannedTransfer { url: dd[s].clone(), name: n.clone(), token: t };
                        res.push(entry);
                        work.push(n);
                        proof {
                            crate::chars::lemma_views_push(work@.drop_last(), work@.last());
                            assert(work@.drop_last().push(work@.last()) =~= work@);
                            assert(work@.last()@ == n@);
                            assert(views_of(work@) == w0.push(n@));
                            assert(plan_view(res@) =~= plan_view(res@.drop_last()).push(
                                (dv[s as int], n@, t as int),
                            ));
                            assert(plan_view(res@.drop_last()) + (seq![
                                (dv[s as int], n@, t as int),
                            ] + plan_from(named, t + 1, w0.push(n@), policy)) =~= plan_view(res@)
                                + plan_from(named, t + 1, w0.push(n@), policy));
                        }
                    },
                }
                t = t + 1;
            },
        }
        s = s + 1;
    }
    proof {
        assert(dv.subrange(s as int, dv.len() as int) =~= Seq::<Seq<char>>::empty());
        assert(with_names(Seq::<Seq<char>>::empty()) =~= Seq::<(Seq<char>, Seq<char>)>::empty());
        assert(t == named.len());
        assert(plan_from(named, t as int, views_of(work@), policy) =~= Seq::<
            (Seq<char>, Seq<char>, int),
        >::empty());
        assert(plan_view(res@) + Seq::<(Seq<char>, Seq<char>, int)>::empty() =~= plan_view(res@));
    }
    res
}

/// The integer-level contents of a list of per-token outcomes.
pub open spec fn outs_view(v: Seq<(usize, bool)>) -> Seq<(int, bool)> {
    v.map_values(|o: (usize, bool)| (o.0 as int, o.1))
}

/// The plan entry registered under a token.
pub open spec fn token_entry(plan: Seq<(Seq<char>, Seq<char>, int)>, tok: int) -> (
    Seq<char>,
    Seq<char>,
    int,
) {
    plan[choose|a: int| 0 <= a < plan.len() && plan[a].2 == tok]
}

/// The destination names of the successful outcomes, in completion order:
/// each successful token contributes the name of its plan entry, each
/// failed one is dropped.
pub open spec fn completed_spec(
    plan: Seq<(Seq<char>, Seq<char>, int)>,
    outcomes: Seq<(int, bool)>,
) -> Seq<Seq<char>>
    decreases outcomes.len(),
{
    if outcomes.len() == 0 {
        Seq::empty()
    } else {
        let rest = completed_spec(plan, outcomes.drop_first());
        if outcomes.first().1 {
            seq![token_entry(plan, outcomes.first().0).1] + rest
        } else {
            rest
        }
    }
}

/// Collects the destination names of the transfers that completed
/// successfully, in the order their completions were observed. A failed
/// transfer is dropped from the result and aborts nothing else.
pub fn collect_completions(plan: &Vec<PlannedTransfer>, outcomes: &Vec<(usize, bool)>) -> (r: Vec<
    String,
>)
    requires
        forall|o: int|
            0 <= o < outcomes@.len() ==> exists|m: int|
                0 <= m < plan@.len() && (#[trigger] plan@[m].token) == (#[trigger] outcomes@[o]).0,
        forall|a: int, b: int| 0 <= a < b < plan@.len() ==> plan@[a].token != plan@[b].token,
    ensures
        views_of(r@) == completed_spec(plan_view(plan@), outs_view(outcomes@)),
{
    let ghost pv = plan_view(plan@);
    let ghost ov = outs_view(outcomes@);
    let mut res: Vec<String> = Vec::new();
    let mut o: usize = 0;
    proof {
        assert(ov.subrange(0, ov.len() as int) =~= ov);
        assert(views_of(res@) =~= Seq::<Seq<char>>::empty());
        assert(views_of(res@) + completed_spec(pv, ov) =~= completed_spec(pv, ov));
    }
    while o < outcomes.len()
        invariant
            o <= outcomes@.len(),
            pv == plan_view(plan@),
            ov == outs_view(outcomes@),
            forall|oo: int|
                0 <= oo < outcomes@.len() ==> exists|m: int|
                    0 <= m < plan@.len() && (#[trigger] plan@[m].token) == (#[trigger] outcomes@[oo]).0,
            forall|a: int, b: int| 0 <= a < b < plan@.len() ==> plan@[a].token != plan@[b].token,
            completed_spec(pv, ov) == views_of(res@) + completed_spec(
                pv,
                ov.subrange(o as int, ov.len() as int),
            ),
        decreases outcomes@.len() - o,
    {
        let ghost suffix = ov.subrange(o as int, ov.len() as int);
        proof {
            assert(suffix.first() == ov[o as int]);
            assert(suffix.drop_first() =~= ov.subrange(o + 1, ov.len() as int));
            assert(ov[o as int] == (outcomes@[o as int].0 as int, outcomes@[o as int].1));
        }
        let (tok, ok) = outcomes[o];
        if ok {
            let mut a: usize = 0;
            while a < plan.len() && plan[a].token != tok
                invariant
                    a <= plan@.len(),
                    forall|m: int| 0 <= m < a ==> plan@[m].token != tok,
                decreases plan@.len() - a,
            {
                a = a + 1;
            }
            proof {
                assert(exists|m: int|
                    0 <= m < plan@.len() && plan@[m].token == outcomes@[o as int].0);
                if a == plan@.len() {
                    let w = choose|m: int|
                        0 <= m < plan@.len() && plan@[m].token == outcomes@[o as int].0;
                    assert(plan@[w].token != tok);
                    assert(false);
                }
            }
            let ghost c = choose|m: int| 0 <= m < pv.len() && pv[m].2 == tok as int;
            proof {
                assert(pv[a as int] == (
                    plan@[a as int].url@,
                    plan@[a as int].name@,
                    plan@[a as int].token as int,
                ));
                assert(pv[a as int].2 == tok as int);
                assert(0 <= c < pv.len() && pv[c].2 == tok as int);
                assert(pv[c] == (plan@[c].url@, plan@[c].name@, plan@[c].token as int));
                if c != a as int {
                    assert(plan@[c].token == plan@[a as int].token);
                    assert(false);
                }
                assert(token_entry(pv, tok as int) == pv[a as int]);
            }
            let ghost r0 = res@;
            res.push(plan[a].name.clone());
            proof {
                crate::chars::lemma_views_push(r0, res@.last());
                assert(res@.last()@ == plan@[a as int].name@);
                assert(completed_spec(pv, suffix) == seq![token_entry(pv, ov[o as int].0).1]
                    + completed_spec(pv, suffix.drop_first()));
                assert(views_of(r0) + (seq![token_entry(pv, ov[o as int].0).1] + completed_spec(
                    pv,
                    suffix.drop_first(),
                )) =~= views_of(res@) + completed_spec(pv, suffix.drop_first()));
            }
        } else {
            proof {
                assert(completed_spec(pv, suffix) == completed_spec(pv, suffix.drop_first()));
            }
        }
        o = o + 1;
    }
    proof {
        assert(ov.subrange(o as int, ov.len() as int) =~= Seq::<(int, bool)>::empty());
        assert(completed_spec(pv, Seq::<(int, bool)>::empty()) =~= Seq::<Seq<char>>::empty());
        assert(views_of(res@) + Seq::<Seq<char>>::empty() =~= views_of(res@));
    }
    res
}

/// Tokens in a plan are strictly increasing in plan order, so no two
/// planned transfers share a token.
pub proof fn lemma_plan_tokens_increasing(
    named: Seq<(Seq<char>, Seq<char>)>,
    i: int,
    names: Seq<Seq<char>>,
    policy: OnDuplicated,
)
    ensures
        forall|a: int|
            0 <= a < plan_from(named, i, names, policy).len() ==> plan_from(
                named,
                i,
                names,
                policy,
            )[a].2 >= i,
        forall|a: int, b: int|
            0 <= a < b < plan_from(named, i, names, policy).len() ==> plan_from(
                named,
                i,
                names,
                policy,
            )[a].2 < plan_from(named, i, names, policy)[b].2,
    decreases named.len() - i,
{
    if 0 <= i < named.len() {
        match resolve_spec(names, named[i].1, policy) {
            Option::None => {
                lemma_plan_tokens_increasing(named, i + 1, names, policy);
                assert(plan_from(named, i, names, policy) == plan_from(
                    named,
                    i + 1,
                    names,
                    policy,
                ));
            },
            Option::Some(rn) => {
                lemma_plan_tokens_increasing(named, i + 1, names.push(rn.0), policy);
                let tail = plan_from(named, i + 1, names.push(rn.0), policy);
                let whole = plan_from(named, i, names, policy);
                assert(whole == seq![(named[i].0, rn.0, i)] + tail);
                assert forall|a: int| 0 <= a < whole.len() implies whole[a].2 >= i by {
                    if a >= 1 {
                        assert(whole[a] == tail[a - 1]);
                    }
                }
                assert forall|a: int, b: int| 0 <= a < b < whole.len() implies whole[a].2
                    < whole[b].2 by {
                    assert(whole[b] == tail[b - 1]);
                    if a >= 1 {
                        assert(whole[a] == tail[a - 1]);
                    }
                }
            },
        }
    }
}

/// Under a policy other than `Replace`, no planned transfer is named after
/// an already existing entry, and no two planned transfers share a
/// destination name: an existing destination is never opened for writing,
/// and no two transfers write to the same resolved path.
pub proof fn lemma_plan_names_fresh(
    named: Seq<(Seq<char>, Seq<char>)>,
    i: int,
    names: Seq<Seq<char>>,
    policy: OnDuplicated,
)
    requires
        policy != OnDuplicated::Replace,
    ensures
        forall|a: int|
            0 <= a < plan_from(named, i, names, policy).len() ==> !names.contains(
                plan_from(named, i, names, policy)[a].1,
            ),
        forall|a: int, b: int|
            0 <= a < b < plan_from(named, i, names, policy).len() ==> plan_from(
                named,
                i,
                names,
                policy,
            )[a].1 != plan_from(named, i, names, policy)[b].1,
    decreases named.len() - i,
{
    if 0 <= i < named.len() {
        match resolve_spec(names, named[i].1, policy) {
            Option::None => {
                lemma_plan_names_fresh(named, i + 1, names, policy);
                assert(plan_from(named, i, names, policy) == plan_from(
                    named,
                    i + 1,
                    names,
                    policy,
                ));
            },
            Option::Some(rn) => {
                lemma_resolve_fresh(names, named[i].1, policy);
                lemma_plan_names_fresh(named, i + 1, names.push(rn.0), policy);
                let pushed = names.push(rn.0);
                let tail = plan_from(named, i + 1, pushed, policy);
                let whole = plan_from(named, i, names, policy);
                assert(whole == seq![(named[i].0, rn.0, i)] + tail);
                assert(pushed[names.len() as int] == rn.0);
                assert(pushed.contains(rn.0));
                assert forall|x: Seq<char>| names.contains(x) implies pushed.contains(x) by {
                    let w = choose|w: int| 0 <= w < names.len() && names[w] == x;
                    assert(pushed[w] == x);
                }
                assert forall|a: int| 0 <= a < whole.len() implies !names.contains(
                    whole[a].1,
                ) by {
                    if a >= 1 {
                        assert(whole[a] == tail[a - 1]);
                        assert(!pushed.contains(tail[a - 1].1));
                    }
                }
                assert forall|a: int, b: int| 0 <= a < b < whole.len() implies whole[a].1
                    != whole[b].1 by {
                    assert(whole[b] == tail[b - 1]);
                    assert(!pushed.contains(tail[b - 1].1));
                    if a >= 1 {
                        assert(whole[a] == tail[a - 1]);
                    }
                }
            },
        }
    }
}

/// In a full download plan no two transfers share a token, and under a
/// policy other than `Replace` no transfer is named after an existing
/// destination nor after another transfer's destination: no existing entry
/// is opened for writing, and no two transfers write to the same path.
pub proof fn lemma_download_plan_sound(
    sources: Seq<Seq<char>>,
    names: Seq<Seq<char>>,
    policy: OnDuplicated,
)
    ensures
        forall|a: int, b: int|
            0 <= a < b < download_plan_spec(sources, names, policy).len() ==> download_plan_spec(
                sources,
                names,
                policy,
            )[a].2 < download_plan_spec(sources, names, policy)[b].2,
        policy != OnDuplicated::Replace ==> forall|a: int|
            0 <= a < download_plan_spec(sources, names, policy).len() ==> !names.contains(
                download_plan_spec(sources, names, policy)[a].1,
            ),
        policy != OnDuplicated::Replace ==> forall|a: int, b: int|
            0 <= a < b < download_plan_spec(sources, names, policy).len() ==> download_plan_spec(
                sources,
                names,
                policy,
            )[a].1 != download_plan_spec(sources, names, policy)[b].1,
{
    let named = with_names(dedup_spec(sources));
    lemma_plan_tokens_increasing(named, 0, names, policy);
    if policy != OnDuplicated::Replace {
        lemma_plan_names_fresh(named, 0, names, policy);
    }
}

} // verus!
