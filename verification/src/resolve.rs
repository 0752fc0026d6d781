//! Which packages an installation fetches.
//!
//! Each repository's index says what every package is based on. The
//! packages asked for come first in the fetch list, then their direct
//! dependencies; before that, every direct dependency is checked against
//! the package index together with the packages it in turn is based on,
//! and those sub-dependencies are queued as they are first met.
use vstd::prelude::*;

use crate::strmap::{distinct_keys, has_key, key_index, lemma_key_index, lookup, EntryView, StrMap};
use crate::removal::contains_name;
use crate::types::{views, PkgInfo, PkgInfoView};

verus! {

/// A package index as the contracts see it.
pub type IndexView = Seq<EntryView<PkgInfoView>>;

/// A repository's dependency table as the contracts see it.
pub type DepsView = Seq<EntryView<Seq<Seq<char>>>>;

/// The value that the last of `ms` that has key `k` stores under it: what a
/// map built by extending an empty map with each of `ms` in turn holds.
pub open spec fn lookup_last<W>(ms: Seq<Seq<EntryView<W>>>, k: Seq<char>) -> Option<W>
    decreases ms.len(),
{
    if ms.len() == 0 {
        None
    } else {
        match lookup(ms.last(), k) {
            Some(w) => Some(w),
            None => lookup_last(ms.drop_last(), k),
        }
    }
}

/// Everything that the tables in `bt` say `d` is based on, table by table.
pub open spec fn deps_in_all(bt: Seq<DepsView>, d: Seq<char>) -> Seq<Seq<char>>
    decreases bt.len(),
{
    if bt.len() == 0 {
        Seq::empty()
    } else {
        deps_in_all(bt.drop_last(), d) + match lookup(bt.last(), d) {
            Some(v) => v,
            None => Seq::empty(),
        }
    }
}

/// The packages of `ps` that some table lists, in order.
pub open spec fn needing(bt: Seq<DepsView>, ps: Seq<Seq<char>>) -> Seq<Seq<char>>
    decreases ps.len(),
{
    if ps.len() == 0 {
        Seq::empty()
    } else {
        let r = needing(bt, ps.drop_last());
        if lookup_last(bt, ps.last()) is Some {
            r.push(ps.last())
        } else {
            r
        }
    }
}

/// The direct dependencies of the packages `ps`, package by package, as
/// the last table that lists each package gives them.
pub open spec fn direct_deps(bt: Seq<DepsView>, ps: Seq<Seq<char>>) -> Seq<Seq<char>>
    decreases ps.len(),
{
    if ps.len() == 0 {
        Seq::empty()
    } else {
        direct_deps(bt, ps.drop_last()) + match lookup_last(bt, ps.last()) {
            Some(v) => v,
            None => Seq::empty(),
        }
    }
}

/// `s` with each element kept only where it first occurs.
pub open spec fn dedup(s: Seq<Seq<char>>) -> Seq<Seq<char>>
    decreases s.len(),
{
    if s.len() == 0 {
        Seq::empty()
    } else {
        let r = dedup(s.drop_last());
        if r.contains(s.last()) {
            r
        } else {
            r.push(s.last())
        }
    }
}

/// Why the dependencies of an installation do not resolve.
pub enum DepErrorView {
    /// A direct dependency is in no package index.
    Missing(Seq<char>),
    /// A dependency of a direct dependency is in no package index; the
    /// last package queued so far, if any, is given too.
    MissingSub(Seq<char>, Seq<char>, Option<Seq<char>>),
}

/// The state of the check: the packages checked so far and the fetch list.
pub type CheckState = (Seq<Seq<char>>, Seq<Seq<char>>);

/// Checks one sub-dependency `s` of `dep`.
pub open spec fn sub_step(index: IndexView, dep: Seq<char>, s: Seq<char>, st: CheckState) -> Result<
    CheckState,
    DepErrorView,
> {
    if !has_key(index, s) {
        Err(
            DepErrorView::MissingSub(
                dep,
                s,
                if st.1.len() > 0 {
                    Some(st.1.last())
                } else {
                    None
                },
            ),
        )
    } else if st.0.contains(s) {
        Ok(st)
    } else {
        Ok((st.0.push(s), st.1.push(s)))
    }
}

/// Checks the sub-dependencies `subs` of `dep` in order, stopping at the
/// first error.
pub open spec fn sub_steps(index: IndexView, dep: Seq<char>, subs: Seq<Seq<char>>, st: CheckState) -> Result<
    CheckState,
    DepErrorView,
>
    decreases subs.len(),
{
    if subs.len() == 0 {
        Ok(st)
    } else {
        match sub_step(index, dep, subs[0], st) {
            Err(e) => Err(e),
            Ok(st1) => sub_steps(index, dep, subs.drop_first(), st1),
        }
    }
}

/// Checks one direct dependency `d`: it must be in the index, and unless
/// it was checked before, its own dependencies are checked.
pub open spec fn dep_step(index: IndexView, bt: Seq<DepsView>, d: Seq<char>, st: CheckState) -> Result<
    CheckState,
    DepErrorView,
> {
    if !has_key(index, d) {
        Err(DepErrorView::Missing(d))
    } else if st.0.contains(d) {
        Ok(st)
    } else {
        sub_steps(index, d, deps_in_all(bt, d), (st.0.push(d), st.1))
    }
}

/// Checks the direct dependencies `ds` in order, stopping at the first
/// error.
pub open spec fn dep_steps(index: IndexView, bt: Seq<DepsView>, ds: Seq<Seq<char>>, st: CheckState) -> Result<
    CheckState,
    DepErrorView,
>
    decreases ds.len(),
{
    if ds.len() == 0 {
        Ok(st)
    } else {
        match dep_step(index, bt, ds[0], st) {
            Err(e) => Err(e),
            Ok(st1) => dep_steps(index, bt, ds.drop_first(), st1),
        }
    }
}

/// The fetch list after resolving the dependencies of `ps`, starting from
/// the list `fetch0`: the sub-dependencies queued by the check, then the
/// requested packages and their direct dependencies, each once.
pub open spec fn resolve(index: IndexView, bt: Seq<DepsView>, ps: Seq<Seq<char>>, fetch0: Seq<Seq<char>>) -> Result<
    Seq<Seq<char>>,
    DepErrorView,
> {
    let ds = direct_deps(bt, needing(bt, ps));
    match dep_steps(index, bt, ds, (Seq::empty(), fetch0)) {
        Err(e) => Err(e),
        Ok(st) => Ok(st.1 + dedup(ps + ds)),
    }
}

// ---------------------------------------------------------------------
// Laws
// ---------------------------------------------------------------------

/// `dedup` keeps exactly the elements of its argument.
pub proof fn lemma_dedup(s: Seq<Seq<char>>)
    ensures
        forall|x: Seq<char>| #[trigger] dedup(s).contains(x) <==> s.contains(x),
    decreases s.len(),
{
    if s.len() > 0 {
        let d = s.drop_last();
        let r = dedup(d);
        lemma_dedup(d);
        assert forall|x: Seq<char>| #[trigger] dedup(s).contains(x) <==> s.contains(x) by {
            if s.contains(x) {
                let i = choose|i: int| 0 <= i < s.len() && s[i] == x;
                if i < d.len() {
                    assert(d[i] == x);
                }
            }
            if d.contains(x) {
                let i = choose|i: int| 0 <= i < d.len() && d[i] == x;
                assert(s[i] == x);
            }
            if x == s.last() {
                assert(s[s.len() - 1] == x);
            }
            if !r.contains(s.last()) {
                let rp = r.push(s.last());
                if rp.contains(x) {
                    let i = choose|i: int| 0 <= i < rp.len() && rp[i] == x;
                    if i < r.len() {
                        assert(r[i] == x);
                    }
                }
                if r.contains(x) {
                    let i = choose|i: int| 0 <= i < r.len() && r[i] == x;
                    assert(rp[i] == x);
                }
                if x == s.last() {
                    assert(rp[r.len() as int] == x);
                }
            }
        }
    }
}

/// All elements of `s` are in the index.
pub open spec fn all_indexed(index: IndexView, s: Seq<Seq<char>>) -> bool {
    forall|i: int| 0 <= i < s.len() ==> has_key(index, #[trigger] s[i])
}

proof fn lemma_sub_steps_indexed(index: IndexView, dep: Seq<char>, subs: Seq<Seq<char>>, st: CheckState)
    requires
        all_indexed(index, st.1),
    ensures
        sub_steps(index, dep, subs, st) matches Ok(r) ==> all_indexed(index, r.1),
    decreases subs.len(),
{
    if subs.len() > 0 {
        match sub_step(index, dep, subs[0], st) {
            Err(e) => {},
            Ok(st1) => {
                assert(all_indexed(index, st1.1));
                lemma_sub_steps_indexed(index, dep, subs.drop_first(), st1);
            },
        }
    }
}

proof fn lemma_dep_steps_indexed(index: IndexView, bt: Seq<DepsView>, ds: Seq<Seq<char>>, st: CheckState)
    requires
        all_indexed(index, st.1),
    ensures
        dep_steps(index, bt, ds, st) matches Ok(r) ==> all_indexed(index, r.1) && all_indexed(
            index,
            ds,
        ),
    decreases ds.len(),
{
    if ds.len() > 0 {
        match dep_step(index, bt, ds[0], st) {
            Err(e) => {},
            Ok(st1) => {
                assert(has_key(index, ds[0]));
                if !st.0.contains(ds[0]) {
                    lemma_sub_steps_indexed(index, ds[0], deps_in_all(bt, ds[0]), (st.0.push(ds[0]), st.1));
                }
                lemma_dep_steps_indexed(index, bt, ds.drop_first(), st1);
                if dep_steps(index, bt, ds, st) is Ok {
                    assert forall|i: int| 0 <= i < ds.len() implies has_key(index, #[trigger] ds[i]) by {
                        if i > 0 {
                            assert(ds.drop_first()[i - 1] == ds[i]);
                        }
                    }
                }
            },
        }
    }
}

/// An installation fetches only packages that a repository offers, and it
/// fetches every package asked for and every direct dependency of one:
/// when the packages asked for and those already queued are all in the
/// index and the dependencies resolve, every package in the fetch list is
/// in the index, and the list holds each requested package and each
/// direct dependency of a requested package.
pub proof fn law_fetch_list_is_sound(index: IndexView, bt: Seq<DepsView>, ps: Seq<Seq<char>>, fetch0: Seq<Seq<char>>)
    requires
        all_indexed(index, ps),
        all_indexed(index, fetch0),
        resolve(index, bt, ps, fetch0) is Ok,
    ensures
        ({
            let f = resolve(index, bt, ps, fetch0)->Ok_0;
            let ds = direct_deps(bt, needing(bt, ps));
            &&& all_indexed(index, f)
            &&& forall|p: Seq<char>| #[trigger] ps.contains(p) ==> f.contains(p)
            &&& forall|d: Seq<char>| #[trigger] ds.contains(d) ==> f.contains(d)
        }),
{
    let ds = direct_deps(bt, needing(bt, ps));
    let st0: CheckState = (Seq::empty(), fetch0);
    lemma_dep_steps_indexed(index, bt, ds, st0);
    let st = dep_steps(index, bt, ds, st0)->Ok_0;
    let tail = dedup(ps + ds);
    lemma_dedup(ps + ds);
    let f = st.1 + tail;
    assert forall|i: int| 0 <= i < f.len() implies has_key(index, #[trigger] f[i]) by {
        if i >= st.1.len() {
            let x = f[i];
            assert(tail[i - st.1.len()] == x);
            assert(tail.contains(x));
            assert((ps + ds).contains(x));
            let k = choose|k: int| 0 <= k < (ps + ds).len() && (ps + ds)[k] == x;
            if k < ps.len() {
                assert(ps[k] == x);
            } else {
                assert(ds[k - ps.len()] == x);
            }
        }
    }
    assert forall|p: Seq<char>| #[trigger] ps.contains(p) implies f.contains(p) by {
        let k = choose|k: int| 0 <= k < ps.len() && ps[k] == p;
        assert((ps + ds)[k] == p);
        assert(tail.contains(p));
        let j = choose|j: int| 0 <= j < tail.len() && tail[j] == p;
        assert(f[st.1.len() + j] == p);
    }
    assert forall|d: Seq<char>| #[trigger] ds.contains(d) implies f.contains(d) by {
        let k = choose|k: int| 0 <= k < ds.len() && ds[k] == d;
        assert((ps + ds)[ps.len() + k] == d);
        assert(tail.contains(d));
        let j = choose|j: int| 0 <= j < tail.len() && tail[j] == d;
        assert(f[st.1.len() + j] == d);
    }
}

// ---------------------------------------------------------------------
// Executable resolution
// ---------------------------------------------------------------------

/// Why the dependencies of an installation do not resolve.
pub enum DepError {
    /// A direct dependency is in no package index.
    MissingDependency { dep: String },
    /// A dependency of a direct dependency is in no package index; the
    /// last package queued so far, if any, is given too.
    MissingSubDependency { dep: String, sub_dep: String, last_queued: Option<String> },
}

/// What a `DepError` stands for.
pub open spec fn dep_error_view(e: DepError) -> DepErrorView {
    match e {
        DepError::MissingDependency { dep } => DepErrorView::Missing(dep@),
        DepError::MissingSubDependency { dep, sub_dep, last_queued } => DepErrorView::MissingSub(
            dep@,
            sub_dep@,
            match last_queued {
                Some(l) => Some(l@),
                None => None,
            },
        ),
    }
}

/// The dependency tables of a list of repositories.
pub open spec fn tables(bt: Seq<StrMap<Vec<String>>>) -> Seq<DepsView> {
    bt.map_values(|m: StrMap<Vec<String>>| m@)
}

/// What the last table of `bt` that lists `k` says of it.
pub fn lookup_in_tables<'a>(bt: &'a Vec<StrMap<Vec<String>>>, k: &str) -> (r: Option<&'a Vec<String>>)
    ensures
        match lookup_last(tables(bt@), k@) {
            Some(w) => r matches Some(v) && views(v@) == w,
            None => r is None,
        },
{
    let ghost t = tables(bt@);
    assert(t.take(bt.len() as int) =~= t);
    let mut i: usize = bt.len();
    while i > 0
        invariant
            i <= bt.len(),
            t == tables(bt@),
            lookup_last(t, k@) == lookup_last(t.take(i as int), k@),
        decreases i,
    {
        assert(t.take(i as int).drop_last() =~= t.take(i - 1));
        assert(t.take(i as int).last() == bt@[i - 1]@);
        match bt[i - 1].get(k) {
            Some(v) => {
                return Some(v);
            },
            None => {},
        }
        i = i - 1;
    }
    assert(t.take(0) =~= Seq::<DepsView>::empty());
    None
}

/// Everything the tables in `bt` say `d` is based on, table by table.
pub fn collect_deps(bt: &Vec<StrMap<Vec<String>>>, d: &str) -> (r: Vec<String>)
    ensures
        views(r@) == deps_in_all(tables(bt@), d@),
{
    let ghost t = tables(bt@);
    let mut r: Vec<String> = Vec::new();
    let mut i: usize = 0;
    while i < bt.len()
        invariant
            i <= bt.len(),
            t == tables(bt@),
            views(r@) == deps_in_all(t.take(i as int), d@),
        decreases bt.len() - i,
    {
        assert(t.take(i + 1).drop_last() =~= t.take(i as int));
        assert(t.take(i + 1).last() == bt@[i as int]@);
        match bt[i].get(d) {
            Some(v) => {
                let ghost r0 = views(r@);
                let mut j: usize = 0;
                while j < v.len()
                    invariant
                        j <= v.len(),
                        views(r@) == r0 + views(v@).take(j as int),
                    decreases v.len() - j,
                {
                    let c = v[j].clone();
                    proof {
                        crate::types::lemma_views_push(r@, c);
                    }
                    r.push(c);
                    assert(views(v@).take(j + 1) =~= views(v@).take(j as int).push(v@[j as int]@));
                    assert(views(r@) =~= r0 + views(v@).take(j + 1));
                    j = j + 1;
                }
                assert(views(v@).take(v.len() as int) =~= views(v@));
            },
            None => {
                assert(views(r@) =~= views(r@) + Seq::<Seq<char>>::empty());
            },
        }
        i = i + 1;
    }
    assert(t.take(bt.len() as int) =~= t);
    r
}

/// Appends a copy of each of `src` to `dst`.
fn append_copies(dst: &mut Vec<String>, src: &Vec<String>)
    ensures
        views(final(dst)@) == views(old(dst)@) + views(src@),
{
    let mut j: usize = 0;
    while j < src.len()
        invariant
            j <= src.len(),
            views(dst@) == views(old(dst)@) + views(src@).take(j as int),
        decreases src.len() - j,
    {
        let c = src[j].clone();
        proof {
            crate::types::lemma_views_push(dst@, c);
        }
        dst.push(c);
        assert(views(src@).take(j + 1) =~= views(src@).take(j as int).push(src@[j as int]@));
        assert(views(dst@) =~= views(old(dst)@) + views(src@).take(j + 1));
        j = j + 1;
    }
    assert(views(src@).take(src.len() as int) =~= views(src@));
}

/// The direct dependencies of the requested packages.
pub fn direct_dependencies(bt: &Vec<StrMap<Vec<String>>>, pkglist: &Vec<String>) -> (r: Vec<String>)
    ensures
        views(r@) == direct_deps(tables(bt@), needing(tables(bt@), views(pkglist@))),
{
    let ghost t = tables(bt@);
    let ghost ps = views(pkglist@);
    let mut needed: Vec<String> = Vec::new();
    let mut i: usize = 0;
    while i < pkglist.len()
        invariant
            i <= pkglist.len(),
            t == tables(bt@),
            ps == views(pkglist@),
            views(needed@) == needing(t, ps.take(i as int)),
        decreases pkglist.len() - i,
    {
        assert(ps.take(i + 1).drop_last() =~= ps.take(i as int));
        if lookup_in_tables(bt, pkglist[i].as_str()).is_some() {
            needed.push(pkglist[i].clone());
            assert(views(needed@) =~= needing(t, ps.take(i as int)).push(ps[i as int]));
        }
        i = i + 1;
    }
    assert(ps.take(pkglist.len() as int) =~= ps);
    let ghost ns = views(needed@);
    let mut ds: Vec<String> = Vec::new();
    let mut k: usize = 0;
    while k < needed.len()
        invariant
            k <= needed.len(),
            t == tables(bt@),
            ns == views(needed@),
            views(ds@) == direct_deps(t, ns.take(k as int)),
        decreases needed.len() - k,
    {
        assert(ns.take(k + 1).drop_last() =~= ns.take(k as int));
        match lookup_in_tables(bt, needed[k].as_str()) {
            Some(v) => {
                append_copies(&mut ds, v);
            },
            None => {
                assert(views(ds@) =~= views(ds@) + Seq::<Seq<char>>::empty());
            },
        }
        k = k + 1;
    }
    assert(ns.take(needed.len() as int) =~= ns);
    ds
}

/// Resolves the dependencies of `pkglist`, extending `fetch` as described
/// by `resolve`. On an error `fetch` holds what was queued before it.
pub fn resolve_fetch(
    index: &StrMap<PkgInfo>,
    bt: &Vec<StrMap<Vec<String>>>,
    pkglist: &Vec<String>,
    fetch: &mut Vec<String>,
) -> (r: Result<(), DepError>)
    ensures
        match resolve(index@, tables(bt@), views(pkglist@), views(old(fetch)@)) {
            Ok(f) => r is Ok && views(final(fetch)@) == f,
            Err(e) => r matches Err(x) && dep_error_view(x) == e,
        },
{
    let ghost t = tables(bt@);
    let ghost ps = views(pkglist@);
    let ds = direct_dependencies(bt, pkglist);
    let ghost dsv = views(ds@);
    let mut visited: Vec<String> = Vec::new();
    assert(views(visited@) =~= Seq::<Seq<char>>::empty());
    assert(dsv.skip(0) =~= dsv);
    let mut i: usize = 0;
    while i < ds.len()
        invariant
            i <= ds.len(),
            t == tables(bt@),
            dsv == views(ds@),
            ps == views(pkglist@),
            dsv == direct_deps(t, needing(t, ps)),
            dep_steps(index@, t, dsv, (Seq::empty(), views(old(fetch)@))) == dep_steps(
                index@,
                t,
                dsv.skip(i as int),
                (views(visited@), views(fetch@)),
            ),
        decreases ds.len() - i,
    {
        let d = &ds[i];
        assert(dsv.skip(i as int)[0] == d@);
        assert(dsv.skip(i as int).drop_first() =~= dsv.skip(i + 1));
        if !index.contains_key(d.as_str()) {
            let e = DepError::MissingDependency { dep: d.clone() };
            assert(dep_steps(index@, t, dsv.skip(i as int), (views(visited@), views(fetch@))) == Err::<
                CheckState,
                DepErrorView,
            >(dep_error_view(e)));
            return Err(e);
        }
        if !contains_name(&visited, d.as_str()) {
            let ghost v0 = views(visited@);
            visited.push(d.clone());
            assert(views(visited@) =~= v0.push(d@));
            let subs = collect_deps(bt, d.as_str());
            let ghost sv = views(subs@);
            assert(sv.skip(0) =~= sv);
            let mut j: usize = 0;
            while j < subs.len()
                invariant
                    j <= subs.len(),
                    sv == views(subs@),
                    t == tables(bt@),
                    dsv == views(ds@),
                    ps == views(pkglist@),
                    dsv == direct_deps(t, needing(t, ps)),
                    i < ds.len(),
                    dep_steps(index@, t, dsv, (Seq::empty(), views(old(fetch)@))) == match sub_steps(
                        index@,
                        d@,
                        sv.skip(j as int),
                        (views(visited@), views(fetch@)),
                    ) {
                        Err(e) => Err(e),
                        Ok(st1) => dep_steps(index@, t, dsv.skip(i + 1), st1),
                    },
                decreases subs.len() - j,
            {
                let s = &subs[j];
                assert(sv.skip(j as int)[0] == s@);
                assert(sv.skip(j as int).drop_first() =~= sv.skip(j + 1));
                if !index.contains_key(s.as_str()) {
                    let last_queued = if fetch.len() > 0 {
                        Some(fetch[fetch.len() - 1].clone())
                    } else {
                        None
                    };
                    let e = DepError::MissingSubDependency {
                        dep: d.clone(),
                        sub_dep: s.clone(),
                        last_queued,
                    };
                    assert(sub_steps(index@, d@, sv.skip(j as int), (views(visited@), views(fetch@)))
                        == Err::<CheckState, DepErrorView>(dep_error_view(e)));
                    return Err(e);
                }
                if !contains_name(&visited, s.as_str()) {
                    let ghost v1 = views(visited@);
                    let ghost f1 = views(fetch@);
                    visited.push(s.clone());
                    fetch.push(s.clone());
                    assert(views(visited@) =~= v1.push(s@));
                    assert(views(fetch@) =~= f1.push(s@));
                }
                j = j + 1;
            }
            assert(sv.skip(subs.len() as int) =~= Seq::<Seq<char>>::empty());
        }
        i = i + 1;
    }
    assert(dsv.skip(ds.len() as int) =~= Seq::<Seq<char>>::empty());
    // Every requested package, then every direct dependency, once.
    let ghost all = ps + dsv;
    let ghost f_mid = views(fetch@);
    let mut added: Vec<String> = Vec::new();
    assert(views(added@) =~= dedup(all.take(0)));
    assert(views(fetch@) =~= f_mid + dedup(all.take(0)));
    let mut k: usize = 0;
    while k < pkglist.len()
        invariant
            k <= pkglist.len(),
            ps == views(pkglist@),
            all == ps + dsv,
            views(added@) == dedup(all.take(k as int)),
            views(fetch@) == f_mid + dedup(all.take(k as int)),
        decreases pkglist.len() - k,
    {
        let x = &pkglist[k];
        assert(all[k as int] == x@);
        assert(all.take(k + 1).drop_last() =~= all.take(k as int));
        if !contains_name(&added, x.as_str()) {
            let ghost a0 = views(added@);
            let ghost f0 = views(fetch@);
            added.push(x.clone());
            fetch.push(x.clone());
            assert(views(added@) =~= a0.push(x@));
            assert(views(fetch@) =~= f0.push(x@));
            assert(f_mid + dedup(all.take(k + 1)) =~= f0.push(x@));
        }
        k = k + 1;
    }
    let plen = pkglist.len();
    let mut k2: usize = 0;
    while k2 < ds.len()
        invariant
            k2 <= ds.len(),
            plen == ps.len(),
            dsv == views(ds@),
            all == ps + dsv,
            views(added@) == dedup(all.take(plen + k2)),
            views(fetch@) == f_mid + dedup(all.take(plen + k2)),
        decreases ds.len() - k2,
    {
        let x = &ds[k2];
        assert(all[plen + k2] == x@);
        assert(all.take(plen + k2 + 1).drop_last() =~= all.take(plen + k2));
        if !contains_name(&added, x.as_str()) {
            let ghost a0 = views(added@);
            let ghost f0 = views(fetch@);
            added.push(x.clone());
            fetch.push(x.clone());
            assert(views(added@) =~= a0.push(x@));
            assert(views(fetch@) =~= f0.push(x@));
            assert(f_mid + dedup(all.take(plen + k2 + 1)) =~= f0.push(x@));
        }
        k2 = k2 + 1;
    }
    assert(all.take(plen + ds.len()) =~= all);
    Ok(())
}

} // verus!
