//! Which packages a removal takes with it.
//!
//! Removing a package removes what it depends on as well. Starting from
//! the requested packages, the database of installed packages is walked
//! depth first; every dependency met on the way, installed or not, is
//! recorded in the order in which it is met.
use vstd::prelude::*;
use vstd::set_lib::*;

use crate::strmap::{distinct_keys, has_key, key_index, keys_of, lemma_key_index, lookup, EntryView, StrMap};
use crate::text::owned;
use crate::types::{views, PkgInfoToml, PkgInfoTomlView};

verus! {

/// The database of installed packages as the contracts see it.
pub type DbView = Seq<EntryView<PkgInfoTomlView>>;

/// `p` is installed.
pub open spec fn installed(db: DbView, p: Seq<char>) -> bool {
    has_key(db, p)
}

/// The recorded dependencies of an installed package.
pub open spec fn deps_of(db: DbView, p: Seq<char>) -> Seq<Seq<char>> {
    lookup(db, p).unwrap().dependencies
}

/// The names of all installed packages.
pub open spec fn installed_set(db: DbView) -> Set<Seq<char>> {
    keys_of(db).to_set()
}

/// How many installed packages a walk has not visited yet.
pub open spec fn unvisited(db: DbView, vis: Set<Seq<char>>) -> nat {
    installed_set(db).difference(vis).len()
}

/// The state of a walk: the packages visited, the dependencies met (in
/// order, repeated when met again), and the dependencies that are not
/// installed, each with the package that names it.
#[verifier::ext_equal]
pub struct Walk {
    pub visited: Set<Seq<char>>,
    pub order: Seq<Seq<char>>,
    pub broken: Seq<(Seq<char>, Seq<char>)>,
}

/// A walk that has not started.
pub open spec fn empty_walk() -> Walk {
    Walk { visited: Set::empty(), order: Seq::empty(), broken: Seq::empty() }
}

pub proof fn lemma_installed_set(db: DbView, p: Seq<char>)
    ensures
        installed(db, p) <==> installed_set(db).contains(p),
        installed_set(db).finite(),
{
    broadcast use vstd::seq_lib::seq_to_set_is_finite;

    lemma_key_index(db, p);
    if installed(db, p) {
        assert(keys_of(db)[key_index(db, p)] == p);
    }
    if installed_set(db).contains(p) {
        let i = choose|i: int| 0 <= i < keys_of(db).len() && keys_of(db)[i] == p;
        assert(db[i].0 == p);
    }
}

/// Visiting one more installed package leaves fewer to visit.
pub proof fn lemma_unvisited_insert(db: DbView, vis: Set<Seq<char>>, u: Seq<char>)
    requires
        installed(db, u),
        !vis.contains(u),
    ensures
        unvisited(db, vis.insert(u)) < unvisited(db, vis),
{
    lemma_installed_set(db, u);
    let k = installed_set(db);
    let d = k.difference(vis);
    lemma_len_subset(d, k);
    assert(k.difference(vis.insert(u)) =~= d.remove(u));
}

/// Visiting more never leaves more to visit.
pub proof fn lemma_unvisited_mono(db: DbView, a: Set<Seq<char>>, b: Set<Seq<char>>)
    requires
        a.subset_of(b),
    ensures
        unvisited(db, b) <= unvisited(db, a),
{
    lemma_installed_set(db, Seq::empty());
    let k = installed_set(db);
    lemma_len_subset(k.difference(a), k);
    lemma_len_subset(k.difference(b), k.difference(a));
}

/// Visits `u`: an installed package not visited yet is marked visited and
/// its dependencies are walked in order.
pub open spec fn visit(db: DbView, u: Seq<char>, w: Walk) -> Walk
    decreases unvisited(db, w.visited), 0nat, 0nat,
{
    if !installed(db, u) || w.visited.contains(u) {
        w
    } else {
        proof {
            lemma_unvisited_insert(db, w.visited, u);
        }
        visit_deps(
            db,
            u,
            deps_of(db, u),
            Walk { visited: w.visited.insert(u), order: w.order, broken: w.broken },
        )
    }
}

/// Walks the dependencies `ds` of `u`: an installed one is recorded and
/// visited, one that is not installed is recorded as broken.
pub open spec fn visit_deps(db: DbView, u: Seq<char>, ds: Seq<Seq<char>>, w: Walk) -> Walk
    decreases unvisited(db, w.visited), 1nat, ds.len(),
{
    if ds.len() == 0 {
        w
    } else {
        let d = ds[0];
        let w1 = if installed(db, d) {
            let r = visit(db, d, Walk { visited: w.visited, order: w.order.push(d), broken: w.broken });
            Walk { visited: w.visited.union(r.visited), order: r.order, broken: r.broken }
        } else {
            Walk { visited: w.visited, order: w.order, broken: w.broken.push((u, d)) }
        };
        proof {
            lemma_unvisited_mono(db, w.visited, w1.visited);
        }
        visit_deps(db, u, ds.drop_first(), w1)
    }
}

/// Visits each of `ps` in order, sharing one walk.
pub open spec fn visit_all(db: DbView, ps: Seq<Seq<char>>, w: Walk) -> Walk
    decreases ps.len(),
{
    if ps.len() == 0 {
        w
    } else {
        visit_all(db, ps.drop_first(), visit(db, ps[0], w))
    }
}

/// The packages of `ps` that are not installed, in order.
pub open spec fn not_installed(db: DbView, ps: Seq<Seq<char>>) -> Seq<Seq<char>>
    decreases ps.len(),
{
    if ps.len() == 0 {
        Seq::empty()
    } else {
        let r = not_installed(db, ps.drop_last());
        if installed(db, ps.last()) {
            r
        } else {
            r.push(ps.last())
        }
    }
}

/// The pairs of a list of string pairs.
pub open spec fn pair_views(v: Seq<(String, String)>) -> Seq<(Seq<char>, Seq<char>)> {
    v.map_values(|p: (String, String)| (p.0@, p.1@))
}

/// The walk that three lists stand for.
pub open spec fn walk_of(visited: Seq<String>, order: Seq<String>, broken: Seq<(String, String)>) -> Walk {
    Walk { visited: views(visited).to_set(), order: views(order), broken: pair_views(broken) }
}

// ---------------------------------------------------------------------
// Laws of the walk
// ---------------------------------------------------------------------

/// `w2` extends `w`: it has visited at least as much, and its record of
/// dependencies begins with that of `w`.
pub open spec fn extends(w: Walk, w2: Walk) -> bool {
    &&& w.visited.subset_of(w2.visited)
    &&& w.order.len() <= w2.order.len()
    &&& forall|i: int| 0 <= i < w.order.len() ==> #[trigger] w2.order[i] == w.order[i]
}

/// Every installed dependency of `x` has been recorded and visited.
pub open spec fn closed(db: DbView, x: Seq<char>, w: Walk) -> bool {
    forall|j: int|
        0 <= j < deps_of(db, x).len() && installed(db, #[trigger] deps_of(db, x)[j]) ==> w.order.contains(
            deps_of(db, x)[j],
        ) && w.visited.contains(deps_of(db, x)[j])
}

/// What a step of the walk adds is sound: each newly visited package is
/// installed and has all its installed dependencies recorded, each newly
/// recorded dependency is installed and visited.
pub open spec fn sound_step(db: DbView, w: Walk, r: Walk) -> bool {
    &&& extends(w, r)
    &&& forall|x: Seq<char>|
        #[trigger] r.visited.contains(x) && !w.visited.contains(x) ==> installed(db, x) && closed(
            db,
            x,
            r,
        )
    &&& forall|i: int|
        w.order.len() <= i < r.order.len() ==> installed(db, #[trigger] r.order[i])
            && r.visited.contains(r.order[i])
}

proof fn lemma_extends_trans(a: Walk, b: Walk, c: Walk)
    requires
        extends(a, b),
        extends(b, c),
    ensures
        extends(a, c),
{
    assert forall|i: int| 0 <= i < a.order.len() implies #[trigger] c.order[i] == a.order[i] by {
        assert(c.order[i] == b.order[i]);
    }
}

proof fn lemma_closed_mono(db: DbView, x: Seq<char>, w: Walk, w2: Walk)
    requires
        closed(db, x, w),
        extends(w, w2),
    ensures
        closed(db, x, w2),
{
    assert forall|j: int|
        0 <= j < deps_of(db, x).len() && installed(db, #[trigger] deps_of(db, x)[j]) implies w2.order.contains(
        deps_of(db, x)[j],
    ) && w2.visited.contains(deps_of(db, x)[j]) by {
        let d = deps_of(db, x)[j];
        assert(w.order.contains(d));
        let k = choose|k: int| 0 <= k < w.order.len() && w.order[k] == d;
        assert(w2.order[k] == d);
    }
}

/// A visit is a sound step that leaves `u`, when installed, visited.
pub proof fn lemma_visit(db: DbView, u: Seq<char>, w: Walk)
    ensures
        sound_step(db, w, visit(db, u, w)),
        installed(db, u) ==> visit(db, u, w).visited.contains(u),
    decreases unvisited(db, w.visited), 0nat, 0nat,
{
    if !installed(db, u) || w.visited.contains(u) {
    } else {
        lemma_unvisited_insert(db, w.visited, u);
        let w1 = Walk { visited: w.visited.insert(u), order: w.order, broken: w.broken };
        let ds = deps_of(db, u);
        lemma_visit_deps(db, u, ds, w1);
        let r = visit_deps(db, u, ds, w1);
        assert(r == visit(db, u, w));
        assert forall|x: Seq<char>| #[trigger]
            r.visited.contains(x) && !w.visited.contains(x) implies installed(db, x) && closed(
            db,
            x,
            r,
        ) by {
            if x == u {
                assert forall|j: int|
                    0 <= j < deps_of(db, u).len() && installed(db, #[trigger] deps_of(db, u)[j]) implies r.order.contains(
                    deps_of(db, u)[j],
                ) && r.visited.contains(deps_of(db, u)[j]) by {
                    assert(ds[j] == deps_of(db, u)[j]);
                }
            } else {
                assert(!w1.visited.contains(x));
            }
        }
    }
}

/// Walking a list of dependencies is a sound step that records and visits
/// each installed one.
pub proof fn lemma_visit_deps(db: DbView, u: Seq<char>, ds: Seq<Seq<char>>, w: Walk)
    ensures
        sound_step(db, w, visit_deps(db, u, ds, w)),
        forall|j: int|
            0 <= j < ds.len() && installed(db, #[trigger] ds[j]) ==> visit_deps(
                db,
                u,
                ds,
                w,
            ).order.contains(ds[j]) && visit_deps(db, u, ds, w).visited.contains(ds[j]),
    decreases unvisited(db, w.visited), 1nat, ds.len(),
{
    if ds.len() == 0 {
    } else {
        let d = ds[0];
        let rest = ds.drop_first();
        let r = visit_deps(db, u, ds, w);
        if installed(db, d) {
            let wa = Walk { visited: w.visited, order: w.order.push(d), broken: w.broken };
            lemma_visit(db, d, wa);
            let r1 = visit(db, d, wa);
            let w1 = Walk { visited: w.visited.union(r1.visited), order: r1.order, broken: r1.broken };
            assert(w1.visited =~= r1.visited);
            assert(w1 == r1);
            lemma_unvisited_mono(db, w.visited, w1.visited);
            lemma_visit_deps(db, u, rest, w1);
            assert(r == visit_deps(db, u, rest, w1));
            assert(extends(w, wa));
            lemma_extends_trans(w, wa, r1);
            lemma_extends_trans(w, r1, r);
            assert forall|x: Seq<char>| #[trigger]
                r.visited.contains(x) && !w.visited.contains(x) implies installed(db, x) && closed(
                db,
                x,
                r,
            ) by {
                if r1.visited.contains(x) {
                    lemma_closed_mono(db, x, r1, r);
                }
            }
            assert forall|i: int| w.order.len() <= i < r.order.len() implies installed(
                db,
                #[trigger] r.order[i],
            ) && r.visited.contains(r.order[i]) by {
                if i < r1.order.len() {
                    assert(r.order[i] == r1.order[i]);
                    if i == w.order.len() {
                        assert(r1.order[i] == wa.order[i]);
                    }
                }
            }
            assert forall|j: int|
                0 <= j < ds.len() && installed(db, #[trigger] ds[j]) implies r.order.contains(ds[j])
                && r.visited.contains(ds[j]) by {
                if j == 0 {
                    let k = w.order.len() as int;
                    assert(r1.order[k] == wa.order[k]);
                    assert(r.order[k] == r1.order[k]);
                    assert(r.order[k] == d);
                } else {
                    assert(rest[j - 1] == ds[j]);
                }
            }
        } else {
            let w1 = Walk { visited: w.visited, order: w.order, broken: w.broken.push((u, d)) };
            lemma_visit_deps(db, u, rest, w1);
            assert(r == visit_deps(db, u, rest, w1));
            assert forall|j: int|
                0 <= j < ds.len() && installed(db, #[trigger] ds[j]) implies r.order.contains(ds[j])
                && r.visited.contains(ds[j]) by {
                assert(rest[j - 1] == ds[j]);
            }
        }
    }
}

/// Visiting a list of packages is a sound step that visits each installed
/// one.
pub proof fn lemma_visit_all(db: DbView, ps: Seq<Seq<char>>, w: Walk)
    ensures
        sound_step(db, w, visit_all(db, ps, w)),
        forall|j: int|
            0 <= j < ps.len() && installed(db, #[trigger] ps[j]) ==> visit_all(
                db,
                ps,
                w,
            ).visited.contains(ps[j]),
    decreases ps.len(),
{
    if ps.len() > 0 {
        let w1 = visit(db, ps[0], w);
        lemma_visit(db, ps[0], w);
        lemma_visit_all(db, ps.drop_first(), w1);
        let r = visit_all(db, ps, w);
        assert(r == visit_all(db, ps.drop_first(), w1));
        lemma_extends_trans(w, w1, r);
        assert forall|x: Seq<char>| #[trigger]
            r.visited.contains(x) && !w.visited.contains(x) implies installed(db, x) && closed(
            db,
            x,
            r,
        ) by {
            if w1.visited.contains(x) {
                lemma_closed_mono(db, x, w1, r);
            }
        }
        assert forall|i: int| w.order.len() <= i < r.order.len() implies installed(
            db,
            #[trigger] r.order[i],
        ) && r.visited.contains(r.order[i]) by {
            if i < w1.order.len() {
                assert(r.order[i] == w1.order[i]);
            }
        }
        assert forall|j: int| 0 <= j < ps.len() && installed(db, #[trigger] ps[j]) implies r.visited.contains(
            ps[j],
        ) by {
            if j > 0 {
                assert(ps.drop_first()[j - 1] == ps[j]);
            }
        }
    }
}

/// With nothing reported missing, every requested package is installed.
pub proof fn lemma_not_installed_empty(db: DbView, ps: Seq<Seq<char>>)
    ensures
        not_installed(db, ps).len() == 0 <==> forall|j: int| 0 <= j < ps.len() ==> installed(db, #[trigger] ps[j]),
    decreases ps.len(),
{
    if ps.len() > 0 {
        lemma_not_installed_empty(db, ps.drop_last());
        assert(forall|j: int| 0 <= j < ps.len() - 1 ==> ps.drop_last()[j] == ps[j]);
    }
}

/// A removal takes along everything it needs to: when every requested
/// package is installed, each package that is requested or taken along is
/// installed, and each installed dependency of such a package is taken
/// along too.
pub proof fn law_removal_is_closed(db: DbView, ps: Seq<Seq<char>>)
    requires
        distinct_keys(db),
        not_installed(db, ps).len() == 0,
    ensures
        ({
            let order = visit_all(db, ps, empty_walk()).order;
            &&& forall|i: int| 0 <= i < order.len() ==> installed(db, #[trigger] order[i])
            &&& forall|p: Seq<char>, j: int|
                (ps.contains(p) || order.contains(p)) && 0 <= j < deps_of(db, p).len() && installed(
                    db,
                    #[trigger] deps_of(db, p)[j],
                ) ==> order.contains(deps_of(db, p)[j])
        }),
{
    let w0 = empty_walk();
    lemma_visit_all(db, ps, w0);
    lemma_not_installed_empty(db, ps);
    let r = visit_all(db, ps, w0);
    assert forall|p: Seq<char>, j: int|
        (ps.contains(p) || r.order.contains(p)) && 0 <= j < deps_of(db, p).len() && installed(
            db,
            #[trigger] deps_of(db, p)[j],
        ) implies r.order.contains(deps_of(db, p)[j]) by {
        if ps.contains(p) {
            let k = choose|k: int| 0 <= k < ps.len() && ps[k] == p;
            assert(installed(db, ps[k]));
        } else {
            let k = choose|k: int| 0 <= k < r.order.len() && r.order[k] == p;
            assert(installed(db, r.order[k]));
        }
        assert(r.visited.contains(p));
        assert(closed(db, p, r));
    }
}

// ---------------------------------------------------------------------
// Executable walk
// ---------------------------------------------------------------------

/// Whether `s` is among `v`.
pub fn contains_name(v: &Vec<String>, s: &str) -> (b: bool)
    ensures
        b == views(v@).contains(s@),
{
    let key = owned(s);
    let mut i: usize = 0;
    while i < v.len()
        invariant
            i <= v.len(),
            key@ == s@,
            forall|j: int| 0 <= j < i ==> v@[j]@ != s@,
        decreases v.len() - i,
    {
        if v[i] == key {
            assert(views(v@)[i as int] == s@);
            return true;
        }
        i = i + 1;
    }
    false
}

fn visit_exec(
    db: &StrMap<PkgInfoToml>,
    u: &String,
    visited: &mut Vec<String>,
    order: &mut Vec<String>,
    broken: &mut Vec<(String, String)>,
)
    ensures
        walk_of(final(visited)@, final(order)@, final(broken)@) == visit(
            db@,
            u@,
            walk_of(old(visited)@, old(order)@, old(broken)@),
        ),
        views(old(visited)@).to_set().subset_of(views(final(visited)@).to_set()),
    decreases unvisited(db@, views(old(visited)@).to_set()),
{
    let ghost w0 = walk_of(visited@, order@, broken@);
    if !db.contains_key(u.as_str()) {
        return;
    }
    if contains_name(visited, u.as_str()) {
        return;
    }
    proof {
        lemma_unvisited_insert(db@, w0.visited, u@);
    }
    let ghost vis0 = views(visited@);
    visited.push(u.clone());
    assert(views(visited@) =~= vis0.push(u@));
    proof {
        vis0.lemma_push_to_set_commute(u@);
    }
    assert(views(visited@).to_set() =~= w0.visited.insert(u@));
    let info = match db.get(u.as_str()) {
        Some(info) => info,
        None => {
            return;
        },
    };
    let ds = &info.dependencies;
    let ghost dsv = views(ds@);
    assert(dsv == deps_of(db@, u@));
    let ghost w_in = walk_of(visited@, order@, broken@);
    assert(dsv.skip(0) =~= dsv);
    let mut i: usize = 0;
    while i < ds.len()
        invariant
            i <= ds.len(),
            dsv == views(ds@),
            installed(db@, u@),
            w0.visited == views(old(visited)@).to_set(),
            !w0.visited.contains(u@),
            w_in.visited == w0.visited.insert(u@),
            w_in.visited.subset_of(views(visited@).to_set()),
            visit_deps(db@, u@, dsv, w_in) == visit_deps(
                db@,
                u@,
                dsv.skip(i as int),
                walk_of(visited@, order@, broken@),
            ),
        decreases ds.len() - i,
    {
        let d = &ds[i];
        let ghost wc = walk_of(visited@, order@, broken@);
        assert(dsv.skip(i as int)[0] == d@);
        assert(dsv.skip(i as int).drop_first() =~= dsv.skip(i + 1));
        if db.contains_key(d.as_str()) {
            order.push(d.clone());
            assert(views(order@) =~= wc.order.push(d@));
            proof {
                lemma_unvisited_mono(db@, w_in.visited, wc.visited);
                lemma_unvisited_insert(db@, w0.visited, u@);
            }
            visit_exec(db, d, visited, order, broken);
            let ghost after = walk_of(visited@, order@, broken@);
            assert(wc.visited.union(after.visited) =~= after.visited);
        } else {
            broken.push((u.clone(), d.clone()));
            assert(pair_views(broken@) =~= wc.broken.push((u@, d@)));
        }
        i = i + 1;
    }
    assert(dsv.skip(ds.len() as int) =~= Seq::<Seq<char>>::empty());
}

/// Why the packages asked for cannot be removed.
pub enum RemovalError {
    /// These packages are not installed (each as often as it was asked for).
    NotInstalled(Vec<String>),
    /// These dependencies are not installed, each with the package that
    /// names it.
    InvalidDependencies(Vec<(String, String)>),
}

/// The packages that removing `pkglist` takes along, in the order in which
/// a depth-first walk over the database meets them.
pub fn removal_dependencies(db: &StrMap<PkgInfoToml>, pkglist: &Vec<String>) -> (r: Result<
    Vec<String>,
    RemovalError,
>)
    ensures
        ({
            let missing = not_installed(db@, views(pkglist@));
            let w = visit_all(db@, views(pkglist@), empty_walk());
            if missing.len() > 0 {
                r matches Err(RemovalError::NotInstalled(m)) && views(m@) == missing
            } else if w.broken.len() > 0 {
                r matches Err(RemovalError::InvalidDependencies(b)) && pair_views(b@) == w.broken
            } else {
                r matches Ok(v) && views(v@) == w.order
            }
        }),
{
    let ghost ps = views(pkglist@);
    let mut missing: Vec<String> = Vec::new();
    let mut i: usize = 0;
    while i < pkglist.len()
        invariant
            i <= pkglist.len(),
            ps == views(pkglist@),
            views(missing@) == not_installed(db@, ps.take(i as int)),
        decreases pkglist.len() - i,
    {
        assert(ps.take(i + 1).drop_last() =~= ps.take(i as int));
        if !db.contains_key(pkglist[i].as_str()) {
            missing.push(pkglist[i].clone());
            assert(views(missing@) =~= not_installed(db@, ps.take(i as int)).push(ps[i as int]));
        }
        i = i + 1;
    }
    assert(ps.take(pkglist.len() as int) =~= ps);
    if missing.len() > 0 {
        return Err(RemovalError::NotInstalled(missing));
    }
    let mut visited: Vec<String> = Vec::new();
    let mut order: Vec<String> = Vec::new();
    let mut broken: Vec<(String, String)> = Vec::new();
    assert(walk_of(visited@, order@, broken@) =~= empty_walk());
    let mut j: usize = 0;
    while j < pkglist.len()
        invariant
            j <= pkglist.len(),
            ps == views(pkglist@),
            visit_all(db@, ps, empty_walk()) == visit_all(
                db@,
                ps.skip(j as int),
                walk_of(visited@, order@, broken@),
            ),
        decreases pkglist.len() - j,
    {
        assert(ps.skip(j as int)[0] == pkglist@[j as int]@);
        assert(ps.skip(j as int).drop_first() =~= ps.skip(j + 1));
        visit_exec(db, &pkglist[j], &mut visited, &mut order, &mut broken);
        j = j + 1;
    }
    assert(ps.skip(pkglist.len() as int) =~= Seq::<Seq<char>>::empty());
    if broken.len() > 0 {
        Err(RemovalError::InvalidDependencies(broken))
    } else {
        Ok(order)
    }
}

} // verus!
