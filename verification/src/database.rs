//! The database of installed packages (`packages.toml`): registering a
//! package when it is installed, unregistering it when it is removed.
use vstd::prelude::*;

use crate::removal::{installed, DbView};
use crate::strmap::{
    distinct_keys, has_key, key_index, lemma_key_index, lemma_lookup_remove, lemma_lookup_upsert,
    lemma_remove_distinct, lookup, remove_key, upsert, EntryView, StrMap,
};
use crate::text::str_eq;
use crate::types::{clone_strings, views, ErrorCode, PkgInfoToml, PkgInfoTomlView};

verus! {

/// `ds` without the name `p`.
pub open spec fn drop_name(ds: Seq<Seq<char>>, p: Seq<char>) -> Seq<Seq<char>>
    decreases ds.len(),
{
    if ds.len() == 0 {
        Seq::empty()
    } else {
        let r = drop_name(ds.drop_last(), p);
        if ds.last() == p {
            r
        } else {
            r.push(ds.last())
        }
    }
}

/// Every record with `p` taken out of its dependencies.
pub open spec fn forget_dependency(db: DbView, p: Seq<char>) -> DbView {
    db.map_values(
        |e: EntryView<PkgInfoTomlView>|
            (e.0, PkgInfoTomlView { dependencies: drop_name(e.1.dependencies, p), version: e.1.version }),
    )
}

/// The database after unregistering `p`.
pub open spec fn unregistered(db: DbView, p: Seq<char>) -> DbView {
    remove_key(forget_dependency(db, p), p)
}

/// Records `package` as installed, at `version`, depending on
/// `dependencies`; an earlier record of it is replaced.
pub fn register_package(
    db: &mut StrMap<PkgInfoToml>,
    package: String,
    version: String,
    dependencies: Vec<String>,
)
    ensures
        final(db)@ == upsert(
            old(db)@,
            package@,
            PkgInfoTomlView { dependencies: views(dependencies@), version: version@ },
        ),
{
    db.insert(package, PkgInfoToml { dependencies, version });
}

/// `ds` without the name `p`.
pub fn without_name(ds: &Vec<String>, p: &str) -> (r: Vec<String>)
    ensures
        views(r@) == drop_name(views(ds@), p@),
{
    let ghost dv = views(ds@);
    let mut r: Vec<String> = Vec::new();
    let mut i: usize = 0;
    while i < ds.len()
        invariant
            i <= ds.len(),
            dv == views(ds@),
            views(r@) == drop_name(dv.take(i as int), p@),
        decreases ds.len() - i,
    {
        assert(dv.take(i + 1).drop_last() =~= dv.take(i as int));
        if !str_eq(ds[i].as_str(), p) {
            let c = ds[i].clone();
            proof {
                crate::types::lemma_views_push(r@, c);
            }
            r.push(c);
        }
        i = i + 1;
    }
    assert(dv.take(ds.len() as int) =~= dv);
    r
}

/// Unregisters `package`: it is no longer recorded as installed and no
/// record lists it as a dependency any more. When it was not recorded,
/// nothing changes and `UnregisterError` is returned.
pub fn unregister_package(db: &mut StrMap<PkgInfoToml>, package: &str) -> (r: Result<(), ErrorCode>)
    ensures
        installed(old(db)@, package@) ==> r is Ok && final(db)@ == unregistered(old(db)@, package@),
        !installed(old(db)@, package@) ==> r == Err::<(), ErrorCode>(ErrorCode::UnregisterError)
            && final(db)@ == old(db)@,
{
    if !db.contains_key(package) {
        return Err(ErrorCode::UnregisterError);
    }
    let ghost d0 = db@;
    let n = db.len();
    let mut i: usize = 0;
    while i < n
        invariant
            n == d0.len(),
            i <= n,
            db@.len() == n,
            forall|q: int| 0 <= q < i ==> #[trigger] db@[q] == forget_dependency(d0, package@)[q],
            forall|q: int| i <= q < n ==> #[trigger] db@[q] == d0[q],
        decreases n - i,
    {
        let deps = without_name(&db.value_at(i).dependencies, package);
        let version = db.value_at(i).version.clone();
        db.set_value_at(i, PkgInfoToml { dependencies: deps, version });
        i = i + 1;
    }
    assert(db@ =~= forget_dependency(d0, package@));
    proof {
        lemma_key_index(d0, package@);
        lemma_key_index(forget_dependency(d0, package@), package@);
        let k = key_index(d0, package@);
        assert(forget_dependency(d0, package@)[k].0 == package@);
    }
    let _ = db.remove(package);
    Ok(())
}

/// What registering records can be read back: after registering a
/// package, the database gives exactly the recorded version and
/// dependencies for it, and what it gave for every other package is
/// unchanged.
pub proof fn law_register_then_lookup(db: DbView, p: Seq<char>, info: PkgInfoTomlView, q: Seq<char>)
    requires
        distinct_keys(db),
    ensures
        lookup(upsert(db, p, info), p) == Some(info),
        q != p ==> lookup(upsert(db, p, info), q) == lookup(db, q),
{
    lemma_lookup_upsert(db, p, info, q);
}

/// `drop_name` leaves no occurrence of the name.
pub proof fn lemma_drop_name(ds: Seq<Seq<char>>, p: Seq<char>)
    ensures
        !drop_name(ds, p).contains(p),
        forall|x: Seq<char>| x != p ==> (drop_name(ds, p).contains(x) <==> ds.contains(x)),
    decreases ds.len(),
{
    if ds.len() > 0 {
        let d = ds.drop_last();
        lemma_drop_name(d, p);
        let r = drop_name(d, p);
        assert forall|x: Seq<char>| x != p implies (drop_name(ds, p).contains(x) <==> ds.contains(x)) by {
            if ds.contains(x) {
                let i = choose|i: int| 0 <= i < ds.len() && ds[i] == x;
                if i < d.len() {
                    assert(d[i] == x);
                } else {
                    assert(drop_name(ds, p) == r.push(x));
                    assert(r.push(x)[r.len() as int] == x);
                }
            }
            if r.contains(x) {
                let i = choose|i: int| 0 <= i < r.len() && r[i] == x;
                if ds.last() != p {
                    assert(r.push(ds.last())[i] == x);
                }
            }
            if drop_name(ds, p).contains(x) && !r.contains(x) {
                let i = choose|i: int| 0 <= i < drop_name(ds, p).len() && drop_name(ds, p)[i] == x;
                assert(x == ds.last());
                assert(ds[ds.len() - 1] == x);
            }
            if d.contains(x) {
                let i = choose|i: int| 0 <= i < d.len() && d[i] == x;
                assert(ds[i] == x);
            }
        }
        if ds.last() != p {
            if r.push(ds.last()).contains(p) {
                let i = choose|i: int| 0 <= i < r.len() + 1 && r.push(ds.last())[i] == p;
                if i < r.len() {
                    assert(r[i] == p);
                }
            }
        }
    }
}

/// Unregistering undoes registering: registering a package and then
/// unregistering it leaves the database as unregistering it alone would,
/// whether or not it was installed before.
pub proof fn law_register_then_unregister(db: DbView, p: Seq<char>, info: PkgInfoTomlView)
    requires
        distinct_keys(db),
    ensures
        unregistered(upsert(db, p, info), p) == unregistered(db, p),
{
    let u = upsert(db, p, info);
    let f = forget_dependency(db, p);
    let fu = forget_dependency(u, p);
    let e = (p, PkgInfoTomlView { dependencies: drop_name(info.dependencies, p), version: info.version });
    lemma_key_index(db, p);
    lemma_key_index(f, p);
    lemma_key_index(fu, p);
    if has_key(db, p) {
        let k = key_index(db, p);
        assert(fu =~= f.update(k, e));
        assert(f[k].0 == p);
        crate::strmap::lemma_key_index_unique(f, p, k);
        assert forall|i: int, j: int| 0 <= i < j < fu.len() implies fu[i].0 != fu[j].0 by {
            assert(fu[i].0 == u[i].0);
            assert(fu[j].0 == u[j].0);
            crate::strmap::lemma_upsert_distinct(db, p, info);
        }
        crate::strmap::lemma_key_index_unique(fu, p, k);
        assert(fu.remove(k) =~= f.remove(k));
    } else {
        assert(fu =~= f.push(e));
        assert(fu.last().0 == p);
        assert(key_index(fu, p) == f.len());
        assert(fu.remove(f.len() as int) =~= f);
        assert(!has_key(f, p)) by {
            if has_key(f, p) {
                assert(db[key_index(f, p)].0 == p);
            }
        }
    }
}

/// A removed package leaves no trace: after unregistering an installed
/// package, it is not installed, no remaining package lists it as a
/// dependency, every other package is still installed with the same
/// version, and its dependencies lose nothing but that package.
pub proof fn law_unregister_forgets(db: DbView, p: Seq<char>, q: Seq<char>)
    requires
        distinct_keys(db),
        installed(db, p),
    ensures
        !installed(unregistered(db, p), p),
        q != p ==> (installed(unregistered(db, p), q) <==> installed(db, q)),
        q != p && installed(db, q) ==> ({
            let before = lookup(db, q).unwrap();
            let after = lookup(unregistered(db, p), q).unwrap();
            &&& after.version == before.version
            &&& !after.dependencies.contains(p)
            &&& forall|x: Seq<char>|
                x != p ==> (after.dependencies.contains(x) <==> before.dependencies.contains(x))
        }),
{
    let f = forget_dependency(db, p);
    assert(distinct_keys(f)) by {
        assert forall|i: int, j: int| 0 <= i < j < f.len() implies f[i].0 != f[j].0 by {
            assert(f[i].0 == db[i].0);
            assert(f[j].0 == db[j].0);
        }
    }
    lemma_lookup_remove(f, p, q);
    lemma_key_index(db, q);
    lemma_key_index(f, q);
    if has_key(db, q) {
        let k = key_index(db, q);
        assert(f[k].0 == q);
        crate::strmap::lemma_key_index_unique(f, q, k);
        lemma_drop_name(db[k].1.dependencies, p);
    } else {
        if has_key(f, q) {
            let k = key_index(f, q);
            assert(db[k].0 == q);
        }
    }
    lemma_remove_distinct(f, p);
    lemma_key_index(remove_key(f, p), p);
}

} // verus!
