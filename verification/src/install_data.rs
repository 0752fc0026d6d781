//! The state of an installation as it goes through its steps: reading the
//! repositories' indexes, resolving dependencies, skipping what is already
//! installed, planning the downloads, checking the archives' sums, and
//! handing the packages to the installer.
use vstd::prelude::*;

use crate::checksum::sha256_hex_matches;
use crate::resolve::{
    dep_error_view, lookup_in_tables, lookup_last, resolve, resolve_fetch, tables, DepError, DepErrorView, DepsView,
    IndexView,
};
use crate::strmap::{
    distinct_keys, has_key, key_index, lemma_key_index, lemma_lookup_upsert_all, lemma_upsert_all_distinct,
    lookup, upsert, upsert_all, EntryView, StrMap,
};
use crate::text::{concat2, concat3, contains_seq, split_char, split_on, str_eq};
use crate::types::{clone_strings, views, Package, PackageView, PkgIndex, PkgInfo, PkgInfoView};

verus! {

/// Where downloaded archives are kept.
pub open spec fn cache_dir() -> Seq<char> {
    "/var/cache/mcospkg"@
}

/// The maps `ms` merged in order, a later one overriding an earlier one
/// (an empty map extended with each in turn).
pub open spec fn merge_all<W>(ms: Seq<Seq<EntryView<W>>>) -> Seq<EntryView<W>>
    decreases ms.len(),
{
    if ms.len() == 0 {
        Seq::empty()
    } else {
        upsert_all(merge_all(ms.drop_last()), ms.last())
    }
}

/// The line that the installed-package database holds for `pkg`.
pub open spec fn installed_line(pkg: Seq<char>) -> Seq<char> {
    "["@ + pkg + "]"@
}

/// The database text `raw` records `pkg` as installed.
pub open spec fn recorded_installed(raw: Seq<char>, pkg: Seq<char>) -> bool {
    split_on(raw, '\n').contains(installed_line(pkg))
}

/// The packages of `fetch` that the database does not record, in order.
pub open spec fn not_recorded(raw: Seq<char>, fetch: Seq<Seq<char>>) -> Seq<Seq<char>>
    decreases fetch.len(),
{
    if fetch.len() == 0 {
        Seq::empty()
    } else {
        let r = not_recorded(raw, fetch.drop_last());
        if recorded_installed(raw, fetch.last()) {
            r
        } else {
            r.push(fetch.last())
        }
    }
}

/// The packages of `fetch` that the database records, each once, in the
/// order of their first occurrence.
pub open spec fn recorded_once(raw: Seq<char>, fetch: Seq<Seq<char>>) -> Seq<Seq<char>>
    decreases fetch.len(),
{
    if fetch.len() == 0 {
        Seq::empty()
    } else {
        let r = recorded_once(raw, fetch.drop_last());
        if recorded_installed(raw, fetch.last()) && !r.contains(fetch.last()) {
            r.push(fetch.last())
        } else {
            r
        }
    }
}

/// The listing of packages and versions shown before installing:
/// `name (version)` entries separated by `, `.
pub open spec fn listing(names: Seq<Seq<char>>, versions: Seq<Seq<char>>) -> Seq<char>
    decreases names.len(),
{
    if names.len() == 0 {
        Seq::empty()
    } else if names.len() == 1 {
        names[0] + " ("@ + versions[0] + ")"@
    } else {
        listing(names.drop_last(), versions) + ", "@ + names.last() + " ("@ + versions[names.len()
            - 1] + ")"@
    }
}

/// The dependency list the installer gets for each package to fetch: what
/// the last repository table that lists the package gives for it (as the
/// tables merged in order give it), or an empty list.
pub open spec fn own_deps(bt: Seq<DepsView>, fetch: Seq<Seq<char>>) -> Seq<Seq<Seq<char>>> {
    fetch.map_values(
        |p: Seq<char>|
            match lookup_last(bt, p) {
                Some(v) => v,
                None => Seq::<Seq<char>>::empty(),
            },
    )
}

/// A download to make: the archive's URL and the path to store it at.
pub struct DownloadJob {
    pub url: String,
    pub path: String,
}

/// The state of an installation.
pub struct InstallData {
    repoindex: StrMap<String>,
    url_total: Vec<String>,
    pkgindex_total: Vec<StrMap<PkgInfo>>,
    baseon_total: Vec<StrMap<Vec<String>>>,
    pkg_version_index: Vec<String>,
    pkg_sha256sums_index: Vec<String>,
    pkgindex: StrMap<PkgInfo>,
    fetch_index: Vec<String>,
    file_index: Vec<String>,
    workdir_index: Vec<String>,
}

/// A copy of a package index.
pub fn copy_index(m: &StrMap<PkgInfo>) -> (r: StrMap<PkgInfo>)
    ensures
        r@ == m@,
{
    let n = m.len();
    let mut r: StrMap<PkgInfo> = StrMap::new();
    let mut i: usize = 0;
    while i < n
        invariant
            n == m@.len(),
            i <= m@.len(),
            distinct_keys(m@),
            r@ == m@.take(i as int),
        decreases m@.len() - i,
    {
        proof {
            lemma_key_index(m@.take(i as int), m@[i as int].0);
            assert forall|j: int| 0 <= j < i implies m@.take(i as int)[j].0 != m@[i as int].0 by {
                assert(m@.take(i as int)[j] == m@[j]);
            }
        }
        r.insert(m.key_at(i).clone(), m.value_at(i).duplicate());
        assert(m@.take(i + 1) =~= m@.take(i as int).push(m@[i as int]));
        i = i + 1;
    }
    assert(m@.take(m@.len() as int) =~= m@);
    r
}

/// The indexes of a list of repositories.
pub open spec fn indexes(v: Seq<StrMap<PkgInfo>>) -> Seq<IndexView> {
    v.map_values(|m: StrMap<PkgInfo>| m@)
}

impl InstallData {
    /// The repositories read from the configuration.
    pub closed spec fn repos(&self) -> Seq<EntryView<Seq<char>>> {
        self.repoindex@
    }

    /// The URLs of the repositories whose indexes were read, in order.
    pub closed spec fn urls(&self) -> Seq<Seq<char>> {
        views(self.url_total@)
    }

    /// The package indexes read, in order.
    pub closed spec fn index_list(&self) -> Seq<IndexView> {
        indexes(self.pkgindex_total@)
    }

    /// The dependency tables read, in order.
    pub closed spec fn tables(&self) -> Seq<DepsView> {
        tables(self.baseon_total@)
    }

    /// All package indexes merged.
    pub closed spec fn index(&self) -> IndexView {
        self.pkgindex@
    }

    /// The packages to fetch, in order.
    pub closed spec fn fetch_list(&self) -> Seq<Seq<char>> {
        views(self.fetch_index@)
    }

    /// The versions of the packages to fetch.
    pub closed spec fn versions(&self) -> Seq<Seq<char>> {
        views(self.pkg_version_index@)
    }

    /// The expected sums of the packages to fetch.
    pub closed spec fn sums(&self) -> Seq<Seq<char>> {
        views(self.pkg_sha256sums_index@)
    }

    /// The paths of the downloaded archives.
    pub closed spec fn files(&self) -> Seq<Seq<char>> {
        views(self.file_index@)
    }

    /// The directories the archives were extracted to.
    pub closed spec fn workdirs(&self) -> Seq<Seq<char>> {
        views(self.workdir_index@)
    }

    /// An installation that has done nothing yet.
    pub fn new() -> (d: Self)
        ensures
            d.repos() == Seq::<EntryView<Seq<char>>>::empty(),
            d.urls() == Seq::<Seq<char>>::empty(),
            d.index_list() == Seq::<IndexView>::empty(),
            d.tables() == Seq::<DepsView>::empty(),
            d.index() == Seq::<EntryView<PkgInfoView>>::empty(),
            d.fetch_list() == Seq::<Seq<char>>::empty(),
            d.versions() == Seq::<Seq<char>>::empty(),
            d.sums() == Seq::<Seq<char>>::empty(),
            d.files() == Seq::<Seq<char>>::empty(),
            d.workdirs() == Seq::<Seq<char>>::empty(),
    {
        let d = InstallData {
            repoindex: StrMap::new(),
            url_total: Vec::new(),
            pkgindex_total: Vec::new(),
            baseon_total: Vec::new(),
            pkg_version_index: Vec::new(),
            pkg_sha256sums_index: Vec::new(),
            pkgindex: StrMap::new(),
            fetch_index: Vec::new(),
            file_index: Vec::new(),
            workdir_index: Vec::new(),
        };
        assert(d.urls() =~= Seq::<Seq<char>>::empty());
        assert(d.index_list() =~= Seq::<IndexView>::empty());
        assert(d.tables() =~= Seq::<DepsView>::empty());
        assert(d.fetch_list() =~= Seq::<Seq<char>>::empty());
        assert(d.versions() =~= Seq::<Seq<char>>::empty());
        assert(d.sums() =~= Seq::<Seq<char>>::empty());
        assert(d.files() =~= Seq::<Seq<char>>::empty());
        assert(d.workdirs() =~= Seq::<Seq<char>>::empty());
        d
    }

    /// Stage 1: takes the repositories of the configuration and the index
    /// of each (in the configuration's order), merges the package indexes,
    /// and checks that every package asked for is offered. On failure the
    /// first package that no repository offers is handed back.
    pub fn step1_explain_pkg(
        &mut self,
        repoconf: StrMap<String>,
        repo_indexes: Vec<PkgIndex>,
        pkglist: &Vec<String>,
    ) -> (r: Result<(), String>)
        ensures
            final(self).repos() == repoconf@,
            final(self).urls() == old(self).urls() + repo_indexes@.map_values(|x: PkgIndex| x.url@),
            final(self).index_list() == old(self).index_list() + repo_indexes@.map_values(
                |x: PkgIndex| x.pkgindex@,
            ),
            final(self).tables() == old(self).tables() + repo_indexes@.map_values(|x: PkgIndex| x.baseon@),
            final(self).index() == merge_all(final(self).index_list()),
            final(self).fetch_list() == old(self).fetch_list(),
            final(self).versions() == old(self).versions(),
            final(self).sums() == old(self).sums(),
            final(self).files() == old(self).files(),
            final(self).workdirs() == old(self).workdirs(),
            match r {
                Ok(_) => forall|i: int|
                    0 <= i < pkglist@.len() ==> has_key(final(self).index(), #[trigger] pkglist@[i]@),
                Err(p) => exists|i: int|
                    0 <= i < pkglist@.len() && pkglist@[i]@ == p@ && !has_key(final(self).index(), p@)
                        && forall|j: int|
                        0 <= j < i ==> has_key(final(self).index(), #[trigger] pkglist@[j]@),
            },
    {
        self.repoindex = repoconf;
        let ghost u0 = views(self.url_total@);
        let ghost i0 = indexes(self.pkgindex_total@);
        let ghost t0 = tables(self.baseon_total@);
        let ghost src = repo_indexes@;
        let mut rest = repo_indexes;
        let mut taken: Vec<PkgIndex> = Vec::new();
        while rest.len() > 0
            invariant
                rest@ + taken@.reverse() == src,
            decreases rest.len(),
        {
            let ghost r0 = rest@;
            let ghost k0 = taken@;
            let e = rest.pop().unwrap();
            taken.push(e);
            assert(r0 =~= rest@.push(e));
            assert(taken@.reverse() =~= seq![e] + k0.reverse());
            assert(rest@ + taken@.reverse() =~= r0 + k0.reverse());
        }
        assert(taken@.reverse() =~= src);
        let n = taken.len();
        let mut k: usize = 0;
        while taken.len() > 0
            invariant
                n == src.len(),
                taken@.len() + k == n,
                forall|j: int| 0 <= j < taken@.len() ==> #[trigger] taken@[j] == src[n - 1 - j],
                views(self.url_total@) == u0 + src.take(k as int).map_values(|x: PkgIndex| x.url@),
                indexes(self.pkgindex_total@) == i0 + src.take(k as int).map_values(
                    |x: PkgIndex| x.pkgindex@,
                ),
                tables(self.baseon_total@) == t0 + src.take(k as int).map_values(|x: PkgIndex| x.baseon@),
                self.repoindex@ == repoconf@,
                views(self.fetch_index@) == old(self).fetch_list(),
                views(self.pkg_version_index@) == old(self).versions(),
                views(self.pkg_sha256sums_index@) == old(self).sums(),
                views(self.file_index@) == old(self).files(),
                views(self.workdir_index@) == old(self).workdirs(),
            decreases taken.len(),
        {
            let ghost kt = taken@;
            let ix = taken.pop().unwrap();
            assert(ix == src[k as int]);
            assert(src.take(k + 1) =~= src.take(k as int).push(ix));
            let ghost u1 = self.url_total@;
            let ghost p1 = self.pkgindex_total@;
            let ghost b1 = self.baseon_total@;
            self.url_total.push(ix.url);
            self.pkgindex_total.push(ix.pkgindex);
            self.baseon_total.push(ix.baseon);
            assert(views(self.url_total@) =~= views(u1).push(ix.url@));
            assert(indexes(self.pkgindex_total@) =~= indexes(p1).push(ix.pkgindex@));
            assert(tables(self.baseon_total@) =~= tables(b1).push(ix.baseon@));
            assert(src.take(k + 1).map_values(|x: PkgIndex| x.url@) =~= src.take(k as int).map_values(
                |x: PkgIndex| x.url@,
            ).push(ix.url@));
            assert(src.take(k + 1).map_values(|x: PkgIndex| x.pkgindex@) =~= src.take(
                k as int,
            ).map_values(|x: PkgIndex| x.pkgindex@).push(ix.pkgindex@));
            assert(src.take(k + 1).map_values(|x: PkgIndex| x.baseon@) =~= src.take(k as int).map_values(
                |x: PkgIndex| x.baseon@,
            ).push(ix.baseon@));
            k = k + 1;
            assert(forall|j: int| 0 <= j < taken@.len() ==> taken@[j] == kt[j]);
        }
        assert(src.take(n as int) =~= src);
        // Merge the package indexes.
        let mut merged: StrMap<PkgInfo> = StrMap::new();
        let ghost all = indexes(self.pkgindex_total@);
        let mut i: usize = 0;
        while i < self.pkgindex_total.len()
            invariant
                i <= self.pkgindex_total@.len(),
                all == indexes(self.pkgindex_total@),
                merged@ == merge_all(all.take(i as int)),
            decreases self.pkgindex_total@.len() - i,
        {
            assert(all.take(i + 1).drop_last() =~= all.take(i as int));
            let c = copy_index(&self.pkgindex_total[i]);
            merged.extend(c);
            i = i + 1;
        }
        assert(all.take(self.pkgindex_total@.len() as int) =~= all);
        self.pkgindex = merged;
        // Every package asked for must be offered.
        match first_missing(&self.pkgindex, pkglist) {
            Some(j) => Err(pkglist[j].clone()),
            None => Ok(()),
        }
    }

    /// Stage 2: resolves the dependencies of the packages asked for and
    /// extends the fetch list as `resolve` describes.
    pub fn step2_check_deps(&mut self, pkglist: &Vec<String>) -> (r: Result<(), DepError>)
        ensures
            match resolve(old(self).index(), old(self).tables(), views(pkglist@), old(self).fetch_list()) {
                Ok(f) => r is Ok && final(self).fetch_list() == f,
                Err(e) => r matches Err(x) && dep_error_view(x) == e,
            },
            final(self).repos() == old(self).repos(),
            final(self).urls() == old(self).urls(),
            final(self).index_list() == old(self).index_list(),
            final(self).tables() == old(self).tables(),
            final(self).index() == old(self).index(),
            final(self).versions() == old(self).versions(),
            final(self).sums() == old(self).sums(),
            final(self).files() == old(self).files(),
            final(self).workdirs() == old(self).workdirs(),
    {
        resolve_fetch(&self.pkgindex, &self.baseon_total, pkglist, &mut self.fetch_index)
    }

    /// Stage 3: unless reinstalling, takes every package that the
    /// installed-package database `installed_raw` records out of the fetch
    /// list, and hands back the packages so skipped, each once.
    pub fn step3_check_installed(&mut self, installed_raw: &str, reinstall: bool) -> (skipped: Vec<
        String,
    >)
        ensures
            reinstall ==> final(self).fetch_list() == old(self).fetch_list() && skipped@.len() == 0,
            !reinstall ==> final(self).fetch_list() == not_recorded(installed_raw@, old(self).fetch_list())
                && views(skipped@) == recorded_once(installed_raw@, old(self).fetch_list()),
            final(self).repos() == old(self).repos(),
            final(self).urls() == old(self).urls(),
            final(self).index_list() == old(self).index_list(),
            final(self).tables() == old(self).tables(),
            final(self).index() == old(self).index(),
            final(self).versions() == old(self).versions(),
            final(self).sums() == old(self).sums(),
            final(self).files() == old(self).files(),
            final(self).workdirs() == old(self).workdirs(),
    {
        let mut skipped: Vec<String> = Vec::new();
        if reinstall {
            return skipped;
        }
        let lines = split_char(installed_raw, '\n');
        let ghost lv = views(lines@);
        assert(lv =~= split_on(installed_raw@, '\n'));
        let ghost f0 = views(self.fetch_index@);
        let mut kept: Vec<String> = Vec::new();
        let mut i: usize = 0;
        while i < self.fetch_index.len()
            invariant
                i <= self.fetch_index@.len(),
                f0 == views(self.fetch_index@),
                lv == views(lines@),
                lv == split_on(installed_raw@, '\n'),
                views(kept@) == not_recorded(installed_raw@, f0.take(i as int)),
                views(skipped@) == recorded_once(installed_raw@, f0.take(i as int)),
            decreases self.fetch_index@.len() - i,
        {
            assert(f0.take(i + 1).drop_last() =~= f0.take(i as int));
            let pkg = &self.fetch_index[i];
            let line = concat3("[", pkg.as_str(), "]");
            let mut found = false;
            let mut j: usize = 0;
            while j < lines.len()
                invariant
                    j <= lines@.len(),
                    lv == views(lines@),
                    line@ == installed_line(pkg@),
                    found == exists|q: int| 0 <= q < j && #[trigger] lv[q] == line@,
                decreases lines@.len() - j,
            {
                if str_eq(lines[j].as_str(), line.as_str()) {
                    found = true;
                    assert(lv[j as int] == line@);
                }
                j = j + 1;
            }
            assert(found == lv.contains(line@));
            if found {
                if !crate::removal::contains_name(&skipped, pkg.as_str()) {
                    let c = pkg.clone();
                    proof {
                        crate::types::lemma_views_push(skipped@, c);
                    }
                    skipped.push(c);
                }
            } else {
                let c = pkg.clone();
                proof {
                    crate::types::lemma_views_push(kept@, c);
                }
                kept.push(c);
            }
            i = i + 1;
        }
        assert(f0.take(self.fetch_index@.len() as int) =~= f0);
        self.fetch_index = kept;
        skipped
    }

    /// Whether every package to fetch is in the merged index: what the
    /// listing of stage 4 needs.
    pub fn fetch_list_indexed(&self) -> (b: bool)
        ensures
            b == forall|i: int|
                0 <= i < self.fetch_list().len() ==> has_key(self.index(), #[trigger] self.fetch_list()[i]),
    {
        let mut i: usize = 0;
        while i < self.fetch_index.len()
            invariant
                i <= self.fetch_index@.len(),
                forall|q: int| 0 <= q < i ==> has_key(self.pkgindex@, #[trigger] views(self.fetch_index@)[q]),
            decreases self.fetch_index@.len() - i,
        {
            if !self.pkgindex.contains_key(self.fetch_index[i].as_str()) {
                assert(views(self.fetch_index@)[i as int] == self.fetch_index@[i as int]@);
                assert(!has_key(self.index(), self.fetch_list()[i as int]));
                return false;
            }
            i = i + 1;
        }
        true
    }

    /// Whether every package to fetch is in the merged index and there is
    /// a repository URL to fetch from: what stage 4 needs.
    pub fn ready_to_download(&self) -> (b: bool)
        ensures
            b == (self.urls().len() > 0 && forall|i: int|
                0 <= i < self.fetch_list().len() ==> has_key(self.index(), #[trigger] self.fetch_list()[i])),
    {
        if self.url_total.len() == 0 {
            return false;
        }
        let mut i: usize = 0;
        while i < self.fetch_index.len()
            invariant
                i <= self.fetch_index@.len(),
                forall|q: int| 0 <= q < i ==> has_key(self.pkgindex@, #[trigger] views(self.fetch_index@)[q]),
            decreases self.fetch_index@.len() - i,
        {
            if !self.pkgindex.contains_key(self.fetch_index[i].as_str()) {
                assert(views(self.fetch_index@)[i as int] == self.fetch_index@[i as int]@);
                assert(!has_key(self.index(), self.fetch_list()[i as int]));
                return false;
            }
            i = i + 1;
        }
        true
    }

    /// Stage 4, before asking: records the version and the expected sum of
    /// every package to fetch, and hands back the listing shown to the user.
    /// Fails when nothing is left to install.
    pub fn step4_prepare(&mut self) -> (r: Option<String>)
        requires
            forall|i: int|
                0 <= i < old(self).fetch_list().len() ==> has_key(
                    old(self).index(),
                    #[trigger] old(self).fetch_list()[i],
                ),
        ensures
            old(self).fetch_list().len() == 0 ==> r is None && final(self).versions() == old(self).versions()
                && final(self).sums() == old(self).sums(),
            old(self).fetch_list().len() > 0 ==> ({
                let f = old(self).fetch_list();
                let vs = Seq::new(f.len(), |i: int| lookup(old(self).index(), f[i]).unwrap().version);
                let ss = Seq::new(f.len(), |i: int| lookup(old(self).index(), f[i]).unwrap().sha256sums);
                &&& final(self).versions() == old(self).versions() + vs
                &&& final(self).sums() == old(self).sums() + ss
                &&& r matches Some(l) && l@ == listing(f, vs)
            }),
            final(self).repos() == old(self).repos(),
            final(self).urls() == old(self).urls(),
            final(self).index_list() == old(self).index_list(),
            final(self).tables() == old(self).tables(),
            final(self).index() == old(self).index(),
            final(self).fetch_list() == old(self).fetch_list(),
            final(self).files() == old(self).files(),
            final(self).workdirs() == old(self).workdirs(),
    {
        let n = self.fetch_index.len();
        if n == 0 {
            return None;
        }
        let ghost f = views(self.fetch_index@);
        let ghost ix = self.pkgindex@;
        let ghost vs = Seq::new(f.len(), |i: int| lookup(ix, f[i]).unwrap().version);
        let ghost ss = Seq::new(f.len(), |i: int| lookup(ix, f[i]).unwrap().sha256sums);
        let ghost v0 = views(self.pkg_version_index@);
        let ghost s0 = views(self.pkg_sha256sums_index@);
        assert(f == old(self).fetch_list());
        assert(forall|q: int| 0 <= q < f.len() ==> has_key(ix, #[trigger] f[q]));
        let mut text = String::new();
        let mut i: usize = 0;
        while i < n
            invariant
                i <= n,
                n == f.len(),
                f == views(self.fetch_index@),
                ix == self.pkgindex@,
                forall|q: int| 0 <= q < f.len() ==> has_key(ix, #[trigger] f[q]),
                vs == Seq::new(f.len(), |i: int| lookup(ix, f[i]).unwrap().version),
                ss == Seq::new(f.len(), |i: int| lookup(ix, f[i]).unwrap().sha256sums),
                views(self.pkg_version_index@) == v0 + vs.take(i as int),
                views(self.pkg_sha256sums_index@) == s0 + ss.take(i as int),
                text@ == listing(f.take(i as int), vs),
                views(self.url_total@) == old(self).urls(),
                indexes(self.pkgindex_total@) == old(self).index_list(),
                tables(self.baseon_total@) == old(self).tables(),
                self.repoindex@ == old(self).repos(),
                views(self.file_index@) == old(self).files(),
                views(self.workdir_index@) == old(self).workdirs(),
            decreases n - i,
        {
            let pkg = &self.fetch_index[i];
            let info = match self.pkgindex.get(pkg.as_str()) {
                Some(info) => info,
                None => {
                    assert(has_key(ix, f[i as int]));
                    return None;
                },
            };
            let version = info.version.clone();
            let sums = info.sha256sums.clone();
            let ghost vi = views(self.pkg_version_index@);
            let ghost si = views(self.pkg_sha256sums_index@);
            proof {
                crate::types::lemma_views_push(self.pkg_version_index@, version);
                crate::types::lemma_views_push(self.pkg_sha256sums_index@, sums);
            }
            self.pkg_version_index.push(version.clone());
            self.pkg_sha256sums_index.push(sums);
            assert(vs.take(i + 1) =~= vs.take(i as int).push(vs[i as int]));
            assert(ss.take(i + 1) =~= ss.take(i as int).push(ss[i as int]));
            assert(f.take(i + 1).drop_last() =~= f.take(i as int));
            assert(f.take(i + 1).last() == pkg@);
            if i > 0 {
                text.append(", ");
            } else {
                assert(f.take(0) =~= Seq::<Seq<char>>::empty());
            }
            text.append(pkg.as_str());
            text.append(" (");
            text.append(version.as_str());
            text.append(")");
            assert(text@ =~= listing(f.take(i + 1), vs));
            i = i + 1;
        }
        assert(f.take(n as int) =~= f);
        assert(vs.take(n as int) =~= vs);
        assert(ss.take(n as int) =~= ss);
        Some(text)
    }

    /// Stage 4, after the user agreed: the downloads to make, one per
    /// package to fetch, each from `<first repository URL>/<package>/<archive>`
    /// to `/var/cache/mcospkg/<archive>`. The paths are recorded as the
    /// archives of the packages.
    pub fn step4_download_plan(&mut self) -> (jobs: Vec<DownloadJob>)
        requires
            old(self).urls().len() > 0,
            forall|i: int|
                0 <= i < old(self).fetch_list().len() ==> has_key(
                    old(self).index(),
                    #[trigger] old(self).fetch_list()[i],
                ),
        ensures
            jobs@.len() == old(self).fetch_list().len(),
            forall|i: int|
                0 <= i < jobs@.len() ==> {
                    let p = old(self).fetch_list()[i];
                    let file = lookup(old(self).index(), p).unwrap().filename;
                    &&& (#[trigger] jobs@[i]).url@ == old(self).urls()[0] + "/"@ + p + "/"@ + file
                    &&& jobs@[i].path@ == cache_dir() + "/"@ + file
                },
            final(self).files() == old(self).files() + jobs@.map_values(|j: DownloadJob| j.path@),
            final(self).repos() == old(self).repos(),
            final(self).urls() == old(self).urls(),
            final(self).index_list() == old(self).index_list(),
            final(self).tables() == old(self).tables(),
            final(self).index() == old(self).index(),
            final(self).fetch_list() == old(self).fetch_list(),
            final(self).versions() == old(self).versions(),
            final(self).sums() == old(self).sums(),
            final(self).workdirs() == old(self).workdirs(),
    {
        let ghost f = views(self.fetch_index@);
        let ghost ix = self.pkgindex@;
        let ghost files0 = views(self.file_index@);
        let mut jobs: Vec<DownloadJob> = Vec::new();
        let mut i: usize = 0;
        while i < self.fetch_index.len()
            invariant
                i <= self.fetch_index@.len(),
                f == views(self.fetch_index@),
                ix == self.pkgindex@,
                self.url_total@.len() > 0,
                forall|q: int| 0 <= q < f.len() ==> has_key(ix, #[trigger] f[q]),
                jobs@.len() == i,
                forall|q: int|
                    0 <= q < i ==> {
                        let p = f[q];
                        let file = lookup(ix, p).unwrap().filename;
                        &&& (#[trigger] jobs@[q]).url@ == views(self.url_total@)[0] + "/"@ + p + "/"@
                            + file
                        &&& jobs@[q].path@ == cache_dir() + "/"@ + file
                    },
                views(self.file_index@) == files0 + jobs@.map_values(|j: DownloadJob| j.path@),
                views(self.url_total@) == old(self).urls(),
                indexes(self.pkgindex_total@) == old(self).index_list(),
                tables(self.baseon_total@) == old(self).tables(),
                self.repoindex@ == old(self).repos(),
                views(self.pkg_version_index@) == old(self).versions(),
                views(self.pkg_sha256sums_index@) == old(self).sums(),
                views(self.workdir_index@) == old(self).workdirs(),
            decreases self.fetch_index@.len() - i,
        {
            let pkg = &self.fetch_index[i];
            let info = match self.pkgindex.get(pkg.as_str()) {
                Some(info) => info,
                None => {
                    assert(has_key(ix, f[i as int]));
                    return jobs;
                },
            };
            let mut url = concat3(self.url_total[0].as_str(), "/", pkg.as_str());
            url.append("/");
            url.append(info.filename.as_str());
            let path = concat3("/var/cache/mcospkg", "/", info.filename.as_str());
            let ghost fi = self.file_index@;
            let ghost j0 = jobs@;
            proof {
                crate::types::lemma_views_push(self.file_index@, path);
            }
            self.file_index.push(path.clone());
            jobs.push(DownloadJob { url, path });
            assert(jobs@.map_values(|j: DownloadJob| j.path@) =~= j0.map_values(|j: DownloadJob| j.path@).push(
                path@,
            ));
            i = i + 1;
        }
        jobs
    }

    /// Stage 5: the archives to check, each with its expected sum, pairing
    /// the recorded sums with the packages to fetch in order.
    pub fn step5_checks(&self) -> (checks: Vec<(String, String, String)>)
        requires
            forall|i: int|
                0 <= i < self.fetch_list().len() ==> has_key(self.index(), #[trigger] self.fetch_list()[i]),
        ensures
            checks@.len() == if self.sums().len() <= self.fetch_list().len() {
                self.sums().len()
            } else {
                self.fetch_list().len()
            },
            forall|i: int|
                0 <= i < checks@.len() ==> {
                    let p = self.fetch_list()[i];
                    &&& (#[trigger] checks@[i]).0@ == p
                    &&& checks@[i].1@ == cache_dir() + "/"@ + lookup(self.index(), p).unwrap().filename
                    &&& checks@[i].2@ == self.sums()[i]
                },
    {
        let n = if self.pkg_sha256sums_index.len() <= self.fetch_index.len() {
            self.pkg_sha256sums_index.len()
        } else {
            self.fetch_index.len()
        };
        let ghost f = views(self.fetch_index@);
        let mut checks: Vec<(String, String, String)> = Vec::new();
        let mut i: usize = 0;
        while i < n
            invariant
                i <= n,
                n <= self.fetch_index@.len(),
                n <= self.pkg_sha256sums_index@.len(),
                f == views(self.fetch_index@),
                forall|q: int| 0 <= q < f.len() ==> has_key(self.pkgindex@, #[trigger] f[q]),
                checks@.len() == i,
                forall|q: int|
                    0 <= q < i ==> {
                        let p = f[q];
                        &&& (#[trigger] checks@[q]).0@ == p
                        &&& checks@[q].1@ == cache_dir() + "/"@ + lookup(self.pkgindex@, p).unwrap().filename
                        &&& checks@[q].2@ == views(self.pkg_sha256sums_index@)[q]
                    },
            decreases n - i,
        {
            let pkg = &self.fetch_index[i];
            let info = match self.pkgindex.get(pkg.as_str()) {
                Some(info) => info,
                None => {
                    assert(has_key(self.pkgindex@, f[i as int]));
                    return checks;
                },
            };
            let path = concat3("/var/cache/mcospkg", "/", info.filename.as_str());
            checks.push((pkg.clone(), path, self.pkg_sha256sums_index[i].clone()));
            i = i + 1;
        }
        checks
    }

    /// Stage 6: records the directory an archive was extracted to.
    pub fn step6_record_workdir(&mut self, workdir: String)
        ensures
            final(self).workdirs() == old(self).workdirs().push(workdir@),
            final(self).repos() == old(self).repos(),
            final(self).urls() == old(self).urls(),
            final(self).index_list() == old(self).index_list(),
            final(self).tables() == old(self).tables(),
            final(self).index() == old(self).index(),
            final(self).fetch_list() == old(self).fetch_list(),
            final(self).versions() == old(self).versions(),
            final(self).sums() == old(self).sums(),
            final(self).files() == old(self).files(),
    {
        proof {
            crate::types::lemma_views_push(self.workdir_index@, workdir);
        }
        self.workdir_index.push(workdir);
    }

    /// The packages to fetch paired with their archives, as stage 6
    /// extracts them.
    pub fn step6_archives(&self) -> (pairs: Vec<(String, String)>)
        ensures
            pairs@.len() == if self.fetch_list().len() <= self.files().len() {
                self.fetch_list().len()
            } else {
                self.files().len()
            },
            forall|i: int|
                0 <= i < pairs@.len() ==> (#[trigger] pairs@[i]).0@ == self.fetch_list()[i]
                    && pairs@[i].1@ == self.files()[i],
    {
        let n = if self.fetch_index.len() <= self.file_index.len() {
            self.fetch_index.len()
        } else {
            self.file_index.len()
        };
        let mut pairs: Vec<(String, String)> = Vec::new();
        let mut i: usize = 0;
        while i < n
            invariant
                i <= n,
                n <= self.fetch_index@.len(),
                n <= self.file_index@.len(),
                pairs@.len() == i,
                forall|q: int|
                    0 <= q < i ==> (#[trigger] pairs@[q]).0@ == self.fetch_index@[q]@ && pairs@[q].1@
                        == self.file_index@[q]@,
            decreases n - i,
        {
            pairs.push((self.fetch_index[i].clone(), self.file_index[i].clone()));
            i = i + 1;
        }
        pairs
    }

    /// Stage 7: the packages handed to the installer, made from the
    /// packages to fetch, their archives, their own dependency lists (see
    /// `own_deps`) and their versions, with the directories they were
    /// extracted to.
    pub fn step7_install(&self) -> (r: (Vec<Package>, Vec<String>))
        ensures
            ({
                let deps = own_deps(self.tables(), self.fetch_list());
                let n = crate::types::min4(
                    self.fetch_list().len(),
                    self.files().len(),
                    self.fetch_list().len(),
                    self.versions().len(),
                );
                &&& r.0@.len() == n
                &&& forall|i: int|
                    0 <= i < n ==> #[trigger] r.0@[i]@ == (PackageView {
                        id: self.fetch_list()[i],
                        path: self.files()[i],
                        dependencies: deps[i],
                        version: self.versions()[i],
                    })
                &&& views(r.1@) == self.workdirs()
            }),
    {
        let ghost t = tables(self.baseon_total@);
        let ghost f = views(self.fetch_index@);
        let ghost od = own_deps(t, f);
        let mut dependencies: Vec<Vec<String>> = Vec::new();
        let mut i: usize = 0;
        while i < self.fetch_index.len()
            invariant
                i <= self.fetch_index@.len(),
                t == tables(self.baseon_total@),
                f == views(self.fetch_index@),
                od == own_deps(t, f),
                dependencies@.len() == i,
                forall|q: int| 0 <= q < i ==> views((#[trigger] dependencies@[q])@) == od[q],
            decreases self.fetch_index@.len() - i,
        {
            let item: Vec<String> = match lookup_in_tables(&self.baseon_total, self.fetch_index[i].as_str()) {
                Some(deps) => clone_strings(deps),
                None => Vec::new(),
            };
            assert(views(item@) == od[i as int]) by {
                assert(f[i as int] == self.fetch_index@[i as int]@);
                if views(item@).len() == 0 {
                    assert(views(item@) =~= Seq::<Seq<char>>::empty());
                }
            }
            dependencies.push(item);
            i = i + 1;
        }
        let packages = Package::from_vec(
            clone_strings(&self.fetch_index),
            clone_strings(&self.file_index),
            dependencies,
            clone_strings(&self.pkg_version_index),
        );
        (packages, clone_strings(&self.workdir_index))
    }
}

/// A later repository's index overrides an earlier one: in the merged
/// index, a package has the entry of the last repository that offers it,
/// and no entry when none does.
pub proof fn law_later_repository_wins(ms: Seq<IndexView>, k: Seq<char>)
    ensures
        lookup(merge_all(ms), k) == lookup_last(ms, k),
        distinct_keys(merge_all(ms)),
    decreases ms.len(),
{
    if ms.len() > 0 {
        let pre = ms.drop_last();
        law_later_repository_wins(pre, k);
        lemma_lookup_upsert_all(merge_all(pre), ms.last(), k);
        lemma_upsert_all_distinct(merge_all(pre), ms.last());
    }
}

/// Installed packages are not fetched again: unless reinstalling, no
/// package left to fetch is recorded as installed, every package reported
/// as skipped is recorded as installed, and every package that was to be
/// fetched is either still to be fetched or reported as skipped.
pub proof fn law_installed_packages_are_skipped(raw: Seq<char>, fetch: Seq<Seq<char>>)
    ensures
        forall|i: int|
            0 <= i < not_recorded(raw, fetch).len() ==> !recorded_installed(
                raw,
                #[trigger] not_recorded(raw, fetch)[i],
            ),
        forall|i: int|
            0 <= i < recorded_once(raw, fetch).len() ==> recorded_installed(
                raw,
                #[trigger] recorded_once(raw, fetch)[i],
            ),
        forall|p: Seq<char>|
            #[trigger] fetch.contains(p) ==> not_recorded(raw, fetch).contains(p) || recorded_once(
                raw,
                fetch,
            ).contains(p),
    decreases fetch.len(),
{
    if fetch.len() > 0 {
        let pre = fetch.drop_last();
        law_installed_packages_are_skipped(raw, pre);
        let kept = not_recorded(raw, pre);
        let skipped = recorded_once(raw, pre);
        assert forall|p: Seq<char>| #[trigger] fetch.contains(p) implies not_recorded(
            raw,
            fetch,
        ).contains(p) || recorded_once(raw, fetch).contains(p) by {
            let k = choose|k: int| 0 <= k < fetch.len() && fetch[k] == p;
            if k < fetch.len() - 1 {
                assert(pre[k] == p);
                assert(pre.contains(p));
                if kept.contains(p) {
                    let m = choose|m: int| 0 <= m < kept.len() && kept[m] == p;
                    assert(not_recorded(raw, fetch)[m] == p);
                } else {
                    let m = choose|m: int| 0 <= m < skipped.len() && skipped[m] == p;
                    assert(recorded_once(raw, fetch)[m] == p);
                }
            } else {
                if recorded_installed(raw, p) {
                    if !skipped.contains(p) {
                        assert(recorded_once(raw, fetch).last() == p);
                    }
                } else {
                    assert(not_recorded(raw, fetch).last() == p);
                }
            }
        }
    }
}

/// The position of the first package of `pkglist` that `index` lacks.
pub fn first_missing(index: &StrMap<PkgInfo>, pkglist: &Vec<String>) -> (r: Option<usize>)
    ensures
        match r {
            Some(i) => i < pkglist@.len() && !has_key(index@, pkglist@[i as int]@) && forall|j: int|
                0 <= j < i ==> has_key(index@, #[trigger] pkglist@[j]@),
            None => forall|j: int| 0 <= j < pkglist@.len() ==> has_key(index@, #[trigger] pkglist@[j]@),
        },
{
    let mut j: usize = 0;
    while j < pkglist.len()
        invariant
            j <= pkglist@.len(),
            forall|q: int| 0 <= q < j ==> has_key(index@, #[trigger] pkglist@[q]@),
        decreases pkglist@.len() - j,
    {
        if !index.contains_key(pkglist[j].as_str()) {
            return Some(j);
        }
        j = j + 1;
    }
    None
}

/// Whether the user's answer agrees: only `y` or `Y` does.
pub fn user_confirmed(input: &str) -> (b: bool)
    ensures
        b == (input@ == "y"@ || input@ == "Y"@),
{
    str_eq(input, "y") || str_eq(input, "Y")
}

/// Whether an archive's contents have the expected SHA-256 sum.
pub fn check_sum(expected: &str, contents: &[u8]) -> (b: bool)
    ensures
        b == (crate::checksum::sha256_hex(contents@) == expected@),
{
    sha256_hex_matches(expected, contents)
}

} // verus!
