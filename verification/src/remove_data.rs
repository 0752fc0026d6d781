//! The state of a removal as it goes through its steps: reading the
//! database of installed packages, working out what the removal takes
//! along, listing it for the user, and handing it to the remover.
use vstd::prelude::*;

use crate::removal::{
    empty_walk, not_installed, pair_views, removal_dependencies, visit_all, DbView, RemovalError,
};
use crate::strmap::StrMap;
use crate::types::{clone_strings, views, PkgInfoToml};

verus! {

/// The names each followed by one space, as the removal listing shows
/// them.
pub open spec fn spaced(names: Seq<Seq<char>>) -> Seq<char>
    decreases names.len(),
{
    if names.len() == 0 {
        Seq::empty()
    } else {
        spaced(names.drop_last()) + names.last() + " "@
    }
}

/// The state of a removal.
pub struct RemoveData {
    delete_pkgs: Vec<String>,
    package: StrMap<PkgInfoToml>,
}

impl RemoveData {
    /// The packages to remove, in order.
    pub closed spec fn to_remove(&self) -> Seq<Seq<char>> {
        views(self.delete_pkgs@)
    }

    /// The database of installed packages that the removal works from.
    pub closed spec fn database(&self) -> DbView {
        self.package@
    }

    /// A removal that has done nothing yet.
    pub fn new() -> (d: Self)
        ensures
            d.to_remove() == Seq::<Seq<char>>::empty(),
            d.database() == Seq::<crate::strmap::EntryView<crate::types::PkgInfoTomlView>>::empty(),
    {
        let d = RemoveData { delete_pkgs: Vec::new(), package: StrMap::new() };
        assert(d.to_remove() =~= Seq::<Seq<char>>::empty());
        d
    }

    /// Stage 1: takes the database of installed packages.
    pub fn step1_explain_pkg(&mut self, installed: StrMap<PkgInfoToml>)
        ensures
            final(self).database() == installed@,
            final(self).to_remove() == old(self).to_remove(),
    {
        self.package = installed;
    }

    /// Stage 2: works out what removing `pkglist` takes along (see
    /// `removal_dependencies`); on success the packages asked for, then
    /// those taken along, are added to the packages to remove.
    pub fn step2_check_deps(&mut self, pkglist: Vec<String>) -> (r: Result<(), RemovalError>)
        ensures
            final(self).database() == old(self).database(),
            ({
                let db = old(self).database();
                let missing = not_installed(db, views(pkglist@));
                let w = visit_all(db, views(pkglist@), empty_walk());
                if missing.len() > 0 {
                    &&& r matches Err(RemovalError::NotInstalled(m)) && views(m@) == missing
                    &&& final(self).to_remove() == old(self).to_remove()
                } else if w.broken.len() > 0 {
                    &&& r matches Err(RemovalError::InvalidDependencies(b)) && pair_views(b@) == w.broken
                    &&& final(self).to_remove() == old(self).to_remove()
                } else {
                    &&& r is Ok
                    &&& final(self).to_remove() == old(self).to_remove() + views(pkglist@) + w.order
                }
            }),
    {
        match removal_dependencies(&self.package, &pkglist) {
            Err(e) => Err(e),
            Ok(deps) => {
                let ghost d0 = views(self.delete_pkgs@);
                let mut all = pkglist;
                let mut more = deps;
                let ghost a0 = views(all@);
                let ghost m0 = views(more@);
                all.append(&mut more);
                assert(views(all@) =~= a0 + m0);
                let mut mine = clone_strings(&self.delete_pkgs);
                mine.append(&mut all);
                assert(views(mine@) =~= d0 + (a0 + m0));
                self.delete_pkgs = mine;
                Ok(())
            },
        }
    }

    /// Stage 3: the listing shown before asking the user.
    pub fn step3_ask_user(&self) -> (listing: String)
        ensures
            listing@ == spaced(self.to_remove()),
    {
        let ghost names = views(self.delete_pkgs@);
        let mut text = String::new();
        let mut i: usize = 0;
        while i < self.delete_pkgs.len()
            invariant
                i <= self.delete_pkgs@.len(),
                names == views(self.delete_pkgs@),
                text@ == spaced(names.take(i as int)),
            decreases self.delete_pkgs@.len() - i,
        {
            assert(names.take(i + 1).drop_last() =~= names.take(i as int));
            text.append(self.delete_pkgs[i].as_str());
            text.append(" ");
            i = i + 1;
        }
        assert(names.take(self.delete_pkgs@.len() as int) =~= names);
        text
    }

    /// Stage 4: the packages handed to the remover, in order.
    pub fn step4_remove(&self) -> (packages: Vec<String>)
        ensures
            views(packages@) == self.to_remove(),
    {
        clone_strings(&self.delete_pkgs)
    }
}

} // verus!
