//! The state of `mcospkg-mirror update`: the configured repositories and
//! the downloads of their indexes.
use vstd::prelude::*;

use crate::config::{repo_index_path, repo_index_url};
use crate::strmap::{keys_of, EntryView, StrMap};
use crate::types::views;

verus! {

/// A repository index to download: from `url` to `path`, shown with
/// `message`.
pub struct IndexDownload {
    pub url: String,
    pub path: String,
    pub message: String,
}

/// The state of an update of the repository indexes.
pub struct UpdateData {
    repoindex: StrMap<String>,
    repo_msgs: Vec<String>,
}

impl UpdateData {
    /// The configured repositories.
    pub closed spec fn repos(&self) -> Seq<EntryView<Seq<char>>> {
        self.repoindex@
    }

    /// The messages shown while downloading.
    pub closed spec fn messages(&self) -> Seq<Seq<char>> {
        views(self.repo_msgs@)
    }

    /// An update that has done nothing yet.
    pub fn new() -> (d: Self)
        ensures
            d.repos() == Seq::<EntryView<Seq<char>>>::empty(),
            d.messages() == Seq::<Seq<char>>::empty(),
    {
        let d = UpdateData { repoindex: StrMap::new(), repo_msgs: Vec::new() };
        assert(d.messages() =~= Seq::<Seq<char>>::empty());
        d
    }

    /// Step 1: takes the configured repositories.
    pub fn step1_readcfg(&mut self, repoconf: StrMap<String>)
        ensures
            final(self).repos() == repoconf@,
            final(self).messages() == old(self).messages(),
    {
        self.repoindex = repoconf;
    }

    /// Step 2: one message per repository, its name.
    pub fn step2_fill_msgs(&mut self)
        ensures
            final(self).repos() == old(self).repos(),
            final(self).messages() == old(self).messages() + keys_of(old(self).repos()),
    {
        let ghost m0 = views(self.repo_msgs@);
        let mut names = self.repoindex.keys();
        assert(views(names@) =~= names@.map_values(|s: String| s@));
        self.repo_msgs.append(&mut names);
        assert(views(self.repo_msgs@) =~= m0 + keys_of(self.repoindex@));
    }

    /// Step 4: the downloads, pairing each repository with its message:
    /// `<url>/PKGINDEX.json` to `/etc/mcospkg/database/remote/<name>.json`.
    pub fn step4_download_index(&self) -> (jobs: Vec<IndexDownload>)
        ensures
            jobs@.len() == if self.repos().len() <= self.messages().len() {
                self.repos().len()
            } else {
                self.messages().len()
            },
            forall|i: int|
                0 <= i < jobs@.len() ==> {
                    &&& (#[trigger] jobs@[i]).url@ == self.repos()[i].1 + "/PKGINDEX.json"@
                    &&& jobs@[i].path@ == "/etc/mcospkg/database/remote/"@ + self.repos()[i].0
                        + ".json"@
                    &&& jobs@[i].message@ == self.messages()[i]
                },
    {
        let n = if self.repoindex.len() <= self.repo_msgs.len() {
            self.repoindex.len()
        } else {
            self.repo_msgs.len()
        };
        let mut jobs: Vec<IndexDownload> = Vec::new();
        let mut i: usize = 0;
        while i < n
            invariant
                i <= n,
                n <= self.repoindex@.len(),
                n <= self.repo_msgs@.len(),
                jobs@.len() == i,
                forall|q: int|
                    0 <= q < i ==> {
                        &&& (#[trigger] jobs@[q]).url@ == self.repoindex@[q].1 + "/PKGINDEX.json"@
                        &&& jobs@[q].path@ == "/etc/mcospkg/database/remote/"@ + self.repoindex@[q].0
                            + ".json"@
                        &&& jobs@[q].message@ == self.repo_msgs@[q]@
                    },
            decreases n - i,
        {
            let url = repo_index_url(self.repoindex.value_at(i).as_str());
            let path = repo_index_path(self.repoindex.key_at(i).as_str());
            jobs.push(IndexDownload { url, path, message: self.repo_msgs[i].clone() });
            i = i + 1;
        }
        jobs
    }
}

} // verus!
