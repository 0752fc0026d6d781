//! Preset configuration: a configuration directory and the repositories
//! its `repo.conf` names, read as alternating names and URLs.
use vstd::prelude::*;

use crate::text::{chars_of, concat2, concat3, lines, lines_of, owned, split_char, split_on, string_of_range};
use crate::types::{clone_strings, views};

verus! {

/// `char::is_whitespace`: the characters with Unicode's `White_Space`
/// property.
pub open spec fn is_whitespace(c: char) -> bool {
    let v = c as u32;
    (0x9 <= v <= 0xD) || v == 0x20 || v == 0x85 || v == 0xA0 || v == 0x1680 || (0x2000 <= v
        <= 0x200A) || v == 0x2028 || v == 0x2029 || v == 0x202F || v == 0x205F || v == 0x3000
}

/// `s` without leading whitespace.
pub open spec fn trim_start(s: Seq<char>) -> Seq<char>
    decreases s.len(),
{
    if s.len() > 0 && is_whitespace(s[0]) {
        trim_start(s.drop_first())
    } else {
        s
    }
}

/// `s` without trailing whitespace.
pub open spec fn trim_end(s: Seq<char>) -> Seq<char>
    decreases s.len(),
{
    if s.len() > 0 && is_whitespace(s.last()) {
        trim_end(s.drop_last())
    } else {
        s
    }
}

/// `str::trim`: `s` without leading and trailing whitespace.
pub open spec fn trimmed(s: Seq<char>) -> Seq<char> {
    trim_end(trim_start(s))
}

/// Whether `c` is whitespace (`char::is_whitespace`).
pub fn whitespace(c: char) -> (b: bool)
    ensures
        b == is_whitespace(c),
{
    let v = c as u32;
    (0x9 <= v && v <= 0xD) || v == 0x20 || v == 0x85 || v == 0xA0 || v == 0x1680 || (0x2000 <= v
        && v <= 0x200A) || v == 0x2028 || v == 0x2029 || v == 0x202F || v == 0x205F || v == 0x3000
}

/// `s` without leading and trailing whitespace (`str::trim`).
pub fn trim(s: &str) -> (r: String)
    ensures
        r@ == trimmed(s@),
{
    let cs = chars_of(s);
    assert(cs@.subrange(0, cs.len() as int) =~= s@);
    let mut lo: usize = 0;
    while lo < cs.len() && whitespace(cs[lo])
        invariant
            lo <= cs.len(),
            cs@ == s@,
            trim_start(s@) == trim_start(cs@.subrange(lo as int, cs.len() as int)),
        decreases cs.len() - lo,
    {
        assert(cs@.subrange(lo as int, cs.len() as int).drop_first() =~= cs@.subrange(
            lo + 1,
            cs.len() as int,
        ));
        lo = lo + 1;
    }
    let ghost st = cs@.subrange(lo as int, cs.len() as int);
    assert(trim_start(s@) == st);
    let mut hi: usize = cs.len();
    while hi > lo && whitespace(cs[hi - 1])
        invariant
            lo <= hi <= cs.len(),
            cs@ == s@,
            st == cs@.subrange(lo as int, cs.len() as int),
            trim_end(st) == trim_end(cs@.subrange(lo as int, hi as int)),
        decreases hi - lo,
    {
        assert(cs@.subrange(lo as int, hi as int).drop_last() =~= cs@.subrange(lo as int, hi - 1));
        hi = hi - 1;
    }
    string_of_range(&cs, lo, hi)
}

/// The elements at even positions.
pub open spec fn evens(s: Seq<Seq<char>>) -> Seq<Seq<char>> {
    Seq::new((s.len() + 1) / 2, |i: int| s[2 * i])
}

/// The elements at odd positions.
pub open spec fn odds(s: Seq<Seq<char>>) -> Seq<Seq<char>> {
    Seq::new(s.len() / 2, |i: int| s[2 * i + 1])
}

/// The parts of each line of `ls`, trimmed and split at `=`, in order.
pub open spec fn line_parts(ls: Seq<Seq<char>>) -> Seq<Seq<char>>
    decreases ls.len(),
{
    if ls.len() == 0 {
        Seq::empty()
    } else {
        line_parts(ls.drop_last()) + split_on(trimmed(ls.last()), '=')
    }
}

/// What `repo.conf` adds to the repositories: the parts of its lines,
/// with a final empty part dropped.
pub open spec fn conf_parts(repos: Seq<Seq<char>>, raw: Seq<char>) -> Seq<Seq<char>> {
    let all = repos + line_parts(lines_of(raw));
    if all.len() > 0 && all.last().len() == 0 {
        all.drop_last()
    } else {
        all
    }
}

/// A configuration directory with the repositories read from it.
pub struct Preset {
    config_dir: String,
    used_by: String,
    repos: Vec<String>,
    reponame: Vec<String>,
    repourl: Vec<String>,
}

impl Preset {
    /// The configuration directory.
    pub closed spec fn dir(&self) -> Seq<char> {
        self.config_dir@
    }

    /// Who uses the preset.
    pub closed spec fn user(&self) -> Seq<char> {
        self.used_by@
    }

    /// The parts read from `repo.conf`: names and URLs, alternating.
    pub closed spec fn parts(&self) -> Seq<Seq<char>> {
        views(self.repos@)
    }

    /// The repository names.
    pub closed spec fn names(&self) -> Seq<Seq<char>> {
        views(self.reponame@)
    }

    /// The repository URLs.
    pub closed spec fn urls(&self) -> Seq<Seq<char>> {
        views(self.repourl@)
    }

    /// A preset for `config_dir`, used by `used_by`, with no repositories.
    pub fn new(config_dir: &str, used_by: &str) -> (p: Preset)
        ensures
            p.dir() == config_dir@,
            p.user() == used_by@,
            p.parts() == Seq::<Seq<char>>::empty(),
            p.names() == Seq::<Seq<char>>::empty(),
            p.urls() == Seq::<Seq<char>>::empty(),
    {
        let p = Preset {
            config_dir: owned(config_dir),
            used_by: owned(used_by),
            repos: Vec::new(),
            reponame: Vec::new(),
            repourl: Vec::new(),
        };
        assert(p.parts() =~= Seq::<Seq<char>>::empty());
        assert(p.names() =~= Seq::<Seq<char>>::empty());
        assert(p.urls() =~= Seq::<Seq<char>>::empty());
        p
    }

    /// The place of the repository configuration, `<dir>/repo.conf`.
    pub fn repocfg_path(&self) -> (path: String)
        ensures
            path@ == self.dir() + "/repo.conf"@,
    {
        concat2(self.config_dir.as_str(), "/repo.conf")
    }

    /// Splits the parts into names (even positions) and URLs (odd
    /// positions).
    pub fn split_repo_name_url(&mut self)
        ensures
            final(self).names() == evens(old(self).parts()),
            final(self).urls() == odds(old(self).parts()),
            final(self).parts() == old(self).parts(),
            final(self).dir() == old(self).dir(),
            final(self).user() == old(self).user(),
    {
        let ghost ps = views(self.repos@);
        let mut names: Vec<String> = Vec::new();
        let mut urls: Vec<String> = Vec::new();
        let mut i: usize = 0;
        while i < self.repos.len()
            invariant
                i <= self.repos@.len(),
                ps == views(self.repos@),
                views(names@) == Seq::new(((i + 1) / 2) as nat, |k: int| ps[2 * k]),
                views(urls@) == Seq::new((i / 2) as nat, |k: int| ps[2 * k + 1]),
            decreases self.repos@.len() - i,
        {
            let c = self.repos[i].clone();
            if i % 2 == 0 {
                proof {
                    crate::types::lemma_views_push(names@, c);
                }
                names.push(c);
                assert(views(names@) =~= Seq::new(((i + 2) / 2) as nat, |k: int| ps[2 * k]));
                assert(views(urls@) =~= Seq::new(((i + 1) / 2) as nat, |k: int| ps[2 * k + 1]));
            } else {
                proof {
                    crate::types::lemma_views_push(urls@, c);
                }
                urls.push(c);
                assert(views(urls@) =~= Seq::new(((i + 1) / 2) as nat, |k: int| ps[2 * k + 1]));
                assert(views(names@) =~= Seq::new(((i + 2) / 2) as nat, |k: int| ps[2 * k]));
            }
            i = i + 1;
        }
        self.reponame = names;
        self.repourl = urls;
    }

    /// Adds the parts of the text of `repo.conf`: each line trimmed and
    /// split at `=`; a final empty part is dropped.
    pub fn read_repo_conf(&mut self, raw: &str)
        ensures
            final(self).parts() == conf_parts(old(self).parts(), raw@),
            final(self).names() == old(self).names(),
            final(self).urls() == old(self).urls(),
            final(self).dir() == old(self).dir(),
            final(self).user() == old(self).user(),
    {
        let ghost r0 = views(self.repos@);
        let ls = lines(raw);
        let ghost lv = views(ls@);
        assert(lv =~= lines_of(raw@));
        let mut i: usize = 0;
        while i < ls.len()
            invariant
                i <= ls@.len(),
                lv == views(ls@),
                views(self.repos@) == r0 + line_parts(lv.take(i as int)),
                views(self.reponame@) == old(self).names(),
                views(self.repourl@) == old(self).urls(),
                self.config_dir@ == old(self).dir(),
                self.used_by@ == old(self).user(),
            decreases ls@.len() - i,
        {
            assert(lv.take(i + 1).drop_last() =~= lv.take(i as int));
            let t = trim(ls[i].as_str());
            let parts = split_char(t.as_str(), '=');
            let ghost before = views(self.repos@);
            let mut j: usize = 0;
            while j < parts.len()
                invariant
                    j <= parts@.len(),
                    parts@.len() == split_on(t@, '=').len(),
                    forall|k: int| 0 <= k < parts@.len() ==> #[trigger] parts@[k]@ == split_on(t@, '=')[k],
                    views(self.repos@) == before + split_on(t@, '=').take(j as int),
                    views(self.reponame@) == old(self).names(),
                    views(self.repourl@) == old(self).urls(),
                    self.config_dir@ == old(self).dir(),
                    self.used_by@ == old(self).user(),
                decreases parts@.len() - j,
            {
                let c = parts[j].clone();
                proof {
                    crate::types::lemma_views_push(self.repos@, c);
                }
                self.repos.push(c);
                assert(split_on(t@, '=').take(j + 1) =~= split_on(t@, '=').take(j as int).push(
                    split_on(t@, '=')[j as int],
                ));
                j = j + 1;
            }
            assert(split_on(t@, '=').take(parts@.len() as int) =~= split_on(t@, '='));
            i = i + 1;
        }
        assert(lv.take(ls@.len() as int) =~= lv);
        let n = self.repos.len();
        if n > 0 {
            let last = chars_of(self.repos[n - 1].as_str());
            if last.len() == 0 {
                let ghost all = views(self.repos@);
                self.repos.pop();
                assert(views(self.repos@) =~= all.drop_last());
            }
        }
    }

    /// Where the downloaded repository indexes are kept.
    pub fn remote_dir(&self) -> (path: String)
        ensures
            path@ == self.dir() + "/database/remote"@,
    {
        concat2(self.config_dir.as_str(), "/database/remote")
    }

    /// Where the downloaded index of repository `repo` is kept.
    pub fn repo_info_path(&self, repo: &str) -> (path: String)
        ensures
            path@ == self.dir() + "/database/remote/"@ + repo@ + ".json"@,
    {
        let mut p = concat3(self.config_dir.as_str(), "/database/remote/", repo);
        p.append(".json");
        p
    }

    /// The repository names.
    pub fn repo_names(&self) -> (names: Vec<String>)
        ensures
            views(names@) == self.names(),
    {
        clone_strings(&self.reponame)
    }
}

} // verus!
