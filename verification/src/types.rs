//! The records the package manager passes around: a package to install,
//! the installation error codes, the entries of the installed-package
//! database and of a repository's package index.
use vstd::prelude::*;

use crate::strmap::StrMap;

verus! {

/// The views of a list of strings.
pub open spec fn views(v: Seq<String>) -> Seq<Seq<char>> {
    v.map_values(|s: String| s@)
}

/// The views of a list with one more string end with that string's view.
pub proof fn lemma_views_push(v: Seq<String>, s: String)
    ensures
        views(v.push(s)) == views(v).push(s@),
{
    assert(views(v.push(s)) =~= views(v).push(s@));
}

/// A copy of a list of strings.
pub fn clone_strings(v: &Vec<String>) -> (r: Vec<String>)
    ensures
        views(r@) == views(v@),
{
    let mut r: Vec<String> = Vec::new();
    let mut i: usize = 0;
    while i < v.len()
        invariant
            i <= v.len(),
            views(r@) == views(v@).take(i as int),
        decreases v.len() - i,
    {
        let c = v[i].clone();
        assert(c@ == v@[i as int]@);
        let ghost r0 = r@;
        r.push(c);
        assert(r@ == r0.push(c));
        assert(views(r0.push(c)) =~= views(r0).push(c@));
        assert(views(v@).take(i + 1) =~= views(v@).take(i as int).push(v@[i as int]@));
        assert(views(r@) =~= views(v@).take(i + 1));
        i = i + 1;
    }
    assert(views(v@).take(v.len() as int) =~= views(v@));
    r
}

/// A package to install: its ID (such as `python`), the path of its
/// archive, the packages it depends on, and its version.
#[derive(Debug, PartialEq)]
pub struct Package {
    pub id: String,
    pub path: String,
    pub dependencies: Vec<String>,
    pub version: String,
}

/// What a `Package` holds.
pub struct PackageView {
    pub id: Seq<char>,
    pub path: Seq<char>,
    pub dependencies: Seq<Seq<char>>,
    pub version: Seq<char>,
}

impl View for Package {
    type V = PackageView;

    open spec fn view(&self) -> PackageView {
        PackageView {
            id: self.id@,
            path: self.path@,
            dependencies: views(self.dependencies@),
            version: self.version@,
        }
    }
}

impl Clone for Package {
    fn clone(&self) -> (r: Self)
        ensures
            r@ == self@,
    {
        Package {
            id: self.id.clone(),
            path: self.path.clone(),
            dependencies: clone_strings(&self.dependencies),
            version: self.version.clone(),
        }
    }
}

/// The shortest of four lengths.
pub open spec fn min4(a: nat, b: nat, c: nat, d: nat) -> nat {
    let ab = if a <= b {
        a
    } else {
        b
    };
    let cd = if c <= d {
        c
    } else {
        d
    };
    if ab <= cd {
        ab
    } else {
        cd
    }
}

impl Package {
    /// A package with the given fields.
    pub fn new(id: String, path: String, dependencies: Vec<String>, version: String) -> (p: Self)
        ensures
            p@ == (PackageView {
                id: id@,
                path: path@,
                dependencies: views(dependencies@),
                version: version@,
            }),
    {
        Package { id, path, dependencies, version }
    }

    /// A list that holds a copy of this package and nothing else.
    pub fn to_vec(&self) -> (v: Vec<Self>)
        ensures
            v@.len() == 1,
            v@[0]@ == self@,
    {
        let mut v: Vec<Package> = Vec::new();
        v.push(self.clone());
        v
    }

    /// Packages made from four lists that correspond one by one: the
    /// `i`-th package takes the `i`-th entry of each list, and there are as
    /// many packages as the shortest list has entries.
    pub fn from_vec(
        id_vec: Vec<String>,
        path_vec: Vec<String>,
        dependencies_vec: Vec<Vec<String>>,
        version_vec: Vec<String>,
    ) -> (v: Vec<Self>)
        ensures
            v@.len() == min4(
                id_vec@.len(),
                path_vec@.len(),
                dependencies_vec@.len(),
                version_vec@.len(),
            ),
            forall|i: int|
                0 <= i < v@.len() ==> #[trigger] v@[i]@ == (PackageView {
                    id: id_vec@[i]@,
                    path: path_vec@[i]@,
                    dependencies: views(dependencies_vec@[i]@),
                    version: version_vec@[i]@,
                }),
    {
        let n = id_vec.len();
        let n = if path_vec.len() < n {
            path_vec.len()
        } else {
            n
        };
        let n = if dependencies_vec.len() < n {
            dependencies_vec.len()
        } else {
            n
        };
        let n = if version_vec.len() < n {
            version_vec.len()
        } else {
            n
        };
        let mut v: Vec<Package> = Vec::new();
        let mut i: usize = 0;
        while i < n
            invariant
                n == min4(id_vec@.len(), path_vec@.len(), dependencies_vec@.len(), version_vec@.len()),
                i <= n,
                v@.len() == i,
                forall|j: int|
                    0 <= j < i ==> #[trigger] v@[j]@ == (PackageView {
                        id: id_vec@[j]@,
                        path: path_vec@[j]@,
                        dependencies: views(dependencies_vec@[j]@),
                        version: version_vec@[j]@,
                    }),
            decreases n - i,
        {
            let p = Package::new(
                id_vec[i].clone(),
                path_vec[i].clone(),
                clone_strings(&dependencies_vec[i]),
                version_vec[i].clone(),
            );
            v.push(p);
            i = i + 1;
        }
        v
    }
}

/// Why installing or removing a package failed.
#[derive(Debug, Clone, Copy, PartialEq, Eq, Structural)]
pub enum ErrorCode {
    FileNotFound,
    CopyFilesError,
    PermissionDenied,
    CleanDirError,
    ChangeDirError,
    CreateDirError,
    ExecuteError,
    UnregisterError,
    Other,
}

/// The number by which an error is reported to C callers and as the
/// process's exit status.
pub open spec fn error_number(e: ErrorCode) -> i32 {
    match e {
        ErrorCode::FileNotFound => 1,
        ErrorCode::CopyFilesError => 2,
        ErrorCode::PermissionDenied => 3,
        ErrorCode::CleanDirError => 4,
        ErrorCode::ChangeDirError => 5,
        ErrorCode::CreateDirError => 6,
        ErrorCode::ExecuteError => 7,
        ErrorCode::UnregisterError => 8,
        ErrorCode::Other => -1i32,
    }
}

impl ErrorCode {
    /// The error's number (see `error_number`).
    pub fn code(&self) -> (n: i32)
        ensures
            n == error_number(*self),
    {
        match self {
            ErrorCode::FileNotFound => 1,
            ErrorCode::CopyFilesError => 2,
            ErrorCode::PermissionDenied => 3,
            ErrorCode::CleanDirError => 4,
            ErrorCode::ChangeDirError => 5,
            ErrorCode::CreateDirError => 6,
            ErrorCode::ExecuteError => 7,
            ErrorCode::UnregisterError => 8,
            ErrorCode::Other => -1,
        }
    }
}

impl From<ErrorCode> for i32 {
    fn from(error: ErrorCode) -> (n: i32) {
        error.code()
    }
}

impl vstd::std_specs::convert::FromSpecImpl<ErrorCode> for i32 {
    open spec fn obeys_from_spec() -> bool {
        true
    }

    open spec fn from_spec(v: ErrorCode) -> i32 {
        error_number(v)
    }
}

/// What the database of installed packages records of one package.
pub struct PkgInfoToml {
    pub dependencies: Vec<String>,
    pub version: String,
}

/// What a `PkgInfoToml` holds.
pub struct PkgInfoTomlView {
    pub dependencies: Seq<Seq<char>>,
    pub version: Seq<char>,
}

impl DeepView for PkgInfoToml {
    type V = PkgInfoTomlView;

    open spec fn deep_view(&self) -> PkgInfoTomlView {
        PkgInfoTomlView { dependencies: views(self.dependencies@), version: self.version@ }
    }
}

impl PkgInfoToml {
    /// A copy of this record.
    pub fn duplicate(&self) -> (r: Self)
        ensures
            r.deep_view() == self.deep_view(),
    {
        PkgInfoToml { dependencies: clone_strings(&self.dependencies), version: self.version.clone() }
    }
}

/// What a repository's index says of one package: the name of its archive
/// file, its version, and the SHA-256 sum of the archive in hexadecimal.
pub struct PkgInfo {
    pub filename: String,
    pub version: String,
    pub sha256sums: String,
}

/// What a `PkgInfo` holds.
pub struct PkgInfoView {
    pub filename: Seq<char>,
    pub version: Seq<char>,
    pub sha256sums: Seq<char>,
}

impl DeepView for PkgInfo {
    type V = PkgInfoView;

    open spec fn deep_view(&self) -> PkgInfoView {
        PkgInfoView { filename: self.filename@, version: self.version@, sha256sums: self.sha256sums@ }
    }
}

impl PkgInfo {
    /// A copy of this record.
    pub fn duplicate(&self) -> (r: Self)
        ensures
            r.deep_view() == self.deep_view(),
    {
        PkgInfo {
            filename: self.filename.clone(),
            version: self.version.clone(),
            sha256sums: self.sha256sums.clone(),
        }
    }
}

/// A repository's index (its `PKGINDEX.json`): the URL packages are
/// fetched from, the packages it offers, and what each package is based on
/// (its dependencies).
pub struct PkgIndex {
    pub url: String,
    pub pkgindex: StrMap<PkgInfo>,
    pub baseon: StrMap<Vec<String>>,
}

} // verus!
