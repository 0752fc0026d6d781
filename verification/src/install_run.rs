//! The installer's decisions, step by step.
//!
//! Installing a list of packages alternates work on the file system with
//! decisions. `InstallRun` holds the decisions: it says which action to
//! perform next (`action`), and takes the outcome of that action
//! (`next`). The caller performs the actions.
//!
//! For each package with its work directory, in order: the extracted
//! archive is inspected and the work directory entered; an invalid
//! package (one with neither `HOOKS` nor `UNHOOKS`) is warned about and
//! skipped; a package with a build script has it made executable and run,
//! then its `HOOKS` script when present, its removal script kept, and is
//! registered; any other package has its files copied to their places
//! under `/`, its `HOOKS` script run when present, its removal script
//! kept, the hook scripts deleted, its file index stored, and is
//! registered. The work directory of an installed package is then cleaned
//! up. The first failure ends the installation with its error code.
use vstd::prelude::*;

use crate::pkgmgr::{
    build_script_path, file_index_entries, file_index_json, install_targets, json_of_strings, json_strings_in,
    step2_copy_targets, step2_copy_targets_defined, targets_defined, unhooks_source_path,
    unhooks_store_path, without_hooks, file_index_path,
};
use crate::text::{concat2, owned};
use crate::types::{clone_strings, views, ErrorCode, Package, PackageView};

verus! {

/// How the run treats an extracted archive: it is built (it holds a
/// build script), its files are copied, or it is no package at all (it
/// holds neither `HOOKS` nor `UNHOOKS`) and is skipped.
#[derive(Clone, Copy, PartialEq, Eq, Structural)]
pub enum Kind {
    Build,
    Copy,
    Invalid,
}

/// Where an installation stands.
#[derive(Clone, Copy)]
pub enum InstallPhase {
    /// Waiting to learn what the current package's archive holds.
    Inspecting,
    /// Waiting to enter the current package's work directory.
    Entering(Kind),
    /// Waiting for the warning about an invalid package.
    Warning,
    /// Waiting for the build script to be made executable.
    BuildChmod,
    /// Waiting for the build script to run.
    BuildRun,
    /// Waiting for the package's `HOOKS` to be made executable, after a
    /// build.
    BuildHookChmod,
    /// Waiting for the package's `HOOKS` to run, after a build.
    BuildHookRun,
    /// Waiting for the removal script to be kept.
    BuildMove,
    /// Waiting for the list of extracted files.
    Listing,
    /// Waiting for file `j` to be copied.
    Copying(usize),
    /// Waiting to learn whether `/HOOKS` exists.
    HookCheck,
    /// Waiting for `/HOOKS` to be made executable.
    HookChmod,
    /// Waiting for `/HOOKS` to run.
    HookRun,
    /// Waiting for `/UNHOOKS` to be kept.
    UnhooksMove,
    /// Waiting for the hook scripts to be deleted.
    Leftovers,
    /// Waiting for the file index to be stored.
    Storing,
    /// Waiting for the package to be registered.
    Registering,
    /// Waiting for the work directory to be cleaned up.
    Cleaning,
    /// The installation ended with this outcome.
    Finished(Result<(), ErrorCode>),
    /// The installation cannot go on: the extracted files' paths cannot be
    /// cut where the work directory says.
    Stuck,
}

/// Whether a file was copied, or why not.
#[derive(Clone, Copy, PartialEq, Eq, Structural)]
pub enum CopyOutcome {
    Copied,
    /// Creating the parent directory or copying was refused for want of
    /// permission.
    NoPermission,
    ParentNotCreated,
    NotCopied,
}

/// The outcome of the action last asked for.
pub enum InstallEvent {
    Inspected { has_hooks: bool, has_unhooks: bool, has_build_script: bool },
    EnteredDir(bool),
    Warned,
    MadeExecutable(Result<(), ErrorCode>),
    Ran(bool),
    Moved,
    Listed(Vec<String>),
    Copied(CopyOutcome),
    HooksPresent(bool),
    Removed,
    Stored,
    Registered(Result<(), ErrorCode>),
    CleanedUp,
}

/// What an `InstallEvent` holds.
pub enum InstallEventView {
    Inspected(bool, bool, bool),
    EnteredDir(bool),
    Warned,
    MadeExecutable(Result<(), ErrorCode>),
    Ran(bool),
    Moved,
    Listed(Seq<Seq<char>>),
    Copied(CopyOutcome),
    HooksPresent(bool),
    Removed,
    Stored,
    Registered(Result<(), ErrorCode>),
    CleanedUp,
}

impl View for InstallEvent {
    type V = InstallEventView;

    open spec fn view(&self) -> InstallEventView {
        match self {
            InstallEvent::Inspected { has_hooks, has_unhooks, has_build_script } => InstallEventView::Inspected(
                *has_hooks,
                *has_unhooks,
                *has_build_script,
            ),
            InstallEvent::EnteredDir(b) => InstallEventView::EnteredDir(*b),
            InstallEvent::Warned => InstallEventView::Warned,
            InstallEvent::MadeExecutable(r) => InstallEventView::MadeExecutable(*r),
            InstallEvent::Ran(b) => InstallEventView::Ran(*b),
            InstallEvent::Moved => InstallEventView::Moved,
            InstallEvent::Listed(v) => InstallEventView::Listed(views(v@)),
            InstallEvent::Copied(o) => InstallEventView::Copied(*o),
            InstallEvent::HooksPresent(b) => InstallEventView::HooksPresent(*b),
            InstallEvent::Removed => InstallEventView::Removed,
            InstallEvent::Stored => InstallEventView::Stored,
            InstallEvent::Registered(r) => InstallEventView::Registered(*r),
            InstallEvent::CleanedUp => InstallEventView::CleanedUp,
        }
    }
}

/// The action to perform next.
pub enum InstallAction {
    /// Tell whether `workdir` holds `HOOKS`, `UNHOOKS` and `BUILD-SCRIPT`.
    Inspect { workdir: String },
    /// Make `workdir` the current directory.
    EnterDir { workdir: String },
    /// Warn that `package` is invalid and is skipped.
    WarnInvalid { package: String },
    /// Make the script at `path` executable.
    MakeExecutable { path: String },
    /// Run the build script `script` of `package`, logging its errors.
    RunBuild { script: String, package: String },
    /// Move the file at `from` to `to` if it exists.
    MoveIfPresent { from: String, to: String },
    /// List the files under `workdir`.
    ListFiles { workdir: String },
    /// Create the parent directory of `target` and copy `source` to it.
    CopyFile { source: String, target: String },
    /// Tell whether `/HOOKS` exists.
    CheckHooks,
    /// Run the script at `path`.
    RunScript { path: String },
    /// Delete these files, ignoring failures.
    RemoveFiles { paths: Vec<String> },
    /// Write `contents` to the file at `path`.
    StoreFileIndex { path: String, contents: String },
    /// Record `package` as installed.
    Register { package: String, version: String, dependencies: Vec<String> },
    /// Delete the work directory.
    CleanUp { workdir: String },
    /// The installation is over with this outcome.
    Finish(Result<(), ErrorCode>),
    /// The installation cannot go on.
    Abort,
}

/// What an `InstallAction` holds.
pub enum InstallActionView {
    Inspect(Seq<char>),
    EnterDir(Seq<char>),
    WarnInvalid(Seq<char>),
    MakeExecutable(Seq<char>),
    RunBuild(Seq<char>, Seq<char>),
    MoveIfPresent(Seq<char>, Seq<char>),
    ListFiles(Seq<char>),
    CopyFile(Seq<char>, Seq<char>),
    CheckHooks,
    RunScript(Seq<char>),
    RemoveFiles(Seq<Seq<char>>),
    StoreFileIndex(Seq<char>, Seq<char>),
    Register(Seq<char>, Seq<char>, Seq<Seq<char>>),
    CleanUp(Seq<char>),
    Finish(Result<(), ErrorCode>),
    Abort,
}

impl View for InstallAction {
    type V = InstallActionView;

    open spec fn view(&self) -> InstallActionView {
        match self {
            InstallAction::Inspect { workdir } => InstallActionView::Inspect(workdir@),
            InstallAction::EnterDir { workdir } => InstallActionView::EnterDir(workdir@),
            InstallAction::WarnInvalid { package } => InstallActionView::WarnInvalid(package@),
            InstallAction::MakeExecutable { path } => InstallActionView::MakeExecutable(path@),
            InstallAction::RunBuild { script, package } => InstallActionView::RunBuild(script@, package@),
            InstallAction::MoveIfPresent { from, to } => InstallActionView::MoveIfPresent(from@, to@),
            InstallAction::ListFiles { workdir } => InstallActionView::ListFiles(workdir@),
            InstallAction::CopyFile { source, target } => InstallActionView::CopyFile(source@, target@),
            InstallAction::CheckHooks => InstallActionView::CheckHooks,
            InstallAction::RunScript { path } => InstallActionView::RunScript(path@),
            InstallAction::RemoveFiles { paths } => InstallActionView::RemoveFiles(views(paths@)),
            InstallAction::StoreFileIndex { path, contents } => InstallActionView::StoreFileIndex(
                path@,
                contents@,
            ),
            InstallAction::Register { package, version, dependencies } => InstallActionView::Register(
                package@,
                version@,
                views(dependencies@),
            ),
            InstallAction::CleanUp { workdir } => InstallActionView::CleanUp(workdir@),
            InstallAction::Finish(r) => InstallActionView::Finish(*r),
            InstallAction::Abort => InstallActionView::Abort,
        }
    }
}

/// The state of an installation.
pub struct InstallRun {
    packages: Vec<Package>,
    workdirs: Vec<String>,
    index: usize,
    phase: InstallPhase,
    hooks: bool,
    sources: Vec<String>,
    targets: Vec<String>,
}

/// What an `InstallRun` holds.
pub struct InstallRunView {
    pub packages: Seq<PackageView>,
    pub workdirs: Seq<Seq<char>>,
    pub index: int,
    pub phase: InstallPhase,
    /// Whether the current package's archive holds `HOOKS`.
    pub hooks: bool,
    pub sources: Seq<Seq<char>>,
    pub targets: Seq<Seq<char>>,
}

impl View for InstallRun {
    type V = InstallRunView;

    closed spec fn view(&self) -> InstallRunView {
        InstallRunView {
            packages: self.packages@.map_values(|p: Package| p@),
            workdirs: views(self.workdirs@),
            index: self.index as int,
            phase: self.phase,
            hooks: self.hooks,
            sources: views(self.sources@),
            targets: views(self.targets@),
        }
    }
}

/// The number of packages installed: as many as there are both packages
/// and work directories.
pub open spec fn run_len(r: InstallRunView) -> int {
    if r.packages.len() <= r.workdirs.len() {
        r.packages.len() as int
    } else {
        r.workdirs.len() as int
    }
}

/// Moves on to package `i`: inspects it, or finishes successfully when
/// there is none left.
pub open spec fn begin_package(r: InstallRunView, i: int) -> InstallRunView {
    if i >= run_len(r) {
        InstallRunView { index: i, phase: InstallPhase::Finished(Ok(())), ..r }
    } else {
        InstallRunView { index: i, phase: InstallPhase::Inspecting, ..r }
    }
}

/// Moves on to copying file `j`, or to the hook script after the last one.
pub open spec fn copy_from(r: InstallRunView, j: int) -> InstallRunView {
    if j < r.sources.len() && j < r.targets.len() {
        InstallRunView { phase: InstallPhase::Copying(j as usize), ..r }
    } else {
        InstallRunView { phase: InstallPhase::HookCheck, ..r }
    }
}

/// Ends the installation with the error `e`.
pub open spec fn fail(r: InstallRunView, e: ErrorCode) -> InstallRunView {
    InstallRunView { phase: InstallPhase::Finished(Err(e)), ..r }
}

/// Goes to `phase`.
pub open spec fn goto(r: InstallRunView, phase: InstallPhase) -> InstallRunView {
    InstallRunView { phase, ..r }
}

/// The state after the outcome `e` of the action asked for in state `r`.
/// An outcome that does not answer that action changes nothing.
pub open spec fn install_next(r: InstallRunView, e: InstallEventView) -> InstallRunView {
    let wd = r.workdirs[r.index];
    match (r.phase, e) {
        (InstallPhase::Inspecting, InstallEventView::Inspected(h, u, b)) => goto(
            InstallRunView { hooks: h, ..r },
            InstallPhase::Entering(
                if !h && !u {
                    Kind::Invalid
                } else if b {
                    Kind::Build
                } else {
                    Kind::Copy
                },
            ),
        ),
        (InstallPhase::Entering(k), InstallEventView::EnteredDir(ok)) => if !ok {
            fail(r, ErrorCode::ChangeDirError)
        } else {
            match k {
                Kind::Invalid => goto(r, InstallPhase::Warning),
                Kind::Build => goto(r, InstallPhase::BuildChmod),
                Kind::Copy => goto(r, InstallPhase::Listing),
            }
        },
        (InstallPhase::Warning, InstallEventView::Warned) => begin_package(r, r.index + 1),
        (InstallPhase::BuildChmod, InstallEventView::MadeExecutable(res)) => match res {
            Err(x) => fail(r, x),
            Ok(_) => goto(r, InstallPhase::BuildRun),
        },
        (InstallPhase::BuildRun, InstallEventView::Ran(ok)) => if !ok {
            fail(r, ErrorCode::ExecuteError)
        } else if r.hooks {
            goto(r, InstallPhase::BuildHookChmod)
        } else {
            goto(r, InstallPhase::BuildMove)
        },
        (InstallPhase::BuildHookChmod, InstallEventView::MadeExecutable(res)) => match res {
            Err(x) => fail(r, x),
            Ok(_) => goto(r, InstallPhase::BuildHookRun),
        },
        (InstallPhase::BuildHookRun, InstallEventView::Ran(ok)) => if ok {
            goto(r, InstallPhase::BuildMove)
        } else {
            fail(r, ErrorCode::ExecuteError)
        },
        (InstallPhase::BuildMove, InstallEventView::Moved) => goto(r, InstallPhase::Registering),
        (InstallPhase::Listing, InstallEventView::Listed(files)) => if targets_defined(wd, files) {
            copy_from(
                InstallRunView { sources: files, targets: install_targets(wd, files), ..r },
                0,
            )
        } else {
            goto(r, InstallPhase::Stuck)
        },
        (InstallPhase::Copying(j), InstallEventView::Copied(o)) => match o {
            CopyOutcome::Copied => copy_from(r, j + 1),
            CopyOutcome::NoPermission => fail(r, ErrorCode::PermissionDenied),
            CopyOutcome::ParentNotCreated => fail(r, ErrorCode::CreateDirError),
            CopyOutcome::NotCopied => fail(r, ErrorCode::CopyFilesError),
        },
        (InstallPhase::HookCheck, InstallEventView::HooksPresent(p)) => if p {
            goto(r, InstallPhase::HookChmod)
        } else {
            goto(r, InstallPhase::UnhooksMove)
        },
        (InstallPhase::HookChmod, InstallEventView::MadeExecutable(res)) => match res {
            Err(x) => fail(r, x),
            Ok(_) => goto(r, InstallPhase::HookRun),
        },
        (InstallPhase::HookRun, InstallEventView::Ran(ok)) => if ok {
            goto(r, InstallPhase::UnhooksMove)
        } else {
            fail(r, ErrorCode::ExecuteError)
        },
        (InstallPhase::UnhooksMove, InstallEventView::Moved) => goto(r, InstallPhase::Leftovers),
        (InstallPhase::Leftovers, InstallEventView::Removed) => goto(r, InstallPhase::Storing),
        (InstallPhase::Storing, InstallEventView::Stored) => goto(r, InstallPhase::Registering),
        (InstallPhase::Registering, InstallEventView::Registered(res)) => match res {
            Err(x) => fail(r, x),
            Ok(_) => goto(r, InstallPhase::Cleaning),
        },
        (InstallPhase::Cleaning, InstallEventView::CleanedUp) => begin_package(r, r.index + 1),
        _ => r,
    }
}

/// The action asked for in state `r`.
pub open spec fn install_action(r: InstallRunView) -> InstallActionView {
    let wd = r.workdirs[r.index];
    let p = r.packages[r.index];
    let store = "/etc/mcospkg/database/remove_info/"@ + p.id + "-UNHOOKS"@;
    match r.phase {
        InstallPhase::Inspecting => InstallActionView::Inspect(wd),
        InstallPhase::Entering(_) => InstallActionView::EnterDir(wd),
        InstallPhase::Warning => InstallActionView::WarnInvalid(p.id),
        InstallPhase::BuildChmod => InstallActionView::MakeExecutable(wd + "/BUILD-SCRIPT"@),
        InstallPhase::BuildRun => InstallActionView::RunBuild(wd + "/BUILD-SCRIPT"@, p.id),
        InstallPhase::BuildHookChmod => InstallActionView::MakeExecutable(wd + "/HOOKS"@),
        InstallPhase::BuildHookRun => InstallActionView::RunScript(wd + "/HOOKS"@),
        InstallPhase::BuildMove => InstallActionView::MoveIfPresent(wd + "/UNHOOKS"@, store),
        InstallPhase::Listing => InstallActionView::ListFiles(wd),
        InstallPhase::Copying(j) => InstallActionView::CopyFile(r.sources[j as int], r.targets[j as int]),
        InstallPhase::HookCheck => InstallActionView::CheckHooks,
        InstallPhase::HookChmod => InstallActionView::MakeExecutable("/HOOKS"@),
        InstallPhase::HookRun => InstallActionView::RunScript("/HOOKS"@),
        InstallPhase::UnhooksMove => InstallActionView::MoveIfPresent("/UNHOOKS"@, store),
        InstallPhase::Leftovers => InstallActionView::RemoveFiles(seq!["/HOOKS"@, "/UNHOOKS"@]),
        InstallPhase::Storing => InstallActionView::StoreFileIndex(
            "/etc/mcospkg/database/remove_info/"@ + p.id + "-index.json"@,
            json_of_strings(without_hooks(r.targets)),
        ),
        InstallPhase::Registering => InstallActionView::Register(p.id, p.version, p.dependencies),
        InstallPhase::Cleaning => InstallActionView::CleanUp(wd),
        InstallPhase::Finished(res) => InstallActionView::Finish(res),
        InstallPhase::Stuck => InstallActionView::Abort,
    }
}

/// The state is consistent: a package is being worked on unless the run
/// is at its start or finished, and a file being copied exists.
pub open spec fn install_wf(r: InstallRunView) -> bool {
    &&& 0 <= r.index
    &&& r.phase !is Finished ==> r.index < run_len(r)
    &&& r.index <= run_len(r)
    &&& r.packages.len() < usize::MAX
    &&& forall|i: int| 0 <= i < r.workdirs.len() ==> (#[trigger] r.workdirs[i]).len() < 0x1000_0000_0000
    &&& (r.phase matches InstallPhase::Copying(j) ==> j < r.sources.len() && j < r.targets.len())
}

/// The paths are short enough to be measured in bytes.
pub open spec fn short_paths(ps: Seq<Seq<char>>) -> bool {
    forall|i: int| 0 <= i < ps.len() ==> (#[trigger] ps[i]).len() < 0x1000_0000_0000
}

/// The outcome answers the action asked for in a way the run can take in.
pub open spec fn install_event_ok(e: InstallEventView) -> bool {
    e matches InstallEventView::Listed(files) ==> short_paths(files)
}

impl InstallRun {
    /// The state is consistent (see `install_wf`).
    pub closed spec fn wf(&self) -> bool {
        install_wf(self@)
    }

    /// An installation of `packages`, the `i`-th extracted to the `i`-th of
    /// `workdirs`, about to inspect the first package (or finished when
    /// there is none).
    pub fn new(packages: Vec<Package>, workdirs: Vec<String>) -> (r: Self)
        requires
            packages@.len() < usize::MAX,
            short_paths(views(workdirs@)),
        ensures
            r.wf(),
            r@ == begin_package(
                InstallRunView {
                    packages: packages@.map_values(|p: Package| p@),
                    workdirs: views(workdirs@),
                    index: 0,
                    phase: InstallPhase::Inspecting,
                    hooks: false,
                    sources: Seq::empty(),
                    targets: Seq::empty(),
                },
                0,
            ),
    {
        let n = if packages.len() <= workdirs.len() {
            packages.len()
        } else {
            workdirs.len()
        };
        let phase = if n == 0 {
            InstallPhase::Finished(Ok(()))
        } else {
            InstallPhase::Inspecting
        };
        let r = InstallRun {
            packages,
            workdirs,
            index: 0,
            phase,
            hooks: false,
            sources: Vec::new(),
            targets: Vec::new(),
        };
        assert(views(r.sources@) =~= Seq::<Seq<char>>::empty());
        assert(views(r.targets@) =~= Seq::<Seq<char>>::empty());
        r
    }

    /// The action to perform next. A file index it asks to store reads
    /// back as the copied files other than the hook scripts.
    pub fn action(&self) -> (a: InstallAction)
        requires
            self.wf(),
        ensures
            a@ == install_action(self@),
            a@ matches InstallActionView::StoreFileIndex(_, c) ==> json_strings_in(c) == Some(
                without_hooks(self@.targets),
            ),
    {
        let i = self.index;
        match self.phase {
            InstallPhase::Finished(res) => InstallAction::Finish(res),
            InstallPhase::Stuck => InstallAction::Abort,
            InstallPhase::Inspecting => InstallAction::Inspect { workdir: self.workdirs[i].clone() },
            InstallPhase::Entering(_) => InstallAction::EnterDir { workdir: self.workdirs[i].clone() },
            InstallPhase::Warning => InstallAction::WarnInvalid { package: self.packages[i].id.clone() },
            InstallPhase::BuildChmod => InstallAction::MakeExecutable {
                path: build_script_path(self.workdirs[i].as_str()),
            },
            InstallPhase::BuildRun => InstallAction::RunBuild {
                script: build_script_path(self.workdirs[i].as_str()),
                package: self.packages[i].id.clone(),
            },
            InstallPhase::BuildHookChmod => InstallAction::MakeExecutable {
                path: concat2(self.workdirs[i].as_str(), "/HOOKS"),
            },
            InstallPhase::BuildHookRun => InstallAction::RunScript {
                path: concat2(self.workdirs[i].as_str(), "/HOOKS"),
            },
            InstallPhase::BuildMove => InstallAction::MoveIfPresent {
                from: unhooks_source_path(self.workdirs[i].as_str()),
                to: unhooks_store_path(self.packages[i].id.as_str()),
            },
            InstallPhase::Listing => InstallAction::ListFiles { workdir: self.workdirs[i].clone() },
            InstallPhase::Copying(j) => InstallAction::CopyFile {
                source: self.sources[j].clone(),
                target: self.targets[j].clone(),
            },
            InstallPhase::HookCheck => InstallAction::CheckHooks,
            InstallPhase::HookChmod => InstallAction::MakeExecutable { path: owned("/HOOKS") },
            InstallPhase::HookRun => InstallAction::RunScript { path: owned("/HOOKS") },
            InstallPhase::UnhooksMove => InstallAction::MoveIfPresent {
                from: owned("/UNHOOKS"),
                to: unhooks_store_path(self.packages[i].id.as_str()),
            },
            InstallPhase::Leftovers => {
                let mut paths: Vec<String> = Vec::new();
                paths.push(owned("/HOOKS"));
                paths.push(owned("/UNHOOKS"));
                assert(views(paths@) =~= seq!["/HOOKS"@, "/UNHOOKS"@]);
                InstallAction::RemoveFiles { paths }
            },
            InstallPhase::Storing => {
                let entries = file_index_entries(&self.targets);
                InstallAction::StoreFileIndex {
                    path: file_index_path(self.packages[i].id.as_str()),
                    contents: file_index_json(&entries),
                }
            },
            InstallPhase::Registering => InstallAction::Register {
                package: self.packages[i].id.clone(),
                version: self.packages[i].version.clone(),
                dependencies: clone_strings(&self.packages[i].dependencies),
            },
            InstallPhase::Cleaning => InstallAction::CleanUp { workdir: self.workdirs[i].clone() },
        }
    }

    fn begin(&mut self, i: usize)
        requires
            install_wf(old(self)@),
            i <= run_len(old(self)@),
        ensures
            final(self)@ == begin_package(old(self)@, i as int),
            install_wf(final(self)@),
    {
        let n = if self.packages.len() <= self.workdirs.len() {
            self.packages.len()
        } else {
            self.workdirs.len()
        };
        self.index = i;
        if i >= n {
            self.phase = InstallPhase::Finished(Ok(()));
        } else {
            self.phase = InstallPhase::Inspecting;
        }
    }

    fn copy_at(&mut self, j: usize)
        requires
            install_wf(old(self)@),
            old(self)@.phase !is Finished,
        ensures
            final(self)@ == copy_from(old(self)@, j as int),
            install_wf(final(self)@),
    {
        if j < self.sources.len() && j < self.targets.len() {
            self.phase = InstallPhase::Copying(j);
        } else {
            self.phase = InstallPhase::HookCheck;
        }
    }

    fn fail_with(&mut self, e: ErrorCode)
        requires
            install_wf(old(self)@),
        ensures
            final(self)@ == fail(old(self)@, e),
            install_wf(final(self)@),
    {
        self.phase = InstallPhase::Finished(Err(e));
    }

    fn go(&mut self, phase: InstallPhase)
        requires
            install_wf(old(self)@),
            old(self)@.phase !is Finished,
            phase !is Copying,
        ensures
            final(self)@ == goto(old(self)@, phase),
            install_wf(final(self)@),
    {
        self.phase = phase;
    }

    /// Takes the outcome of the action asked for.
    pub fn next(&mut self, e: InstallEvent)
        requires
            old(self).wf(),
            install_event_ok(e@),
        ensures
            final(self).wf(),
            final(self)@ == install_next(old(self)@, e@),
    {
        let i = self.index;
        match (self.phase, e) {
            (InstallPhase::Inspecting, InstallEvent::Inspected { has_hooks, has_unhooks, has_build_script }) => {
                let k = if !has_hooks && !has_unhooks {
                    Kind::Invalid
                } else if has_build_script {
                    Kind::Build
                } else {
                    Kind::Copy
                };
                self.hooks = has_hooks;
                self.go(InstallPhase::Entering(k));
            },
            (InstallPhase::Entering(k), InstallEvent::EnteredDir(ok)) => {
                if !ok {
                    self.fail_with(ErrorCode::ChangeDirError);
                } else {
                    match k {
                        Kind::Invalid => self.go(InstallPhase::Warning),
                        Kind::Build => self.go(InstallPhase::BuildChmod),
                        Kind::Copy => self.go(InstallPhase::Listing),
                    }
                }
            },
            (InstallPhase::Warning, InstallEvent::Warned) => self.begin(i + 1),
            (InstallPhase::BuildChmod, InstallEvent::MadeExecutable(res)) => match res {
                Err(x) => self.fail_with(x),
                Ok(_) => self.go(InstallPhase::BuildRun),
            },
            (InstallPhase::BuildRun, InstallEvent::Ran(ok)) => {
                if !ok {
                    self.fail_with(ErrorCode::ExecuteError);
                } else if self.hooks {
                    self.go(InstallPhase::BuildHookChmod);
                } else {
                    self.go(InstallPhase::BuildMove);
                }
            },
            (InstallPhase::BuildHookChmod, InstallEvent::MadeExecutable(res)) => match res {
                Err(x) => self.fail_with(x),
                Ok(_) => self.go(InstallPhase::BuildHookRun),
            },
            (InstallPhase::BuildHookRun, InstallEvent::Ran(ok)) => {
                if ok {
                    self.go(InstallPhase::BuildMove);
                } else {
                    self.fail_with(ErrorCode::ExecuteError);
                }
            },
            (InstallPhase::BuildMove, InstallEvent::Moved) => self.go(InstallPhase::Registering),
            (InstallPhase::Listing, InstallEvent::Listed(files)) => {
                assert forall|q: int| 0 <= q < files@.len() implies (#[trigger] files@[q])@.len()
                    < 0x1000_0000_0000 by {
                    assert(views(files@)[q] == files@[q]@);
                }
                if step2_copy_targets_defined(self.workdirs[i].as_str(), &files) {
                    let targets = step2_copy_targets(self.workdirs[i].as_str(), &files);
                    self.sources = files;
                    self.targets = targets;
                    self.copy_at(0);
                } else {
                    self.go(InstallPhase::Stuck);
                }
            },
            (InstallPhase::Copying(j), InstallEvent::Copied(o)) => match o {
                CopyOutcome::Copied => {
                    let n = self.sources.len();
                    assert(j < n);
                    self.copy_at(j + 1)
                },
                CopyOutcome::NoPermission => self.fail_with(ErrorCode::PermissionDenied),
                CopyOutcome::ParentNotCreated => self.fail_with(ErrorCode::CreateDirError),
                CopyOutcome::NotCopied => self.fail_with(ErrorCode::CopyFilesError),
            },
            (InstallPhase::HookCheck, InstallEvent::HooksPresent(p)) => {
                if p {
                    self.go(InstallPhase::HookChmod);
                } else {
                    self.go(InstallPhase::UnhooksMove);
                }
            },
            (InstallPhase::HookChmod, InstallEvent::MadeExecutable(res)) => match res {
                Err(x) => self.fail_with(x),
                Ok(_) => self.go(InstallPhase::HookRun),
            },
            (InstallPhase::HookRun, InstallEvent::Ran(ok)) => {
                if ok {
                    self.go(InstallPhase::UnhooksMove);
                } else {
                    self.fail_with(ErrorCode::ExecuteError);
                }
            },
            (InstallPhase::UnhooksMove, InstallEvent::Moved) => self.go(InstallPhase::Leftovers),
            (InstallPhase::Leftovers, InstallEvent::Removed) => self.go(InstallPhase::Storing),
            (InstallPhase::Storing, InstallEvent::Stored) => self.go(InstallPhase::Registering),
            (InstallPhase::Registering, InstallEvent::Registered(res)) => match res {
                Err(x) => self.fail_with(x),
                Ok(_) => self.go(InstallPhase::Cleaning),
            },
            (InstallPhase::Cleaning, InstallEvent::CleanedUp) => self.begin(i + 1),
            _ => {},
        }
    }
}

/// A successful installation has handled every package: whenever the run
/// reports success, it has gone past the last package, each one installed
/// or skipped as invalid.
pub proof fn law_success_covers_all_packages(r: InstallRunView, e: InstallEventView)
    requires
        install_wf(r),
        r.phase == InstallPhase::Finished(Ok(())) ==> r.index >= run_len(r),
    ensures
        install_next(r, e).phase == InstallPhase::Finished(Ok(())) ==> install_next(r, e).index
            >= run_len(install_next(r, e)),
{
}

/// A finished installation stays finished: no outcome changes it.
pub proof fn law_finished_is_final(r: InstallRunView, e: InstallEventView)
    requires
        r.phase is Finished,
    ensures
        install_next(r, e) == r,
{
}

/// A failed step ends the installation with its error: a work directory
/// that cannot be entered gives `ChangeDirError`, a failing script
/// `ExecuteError`, a copy refused for want of permission
/// `PermissionDenied`, a parent directory that cannot be created
/// `CreateDirError`, a file that cannot be copied `CopyFilesError`.
pub proof fn law_failures_map_to_codes(r: InstallRunView)
    requires
        install_wf(r),
    ensures
        r.phase is Entering ==> install_next(r, InstallEventView::EnteredDir(false)).phase
            == InstallPhase::Finished(Err(ErrorCode::ChangeDirError)),
        (r.phase is BuildRun || r.phase is BuildHookRun || r.phase is HookRun) ==> install_next(
            r,
            InstallEventView::Ran(false),
        ).phase == InstallPhase::Finished(Err(ErrorCode::ExecuteError)),
        r.phase is Copying ==> install_next(r, InstallEventView::Copied(CopyOutcome::NoPermission)).phase
            == InstallPhase::Finished(Err(ErrorCode::PermissionDenied)),
        r.phase is Copying ==> install_next(r, InstallEventView::Copied(CopyOutcome::ParentNotCreated)).phase
            == InstallPhase::Finished(Err(ErrorCode::CreateDirError)),
        r.phase is Copying ==> install_next(r, InstallEventView::Copied(CopyOutcome::NotCopied)).phase
            == InstallPhase::Finished(Err(ErrorCode::CopyFilesError)),
{
}

/// Where the current package's removal script is kept.
pub open spec fn kept_unhooks(r: InstallRunView) -> Seq<char> {
    "/etc/mcospkg/database/remove_info/"@ + r.packages[r.index].id + "-UNHOOKS"@
}

/// In copy mode the removal script is kept before the hook scripts are
/// deleted, whatever the check for `/HOOKS` answers: right after `/HOOKS`
/// is found missing, or right after it ran successfully, the run asks to
/// move `/UNHOOKS` to the package's place in the removal database; the
/// hook scripts are deleted only right after that move; and the run asks
/// for the move only after one of those two outcomes.
pub proof fn law_unhooks_kept_before_leftovers(r: InstallRunView, e: InstallEventView)
    requires
        install_wf(r),
    ensures
        ({
            let n = install_next(r, e);
            let keep = InstallActionView::MoveIfPresent("/UNHOOKS"@, kept_unhooks(r));
            &&& (r.phase is HookCheck && e == InstallEventView::HooksPresent(false)) ==> n.phase
                is UnhooksMove && install_action(n) == keep
            &&& (r.phase is HookRun && e == InstallEventView::Ran(true)) ==> n.phase is UnhooksMove
                && install_action(n) == keep
            &&& (n.phase is UnhooksMove && !(r.phase is UnhooksMove)) ==> (r.phase is HookCheck && e
                == InstallEventView::HooksPresent(false)) || (r.phase is HookRun && e
                == InstallEventView::Ran(true))
            &&& (n.phase is Leftovers && !(r.phase is Leftovers)) ==> r.phase is UnhooksMove && e
                == InstallEventView::Moved
            &&& n.phase is Leftovers ==> install_action(n) == InstallActionView::RemoveFiles(
                seq!["/HOOKS"@, "/UNHOOKS"@],
            )
        }),
{
}

/// The order of a copy-mode installation: the extracted files are listed
/// after entering the work directory; every listed file is copied, in
/// order, before `/HOOKS` is looked for; `/HOOKS` runs only after it was
/// found and made executable; the file index is stored only right after
/// the hook scripts were deleted, and lists the copied files other than
/// the hook scripts; a package is registered, with its own version and
/// dependencies, only right after its file index was stored or its
/// removal script kept after a build; and its work directory is cleaned
/// up only right after it was registered.
pub proof fn law_copy_mode_order(r: InstallRunView, e: InstallEventView)
    requires
        install_wf(r),
    ensures
        ({
            let n = install_next(r, e);
            let p = r.packages[r.index];
            &&& (n.phase is Listing && !(r.phase is Listing)) ==> r.phase == InstallPhase::Entering(Kind::Copy)
                && e == InstallEventView::EnteredDir(true)
            &&& n.phase matches InstallPhase::Copying(j) ==> (!(r.phase is Copying) ==> j == 0
                && r.phase is Listing)
            &&& r.phase matches InstallPhase::Copying(j) ==> (e == InstallEventView::Copied(
                CopyOutcome::Copied,
            ) ==> (n.phase == InstallPhase::Copying((j + 1) as usize) || (n.phase is HookCheck && (j + 1
                >= n.sources.len() || j + 1 >= n.targets.len()))))
            &&& n.phase matches InstallPhase::Copying(j) ==> install_action(n) == InstallActionView::CopyFile(
                n.sources[j as int],
                n.targets[j as int],
            )
            &&& (n.phase is HookCheck && !(r.phase is HookCheck)) ==> (r.phase is Listing && e is Listed) || (
            r.phase is Copying && e == InstallEventView::Copied(CopyOutcome::Copied))
            &&& (n.phase is HookRun && !(r.phase is HookRun)) ==> r.phase is HookChmod && (
            e matches InstallEventView::MadeExecutable(res) && res is Ok)
            &&& (n.phase is HookChmod && !(r.phase is HookChmod)) ==> r.phase is HookCheck && e
                == InstallEventView::HooksPresent(true)
            &&& (n.phase is Storing && !(r.phase is Storing)) ==> r.phase is Leftovers && e
                == InstallEventView::Removed
            &&& n.phase is Storing ==> install_action(n) == InstallActionView::StoreFileIndex(
                "/etc/mcospkg/database/remove_info/"@ + p.id + "-index.json"@,
                json_of_strings(without_hooks(n.targets)),
            )
            &&& (n.phase is Registering && !(r.phase is Registering)) ==> (r.phase is Storing && e
                == InstallEventView::Stored) || (r.phase is BuildMove && e == InstallEventView::Moved)
            &&& n.phase is Registering ==> install_action(n) == InstallActionView::Register(
                p.id,
                p.version,
                p.dependencies,
            )
            &&& (n.phase is Cleaning && !(r.phase is Cleaning)) ==> r.phase is Registering && (
            e matches InstallEventView::Registered(res) && res is Ok)
        }),
{
}

/// How each package begins and ends: the run inspects the current
/// package's work directory and decides from what it holds (neither
/// `HOOKS` nor `UNHOOKS`: skipped; a build script: built; otherwise
/// copied), then enters the work directory; a skipped package is warned
/// about; a built package has its build script made executable and run,
/// and its removal script kept from the work directory; and the run moves
/// on to the next package, one at a time, only after warning about a
/// skipped package or cleaning up an installed one, finishing
/// successfully after the last.
pub proof fn law_package_steps(r: InstallRunView, e: InstallEventView)
    requires
        install_wf(r),
    ensures
        ({
            let n = install_next(r, e);
            let wd = r.workdirs[r.index];
            let p = r.packages[r.index];
            &&& r.phase is Inspecting ==> install_action(r) == InstallActionView::Inspect(wd)
            &&& r.phase is Inspecting ==> (e matches InstallEventView::Inspected(h, u, b) ==> n.phase
                == InstallPhase::Entering(
                if !h && !u {
                    Kind::Invalid
                } else if b {
                    Kind::Build
                } else {
                    Kind::Copy
                },
            ) && n.hooks == h && install_action(n) == InstallActionView::EnterDir(wd))
            &&& (n.phase is Warning && !(r.phase is Warning)) ==> r.phase == InstallPhase::Entering(
                Kind::Invalid,
            ) && e == InstallEventView::EnteredDir(true) && install_action(n)
                == InstallActionView::WarnInvalid(p.id)
            &&& (n.phase is BuildChmod && !(r.phase is BuildChmod)) ==> r.phase == InstallPhase::Entering(
                Kind::Build,
            ) && e == InstallEventView::EnteredDir(true) && install_action(n)
                == InstallActionView::MakeExecutable(wd + "/BUILD-SCRIPT"@)
            &&& (n.phase is BuildRun && !(r.phase is BuildRun)) ==> r.phase is BuildChmod && (
            e matches InstallEventView::MadeExecutable(res) && res is Ok) && install_action(n)
                == InstallActionView::RunBuild(wd + "/BUILD-SCRIPT"@, p.id)
            &&& n.phase is BuildMove ==> install_action(n) == InstallActionView::MoveIfPresent(
                wd + "/UNHOOKS"@,
                kept_unhooks(r),
            )
            &&& n.phase is Cleaning ==> install_action(n) == InstallActionView::CleanUp(wd)
            &&& n.index != r.index ==> n.index == r.index + 1 && ((r.phase is Warning && e
                == InstallEventView::Warned) || (r.phase is Cleaning && e == InstallEventView::CleanedUp))
                && n.phase == if n.index < run_len(r) {
                InstallPhase::Inspecting
            } else {
                InstallPhase::Finished(Ok(()))
            }
        }),
{
}

/// A built package runs its `HOOKS` after the build script and before its
/// removal script is kept: after a successful build of a package whose
/// archive holds `HOOKS`, the run makes `<workdir>/HOOKS` executable and
/// runs it; and the removal script is moved only right after the build
/// (when there is no `HOOKS`) or right after `HOOKS` ran successfully.
pub proof fn law_build_runs_hooks(r: InstallRunView, e: InstallEventView)
    requires
        install_wf(r),
    ensures
        ({
            let n = install_next(r, e);
            let wd = r.workdirs[r.index];
            &&& (r.phase is BuildRun && r.hooks && e == InstallEventView::Ran(true)) ==> n.phase
                is BuildHookChmod && install_action(n) == InstallActionView::MakeExecutable(
                wd + "/HOOKS"@,
            )
            &&& (r.phase is BuildHookChmod && e == InstallEventView::MadeExecutable(Ok(()))) ==> n.phase
                is BuildHookRun && install_action(n) == InstallActionView::RunScript(wd + "/HOOKS"@)
            &&& (n.phase is BuildMove && !(r.phase is BuildMove)) ==> e == InstallEventView::Ran(true) && (
            r.phase is BuildHookRun || (r.phase is BuildRun && !r.hooks))
        }),
{
}

} // verus!
