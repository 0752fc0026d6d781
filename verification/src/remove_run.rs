//! The remover's decisions, step by step.
//!
//! For each package, in order: its removal script is made executable and
//! run; then, when a file index was stored for it (its files were
//! copied), the index is read and each listed file deleted, then the index
//! itself; then the removal script is deleted; finally the package is
//! unregistered. The first failure
//! ends the removal with its error code. `RemoveRun` holds the decisions:
//! it says which action to perform next (`action`) and takes the outcome
//! of that action (`next`).
use vstd::prelude::*;

use crate::pkgmgr::{file_index_path, json_strings_in, parse_file_index, unhooks_store_path};
use crate::types::{views, ErrorCode};

verus! {

/// Where a removal stands.
#[derive(Clone, Copy)]
pub enum RemovePhase {
    /// Waiting to learn whether a file index was stored.
    Inspecting,
    /// Waiting for the text of the file index.
    ReadingIndex,
    /// Waiting for listed file `j` to be deleted.
    RemovingFile(usize),
    /// Waiting for the file index to be deleted.
    RemovingIndex,
    /// Waiting for the removal script to be made executable.
    Chmod,
    /// Waiting for the removal script to run.
    Running,
    /// Waiting for the removal script to be deleted.
    RemovingScript,
    /// Waiting for the package to be unregistered.
    Unregistering,
    /// The removal ended with this outcome.
    Finished(Result<(), ErrorCode>),
    /// The removal cannot go on: the file index is no JSON list of strings.
    Stuck,
}

/// The outcome of the action last asked for.
pub enum RemoveEvent {
    IndexPresent(bool),
    IndexRead(String),
    FileRemoved,
    IndexRemoved,
    MadeExecutable(Result<(), ErrorCode>),
    Ran(bool),
    ScriptRemoved,
    Unregistered(Result<(), ErrorCode>),
}

/// What a `RemoveEvent` holds.
pub enum RemoveEventView {
    IndexPresent(bool),
    IndexRead(Seq<char>),
    FileRemoved,
    IndexRemoved,
    MadeExecutable(Result<(), ErrorCode>),
    Ran(bool),
    ScriptRemoved,
    Unregistered(Result<(), ErrorCode>),
}

impl View for RemoveEvent {
    type V = RemoveEventView;

    open spec fn view(&self) -> RemoveEventView {
        match self {
            RemoveEvent::IndexPresent(b) => RemoveEventView::IndexPresent(*b),
            RemoveEvent::IndexRead(s) => RemoveEventView::IndexRead(s@),
            RemoveEvent::FileRemoved => RemoveEventView::FileRemoved,
            RemoveEvent::IndexRemoved => RemoveEventView::IndexRemoved,
            RemoveEvent::MadeExecutable(r) => RemoveEventView::MadeExecutable(*r),
            RemoveEvent::Ran(b) => RemoveEventView::Ran(*b),
            RemoveEvent::ScriptRemoved => RemoveEventView::ScriptRemoved,
            RemoveEvent::Unregistered(r) => RemoveEventView::Unregistered(*r),
        }
    }
}

/// The action to perform next.
pub enum RemoveAction {
    /// Tell whether the file at `path` (the file index) exists.
    CheckFileIndex { path: String },
    /// Read the text of the file index at `path`.
    ReadFileIndex { path: String },
    /// Delete the file at `path`, warning when that fails.
    RemoveFile { path: String },
    /// Delete the file index at `path`, reporting when that fails.
    RemoveIndex { path: String },
    /// Make the removal script at `path` executable.
    MakeExecutable { path: String },
    /// Run the removal script at `path`.
    RunScript { path: String },
    /// Delete the removal script at `path`, reporting when that fails.
    RemoveScript { path: String },
    /// Unregister `package`.
    Unregister { package: String },
    /// The removal is over with this outcome.
    Finish(Result<(), ErrorCode>),
    /// The removal cannot go on.
    Abort,
}

/// What a `RemoveAction` holds.
pub enum RemoveActionView {
    CheckFileIndex(Seq<char>),
    ReadFileIndex(Seq<char>),
    RemoveFile(Seq<char>),
    RemoveIndex(Seq<char>),
    MakeExecutable(Seq<char>),
    RunScript(Seq<char>),
    RemoveScript(Seq<char>),
    Unregister(Seq<char>),
    Finish(Result<(), ErrorCode>),
    Abort,
}

impl View for RemoveAction {
    type V = RemoveActionView;

    open spec fn view(&self) -> RemoveActionView {
        match self {
            RemoveAction::CheckFileIndex { path } => RemoveActionView::CheckFileIndex(path@),
            RemoveAction::ReadFileIndex { path } => RemoveActionView::ReadFileIndex(path@),
            RemoveAction::RemoveFile { path } => RemoveActionView::RemoveFile(path@),
            RemoveAction::RemoveIndex { path } => RemoveActionView::RemoveIndex(path@),
            RemoveAction::MakeExecutable { path } => RemoveActionView::MakeExecutable(path@),
            RemoveAction::RunScript { path } => RemoveActionView::RunScript(path@),
            RemoveAction::RemoveScript { path } => RemoveActionView::RemoveScript(path@),
            RemoveAction::Unregister { package } => RemoveActionView::Unregister(package@),
            RemoveAction::Finish(r) => RemoveActionView::Finish(*r),
            RemoveAction::Abort => RemoveActionView::Abort,
        }
    }
}

/// The state of a removal.
pub struct RemoveRun {
    packages: Vec<String>,
    index: usize,
    phase: RemovePhase,
    indexed: bool,
    files: Vec<String>,
}

/// What a `RemoveRun` holds.
pub struct RemoveRunView {
    pub packages: Seq<Seq<char>>,
    pub index: int,
    pub phase: RemovePhase,
    /// Whether a file index was stored for the current package.
    pub indexed: bool,
    pub files: Seq<Seq<char>>,
}

impl View for RemoveRun {
    type V = RemoveRunView;

    closed spec fn view(&self) -> RemoveRunView {
        RemoveRunView {
            packages: views(self.packages@),
            index: self.index as int,
            phase: self.phase,
            indexed: self.indexed,
            files: views(self.files@),
        }
    }
}

/// Where the file index of package `p` is kept.
pub open spec fn index_path(p: Seq<char>) -> Seq<char> {
    "/etc/mcospkg/database/remove_info/"@ + p + "-index.json"@
}

/// Where the removal script of package `p` is kept.
pub open spec fn script_path(p: Seq<char>) -> Seq<char> {
    "/etc/mcospkg/database/remove_info/"@ + p + "-UNHOOKS"@
}

/// Moves on to package `i`, or finishes successfully when none is left.
pub open spec fn begin_removal(r: RemoveRunView, i: int) -> RemoveRunView {
    if i >= r.packages.len() {
        RemoveRunView { index: i, phase: RemovePhase::Finished(Ok(())), ..r }
    } else {
        RemoveRunView { index: i, phase: RemovePhase::Inspecting, ..r }
    }
}

/// Moves on to deleting listed file `j`, or to the file index itself.
pub open spec fn remove_from(r: RemoveRunView, j: int) -> RemoveRunView {
    if j < r.files.len() {
        RemoveRunView { phase: RemovePhase::RemovingFile(j as usize), ..r }
    } else {
        RemoveRunView { phase: RemovePhase::RemovingIndex, ..r }
    }
}

/// Goes to `phase`.
pub open spec fn enter(r: RemoveRunView, phase: RemovePhase) -> RemoveRunView {
    RemoveRunView { phase, ..r }
}

/// The state after the outcome `e` of the action asked for in state `r`.
/// An outcome that does not answer that action changes nothing.
pub open spec fn remove_next(r: RemoveRunView, e: RemoveEventView) -> RemoveRunView {
    match (r.phase, e) {
        (RemovePhase::Inspecting, RemoveEventView::IndexPresent(p)) => enter(
            RemoveRunView { indexed: p, ..r },
            RemovePhase::Chmod,
        ),
        (RemovePhase::ReadingIndex, RemoveEventView::IndexRead(raw)) => match json_strings_in(raw) {
            Some(files) => remove_from(RemoveRunView { files, ..r }, 0),
            None => enter(r, RemovePhase::Stuck),
        },
        (RemovePhase::RemovingFile(j), RemoveEventView::FileRemoved) => remove_from(r, j + 1),
        (RemovePhase::RemovingIndex, RemoveEventView::IndexRemoved) => enter(
            r,
            RemovePhase::RemovingScript,
        ),
        (RemovePhase::Chmod, RemoveEventView::MadeExecutable(res)) => match res {
            Err(x) => enter(r, RemovePhase::Finished(Err(x))),
            Ok(_) => enter(r, RemovePhase::Running),
        },
        (RemovePhase::Running, RemoveEventView::Ran(ok)) => if !ok {
            enter(r, RemovePhase::Finished(Err(ErrorCode::ExecuteError)))
        } else if r.indexed {
            enter(r, RemovePhase::ReadingIndex)
        } else {
            enter(r, RemovePhase::RemovingScript)
        },
        (RemovePhase::RemovingScript, RemoveEventView::ScriptRemoved) => enter(
            r,
            RemovePhase::Unregistering,
        ),
        (RemovePhase::Unregistering, RemoveEventView::Unregistered(res)) => match res {
            Err(x) => enter(r, RemovePhase::Finished(Err(x))),
            Ok(_) => begin_removal(r, r.index + 1),
        },
        _ => r,
    }
}

/// The action asked for in state `r`.
pub open spec fn remove_action(r: RemoveRunView) -> RemoveActionView {
    let p = r.packages[r.index];
    match r.phase {
        RemovePhase::Inspecting => RemoveActionView::CheckFileIndex(index_path(p)),
        RemovePhase::ReadingIndex => RemoveActionView::ReadFileIndex(index_path(p)),
        RemovePhase::RemovingFile(j) => RemoveActionView::RemoveFile(r.files[j as int]),
        RemovePhase::RemovingIndex => RemoveActionView::RemoveIndex(index_path(p)),
        RemovePhase::Chmod => RemoveActionView::MakeExecutable(script_path(p)),
        RemovePhase::Running => RemoveActionView::RunScript(script_path(p)),
        RemovePhase::RemovingScript => RemoveActionView::RemoveScript(script_path(p)),
        RemovePhase::Unregistering => RemoveActionView::Unregister(p),
        RemovePhase::Finished(res) => RemoveActionView::Finish(res),
        RemovePhase::Stuck => RemoveActionView::Abort,
    }
}

/// The state is consistent: a package is being worked on unless the run
/// is finished, and a file being deleted is listed.
pub open spec fn remove_wf(r: RemoveRunView) -> bool {
    &&& 0 <= r.index <= r.packages.len()
    &&& r.packages.len() < usize::MAX
    &&& r.phase !is Finished ==> r.index < r.packages.len()
    &&& (r.phase matches RemovePhase::RemovingFile(j) ==> j < r.files.len())
}

impl RemoveRun {
    /// The state is consistent (see `remove_wf`).
    pub closed spec fn wf(&self) -> bool {
        remove_wf(self@)
    }

    /// A removal of `packages`, about to look at the first (or finished
    /// when there is none).
    pub fn new(packages: Vec<String>) -> (r: Self)
        requires
            packages@.len() < usize::MAX,
        ensures
            r.wf(),
            r@ == begin_removal(
                RemoveRunView {
                    packages: views(packages@),
                    index: 0,
                    phase: RemovePhase::Inspecting,
                    indexed: false,
                    files: Seq::empty(),
                },
                0,
            ),
    {
        let phase = if packages.len() == 0 {
            RemovePhase::Finished(Ok(()))
        } else {
            RemovePhase::Inspecting
        };
        let r = RemoveRun { packages, index: 0, phase, indexed: false, files: Vec::new() };
        assert(views(r.files@) =~= Seq::<Seq<char>>::empty());
        r
    }

    /// The action to perform next.
    pub fn action(&self) -> (a: RemoveAction)
        requires
            self.wf(),
        ensures
            a@ == remove_action(self@),
    {
        let i = self.index;
        match self.phase {
            RemovePhase::Finished(res) => RemoveAction::Finish(res),
            RemovePhase::Stuck => RemoveAction::Abort,
            RemovePhase::Inspecting => RemoveAction::CheckFileIndex {
                path: file_index_path(self.packages[i].as_str()),
            },
            RemovePhase::ReadingIndex => RemoveAction::ReadFileIndex {
                path: file_index_path(self.packages[i].as_str()),
            },
            RemovePhase::RemovingFile(j) => RemoveAction::RemoveFile { path: self.files[j].clone() },
            RemovePhase::RemovingIndex => RemoveAction::RemoveIndex {
                path: file_index_path(self.packages[i].as_str()),
            },
            RemovePhase::Chmod => RemoveAction::MakeExecutable {
                path: unhooks_store_path(self.packages[i].as_str()),
            },
            RemovePhase::Running => RemoveAction::RunScript {
                path: unhooks_store_path(self.packages[i].as_str()),
            },
            RemovePhase::RemovingScript => RemoveAction::RemoveScript {
                path: unhooks_store_path(self.packages[i].as_str()),
            },
            RemovePhase::Unregistering => RemoveAction::Unregister { package: self.packages[i].clone() },
        }
    }

    /// Takes the outcome of the action asked for.
    pub fn next(&mut self, e: RemoveEvent)
        requires
            old(self).wf(),
        ensures
            final(self).wf(),
            final(self)@ == remove_next(old(self)@, e@),
    {
        let i = self.index;
        match (self.phase, e) {
            (RemovePhase::Inspecting, RemoveEvent::IndexPresent(p)) => {
                self.indexed = p;
                self.phase = RemovePhase::Chmod;
            },
            (RemovePhase::ReadingIndex, RemoveEvent::IndexRead(raw)) => match parse_file_index(
                raw.as_str(),
            ) {
                Some(files) => {
                    let n = files.len();
                    self.files = files;
                    if n > 0 {
                        self.phase = RemovePhase::RemovingFile(0);
                    } else {
                        self.phase = RemovePhase::RemovingIndex;
                    }
                },
                None => {
                    self.phase = RemovePhase::Stuck;
                },
            },
            (RemovePhase::RemovingFile(j), RemoveEvent::FileRemoved) => {
                let n = self.files.len();
                if j + 1 < n {
                    self.phase = RemovePhase::RemovingFile(j + 1);
                } else {
                    self.phase = RemovePhase::RemovingIndex;
                }
            },
            (RemovePhase::RemovingIndex, RemoveEvent::IndexRemoved) => {
                self.phase = RemovePhase::RemovingScript;
            },
            (RemovePhase::Chmod, RemoveEvent::MadeExecutable(res)) => match res {
                Err(x) => {
                    self.phase = RemovePhase::Finished(Err(x));
                },
                Ok(_) => {
                    self.phase = RemovePhase::Running;
                },
            },
            (RemovePhase::Running, RemoveEvent::Ran(ok)) => {
                if !ok {
                    self.phase = RemovePhase::Finished(Err(ErrorCode::ExecuteError));
                } else if self.indexed {
                    self.phase = RemovePhase::ReadingIndex;
                } else {
                    self.phase = RemovePhase::RemovingScript;
                }
            },
            (RemovePhase::RemovingScript, RemoveEvent::ScriptRemoved) => {
                self.phase = RemovePhase::Unregistering;
            },
            (RemovePhase::Unregistering, RemoveEvent::Unregistered(res)) => match res {
                Err(x) => {
                    self.phase = RemovePhase::Finished(Err(x));
                },
                Ok(_) => {
                    let n = self.packages.len();
                    self.index = i + 1;
                    if i + 1 >= n {
                        self.phase = RemovePhase::Finished(Ok(()));
                    } else {
                        self.phase = RemovePhase::Inspecting;
                    }
                },
            },
            _ => {},
        }
    }
}

/// A successful removal has removed every package: whenever the run
/// reports success, it has gone past the last package.
pub proof fn law_removal_success_covers_all(r: RemoveRunView, e: RemoveEventView)
    requires
        remove_wf(r),
        r.phase == RemovePhase::Finished(Ok(())) ==> r.index >= r.packages.len(),
    ensures
        remove_next(r, e).phase == RemovePhase::Finished(Ok(())) ==> remove_next(r, e).index
            >= remove_next(r, e).packages.len(),
{
}

/// A package is unregistered only after its removal script ran
/// successfully: the run asks to unregister only right after the script
/// was deleted, which follows its successful run.
pub proof fn law_unregister_after_script(r: RemoveRunView, e: RemoveEventView)
    requires
        remove_wf(r),
        remove_next(r, e).phase is Unregistering,
        !(r.phase is Unregistering),
    ensures
        r.phase is RemovingScript,
        e is ScriptRemoved,
{
}

/// The order of a removal: the run first asks whether a file index was
/// stored for the current package, then makes its removal script
/// executable and runs it; only after the script ran successfully does it
/// read the index (when there is one), delete each listed file in order
/// and then the index; it deletes the removal script only right after
/// the script ran (no index) or the index was deleted; it unregisters the
/// package by its own name; a failure to make the script executable or to
/// run it ends the removal with its error; and it moves on to the next
/// package, one at a time, only after the package was unregistered,
/// finishing successfully after the last.
pub proof fn law_removal_order(r: RemoveRunView, e: RemoveEventView)
    requires
        remove_wf(r),
    ensures
        ({
            let n = remove_next(r, e);
            let p = r.packages[r.index];
            &&& r.phase is Inspecting ==> remove_action(r) == RemoveActionView::CheckFileIndex(index_path(p))
            &&& r.phase is Inspecting ==> (e matches RemoveEventView::IndexPresent(b) ==> n.phase
                is Chmod && n.indexed == b)
            &&& n.phase is Chmod ==> remove_action(n) == RemoveActionView::MakeExecutable(script_path(p))
            &&& (n.phase is Chmod && !(r.phase is Chmod)) ==> r.phase is Inspecting
            &&& (n.phase is Running && !(r.phase is Running)) ==> r.phase is Chmod && (
            e matches RemoveEventView::MadeExecutable(res) && res is Ok) && remove_action(n)
                == RemoveActionView::RunScript(script_path(p))
            &&& r.phase is Chmod ==> (e matches RemoveEventView::MadeExecutable(res) ==> (res matches Err(
                x,
            ) ==> n.phase == RemovePhase::Finished(Err(x))))
            &&& r.phase is Running ==> (e == RemoveEventView::Ran(false) ==> n.phase == RemovePhase::Finished(
                Err(ErrorCode::ExecuteError),
            ))
            &&& (n.phase is ReadingIndex && !(r.phase is ReadingIndex)) ==> r.phase is Running && e
                == RemoveEventView::Ran(true) && r.indexed && remove_action(n)
                == RemoveActionView::ReadFileIndex(index_path(p))
            &&& (n.phase is RemovingIndex && !(r.phase is RemovingIndex)) ==> remove_action(n)
                == RemoveActionView::RemoveIndex(index_path(p)) && ((r.phase is ReadingIndex
                && n.files.len() == 0) || (r.phase matches RemovePhase::RemovingFile(j) && e
                == RemoveEventView::FileRemoved && j + 1 >= r.files.len()))
            &&& (n.phase is RemovingScript && !(r.phase is RemovingScript)) ==> remove_action(n)
                == RemoveActionView::RemoveScript(script_path(p)) && ((r.phase is Running && e
                == RemoveEventView::Ran(true) && !r.indexed) || (r.phase is RemovingIndex && e
                == RemoveEventView::IndexRemoved))
            &&& n.phase is Unregistering ==> remove_action(n) == RemoveActionView::Unregister(p)
            &&& n.index != r.index ==> n.index == r.index + 1 && r.phase is Unregistering && (
            e matches RemoveEventView::Unregistered(res) && res is Ok) && n.phase == if n.index
                < r.packages.len() {
                RemovePhase::Inspecting
            } else {
                RemovePhase::Finished(Ok(()))
            }
        }),
{
}

/// The removal script runs before any listed file is deleted: the run
/// starts reading the file index, deleting listed files or deleting the
/// index only right after the removal script was reported to have run
/// successfully, and only when a file index was stored for the package.
pub proof fn law_script_runs_before_files_are_deleted(r: RemoveRunView, e: RemoveEventView)
    requires
        remove_wf(r),
    ensures
        ({
            let n = remove_next(r, e);
            let deleting = |ph: RemovePhase|
                ph is ReadingIndex || ph is RemovingFile || ph is RemovingIndex;
            (deleting(n.phase) && !deleting(r.phase)) ==> r.phase is Running && e
                == RemoveEventView::Ran(true) && r.indexed
        }),
{
}

/// The remover deletes what the file index lists: when the index text
/// reads as the files `fs`, reading it makes the remover delete each of
/// `fs` in order, one per step, and then the index itself.
pub proof fn law_removal_deletes_indexed_files(r: RemoveRunView, raw: Seq<char>, fs: Seq<Seq<char>>)
    requires
        remove_wf(r),
        r.phase is ReadingIndex,
        json_strings_in(raw) == Some(fs),
        fs.len() <= usize::MAX,
    ensures
        ({
            let r1 = remove_next(r, RemoveEventView::IndexRead(raw));
            &&& r1.files == fs
            &&& r1.index == r.index
            &&& r1.phase == if fs.len() > 0 {
                RemovePhase::RemovingFile(0)
            } else {
                RemovePhase::RemovingIndex
            }
            &&& forall|j: int|
                0 <= j < fs.len() ==> {
                    let rj = enter(r1, RemovePhase::RemovingFile(j as usize));
                    &&& remove_action(rj) == RemoveActionView::RemoveFile(#[trigger] fs[j])
                    &&& remove_next(rj, RemoveEventView::FileRemoved).phase == if j + 1 < fs.len() {
                        RemovePhase::RemovingFile((j + 1) as usize)
                    } else {
                        RemovePhase::RemovingIndex
                    }
                }
        }),
{
}

/// A finished removal stays finished.
pub proof fn law_removal_finished_is_final(r: RemoveRunView, e: RemoveEventView)
    requires
        r.phase is Finished,
    ensures
        remove_next(r, e) == r,
{
}

} // verus!
