//! Walks through the installer's and the remover's decisions, action by
//! action.
use mcospkg::install_run::{CopyOutcome, InstallAction, InstallEvent, InstallRun};
use mcospkg::remove_run::{RemoveAction, RemoveEvent, RemoveRun};
use mcospkg::types::{ErrorCode, Package};

fn s(x: &str) -> String {
    x.to_string()
}

fn show(a: &InstallAction) -> String {
    match a {
        InstallAction::Inspect { workdir } => format!("inspect {}", workdir),
        InstallAction::EnterDir { workdir } => format!("cd {}", workdir),
        InstallAction::WarnInvalid { package } => format!("warn {}", package),
        InstallAction::MakeExecutable { path } => format!("chmod {}", path),
        InstallAction::RunBuild { script, package } => format!("build {} {}", script, package),
        InstallAction::MoveIfPresent { from, to } => format!("mv {} {}", from, to),
        InstallAction::ListFiles { workdir } => format!("ls {}", workdir),
        InstallAction::CopyFile { source, target } => format!("cp {} {}", source, target),
        InstallAction::CheckHooks => s("hooks?"),
        InstallAction::RunScript { path } => format!("run {}", path),
        InstallAction::RemoveFiles { paths } => format!("rm {}", paths.join(" ")),
        InstallAction::StoreFileIndex { path, contents } => format!("store {} {}", path, contents),
        InstallAction::Register { package, version, dependencies } => {
            format!("register {} {} [{}]", package, version, dependencies.join(","))
        }
        InstallAction::CleanUp { workdir } => format!("clean {}", workdir),
        InstallAction::Finish(r) => format!("finish {:?}", r),
        InstallAction::Abort => s("abort"),
    }
}

fn show_removal(a: &RemoveAction) -> String {
    match a {
        RemoveAction::CheckFileIndex { path } => format!("index? {}", path),
        RemoveAction::ReadFileIndex { path } => format!("read {}", path),
        RemoveAction::RemoveFile { path } => format!("rm {}", path),
        RemoveAction::RemoveIndex { path } => format!("rm-index {}", path),
        RemoveAction::MakeExecutable { path } => format!("chmod {}", path),
        RemoveAction::RunScript { path } => format!("run {}", path),
        RemoveAction::RemoveScript { path } => format!("rm-script {}", path),
        RemoveAction::Unregister { package } => format!("unregister {}", package),
        RemoveAction::Finish(r) => format!("finish {:?}", r),
        RemoveAction::Abort => s("abort"),
    }
}

const WD: &str = "/tmp/mcospkg123456";
const STORE: &str = "/etc/mcospkg/database/remove_info/";

fn one(id: &str, deps: Vec<String>) -> InstallRun {
    InstallRun::new(vec![Package::new(s(id), s("/c/a.tar.xz"), deps, s("1.0"))], vec![s(WD)])
}

fn step(r: &mut InstallRun, e: InstallEvent) -> String {
    r.next(e);
    show(&r.action())
}

#[test]
fn copy_package_walkthrough() {
    let mut r = one("app", vec![s("lib")]);
    assert_eq!(show(&r.action()), format!("inspect {}", WD));
    let inspected = InstallEvent::Inspected { has_hooks: true, has_unhooks: true, has_build_script: false };
    assert_eq!(step(&mut r, inspected), format!("cd {}", WD));
    assert_eq!(step(&mut r, InstallEvent::EnteredDir(true)), format!("ls {}", WD));
    let files = vec![format!("{}/usr/bin/app", WD), format!("{}/HOOKS", WD)];
    assert_eq!(
        step(&mut r, InstallEvent::Listed(files)),
        format!("cp {}/usr/bin/app /usr/bin/app", WD)
    );
    assert_eq!(step(&mut r, InstallEvent::Copied(CopyOutcome::Copied)), format!("cp {}/HOOKS /HOOKS", WD));
    assert_eq!(step(&mut r, InstallEvent::Copied(CopyOutcome::Copied)), "hooks?");
    assert_eq!(step(&mut r, InstallEvent::HooksPresent(true)), "chmod /HOOKS");
    assert_eq!(step(&mut r, InstallEvent::MadeExecutable(Ok(()))), "run /HOOKS");
    assert_eq!(step(&mut r, InstallEvent::Ran(true)), format!("mv /UNHOOKS {}app-UNHOOKS", STORE));
    assert_eq!(step(&mut r, InstallEvent::Moved), "rm /HOOKS /UNHOOKS");
    assert_eq!(
        step(&mut r, InstallEvent::Removed),
        format!("store {}app-index.json [\"/usr/bin/app\"]", STORE)
    );
    assert_eq!(step(&mut r, InstallEvent::Stored), "register app 1.0 [lib]");
    assert_eq!(step(&mut r, InstallEvent::Registered(Ok(()))), format!("clean {}", WD));
    assert_eq!(step(&mut r, InstallEvent::CleanedUp), "finish Ok(())");
    // A finished run stays finished.
    assert_eq!(step(&mut r, InstallEvent::Warned), "finish Ok(())");
}

#[test]
fn build_package_walkthrough() {
    let mut r = one("tool", vec![]);
    let inspected = InstallEvent::Inspected { has_hooks: false, has_unhooks: true, has_build_script: true };
    assert_eq!(step(&mut r, inspected), format!("cd {}", WD));
    assert_eq!(step(&mut r, InstallEvent::EnteredDir(true)), format!("chmod {}/BUILD-SCRIPT", WD));
    assert_eq!(
        step(&mut r, InstallEvent::MadeExecutable(Ok(()))),
        format!("build {}/BUILD-SCRIPT tool", WD)
    );
    assert_eq!(
        step(&mut r, InstallEvent::Ran(true)),
        format!("mv {}/UNHOOKS {}tool-UNHOOKS", WD, STORE)
    );
    assert_eq!(step(&mut r, InstallEvent::Moved), "register tool 1.0 []");
    assert_eq!(step(&mut r, InstallEvent::Registered(Ok(()))), format!("clean {}", WD));
    assert_eq!(step(&mut r, InstallEvent::CleanedUp), "finish Ok(())");
}

#[test]
fn built_package_runs_its_hooks_after_the_build() {
    let mut r = one("tool", vec![]);
    let inspected = InstallEvent::Inspected { has_hooks: true, has_unhooks: true, has_build_script: true };
    assert_eq!(step(&mut r, inspected), format!("cd {}", WD));
    assert_eq!(step(&mut r, InstallEvent::EnteredDir(true)), format!("chmod {}/BUILD-SCRIPT", WD));
    assert_eq!(
        step(&mut r, InstallEvent::MadeExecutable(Ok(()))),
        format!("build {}/BUILD-SCRIPT tool", WD)
    );
    assert_eq!(step(&mut r, InstallEvent::Ran(true)), format!("chmod {}/HOOKS", WD));
    assert_eq!(step(&mut r, InstallEvent::MadeExecutable(Ok(()))), format!("run {}/HOOKS", WD));
    assert_eq!(
        step(&mut r, InstallEvent::Ran(true)),
        format!("mv {}/UNHOOKS {}tool-UNHOOKS", WD, STORE)
    );
    assert_eq!(step(&mut r, InstallEvent::Moved), "register tool 1.0 []");

    let mut r = one("tool", vec![]);
    step(&mut r, InstallEvent::Inspected { has_hooks: true, has_unhooks: false, has_build_script: true });
    step(&mut r, InstallEvent::EnteredDir(true));
    step(&mut r, InstallEvent::MadeExecutable(Ok(())));
    step(&mut r, InstallEvent::Ran(true));
    step(&mut r, InstallEvent::MadeExecutable(Ok(())));
    assert_eq!(step(&mut r, InstallEvent::Ran(false)), "finish Err(ExecuteError)");
}

#[test]
fn invalid_package_is_skipped() {
    let packages = vec![
        Package::new(s("odd"), s("/c/o.tar.xz"), vec![], s("1")),
        Package::new(s("next"), s("/c/n.tar.xz"), vec![], s("2")),
    ];
    let mut r = InstallRun::new(packages, vec![s("/tmp/mcospkg000001"), s("/tmp/mcospkg000002")]);
    let inspected = InstallEvent::Inspected { has_hooks: false, has_unhooks: false, has_build_script: true };
    assert_eq!(step(&mut r, inspected), "cd /tmp/mcospkg000001");
    assert_eq!(step(&mut r, InstallEvent::EnteredDir(true)), "warn odd");
    assert_eq!(step(&mut r, InstallEvent::Warned), "inspect /tmp/mcospkg000002");
}

#[test]
fn failures_end_with_their_codes() {
    let mut r = one("a", vec![]);
    let inspected = InstallEvent::Inspected { has_hooks: true, has_unhooks: false, has_build_script: false };
    step(&mut r, inspected);
    assert_eq!(step(&mut r, InstallEvent::EnteredDir(false)), "finish Err(ChangeDirError)");

    let mut r = one("a", vec![]);
    step(&mut r, InstallEvent::Inspected { has_hooks: true, has_unhooks: true, has_build_script: true });
    step(&mut r, InstallEvent::EnteredDir(true));
    step(&mut r, InstallEvent::MadeExecutable(Ok(())));
    assert_eq!(step(&mut r, InstallEvent::Ran(false)), "finish Err(ExecuteError)");

    let mut r = one("a", vec![]);
    step(&mut r, InstallEvent::Inspected { has_hooks: true, has_unhooks: true, has_build_script: false });
    step(&mut r, InstallEvent::EnteredDir(true));
    step(&mut r, InstallEvent::Listed(vec![format!("{}/etc/a", WD)]));
    assert_eq!(
        step(&mut r, InstallEvent::Copied(CopyOutcome::ParentNotCreated)),
        "finish Err(CreateDirError)"
    );

    let mut r = one("a", vec![]);
    step(&mut r, InstallEvent::Inspected { has_hooks: true, has_unhooks: true, has_build_script: false });
    step(&mut r, InstallEvent::EnteredDir(true));
    step(&mut r, InstallEvent::Listed(vec![format!("{}/etc/a", WD)]));
    assert_eq!(step(&mut r, InstallEvent::Copied(CopyOutcome::NotCopied)), "finish Err(CopyFilesError)");

    let mut r = one("a", vec![]);
    step(&mut r, InstallEvent::Inspected { has_hooks: true, has_unhooks: true, has_build_script: false });
    step(&mut r, InstallEvent::EnteredDir(true));
    step(&mut r, InstallEvent::Listed(vec![format!("{}/etc/a", WD)]));
    assert_eq!(
        step(&mut r, InstallEvent::Copied(CopyOutcome::NoPermission)),
        "finish Err(PermissionDenied)"
    );

    let mut r = one("a", vec![]);
    step(&mut r, InstallEvent::Inspected { has_hooks: true, has_unhooks: true, has_build_script: true });
    step(&mut r, InstallEvent::EnteredDir(true));
    assert_eq!(
        step(&mut r, InstallEvent::MadeExecutable(Err(ErrorCode::PermissionDenied))),
        "finish Err(PermissionDenied)"
    );
}

#[test]
fn unrelated_outcome_changes_nothing() {
    let mut r = one("a", vec![]);
    assert_eq!(step(&mut r, InstallEvent::Stored), format!("inspect {}", WD));
}

#[test]
fn file_shorter_than_the_work_directory_stops_the_run() {
    let mut r = one("a", vec![]);
    step(&mut r, InstallEvent::Inspected { has_hooks: true, has_unhooks: true, has_build_script: false });
    step(&mut r, InstallEvent::EnteredDir(true));
    assert_eq!(step(&mut r, InstallEvent::Listed(vec![s("/x")])), "abort");
}

#[test]
fn work_directory_without_marker_copies_nothing() {
    let mut r = InstallRun::new(vec![Package::new(s("a"), s("/p"), vec![], s("1"))], vec![s("/tmp/other")]);
    step(&mut r, InstallEvent::Inspected { has_hooks: true, has_unhooks: true, has_build_script: false });
    step(&mut r, InstallEvent::EnteredDir(true));
    assert_eq!(step(&mut r, InstallEvent::Listed(vec![s("/tmp/other/f")])), "hooks?");
}

#[test]
fn empty_installation_is_finished() {
    let r = InstallRun::new(vec![], vec![]);
    assert_eq!(show(&r.action()), "finish Ok(())");
    let r = InstallRun::new(vec![Package::new(s("a"), s("/p"), vec![], s("1"))], vec![]);
    assert_eq!(show(&r.action()), "finish Ok(())");
}

fn rstep(r: &mut RemoveRun, e: RemoveEvent) -> String {
    r.next(e);
    show_removal(&r.action())
}

#[test]
fn removal_of_a_copied_package() {
    let mut r = RemoveRun::new(vec![s("app")]);
    assert_eq!(show_removal(&r.action()), format!("index? {}app-index.json", STORE));
    // The removal script runs before any listed file is deleted.
    assert_eq!(rstep(&mut r, RemoveEvent::IndexPresent(true)), format!("chmod {}app-UNHOOKS", STORE));
    assert_eq!(rstep(&mut r, RemoveEvent::MadeExecutable(Ok(()))), format!("run {}app-UNHOOKS", STORE));
    assert_eq!(rstep(&mut r, RemoveEvent::Ran(true)), format!("read {}app-index.json", STORE));
    assert_eq!(
        rstep(&mut r, RemoveEvent::IndexRead(s("[\"/usr/bin/app\",\"/etc/app.conf\"]"))),
        "rm /usr/bin/app"
    );
    assert_eq!(rstep(&mut r, RemoveEvent::FileRemoved), "rm /etc/app.conf");
    assert_eq!(rstep(&mut r, RemoveEvent::FileRemoved), format!("rm-index {}app-index.json", STORE));
    assert_eq!(rstep(&mut r, RemoveEvent::IndexRemoved), format!("rm-script {}app-UNHOOKS", STORE));
    assert_eq!(rstep(&mut r, RemoveEvent::ScriptRemoved), "unregister app");
    assert_eq!(rstep(&mut r, RemoveEvent::Unregistered(Ok(()))), "finish Ok(())");
    assert_eq!(rstep(&mut r, RemoveEvent::FileRemoved), "finish Ok(())");
}

#[test]
fn removal_of_a_built_package_then_the_next() {
    let mut r = RemoveRun::new(vec![s("tool"), s("lib")]);
    assert_eq!(rstep(&mut r, RemoveEvent::IndexPresent(false)), format!("chmod {}tool-UNHOOKS", STORE));
    rstep(&mut r, RemoveEvent::MadeExecutable(Ok(())));
    rstep(&mut r, RemoveEvent::Ran(true));
    rstep(&mut r, RemoveEvent::ScriptRemoved);
    assert_eq!(rstep(&mut r, RemoveEvent::Unregistered(Ok(()))), format!("index? {}lib-index.json", STORE));
}

#[test]
fn removal_failures() {
    let mut r = RemoveRun::new(vec![s("tool")]);
    rstep(&mut r, RemoveEvent::IndexPresent(false));
    rstep(&mut r, RemoveEvent::MadeExecutable(Ok(())));
    assert_eq!(rstep(&mut r, RemoveEvent::Ran(false)), "finish Err(ExecuteError)");

    let mut r = RemoveRun::new(vec![s("tool")]);
    rstep(&mut r, RemoveEvent::IndexPresent(false));
    rstep(&mut r, RemoveEvent::MadeExecutable(Ok(())));
    rstep(&mut r, RemoveEvent::Ran(true));
    rstep(&mut r, RemoveEvent::ScriptRemoved);
    assert_eq!(
        rstep(&mut r, RemoveEvent::Unregistered(Err(ErrorCode::UnregisterError))),
        "finish Err(UnregisterError)"
    );

    let mut r = RemoveRun::new(vec![s("tool")]);
    rstep(&mut r, RemoveEvent::IndexPresent(true));
    rstep(&mut r, RemoveEvent::MadeExecutable(Ok(())));
    rstep(&mut r, RemoveEvent::Ran(true));
    assert_eq!(rstep(&mut r, RemoveEvent::IndexRead(s("not json"))), "abort");

    // A failing removal script leaves the listed files alone.
    let mut r = RemoveRun::new(vec![s("app")]);
    rstep(&mut r, RemoveEvent::IndexPresent(true));
    rstep(&mut r, RemoveEvent::MadeExecutable(Ok(())));
    assert_eq!(rstep(&mut r, RemoveEvent::Ran(false)), "finish Err(ExecuteError)");

    let r = RemoveRun::new(vec![]);
    assert_eq!(show_removal(&r.action()), "finish Ok(())");
}
