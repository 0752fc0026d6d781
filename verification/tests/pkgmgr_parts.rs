//! Tests of the installer's and remover's smaller decisions: kinds,
//! places, target paths, file indexes, work directory names and error
//! numbers.
use mcospkg::pkgmgr::{
    build_command, build_log_name, build_script_path, char_width, cut_offset_exec, cut_path,
    digit_char, file_index_entries, file_index_json, file_index_path, parse_file_index,
    random_suffix, step1_check_instype, step1_check_pkg_instype, step2_copy_targets,
    step2_copy_targets_defined, temp_workdir_path, unhooks_source_path, unhooks_store_path,
};
use mcospkg::types::ErrorCode;

fn s(x: &str) -> String {
    x.to_string()
}

#[test]
fn package_kinds() {
    assert_eq!(step1_check_pkg_instype(true), "build");
    assert_eq!(step1_check_pkg_instype(false), "copy");
    assert_eq!(step1_check_instype(true), "copy");
    assert_eq!(step1_check_instype(false), "build");
}

#[test]
fn places_and_commands() {
    assert_eq!(build_script_path("/tmp/w"), "/tmp/w/BUILD-SCRIPT");
    assert_eq!(unhooks_source_path("/tmp/w"), "/tmp/w/UNHOOKS");
    assert_eq!(unhooks_store_path("app"), "/etc/mcospkg/database/remove_info/app-UNHOOKS");
    assert_eq!(file_index_path("app"), "/etc/mcospkg/database/remove_info/app-index.json");
    assert_eq!(
        build_command("/tmp/w/BUILD-SCRIPT", "app-x.log"),
        "/tmp/w/BUILD-SCRIPT > /dev/null 2> /var/log/mcospkg/app-x.log"
    );
}

#[test]
fn build_log_name_has_a_timestamp() {
    let n = build_log_name("app");
    assert!(n.starts_with("app-"));
    assert!(n.ends_with(".log"));
    // YYYY-mm-dd-HH-MM-SS
    let stamp = &n[4..n.len() - 4];
    assert_eq!(stamp.len(), 19);
    let fields: Vec<&str> = stamp.split('-').collect();
    assert_eq!(fields.len(), 6);
    assert_eq!(fields[0].len(), 4);
    for f in &fields[1..] {
        assert_eq!(f.len(), 2);
    }
    assert!(fields.iter().all(|f| f.chars().all(|c| c.is_ascii_digit())));
}

#[test]
fn cut_offsets() {
    assert_eq!(cut_offset_exec("/tmp/mcospkg123456"), Some(18));
    assert_eq!(cut_offset_exec("/tmp/other"), None);
    // Bytes, not characters, are counted.
    assert_eq!(cut_offset_exec("/tmp/é/mcospkg1"), Some(21));
    assert_eq!(char_width('a'), 1);
    assert_eq!(char_width('é'), 2);
    assert_eq!(char_width('€'), 3);
    assert_eq!(char_width('😀'), 4);
}

#[test]
fn paths_are_cut_at_byte_offsets() {
    assert_eq!(cut_path("/tmp/mcospkg123456/usr/bin/x", 18), Some(s("/usr/bin/x")));
    assert_eq!(cut_path("/tmp/mcospkg123456", 18), Some(String::new()));
    assert_eq!(cut_path("/short", 18), None);
    // The cut must fall between two characters.
    assert_eq!(cut_path("éa", 1), None);
    assert_eq!(cut_path("éa", 2), Some(s("a")));
}

#[test]
fn copy_targets() {
    let wd = "/tmp/mcospkg123456";
    let paths = vec![format!("{}/usr/bin/x", wd), format!("{}/HOOKS", wd)];
    assert!(step2_copy_targets_defined(wd, &paths));
    assert_eq!(step2_copy_targets(wd, &paths), vec![s("/usr/bin/x"), s("/HOOKS")]);
    assert!(!step2_copy_targets_defined(wd, &vec![s("/x")]));
    assert!(step2_copy_targets_defined("/tmp/other", &vec![s("/x")]));
    assert!(step2_copy_targets("/tmp/other", &vec![s("/tmp/other/x")]).is_empty());
}

#[test]
fn file_index_leaves_out_hook_scripts() {
    let targets = vec![s("/usr/bin/x"), s("/HOOKS"), s("/opt/UNHOOKS"), s("/etc/x/HOOKS.d/y"), s("/etc/hooks")];
    assert_eq!(file_index_entries(&targets), vec![s("/usr/bin/x"), s("/etc/hooks")]);
}

#[test]
fn file_index_json_reads_back() {
    let files = vec![s("/usr/bin/x"), s("/etc/\"quoted\"")];
    let text = file_index_json(&files);
    assert_eq!(text, "[\"/usr/bin/x\",\"/etc/\\\"quoted\\\"\"]");
    assert_eq!(parse_file_index(&text), Some(files));
    assert_eq!(file_index_json(&vec![]), "[]");
    assert_eq!(parse_file_index("[]"), Some(vec![]));
}

#[test]
fn file_index_json_escapes_control_characters() {
    let files = vec![s("a\tb\\c"), s("\u{1}\u{1f}\u{8}\u{c}\r\n"), s("é\u{7f}/")];
    let text = file_index_json(&files);
    assert_eq!(
        text,
        "[\"a\\tb\\\\c\",\"\\u0001\\u001f\\b\\f\\r\\n\",\"é\u{7f}/\"]"
    );
    assert_eq!(parse_file_index(&text), Some(files));
}

#[test]
fn bad_file_index_is_refused() {
    assert_eq!(parse_file_index("not json"), None);
    assert_eq!(parse_file_index("[1, 2]"), None);
    assert_eq!(parse_file_index("{\"a\": \"b\"}"), None);
}

#[test]
fn work_directory_names() {
    let p = temp_workdir_path();
    assert_eq!(p.len(), 18);
    assert!(p.starts_with("/tmp/mcospkg"));
    assert!(p[12..].chars().all(|c| c.is_ascii_digit()));
    let suffix = random_suffix();
    assert_eq!(suffix.len(), 6);
    assert!(suffix.chars().all(|c| c.is_ascii_digit()));
    assert_eq!(digit_char(0), '0');
    assert_eq!(digit_char(7), '7');
    // The directory name is cut where the installer expects.
    assert_eq!(cut_offset_exec(&p), Some(18));
    let files = vec![format!("{}/usr/bin/x", p), format!("{}/étc/ü", p), p.clone()];
    assert!(step2_copy_targets_defined(&p, &files));
    assert_eq!(step2_copy_targets(&p, &files), vec![s("/usr/bin/x"), s("/étc/ü"), s("")]);
}

#[test]
fn error_numbers() {
    assert_eq!(ErrorCode::FileNotFound.code(), 1);
    assert_eq!(ErrorCode::CopyFilesError.code(), 2);
    assert_eq!(ErrorCode::PermissionDenied.code(), 3);
    assert_eq!(ErrorCode::CleanDirError.code(), 4);
    assert_eq!(ErrorCode::ChangeDirError.code(), 5);
    assert_eq!(ErrorCode::CreateDirError.code(), 6);
    assert_eq!(ErrorCode::ExecuteError.code(), 7);
    assert_eq!(ErrorCode::UnregisterError.code(), 8);
    assert_eq!(ErrorCode::Other.code(), -1);
    let n: i32 = ErrorCode::ExecuteError.into();
    assert_eq!(n, 7);
    assert_eq!(i32::from(ErrorCode::Other), -1);
}
