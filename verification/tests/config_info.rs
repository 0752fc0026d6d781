//! Tests of the repository configuration format and of what
//! `mcospkg-info` prints.
use mcospkg::config::{parse_repo_config, repo_config_line, repo_index_path, repo_index_url};
use mcospkg::info::{info_reply, introduce, os_license, repo_site, InfoReply};
use mcospkg::update_data::UpdateData;

fn pairs(raw: &str) -> Vec<(String, String)> {
    match parse_repo_config(raw) {
        Ok(m) => m.into_pairs(),
        Err(line) => panic!("malformed line {:?}", line),
    }
}

#[test]
fn config_reads_name_and_url() {
    let got = pairs("main = https://example.org/repo/main\n");
    assert_eq!(got, vec![("main".to_string(), "https://example.org/repo/main".to_string())]);
}

#[test]
fn config_refuses_a_line_without_equals() {
    let raw = "# the repositories\nmain = https://a.org/x\nnot a pair\nbad too\n";
    match parse_repo_config(raw) {
        Err(line) => assert_eq!(line, "notapair"),
        Ok(_) => panic!("a malformed configuration was accepted"),
    }
    assert!(parse_repo_config("main https://a.org\n").is_err());
}

#[test]
fn config_drops_spaces_tabs_comments_and_empty_lines() {
    let raw = "# the repositories\n\tmain =\thttps://a.org/x\n\n \t \n#not a pair\n  extra = https://b.org/y  \n";
    let got = pairs(raw);
    assert_eq!(
        got,
        vec![
            ("main".to_string(), "https://a.org/x".to_string()),
            ("extra".to_string(), "https://b.org/y".to_string()),
        ]
    );
}

#[test]
fn config_last_line_for_a_name_wins() {
    let got = pairs("main = https://old.org\nother = https://o.org\nmain = https://new.org\n");
    assert_eq!(
        got,
        vec![
            ("main".to_string(), "https://new.org".to_string()),
            ("other".to_string(), "https://o.org".to_string()),
        ]
    );
}

#[test]
fn config_splits_at_the_first_equals_only() {
    let got = pairs("q = https://x.org/?a=b\n");
    assert_eq!(got, vec![("q".to_string(), "https://x.org/?a=b".to_string())]);
}

#[test]
fn config_comment_after_blanks_is_still_a_comment() {
    // Blanks are removed before comments are looked for.
    let got = pairs("   # main = https://hidden.org\n");
    assert_eq!(got, Vec::<(String, String)>::new());
}

#[test]
fn config_handles_windows_line_ends_and_empty_text() {
    assert_eq!(pairs(""), Vec::<(String, String)>::new());
    let got = pairs("a = 1\r\nb = 2");
    assert_eq!(
        got,
        vec![("a".to_string(), "1".to_string()), ("b".to_string(), "2".to_string())]
    );
}

#[test]
fn repository_places() {
    assert_eq!(repo_index_path("main"), "/etc/mcospkg/database/remote/main.json");
    assert_eq!(repo_index_url("https://a.org/r"), "https://a.org/r/PKGINDEX.json");
    assert_eq!(repo_config_line("main", "https://a.org/r"), "main = https://a.org/r\n");
}

#[test]
fn added_line_reads_back() {
    let mut raw = "base = https://b.org\n".to_string();
    raw.push_str(&repo_config_line("extra", "https://e.org"));
    let got = pairs(&raw);
    assert_eq!(
        got,
        vec![
            ("base".to_string(), "https://b.org".to_string()),
            ("extra".to_string(), "https://e.org".to_string()),
        ]
    );
}

#[test]
fn added_line_keeps_the_other_repositories() {
    let mut raw = "a = https://a.org\r\n\nb = https://b.org\n".to_string();
    raw.push_str(&repo_config_line("a\rx", "https://n.org/\rq"));
    let got = pairs(&raw);
    assert_eq!(
        got,
        vec![
            ("a".to_string(), "https://a.org".to_string()),
            ("b".to_string(), "https://b.org".to_string()),
            ("a\rx".to_string(), "https://n.org/\rq".to_string()),
        ]
    );
}

#[test]
fn added_line_after_text_without_final_line_break_is_glued() {
    // The added line is only read back when the text ends with a line break.
    let mut raw = "base = https://b.org".to_string();
    raw.push_str(&repo_config_line("extra", "https://e.org"));
    let got = pairs(&raw);
    assert_eq!(got, vec![("base".to_string(), "https://b.orgextra=https://e.org".to_string())]);
}

#[test]
fn update_plans_one_download_per_repository() {
    let conf = parse_repo_config("main = https://m.org\nextra = https://e.org\n").ok().unwrap();
    let mut u = UpdateData::new();
    u.step1_readcfg(conf);
    u.step2_fill_msgs();
    let jobs = u.step4_download_index();
    assert_eq!(jobs.len(), 2);
    assert_eq!(jobs[0].url, "https://m.org/PKGINDEX.json");
    assert_eq!(jobs[0].path, "/etc/mcospkg/database/remote/main.json");
    assert_eq!(jobs[0].message, "main");
    assert_eq!(jobs[1].url, "https://e.org/PKGINDEX.json");
    assert_eq!(jobs[1].path, "/etc/mcospkg/database/remote/extra.json");
    assert_eq!(jobs[1].message, "extra");
}

#[test]
fn update_without_messages_plans_nothing() {
    let conf = parse_repo_config("main = https://m.org\n").ok().unwrap();
    let mut u = UpdateData::new();
    u.step1_readcfg(conf);
    assert_eq!(u.step4_download_index().len(), 0);
}

fn text_of(r: InfoReply) -> Option<String> {
    match r {
        InfoReply::Text(t) => Some(t),
        InfoReply::Unknown(_) => None,
    }
}

#[test]
fn info_texts() {
    assert_eq!(introduce(), "Mcospkg, producted by a 13-year-old boy.");
    assert_eq!(os_license(), "Uses license GPL-3.0");
    assert_eq!(repo_site(), "https://github.com/zhangxuan2011/mcospkg");
    assert_eq!(text_of(info_reply("os-license")), Some("Uses license GPL-3.0".to_string()));
    assert_eq!(
        text_of(info_reply("repo-site")),
        Some("https://github.com/zhangxuan2011/mcospkg".to_string())
    );
    assert_eq!(text_of(info_reply("usage")), Some(String::new()));
    assert_eq!(
        text_of(info_reply("introduce")),
        Some("Mcospkg, producted by a 13-year-old boy.".to_string())
    );
}

#[test]
fn info_all_combines_everything() {
    let expected = format!(
        "{}\n\n{} in this program, Repository URLS is {};\n\nExecutable files are: \n\tmcospkg, \n\tmcospkg-mirror, \n\tmcospkg-info\n\n",
        introduce(),
        os_license(),
        repo_site()
    );
    assert_eq!(text_of(info_reply("all")), Some(expected));
}

#[test]
fn info_unknown_type_is_named_back() {
    match info_reply("colors") {
        InfoReply::Unknown(t) => assert_eq!(t, "colors"),
        InfoReply::Text(_) => panic!("an unknown type gave a text"),
    }
}
