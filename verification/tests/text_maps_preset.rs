//! Tests of the string helpers, the ordered string-keyed map and the
//! preset configuration reader.
use mcospkg::preset::{trim, whitespace, Preset};
use mcospkg::strmap::StrMap;
use mcospkg::text::{
    chars_of, concat2, concat3, contains_str, find_str, join_char, lines, owned, push_char,
    remove_blanks, split_char, split_once_char, starts_with_char, str_eq, string_of,
    string_of_range, strip_cr_exec,
};
use mcospkg::types::clone_strings;

fn s(x: &str) -> String {
    x.to_string()
}

#[test]
fn splitting_and_joining() {
    assert_eq!(split_char("a=b==c", '='), vec![s("a"), s("b"), s(""), s("c")]);
    assert_eq!(split_char("", '='), vec![s("")]);
    assert_eq!(lines("a\nb\r\n\nc\n"), vec![s("a"), s("b"), s(""), s("c")]);
    assert!(lines("").is_empty());
    assert_eq!(join_char(&vec![s("x"), s("y"), s("z")], '\n'), "x\ny\nz");
    assert_eq!(join_char(&vec![], ','), "");
    assert_eq!(split_once_char("k=v=w", '='), Some((s("k"), s("v=w"))));
    assert_eq!(split_once_char("kv", '='), None);
}

#[test]
fn small_string_helpers() {
    assert_eq!(remove_blanks(" a\tb c "), "abc");
    assert_eq!(strip_cr_exec(s("line\r")), "line");
    assert_eq!(strip_cr_exec(s("line")), "line");
    assert!(starts_with_char("#x", '#'));
    assert!(!starts_with_char("", '#'));
    assert_eq!(find_str("/tmp/mcospkg1/mcospkg", "mcospkg"), Some(5));
    assert_eq!(find_str("abc", "d"), None);
    assert!(contains_str("/a/HOOKS", "/HOOKS"));
    assert!(!contains_str("/a/hooks", "/HOOKS"));
    assert!(str_eq("same", "same"));
    assert!(!str_eq("same", "Same"));
    assert_eq!(concat2("ab", "cd"), "abcd");
    assert_eq!(concat3("a", "-", "b"), "a-b");
    assert_eq!(owned("x"), "x");
    let cs = chars_of("héllo");
    assert_eq!(cs, vec!['h', 'é', 'l', 'l', 'o']);
    assert_eq!(string_of(&cs), "héllo");
    assert_eq!(string_of_range(&cs, 1, 3), "él");
    let mut t = s("ab");
    push_char(&mut t, 'c');
    assert_eq!(t, "abc");
    assert_eq!(clone_strings(&vec![s("p"), s("q")]), vec![s("p"), s("q")]);
}

#[test]
fn map_keeps_insertion_order_and_distinct_keys() {
    let mut m: StrMap<String> = StrMap::new();
    m.insert(s("b"), s("1"));
    m.insert(s("a"), s("2"));
    m.insert(s("b"), s("3"));
    assert_eq!(m.len(), 2);
    assert_eq!(m.keys(), vec![s("b"), s("a")]);
    assert_eq!(m.get("b"), Some(&s("3")));
    assert_eq!(m.position("a"), Some(1));
    assert_eq!(m.key_at(1), "a");
    assert_eq!(m.value_at(0), "3");
    assert_eq!(m.remove("b"), Some(s("3")));
    assert_eq!(m.remove("b"), None);
    assert!(!m.contains_key("b"));
    m.set_value_at(0, s("9"));
    assert_eq!(m.into_pairs(), vec![(s("a"), s("9"))]);
}

#[test]
fn map_extend_overrides_in_order() {
    let mut m = StrMap::from_pairs(vec![(s("x"), s("1")), (s("y"), s("2")), (s("x"), s("3"))]);
    assert_eq!(m.keys(), vec![s("x"), s("y")]);
    assert_eq!(m.get("x"), Some(&s("3")));
    m.extend(StrMap::from_pairs(vec![(s("z"), s("4")), (s("y"), s("5"))]));
    m.extend_pairs(vec![(s("w"), s("6"))]);
    assert_eq!(
        m.into_pairs(),
        vec![(s("x"), s("3")), (s("y"), s("5")), (s("z"), s("4")), (s("w"), s("6"))]
    );
}

#[test]
fn trimming() {
    assert_eq!(trim("  \t a b \n"), "a b");
    assert_eq!(trim("\u{3000}x\u{a0}"), "x");
    assert_eq!(trim(""), "");
    assert!(whitespace(' '));
    assert!(whitespace('\u{2028}'));
    assert!(!whitespace('x'));
}

#[test]
fn preset_reads_names_and_urls() {
    let mut p = Preset::new("/etc/mcospkg", "mcospkg");
    assert_eq!(p.repocfg_path(), "/etc/mcospkg/repo.conf");
    assert_eq!(p.remote_dir(), "/etc/mcospkg/database/remote");
    assert_eq!(p.repo_info_path("main"), "/etc/mcospkg/database/remote/main.json");
    p.read_repo_conf("  main = https://a.org  \nextra=https://b.org\n");
    p.split_repo_name_url();
    assert_eq!(p.repo_names(), vec![s("main "), s("extra")]);
}

#[test]
fn preset_drops_a_final_empty_part() {
    let mut p = Preset::new("/c", "x");
    p.read_repo_conf("a=u\nb=");
    p.split_repo_name_url();
    assert_eq!(p.repo_names(), vec![s("a"), s("b")]);
    let mut q = Preset::new("/c", "x");
    q.read_repo_conf("");
    q.split_repo_name_url();
    assert!(q.repo_names().is_empty());
}
