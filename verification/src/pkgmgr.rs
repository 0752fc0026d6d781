//! What the installer and the remover decide and compute along the way:
//! the kind of a package, the places of its scripts and records, the
//! command that builds it, the target path of each file it copies, its
//! file index, and the name of the directory it is extracted to.
use vstd::prelude::*;

use crate::text::{concat2, concat3, contains_seq, contains_str, find_str, occurs_at, push_char, chars_of, string_of_range};
use crate::checksum::hex_digit;
use crate::types::{views, clone_strings};

verus! {

// ---------------------------------------------------------------------
// Kinds of packages
// ---------------------------------------------------------------------

/// How a package installs, from whether its extracted archive holds a
/// `BUILD-SCRIPT`: with one it is built, otherwise its files are copied.
pub open spec fn install_kind(has_build_script: bool) -> Seq<char> {
    if has_build_script {
        "build"@
    } else {
        "copy"@
    }
}

/// Tells how a package installs (see `install_kind`): only `build` or
/// `copy`. Whether the archive is a package at all (it holds `HOOKS` or
/// `UNHOOKS`) is decided by the installer's run.
pub fn step1_check_pkg_instype(has_build_script: bool) -> (kind: String)
    ensures
        kind@ == install_kind(has_build_script),
        kind@ == "build"@ || kind@ == "copy"@,
{
    if has_build_script {
        crate::text::owned("build")
    } else {
        crate::text::owned("copy")
    }
}

/// Tells how an installed package is removed: when a file index was
/// stored for it, its files were copied; otherwise it was built.
pub fn step1_check_instype(has_file_index: bool) -> (kind: String)
    ensures
        kind@ == if has_file_index {
            "copy"@
        } else {
            "build"@
        },
{
    if has_file_index {
        crate::text::owned("copy")
    } else {
        crate::text::owned("build")
    }
}

// ---------------------------------------------------------------------
// Places
// ---------------------------------------------------------------------

/// The build script of an extracted archive.
pub fn build_script_path(workdir: &str) -> (p: String)
    ensures
        p@ == workdir@ + "/BUILD-SCRIPT"@,
{
    concat2(workdir, "/BUILD-SCRIPT")
}

/// The removal script of an extracted archive.
pub fn unhooks_source_path(workdir: &str) -> (p: String)
    ensures
        p@ == workdir@ + "/UNHOOKS"@,
{
    concat2(workdir, "/UNHOOKS")
}

/// Where the removal script of an installed package is kept.
pub fn unhooks_store_path(package: &str) -> (p: String)
    ensures
        p@ == "/etc/mcospkg/database/remove_info/"@ + package@ + "-UNHOOKS"@,
{
    concat3("/etc/mcospkg/database/remove_info/", package, "-UNHOOKS")
}

/// Where the file index of a copied package is kept.
pub fn file_index_path(package: &str) -> (p: String)
    ensures
        p@ == "/etc/mcospkg/database/remove_info/"@ + package@ + "-index.json"@,
{
    concat3("/etc/mcospkg/database/remove_info/", package, "-index.json")
}

/// The shell command that runs a build script, its output discarded and
/// its errors logged under `/var/log/mcospkg/`.
pub fn build_command(script: &str, log_name: &str) -> (c: String)
    ensures
        c@ == script@ + " > /dev/null 2> /var/log/mcospkg/"@ + log_name@,
{
    concat3(script, " > /dev/null 2> /var/log/mcospkg/", log_name)
}

/// A year as the pattern `%Y` writes it: at least four decimal digits,
/// with a leading `+` or `-` for years outside 0 to 9999.
pub open spec fn is_year_text(y: Seq<char>) -> bool {
    ||| (y.len() >= 4 && forall|i: int| 0 <= i < y.len() ==> is_digit(#[trigger] y[i]))
    ||| (y.len() >= 5 && (y[0] == '+' || y[0] == '-') && forall|i: int|
        1 <= i < y.len() ==> is_digit(#[trigger] y[i]))
}

/// Field `k` (0 to 4) after the year of the stamp `s`: a `-` and two
/// decimal digits.
pub open spec fn stamp_field(s: Seq<char>, k: int) -> bool {
    &&& s[s.len() - 15 + 3 * k] == '-'
    &&& is_digit(s[s.len() - 14 + 3 * k])
    &&& is_digit(s[s.len() - 13 + 3 * k])
}

/// A time stamp `YYYY-mm-dd-HH-MM-SS`: a year (see `is_year_text`), then
/// five fields of two decimal digits, each after a `-`.
pub open spec fn is_stamp(s: Seq<char>) -> bool {
    &&& s.len() >= 19
    &&& is_year_text(s.take(s.len() - 15))
    &&& forall|k: int| 0 <= k < 5 ==> #[trigger] stamp_field(s, k)
}

/// The local time as `YYYY-mm-dd-HH-MM-SS`.
///
/// Calls `chrono::Local::now` and formats the time it gives with the
/// pattern `%Y-%m-%d-%H-%M-%S`. Which time it is depends on the clock and
/// the machine's time zone, so only the text's shape is stated: in the
/// `chrono` source `%Y` writes the year zero-padded to four digits, with a
/// sign outside 0 to 9999, and `%m`, `%d`, `%H`, `%M`, `%S` write two
/// zero-padded digits each.
#[verifier::external_body]
fn local_timestamp() -> (s: String)
    ensures
        is_stamp(s@),
{
    chrono::Local::now().format("%Y-%m-%d-%H-%M-%S").to_string()
}

/// The name of the log of a build: `<package>-<local time>.log`, the time
/// written `YYYY-mm-dd-HH-MM-SS`.
pub fn build_log_name(package: &str) -> (n: String)
    ensures
        exists|stamp: Seq<char>| is_stamp(stamp) && n@ == package@ + "-"@ + stamp + ".log"@,
{
    let stamp = local_timestamp();
    let mut n = concat3(package, "-", stamp.as_str());
    n.append(".log");
    assert(n@ == package@ + "-"@ + stamp@ + ".log"@);
    n
}

// ---------------------------------------------------------------------
// Target paths of copied files
// ---------------------------------------------------------------------

/// The number of bytes UTF-8 takes for `c`.
pub open spec fn utf8_width(c: char) -> nat {
    if (c as u32) < 0x80 {
        1
    } else if (c as u32) < 0x800 {
        2
    } else if (c as u32) < 0x10000 {
        3
    } else {
        4
    }
}

/// The number of bytes UTF-8 takes for `s`.
pub open spec fn byte_len(s: Seq<char>) -> nat
    decreases s.len(),
{
    if s.len() == 0 {
        0
    } else {
        byte_len(s.drop_last()) + utf8_width(s.last())
    }
}

/// `char::len_utf8`: the bytes UTF-8 takes for `c`.
pub fn char_width(c: char) -> (w: usize)
    ensures
        w == utf8_width(c),
{
    let v = c as u32;
    if v < 0x80 {
        1
    } else if v < 0x800 {
        2
    } else if v < 0x10000 {
        3
    } else {
        4
    }
}

/// The name that the temporary directories of extracted archives carry.
pub open spec fn workdir_marker() -> Seq<char> {
    "mcospkg"@
}

/// The byte offset at which copied files' paths are cut: the byte
/// position of `mcospkg` in the work directory plus 13, when the work
/// directory holds `mcospkg`.
pub open spec fn cut_offset(workdir: Seq<char>) -> Option<nat> {
    if contains_seq(workdir, workdir_marker()) {
        let k = choose|k: int|
            occurs_at(workdir, workdir_marker(), k) && forall|j: int|
                0 <= j < k ==> !occurs_at(workdir, workdir_marker(), j);
        Some(byte_len(workdir.take(k)) + 13)
    } else {
        None
    }
}

/// The path `p` can be cut at byte `b`: `b` falls between two of its
/// characters (or at its end).
pub open spec fn cuttable(p: Seq<char>, b: nat) -> bool {
    exists|m: int| 0 <= m <= p.len() && byte_len(p.take(m)) == b
}

/// `p` from byte `b` on.
pub open spec fn cut_at(p: Seq<char>, b: nat) -> Seq<char> {
    let m = choose|m: int| 0 <= m <= p.len() && byte_len(p.take(m)) == b;
    p.skip(m)
}

/// Every one of `paths` can be cut where the work directory says.
pub open spec fn targets_defined(workdir: Seq<char>, paths: Seq<Seq<char>>) -> bool {
    match cut_offset(workdir) {
        Some(b) => forall|i: int| 0 <= i < paths.len() ==> cuttable(#[trigger] paths[i], b),
        None => true,
    }
}

/// The paths the extracted files `paths` are copied to: each path with
/// the bytes up to the end of the work directory's name cut off (the
/// name being `mcospkg` and six more characters); none when the work
/// directory's path lacks `mcospkg`.
pub open spec fn install_targets(workdir: Seq<char>, paths: Seq<Seq<char>>) -> Seq<Seq<char>> {
    match cut_offset(workdir) {
        Some(b) => paths.map_values(|p: Seq<char>| cut_at(p, b)),
        None => Seq::empty(),
    }
}

proof fn lemma_byte_len_take_succ(s: Seq<char>, m: int)
    requires
        0 <= m < s.len(),
    ensures
        byte_len(s.take(m + 1)) == byte_len(s.take(m)) + utf8_width(s[m]),
{
    assert(s.take(m + 1).drop_last() =~= s.take(m));
}

proof fn lemma_byte_len_mono(s: Seq<char>, a: int, b: int)
    requires
        0 <= a <= b <= s.len(),
    ensures
        byte_len(s.take(a)) <= byte_len(s.take(b)),
        a < b ==> byte_len(s.take(a)) < byte_len(s.take(b)),
    decreases b - a,
{
    if a < b {
        lemma_byte_len_mono(s, a, b - 1);
        lemma_byte_len_take_succ(s, b - 1);
    }
}

/// The byte length of `cs[..m]`, computed.
fn byte_len_prefix(cs: &Vec<char>, m: usize) -> (n: u64)
    requires
        m <= cs.len(),
        cs.len() < 0x1000_0000_0000,
    ensures
        n == byte_len(cs@.take(m as int)),
        n <= 4 * m,
{
    let mut n: u64 = 0;
    let mut i: usize = 0;
    assert(cs@.take(0) =~= Seq::<char>::empty());
    while i < m
        invariant
            i <= m <= cs.len(),
            cs.len() < 0x1000_0000_0000,
            n == byte_len(cs@.take(i as int)),
            n <= 4 * i,
        decreases m - i,
    {
        proof {
            lemma_byte_len_take_succ(cs@, i as int);
        }
        n = n + char_width(cs[i]) as u64;
        i = i + 1;
    }
    n
}

/// A character UTF-8 writes in one byte.
pub open spec fn is_ascii(c: char) -> bool {
    (c as u32) < 0x80
}

proof fn lemma_byte_len_ascii(s: Seq<char>)
    requires
        forall|j: int| 0 <= j < s.len() ==> is_ascii(#[trigger] s[j]),
    ensures
        byte_len(s) == s.len(),
    decreases s.len(),
{
    if s.len() > 0 {
        lemma_byte_len_ascii(s.drop_last());
    }
}

/// A fresh work directory (`/tmp/mcospkg` and six decimal digits, as
/// `temp_workdir_path` makes it) is cut off exactly: the paths cut at the
/// work directory's offset, 18 bytes, and every file extracted under it is
/// copied to its path relative to the work directory.
pub proof fn law_targets_drop_the_workdir(wd: Seq<char>, paths: Seq<Seq<char>>)
    requires
        wd.len() == 18,
        wd.take(12) == "/tmp/mcospkg"@,
        forall|i: int| 12 <= i < 18 ==> is_digit(#[trigger] wd[i]),
        forall|i: int| 0 <= i < paths.len() ==> 18 <= (#[trigger] paths[i]).len() && paths[i].take(18) == wd,
    ensures
        cut_offset(wd) == Some(18nat),
        targets_defined(wd, paths),
        install_targets(wd, paths) == paths.map_values(|p: Seq<char>| p.skip(18)),
{
    reveal_strlit("/tmp/mcospkg");
    reveal_strlit("mcospkg");
    let m = workdir_marker();
    assert forall|i: int| 0 <= i < 12 implies #[trigger] wd[i] == "/tmp/mcospkg"@[i] by {
        assert(wd.take(12)[i] == wd[i]);
    }
    assert forall|j: int| 0 <= j < wd.len() implies is_ascii(#[trigger] wd[j]) by {
        if j < 12 {
            assert(wd[j] == "/tmp/mcospkg"@[j]);
        } else {
            assert(is_digit(wd[j]));
        }
    }
    assert(occurs_at(wd, m, 5)) by {
        assert(wd.subrange(5, 12) =~= m);
    }
    assert(contains_seq(wd, m));
    let k = choose|k: int| occurs_at(wd, m, k) && forall|j: int| 0 <= j < k ==> !occurs_at(wd, m, j);
    assert(k == 5) by {
        if k < 5 {
            assert(wd.subrange(k, k + 7)[0] == wd[k]);
            assert(wd.subrange(k, k + 7)[1] == wd[k + 1]);
            assert(m[0] == 'm' && m[1] == 'c');
        } else if k > 5 {
            assert(!occurs_at(wd, m, 5));
        }
    }
    assert forall|j: int| 0 <= j < wd.take(5).len() implies is_ascii(#[trigger] wd.take(5)[j]) by {
        assert(wd.take(5)[j] == wd[j]);
    }
    lemma_byte_len_ascii(wd.take(5));
    assert(cut_offset(wd) == Some(18nat));
    assert forall|i: int| 0 <= i < paths.len() implies cuttable(#[trigger] paths[i], 18) && cut_at(
        paths[i],
        18,
    ) == paths[i].skip(18) by {
        let p = paths[i];
        assert(p.take(18).len() == 18);
        lemma_byte_len_ascii(wd);
        assert(byte_len(p.take(18)) == 18);
        assert(0 <= 18 <= p.len() && byte_len(p.take(18)) == 18);
        assert(cuttable(p, 18));
        let c = choose|c: int| 0 <= c <= p.len() && byte_len(p.take(c)) == 18;
        if c < 18 {
            lemma_byte_len_mono(p, c, 18);
        } else if c > 18 {
            lemma_byte_len_mono(p, 18, c);
        }
    }
    assert(install_targets(wd, paths) =~= paths.map_values(|p: Seq<char>| p.skip(18)));
}

/// The byte offset at which copied files' paths are cut (see
/// `cut_offset`).
pub fn cut_offset_exec(workdir: &str) -> (r: Option<u64>)
    requires
        workdir@.len() < 0x1000_0000_0000,
    ensures
        match cut_offset(workdir@) {
            Some(b) => r == Some(b as u64) && b < u64::MAX,
            None => r is None,
        },
{
    match find_str(workdir, "mcospkg") {
        None => None,
        Some(k) => {
            let cs = chars_of(workdir);
            let n = byte_len_prefix(&cs, k);
            proof {
                assert(occurs_at(workdir@, workdir_marker(), k as int));
                let c = choose|c: int|
                    occurs_at(workdir@, workdir_marker(), c) && forall|j: int|
                        0 <= j < c ==> !occurs_at(workdir@, workdir_marker(), j);
                assert(c == k as int) by {
                    if c < k {
                    } else if c > k {
                    }
                }
            }
            Some(n + 13)
        },
    }
}

/// `p` cut at byte `b`, when `b` falls between two of its characters.
pub fn cut_path(p: &str, b: u64) -> (r: Option<String>)
    requires
        p@.len() < 0x1000_0000_0000,
    ensures
        cuttable(p@, b as nat) ==> (r matches Some(s) && s@ == cut_at(p@, b as nat)),
        !cuttable(p@, b as nat) ==> r is None,
{
    let cs = chars_of(p);
    let mut n: u64 = 0;
    let mut m: usize = 0;
    assert(cs@.take(0) =~= Seq::<char>::empty());
    while m < cs.len() && n < b
        invariant
            m <= cs.len(),
            cs@ == p@,
            cs.len() < 0x1000_0000_0000,
            n == byte_len(cs@.take(m as int)),
            n <= 4 * m,
            forall|j: int| 0 <= j < m ==> byte_len(cs@.take(j)) < b,
        decreases cs.len() - m,
    {
        proof {
            lemma_byte_len_take_succ(cs@, m as int);
        }
        n = n + char_width(cs[m]) as u64;
        m = m + 1;
    }
    if n == b {
        proof {
            assert forall|j: int| 0 <= j <= p@.len() && byte_len(p@.take(j)) == b implies j == m by {
                if j < m {
                    lemma_byte_len_mono(p@, j, m as int);
                } else if j > m {
                    lemma_byte_len_mono(p@, m as int, j);
                }
            }
        }
        let s = string_of_range(&cs, m, cs.len());
        assert(cs@.subrange(m as int, cs.len() as int) =~= p@.skip(m as int));
        Some(s)
    } else {
        proof {
            assert forall|j: int| 0 <= j <= p@.len() implies byte_len(p@.take(j)) != b by {
                if j < m {
                } else if j > m {
                    lemma_byte_len_mono(p@, m as int, j);
                }
            }
        }
        None
    }
}

/// Whether every one of `paths` can be cut where the work directory
/// says: what `step2_copy_targets` needs.
pub fn step2_copy_targets_defined(workdir: &str, paths: &Vec<String>) -> (b: bool)
    requires
        workdir@.len() < 0x1000_0000_0000,
        forall|i: int| 0 <= i < paths@.len() ==> (#[trigger] paths@[i])@.len() < 0x1000_0000_0000,
    ensures
        b == targets_defined(workdir@, views(paths@)),
{
    match cut_offset_exec(workdir) {
        None => true,
        Some(off) => {
            let mut i: usize = 0;
            while i < paths.len()
                invariant
                    i <= paths@.len(),
                    cut_offset(workdir@) == Some(off as nat),
                    forall|q: int| 0 <= q < paths@.len() ==> (#[trigger] paths@[q])@.len() < 0x1000_0000_0000,
                    forall|q: int| 0 <= q < i ==> cuttable(#[trigger] views(paths@)[q], off as nat),
                decreases paths@.len() - i,
            {
                if cut_path(paths[i].as_str(), off).is_none() {
                    assert(!cuttable(views(paths@)[i as int], off as nat));
                    return false;
                }
                i = i + 1;
            }
            true
        },
    }
}

/// The target paths of the extracted files `paths` (see
/// `install_targets`).
pub fn step2_copy_targets(workdir: &str, paths: &Vec<String>) -> (targets: Vec<String>)
    requires
        workdir@.len() < 0x1000_0000_0000,
        forall|i: int| 0 <= i < paths@.len() ==> (#[trigger] paths@[i])@.len() < 0x1000_0000_0000,
        targets_defined(workdir@, views(paths@)),
    ensures
        views(targets@) == install_targets(workdir@, views(paths@)),
{
    let mut targets: Vec<String> = Vec::new();
    match cut_offset_exec(workdir) {
        None => {
            assert(views(targets@) =~= Seq::<Seq<char>>::empty());
            targets
        },
        Some(off) => {
            let ghost pv = views(paths@);
            let mut i: usize = 0;
            while i < paths.len()
                invariant
                    i <= paths@.len(),
                    pv == views(paths@),
                    cut_offset(workdir@) == Some(off as nat),
                    forall|q: int| 0 <= q < paths@.len() ==> (#[trigger] paths@[q])@.len() < 0x1000_0000_0000,
                    forall|q: int| 0 <= q < pv.len() ==> cuttable(#[trigger] pv[q], off as nat),
                    views(targets@) == pv.take(i as int).map_values(|p: Seq<char>| cut_at(p, off as nat)),
                decreases paths@.len() - i,
            {
                assert(cuttable(pv[i as int], off as nat));
                match cut_path(paths[i].as_str(), off) {
                    Some(t) => {
                        proof {
                            crate::types::lemma_views_push(targets@, t);
                        }
                        targets.push(t);
                        assert(pv.take(i + 1).map_values(|p: Seq<char>| cut_at(p, off as nat)) =~= pv.take(
                            i as int,
                        ).map_values(|p: Seq<char>| cut_at(p, off as nat)).push(cut_at(pv[i as int], off as nat)));
                    },
                    None => {
                        return targets;
                    },
                }
                i = i + 1;
            }
            assert(pv.take(paths@.len() as int) =~= pv);
            targets
        },
    }
}

// ---------------------------------------------------------------------
// File index
// ---------------------------------------------------------------------

/// A path names a hook script when it holds `/UNHOOKS` or `/HOOKS`.
pub open spec fn names_hook(p: Seq<char>) -> bool {
    contains_seq(p, "/UNHOOKS"@) || contains_seq(p, "/HOOKS"@)
}

/// The paths that name no hook script, in order.
pub open spec fn without_hooks(ps: Seq<Seq<char>>) -> Seq<Seq<char>>
    decreases ps.len(),
{
    if ps.len() == 0 {
        Seq::empty()
    } else {
        let r = without_hooks(ps.drop_last());
        if names_hook(ps.last()) {
            r
        } else {
            r.push(ps.last())
        }
    }
}

/// The copied files recorded in a package's file index: all targets but
/// the hook scripts.
pub fn file_index_entries(targets: &Vec<String>) -> (r: Vec<String>)
    ensures
        views(r@) == without_hooks(views(targets@)),
{
    let ghost tv = views(targets@);
    let mut r: Vec<String> = Vec::new();
    let mut i: usize = 0;
    while i < targets.len()
        invariant
            i <= targets@.len(),
            tv == views(targets@),
            views(r@) == without_hooks(tv.take(i as int)),
        decreases targets@.len() - i,
    {
        assert(tv.take(i + 1).drop_last() =~= tv.take(i as int));
        let t = targets[i].as_str();
        if !contains_str(t, "/UNHOOKS") && !contains_str(t, "/HOOKS") {
            let c = targets[i].clone();
            proof {
                crate::types::lemma_views_push(r@, c);
            }
            r.push(c);
        }
        i = i + 1;
    }
    assert(tv.take(targets@.len() as int) =~= tv);
    r
}

/// The file index never lists a hook script, and lists every other
/// target, in order.
pub proof fn law_file_index_has_no_hooks(ps: Seq<Seq<char>>)
    ensures
        forall|i: int| 0 <= i < without_hooks(ps).len() ==> !names_hook(#[trigger] without_hooks(ps)[i]),
        forall|p: Seq<char>| #[trigger] ps.contains(p) && !names_hook(p) ==> without_hooks(ps).contains(p),
    decreases ps.len(),
{
    if ps.len() > 0 {
        let pre = ps.drop_last();
        law_file_index_has_no_hooks(pre);
        let r = without_hooks(pre);
        assert forall|p: Seq<char>| #[trigger] ps.contains(p) && !names_hook(p) implies without_hooks(
            ps,
        ).contains(p) by {
            let k = choose|k: int| 0 <= k < ps.len() && ps[k] == p;
            if k < ps.len() - 1 {
                assert(pre[k] == p);
                assert(pre.contains(p));
                let m = choose|m: int| 0 <= m < r.len() && r[m] == p;
                assert(without_hooks(ps)[m] == p);
            } else {
                assert(without_hooks(ps).last() == p);
            }
        }
    }
}

/// How `serde_json` writes one character inside a JSON string: `"` and
/// `\` behind a backslash; the control characters below 0x20 as `\b`,
/// `\t`, `\n`, `\f`, `\r`, or else as `\u00` and two lower-case
/// hexadecimal digits; every other character as it is.
pub open spec fn json_escape(c: char) -> Seq<char> {
    let v = c as u32;
    if v == 0x22 {
        seq!['\\', '"']
    } else if v == 0x5c {
        seq!['\\', '\\']
    } else if v == 0x08 {
        seq!['\\', 'b']
    } else if v == 0x09 {
        seq!['\\', 't']
    } else if v == 0x0a {
        seq!['\\', 'n']
    } else if v == 0x0c {
        seq!['\\', 'f']
    } else if v == 0x0d {
        seq!['\\', 'r']
    } else if v < 0x20 {
        seq!['\\', 'u', '0', '0', hex_digit(v as int / 16), hex_digit(v as int % 16)]
    } else {
        seq![c]
    }
}

/// The characters of `s`, each escaped.
pub open spec fn json_escaped(s: Seq<char>) -> Seq<char>
    decreases s.len(),
{
    if s.len() == 0 {
        Seq::empty()
    } else {
        json_escaped(s.drop_last()) + json_escape(s.last())
    }
}

/// A JSON string: the escaped characters between double quotes.
pub open spec fn json_string(s: Seq<char>) -> Seq<char> {
    seq!['"'] + json_escaped(s) + seq!['"']
}

/// The JSON strings of `items`, separated by commas.
pub open spec fn json_items(items: Seq<Seq<char>>) -> Seq<char>
    decreases items.len(),
{
    if items.len() == 0 {
        Seq::empty()
    } else if items.len() == 1 {
        json_string(items[0])
    } else {
        json_items(items.drop_last()) + seq![','] + json_string(items.last())
    }
}

/// The compact JSON text that `serde_json` writes for a list of strings:
/// the strings between brackets, separated by commas, without spaces.
pub open spec fn json_of_strings(items: Seq<Seq<char>>) -> Seq<char> {
    seq!['['] + json_items(items) + seq![']']
}

/// What `serde_json` reads from `raw` as a list of strings, if it is one.
pub uninterp spec fn json_strings_in(raw: Seq<char>) -> Option<Seq<Seq<char>>>;

/// `serde_json::Error`, the error of the JSON wrappers; nothing inside it
/// is read.
#[verifier::external_type_specification]
#[verifier::external_body]
pub struct ExJsonError(serde_json::Error);

/// A list of strings as JSON text.
///
/// Calls `serde_json::to_string` on a `Vec<String>`. The contract states
/// the text, `json_of_strings(items)`, as the compact formatter and the
/// escape table of the `serde_json` source write it. It also says the call
/// succeeds: the
/// `serde_json` documentation names two causes of failure, a `Serialize`
/// implementation that fails and a map with non-string keys, and a list of
/// strings has neither (its writer, a `Vec<u8>`, does not fail either).
/// Last, it says that the text reads back as the same list: the writer
/// puts each string between quotes with `"`, `\` and control characters
/// escaped, and the reader undoes exactly those escapes.
#[verifier::external_body]
fn strings_to_json(items: &Vec<String>) -> (r: Result<String, serde_json::Error>)
    ensures
        r is Ok,
        r matches Ok(s) ==> s@ == json_of_strings(views(items@)),
        r matches Ok(s) ==> json_strings_in(s@) == Some(views(items@)),
{
    serde_json::to_string(items)
}

/// A list of strings read from JSON text.
///
/// Calls `serde_json::from_str::<Vec<String>>`. The contract names what it
/// reads `json_strings_in(raw)` and says that it fails exactly when that is
/// `None`; which texts are lists of strings is left to that name.
#[verifier::external_body]
fn strings_from_json(raw: &str) -> (r: Result<Vec<String>, serde_json::Error>)
    ensures
        match json_strings_in(raw@) {
            Some(v) => r matches Ok(x) && views(x@) == v,
            None => r is Err,
        },
{
    serde_json::from_str::<Vec<String>>(raw)
}

/// The text of a package's file index: its recorded files as JSON. Read
/// back, the text gives the same files.
pub fn file_index_json(files: &Vec<String>) -> (s: String)
    ensures
        s@ == json_of_strings(views(files@)),
        json_strings_in(s@) == Some(views(files@)),
{
    match strings_to_json(files) {
        Ok(s) => s,
        Err(_) => String::new(),
    }
}

/// The files recorded in the text of a package's file index, when it is
/// a JSON list of strings.
pub fn parse_file_index(raw: &str) -> (r: Option<Vec<String>>)
    ensures
        match json_strings_in(raw@) {
            Some(v) => r matches Some(x) && views(x@) == v,
            None => r is None,
        },
{
    match strings_from_json(raw) {
        Ok(v) => Some(v),
        Err(_) => None,
    }
}

// ---------------------------------------------------------------------
// Work directories
// ---------------------------------------------------------------------

/// A random number below `n`.
///
/// Calls `rand::rng().random_range(0..n)`, which the `rand` documentation
/// describes as a value from the range, panicking only on an empty range
/// (excluded here). The value is random: only the bound is stated.
#[verifier::external_body]
fn random_below(n: usize) -> (r: usize)
    requires
        n > 0,
    ensures
        r < n,
{
    rand::Rng::random_range(&mut rand::rng(), 0..n)
}

/// The character is a decimal digit.
pub open spec fn is_digit(c: char) -> bool {
    '0' <= c <= '9'
}

/// Six random decimal digits.
pub fn random_suffix() -> (s: String)
    ensures
        s@.len() == 6,
        forall|i: int| 0 <= i < 6 ==> is_digit(#[trigger] s@[i]),
{
    let mut s = String::new();
    let mut i: usize = 0;
    while i < 6
        invariant
            i <= 6,
            s@.len() == i,
            forall|j: int| 0 <= j < i ==> is_digit(#[trigger] s@[j]),
        decreases 6 - i,
    {
        let d = random_below(10);
        let c = digit_char(d);
        push_char(&mut s, c);
        i = i + 1;
    }
    s
}

/// The character of a decimal digit.
pub fn digit_char(d: usize) -> (c: char)
    requires
        d < 10,
    ensures
        is_digit(c),
        c as u32 == 48 + d,
{
    let digits = ['0', '1', '2', '3', '4', '5', '6', '7', '8', '9'];
    let c = digits[d];
    assert(c as u32 == 48 + d) by {
        assert(digits@[d as int] == c);
    }
    c
}

/// A fresh name for the directory an archive is extracted to:
/// `/tmp/mcospkg` and six random decimal digits.
pub fn temp_workdir_path() -> (p: String)
    ensures
        p@.len() == 18,
        p@.take(12) == "/tmp/mcospkg"@,
        forall|i: int| 12 <= i < 18 ==> is_digit(#[trigger] p@[i]),
{
    let suffix = random_suffix();
    let p = concat2("/tmp/mcospkg", suffix.as_str());
    proof {
        reveal_strlit("/tmp/mcospkg");
        assert(p@.take(12) =~= "/tmp/mcospkg"@);
        assert forall|i: int| 12 <= i < 18 implies is_digit(#[trigger] p@[i]) by {
            assert(p@[i] == suffix@[i - 12]);
        }
    }
    p
}

} // verus!
