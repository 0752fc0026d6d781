//! The repository configuration (`/etc/mcospkg/repo.conf`).
//!
//! Each line reads `[reponame] = [repourl]`. Spaces and tabs are ignored
//! everywhere, a line that starts with `#` is a comment, an empty line is
//! skipped, any other line without `=` makes the configuration malformed,
//! and a name given twice keeps the URL of its last line.
use vstd::prelude::*;

use crate::strmap::{distinct_keys, lemma_lookup_upsert, lemma_upsert_distinct, lookup, upsert, EntryView, StrMap};
use crate::text::{
    chars_of, concat2, concat3, find_char, is_blank, join_char, join_with, lemma_find_char,
    lemma_lines_after_join, lemma_lines_free, lemma_lines_push, lemma_lines_single,
    lemma_without_blanks_append, lemma_without_blanks_none, lines, lines_of, remove_blanks,
    split_once_at, split_once_char, starts_with_char, without_blanks,
};
use crate::types::views;

verus! {

/// A line is a comment when it starts with `#`.
pub open spec fn is_comment(l: Seq<char>) -> bool {
    l.len() > 0 && l[0] == '#'
}

/// The lines that are not comments, in order.
pub open spec fn non_comments(ls: Seq<Seq<char>>) -> Seq<Seq<char>>
    decreases ls.len(),
{
    if ls.len() == 0 {
        Seq::empty()
    } else {
        let r = non_comments(ls.drop_last());
        if is_comment(ls.last()) {
            r
        } else {
            r.push(ls.last())
        }
    }
}

/// The lines that the configuration is read from: blanks removed,
/// comments dropped, and the rest split into lines again after being
/// joined back into one text.
pub open spec fn config_lines(raw: Seq<char>) -> Seq<Seq<char>> {
    lines_of(join_with(non_comments(lines_of(without_blanks(raw))), '\n'))
}

/// The entries that the lines `ls` define, in the order in which each name
/// first appears.
pub open spec fn config_entries(ls: Seq<Seq<char>>) -> Seq<EntryView<Seq<char>>>
    decreases ls.len(),
{
    if ls.len() == 0 {
        Seq::empty()
    } else {
        let r = config_entries(ls.drop_last());
        match split_once_at(ls.last(), '=') {
            Some(kv) => upsert(r, kv.0, kv.1),
            None => r,
        }
    }
}

/// The repositories that the configuration text `raw` names, each with its
/// URL.
pub open spec fn repo_config(raw: Seq<char>) -> Seq<EntryView<Seq<char>>> {
    config_entries(config_lines(raw))
}

/// A line (after blanks and comments are taken out) that is neither empty
/// nor a repository entry: it holds no `=`.
pub open spec fn malformed(l: Seq<char>) -> bool {
    l.len() > 0 && split_once_at(l, '=') is None
}

/// Every line of the configuration text is empty or an entry.
pub open spec fn well_formed(raw: Seq<char>) -> bool {
    forall|i: int| 0 <= i < config_lines(raw).len() ==> !malformed(#[trigger] config_lines(raw)[i])
}

/// The line that adds the repository `name` with `url`.
pub open spec fn added_line(name: Seq<char>, url: Seq<char>) -> Seq<char> {
    name + " = "@ + url + "\n"@
}

/// A name or URL that a configuration line can hold as written: no
/// spaces, tabs or line breaks.
pub open spec fn plain(s: Seq<char>) -> bool {
    forall|j: int| 0 <= j < s.len() ==> !is_blank(#[trigger] s[j]) && s[j] != '\n'
}

/// The last line the configuration text keeps after blanks and comments
/// are taken out ends with a carriage return (left by a `\r\r\n` end).
pub open spec fn last_line_ends_with_cr(raw: Seq<char>) -> bool {
    let kept = non_comments(lines_of(without_blanks(raw)));
    kept.len() > 0 && kept.last().len() > 0 && kept.last().last() == '\r'
}

proof fn lemma_non_comments_push(ls: Seq<Seq<char>>, l: Seq<char>)
    requires
        !is_comment(l),
    ensures
        non_comments(ls.push(l)) == non_comments(ls).push(l),
{
    assert(ls.push(l).drop_last() =~= ls);
}

proof fn lemma_non_comments_from(ls: Seq<Seq<char>>)
    ensures
        forall|k: int| 0 <= k < non_comments(ls).len() ==> ls.contains(#[trigger] non_comments(ls)[k]),
    decreases ls.len(),
{
    if ls.len() > 0 {
        let pre = ls.drop_last();
        lemma_non_comments_from(pre);
        assert forall|k: int| 0 <= k < non_comments(ls).len() implies ls.contains(
            #[trigger] non_comments(ls)[k],
        ) by {
            if k < non_comments(pre).len() {
                let x = non_comments(pre)[k];
                assert(non_comments(ls)[k] == x);
                let m = choose|m: int| 0 <= m < pre.len() && pre[m] == x;
                assert(ls[m] == x);
            } else {
                assert(non_comments(ls)[k] == ls[ls.len() - 1]);
            }
        }
    }
}

proof fn lemma_join_push(ls: Seq<Seq<char>>, l: Seq<char>, sep: char)
    ensures
        join_with(ls.push(l), sep) == if ls.len() == 0 {
            l
        } else {
            join_with(ls, sep) + seq![sep] + l
        },
{
    assert(ls.push(l).drop_last() =~= ls);
}

proof fn lemma_config_entries_distinct(ls: Seq<Seq<char>>)
    ensures
        distinct_keys(config_entries(ls)),
    decreases ls.len(),
{
    if ls.len() > 0 {
        lemma_config_entries_distinct(ls.drop_last());
        match split_once_at(ls.last(), '=') {
            Some(kv) => lemma_upsert_distinct(config_entries(ls.drop_last()), kv.0, kv.1),
            None => {},
        }
    }
}

proof fn lemma_split_once_key(name: Seq<char>, url: Seq<char>)
    requires
        !name.contains('='),
    ensures
        split_once_at(name + seq!['='] + url, '=') == Some((name, url)),
{
    let l = name + seq!['='] + url;
    lemma_find_char(l, '=');
    assert(l[name.len() as int] == '=');
    assert forall|j: int| 0 <= j < name.len() implies l[j] != '=' by {
        assert(l[j] == name[j]);
    }
    match find_char(l, '=') {
        Some(i) => {
            assert(i == name.len());
            assert(l.take(i as int) =~= name);
            assert(l.skip(i + 1 as int) =~= url);
        },
        None => {},
    }
}

/// The configuration read from text whose lines are `ls` then the entry
/// `l` for `name` and `url`, possibly with an empty line between: the
/// entries of `ls` with `url` stored for `name`, well formed when `ls` is.
proof fn lemma_entries_add(ls: Seq<Seq<char>>, ns: Seq<Seq<char>>, l: Seq<char>, name: Seq<char>, url: Seq<char>)
    requires
        ns.len() > 0,
        ns.last() == l,
        ns.drop_last() == ls || ns.drop_last() == ls.push(Seq::<char>::empty()),
        split_once_at(l, '=') == Some((name, url)),
    ensures
        config_entries(ns) == upsert(config_entries(ls), name, url),
        (forall|i: int| 0 <= i < ls.len() ==> !malformed(#[trigger] ls[i])) ==> forall|i: int|
            0 <= i < ns.len() ==> !malformed(#[trigger] ns[i]),
{
    assert(ns =~= ns.drop_last().push(l));
    if ns.drop_last() != ls {
        let e = Seq::<char>::empty();
        lemma_find_char(e, '=');
        assert(ls.push(e).drop_last() =~= ls);
        assert(config_entries(ls.push(e)) == config_entries(ls));
    }
    if forall|i: int| 0 <= i < ls.len() ==> !malformed(#[trigger] ls[i]) {
        assert forall|i: int| 0 <= i < ns.len() implies !malformed(#[trigger] ns[i]) by {
            if i < ls.len() {
                assert(ns[i] == ls[i]);
            }
        }
    }
}

/// A repository added to the configuration is read back, and nothing else
/// changes: after the line `<name> = <url>` that adds it is appended to a
/// well-formed configuration text that is empty or ends with a line
/// break, the text is still well formed, reading it gives `url` for
/// `name`, and every other name keeps what it had. The name and the URL
/// hold no spaces, tabs or line breaks, the name holds no `=` and does not
/// start with `#`, the URL does not end with a carriage return, and the
/// text's last kept line does not either.
pub proof fn law_added_repository_is_read(raw: Seq<char>, name: Seq<char>, url: Seq<char>, q: Seq<char>)
    requires
        raw.len() == 0 || raw.last() == '\n',
        well_formed(raw),
        !last_line_ends_with_cr(raw),
        plain(name),
        plain(url),
        !name.contains('='),
        !(name.len() > 0 && name[0] == '#'),
        !(url.len() > 0 && url.last() == '\r'),
    ensures
        well_formed(raw + added_line(name, url)),
        lookup(repo_config(raw + added_line(name, url)), name) == Some(url),
        q != name ==> lookup(repo_config(raw + added_line(name, url)), q) == lookup(repo_config(raw), q),
{
    reveal_strlit(" = ");
    reveal_strlit("\n");
    let l = name + seq!['='] + url;
    let added = added_line(name, url);
    // The blanks of the added line go, the rest stays.
    assert(added =~= name + seq![' '] + seq!['='] + seq![' '] + url + seq!['\n']);
    lemma_without_blanks_append(raw, added);
    lemma_without_blanks_append(name + seq![' '] + seq!['='] + seq![' '] + url, seq!['\n']);
    lemma_without_blanks_append(name + seq![' '] + seq!['='] + seq![' '], url);
    lemma_without_blanks_append(name + seq![' '] + seq!['='], seq![' ']);
    lemma_without_blanks_append(name + seq![' '], seq!['=']);
    lemma_without_blanks_append(name, seq![' ']);
    lemma_without_blanks_none(name);
    lemma_without_blanks_none(url);
    lemma_without_blanks_none(seq!['=']);
    lemma_without_blanks_none(seq!['\n']);
    assert(without_blanks(seq![' ']) =~= Seq::<char>::empty()) by {
        let e = Seq::<char>::empty();
        assert(seq![' '].drop_last() =~= e);
        assert(without_blanks(e) == e);
    }
    assert(without_blanks(added) =~= l + seq!['\n']);
    let w = without_blanks(raw);
    assert(w.len() == 0 || w.last() == '\n') by {
        if raw.len() > 0 {
            assert(raw.drop_last().push(raw.last()) =~= raw);
        }
    }
    // The added line is a line of its own, and no comment.
    assert forall|j: int| 0 <= j < l.len() implies l[j] != '\n' by {
        if j < name.len() {
            assert(l[j] == name[j]);
        } else if j > name.len() {
            assert(l[j] == url[j - name.len() - 1]);
        }
    }
    assert(l.last() != '\r') by {
        if url.len() > 0 {
            assert(l.last() == url[url.len() - 1]);
        }
    }
    assert(!is_comment(l)) by {
        if name.len() > 0 {
            assert(l[0] == name[0]);
        }
    }
    lemma_lines_push(w, l);
    assert(w + l + seq!['\n'] =~= w + (l + seq!['\n']));
    let first = lines_of(w);
    lemma_non_comments_push(first, l);
    let kept = non_comments(first);
    lemma_join_push(kept, l, '\n');
    let old_lines = config_lines(raw);
    let new_lines = config_lines(raw + added);
    assert(new_lines == lines_of(join_with(kept.push(l), '\n')));
    lemma_split_once_key(name, url);
    if kept.len() == 0 {
        lemma_lines_single(l);
        assert(join_with(kept, '\n') =~= Seq::<char>::empty());
        assert(old_lines =~= Seq::<Seq<char>>::empty());
        assert(new_lines.drop_last() =~= old_lines);
        lemma_entries_add(old_lines, new_lines, l, name, url);
    } else {
        lemma_lines_free(w);
        lemma_non_comments_from(first);
        assert forall|k: int, j: int| 0 <= k < kept.len() && 0 <= j < kept[k].len() implies #[trigger] kept[k][j]
            != '\n' by {
            let m = choose|m: int| 0 <= m < first.len() && first[m] == kept[k];
            assert(first[m][j] == kept[k][j]);
        }
        lemma_lines_after_join(kept, l);
        assert(join_with(kept.push(l), '\n') == join_with(kept, '\n') + seq!['\n'] + l);
        lemma_entries_add(old_lines, new_lines, l, name, url);
    }
    lemma_config_entries_distinct(old_lines);
    lemma_lookup_upsert(config_entries(old_lines), name, url, q);
}

/// Reads the repositories and their URLs from the text of the
/// configuration file; a malformed text gives its first malformed line.
pub fn parse_repo_config(raw: &str) -> (r: Result<StrMap<String>, String>)
    ensures
        match r {
            Ok(m) => well_formed(raw@) && m@ == repo_config(raw@),
            Err(l) => exists|i: int|
                0 <= i < config_lines(raw@).len() && config_lines(raw@)[i] == l@ && malformed(l@)
                    && forall|j: int| 0 <= j < i ==> !malformed(#[trigger] config_lines(raw@)[j]),
        },
{
    let cleaned = remove_blanks(raw);
    let first = lines(cleaned.as_str());
    let ghost fv = views(first@);
    assert(fv =~= lines_of(without_blanks(raw@)));
    let mut kept: Vec<String> = Vec::new();
    let mut i: usize = 0;
    while i < first.len()
        invariant
            i <= first.len(),
            fv == views(first@),
            views(kept@) == non_comments(fv.take(i as int)),
        decreases first.len() - i,
    {
        assert(fv.take(i + 1).drop_last() =~= fv.take(i as int));
        if !starts_with_char(first[i].as_str(), '#') {
            let c = first[i].clone();
            proof {
                crate::types::lemma_views_push(kept@, c);
            }
            kept.push(c);
        }
        i = i + 1;
    }
    assert(fv.take(first.len() as int) =~= fv);
    assert(views(kept@) =~= kept@.map_values(|x: String| x@));
    let joined = join_char(&kept, '\n');
    let second = lines(joined.as_str());
    let ghost sv = views(second@);
    assert(sv =~= config_lines(raw@));
    let mut m: StrMap<String> = StrMap::new();
    let mut j: usize = 0;
    while j < second.len()
        invariant
            j <= second.len(),
            sv == views(second@),
            sv == config_lines(raw@),
            m@ == config_entries(sv.take(j as int)),
            forall|q: int| 0 <= q < j ==> !malformed(#[trigger] sv[q]),
        decreases second.len() - j,
    {
        assert(sv.take(j + 1).drop_last() =~= sv.take(j as int));
        match split_once_char(second[j].as_str(), '=') {
            Some(kv) => {
                m.insert(kv.0, kv.1);
            },
            None => {
                if chars_of(second[j].as_str()).len() > 0 {
                    assert(malformed(sv[j as int]));
                    let l = second[j].clone();
                    assert(config_lines(raw@)[j as int] == l@);
                    return Err(l);
                }
            },
        }
        j = j + 1;
    }
    assert(sv.take(second.len() as int) =~= sv);
    Ok(m)
}

/// Where the index of repository `reponame` is kept.
pub fn repo_index_path(reponame: &str) -> (p: String)
    ensures
        p@ == "/etc/mcospkg/database/remote/"@ + reponame@ + ".json"@,
{
    concat3("/etc/mcospkg/database/remote/", reponame, ".json")
}

/// Where the index of a repository is downloaded from.
pub fn repo_index_url(repourl: &str) -> (u: String)
    ensures
        u@ == repourl@ + "/PKGINDEX.json"@,
{
    concat2(repourl, "/PKGINDEX.json")
}

/// The line that adds a repository to the configuration.
pub fn repo_config_line(reponame: &str, repourl: &str) -> (l: String)
    ensures
        l@ == added_line(reponame@, repourl@),
{
    let mut l = concat3(reponame, " = ", repourl);
    l.append("\n");
    l
}

} // verus!
