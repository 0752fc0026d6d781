//! Character-level text handling: the string operations that the
//! configuration and database formats of the package manager rely on,
//! each stated over `Seq<char>` and proved.
use vstd::prelude::*;

verus! {

// ---------------------------------------------------------------------
// Specifications
// ---------------------------------------------------------------------

/// A blank is a space or a tab; configuration text ignores both.
pub open spec fn is_blank(c: char) -> bool {
    c == ' ' || c == '\t'
}

/// `s` with every space and tab taken out, the rest in order.
pub open spec fn without_blanks(s: Seq<char>) -> Seq<char>
    decreases s.len(),
{
    if s.len() == 0 {
        s
    } else {
        let r = without_blanks(s.drop_last());
        if is_blank(s.last()) {
            r
        } else {
            r.push(s.last())
        }
    }
}

/// The pieces of `s` between occurrences of `sep`, as `str::split` with a
/// `char` pattern yields them: always at least one piece.
pub open spec fn split_on(s: Seq<char>, sep: char) -> Seq<Seq<char>>
    decreases s.len(),
{
    if s.len() == 0 {
        seq![Seq::<char>::empty()]
    } else {
        let r = split_on(s.drop_last(), sep);
        if s.last() == sep {
            r.push(Seq::<char>::empty())
        } else {
            r.update(r.len() - 1, r.last().push(s.last()))
        }
    }
}

/// A line that was ended by `\n` loses one `\r` right before it.
pub open spec fn strip_cr(l: Seq<char>) -> Seq<char> {
    if l.len() > 0 && l.last() == '\r' {
        l.drop_last()
    } else {
        l
    }
}

/// The number of lines of `s` as `str::lines` yields them: the last piece
/// after the final `\n` counts only when it is not empty.
pub open spec fn line_count(s: Seq<char>) -> nat {
    let p = split_on(s, '\n');
    if p.last().len() == 0 {
        (p.len() - 1) as nat
    } else {
        p.len()
    }
}

/// The lines of `s` as `str::lines` yields them: split at `\n`, a `\r`
/// right before a `\n` is dropped, and an empty piece after the final
/// `\n` (or of an empty text) is no line.
pub open spec fn lines_of(s: Seq<char>) -> Seq<Seq<char>> {
    let p = split_on(s, '\n');
    Seq::new(
        line_count(s),
        |i: int|
            if i < p.len() - 1 {
                strip_cr(p[i])
            } else {
                p[i]
            },
    )
}

/// The lines joined with `sep` between neighbours.
pub open spec fn join_with(ls: Seq<Seq<char>>, sep: char) -> Seq<char>
    decreases ls.len(),
{
    if ls.len() == 0 {
        Seq::<char>::empty()
    } else if ls.len() == 1 {
        ls[0]
    } else {
        join_with(ls.drop_last(), sep) + seq![sep] + ls.last()
    }
}

/// Index of the first occurrence of `c` in `s`, if any.
pub open spec fn find_char(s: Seq<char>, c: char) -> Option<nat>
    decreases s.len(),
{
    if s.len() == 0 {
        None
    } else {
        match find_char(s.drop_last(), c) {
            Some(i) => Some(i),
            None => if s.last() == c {
                Some((s.len() - 1) as nat)
            } else {
                None
            },
        }
    }
}

/// `str::split_once` with a `char` pattern: the text before and after the
/// first occurrence of `c`.
pub open spec fn split_once_at(s: Seq<char>, c: char) -> Option<(Seq<char>, Seq<char>)> {
    match find_char(s, c) {
        Some(i) => Some((s.take(i as int), s.skip(i + 1 as int))),
        None => None,
    }
}

/// `needle` occurs in `hay` starting at position `i`.
pub open spec fn occurs_at(hay: Seq<char>, needle: Seq<char>, i: int) -> bool {
    0 <= i && i + needle.len() <= hay.len() && hay.subrange(i, i + needle.len()) == needle
}

/// `needle` occurs somewhere in `hay`.
pub open spec fn contains_seq(hay: Seq<char>, needle: Seq<char>) -> bool {
    exists|i: int| occurs_at(hay, needle, i)
}

// ---------------------------------------------------------------------
// Lemmas
// ---------------------------------------------------------------------

proof fn lemma_take_succ_drop_last(s: Seq<char>, i: int)
    requires
        0 <= i < s.len(),
    ensures
        s.take(i + 1).drop_last() == s.take(i),
        s.take(i + 1).last() == s[i],
        s.take(i + 1).len() == i + 1,
{
    assert(s.take(i + 1).drop_last() =~= s.take(i));
}

/// `split_on` never yields an empty list of pieces.
pub proof fn lemma_split_on_nonempty(s: Seq<char>, sep: char)
    ensures
        split_on(s, sep).len() >= 1,
    decreases s.len(),
{
    if s.len() > 0 {
        lemma_split_on_nonempty(s.drop_last(), sep);
    }
}

/// No piece of `split_on` holds the separator.
pub proof fn lemma_split_on_pieces_free(s: Seq<char>, sep: char)
    ensures
        forall|k: int, j: int|
            0 <= k < split_on(s, sep).len() && 0 <= j < split_on(s, sep)[k].len() ==> #[trigger] split_on(
                s,
                sep,
            )[k][j] != sep,
    decreases s.len(),
{
    if s.len() > 0 {
        lemma_split_on_pieces_free(s.drop_last(), sep);
        lemma_split_on_nonempty(s.drop_last(), sep);
    }
}

/// No line holds a line break.
pub proof fn lemma_lines_free(s: Seq<char>)
    ensures
        forall|k: int, j: int|
            0 <= k < lines_of(s).len() && 0 <= j < lines_of(s)[k].len() ==> #[trigger] lines_of(s)[k][j]
                != '\n',
{
    let p = split_on(s, '\n');
    lemma_split_on_pieces_free(s, '\n');
    lemma_split_on_nonempty(s, '\n');
    assert forall|k: int, j: int|
        0 <= k < lines_of(s).len() && 0 <= j < lines_of(s)[k].len() implies #[trigger] lines_of(s)[k][j]
        != '\n' by {
        if k < p.len() - 1 && p[k].len() > 0 && p[k].last() == '\r' {
            assert(lines_of(s)[k] == p[k].drop_last());
            assert(lines_of(s)[k][j] == p[k][j]);
        } else {
            assert(lines_of(s)[k] == p[k]);
        }
    }
}

/// `find_char` points at the first occurrence.
pub proof fn lemma_find_char(s: Seq<char>, c: char)
    ensures
        match find_char(s, c) {
            Some(i) => i < s.len() && s[i as int] == c && forall|j: int| 0 <= j < i ==> s[j] != c,
            None => forall|j: int| 0 <= j < s.len() ==> s[j] != c,
        },
    decreases s.len(),
{
    if s.len() > 0 {
        lemma_find_char(s.drop_last(), c);
        assert(forall|j: int| 0 <= j < s.len() - 1 ==> s.drop_last()[j] == s[j]);
    }
}

/// A text with no `sep` is one piece.
pub proof fn lemma_split_on_free(s: Seq<char>, sep: char)
    requires
        forall|j: int| 0 <= j < s.len() ==> s[j] != sep,
    ensures
        split_on(s, sep) == seq![s],
    decreases s.len(),
{
    if s.len() > 0 {
        lemma_split_on_free(s.drop_last(), sep);
        assert(s.drop_last().push(s.last()) =~= s);
        assert(split_on(s, sep) =~= seq![s]);
    } else {
        assert(s =~= Seq::<char>::empty());
    }
}

/// Splitting a text joined from pieces free of the separator gives the
/// pieces back.
pub proof fn lemma_split_join(ls: Seq<Seq<char>>, sep: char)
    requires
        ls.len() >= 1,
        forall|k: int, j: int| 0 <= k < ls.len() && 0 <= j < ls[k].len() ==> #[trigger] ls[k][j] != sep,
    ensures
        split_on(join_with(ls, sep), sep) == ls,
    decreases ls.len(),
{
    if ls.len() == 1 {
        lemma_split_on_free(ls[0], sep);
        assert(ls =~= seq![ls[0]]);
    } else {
        let pre = ls.drop_last();
        assert forall|k: int, j: int| 0 <= k < pre.len() && 0 <= j < pre[k].len() implies #[trigger] pre[k][j]
            != sep by {
            assert(pre[k] == ls[k]);
        }
        lemma_split_join(pre, sep);
        let head = join_with(pre, sep) + seq![sep];
        lemma_split_on_sep_suffix(join_with(pre, sep), sep);
        assert forall|j: int| 0 <= j < ls.last().len() implies ls.last()[j] != sep by {
            assert(ls.last() == ls[ls.len() - 1]);
        }
        lemma_split_on_append_free(head, ls.last(), sep);
        assert(join_with(ls, sep) == head + ls.last());
        assert(ls =~= pre.push(ls.last()));
    }
}

/// A nonempty text without line breaks is one line.
pub proof fn lemma_lines_single(l: Seq<char>)
    requires
        l.len() > 0,
        forall|j: int| 0 <= j < l.len() ==> l[j] != '\n',
    ensures
        lines_of(l) == seq![l],
{
    lemma_split_on_free(l, '\n');
    assert(lines_of(l) =~= seq![l]);
}

/// Appending a line break and a nonempty line without line breaks to the
/// text joined from `ls` (lines free of line breaks, the last not ending
/// with a carriage return) keeps the lines of the joined text, adds an
/// empty line when the last of `ls` is empty, and ends with the new line.
pub proof fn lemma_lines_after_join(ls: Seq<Seq<char>>, l: Seq<char>)
    requires
        ls.len() >= 1,
        forall|k: int, j: int| 0 <= k < ls.len() && 0 <= j < ls[k].len() ==> #[trigger] ls[k][j] != '\n',
        !(ls.last().len() > 0 && ls.last().last() == '\r'),
        l.len() > 0,
        forall|j: int| 0 <= j < l.len() ==> l[j] != '\n',
    ensures
        ({
            let old_lines = lines_of(join_with(ls, '\n'));
            let new_lines = lines_of(join_with(ls, '\n') + seq!['\n'] + l);
            &&& new_lines.len() > 0
            &&& new_lines.last() == l
            &&& (new_lines.drop_last() == old_lines || new_lines.drop_last() == old_lines.push(
                Seq::<char>::empty(),
            ))
        }),
{
    let j = join_with(ls, '\n');
    lemma_split_join(ls, '\n');
    lemma_split_on_sep_suffix(j, '\n');
    lemma_split_on_append_free(j + seq!['\n'], l, '\n');
    let q = split_on(j + seq!['\n'] + l, '\n');
    assert(Seq::<char>::empty() + l =~= l);
    assert(q =~= ls.push(l));
    let old_lines = lines_of(j);
    let new_lines = lines_of(j + seq!['\n'] + l);
    assert(new_lines.len() == ls.len() + 1);
    assert(new_lines.last() == l);
    if ls.last().len() == 0 {
        assert(strip_cr(ls.last()) == ls.last());
        assert(new_lines.drop_last() =~= old_lines.push(Seq::<char>::empty()));
    } else {
        assert(new_lines.drop_last() =~= old_lines);
    }
}

proof fn lemma_split_on_sep_suffix(s: Seq<char>, sep: char)
    ensures
        split_on(s + seq![sep], sep) == split_on(s, sep).push(Seq::<char>::empty()),
{
    assert((s + seq![sep]).drop_last() =~= s);
}

/// Appending text free of `sep` extends the last piece.
pub proof fn lemma_split_on_append_free(s: Seq<char>, t: Seq<char>, sep: char)
    requires
        forall|j: int| 0 <= j < t.len() ==> t[j] != sep,
    ensures
        split_on(s + t, sep) == split_on(s, sep).update(
            split_on(s, sep).len() - 1,
            split_on(s, sep).last() + t,
        ),
    decreases t.len(),
{
    lemma_split_on_nonempty(s, sep);
    if t.len() == 0 {
        assert(s + t =~= s);
        assert(split_on(s, sep).last() + t =~= split_on(s, sep).last());
        assert(split_on(s, sep).update(split_on(s, sep).len() - 1, split_on(s, sep).last())
            =~= split_on(s, sep));
    } else {
        let t0 = t.drop_last();
        lemma_split_on_append_free(s, t0, sep);
        assert((s + t).drop_last() =~= s + t0);
        assert((s + t).last() == t.last());
        let r = split_on(s, sep);
        assert(r.last() + t =~= (r.last() + t0).push(t.last()));
        assert(split_on(s + t, sep) =~= r.update(r.len() - 1, r.last() + t));
    }
}

/// Taking the blanks out of two texts one after the other is taking them
/// out of each.
pub proof fn lemma_without_blanks_append(a: Seq<char>, b: Seq<char>)
    ensures
        without_blanks(a + b) == without_blanks(a) + without_blanks(b),
    decreases b.len(),
{
    if b.len() == 0 {
        assert(a + b =~= a);
        assert(without_blanks(a) + without_blanks(b) =~= without_blanks(a));
    } else {
        let b0 = b.drop_last();
        lemma_without_blanks_append(a, b0);
        assert((a + b).drop_last() =~= a + b0);
        assert((a + b).last() == b.last());
        if !is_blank(b.last()) {
            assert((without_blanks(a) + without_blanks(b0)).push(b.last()) =~= without_blanks(a)
                + without_blanks(b0).push(b.last()));
        }
    }
}

/// A text without blanks keeps all of its characters.
pub proof fn lemma_without_blanks_none(s: Seq<char>)
    requires
        forall|j: int| 0 <= j < s.len() ==> !is_blank(#[trigger] s[j]),
    ensures
        without_blanks(s) == s,
    decreases s.len(),
{
    if s.len() > 0 {
        lemma_without_blanks_none(s.drop_last());
        assert(s.drop_last().push(s.last()) =~= s);
    }
}

/// A text that is empty or ends with `sep` has an empty last piece.
pub proof fn lemma_split_on_last_empty(s: Seq<char>, sep: char)
    requires
        s.len() == 0 || s.last() == sep,
    ensures
        split_on(s, sep).last() == Seq::<char>::empty(),
{
}

/// After a text that is empty or ends with a line break, a line ended by a
/// line break adds that line.
pub proof fn lemma_lines_push(s: Seq<char>, l: Seq<char>)
    requires
        s.len() == 0 || s.last() == '\n',
        l.len() > 0,
        l.last() != '\r',
        forall|j: int| 0 <= j < l.len() ==> l[j] != '\n',
    ensures
        lines_of(s + l + seq!['\n']) == lines_of(s).push(l),
{
    let p = split_on(s, '\n');
    lemma_split_on_nonempty(s, '\n');
    lemma_split_on_last_empty(s, '\n');
    lemma_split_on_append_free(s, l, '\n');
    assert(p.last() + l =~= l);
    let q = split_on(s + l, '\n');
    assert(q == p.update(p.len() - 1, l));
    lemma_split_on_sep_suffix(s + l, '\n');
    let r = split_on(s + l + seq!['\n'], '\n');
    assert(r == q.push(Seq::<char>::empty()));
    assert(line_count(s + l + seq!['\n']) == p.len());
    assert(line_count(s) == p.len() - 1);
    assert(lines_of(s + l + seq!['\n']) =~= lines_of(s).push(l));
}

// ---------------------------------------------------------------------
// Executable helpers
// ---------------------------------------------------------------------

/// Appends one character to a string.
///
/// Calls `String::push`, which std documents as appending the given char
/// to the end of the string; the contract says just that.
#[verifier::external_body]
pub fn push_char(s: &mut String, c: char)
    ensures
        final(s)@ == old(s)@.push(c),
{
    s.push(c);
}

/// The characters of `s`, in order.
pub fn chars_of(s: &str) -> (v: Vec<char>)
    ensures
        v@ == s@,
{
    let mut v: Vec<char> = Vec::new();
    for c in it: s.chars()
        invariant
            v@ == it.seq().take(it.index() as int),
    {
        v.push(c);
    }
    v
}

/// A string made of the characters `cs[lo..hi]`.
pub fn string_of_range(cs: &Vec<char>, lo: usize, hi: usize) -> (r: String)
    requires
        lo <= hi <= cs.len(),
    ensures
        r@ == cs@.subrange(lo as int, hi as int),
{
    let mut r = String::new();
    let mut i = lo;
    while i < hi
        invariant
            lo <= i <= hi <= cs.len(),
            r@ == cs@.subrange(lo as int, i as int),
        decreases hi - i,
    {
        push_char(&mut r, cs[i]);
        assert(cs@.subrange(lo as int, i + 1) =~= cs@.subrange(lo as int, i as int).push(cs@[i as int]));
        i = i + 1;
    }
    r
}

/// A string made of all of `cs`.
pub fn string_of(cs: &Vec<char>) -> (r: String)
    ensures
        r@ == cs@,
{
    let r = string_of_range(cs, 0, cs.len());
    assert(cs@.subrange(0, cs@.len() as int) =~= cs@);
    r
}

/// A copy of `s` as an owned string.
pub fn owned(s: &str) -> (r: String)
    ensures
        r@ == s@,
{
    let cs = chars_of(s);
    string_of(&cs)
}

/// The concatenation of `a` and `b`.
pub fn concat2(a: &str, b: &str) -> (r: String)
    ensures
        r@ == a@ + b@,
{
    let mut r = owned(a);
    r.append(b);
    r
}

/// The concatenation of `a`, `b` and `c`.
pub fn concat3(a: &str, b: &str, c: &str) -> (r: String)
    ensures
        r@ == a@ + b@ + c@,
{
    let mut r = owned(a);
    r.append(b);
    r.append(c);
    r
}

/// Whether two strings are equal.
pub fn str_eq(a: &str, b: &str) -> (r: bool)
    ensures
        r == (a@ == b@),
{
    let x = owned(a);
    let y = owned(b);
    x == y
}

/// `s` without spaces and tabs.
pub fn remove_blanks(s: &str) -> (r: String)
    ensures
        r@ == without_blanks(s@),
{
    let cs = chars_of(s);
    let mut r = String::new();
    let mut i: usize = 0;
    while i < cs.len()
        invariant
            i <= cs.len(),
            cs@ == s@,
            r@ == without_blanks(cs@.take(i as int)),
        decreases cs.len() - i,
    {
        proof {
            lemma_take_succ_drop_last(cs@, i as int);
        }
        let c = cs[i];
        if c != ' ' && c != '\t' {
            push_char(&mut r, c);
        }
        i = i + 1;
    }
    assert(cs@.take(cs.len() as int) =~= cs@);
    r
}

/// The pieces of `s` between occurrences of `sep` (`str::split`).
pub fn split_char(s: &str, sep: char) -> (r: Vec<String>)
    ensures
        r@.len() == split_on(s@, sep).len(),
        forall|k: int| 0 <= k < r@.len() ==> #[trigger] r@[k]@ == split_on(s@, sep)[k],
{
    let cs = chars_of(s);
    let mut done: Vec<String> = Vec::new();
    let mut start: usize = 0;
    let mut i: usize = 0;
    while i < cs.len()
        invariant
            start <= i <= cs.len(),
            cs@ == s@,
            split_on(cs@.take(i as int), sep).len() == done@.len() + 1,
            forall|k: int| 0 <= k < done@.len() ==> #[trigger] done@[k]@ == split_on(cs@.take(i as int), sep)[k],
            split_on(cs@.take(i as int), sep).last() == cs@.subrange(start as int, i as int),
        decreases cs.len() - i,
    {
        proof {
            lemma_take_succ_drop_last(cs@, i as int);
        }
        if cs[i] == sep {
            let piece = string_of_range(&cs, start, i);
            done.push(piece);
            start = i + 1;
            assert(cs@.subrange(start as int, i + 1) =~= Seq::<char>::empty());
        } else {
            assert(cs@.subrange(start as int, i + 1) =~= cs@.subrange(start as int, i as int).push(cs@[i as int]));
        }
        i = i + 1;
    }
    let last = string_of_range(&cs, start, cs.len());
    done.push(last);
    assert(cs@.take(cs.len() as int) =~= cs@);
    done
}

/// Drops one trailing `\r`.
pub fn strip_cr_exec(s: String) -> (r: String)
    ensures
        r@ == strip_cr(s@),
{
    let cs = chars_of(s.as_str());
    if cs.len() > 0 && cs[cs.len() - 1] == '\r' {
        let r = string_of_range(&cs, 0, cs.len() - 1);
        assert(cs@.subrange(0, cs.len() - 1) =~= cs@.drop_last());
        r
    } else {
        s
    }
}

/// The lines of `s` (`str::lines`).
pub fn lines(s: &str) -> (r: Vec<String>)
    ensures
        r@.len() == lines_of(s@).len(),
        forall|k: int| 0 <= k < r@.len() ==> #[trigger] r@[k]@ == lines_of(s@)[k],
{
    let pieces = split_char(s, '\n');
    proof {
        lemma_split_on_nonempty(s@, '\n');
    }
    let n = pieces.len();
    let mut out: Vec<String> = Vec::new();
    let mut k: usize = 0;
    while k + 1 < n
        invariant
            n == pieces@.len() == split_on(s@, '\n').len(),
            n >= 1,
            k + 1 <= n,
            forall|j: int| 0 <= j < n ==> #[trigger] pieces@[j]@ == split_on(s@, '\n')[j],
            out@.len() == k,
            forall|j: int| 0 <= j < k ==> #[trigger] out@[j]@ == lines_of(s@)[j],
        decreases n - k,
    {
        let p = pieces[k].clone();
        let q = strip_cr_exec(p);
        out.push(q);
        k = k + 1;
    }
    let last = pieces[n - 1].clone();
    let lc = chars_of(last.as_str());
    if lc.len() > 0 {
        out.push(last);
    }
    out
}

/// The strings joined with `sep` between neighbours (`[..].join`).
pub fn join_char(ls: &Vec<String>, sep: char) -> (r: String)
    ensures
        r@ == join_with(ls@.map_values(|x: String| x@), sep),
{
    let ghost v = ls@.map_values(|x: String| x@);
    let mut r = String::new();
    let mut i: usize = 0;
    while i < ls.len()
        invariant
            i <= ls.len(),
            v == ls@.map_values(|x: String| x@),
            r@ == join_with(v.take(i as int), sep),
        decreases ls.len() - i,
    {
        assert(v.take(i + 1).drop_last() =~= v.take(i as int));
        if i > 0 {
            push_char(&mut r, sep);
        } else {
            assert(v.take(0) =~= Seq::<Seq<char>>::empty());
        }
        r.append(ls[i].as_str());
        i = i + 1;
    }
    assert(v.take(ls.len() as int) =~= v);
    r
}

/// Whether `s` begins with `c`.
pub fn starts_with_char(s: &str, c: char) -> (r: bool)
    ensures
        r == (s@.len() > 0 && s@[0] == c),
{
    let cs = chars_of(s);
    cs.len() > 0 && cs[0] == c
}

/// `str::split_once` with a `char` pattern.
pub fn split_once_char(s: &str, c: char) -> (r: Option<(String, String)>)
    ensures
        match split_once_at(s@, c) {
            Some(p) => r matches Some(q) && q.0@ == p.0 && q.1@ == p.1,
            None => r is None,
        },
{
    let cs = chars_of(s);
    proof {
        lemma_find_char(s@, c);
    }
    let mut i: usize = 0;
    while i < cs.len()
        invariant
            i <= cs.len(),
            cs@ == s@,
            forall|j: int| 0 <= j < i ==> cs@[j] != c,
        decreases cs.len() - i,
    {
        if cs[i] == c {
            let a = string_of_range(&cs, 0, i);
            let b = string_of_range(&cs, i + 1, cs.len());
            proof {
                lemma_find_char(s@, c);
                assert(cs@.take(i as int) =~= cs@.subrange(0, i as int));
                assert(cs@.skip(i + 1 as int) =~= cs@.subrange(i + 1, cs.len() as int));
            }
            return Some((a, b));
        }
        i = i + 1;
    }
    None
}

/// Whether `needle` occurs at position `i` of `hay`.
fn matches_at(hay: &Vec<char>, needle: &Vec<char>, i: usize) -> (r: bool)
    requires
        i + needle.len() <= hay.len(),
    ensures
        r == occurs_at(hay@, needle@, i as int),
{
    let mut j: usize = 0;
    while j < needle.len()
        invariant
            j <= needle.len(),
            i + needle.len() <= hay.len(),
            forall|k: int| 0 <= k < j ==> hay@[i + k] == needle@[k],
        decreases needle.len() - j,
    {
        if hay[i + j] != needle[j] {
            assert(hay@.subrange(i as int, i + needle.len())[j as int] != needle@[j as int]);
            return false;
        }
        j = j + 1;
    }
    assert(hay@.subrange(i as int, i + needle.len()) =~= needle@);
    true
}

/// The first position where `needle` occurs in `hay` (`str::find`, counted
/// in characters).
pub fn find_str(hay: &str, needle: &str) -> (r: Option<usize>)
    ensures
        match r {
            Some(i) => occurs_at(hay@, needle@, i as int) && forall|j: int|
                0 <= j < i ==> !occurs_at(hay@, needle@, j),
            None => !contains_seq(hay@, needle@),
        },
{
    let h = chars_of(hay);
    let n = chars_of(needle);
    if n.len() > h.len() {
        return None;
    }
    let last = h.len() - n.len();
    let mut i: usize = 0;
    while i <= last
        invariant
            h@ == hay@,
            n@ == needle@,
            n.len() <= h.len(),
            last == h.len() - n.len(),
            i <= last + 1,
            forall|j: int| 0 <= j < i ==> !occurs_at(hay@, needle@, j),
        decreases last + 1 - i,
    {
        if matches_at(&h, &n, i) {
            return Some(i);
        }
        if i == last {
            return None;
        }
        i = i + 1;
    }
    None
}

/// Whether `needle` occurs in `hay` (`str::contains`).
pub fn contains_str(hay: &str, needle: &str) -> (r: bool)
    ensures
        r == contains_seq(hay@, needle@),
{
    match find_str(hay, needle) {
        Some(_) => true,
        None => false,
    }
}

} // verus!
