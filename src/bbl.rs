//! The parser of `thebibliography` blocks (`.bbl` files): one entry per
//! `\bibitem`, with key, author, year, title and the raw text.
use vstd::prelude::*;
use crate::text::{alphanumeric, find_from, find_from_exec, is_alphanumeric, is_whitespace, is_ws,
    join, join_exec, lemma_find_from_bounds, lines, lines_exec, matches_at, matches_at_exec, skip_sep,
    split, split_exec, string_of, subvec, trim, trim_end, trim_range, trim_vec, views};
use crate::entry::{BibEntry, EntryView, with_field};
use crate::bibliography::{Bibliography, BibView, with_entry, add_entries};

verus! {

pub open spec fn is_digit(c: char) -> bool {
    '0' <= c && c <= '9'
}

pub open spec fn all_digits(s: Seq<char>) -> bool {
    forall|i: int| 0 <= i < s.len() ==> is_digit(#[trigger] s[i])
}

pub fn all_digits_exec(s: &Vec<char>, lo: usize, hi: usize) -> (r: bool)
    requires
        lo <= hi <= s.len(),
    ensures
        r == all_digits(s@.subrange(lo as int, hi as int)),
{
    let mut i = lo;
    while i < hi
        invariant
            lo <= i <= hi <= s.len(),
            forall|k: int| lo <= k < i ==> is_digit(#[trigger] s@[k]),
        decreases hi - i,
    {
        if !('0' <= s[i] && s[i] <= '9') {
            proof {
                assert(!is_digit(s@.subrange(lo as int, hi as int)[i - lo]));
            }
            return false;
        }
        i = i + 1;
    }
    proof {
        assert forall|k: int| 0 <= k < hi - lo implies is_digit(
            #[trigger] s@.subrange(lo as int, hi as int)[k],
        ) by {
            assert(s@.subrange(lo as int, hi as int)[k] == s@[lo + k]);
        }
    }
    true
}

pub open spec fn protect_prefix() -> Seq<char> {
    seq![
        '[', '\\', 'p', 'r', 'o', 't', 'e', 'c', 't', '\\', 'c', 'i', 't', 'e', 'a', 'u', 't', 'h',
        'o', 'r', 'y', 'e', 'a', 'r', '{',
    ]
}

/// `[\protect\citeauthoryear{names}{YYYY}]{key}` at the start of the line:
/// the year and the key.
pub open spec fn protected_key(l: Seq<char>) -> Option<(Seq<char>, Seq<char>)> {
    let n = protect_prefix().len() as int;
    if !matches_at(l, protect_prefix(), 0) {
        None
    } else {
        match find_from(l, seq!['}'], n) {
            None => None,
            Some(c1) => if c1 > n && matches_at(l, seq!['}', '{'], c1) && c1 + 6 <= l.len()
                && all_digits(l.subrange(c1 + 2, c1 + 6)) && matches_at(
                l,
                seq!['}', ']', '{'],
                c1 + 6,
            ) {
                match find_from(l, seq!['}'], c1 + 9) {
                    Some(c3) => if c3 > c1 + 9 {
                        Some((l.subrange(c1 + 2, c1 + 6), l.subrange(c1 + 9, c3)))
                    } else {
                        None
                    },
                    None => None,
                }
            } else {
                None
            },
        }
    }
}

/// `{key}` at the start of the line.
pub open spec fn brace_key(l: Seq<char>) -> Option<Seq<char>> {
    if l.len() > 0 && l[0] == '{' {
        match find_from(l, seq!['}'], 1) {
            Some(c) => if c > 1 {
                Some(l.subrange(1, c))
            } else {
                None
            },
            None => None,
        }
    } else {
        None
    }
}

/// The last brace before position `e`.
pub open spec fn last_brace_before(l: Seq<char>, e: int) -> Option<int>
    decreases e,
{
    if e <= 0 || e > l.len() {
        None
    } else if l[e - 1] == '{' || l[e - 1] == '}' {
        Some(e - 1)
    } else {
        last_brace_before(l, e - 1)
    }
}

/// `{key}` closing the line, with nothing but whitespace after it.
pub open spec fn trailing_key(l: Seq<char>) -> Option<Seq<char>> {
    let t = trim_end(l);
    let e = t.len() - 1;
    if t.len() > 0 && t[e] == '}' {
        match last_brace_before(t, e) {
            Some(q) => if t[q] == '{' && q + 1 < e {
                Some(t.subrange(q + 1, e))
            } else {
                None
            },
            None => None,
        }
    } else {
        None
    }
}

/// The citation key of a fragment's first line, with the year that the
/// protected form carries.
pub open spec fn key_and_year(first: Seq<char>) -> Option<(Seq<char>, Option<Seq<char>>)> {
    match protected_key(first) {
        Some((y, k)) => Some((k, Some(y))),
        None => match brace_key(first) {
            Some(k) => Some((k, None)),
            None => match trailing_key(first) {
                Some(k) => Some((k, None)),
                None => None,
            },
        },
    }
}

fn protected_key_exec(l: &Vec<char>) -> (r: Option<(Vec<char>, Vec<char>)>)
    ensures
        match r {
            Some((y, k)) => protected_key(l@) == Some((y@, k@)),
            None => protected_key(l@) is None,
        },
{
    let prefix = vec![
        '[', '\\', 'p', 'r', 'o', 't', 'e', 'c', 't', '\\', 'c', 'i', 't', 'e', 'a', 'u', 't', 'h',
        'o', 'r', 'y', 'e', 'a', 'r', '{',
    ];
    let close = vec!['}'];
    let mid = vec!['}', '{'];
    let tail = vec!['}', ']', '{'];
    proof {
        assert(prefix@ =~= protect_prefix());
        assert(close@ =~= seq!['}']);
        assert(mid@ =~= seq!['}', '{']);
        assert(tail@ =~= seq!['}', ']', '{']);
    }
    let n = prefix.len();
    if !matches_at_exec(l, &prefix, 0) {
        return None;
    }
    match find_from_exec(l, &close, n) {
        None => None,
        Some(c1) => {
            proof {
                lemma_find_from_bounds(l@, seq!['}'], n as int);
            }
            if c1 > n && matches_at_exec(l, &mid, c1) && l.len() >= 6 && c1 <= l.len() - 6 && all_digits_exec(
                l,
                c1 + 2,
                c1 + 6,
            ) && matches_at_exec(l, &tail, c1 + 6) {
                match find_from_exec(l, &close, c1 + 9) {
                    Some(c3) => {
                        proof {
                            lemma_find_from_bounds(l@, seq!['}'], c1 + 9);
                        }
                        if c3 > c1 + 9 {
                            Some((subvec(l, c1 + 2, c1 + 6), subvec(l, c1 + 9, c3)))
                        } else {
                            None
                        }
                    },
                    None => None,
                }
            } else {
                None
            }
        },
    }
}

fn brace_key_exec(l: &Vec<char>) -> (r: Option<Vec<char>>)
    ensures
        match r {
            Some(k) => brace_key(l@) == Some(k@),
            None => brace_key(l@) is None,
        },
{
    let close = vec!['}'];
    proof {
        assert(close@ =~= seq!['}']);
    }
    if l.len() > 0 && l[0] == '{' {
        match find_from_exec(l, &close, 1) {
            Some(c) => {
                proof {
                    lemma_find_from_bounds(l@, seq!['}'], 1);
                }
                if c > 1 {
                    Some(subvec(l, 1, c))
                } else {
                    None
                }
            },
            None => None,
        }
    } else {
        None
    }
}

fn trailing_key_exec(l: &Vec<char>) -> (r: Option<Vec<char>>)
    ensures
        match r {
            Some(k) => trailing_key(l@) == Some(k@),
            None => trailing_key(l@) is None,
        },
{
    let mut b2 = l.len();
    proof {
        assert(l@.subrange(0, l.len() as int) =~= l@);
    }
    while b2 > 0 && is_whitespace(l[b2 - 1])
        invariant
            b2 <= l.len(),
            trim_end(l@) == trim_end(l@.subrange(0, b2 as int)),
        decreases b2,
    {
        proof {
            assert(l@.subrange(0, b2 as int).drop_last() =~= l@.subrange(0, b2 - 1));
        }
        b2 = b2 - 1;
    }
    let t = subvec(l, 0, b2);
    proof {
        assert(l@.subrange(0, l.len() as int) =~= l@);
        assert(t@ == trim_end(l@));
    }
    if t.len() == 0 || t[t.len() - 1] != '}' {
        return None;
    }
    let e = t.len() - 1;
    let mut q = e;
    while q > 0 && t[q - 1] != '{' && t[q - 1] != '}'
        invariant
            q <= e < t.len(),
            last_brace_before(t@, e as int) == last_brace_before(t@, q as int),
        decreases q,
    {
        q = q - 1;
    }
    if q == 0 {
        return None;
    }
    let q = q - 1;
    if t[q] == '{' && q + 1 < e {
        Some(subvec(&t, q + 1, e))
    } else {
        None
    }
}

fn key_and_year_exec(first: &Vec<char>) -> (r: Option<(Vec<char>, Option<Vec<char>>)>)
    ensures
        match r {
            Some((k, y)) => key_and_year(first@) == Some(
                (
                    k@,
                    match y {
                        Some(v) => Some(v@),
                        None => None,
                    },
                ),
            ),
            None => key_and_year(first@) is None,
        },
{
    match protected_key_exec(first) {
        Some((y, k)) => Some((k, Some(y))),
        None => match brace_key_exec(first) {
            Some(k) => Some((k, None)),
            None => match trailing_key_exec(first) {
                Some(k) => Some((k, None)),
                None => None,
            },
        },
    }
}


/// A year closing the line: four digits and a period at its end.
pub open spec fn year_end(l: Seq<char>) -> Option<Seq<char>> {
    if l.len() >= 5 && l.last() == '.' && all_digits(l.subrange(l.len() - 5, l.len() - 1)) {
        Some(l.subrange(l.len() - 5, l.len() - 1))
    } else {
        None
    }
}

/// The year closing the last line that ends in one.
pub open spec fn year_at_end(ls: Seq<Seq<char>>) -> Option<Seq<char>>
    decreases ls.len(),
{
    if ls.len() == 0 {
        None
    } else {
        match year_end(ls.last()) {
            Some(y) => Some(y),
            None => year_at_end(ls.drop_last()),
        }
    }
}

/// A character that continues a word.
pub open spec fn word_char(c: char) -> bool {
    alphanumeric(c) || c == '_'
}

/// A token `19dd` or `20dd` at position `i`, not inside a longer word.
pub open spec fn year_token_at(l: Seq<char>, i: int) -> bool {
    0 <= i && i + 4 <= l.len() && ((l[i] == '1' && l[i + 1] == '9') || (l[i] == '2' && l[i + 1]
        == '0')) && is_digit(l[i + 2]) && is_digit(l[i + 3]) && (i == 0 || !word_char(l[i - 1]))
        && (i + 4 == l.len() || !word_char(l[i + 4]))
}

/// The first year token of the line from position `i` on.
pub open spec fn year_token_from(l: Seq<char>, i: int) -> Option<Seq<char>>
    decreases l.len() - i,
{
    if i < 0 || i >= l.len() {
        None
    } else if year_token_at(l, i) {
        Some(l.subrange(i, i + 4))
    } else {
        year_token_from(l, i + 1)
    }
}

/// The first year token of the first line that has one.
pub open spec fn year_in_lines(ls: Seq<Seq<char>>) -> Option<Seq<char>>
    decreases ls.len(),
{
    if ls.len() == 0 {
        None
    } else {
        match year_token_from(ls[0], 0) {
            Some(y) => Some(y),
            None => year_in_lines(ls.drop_first()),
        }
    }
}

/// The first period or line break at or after `p`.
pub open spec fn find_term(t: Seq<char>, p: int) -> Option<int>
    decreases t.len() - p,
{
    if p < 0 || p >= t.len() {
        None
    } else if t[p] == '.' || t[p] == '\n' {
        Some(p)
    } else {
        find_term(t, p + 1)
    }
}

/// The title after a `\newblock` at `k`: past the whitespace that follows
/// it, up to the next period or line break, trimmed.
pub open spec fn title_at(t: Seq<char>, k: int) -> Option<Seq<char>> {
    if matches_at(t, "\\newblock"@, k) && k + 9 < t.len() && is_ws(t[k + 9]) {
        let p = skip_sep(t, k + 9, false);
        match find_term(t, p) {
            Some(q) => Some(trim(t.subrange(p, q))),
            None => None,
        }
    } else {
        None
    }
}

/// The title of the first `\newblock` at or after `k` that gives one.
pub open spec fn title_from(t: Seq<char>, k: int) -> Option<Seq<char>>
    decreases t.len() - k,
{
    if k < 0 || k >= t.len() {
        None
    } else {
        match title_at(t, k) {
            Some(x) => Some(x),
            None => title_from(t, k + 1),
        }
    }
}

/// The key of a fragment, from its first line, with the year that it may carry.
pub open spec fn fragment_key(part: Seq<char>) -> Option<(Seq<char>, Option<Seq<char>>)> {
    let ls = lines(part);
    if ls.len() == 0 {
        None
    } else {
        key_and_year(trim(ls[0]))
    }
}

/// The entry that a `\bibitem` fragment describes, if it has a key.
pub open spec fn parse_fragment(part: Seq<char>) -> Option<EntryView> {
    match fragment_key(part) {
        None => None,
        Some((k, y0)) => {
            let ls = lines(part);
            let e0 = EntryView { key: k, entry_type: "article"@, fields: seq![] };
            let e1 = if ls.len() > 1 {
                with_field(e0, "author"@, trim(ls[1]))
            } else {
                e0
            };
            let y = match y0 {
                Some(y) => Some(y),
                None => match year_at_end(ls) {
                    Some(y) => Some(y),
                    None => year_in_lines(ls),
                },
            };
            let e2 = match y {
                Some(y) => with_field(e1, "year"@, y),
                None => e1,
            };
            let e3 = match title_from(join(ls, seq!['\n']), 0) {
                Some(t) => with_field(e2, "title"@, t),
                None => e2,
            };
            Some(with_field(e3, "raw"@, trim(part)))
        },
    }
}

/// The `\bibitem` fragments of a text: the parts after each `\bibitem`
/// between the opening and the closing marker of the list.
pub open spec fn fragments(c: Seq<char>) -> Seq<Seq<char>> {
    match (
        find_from(c, "\\begin{thebibliography}"@, 0),
        find_from(c, "\\end{thebibliography}"@, 0),
    ) {
        (Some(a), Some(b)) => if a <= b {
            split(c.subrange(a, b), "\\bibitem"@).drop_first()
        } else {
            seq![]
        },
        _ => seq![],
    }
}

/// The bibliography `b` with the entry of each fragment inserted in turn.
pub open spec fn parsed_fold(b: BibView, parts: Seq<Seq<char>>) -> BibView
    decreases parts.len(),
{
    if parts.len() == 0 {
        b
    } else {
        let b2 = parsed_fold(b, parts.drop_last());
        match parse_fragment(parts.last()) {
            Some(e) => with_entry(b2, e),
            None => b2,
        }
    }
}

/// The bibliography that a `thebibliography` text describes.
pub open spec fn bbl_entries(c: Seq<char>) -> BibView {
    parsed_fold(seq![], fragments(c))
}

fn year_end_exec(l: &Vec<char>) -> (r: Option<Vec<char>>)
    ensures
        match r {
            Some(y) => year_end(l@) == Some(y@),
            None => year_end(l@) is None,
        },
{
    let n = l.len();
    if n >= 5 && l[n - 1] == '.' && all_digits_exec(l, n - 5, n - 1) {
        Some(subvec(l, n - 5, n - 1))
    } else {
        None
    }
}

fn word_char_exec(c: char) -> (r: bool)
    ensures
        r == word_char(c),
{
    is_alphanumeric(c) || c == '_'
}

fn year_token_exec(l: &Vec<char>) -> (r: Option<Vec<char>>)
    ensures
        match r {
            Some(y) => year_token_from(l@, 0) == Some(y@),
            None => year_token_from(l@, 0) is None,
        },
{
    let mut i: usize = 0;
    while i < l.len()
        invariant
            i <= l.len(),
            year_token_from(l@, 0) == year_token_from(l@, i as int),
        decreases l.len() - i,
    {
        if l.len() >= 4 && i <= l.len() - 4 && ((l[i] == '1' && l[i + 1] == '9') || (l[i] == '2'
            && l[i + 1] == '0')) && '0' <= l[i + 2] && l[i + 2] <= '9' && '0' <= l[i + 3] && l[i
            + 3] <= '9' && (i == 0 || !word_char_exec(l[i - 1])) && (i + 4 == l.len()
            || !word_char_exec(l[i + 4])) {
            return Some(subvec(l, i, i + 4));
        }
        i = i + 1;
    }
    None
}

fn find_term_exec(t: &Vec<char>, p: usize) -> (r: Option<usize>)
    ensures
        match r {
            Some(q) => find_term(t@, p as int) == Some(q as int) && p <= q < t.len(),
            None => find_term(t@, p as int) is None,
        },
{
    let mut q = p;
    while q < t.len()
        invariant
            p <= q,
            find_term(t@, p as int) == find_term(t@, q as int),
        decreases t.len() - q,
    {
        if t[q] == '.' || t[q] == '\n' {
            return Some(q);
        }
        q = q + 1;
    }
    None
}

fn title_exec(t: &Vec<char>) -> (r: Option<Vec<char>>)
    ensures
        match r {
            Some(x) => title_from(t@, 0) == Some(x@),
            None => title_from(t@, 0) is None,
        },
{
    let marker = crate::text::chars_of("\\newblock");
    proof {
        reveal_strlit("\\newblock");
    }
    let mut k: usize = 0;
    while k < t.len()
        invariant
            k <= t.len(),
            marker@ == "\\newblock"@,
            marker@.len() == 9,
            title_from(t@, 0) == title_from(t@, k as int),
        decreases t.len() - k,
    {
        if matches_at_exec(t, &marker, k) && k + 9 < t.len() && is_whitespace(t[k + 9]) {
            let mut p = k + 9;
            while p < t.len() && is_whitespace(t[p])
                invariant
                    k + 9 <= p <= t.len(),
                    skip_sep(t@, k + 9, false) == skip_sep(t@, p as int, false),
                decreases t.len() - p,
            {
                p = p + 1;
            }
            if let Some(q) = find_term_exec(t, p) {
                let (a, b) = trim_range(t, p, q);
                return Some(subvec(t, a, b));
            }
        }
        k = k + 1;
    }
    None
}

fn parse_fragment_exec(part: &Vec<char>) -> (r: Option<BibEntry>)
    ensures
        match r {
            Some(e) => parse_fragment(part@) == Some(e@) && e.key@.len() > 0,
            None => parse_fragment(part@) is None,
        },
{
    let ls = lines_exec(part);
    let ghost gls = lines(part@);
    if ls.len() == 0 {
        return None;
    }
    let first = trim_vec(&ls[0]);
    let (k, y0) = match key_and_year_exec(&first) {
        Some(found) => found,
        None => {
            return None;
        },
    };
    proof {
        lemma_key_nonempty(first@);
    }
    let mut e = BibEntry::new(string_of(&k), "article".to_owned());
    if ls.len() > 1 {
        e.set("author", string_of(&trim_vec(&ls[1])));
    }
    let y = match y0 {
        Some(y) => Some(y),
        None => match year_at_end_exec(&ls) {
            Some(y) => Some(y),
            None => year_in_lines_exec(&ls),
        },
    };
    if let Some(y) = y {
        e.set("year", string_of(&y));
    }
    let nl = vec!['\n'];
    proof {
        assert(nl@ =~= seq!['\n']);
    }
    let text = join_exec(&ls, &nl);
    if let Some(t) = title_exec(&text) {
        e.set("title", string_of(&t));
    }
    e.set("raw", string_of(&trim_vec(part)));
    Some(e)
}

proof fn lemma_last_brace_bounds(l: Seq<char>, e: int)
    ensures
        last_brace_before(l, e) matches Some(q) ==> 0 <= q < e <= l.len(),
    decreases e,
{
    if e > 0 && e <= l.len() && !(l[e - 1] == '{' || l[e - 1] == '}') {
        lemma_last_brace_bounds(l, e - 1);
    }
}

proof fn lemma_key_nonempty(first: Seq<char>)
    ensures
        key_and_year(first) matches Some((k, _)) ==> k.len() > 0,
{
    let n = protect_prefix().len() as int;
    lemma_find_from_bounds(first, seq!['}'], n);
    if let Some(c1) = find_from(first, seq!['}'], n) {
        lemma_find_from_bounds(first, seq!['}'], c1 + 9);
    }
    lemma_find_from_bounds(first, seq!['}'], 1);
    let t = trim_end(first);
    lemma_last_brace_bounds(t, t.len() - 1);
}

fn year_at_end_exec(ls: &Vec<Vec<char>>) -> (r: Option<Vec<char>>)
    ensures
        match r {
            Some(y) => year_at_end(views(ls@)) == Some(y@),
            None => year_at_end(views(ls@)) is None,
        },
{
    let ghost gls = views(ls@);
    let mut i = ls.len();
    proof {
        assert(gls.subrange(0, i as int) =~= gls);
    }
    while i > 0
        invariant
            i <= ls.len(),
            views(ls@) == gls,
            year_at_end(gls) == year_at_end(gls.subrange(0, i as int)),
        decreases i,
    {
        proof {
            assert(gls.subrange(0, i as int).drop_last() =~= gls.subrange(0, i - 1));
        }
        if let Some(v) = year_end_exec(&ls[i - 1]) {
            return Some(v);
        }
        i = i - 1;
    }
    None
}

fn year_in_lines_exec(ls: &Vec<Vec<char>>) -> (r: Option<Vec<char>>)
    ensures
        match r {
            Some(y) => year_in_lines(views(ls@)) == Some(y@),
            None => year_in_lines(views(ls@)) is None,
        },
{
    let ghost gls = views(ls@);
    let mut j: usize = 0;
    proof {
        assert(gls.subrange(0, gls.len() as int) =~= gls);
    }
    while j < ls.len()
        invariant
            j <= ls.len(),
            views(ls@) == gls,
            year_in_lines(gls) == year_in_lines(gls.subrange(j as int, gls.len() as int)),
        decreases ls.len() - j,
    {
        proof {
            assert(gls.subrange(j as int, gls.len() as int).drop_first() =~= gls.subrange(
                j + 1,
                gls.len() as int,
            ));
        }
        if let Some(v) = year_token_exec(&ls[j]) {
            return Some(v);
        }
        j = j + 1;
    }
    None
}

impl Bibliography {
    /// Parses a `thebibliography` block: one entry per `\bibitem` that has a
    /// key, a later entry replacing an earlier one with the same key. A text
    /// without both list markers gives an empty bibliography.
    pub fn parse_bbl(content: &str) -> (r: Bibliography)
        ensures
            r@ == bbl_entries(content@),
    {
        let c = crate::text::chars_of(content);
        let begin = crate::text::chars_of("\\begin{thebibliography}");
        let end = crate::text::chars_of("\\end{thebibliography}");
        let item = crate::text::chars_of("\\bibitem");
        proof {
            reveal_strlit("\\bibitem");
        }
        let mut bib = Bibliography::new();
        let (a, b) = match (find_from_exec(&c, &begin, 0), find_from_exec(&c, &end, 0)) {
            (Some(a), Some(b)) => (a, b),
            _ => {
                proof {
                    assert(fragments(content@) =~= Seq::<Seq<char>>::empty());
                }
                return bib;
            },
        };
        if a > b {
            proof {
                assert(fragments(content@) =~= Seq::<Seq<char>>::empty());
            }
            return bib;
        }
        proof {
            lemma_find_from_bounds(c@, end@, 0);
        }
        let region = subvec(&c, a, b);
        let parts = split_exec(&region, &item);
        let ghost frags = fragments(content@);
        proof {
            assert(frags =~= views(parts@).drop_first());
            assert(bib@ =~= parsed_fold(seq![], frags.subrange(0, 0)));
        }
        let mut i: usize = 1;
        while i < parts.len()
            invariant
                1 <= i,
                frags == views(parts@).drop_first(),
                i <= parts.len() || parts.len() == 0,
                bib@ == parsed_fold(seq![], frags.subrange(0, i - 1)),
            decreases parts.len() - i,
        {
            proof {
                assert(frags.subrange(0, i as int).drop_last() =~= frags.subrange(0, i - 1));
                assert(frags[i - 1] == parts@[i as int]@);
            }
            match parse_fragment_exec(&parts[i]) {
                Some(e) => {
                    bib.insert(e);
                },
                None => {},
            }
            i = i + 1;
        }
        proof {
            if parts.len() > 0 {
                assert(frags.subrange(0, i - 1) =~= frags);
            }
        }
        bib
    }
}


/// A `\bibitem` fragment whose key cannot be recovered adds no entry: the
/// bibliography is the same with or without it, and so is its size.
pub proof fn lemma_keyless_fragment_ignored(b: BibView, parts: Seq<Seq<char>>, p: Seq<char>)
    requires
        fragment_key(p) is None,
    ensures
        parsed_fold(b, parts.push(p)) == parsed_fold(b, parts),
        parsed_fold(b, parts.push(p)).len() == parsed_fold(b, parts).len(),
{
    assert(parts.push(p).drop_last() =~= parts);
    assert(parse_fragment(p) is None);
}


/// The reference lists parsed and merged in order, a later entry replacing
/// an earlier one with the same key.
pub open spec fn merged_lists(cs: Seq<Seq<char>>) -> BibView
    decreases cs.len(),
{
    if cs.len() == 0 {
        seq![]
    } else {
        add_entries(merged_lists(cs.drop_last()), bbl_entries(cs.last()))
    }
}

impl Bibliography {
    /// Parses the texts of several reference-list files and merges them in
    /// order; a later entry replaces an earlier one with the same key.
    pub fn parse_bibliography_files(contents: &Vec<String>) -> (r: Bibliography)
        ensures
            r@ == merged_lists(contents@.map_values(|c: String| c@)),
    {
        let ghost cs = contents@.map_values(|c: String| c@);
        let mut merged = Bibliography::new();
        let mut i: usize = 0;
        while i < contents.len()
            invariant
                i <= contents.len(),
                cs == contents@.map_values(|c: String| c@),
                merged@ == merged_lists(cs.subrange(0, i as int)),
            decreases contents.len() - i,
        {
            proof {
                assert(cs.subrange(0, i + 1).drop_last() =~= cs.subrange(0, i as int));
            }
            let parsed = Bibliography::parse_bbl(contents[i].as_str());
            merged.merge_from(&parsed);
            i = i + 1;
        }
        proof {
            assert(cs.subrange(0, i as int) =~= cs);
        }
        merged
    }
}

} // verus!
