//! Content-derived citation keys: `surname[_word1][_word2][_word3][_year]`.
use vstd::prelude::*;
use crate::text::{alphanumeric, chars_of, contains, find_from, find_from_exec, is_alphanumeric,
    is_whitespace, is_ws, join, join_exec, lemma_find_from_bounds, lower_of, split, split_exec,
    string_of, subvec, to_lower, tokens_exec, trim, trim_vec, views, words};
use crate::entry::{BibEntry, EntryView, field};
use crate::bibliography::Bibliography;

verus! {

/// Every character that is neither alphanumeric nor whitespace made a space.
pub open spec fn blank_symbols(s: Seq<char>) -> Seq<char> {
    s.map_values(|c: char| if alphanumeric(c) || is_ws(c) { c } else { ' ' })
}

/// The words of the text without punctuation, joined by underscores and lowercased.
pub open spec fn clean(s: Seq<char>) -> Seq<char> {
    lower_of(join(words(blank_symbols(s)), seq!['_']))
}

/// The part of `s` before the first occurrence of `p`, or all of `s`.
pub open spec fn before(s: Seq<char>, p: Seq<char>) -> Seq<char> {
    match find_from(s, p, 0) {
        Some(j) => s.subrange(0, j),
        None => s,
    }
}

pub open spec fn unknown() -> Seq<char> {
    seq!['u', 'n', 'k', 'n', 'o', 'w', 'n']
}

/// The first name of an author list: before the first comma, else before the
/// first " and ".
pub open spec fn first_author(a: Seq<char>) -> Seq<char> {
    if contains(a, seq![',']) {
        before(a, seq![','])
    } else if contains(a, seq![' ', 'a', 'n', 'd', ' ']) {
        before(a, seq![' ', 'a', 'n', 'd', ' '])
    } else {
        a
    }
}

/// The surname that leads a key: the last underscore-delimited token of the
/// cleaned first author, with "et al" cut off; `unknown` where that is empty.
pub open spec fn surname(a: Seq<char>) -> Seq<char> {
    let c = clean(trim(before(first_author(a), seq!['e', 't', ' ', 'a', 'l'])));
    let last = split(c, seq!['_']).last();
    if last.len() == 0 {
        unknown()
    } else {
        last
    }
}

/// The words longer than three characters, in order.
pub open spec fn long_words(ws: Seq<Seq<char>>) -> Seq<Seq<char>>
    decreases ws.len(),
{
    if ws.len() == 0 {
        seq![]
    } else if ws.last().len() > 3 {
        long_words(ws.drop_last()).push(ws.last())
    } else {
        long_words(ws.drop_last())
    }
}

/// At most the first three long words of the cleaned title.
pub open spec fn title_words(t: Seq<char>) -> Seq<Seq<char>> {
    let lw = long_words(split(clean(t), seq!['_']));
    if lw.len() > 3 {
        lw.subrange(0, 3)
    } else {
        lw
    }
}

/// The parts of an entry's key: surname, title words, and the cleaned year if
/// it is not empty.
pub open spec fn key_parts(e: EntryView) -> Seq<Seq<char>> {
    let a = match field(e, "author"@) {
        Some(x) => surname(x),
        None => unknown(),
    };
    let t = match field(e, "title"@) {
        Some(x) => title_words(x),
        None => seq![],
    };
    let y = match field(e, "year"@) {
        Some(x) => clean(x),
        None => seq![],
    };
    if y.len() == 0 {
        seq![a] + t
    } else {
        (seq![a] + t).push(y)
    }
}

/// The normalized citation key of an entry.
pub open spec fn normalized_key(e: EntryView) -> Seq<char> {
    join(key_parts(e), seq!['_'])
}

pub fn clean_chars(s: &Vec<char>) -> (r: Vec<char>)
    ensures
        r@ == clean(s@),
{
    let mut blanked: Vec<char> = Vec::new();
    let mut i: usize = 0;
    while i < s.len()
        invariant
            i <= s.len(),
            blanked@ == blank_symbols(s@.subrange(0, i as int)),
        decreases s.len() - i,
    {
        let c = s[i];
        if is_alphanumeric(c) || is_whitespace(c) {
            blanked.push(c);
        } else {
            blanked.push(' ');
        }
        proof {
            assert(blanked@ =~= blank_symbols(s@.subrange(0, i + 1)));
        }
        i = i + 1;
    }
    proof {
        assert(s@.subrange(0, i as int) =~= s@);
    }
    let ws = tokens_exec(&blanked, false);
    let underscore = vec!['_'];
    proof {
        assert(underscore@ =~= seq!['_']);
    }
    let joined = join_exec(&ws, &underscore);
    to_lower(&joined)
}

/// The text without punctuation: words joined by underscores, lowercased.
pub fn clean_text(text: &str) -> (r: String)
    ensures
        r@ == clean(text@),
{
    string_of(&clean_chars(&chars_of(text)))
}

pub fn before_exec(s: &Vec<char>, p: &Vec<char>) -> (r: Vec<char>)
    ensures
        r@ == before(s@, p@),
{
    match find_from_exec(s, p, 0) {
        Some(j) => {
            proof {
                lemma_find_from_bounds(s@, p@, 0);
            }
            subvec(s, 0, j)
        },
        None => subvec(s, 0, s.len()),
    }
}

proof fn lemma_split_nonempty(s: Seq<char>, p: Seq<char>)
    requires
        p.len() > 0,
    ensures
        split(s, p).len() >= 1,
{
    lemma_find_from_bounds(s, p, 0);
}

fn surname_exec(a: &Vec<char>) -> (r: Vec<char>)
    ensures
        r@ == surname(a@),
{
    let comma = vec![','];
    let and = vec![' ', 'a', 'n', 'd', ' '];
    let etal = vec!['e', 't', ' ', 'a', 'l'];
    let underscore = vec!['_'];
    proof {
        assert(comma@ =~= seq![',']);
        assert(and@ =~= seq![' ', 'a', 'n', 'd', ' ']);
        assert(etal@ =~= seq!['e', 't', ' ', 'a', 'l']);
        assert(underscore@ =~= seq!['_']);
    }
    let first = if find_from_exec(a, &comma, 0).is_some() {
        before_exec(a, &comma)
    } else if find_from_exec(a, &and, 0).is_some() {
        before_exec(a, &and)
    } else {
        subvec(a, 0, a.len())
    };
    proof {
        assert(a@.subrange(0, a.len() as int) =~= a@);
    }
    let cut = before_exec(&first, &etal);
    let c = clean_chars(&trim_vec(&cut));
    let parts = split_exec(&c, &underscore);
    proof {
        lemma_split_nonempty(c@, seq!['_']);
    }
    let last = subvec(&parts[parts.len() - 1], 0, parts[parts.len() - 1].len());
    proof {
        assert(last@ =~= split(c@, seq!['_']).last());
    }
    if last.len() == 0 {
        let r = vec!['u', 'n', 'k', 'n', 'o', 'w', 'n'];
        proof {
            assert(r@ =~= unknown());
        }
        r
    } else {
        last
    }
}

fn title_words_exec(t: &Vec<char>) -> (r: Vec<Vec<char>>)
    ensures
        views(r@) == title_words(t@),
{
    let underscore = vec!['_'];
    proof {
        assert(underscore@ =~= seq!['_']);
    }
    let ws = split_exec(&clean_chars(t), &underscore);
    let ghost gws = views(ws@);
    let mut long: Vec<Vec<char>> = Vec::new();
    let mut i: usize = 0;
    while i < ws.len()
        invariant
            i <= ws.len(),
            gws == views(ws@),
            views(long@) == long_words(gws.subrange(0, i as int)),
        decreases ws.len() - i,
    {
        proof {
            assert(gws.subrange(0, i + 1).drop_last() =~= gws.subrange(0, i as int));
        }
        if ws[i].len() > 3 {
            let w = subvec(&ws[i], 0, ws[i].len());
            let ghost before_push = long@;
            long.push(w);
            proof {
                assert(w@ =~= gws[i as int]);
                assert(views(long@) =~= views(before_push).push(w@));
            }
        }
        i = i + 1;
    }
    proof {
        assert(gws.subrange(0, i as int) =~= gws);
    }
    if long.len() > 3 {
        long.truncate(3);
        proof {
            assert(views(long@) =~= long_words(gws).subrange(0, 3));
        }
    }
    long
}

proof fn lemma_join_nonempty(ps: Seq<Seq<char>>, sep: Seq<char>)
    requires
        ps.len() >= 1,
    ensures
        join(ps, sep).len() >= ps[0].len(),
    decreases ps.len(),
{
    if ps.len() > 1 {
        lemma_join_nonempty(ps.drop_last(), sep);
    }
}

impl Bibliography {
    /// The normalized citation key of `entry`:
    /// `surname[_word1][_word2][_word3][_year]`.
    pub fn normalize_citation_key(&self, entry: &BibEntry) -> (r: String)
        ensures
            r@ == normalized_key(entry@),
            r@.len() > 0,
    {
        key_of(entry)
    }
}

/// The normalized citation key of `entry`.
pub fn key_of(entry: &BibEntry) -> (r: String)
    ensures
        r@ == normalized_key(entry@),
        r@.len() > 0,
{
    let mut parts: Vec<Vec<char>> = Vec::new();
    let a = match entry.get("author") {
        Some(x) => surname_exec(&chars_of(x.as_str())),
        None => {
            let r = vec!['u', 'n', 'k', 'n', 'o', 'w', 'n'];
            proof {
                assert(r@ =~= unknown());
            }
            r
        },
    };
    parts.push(a);
    let ghost head = views(parts@);
    let t = match entry.get("title") {
        Some(x) => title_words_exec(&chars_of(x.as_str())),
        None => Vec::new(),
    };
    proof {
        assert(head =~= seq![a@]);
    }
    let mut i: usize = 0;
    while i < t.len()
        invariant
            i <= t.len(),
            views(parts@) == head + views(t@).subrange(0, i as int),
        decreases t.len() - i,
    {
        let w = subvec(&t[i], 0, t[i].len());
        let ghost before_push = parts@;
        parts.push(w);
        proof {
            assert(w@ =~= t@[i as int]@);
            assert(views(parts@) =~= views(before_push).push(w@));
            assert(views(parts@) =~= head + views(t@).subrange(0, i + 1));
        }
        i = i + 1;
    }
    proof {
        assert(views(t@).subrange(0, i as int) =~= views(t@));
    }
    if let Some(y) = entry.get("year") {
        let cy = clean_chars(&chars_of(y.as_str()));
        if cy.len() > 0 {
            let ghost before_push = parts@;
            parts.push(cy);
            proof {
                assert(views(parts@) =~= views(before_push).push(cy@));
            }
        }
    }
    proof {
        assert(views(parts@) =~= key_parts(entry@));
        lemma_join_nonempty(views(parts@), seq!['_']);
    }
    let underscore = vec!['_'];
    proof {
        assert(underscore@ =~= seq!['_']);
    }
    let joined = join_exec(&parts, &underscore);
    string_of(&joined)
}


/// Every entry, even one without fields, has a non-empty normalized key.
pub proof fn lemma_key_total(e: EntryView)
    ensures
        normalized_key(e).len() > 0,
{
    lemma_join_nonempty(key_parts(e), seq!['_']);
}

/// The normalized key depends on the author, title and year alone: two
/// entries that agree on them, such as an entry and a copy of it under its
/// normalized key, get the same key.
pub proof fn lemma_key_depends_on_author_title_year(e1: EntryView, e2: EntryView)
    requires
        field(e1, "author"@) == field(e2, "author"@),
        field(e1, "title"@) == field(e2, "title"@),
        field(e1, "year"@) == field(e2, "year"@),
    ensures
        normalized_key(e1) == normalized_key(e2),
{
}

} // verus!
