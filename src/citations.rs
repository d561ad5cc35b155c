//! Citation commands (`\cite{a, b}`, `\citep`, `\citet`, `\citealp`,
//! `\citeauthor`) and their rewriting to normalized keys.
use vstd::prelude::*;
use crate::text::{chars_of, find_from, find_from_exec, join, join_exec, matches_at,
    matches_at_exec, split, split_exec, string_of, subvec, trim, trim_range, trim_start, views,
    append_chars, lemma_find_from_bounds};
use crate::entry::{StrMap, insert_sorted, lookup};
use crate::bibliography::{Bibliography, BibView};
use crate::keys::{normalized_key, key_of};

verus! {

/// The command name at `j + 1` followed by an opening brace, if `s[j]` is a
/// backslash: the position of that brace.
pub open spec fn command_open(s: Seq<char>, j: int) -> Option<int> {
    if !(0 <= j < s.len() && s[j] == '\\') {
        None
    } else if matches_at(s, seq!['c', 'i', 't', 'e', '{'], j + 1) {
        Some(j + 5)
    } else if matches_at(s, seq!['c', 'i', 't', 'e', 'p', '{'], j + 1) {
        Some(j + 6)
    } else if matches_at(s, seq!['c', 'i', 't', 'e', 't', '{'], j + 1) {
        Some(j + 6)
    } else if matches_at(s, seq!['c', 'i', 't', 'e', 'a', 'l', 'p', '{'], j + 1) {
        Some(j + 8)
    } else if matches_at(s, seq!['c', 'i', 't', 'e', 'a', 'u', 't', 'h', 'o', 'r', '{'], j + 1) {
        Some(j + 11)
    } else {
        None
    }
}

/// A citation command starting at `j`: the positions of its braces, around a
/// non-empty key list.
pub open spec fn cite_at(s: Seq<char>, j: int) -> Option<(int, int)> {
    match command_open(s, j) {
        Some(o) => match find_from(s, seq!['}'], o + 1) {
            Some(c) => if c > o + 1 {
                Some((o, c))
            } else {
                None
            },
            None => None,
        },
        None => None,
    }
}

/// The first citation command starting at or after `i`.
pub open spec fn next_cite(s: Seq<char>, i: int) -> Option<int>
    decreases s.len() - i,
{
    if i < 0 || i >= s.len() {
        None
    } else if cite_at(s, i) is Some {
        Some(i)
    } else {
        next_cite(s, i + 1)
    }
}

/// The leading whitespace of `p`.
pub open spec fn lead_ws(p: Seq<char>) -> Seq<char> {
    p.subrange(0, p.len() - trim_start(p).len())
}

/// The trailing whitespace of `p`.
pub open spec fn trail_ws(p: Seq<char>) -> Seq<char> {
    trim_start(p).subrange(trim(p).len() as int, trim_start(p).len() as int)
}

/// One key of a list, replaced by the normalized key of its entry if the
/// bibliography has it; whitespace around it stays.
pub open spec fn rewrite_piece(p: Seq<char>, bib: BibView) -> Seq<char> {
    match lookup(bib, trim(p)) {
        Some(e) => lead_ws(p) + normalized_key(e) + trail_ws(p),
        None => p,
    }
}

/// A comma-separated key list with each key rewritten.
pub open spec fn rewrite_list(list: Seq<char>, bib: BibView) -> Seq<char> {
    join(split(list, seq![',']).map_values(|p: Seq<char>| rewrite_piece(p, bib)), seq![','])
}

/// The keys of a list, trimmed.
pub open spec fn list_keys(list: Seq<char>) -> Seq<Seq<char>> {
    split(list, seq![',']).map_values(|p: Seq<char>| trim(p))
}

pub proof fn lemma_next_cite_bounds(s: Seq<char>, i: int)
    ensures
        next_cite(s, i) matches Some(j) ==> (i <= j && (cite_at(s, j) matches Some((o, c)) && j < o
            < c < s.len() && o + 1 < c)),
    decreases s.len() - i,
{
    if 0 <= i < s.len() {
        if cite_at(s, i) is Some {
            let o = command_open(s, i)->0;
            lemma_find_from_bounds(s, seq!['}'], o + 1);
        } else {
            lemma_next_cite_bounds(s, i + 1);
        }
    }
}

/// `s` from `i` on with the keys of each citation command rewritten.
pub open spec fn rewrite_from(s: Seq<char>, bib: BibView, i: int) -> Seq<char>
    decreases s.len() - i,
    via rewrite_from_decreases
{
    if i < 0 || i > s.len() {
        seq![]
    } else {
        match next_cite(s, i) {
            None => s.subrange(i, s.len() as int),
            Some(j) => match cite_at(s, j) {
                Some((o, c)) => s.subrange(i, o + 1) + rewrite_list(s.subrange(o + 1, c), bib)
                    + seq!['}'] + rewrite_from(s, bib, c + 1),
                None => seq![],
            },
        }
    }
}

#[via_fn]
proof fn rewrite_from_decreases(s: Seq<char>, bib: BibView, i: int) {
    lemma_next_cite_bounds(s, i);
}

/// The trimmed keys of the citation commands of `s` from `i` on, in order.
pub open spec fn cited_keys_from(s: Seq<char>, i: int) -> Seq<Seq<char>>
    decreases s.len() - i,
    via cited_keys_from_decreases
{
    if i < 0 || i > s.len() {
        seq![]
    } else {
        match next_cite(s, i) {
            None => seq![],
            Some(j) => match cite_at(s, j) {
                Some((o, c)) => list_keys(s.subrange(o + 1, c)) + cited_keys_from(s, c + 1),
                None => seq![],
            },
        }
    }
}

#[via_fn]
proof fn cited_keys_from_decreases(s: Seq<char>, i: int) {
    lemma_next_cite_bounds(s, i);
}

/// The text with every citation's keys rewritten.
pub open spec fn rewritten(s: Seq<char>, bib: BibView) -> Seq<char> {
    rewrite_from(s, bib, 0)
}

/// `m` with each of `keys` that the bibliography has bound to its normalized key.
pub open spec fn key_map_from(
    m: Seq<(Seq<char>, Seq<char>)>,
    keys: Seq<Seq<char>>,
    bib: BibView,
) -> Seq<(Seq<char>, Seq<char>)>
    decreases keys.len(),
{
    if keys.len() == 0 {
        m
    } else {
        let m2 = key_map_from(m, keys.drop_last(), bib);
        match lookup(bib, keys.last()) {
            Some(e) => insert_sorted(m2, keys.last(), normalized_key(e)),
            None => m2,
        }
    }
}

/// Each of `keys` that the bibliography has, bound to its normalized key.
pub open spec fn key_map_of(keys: Seq<Seq<char>>, bib: BibView) -> Seq<(Seq<char>, Seq<char>)> {
    key_map_from(seq![], keys, bib)
}

proof fn lemma_key_map_append(
    m: Seq<(Seq<char>, Seq<char>)>,
    a: Seq<Seq<char>>,
    b: Seq<Seq<char>>,
    bib: BibView,
)
    ensures
        key_map_from(m, a + b, bib) == key_map_from(key_map_from(m, a, bib), b, bib),
    decreases b.len(),
{
    if b.len() == 0 {
        assert(a + b =~= a);
    } else {
        assert((a + b).drop_last() =~= a + b.drop_last());
        lemma_key_map_append(m, a, b.drop_last(), bib);
    }
}

fn command_open_exec(s: &Vec<char>, j: usize) -> (r: Option<usize>)
    ensures
        match r {
            Some(o) => command_open(s@, j as int) == Some(o as int),
            None => command_open(s@, j as int) is None,
        },
{
    if j >= s.len() || s[j] != '\\' {
        return None;
    }
    let p1 = vec!['c', 'i', 't', 'e', '{'];
    let p2 = vec!['c', 'i', 't', 'e', 'p', '{'];
    let p3 = vec!['c', 'i', 't', 'e', 't', '{'];
    let p4 = vec!['c', 'i', 't', 'e', 'a', 'l', 'p', '{'];
    let p5 = vec!['c', 'i', 't', 'e', 'a', 'u', 't', 'h', 'o', 'r', '{'];
    proof {
        assert(p1@ =~= seq!['c', 'i', 't', 'e', '{']);
        assert(p2@ =~= seq!['c', 'i', 't', 'e', 'p', '{']);
        assert(p3@ =~= seq!['c', 'i', 't', 'e', 't', '{']);
        assert(p4@ =~= seq!['c', 'i', 't', 'e', 'a', 'l', 'p', '{']);
        assert(p5@ =~= seq!['c', 'i', 't', 'e', 'a', 'u', 't', 'h', 'o', 'r', '{']);
    }
    if matches_at_exec(s, &p1, j + 1) {
        Some(j + 5)
    } else if matches_at_exec(s, &p2, j + 1) {
        Some(j + 6)
    } else if matches_at_exec(s, &p3, j + 1) {
        Some(j + 6)
    } else if matches_at_exec(s, &p4, j + 1) {
        Some(j + 8)
    } else if matches_at_exec(s, &p5, j + 1) {
        Some(j + 11)
    } else {
        None
    }
}

pub fn cite_at_exec(s: &Vec<char>, j: usize) -> (r: Option<(usize, usize)>)
    ensures
        match r {
            Some((o, c)) => cite_at(s@, j as int) == Some((o as int, c as int)),
            None => cite_at(s@, j as int) is None,
        },
{
    match command_open_exec(s, j) {
        Some(o) => {
            let close = vec!['}'];
            proof {
                assert(close@ =~= seq!['}']);
            }
            if o >= s.len() {
                proof {
                    assert(find_from(s@, seq!['}'], o + 1) is None);
                }
                return None;
            }
            match find_from_exec(s, &close, o + 1) {
                Some(c) => if c > o + 1 {
                    Some((o, c))
                } else {
                    None
                },
                None => None,
            }
        },
        None => None,
    }
}

pub fn next_cite_exec(s: &Vec<char>, i: usize) -> (r: Option<(usize, usize, usize)>)
    ensures
        match r {
            Some((j, o, c)) => next_cite(s@, i as int) == Some(j as int) && cite_at(s@, j as int)
                == Some((o as int, c as int)),
            None => next_cite(s@, i as int) is None,
        },
{
    let mut j = i;
    while j < s.len()
        invariant
            i <= j,
            next_cite(s@, i as int) == next_cite(s@, j as int),
        decreases s.len() - j,
    {
        if let Some((o, c)) = cite_at_exec(s, j) {
            return Some((j, o, c));
        }
        j = j + 1;
    }
    None
}


fn rewrite_piece_exec(bib: &Bibliography, p: &Vec<char>, km: &mut StrMap) -> (r: Vec<char>)
    ensures
        r@ == rewrite_piece(p@, bib@),
        final(km)@ == key_map_from(old(km)@, seq![trim(p@)], bib@),
{
    let ghost km0 = km@;
    let (a, b) = trim_range(p, 0, p.len());
    proof {
        assert(p@.subrange(0, p.len() as int) =~= p@);
        assert(seq![trim(p@)].drop_last() =~= Seq::<Seq<char>>::empty());
        assert(key_map_from(km0, seq![trim(p@)].drop_last(), bib@) == km0);
    }
    let k = string_of(&subvec(p, a, b));
    match bib.get(k.as_str()) {
        Some(e) => {
            let nk = key_of(e);
            let mut out = subvec(p, 0, a);
            append_chars(&mut out, &chars_of(nk.as_str()));
            append_chars(&mut out, &subvec(p, b, p.len()));
            proof {
                assert(lead_ws(p@) =~= p@.subrange(0, a as int));
                assert(trail_ws(p@) =~= p@.subrange(b as int, p.len() as int));
            }
            km.set(k, nk);
            out
        },
        None => subvec(p, 0, p.len()),
    }
}

fn rewrite_list_exec(bib: &Bibliography, list: &Vec<char>, km: &mut StrMap) -> (r: Vec<char>)
    ensures
        r@ == rewrite_list(list@, bib@),
        final(km)@ == key_map_from(old(km)@, list_keys(list@), bib@),
{
    let comma = vec![','];
    proof {
        assert(comma@ =~= seq![',']);
    }
    let pieces = split_exec(list, &comma);
    let ghost gp = split(list@, seq![',']);
    let ghost km0 = km@;
    let mut out: Vec<Vec<char>> = Vec::new();
    let mut i: usize = 0;
    while i < pieces.len()
        invariant
            i <= pieces.len(),
            views(pieces@) == gp,
            gp == split(list@, seq![',']),
            views(out@) == gp.subrange(0, i as int).map_values(
                |p: Seq<char>| rewrite_piece(p, bib@),
            ),
            km@ == key_map_from(km0, gp.subrange(0, i as int).map_values(|p: Seq<char>| trim(p)), bib@),
        decreases pieces.len() - i,
    {
        let ghost km1 = km@;
        let w = rewrite_piece_exec(bib, &pieces[i], km);
        let ghost before_push = out@;
        out.push(w);
        proof {
            assert(pieces@[i as int]@ == gp[i as int]);
            assert(views(out@) =~= views(before_push).push(w@));
            assert(views(out@) =~= gp.subrange(0, i + 1).map_values(
                |p: Seq<char>| rewrite_piece(p, bib@),
            ));
            let ks = gp.subrange(0, i as int).map_values(|p: Seq<char>| trim(p));
            assert(gp.subrange(0, i + 1).map_values(|p: Seq<char>| trim(p)) =~= ks + seq![
                trim(gp[i as int]),
            ]);
            lemma_key_map_append(km0, ks, seq![trim(gp[i as int])], bib@);
        }
        i = i + 1;
    }
    proof {
        assert(gp.subrange(0, i as int) =~= gp);
    }
    join_exec(&out, &comma)
}

impl Bibliography {
    /// Rewrites every citation command of `content`: each cited key that this
    /// bibliography has becomes the normalized key of its entry; other keys
    /// stay as they are. Also returns each resolved key with its normalized key.
    pub fn normalize_citations(&self, content: &str) -> (r: (String, StrMap))
        ensures
            r.0@ == rewritten(content@, self@),
            r.1@ == key_map_of(cited_keys_from(content@, 0), self@),
    {
        let s = chars_of(content);
        let mut out: Vec<char> = Vec::new();
        let mut km = StrMap::new();
        let mut i: usize = 0;
        let ghost done: Seq<Seq<char>> = seq![];
        proof {
            assert(km@ =~= key_map_from(seq![], done, self@));
        }
        loop
            invariant
                s@ == content@,
                i <= s.len(),
                out@ + rewrite_from(s@, self@, i as int) == rewrite_from(s@, self@, 0),
                done + cited_keys_from(s@, i as int) == cited_keys_from(s@, 0),
                km@ == key_map_from(seq![], done, self@),
            decreases s.len() - i,
        {
            proof {
                lemma_next_cite_bounds(s@, i as int);
            }
            match next_cite_exec(&s, i) {
                None => {
                    let rest = subvec(&s, i, s.len());
                    append_chars(&mut out, &rest);
                    proof {
                        assert(rewrite_from(s@, self@, i as int) == s@.subrange(
                            i as int,
                            s.len() as int,
                        ));
                        assert(out@ == rewrite_from(s@, self@, 0));
                        assert(cited_keys_from(s@, i as int) =~= seq![]);
                        assert(done =~= cited_keys_from(s@, 0));
                    }
                    return (string_of(&out), km);
                },
                Some((j, o, c)) => {
                    let list = subvec(&s, o + 1, c);
                    let ghost km1 = km@;
                    let rw = rewrite_list_exec(self, &list, &mut km);
                    let ghost old_out = out@;
                    append_chars(&mut out, &subvec(&s, i, o + 1));
                    append_chars(&mut out, &rw);
                    out.push('}');
                    proof {
                        let tail = rewrite_from(s@, self@, c + 1);
                        assert(rewrite_from(s@, self@, i as int) == s@.subrange(i as int, o + 1)
                            + rewrite_list(list@, self@) + seq!['}'] + tail);
                        assert(out@ + tail =~= old_out + rewrite_from(s@, self@, i as int));
                        lemma_key_map_append(seq![], done, list_keys(list@), self@);
                        assert(cited_keys_from(s@, i as int) == list_keys(list@)
                            + cited_keys_from(s@, c + 1));
                        assert(done + list_keys(list@) + cited_keys_from(s@, c + 1)
                            =~= done + cited_keys_from(s@, i as int));
                        done = done + list_keys(list@);
                    }
                    i = c + 1;
                },
            }
        }
    }
}


/// The names of the citation commands.
pub open spec fn cite_command(name: Seq<char>) -> bool {
    name == seq!['c', 'i', 't', 'e'] || name == seq!['c', 'i', 't', 'e', 'p'] || name == seq![
        'c',
        'i',
        't',
        'e',
        't',
    ] || name == seq!['c', 'i', 't', 'e', 'a', 'l', 'p'] || name == seq![
        'c',
        'i',
        't',
        'e',
        'a',
        'u',
        't',
        'h',
        'o',
        'r',
    ]
}

/// The citation `\name{k}`.
pub open spec fn cite_of(name: Seq<char>, k: Seq<char>) -> Seq<char> {
    seq!['\\'] + name + seq!['{'] + k + seq!['}']
}

/// The command of a citation is recognised, whichever of the names it has.
proof fn lemma_command_open(name: Seq<char>, k: Seq<char>)
    requires
        cite_command(name),
    ensures
        command_open(cite_of(name, k), 0) == Some(name.len() as int + 1),
{
    let s = cite_of(name, k);
    let n = name.len() as int;
    assert(s[0] == '\\');
    assert forall|i: int| 0 <= i < n implies s[1 + i] == name[i] by {}
    assert(s[1 + n] == '{');
    let p1 = seq!['c', 'i', 't', 'e', '{'];
    let p2 = seq!['c', 'i', 't', 'e', 'p', '{'];
    let p3 = seq!['c', 'i', 't', 'e', 't', '{'];
    let p4 = seq!['c', 'i', 't', 'e', 'a', 'l', 'p', '{'];
    let p5 = seq!['c', 'i', 't', 'e', 'a', 'u', 't', 'h', 'o', 'r', '{'];
    if n == 4 {
        assert(s.subrange(1, 6) =~= p1);
    } else {
        assert(s.subrange(1, 6)[4] != p1[4]);
        if name == seq!['c', 'i', 't', 'e', 'p'] {
            assert(s.subrange(1, 7) =~= p2);
        } else {
            assert(s.subrange(1, 7)[4] != p2[4]);
            if name == seq!['c', 'i', 't', 'e', 't'] {
                assert(s.subrange(1, 7) =~= p3);
            } else {
                assert(s.subrange(1, 7)[4] != p3[4]);
                if name == seq!['c', 'i', 't', 'e', 'a', 'l', 'p'] {
                    assert(s.subrange(1, 9) =~= p4);
                } else {
                    assert(s.subrange(1, 9)[5] != p4[5]);
                    assert(s.subrange(1, 12) =~= p5);
                }
            }
        }
    }
}

proof fn lemma_find_first(s: Seq<char>, p: Seq<char>, i: int, j: int)
    requires
        0 <= i <= j,
        matches_at(s, p, j),
        forall|m: int| i <= m < j ==> !matches_at(s, p, m),
    ensures
        find_from(s, p, i) == Some(j),
    decreases j - i,
{
    if i < j {
        lemma_find_first(s, p, i + 1, j);
    }
}

proof fn lemma_find_none(s: Seq<char>, p: Seq<char>, i: int)
    requires
        0 <= i,
        forall|m: int| i <= m ==> !matches_at(s, p, m),
    ensures
        find_from(s, p, i) is None,
    decreases s.len() + 1 - i,
{
    if i + p.len() <= s.len() {
        lemma_find_none(s, p, i + 1);
    }
}

/// A citation of a key present in the bibliography is rewritten to the
/// entry's normalized key; a citation of an absent key is left unchanged.
/// The command is any of the citation commands; the key has no comma or
/// closing brace and no whitespace around it.
pub proof fn lemma_cite_round_trip(name: Seq<char>, k: Seq<char>, bib: BibView)
    requires
        cite_command(name),
        k.len() > 0,
        forall|i: int| 0 <= i < k.len() ==> #[trigger] k[i] != '}' && k[i] != ',',
        !crate::text::is_ws(k[0]),
        !crate::text::is_ws(k.last()),
    ensures
        rewritten(cite_of(name, k), bib) == match lookup(bib, k) {
            Some(e) => cite_of(name, normalized_key(e)),
            None => cite_of(name, k),
        },
{
    let s = cite_of(name, k);
    let m = name.len() as int;
    let n = k.len() as int;
    let o = m + 1;
    assert(s.len() == m + n + 3);
    lemma_command_open(name, k);
    assert forall|j: int| o + 1 <= j < o + 1 + n implies !matches_at(s, seq!['}'], j) by {
        assert(s[j] == k[j - o - 1]);
        assert(s.subrange(j, j + 1)[0] == s[j]);
    }
    assert(s.subrange(o + 1 + n, o + 2 + n) =~= seq!['}']);
    lemma_find_first(s, seq!['}'], o + 1, o + 1 + n);
    assert(cite_at(s, 0) == Some((o, o + 1 + n)));
    assert(next_cite(s, 0) == Some(0int));
    assert(next_cite(s, o + 2 + n) is None);
    assert(rewrite_from(s, bib, o + 2 + n) =~= seq![]);
    assert(s.subrange(o + 1, o + 1 + n) =~= k);
    assert forall|j: int| 0 <= j implies !matches_at(k, seq![','], j) by {
        if j + 1 <= k.len() {
            assert(k.subrange(j, j + 1)[0] == k[j]);
        }
    }
    lemma_find_none(k, seq![','], 0);
    assert(k.subrange(0, k.len() as int) =~= k);
    assert(split(k, seq![',']) =~= seq![k]);
    assert(trim_start(k) == k);
    assert(crate::text::trim_end(k) == k);
    assert(trim(k) == k);
    assert(lead_ws(k) =~= seq![]);
    assert(trail_ws(k) =~= seq![]);
    let pieces = split(k, seq![',']).map_values(|p: Seq<char>| rewrite_piece(p, bib));
    assert(pieces =~= seq![rewrite_piece(k, bib)]);
    assert(rewrite_list(k, bib) == rewrite_piece(k, bib));
    assert(s.subrange(0, o + 1) =~= seq!['\\'] + name + seq!['{']);
    match lookup(bib, k) {
        Some(e) => {
            assert(rewrite_piece(k, bib) =~= normalized_key(e));
            assert(rewritten(s, bib) =~= cite_of(name, normalized_key(e)));
        },
        None => {
            assert(rewritten(s, bib) =~= cite_of(name, k));
        },
    }
}

} // verus!
