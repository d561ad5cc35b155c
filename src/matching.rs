//! Scoring of the candidates that the bibliographic search index returns,
//! and the choice of the best one.
use vstd::prelude::*;
use crate::text::{chars_of, contains, find_from_exec, join, join_exec, lower_of, to_lower,
    tokens_exec, tokens_from, views, words, chars_eq};
use crate::entry::{BibEntry, EntryView, field};
use crate::bibliography::Bibliography;

verus! {

/// One candidate of the search index, as its record gives it.
#[derive(Debug)]
pub struct DblpHit {
    pub title: Option<String>,
    pub year: Option<String>,
    pub venue: Option<String>,
    pub url: Option<String>,
    pub volume: Option<String>,
    pub doi: Option<String>,
    /// The names of the authors, where the record lists them.
    pub authors: Option<Vec<String>>,
}

pub struct HitView {
    pub title: Option<Seq<char>>,
    pub year: Option<Seq<char>>,
    pub venue: Option<Seq<char>>,
    pub url: Option<Seq<char>>,
    pub volume: Option<Seq<char>>,
    pub doi: Option<Seq<char>>,
    pub authors: Option<Seq<Seq<char>>>,
}

pub open spec fn opt_view(o: Option<String>) -> Option<Seq<char>> {
    match o {
        Some(s) => Some(s@),
        None => None,
    }
}

impl View for DblpHit {
    type V = HitView;

    open spec fn view(&self) -> HitView {
        HitView {
            title: opt_view(self.title),
            year: opt_view(self.year),
            venue: opt_view(self.venue),
            url: opt_view(self.url),
            volume: opt_view(self.volume),
            doi: opt_view(self.doi),
            authors: match self.authors {
                Some(v) => Some(v@.map_values(|s: String| s@)),
                None => None,
            },
        }
    }
}

pub open spec fn hit_views(hits: Seq<DblpHit>) -> Seq<HitView> {
    hits.map_values(|h: DblpHit| h@)
}

/// `s` without braces.
pub open spec fn strip_braces(s: Seq<char>) -> Seq<char>
    decreases s.len(),
{
    if s.len() == 0 {
        s
    } else if s.last() == '{' || s.last() == '}' {
        strip_braces(s.drop_last())
    } else {
        strip_braces(s.drop_last()).push(s.last())
    }
}

/// How many of `ws` (counted with repetition) occur among `pool`.
pub open spec fn count_found(ws: Seq<Seq<char>>, pool: Seq<Seq<char>>) -> nat
    decreases ws.len(),
{
    if ws.len() == 0 {
        0
    } else {
        count_found(ws.drop_last(), pool) + if pool.contains(ws.last()) {
            1nat
        } else {
            0nat
        }
    }
}

/// Points for a candidate title equal to the entry's.
pub const EXACT_TITLE_POINTS: u64 = 3;
/// Points for a candidate title that holds the entry's, or is held by it.
pub const CONTAINED_TITLE_POINTS: u64 = 2;
/// Points for titles that share more than `SHARED_WORDS_ABOVE` words.
pub const SHARED_WORDS_POINTS: u64 = 1;
pub const SHARED_WORDS_ABOVE: u64 = 2;
/// Points for the same year.
pub const YEAR_POINTS: u64 = 1;
/// Points for at least `AUTHOR_TOKENS_MIN` author tokens in common.
pub const AUTHOR_POINTS: u64 = 2;
pub const AUTHOR_TOKENS_MIN: u64 = 5;
/// The least score at which a candidate is accepted.
pub const ACCEPT_SCORE: u64 = 2;

/// The title term: points for equal titles, else for one holding the other,
/// else for more than a few words of the entry's title in the candidate's.
pub open spec fn title_score(o: Seq<char>, h: Seq<char>) -> int {
    if o == h {
        EXACT_TITLE_POINTS as int
    } else if contains(o, h) || contains(h, o) {
        CONTAINED_TITLE_POINTS as int
    } else if count_found(words(o), words(h)) > SHARED_WORDS_ABOVE {
        SHARED_WORDS_POINTS as int
    } else {
        0
    }
}

/// The tokens of an author list, split at spaces and tildes.
pub open spec fn author_tokens(s: Seq<char>) -> Seq<Seq<char>> {
    tokens_from(s, 0, true)
}

pub open spec fn and_sep() -> Seq<char> {
    seq![' ', 'a', 'n', 'd', ' ']
}

/// The author term: points where enough tokens of the entry's author list
/// occur among the tokens of the candidate's authors.
pub open spec fn author_score(author: Seq<char>, names: Option<Seq<Seq<char>>>) -> int {
    match names {
        Some(ns) => if ns.len() > 0 && count_found(
            author_tokens(author),
            author_tokens(join(ns, and_sep())),
        ) >= AUTHOR_TOKENS_MIN {
            AUTHOR_POINTS as int
        } else {
            0
        },
        None => 0,
    }
}

/// The score of a complete candidate against an entry's title, year and author.
pub open spec fn hit_score(title: Seq<char>, year: Seq<char>, author: Seq<char>, h: HitView) -> int {
    (if h.year == Some(year) {
        YEAR_POINTS as int
    } else {
        0int
    }) + title_score(strip_braces(lower_of(title)), lower_of(h.title->0)) + author_score(
        author,
        h.authors,
    )
}

/// The best score among the candidates and the first candidate that has it;
/// (0, None) where none scores above 0.
pub open spec fn best(title: Seq<char>, year: Seq<char>, author: Seq<char>, hs: Seq<HitView>) -> (
    int,
    Option<int>,
)
    decreases hs.len(),
{
    if hs.len() == 0 {
        (0, None)
    } else {
        let (b, i) = best(title, year, author, hs.drop_last());
        let s = hit_score(title, year, author, hs.last());
        if s > b {
            (s, Some(hs.len() - 1))
        } else {
            (b, i)
        }
    }
}

/// Every candidate has a title and a year.
pub open spec fn all_complete(hs: Seq<HitView>) -> bool {
    forall|i: int| 0 <= i < hs.len() ==> (#[trigger] hs[i]).title is Some && hs[i].year is Some
}

/// The candidate chosen for an entry: the first of the best score, where
/// that score reaches `ACCEPT_SCORE`. There is none where the entry lacks a title, a
/// year or an author, or where a candidate lacks a title or a year.
pub open spec fn best_match(e: EntryView, hs: Seq<HitView>) -> Option<int> {
    match (field(e, "title"@), field(e, "year"@), field(e, "author"@)) {
        (Some(t), Some(y), Some(a)) => if all_complete(hs) {
            let (b, i) = best(t, y, a, hs);
            if b >= ACCEPT_SCORE {
                i
            } else {
                None
            }
        } else {
            None
        },
        _ => None,
    }
}

pub(crate) fn strip_braces_exec(s: &Vec<char>) -> (r: Vec<char>)
    ensures
        r@ == strip_braces(s@),
{
    let mut r: Vec<char> = Vec::new();
    let mut i: usize = 0;
    while i < s.len()
        invariant
            i <= s.len(),
            r@ == strip_braces(s@.subrange(0, i as int)),
        decreases s.len() - i,
    {
        proof {
            assert(s@.subrange(0, i + 1).drop_last() =~= s@.subrange(0, i as int));
        }
        if s[i] != '{' && s[i] != '}' {
            r.push(s[i]);
        }
        i = i + 1;
    }
    proof {
        assert(s@.subrange(0, i as int) =~= s@);
    }
    r
}

fn occurs_in(w: &Vec<char>, pool: &Vec<Vec<char>>) -> (r: bool)
    ensures
        r == views(pool@).contains(w@),
{
    let mut i: usize = 0;
    while i < pool.len()
        invariant
            i <= pool.len(),
            forall|j: int| 0 <= j < i ==> views(pool@)[j] != w@,
        decreases pool.len() - i,
    {
        if chars_eq(&pool[i], w) {
            proof {
                assert(views(pool@)[i as int] == w@);
            }
            return true;
        }
        i = i + 1;
    }
    false
}

fn count_found_exec(ws: &Vec<Vec<char>>, pool: &Vec<Vec<char>>) -> (r: usize)
    ensures
        r == count_found(views(ws@), views(pool@)),
{
    let ghost gws = views(ws@);
    let mut n: usize = 0;
    let mut i: usize = 0;
    while i < ws.len()
        invariant
            i <= ws.len(),
            gws == views(ws@),
            n == count_found(gws.subrange(0, i as int), views(pool@)),
            n <= i,
        decreases ws.len() - i,
    {
        proof {
            assert(gws.subrange(0, i + 1).drop_last() =~= gws.subrange(0, i as int));
        }
        if occurs_in(&ws[i], pool) {
            n = n + 1;
        }
        i = i + 1;
    }
    proof {
        assert(gws.subrange(0, i as int) =~= gws);
    }
    n
}

fn title_score_exec(o: &Vec<char>, h: &Vec<char>) -> (r: u64)
    ensures
        r == title_score(o@, h@),
{
    if chars_eq(o, h) {
        EXACT_TITLE_POINTS
    } else if find_from_exec(o, h, 0).is_some() || find_from_exec(h, o, 0).is_some() {
        CONTAINED_TITLE_POINTS
    } else if count_found_exec(&tokens_exec(o, false), &tokens_exec(h, false)) as u64
        > SHARED_WORDS_ABOVE {
        SHARED_WORDS_POINTS
    } else {
        0
    }
}

fn author_score_exec(author: &Vec<char>, names: &Option<Vec<String>>) -> (r: u64)
    ensures
        r == author_score(
            author@,
            match names {
                Some(v) => Some(v@.map_values(|s: String| s@)),
                None => None,
            },
        ),
{
    match names {
        Some(ns) => {
            if ns.len() == 0 {
                return 0;
            }
            let mut parts: Vec<Vec<char>> = Vec::new();
            let mut i: usize = 0;
            while i < ns.len()
                invariant
                    i <= ns.len(),
                    views(parts@) == ns@.map_values(|s: String| s@).subrange(0, i as int),
                decreases ns.len() - i,
            {
                let ghost bp = parts@;
                let c = chars_of(ns[i].as_str());
                parts.push(c);
                proof {
                    assert(views(parts@) =~= views(bp).push(c@));
                    assert(views(parts@) =~= ns@.map_values(|s: String| s@).subrange(0, i + 1));
                }
                i = i + 1;
            }
            proof {
                assert(ns@.map_values(|s: String| s@).subrange(0, i as int) =~= ns@.map_values(
                    |s: String| s@,
                ));
            }
            let sep = vec![' ', 'a', 'n', 'd', ' '];
            proof {
                assert(sep@ =~= and_sep());
            }
            let text = join_exec(&parts, &sep);
            if count_found_exec(&tokens_exec(author, true), &tokens_exec(&text, true)) as u64
                >= AUTHOR_TOKENS_MIN {
                AUTHOR_POINTS
            } else {
                0
            }
        },
        None => 0,
    }
}

fn hit_score_exec(title: &Vec<char>, year: &String, author: &Vec<char>, h: &DblpHit) -> (r: u64)
    requires
        h.title is Some,
    ensures
        r == hit_score(title@, year@, author@, h@),
{
    let y: u64 = match &h.year {
        Some(hy) => if *hy == *year {
            YEAR_POINTS
        } else {
            0
        },
        None => 0,
    };
    let o = strip_braces_exec(&to_lower(title));
    let ht = match &h.title {
        Some(t) => to_lower(&chars_of(t.as_str())),
        None => Vec::new(),
    };
    y + title_score_exec(&o, &ht) + author_score_exec(author, &h.authors)
}

impl Bibliography {
    /// The candidate chosen for `entry` among `hits`: the first one of the
    /// highest score, where that score reaches `ACCEPT_SCORE`.
    pub fn find_best_match_in_dblp<'a>(&self, hits: &'a Vec<DblpHit>, entry: &BibEntry) -> (r:
        Option<&'a DblpHit>)
        ensures
            match r {
                Some(h) => exists|i: int|
                    0 <= i < hits@.len() && best_match(entry@, hit_views(hits@)) == Some(i)
                        && h@ == hits@[i]@,
                None => best_match(entry@, hit_views(hits@)) is None,
            },
    {
        match best_match_index(hits, entry) {
            Some(i) => Some(&hits[i]),
            None => None,
        }
    }
}

/// The position of the candidate chosen for `entry` among `hits`.
pub fn best_match_index(hits: &Vec<DblpHit>, entry: &BibEntry) -> (r: Option<usize>)
    ensures
        match r {
            Some(i) => best_match(entry@, hit_views(hits@)) == Some(i as int) && i < hits@.len(),
            None => best_match(entry@, hit_views(hits@)) is None,
        },
{
    let ghost hs = hit_views(hits@);
    let title = match entry.get("title") {
        Some(t) => chars_of(t.as_str()),
        None => {
            return None;
        },
    };
    let year = match entry.get("year") {
        Some(y) => y,
        None => {
            return None;
        },
    };
    let author = match entry.get("author") {
        Some(a) => chars_of(a.as_str()),
        None => {
            return None;
        },
    };
    let mut k: usize = 0;
    while k < hits.len()
        invariant
            k <= hits.len(),
            hs == hit_views(hits@),
            forall|j: int| 0 <= j < k ==> (#[trigger] hs[j]).title is Some && hs[j].year is Some,
        decreases hits.len() - k,
    {
        if hits[k].title.is_none() || hits[k].year.is_none() {
            proof {
                assert(!((hs[k as int]).title is Some && hs[k as int].year is Some));
            }
            return None;
        }
        k = k + 1;
    }
    let ghost t = title@;
    let ghost a = author@;
    let mut best_score: u64 = 0;
    let mut best_i: Option<usize> = None;
    let mut i: usize = 0;
    while i < hits.len()
        invariant
            i <= hits.len(),
            hs == hit_views(hits@),
            all_complete(hs),
            title@ == t,
            author@ == a,
            best_score <= 6 * i,
            best(t, year@, a, hs.subrange(0, i as int)) == (
                best_score as int,
                match best_i {
                    Some(j) => Some(j as int),
                    None => None,
                },
            ),
            best_i matches Some(j) ==> j < i,
        decreases hits.len() - i,
    {
        proof {
            assert(hs.subrange(0, i + 1).drop_last() =~= hs.subrange(0, i as int));
            assert(hs[i as int].title is Some);
        }
        let s = hit_score_exec(&title, year, &author, &hits[i]);
        proof {
            assert(hs.subrange(0, i + 1).last() == hits@[i as int]@);
        }
        if s > best_score {
            best_score = s;
            best_i = Some(i);
        }
        i = i + 1;
    }
    proof {
        assert(hs.subrange(0, i as int) =~= hs);
    }
    if best_score >= ACCEPT_SCORE {
        best_i
    } else {
        None
    }
}


/// A candidate with the entry's title and year and five or more of the
/// entry's author tokens scores at least `ACCEPT_SCORE` (2), and is chosen.
pub proof fn lemma_strong_candidate_selected(e: EntryView, h: HitView)
    requires
        field(e, "title"@) is Some,
        field(e, "year"@) is Some,
        field(e, "author"@) is Some,
        h.title == field(e, "title"@),
        h.year == field(e, "year"@),
        h.authors matches Some(ns) && ns.len() > 0 && count_found(
            author_tokens(field(e, "author"@)->0),
            author_tokens(join(ns, and_sep())),
        ) >= 5,
    ensures
        hit_score(field(e, "title"@)->0, field(e, "year"@)->0, field(e, "author"@)->0, h)
            >= ACCEPT_SCORE,
        best_match(e, seq![h]) == Some(0int),
{
    let t = field(e, "title"@)->0;
    let y = field(e, "year"@)->0;
    let a = field(e, "author"@)->0;
    let hs = seq![h];
    assert(hs.drop_last() =~= Seq::<HitView>::empty());
    assert(title_score(strip_braces(lower_of(t)), lower_of(h.title->0)) >= 0);
    assert(author_score(a, h.authors) == AUTHOR_POINTS);
    assert(hit_score(t, y, a, h) >= 3);
    assert(hs.last() == h);
    assert(best(t, y, a, hs.drop_last()) == (0int, None::<int>));
    assert(best(t, y, a, hs) == (hit_score(t, y, a, h), Some(0int)));
    assert(all_complete(hs));
}

/// A candidate whose title, year and authors have nothing in common with
/// the entry's scores below `ACCEPT_SCORE` (2), and is rejected.
pub proof fn lemma_disjoint_candidate_rejected(e: EntryView, h: HitView)
    requires
        field(e, "title"@) is Some,
        field(e, "year"@) is Some,
        field(e, "author"@) is Some,
        h.title is Some,
        h.year is Some,
        h.year != field(e, "year"@),
        strip_braces(lower_of(field(e, "title"@)->0)) != lower_of(h.title->0),
        !contains(strip_braces(lower_of(field(e, "title"@)->0)), lower_of(h.title->0)),
        !contains(lower_of(h.title->0), strip_braces(lower_of(field(e, "title"@)->0))),
        count_found(
            words(strip_braces(lower_of(field(e, "title"@)->0))),
            words(lower_of(h.title->0)),
        ) == 0,
        h.authors matches Some(ns) ==> count_found(
            author_tokens(field(e, "author"@)->0),
            author_tokens(join(ns, and_sep())),
        ) == 0,
    ensures
        hit_score(field(e, "title"@)->0, field(e, "year"@)->0, field(e, "author"@)->0, h)
            < ACCEPT_SCORE,
        best_match(e, seq![h]) is None,
{
    let t = field(e, "title"@)->0;
    let y = field(e, "year"@)->0;
    let a = field(e, "author"@)->0;
    let hs = seq![h];
    assert(hs.drop_last() =~= Seq::<HitView>::empty());
    assert(author_score(a, h.authors) == 0);
    assert(title_score(strip_braces(lower_of(t)), lower_of(h.title->0)) == 0);
    assert(hit_score(t, y, a, h) == 0);
    assert(hs.last() == h);
    assert(best(t, y, a, hs.drop_last()) == (0int, None::<int>));
    assert(best(t, y, a, hs) == (0int, None::<int>));
    assert(all_complete(hs));
}

} // verus!
