//! The decisions of the verification of an entry against the archive's own
//! record (source A) and the bibliographic search index (source B): what to
//! ask, what an answer means, which candidate wins, and how it is merged.
use vstd::prelude::*;
use crate::text::{chars_of, find_from_exec, is_whitespace, join, join_exec, matches_at,
    matches_at_exec, numeric, is_numeric, skip_sep, string_of, subvec, tokens_exec, trim_start,
    views, words, contains};
use crate::entry::{BibEntry, BibEntryBuilder, EntryView, field, with_field, set_fields, sorted_keys};
use crate::fieldmap::{fields_map, pairs_map, lemma_set_fields, lemma_fields_map_insert,
    lemma_fields_map_prefix};
use crate::matching::{DblpHit, HitView, best_match, best_match_index, hit_views};
use crate::bibliography::Bibliography;
use crate::bbl::is_digit;

verus! {

/// What bibparser makes of a text: the type, the id and the fields of its
/// first complete entry.
pub uninterp spec fn bibtex_record(text: Seq<char>) -> Option<
    (Seq<char>, Seq<char>, Map<Seq<char>, Seq<char>>),
>;

pub open spec fn pair_views(ps: Seq<(String, String)>) -> Seq<(Seq<char>, Seq<char>)> {
    ps.map_values(|p: (String, String)| (p.0@, p.1@))
}

/// Relies on bibparser's `Parser::from_string` and the first item of
/// `Parser::iter`: the first complete entry of the text, whose id is not
/// empty (the parser keeps no entry without one), with its fields.
#[verifier::external_body]
fn first_bibtex_record(text: &str) -> (r: Option<(String, String, Vec<(String, String)>)>)
    ensures
        match r {
            Some((kind, id, fs)) => bibtex_record(text@) == Some(
                (kind@, id@, pairs_map(pair_views(fs@))),
            ) && id@.len() > 0,
            None => bibtex_record(text@) is None,
        },
{
    let mut parser = bibparser::Parser::from_string(text.to_string()).ok()?;
    match parser.iter().next() {
        Some(Ok(e)) => Some((e.kind, e.id, e.fields.into_iter().collect())),
        _ => None,
    }
}

/// A text that may hold a record: it starts, after whitespace, with `@`, and
/// it has an opening brace.
pub open spec fn bibtex_shape(s: Seq<char>) -> bool {
    trim_start(s).len() > 0 && trim_start(s)[0] == '@' && contains(s, seq!['{'])
}

/// The fields of a record text, where it holds one.
pub open spec fn record_fields(s: Seq<char>) -> Option<(Seq<char>, Seq<char>, Map<Seq<char>, Seq<char>>)> {
    if bibtex_shape(s) {
        bibtex_record(s)
    } else {
        None
    }
}

impl Bibliography {
    /// Parses a BibTeX record into an entry: the first entry of the text,
    /// keyed by its id.
    pub fn parse_bibtex_entry(&self, bibtex: &str) -> (r: Option<BibEntry>)
        ensures
            match r {
                Some(e) => record_fields(bibtex@) matches Some((kind, id, m)) && e@.key == id
                    && e@.entry_type == kind && fields_map(e@.fields) == m && sorted_keys(
                    e@.fields,
                ) && e@.key.len() > 0,
                None => record_fields(bibtex@) is None,
            },
    {
        parse_record(bibtex)
    }
}

fn parse_record(bibtex: &str) -> (r: Option<BibEntry>)
    ensures
        match r {
            Some(e) => record_fields(bibtex@) matches Some((kind, id, m)) && e@.key == id
                && e@.entry_type == kind && fields_map(e@.fields) == m && sorted_keys(e@.fields)
                && e@.key.len() > 0,
            None => record_fields(bibtex@) is None,
        },
{
    let s = chars_of(bibtex);
    let mut p: usize = 0;
    proof {
        assert(s@.subrange(0, s.len() as int) =~= s@);
    }
    while p < s.len() && is_whitespace(s[p])
        invariant
            p <= s.len(),
            trim_start(s@) == trim_start(s@.subrange(p as int, s.len() as int)),
        decreases s.len() - p,
    {
        proof {
            assert(s@.subrange(p as int, s.len() as int).drop_first() =~= s@.subrange(
                p + 1,
                s.len() as int,
            ));
        }
        p = p + 1;
    }
    proof {
        if p == 0 {
            assert(s@.subrange(0, s.len() as int) =~= s@);
        }
    }
    let open = vec!['{'];
    proof {
        assert(open@ =~= seq!['{']);
        assert(s@.subrange(0, s.len() as int) =~= s@);
    }
    if p >= s.len() || s[p] != '@' || find_from_exec(&s, &open, 0).is_none() {
        return None;
    }
    let (kind, id, fs) = match first_bibtex_record(bibtex) {
        Some(found) => found,
        None => {
            return None;
        },
    };
    let b = BibEntryBuilder::new(id.as_str(), kind.as_str());
    let e = b.fields(fs).build();
    proof {
        lemma_set_fields(EntryView { key: id@, entry_type: kind@, fields: seq![] }, pair_views(fs@));
        assert(fields_map(seq![]).union_prefer_right(pairs_map(pair_views(fs@))) =~= pairs_map(
            pair_views(fs@),
        ));
    }
    Some(e)
}

/// Digits from position `i` on: the end of the run.
pub open spec fn digits_end(s: Seq<char>, i: int) -> int
    decreases s.len() - i,
{
    if 0 <= i < s.len() && is_digit(s[i]) {
        digits_end(s, i + 1)
    } else {
        i
    }
}

/// An archive identifier after `arXiv` at `j`: an optional colon,
/// whitespace, then digits, a period and digits.
pub open spec fn arxiv_id_at(s: Seq<char>, j: int) -> Option<Seq<char>> {
    if matches_at(s, "arXiv"@, j) {
        let a = if j + 5 < s.len() && s[j + 5] == ':' {
            j + 6
        } else {
            j + 5
        };
        let p = skip_sep(s, a, false);
        let d = digits_end(s, p);
        if d > p && d < s.len() && s[d] == '.' && digits_end(s, d + 1) > d + 1 {
            Some(s.subrange(p, digits_end(s, d + 1)))
        } else {
            None
        }
    } else {
        None
    }
}

/// The first archive identifier of the text from `j` on.
pub open spec fn arxiv_id_from(s: Seq<char>, j: int) -> Option<Seq<char>>
    decreases s.len() - j,
{
    if j < 0 || j >= s.len() {
        None
    } else {
        match arxiv_id_at(s, j) {
            Some(x) => Some(x),
            None => arxiv_id_from(s, j + 1),
        }
    }
}

/// A key that is itself an identifier: four digits, a period, digits.
pub open spec fn arxiv_key(k: Seq<char>) -> bool {
    k.len() > 5 && all_digits_in(k.subrange(0, 4)) && k[4] == '.' && all_digits_in(
        k.subrange(5, k.len() as int),
    )
}

pub open spec fn all_digits_in(s: Seq<char>) -> bool {
    forall|i: int| 0 <= i < s.len() ==> is_digit(#[trigger] s[i])
}

pub open spec fn id_in_field(e: EntryView, name: Seq<char>) -> Option<Seq<char>> {
    match field(e, name) {
        Some(v) => arxiv_id_from(v, 0),
        None => None,
    }
}

/// The archive identifier of an entry: from its title, journal, note or raw
/// text, in that order, else its key where the key is one.
pub open spec fn arxiv_id_of(e: EntryView) -> Option<Seq<char>> {
    match id_in_field(e, "title"@) {
        Some(x) => Some(x),
        None => match id_in_field(e, "journal"@) {
            Some(x) => Some(x),
            None => match id_in_field(e, "note"@) {
                Some(x) => Some(x),
                None => match id_in_field(e, "raw"@) {
                    Some(x) => Some(x),
                    None => if arxiv_key(e.key) {
                        Some(e.key)
                    } else {
                        None
                    },
                },
            },
        },
    }
}

fn digits_end_exec(s: &Vec<char>, i: usize) -> (r: usize)
    requires
        i <= s.len(),
    ensures
        r == digits_end(s@, i as int),
        i <= r <= s.len(),
{
    let mut k = i;
    while k < s.len() && '0' <= s[k] && s[k] <= '9'
        invariant
            i <= k <= s.len(),
            digits_end(s@, i as int) == digits_end(s@, k as int),
        decreases s.len() - k,
    {
        k = k + 1;
    }
    k
}

fn arxiv_id_from_exec(s: &Vec<char>) -> (r: Option<Vec<char>>)
    ensures
        match r {
            Some(x) => arxiv_id_from(s@, 0) == Some(x@),
            None => arxiv_id_from(s@, 0) is None,
        },
{
    let marker = chars_of("arXiv");
    proof {
        reveal_strlit("arXiv");
    }
    let mut j: usize = 0;
    while j < s.len()
        invariant
            j <= s.len(),
            marker@ == "arXiv"@,
            marker@.len() == 5,
            arxiv_id_from(s@, 0) == arxiv_id_from(s@, j as int),
        decreases s.len() - j,
    {
        if matches_at_exec(s, &marker, j) {
            let a = if j + 5 < s.len() && s[j + 5] == ':' {
                j + 6
            } else {
                j + 5
            };
            let mut p = a;
            while p < s.len() && is_whitespace(s[p])
                invariant
                    a <= p <= s.len(),
                    skip_sep(s@, a as int, false) == skip_sep(s@, p as int, false),
                decreases s.len() - p,
            {
                p = p + 1;
            }
            let d = digits_end_exec(s, p);
            if d > p && d < s.len() && s[d] == '.' {
                let f = digits_end_exec(s, d + 1);
                if f > d + 1 {
                    return Some(subvec(s, p, f));
                }
            }
        }
        j = j + 1;
    }
    None
}

fn id_in_field_exec(e: &BibEntry, name: &str) -> (r: Option<Vec<char>>)
    ensures
        match r {
            Some(x) => id_in_field(e@, name@) == Some(x@),
            None => id_in_field(e@, name@) is None,
        },
{
    match e.get(name) {
        Some(v) => arxiv_id_from_exec(&chars_of(v.as_str())),
        None => None,
    }
}

fn all_digits_range(s: &Vec<char>, lo: usize, hi: usize) -> (r: bool)
    requires
        lo <= hi <= s.len(),
    ensures
        r == all_digits_in(s@.subrange(lo as int, hi as int)),
{
    crate::bbl::all_digits_exec(s, lo, hi)
}

impl Bibliography {
    /// The archive identifier of an entry, from its title, journal, note or
    /// raw text (`arXiv:NNNN.NNNNN`), else its key where the key is one.
    pub fn extract_arxiv_id(&self, entry: &BibEntry) -> (r: Option<String>)
        ensures
            match r {
                Some(x) => arxiv_id_of(entry@) == Some(x@),
                None => arxiv_id_of(entry@) is None,
            },
    {
        if let Some(x) = id_in_field_exec(entry, "title") {
            return Some(string_of(&x));
        }
        if let Some(x) = id_in_field_exec(entry, "journal") {
            return Some(string_of(&x));
        }
        if let Some(x) = id_in_field_exec(entry, "note") {
            return Some(string_of(&x));
        }
        if let Some(x) = id_in_field_exec(entry, "raw") {
            return Some(string_of(&x));
        }
        let k = chars_of(entry.key.as_str());
        if k.len() > 5 && all_digits_range(&k, 0, 4) && k[4] == '.' && all_digits_range(
            &k,
            5,
            k.len(),
        ) {
            Some(entry.key.clone())
        } else {
            None
        }
    }
}


/// The fields without the one named `name`.
pub open spec fn without_field(fs: Seq<(Seq<char>, Seq<char>)>, name: Seq<char>) -> Seq<
    (Seq<char>, Seq<char>),
>
    decreases fs.len(),
{
    if fs.len() == 0 {
        fs
    } else if fs.last().0 == name {
        without_field(fs.drop_last(), name)
    } else {
        without_field(fs.drop_last(), name).push(fs.last())
    }
}

/// The entry with the field set where a value is given.
pub open spec fn set_opt(e: EntryView, name: Seq<char>, v: Option<Seq<char>>) -> EntryView {
    match v {
        Some(x) => with_field(e, name, x),
        None => e,
    }
}

pub open spec fn all_numeric(s: Seq<char>) -> bool {
    forall|i: int| 0 <= i < s.len() ==> numeric(#[trigger] s[i])
}

/// An author's name without a trailing number that tells namesakes apart.
pub open spec fn clean_name(n: Seq<char>) -> Seq<char> {
    let ps = words(n);
    if ps.len() > 1 && all_numeric(ps.last()) {
        join(ps.drop_last(), seq![' '])
    } else {
        n
    }
}

/// The candidate of the search index for an entry: the entry's fields but
/// its source mark, with title, year, venue (as booktitle), url, volume,
/// doi and the cleaned authors of the hit where it has them, marked as
/// coming from the index.
pub open spec fn dblp_candidate(e: EntryView, h: HitView) -> EntryView {
    let e0 = set_fields(
        EntryView { key: e.key, entry_type: e.entry_type, fields: seq![] },
        without_field(e.fields, "verified_source"@),
    );
    let e1 = set_opt(e0, "title"@, h.title);
    let e2 = set_opt(e1, "year"@, h.year);
    let e3 = set_opt(e2, "booktitle"@, h.venue);
    let e4 = set_opt(e3, "url"@, h.url);
    let e5 = set_opt(e4, "volume"@, h.volume);
    let e6 = set_opt(e5, "doi"@, h.doi);
    let e7 = match h.authors {
        Some(ns) => if ns.len() > 0 {
            with_field(
                e6,
                "author"@,
                join(ns.map_values(|n: Seq<char>| clean_name(n)), crate::matching::and_sep()),
            )
        } else {
            e6
        },
        None => e6,
    };
    with_field(e7, "verified_source"@, "DBLP"@)
}

/// The fields of the archive's candidate, from the record text it returned.
pub open spec fn arxiv_candidate(record: Option<Seq<char>>) -> Option<Map<Seq<char>, Seq<char>>> {
    match record {
        Some(t) => match record_fields(t) {
            Some((k, i, m)) => Some(m.insert("verified_source"@, "arXiv"@)),
            None => None,
        },
        None => None,
    }
}

/// The fields of the search index's candidate, from the hits it returned.
pub open spec fn dblp_candidate_map(e: EntryView, hits: Option<Seq<HitView>>) -> Option<
    Map<Seq<char>, Seq<char>>,
> {
    match hits {
        Some(hs) => match best_match(e, hs) {
            Some(i) => Some(fields_map(dblp_candidate(e, hs[i]).fields)),
            None => None,
        },
        None => None,
    }
}

/// The winning candidate and its source: the archive's where there is one,
/// else the index's.
pub open spec fn winner(
    e: EntryView,
    record: Option<Seq<char>>,
    hits: Option<Seq<HitView>>,
) -> Option<(Map<Seq<char>, Seq<char>>, Seq<char>)> {
    match arxiv_candidate(record) {
        Some(m) => Some((m, "arXiv"@)),
        None => match dblp_candidate_map(e, hits) {
            Some(m) => Some((m, "DBLP"@)),
            None => None,
        },
    }
}

/// The fields of an entry after a candidate won: each of the candidate's
/// fields but `raw` overwrites, and the source is recorded.
pub open spec fn merge_map(
    base: Map<Seq<char>, Seq<char>>,
    m: Map<Seq<char>, Seq<char>>,
    label: Seq<char>,
) -> Map<Seq<char>, Seq<char>> {
    base.union_prefer_right(m.remove("raw"@)).insert("verified_source"@, label)
}

fn clean_name_exec(n: &String) -> (r: String)
    ensures
        r@ == clean_name(n@),
{
    let c = chars_of(n.as_str());
    let ps = tokens_exec(&c, false);
    if ps.len() > 1 {
        let last = &ps[ps.len() - 1];
        let mut k: usize = 0;
        while k < last.len()
            invariant
                k <= last.len(),
                c@ == n@,
                views(ps@) == words(c@),
                ps.len() > 1,
                last@ == ps@[ps.len() - 1]@,
                forall|j: int| 0 <= j < k ==> numeric(#[trigger] last@[j]),
            decreases last.len() - k,
        {
            if !is_numeric(last[k]) {
                proof {
                    assert(views(ps@).last() == last@);
                    assert(!numeric(last@[k as int]));
                }
                return n.clone();
            }
            k = k + 1;
        }
        let mut head: Vec<Vec<char>> = Vec::new();
        let mut i: usize = 0;
        while i + 1 < ps.len()
            invariant
                i + 1 <= ps.len(),
                views(head@) == views(ps@).subrange(0, i as int),
            decreases ps.len() - i,
        {
            let w = subvec(&ps[i], 0, ps[i].len());
            let ghost bp = head@;
            head.push(w);
            proof {
                assert(w@ =~= ps@[i as int]@);
                assert(views(head@) =~= views(bp).push(w@));
                assert(views(head@) =~= views(ps@).subrange(0, i + 1));
            }
            i = i + 1;
        }
        let space = vec![' '];
        proof {
            assert(space@ =~= seq![' ']);
            assert(views(ps@).subrange(0, i as int) =~= views(ps@).drop_last());
            assert(views(ps@).last() == last@);
        }
        string_of(&join_exec(&head, &space))
    } else {
        n.clone()
    }
}

fn same_text(a: &String, b: &str) -> (r: bool)
    ensures
        r == (a@ == b@),
{
    crate::text::chars_eq(&chars_of(a.as_str()), &chars_of(b))
}

fn set_opt_exec(e: &mut BibEntry, name: &str, v: &Option<String>)
    ensures
        final(e)@ == set_opt(old(e)@, name@, opt_seq(v)),
{
    if let Some(x) = v {
        e.set(name, x.clone());
    }
}

pub open spec fn opt_seq(v: &Option<String>) -> Option<Seq<char>> {
    match v {
        Some(x) => Some(x@),
        None => None,
    }
}

/// The candidate of the search index for `entry` from the hit `h`.
pub fn dblp_candidate_exec(entry: &BibEntry, h: &DblpHit) -> (r: BibEntry)
    ensures
        r@ == dblp_candidate(entry@, h@),
{
    let mut e = BibEntry::new(entry.key.clone(), entry.entry_type.clone());
    let ghost e0 = e@;
    let ghost fs = entry@.fields;
    let n = entry.fields.len();
    let mut i: usize = 0;
    while i < n
        invariant
            n == fs.len(),
            fs == entry@.fields,
            i <= n,
            e@ == set_fields(e0, without_field(fs.subrange(0, i as int), "verified_source"@)),
        decreases n - i,
    {
        proof {
            assert(fs.subrange(0, i + 1).drop_last() =~= fs.subrange(0, i as int));
        }
        let name = entry.fields.name_at(i);
        if !same_text(name, "verified_source") {
            e.set(name.as_str(), entry.fields.value_at(i).clone());
            proof {
                let w = without_field(fs.subrange(0, i as int), "verified_source"@);
                assert(without_field(fs.subrange(0, i + 1), "verified_source"@) == w.push(fs[i as int]));
                assert(w.push(fs[i as int]).drop_last() =~= w);
            }
        }
        i = i + 1;
    }
    proof {
        assert(fs.subrange(0, i as int) =~= fs);
    }
    set_opt_exec(&mut e, "title", &h.title);
    set_opt_exec(&mut e, "year", &h.year);
    set_opt_exec(&mut e, "booktitle", &h.venue);
    set_opt_exec(&mut e, "url", &h.url);
    set_opt_exec(&mut e, "volume", &h.volume);
    set_opt_exec(&mut e, "doi", &h.doi);
    if let Some(ns) = &h.authors {
        if ns.len() > 0 {
            let mut cleaned: Vec<Vec<char>> = Vec::new();
            let mut k: usize = 0;
            while k < ns.len()
                invariant
                    k <= ns.len(),
                    views(cleaned@) == ns@.map_values(|s: String| s@).map_values(
                        |n: Seq<char>| clean_name(n),
                    ).subrange(0, k as int),
                decreases ns.len() - k,
            {
                let c = chars_of(clean_name_exec(&ns[k]).as_str());
                let ghost bp = cleaned@;
                cleaned.push(c);
                proof {
                    assert(views(cleaned@) =~= views(bp).push(c@));
                    assert(views(cleaned@) =~= ns@.map_values(|s: String| s@).map_values(
                        |n: Seq<char>| clean_name(n),
                    ).subrange(0, k + 1));
                }
                k = k + 1;
            }
            proof {
                assert(ns@.map_values(|s: String| s@).map_values(|n: Seq<char>| clean_name(n)).subrange(
                    0,
                    k as int,
                ) =~= ns@.map_values(|s: String| s@).map_values(|n: Seq<char>| clean_name(n)));
            }
            let sep = vec![' ', 'a', 'n', 'd', ' '];
            proof {
                assert(sep@ =~= crate::matching::and_sep());
            }
            e.set("author", string_of(&join_exec(&cleaned, &sep)));
        }
    }
    e.set("verified_source", "DBLP".to_owned());
    e
}

/// Overwrites the fields of `entry` with those of the winner `w` but `raw`,
/// and records the source.
fn apply_winner(entry: &mut BibEntry, w: &BibEntry, label: &str)
    ensures
        final(entry)@.key == old(entry)@.key,
        final(entry)@.entry_type == old(entry)@.entry_type,
        fields_map(final(entry)@.fields) == merge_map(
            fields_map(old(entry)@.fields),
            fields_map(w@.fields),
            label@,
        ),
{
    let ghost base = fields_map(entry@.fields);
    let ghost ws = w@.fields;
    let n = w.fields.len();
    let mut i: usize = 0;
    proof {
        assert(fields_map(ws.subrange(0, 0)) =~= Map::<Seq<char>, Seq<char>>::empty());
        assert(base.union_prefer_right(fields_map(ws.subrange(0, 0)).remove("raw"@)) =~= base);
    }
    while i < n
        invariant
            n == ws.len(),
            ws == w@.fields,
            sorted_keys(ws),
            i <= n,
            entry@.key == old(entry)@.key,
            entry@.entry_type == old(entry)@.entry_type,
            base == fields_map(old(entry)@.fields),
            fields_map(entry@.fields) == base.union_prefer_right(
                fields_map(ws.subrange(0, i as int)).remove("raw"@),
            ),
        decreases n - i,
    {
        proof {
            lemma_fields_map_prefix(ws, i as int);
        }
        let name = w.fields.name_at(i);
        if !same_text(name, "raw") {
            let ghost before = entry@.fields;
            entry.set(name.as_str(), w.fields.value_at(i).clone());
            proof {
                lemma_fields_map_insert(before, ws[i as int].0, ws[i as int].1);
                assert(fields_map(entry@.fields) =~= base.union_prefer_right(
                    fields_map(ws.subrange(0, i + 1)).remove("raw"@),
                ));
            }
        } else {
            proof {
                assert(fields_map(ws.subrange(0, i + 1)).remove("raw"@) =~= fields_map(
                    ws.subrange(0, i as int),
                ).remove("raw"@));
            }
        }
        i = i + 1;
    }
    let ghost before = entry@.fields;
    entry.set("verified_source", label.to_owned());
    proof {
        assert(ws.subrange(0, i as int) =~= ws);
        lemma_fields_map_insert(before, "verified_source"@, label@);
    }
}

pub open spec fn opt_text(o: Option<&str>) -> Option<Seq<char>> {
    match o {
        Some(t) => Some(t@),
        None => None,
    }
}

pub open spec fn opt_hits(o: Option<&Vec<DblpHit>>) -> Option<Seq<HitView>> {
    match o {
        Some(hs) => Some(hit_views(hs@)),
        None => None,
    }
}

impl Bibliography {
    /// Verifies `entry` with what the two sources returned: the archive's
    /// record text (where one came), and the hits of the search index
    /// (where they came). The archive's candidate wins over the index's; the
    /// winner's fields but `raw` overwrite the entry's and `verified_source`
    /// names the source. Without a candidate the entry stays as it is.
    /// Returns whether a candidate won.
    pub fn verify_entry(
        &self,
        entry: &mut BibEntry,
        arxiv_record: Option<&str>,
        dblp_hits: Option<&Vec<DblpHit>>,
    ) -> (r: bool)
        ensures
            r == winner(old(entry)@, opt_text(arxiv_record), opt_hits(dblp_hits)) is Some,
            match winner(old(entry)@, opt_text(arxiv_record), opt_hits(dblp_hits)) {
                Some((m, label)) => final(entry)@.key == old(entry)@.key
                    && final(entry)@.entry_type == old(entry)@.entry_type
                    && fields_map(final(entry)@.fields) == merge_map(
                    fields_map(old(entry)@.fields),
                    m,
                    label,
                ),
                None => final(entry)@ == old(entry)@,
            },
    {
        let arxiv = match arxiv_record {
            Some(t) => match parse_record(t) {
                Some(c) => {
                    let mut c = c;
                    let ghost before = c@.fields;
                    c.set("verified_source", "arXiv".to_owned());
                    proof {
                        lemma_fields_map_insert(before, "verified_source"@, "arXiv"@);
                    }
                    Some(c)
                },
                None => None,
            },
            None => None,
        };
        if let Some(c) = arxiv {
            apply_winner(entry, &c, "arXiv");
            return true;
        }
        let dblp = match dblp_hits {
            Some(hs) => match best_match_index(hs, entry) {
                Some(i) => Some(dblp_candidate_exec(entry, &hs[i])),
                None => None,
            },
            None => None,
        };
        match dblp {
            Some(c) => {
                apply_winner(entry, &c, "DBLP");
                true
            },
            None => false,
        }
    }
}


/// An entry without a title and without an archive identifier asks neither
/// source, and its verification fails whatever the index returned: no
/// candidate wins, so `verify_entry` leaves it as it was and returns false.
pub proof fn lemma_unverifiable_entry(e: EntryView, hits: Option<Seq<HitView>>)
    requires
        field(e, "title"@) is None,
        arxiv_id_of(e) is None,
    ensures
        crate::requests::query_for(e) is None,
        winner(e, None, hits) is None,
{
}

} // verus!
