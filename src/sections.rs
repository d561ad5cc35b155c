//! Related-work sections of a LaTeX body and the keys that they cite.
use vstd::prelude::*;
use crate::text::{chars_of, contains, find_from, find_from_exec, is_whitespace, lower_of,
    skip_sep, split, split_exec, string_of, subvec, to_lower, trim, trim_range, views,
    lemma_find_from_bounds};
use crate::entry::{StrMap, insert_sorted};
use crate::bibliography::Bibliography;
use crate::citations::{cited_keys_from, next_cite_exec, list_keys, lemma_next_cite_bounds};

verus! {

/// A title names related work when its lowercase form holds one of these phrases.
pub open spec fn is_related_title(t: Seq<char>) -> bool {
    let l = lower_of(t);
    contains(l, "related work"@) || contains(l, "background"@) || contains(
        l,
        "literature review"@,
    ) || contains(l, "prior work"@) || contains(l, "previous work"@) || contains(
        l,
        "state of the art"@,
    ) || contains(l, "comparative analysis"@) || contains(l, "context"@) || contains(
        l,
        "existing work"@,
    ) || contains(l, "existing approaches"@) || contains(l, "existing methods"@) || contains(
        l,
        "review of the literature"@,
    ) || contains(l, "previous approaches"@) || contains(l, "foundation"@)
}

fn has(l: &Vec<char>, phrase: &str) -> (r: bool)
    ensures
        r == contains(l@, phrase@),
{
    find_from_exec(l, &chars_of(phrase), 0).is_some()
}

/// Whether a section title names related work (case-insensitively).
pub fn related_work_section(section_title: &str) -> (r: bool)
    ensures
        r == is_related_title(section_title@),
{
    let l = to_lower(&chars_of(section_title));
    has(&l, "related work") || has(&l, "background") || has(&l, "literature review") || has(
        &l,
        "prior work",
    ) || has(&l, "previous work") || has(&l, "state of the art") || has(
        &l,
        "comparative analysis",
    ) || has(&l, "context") || has(&l, "existing work") || has(&l, "existing approaches") || has(
        &l,
        "existing methods",
    ) || has(&l, "review of the literature") || has(&l, "previous approaches") || has(
        &l,
        "foundation",
    )
}

/// The braces of the heading `{title}` that opens a section's text, after
/// leading whitespace.
pub open spec fn heading(s: Seq<char>) -> Option<(int, int)> {
    let p = skip_sep(s, 0, false);
    if p < s.len() && s[p] == '{' {
        match find_from(s, seq!['}'], p + 1) {
            Some(c) => Some((p, c)),
            None => None,
        }
    } else {
        None
    }
}

/// The title of a section's text: its heading, trimmed, or empty.
pub open spec fn section_title(s: Seq<char>) -> Seq<char> {
    match heading(s) {
        Some((p, c)) => trim(s.subrange(p + 1, c)),
        None => seq![],
    }
}

/// The content of a section's text: what follows the heading, else what
/// follows the first line, else all of it; trimmed.
pub open spec fn section_content(s: Seq<char>) -> Seq<char> {
    match heading(s) {
        Some((p, c)) if c + 1 < s.len() => trim(s.subrange(c + 1, s.len() as int)),
        _ => match find_from(s, seq!['\n'], 0) {
            Some(n) => trim(s.subrange(n + 1, s.len() as int)),
            None => trim(s),
        },
    }
}

/// The distinct keys of `ks`, sorted.
pub open spec fn sorted_distinct(ks: Seq<Seq<char>>) -> Seq<Seq<char>> {
    key_set_fold(seq![], ks).map_values(|p: (Seq<char>, Seq<char>)| p.0)
}

pub open spec fn key_set_fold(
    m: Seq<(Seq<char>, Seq<char>)>,
    ks: Seq<Seq<char>>,
) -> Seq<(Seq<char>, Seq<char>)>
    decreases ks.len(),
{
    if ks.len() == 0 {
        m
    } else {
        insert_sorted(key_set_fold(m, ks.drop_last()), ks.last(), seq![])
    }
}

/// What an extracted section is.
pub struct SectionView {
    pub title: Seq<char>,
    pub content: Seq<char>,
    pub citations: Seq<Seq<char>>,
}

/// The section that a part of the body gives, if its title names related work.
pub open spec fn section_of(part: Seq<char>) -> Option<SectionView> {
    let t = section_title(part);
    if is_related_title(t) {
        let c = section_content(part);
        Some(SectionView { title: t, content: c, citations: sorted_distinct(cited_keys_from(c, 0)) })
    } else {
        None
    }
}

/// The sections of the parts, in order.
pub open spec fn sections_of(parts: Seq<Seq<char>>) -> Seq<SectionView>
    decreases parts.len(),
{
    if parts.len() == 0 {
        seq![]
    } else {
        let r = sections_of(parts.drop_last());
        match section_of(parts.last()) {
            Some(x) => r.push(x),
            None => r,
        }
    }
}

/// The related-work sections of a body: those of the `\section` parts, then
/// those of the `\subsection` parts.
pub open spec fn extracted_sections(body: Seq<char>) -> Seq<SectionView> {
    sections_of(split(body, "\\section"@).drop_first()) + sections_of(
        split(body, "\\subsection"@).drop_first(),
    )
}

/// A related-work section: its title, its raw content, and the distinct keys
/// that it cites, sorted.
#[derive(Debug)]
pub struct ExtractedSection {
    pub title: String,
    pub content: String,
    pub citations: Vec<String>,
}

impl View for ExtractedSection {
    type V = SectionView;

    open spec fn view(&self) -> SectionView {
        SectionView {
            title: self.title@,
            content: self.content@,
            citations: self.citations@.map_values(|k: String| k@),
        }
    }
}

fn heading_exec(s: &Vec<char>) -> (r: Option<(usize, usize)>)
    ensures
        match r {
            Some((p, c)) => heading(s@) == Some((p as int, c as int)) && p < c < s.len(),
            None => heading(s@) is None,
        },
{
    let mut p: usize = 0;
    while p < s.len() && is_whitespace(s[p])
        invariant
            p <= s.len(),
            skip_sep(s@, 0, false) == skip_sep(s@, p as int, false),
        decreases s.len() - p,
    {
        p = p + 1;
    }
    if p < s.len() && s[p] == '{' {
        let close = vec!['}'];
        proof {
            assert(close@ =~= seq!['}']);
            lemma_find_from_bounds(s@, seq!['}'], p + 1);
        }
        match find_from_exec(s, &close, p + 1) {
            Some(c) => Some((p, c)),
            None => None,
        }
    } else {
        None
    }
}

fn trimmed(s: &Vec<char>, lo: usize, hi: usize) -> (r: Vec<char>)
    requires
        lo <= hi <= s.len(),
    ensures
        r@ == trim(s@.subrange(lo as int, hi as int)),
{
    let (a, b) = trim_range(s, lo, hi);
    subvec(s, a, b)
}

fn section_title_exec(s: &Vec<char>) -> (r: Vec<char>)
    ensures
        r@ == section_title(s@),
{
    match heading_exec(s) {
        Some((p, c)) => trimmed(s, p + 1, c),
        None => Vec::new(),
    }
}

fn section_content_exec(s: &Vec<char>) -> (r: Vec<char>)
    ensures
        r@ == section_content(s@),
{
    if let Some((p, c)) = heading_exec(s) {
        if c + 1 < s.len() {
            return trimmed(s, c + 1, s.len());
        }
    }
    let nl = vec!['\n'];
    proof {
        assert(nl@ =~= seq!['\n']);
        lemma_find_from_bounds(s@, seq!['\n'], 0);
        assert(s@.subrange(0, s.len() as int) =~= s@);
    }
    match find_from_exec(s, &nl, 0) {
        Some(n) => trimmed(s, n + 1, s.len()),
        None => trimmed(s, 0, s.len()),
    }
}

/// The distinct keys cited in `content`, sorted.
fn citations_exec(content: &Vec<char>) -> (r: Vec<String>)
    ensures
        r@.map_values(|k: String| k@) == sorted_distinct(cited_keys_from(content@, 0)),
{
    let ks = cited_keys_exec(content);
    let ghost gks = views(ks@);
    let mut m = StrMap::new();
    let mut i: usize = 0;
    proof {
        assert(m@ =~= key_set_fold(seq![], gks.subrange(0, 0)));
    }
    while i < ks.len()
        invariant
            i <= ks.len(),
            gks == views(ks@),
            m@ == key_set_fold(seq![], gks.subrange(0, i as int)),
        decreases ks.len() - i,
    {
        proof {
            assert(gks.subrange(0, i + 1).drop_last() =~= gks.subrange(0, i as int));
        }
        m.set(string_of(&ks[i]), String::new());
        i = i + 1;
    }
    proof {
        assert(gks.subrange(0, i as int) =~= gks);
    }
    let mut r: Vec<String> = Vec::new();
    let mut j: usize = 0;
    while j < m.len()
        invariant
            j <= m@.len(),
            r@.map_values(|k: String| k@) == m@.subrange(0, j as int).map_values(
                |p: (Seq<char>, Seq<char>)| p.0,
            ),
        decreases m@.len() - j,
    {
        let ghost before_push = r@;
        let name = m.name_at(j).clone();
        r.push(name);
        proof {
            assert(r@ == before_push.push(name));
            assert(r@.map_values(|k: String| k@) =~= before_push.map_values(|k: String| k@).push(
                m@[j as int].0,
            ));
            assert(r@.map_values(|k: String| k@) =~= m@.subrange(0, j + 1).map_values(
                |p: (Seq<char>, Seq<char>)| p.0,
            ));
        }
        j = j + 1;
    }
    proof {
        assert(m@.subrange(0, j as int) =~= m@);
    }
    r
}

/// The trimmed keys of every citation command of `s`, in order.
pub fn cited_keys_exec(s: &Vec<char>) -> (r: Vec<Vec<char>>)
    ensures
        views(r@) == cited_keys_from(s@, 0),
{
    let mut r: Vec<Vec<char>> = Vec::new();
    let mut i: usize = 0;
    loop
        invariant
            i <= s.len(),
            views(r@) + cited_keys_from(s@, i as int) == cited_keys_from(s@, 0),
        decreases s.len() - i,
    {
        match next_cite_exec(s, i) {
            None => {
                proof {
                    assert(cited_keys_from(s@, i as int) =~= seq![]);
                    assert(views(r@) =~= views(r@) + cited_keys_from(s@, i as int));
                }
                return r;
            },
            Some((j, o, c)) => {
                proof {
                    lemma_next_cite_bounds(s@, i as int);
                }
                let list = subvec(s, o + 1, c);
                let keys = list_keys_exec(&list);
                let ghost before = views(r@);
                let mut k: usize = 0;
                while k < keys.len()
                    invariant
                        k <= keys.len(),
                        views(r@) == before + views(keys@).subrange(0, k as int),
                    decreases keys.len() - k,
                {
                    let w = subvec(&keys[k], 0, keys[k].len());
                    let ghost bp = r@;
                    r.push(w);
                    proof {
                        assert(w@ =~= keys@[k as int]@);
                        assert(views(r@) =~= views(bp).push(w@));
                        assert(views(r@) =~= before + views(keys@).subrange(0, k + 1));
                    }
                    k = k + 1;
                }
                proof {
                    assert(views(keys@).subrange(0, k as int) =~= views(keys@));
                    assert(cited_keys_from(s@, i as int) == list_keys(list@) + cited_keys_from(
                        s@,
                        c + 1,
                    ));
                    assert(views(r@) + cited_keys_from(s@, c + 1) =~= before + cited_keys_from(
                        s@,
                        i as int,
                    ));
                }
                i = c + 1;
            },
        }
    }
}

/// The trimmed keys of a comma-separated list.
fn list_keys_exec(list: &Vec<char>) -> (r: Vec<Vec<char>>)
    ensures
        views(r@) == list_keys(list@),
{
    let comma = vec![','];
    proof {
        assert(comma@ =~= seq![',']);
    }
    let pieces = split_exec(list, &comma);
    let ghost gp = views(pieces@);
    let mut r: Vec<Vec<char>> = Vec::new();
    let mut i: usize = 0;
    while i < pieces.len()
        invariant
            i <= pieces.len(),
            gp == views(pieces@),
            gp == split(list@, seq![',']),
            views(r@) == gp.subrange(0, i as int).map_values(|p: Seq<char>| trim(p)),
        decreases pieces.len() - i,
    {
        let t = trimmed(&pieces[i], 0, pieces[i].len());
        let ghost bp = r@;
        r.push(t);
        proof {
            assert(pieces@[i as int]@.subrange(0, pieces@[i as int]@.len() as int) =~= gp[i as int]);
            assert(views(r@) =~= views(bp).push(t@));
            assert(views(r@) =~= gp.subrange(0, i + 1).map_values(|p: Seq<char>| trim(p)));
        }
        i = i + 1;
    }
    proof {
        assert(gp.subrange(0, i as int) =~= gp);
    }
    r
}


pub open spec fn section_views(v: Seq<ExtractedSection>) -> Seq<SectionView> {
    v.map_values(|x: ExtractedSection| x@)
}

/// Appends the sections of the parts after the first one of `body` split on `marker`.
fn collect_sections(body: &Vec<char>, marker: &str, out: &mut Vec<ExtractedSection>)
    requires
        marker@.len() > 0,
    ensures
        section_views(final(out)@) == section_views(old(out)@) + sections_of(
            split(body@, marker@).drop_first(),
        ),
{
    let m = chars_of(marker);
    let parts = split_exec(body, &m);
    let ghost gp = views(parts@);
    let ghost frags = gp.drop_first();
    let ghost start = section_views(out@);
    let mut i: usize = 1;
    proof {
        assert(frags.subrange(0, 0) =~= Seq::<Seq<char>>::empty());
        assert(start + sections_of(frags.subrange(0, 0)) =~= start);
    }
    while i < parts.len()
        invariant
            1 <= i,
            i <= parts.len() || parts.len() == 0,
            gp == views(parts@),
            gp == split(body@, marker@),
            frags == gp.drop_first(),
            section_views(out@) == start + sections_of(frags.subrange(0, i - 1)),
        decreases parts.len() - i,
    {
        proof {
            assert(frags.subrange(0, i as int).drop_last() =~= frags.subrange(0, i - 1));
            assert(frags[i - 1] == parts@[i as int]@);
        }
        let part = &parts[i];
        let title = section_title_exec(part);
        let t = string_of(&title);
        if related_work_section(t.as_str()) {
            let content = section_content_exec(part);
            let citations = citations_exec(&content);
            let sec = ExtractedSection { title: t, content: string_of(&content), citations };
            let ghost bp = out@;
            out.push(sec);
            proof {
                assert(section_views(out@) =~= section_views(bp).push(sec@));
            }
        }
        i = i + 1;
    }
    proof {
        if parts.len() > 0 {
            assert(frags.subrange(0, i - 1) =~= frags);
        }
    }
}

/// The related-work sections of a flattened LaTeX body: every `\section`
/// and every `\subsection` whose title names related work, with its content
/// and the distinct keys that it cites, sorted.
pub fn extract_sections_from_latex(content: &str, _bibliography: &Bibliography) -> (r: Vec<
    ExtractedSection,
>)
    ensures
        section_views(r@) == extracted_sections(content@),
{
    let body = chars_of(content);
    let mut out: Vec<ExtractedSection> = Vec::new();
    proof {
        reveal_strlit("\\section");
        reveal_strlit("\\subsection");
        assert(section_views(out@) =~= Seq::<SectionView>::empty());
    }
    collect_sections(&body, "\\section", &mut out);
    collect_sections(&body, "\\subsection", &mut out);
    out
}

} // verus!
