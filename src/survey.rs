//! Consolidation of the papers' bibliographies and rendering of the survey
//! text and of the bibliography.
use vstd::prelude::*;
use crate::text::{chars_of, chars_lt, seq_lt, string_of, append_chars};
use crate::entry::{BibEntry, EntryView};
use crate::bibliography::{Bibliography, BibView, add_entries};
use crate::keys::{normalized_key, key_of};
use crate::matching::{strip_braces, strip_braces_exec};
use crate::sections::{ExtractedSection, SectionView, section_views};
use crate::citations::rewritten;

verus! {

/// An entry with its normalized key.
pub type Keyed = (Seq<char>, EntryView);

/// `s` with `x` put before the first element whose key follows its own.
pub open spec fn ins_by_key(s: Seq<Keyed>, x: Keyed) -> Seq<Keyed>
    decreases s.len(),
{
    if s.len() == 0 {
        seq![x]
    } else if seq_lt(x.0, s[0].0) {
        seq![x] + s
    } else {
        seq![s[0]] + ins_by_key(s.drop_first(), x)
    }
}

/// `s` sorted by key, stably.
pub open spec fn sort_by_key(s: Seq<Keyed>) -> Seq<Keyed>
    decreases s.len(),
{
    if s.len() == 0 {
        s
    } else {
        ins_by_key(sort_by_key(s.drop_last()), s.last())
    }
}

/// The entries of a bibliography in the order they are rendered: by
/// normalized key, entries with equal normalized keys in key order.
pub open spec fn emission_order(b: BibView) -> Seq<Keyed> {
    sort_by_key(b.map_values(|p: (Seq<char>, EntryView)| (normalized_key(p.1), p.1)))
}

proof fn lemma_ins_at(s: Seq<Keyed>, x: Keyed, p: int)
    requires
        0 <= p <= s.len(),
        forall|j: int| 0 <= j < p ==> !seq_lt(x.0, #[trigger] s[j].0),
        p < s.len() ==> seq_lt(x.0, s[p].0),
    ensures
        ins_by_key(s, x) == s.insert(p, x),
    decreases p,
{
    if s.len() == 0 {
        assert(seq![x] =~= s.insert(0, x));
    } else if p == 0 {
        assert(seq![x] + s =~= s.insert(0, x));
    } else {
        let t = s.drop_first();
        assert forall|j: int| 0 <= j < p - 1 implies !seq_lt(x.0, #[trigger] t[j].0) by {
            assert(t[j] == s[j + 1]);
        }
        lemma_ins_at(t, x, p - 1);
        assert(seq![s[0]] + t.insert(p - 1, x) =~= s.insert(p, x));
    }
}

/// `@type{key,` then `  name = {value},` for each field but `raw`, values
/// without braces, then `}` and an empty line.
pub open spec fn bibtex_fields(fs: Seq<(Seq<char>, Seq<char>)>) -> Seq<char>
    decreases fs.len(),
{
    if fs.len() == 0 {
        seq![]
    } else if fs.last().0 == "raw"@ {
        bibtex_fields(fs.drop_last())
    } else {
        bibtex_fields(fs.drop_last()) + "  "@ + fs.last().0 + " = {"@ + strip_braces(fs.last().1)
            + "},\n"@
    }
}

pub open spec fn bibtex_stanza(k: Keyed) -> Seq<char> {
    "@"@ + k.1.entry_type + "{"@ + k.0 + ",\n"@ + bibtex_fields(k.1.fields) + "}\n\n"@
}

pub open spec fn bibtex_text(es: Seq<Keyed>) -> Seq<char>
    decreases es.len(),
{
    if es.len() == 0 {
        seq![]
    } else {
        bibtex_text(es.drop_last()) + bibtex_stanza(es.last())
    }
}

/// `    name: "value",` for each field but `raw`.
pub open spec fn listing_fields(fs: Seq<(Seq<char>, Seq<char>)>) -> Seq<char>
    decreases fs.len(),
{
    if fs.len() == 0 {
        seq![]
    } else if fs.last().0 == "raw"@ {
        listing_fields(fs.drop_last())
    } else {
        listing_fields(fs.drop_last()) + "    "@ + fs.last().0 + ": \""@ + fs.last().1 + "\",\n"@
    }
}

pub open spec fn listing_stanza(k: Keyed) -> Seq<char> {
    "  "@ + k.0 + ": "@ + k.1.entry_type + " {\n"@ + listing_fields(k.1.fields) + "  }\n"@
}

pub open spec fn listing_text(es: Seq<Keyed>) -> Seq<char>
    decreases es.len(),
{
    if es.len() == 0 {
        seq![]
    } else {
        listing_text(es.drop_last()) + listing_stanza(es.last())
    }
}

/// The bibliography in emission order, each entry with its normalized key.
fn ordered(bib: &Bibliography) -> (r: Vec<(Vec<char>, usize)>)
    ensures
        forall|i: int| 0 <= i < r@.len() ==> (#[trigger] r@[i]).1 < bib@.len(),
        r@.map_values(|q: (Vec<char>, usize)| (q.0@, bib@[q.1 as int].1)) == emission_order(bib@),
{
    let ghost ks = bib@.map_values(|p: (Seq<char>, EntryView)| (normalized_key(p.1), p.1));
    let mut order: Vec<(Vec<char>, usize)> = Vec::new();
    let n = bib.len();
    let mut i: usize = 0;
    proof {
        assert(order@.map_values(|q: (Vec<char>, usize)| (q.0@, bib@[q.1 as int].1)) =~= sort_by_key(
            ks.subrange(0, 0),
        ));
    }
    while i < n
        invariant
            n == bib@.len(),
            ks == bib@.map_values(|p: (Seq<char>, EntryView)| (normalized_key(p.1), p.1)),
            i <= n,
            forall|j: int| 0 <= j < order@.len() ==> (#[trigger] order@[j]).1 < i,
            order@.map_values(|q: (Vec<char>, usize)| (q.0@, bib@[q.1 as int].1)) == sort_by_key(
                ks.subrange(0, i as int),
            ),
        decreases n - i,
    {
        let e = bib.entry_at(i);
        let k = chars_of(key_of(e).as_str());
        let ghost view = order@.map_values(|q: (Vec<char>, usize)| (q.0@, bib@[q.1 as int].1));
        let mut p: usize = 0;
        while p < order.len() && !chars_lt(&k, &order[p].0)
            invariant
                p <= order.len(),
                view == order@.map_values(|q: (Vec<char>, usize)| (q.0@, bib@[q.1 as int].1)),
                forall|j: int| 0 <= j < p ==> !seq_lt(k@, #[trigger] view[j].0),
            decreases order.len() - p,
        {
            p = p + 1;
        }
        proof {
            assert(ks.subrange(0, i + 1).drop_last() =~= ks.subrange(0, i as int));
            assert(ks.subrange(0, i + 1).last() == (k@, bib@[i as int].1));
            lemma_ins_at(view, (k@, bib@[i as int].1), p as int);
        }
        let ghost before = order@;
        order.insert(p, (k, i));
        proof {
            assert(order@.map_values(|q: (Vec<char>, usize)| (q.0@, bib@[q.1 as int].1)) =~= view.insert(
                p as int,
                (k@, bib@[i as int].1),
            ));
            assert forall|j: int| 0 <= j < order@.len() implies (#[trigger] order@[j]).1 < i + 1 by {
                if j < p {
                    assert(order@[j] == before[j]);
                } else if j > p {
                    assert(order@[j] == before[j - 1]);
                }
            }
        }
        i = i + 1;
    }
    proof {
        assert(ks.subrange(0, i as int) =~= ks);
    }
    order
}

fn push_str(out: &mut Vec<char>, s: &str)
    ensures
        final(out)@ == old(out)@ + s@,
{
    append_chars(out, &chars_of(s));
}

fn is_raw(name: &String) -> (r: bool)
    ensures
        r == (name@ == "raw"@),
{
    crate::text::chars_eq(&chars_of(name.as_str()), &chars_of("raw"))
}

fn bibtex_stanza_exec(out: &mut Vec<char>, nk: &Vec<char>, e: &BibEntry)
    ensures
        final(out)@ == old(out)@ + bibtex_stanza((nk@, e@)),
{
    push_str(out, "@");
    append_chars(out, &chars_of(e.entry_type.as_str()));
    push_str(out, "{");
    append_chars(out, nk);
    push_str(out, ",\n");
    let ghost head = out@;
    let ghost fs = e@.fields;
    let n = e.fields.len();
    let mut i: usize = 0;
    while i < n
        invariant
            n == fs.len(),
            fs == e@.fields,
            i <= n,
            out@ == head + bibtex_fields(fs.subrange(0, i as int)),
        decreases n - i,
    {
        proof {
            assert(fs.subrange(0, i + 1).drop_last() =~= fs.subrange(0, i as int));
        }
        let name = e.fields.name_at(i);
        if !is_raw(name) {
            push_str(out, "  ");
            append_chars(out, &chars_of(name.as_str()));
            push_str(out, " = {");
            append_chars(out, &strip_braces_exec(&chars_of(e.fields.value_at(i).as_str())));
            push_str(out, "},\n");
            proof {
                assert(out@ =~= head + bibtex_fields(fs.subrange(0, i + 1)));
            }
        }
        i = i + 1;
    }
    proof {
        assert(fs.subrange(0, i as int) =~= fs);
    }
    push_str(out, "}\n\n");
    proof {
        assert(out@ =~= old(out)@ + bibtex_stanza((nk@, e@)));
    }
}

/// The bibliography as BibTeX: one stanza per entry under its normalized
/// key, in emission order, fields sorted by name, `raw` left out, braces
/// taken out of the values.
pub fn format_bibliography_as_bibtex(bibliography: &Bibliography) -> (r: String)
    ensures
        r@ == bibtex_text(emission_order(bibliography@)),
{
    let order = ordered(bibliography);
    let ghost es = emission_order(bibliography@);
    let mut out: Vec<char> = Vec::new();
    let mut i: usize = 0;
    while i < order.len()
        invariant
            i <= order.len(),
            forall|j: int| 0 <= j < order@.len() ==> (#[trigger] order@[j]).1 < bibliography@.len(),
            es == order@.map_values(|q: (Vec<char>, usize)| (q.0@, bibliography@[q.1 as int].1)),
            out@ == bibtex_text(es.subrange(0, i as int)),
        decreases order.len() - i,
    {
        proof {
            assert(es.subrange(0, i + 1).drop_last() =~= es.subrange(0, i as int));
        }
        let e = bibliography.entry_at(order[i].1);
        bibtex_stanza_exec(&mut out, &order[i].0, e);
        i = i + 1;
    }
    proof {
        assert(es.subrange(0, i as int) =~= es);
    }
    string_of(&out)
}

fn listing_stanza_exec(out: &mut Vec<char>, nk: &Vec<char>, e: &BibEntry)
    ensures
        final(out)@ == old(out)@ + listing_stanza((nk@, e@)),
{
    push_str(out, "  ");
    append_chars(out, nk);
    push_str(out, ": ");
    append_chars(out, &chars_of(e.entry_type.as_str()));
    push_str(out, " {\n");
    let ghost head = out@;
    let ghost fs = e@.fields;
    let n = e.fields.len();
    let mut i: usize = 0;
    while i < n
        invariant
            n == fs.len(),
            fs == e@.fields,
            i <= n,
            out@ == head + listing_fields(fs.subrange(0, i as int)),
        decreases n - i,
    {
        proof {
            assert(fs.subrange(0, i + 1).drop_last() =~= fs.subrange(0, i as int));
        }
        let name = e.fields.name_at(i);
        if !is_raw(name) {
            push_str(out, "    ");
            append_chars(out, &chars_of(name.as_str()));
            push_str(out, ": \"");
            append_chars(out, &chars_of(e.fields.value_at(i).as_str()));
            push_str(out, "\",\n");
            proof {
                assert(out@ =~= head + listing_fields(fs.subrange(0, i + 1)));
            }
        }
        i = i + 1;
    }
    proof {
        assert(fs.subrange(0, i as int) =~= fs);
    }
    push_str(out, "  }\n");
    proof {
        assert(out@ =~= old(out)@ + listing_stanza((nk@, e@)));
    }
}

impl Bibliography {
    /// A readable listing of the bibliography: `Bibliography {`, one block
    /// per entry in emission order under its normalized key, fields sorted by
    /// name and `raw` left out, then `}`.
    pub fn to_string(&self) -> (r: String)
        ensures
            r@ == "Bibliography {\n"@ + listing_text(emission_order(self@)) + "}\n"@,
    {
        let order = ordered(self);
        let ghost es = emission_order(self@);
        let mut out: Vec<char> = Vec::new();
        push_str(&mut out, "Bibliography {\n");
        let ghost head = out@;
        let mut i: usize = 0;
        while i < order.len()
            invariant
                i <= order.len(),
                forall|j: int| 0 <= j < order@.len() ==> (#[trigger] order@[j]).1 < self@.len(),
                es == order@.map_values(|q: (Vec<char>, usize)| (q.0@, self@[q.1 as int].1)),
                out@ == head + listing_text(es.subrange(0, i as int)),
            decreases order.len() - i,
        {
            proof {
                assert(es.subrange(0, i + 1).drop_last() =~= es.subrange(0, i as int));
            }
            let e = self.entry_at(order[i].1);
            listing_stanza_exec(&mut out, &order[i].0, e);
            proof {
                assert(out@ =~= head + listing_text(es.subrange(0, i + 1)));
            }
            i = i + 1;
        }
        proof {
            assert(es.subrange(0, i as int) =~= es);
        }
        push_str(&mut out, "}\n");
        string_of(&out)
    }
}


/// Why a survey cannot be made.
#[derive(Debug)]
pub enum BibExtractError {
    /// The list of paper identifiers is empty.
    NoPaperIdsProvided,
    /// A remote service or a task failed.
    ApiError(String),
}

/// A processed paper: its identifier, title and authors where known, its
/// related-work sections and its bibliography.
#[derive(Debug)]
pub struct Paper {
    pub id: String,
    pub title: String,
    pub authors: String,
    pub sections: Vec<ExtractedSection>,
    pub bibliography: Bibliography,
}

pub struct PaperView {
    pub id: Seq<char>,
    pub title: Seq<char>,
    pub authors: Seq<char>,
    pub sections: Seq<SectionView>,
    pub bib: BibView,
}

impl View for Paper {
    type V = PaperView;

    open spec fn view(&self) -> PaperView {
        PaperView {
            id: self.id@,
            title: self.title@,
            authors: self.authors@,
            sections: section_views(self.sections@),
            bib: self.bibliography@,
        }
    }
}

pub open spec fn paper_views(ps: Seq<Paper>) -> Seq<PaperView> {
    ps.map_values(|p: Paper| p@)
}

/// The bibliographies of the papers merged in order, the last processed
/// entry of a key winning.
pub open spec fn consolidated(ps: Seq<PaperView>) -> BibView
    decreases ps.len(),
{
    if ps.len() == 0 {
        seq![]
    } else {
        add_entries(consolidated(ps.drop_last()), ps.last().bib)
    }
}

pub open spec fn section_text(s: SectionView, bib: BibView) -> Seq<char> {
    "\\section{"@ + s.title + "}\n\n"@ + rewritten(s.content, bib) + "\n\n"@
}

pub open spec fn sections_text(ss: Seq<SectionView>, bib: BibView) -> Seq<char>
    decreases ss.len(),
{
    if ss.len() == 0 {
        seq![]
    } else {
        sections_text(ss.drop_last(), bib) + section_text(ss.last(), bib)
    }
}

pub open spec fn paper_text(p: PaperView, bib: BibView) -> Seq<char> {
    "% Paper ID: "@ + p.id + "\n% Title: "@ + p.title + "\n% Authors: "@ + p.authors + "\n\n"@
        + sections_text(p.sections, bib)
}

/// The survey: for each paper a header, then each of its sections with its
/// citations rewritten against the consolidated bibliography.
pub open spec fn survey_text(ps: Seq<PaperView>, bib: BibView) -> Seq<char>
    decreases ps.len(),
{
    if ps.len() == 0 {
        seq![]
    } else {
        survey_text(ps.drop_last(), bib) + paper_text(ps.last(), bib)
    }
}

/// The bibliographies of the papers merged into a fresh one, in order.
pub fn consolidate(papers: &Vec<Paper>) -> (r: Bibliography)
    ensures
        r@ == consolidated(paper_views(papers@)),
{
    let ghost pv = paper_views(papers@);
    let mut bib = Bibliography::new();
    let mut i: usize = 0;
    while i < papers.len()
        invariant
            i <= papers.len(),
            pv == paper_views(papers@),
            bib@ == consolidated(pv.subrange(0, i as int)),
        decreases papers.len() - i,
    {
        proof {
            assert(pv.subrange(0, i + 1).drop_last() =~= pv.subrange(0, i as int));
        }
        bib.merge_from(&papers[i].bibliography);
        i = i + 1;
    }
    proof {
        assert(pv.subrange(0, i as int) =~= pv);
    }
    bib
}

fn paper_text_exec(out: &mut Vec<char>, p: &Paper, bib: &Bibliography)
    ensures
        final(out)@ == old(out)@ + paper_text(p@, bib@),
{
    push_str(out, "% Paper ID: ");
    append_chars(out, &chars_of(p.id.as_str()));
    push_str(out, "\n% Title: ");
    append_chars(out, &chars_of(p.title.as_str()));
    push_str(out, "\n% Authors: ");
    append_chars(out, &chars_of(p.authors.as_str()));
    push_str(out, "\n\n");
    let ghost head = out@;
    let ghost ss = section_views(p.sections@);
    let mut i: usize = 0;
    while i < p.sections.len()
        invariant
            i <= p.sections.len(),
            ss == section_views(p.sections@),
            out@ == head + sections_text(ss.subrange(0, i as int), bib@),
        decreases p.sections.len() - i,
    {
        proof {
            assert(ss.subrange(0, i + 1).drop_last() =~= ss.subrange(0, i as int));
        }
        let sec = &p.sections[i];
        push_str(out, "\\section{");
        append_chars(out, &chars_of(sec.title.as_str()));
        push_str(out, "}\n\n");
        let (normalized, _) = bib.normalize_citations(sec.content.as_str());
        append_chars(out, &chars_of(normalized.as_str()));
        push_str(out, "\n\n");
        proof {
            assert(out@ =~= head + sections_text(ss.subrange(0, i + 1), bib@));
        }
        i = i + 1;
    }
    proof {
        assert(ss.subrange(0, i as int) =~= ss);
        assert(out@ =~= old(out)@ + paper_text(p@, bib@));
    }
}

/// The survey text and the BibTeX bibliography of the papers: their
/// bibliographies are merged in order, each paper's sections follow a header
/// with their citations rewritten against the merged bibliography, which is
/// rendered as BibTeX. An empty list of identifiers is an error.
pub fn extract_survey_internal(paper_ids: &Vec<String>, papers: &Vec<Paper>) -> (r: Result<
    (String, String),
    BibExtractError,
>)
    ensures
        paper_ids@.len() == 0 <==> r matches Err(BibExtractError::NoPaperIdsProvided),
        r is Ok ==> (r matches Ok((text, bibtex)) && text@ == survey_text(
            paper_views(papers@),
            consolidated(paper_views(papers@)),
        ) && bibtex@ == bibtex_text(emission_order(consolidated(paper_views(papers@))))),
        paper_ids@.len() > 0 ==> r is Ok,
{
    if paper_ids.len() == 0 {
        return Err(BibExtractError::NoPaperIdsProvided);
    }
    let bib = consolidate(papers);
    let ghost pv = paper_views(papers@);
    let mut out: Vec<char> = Vec::new();
    let mut i: usize = 0;
    while i < papers.len()
        invariant
            i <= papers.len(),
            pv == paper_views(papers@),
            bib@ == consolidated(pv),
            out@ == survey_text(pv.subrange(0, i as int), bib@),
        decreases papers.len() - i,
    {
        proof {
            assert(pv.subrange(0, i + 1).drop_last() =~= pv.subrange(0, i as int));
        }
        paper_text_exec(&mut out, &papers[i], &bib);
        i = i + 1;
    }
    proof {
        assert(pv.subrange(0, i as int) =~= pv);
    }
    let bibtex = format_bibliography_as_bibtex(&bib);
    Ok((string_of(&out), bibtex))
}

} // verus!
