use bibextract::{
    arxiv_answer, arxiv_record_url, clean_text, consolidate, dblp_answer, dblp_query,
    dblp_search_url, extract_sections_from_latex, extract_survey_internal,
    format_bibliography_as_bibtex, related_work_section, Answer, BibEntry, Bibliography, DblpHit,
    Paper,
};

fn entry(key: &str, fields: &[(&str, &str)]) -> BibEntry {
    let mut b = BibEntry::builder(key, "article");
    for (name, value) in fields {
        b = b.field(name, value);
    }
    b.build()
}

fn hit(title: &str, year: &str, authors: &[&str]) -> DblpHit {
    DblpHit {
        title: Some(title.to_string()),
        year: Some(year.to_string()),
        venue: None,
        url: None,
        volume: None,
        doi: None,
        authors: Some(authors.iter().map(|a| a.to_string()).collect()),
    }
}

#[test]
fn key_from_author_list_joined_by_and() {
    let bib = Bibliography::new();
    let e = entry(
        "k",
        &[
            ("author", "John Smith and Jane Doe"),
            ("year", "2020"),
            ("title", "Important Discoveries in Science"),
        ],
    );
    let key = bib.normalize_citation_key(&e);
    assert!(key.contains("smith"));
    assert!(key.contains("2020"));
    assert!(key.contains("important") || key.contains("discoveries"));
    assert_eq!(key, "smith_important_discoveries_science_2020");
}

#[test]
fn key_of_entry_without_fields_is_unknown() {
    let bib = Bibliography::new();
    let e = BibEntry::new("k".to_string(), "article".to_string());
    assert_eq!(bib.normalize_citation_key(&e), "unknown");
}

#[test]
fn key_with_blank_author_is_not_empty() {
    let bib = Bibliography::new();
    let e = entry("k", &[("author", "")]);
    assert_eq!(bib.normalize_citation_key(&e), "unknown");
    let e = entry("k", &[("author", "Ann Lee et al."), ("year", "1999")]);
    assert_eq!(bib.normalize_citation_key(&e), "lee_1999");
}

#[test]
fn key_depends_on_author_title_year_only() {
    let bib = Bibliography::new();
    let a = entry("first", &[("author", "Doe, John"), ("title", "A Title"), ("year", "2024")]);
    let key = bib.normalize_citation_key(&a);
    let b = entry(&key, &[("author", "Doe, John"), ("title", "A Title"), ("year", "2024")]);
    assert_eq!(bib.normalize_citation_key(&b), key);
    assert_eq!(bib.normalize_citation_key(&a), key);
}

#[test]
fn clean_text_drops_punctuation_and_lowercases() {
    assert_eq!(clean_text("Hello, World!"), "hello_world");
    assert_eq!(clean_text("  A--B  c "), "a_b_c");
    assert_eq!(clean_text(""), "");
}

const FOUR_ITEMS: &str = r"\begin{thebibliography}{4}
\bibitem[\protect\citeauthoryear{\em Smith}{2019}]{smith2019}
John Smith.
\newblock A first paper.
\bibitem[\protect\citeauthoryear{\em Doe}{2020}]{doe2020}
Jane Doe.
\newblock A second paper.
\bibitem[\protect\citeauthoryear{\em Lee}{2021}]{lee2021}
Ann Lee.
\newblock A third paper.
\bibitem[\protect\citeauthoryear{\em Kim}{2022}]{kim2022}
Bo Kim.
\newblock A fourth paper.
\end{thebibliography}
";

#[test]
fn parse_bbl_four_protected_items() {
    let bib = Bibliography::parse_bbl(FOUR_ITEMS);
    assert_eq!(bib.len(), 4);
    assert_eq!(bib.get("smith2019").unwrap().get("year"), Some(&"2019".to_string()));
    assert_eq!(bib.get("doe2020").unwrap().get("year"), Some(&"2020".to_string()));
    assert_eq!(bib.get("lee2021").unwrap().get("year"), Some(&"2021".to_string()));
    assert_eq!(bib.get("kim2022").unwrap().get("year"), Some(&"2022".to_string()));
    let e = bib.get("doe2020").unwrap();
    assert_eq!(e.get("author"), Some(&"Jane Doe.".to_string()));
    assert_eq!(e.get("title"), Some(&"A second paper".to_string()));
    assert_eq!(e.entry_type, "article");
}

#[test]
fn parse_bbl_drops_fragment_without_key() {
    let text = r"\begin{thebibliography}{2}
\bibitem no key on this line
Somebody.
\bibitem{good}
Author Name.
\newblock Title here.
\newblock Venue, 2018.
\end{thebibliography}";
    let bib = Bibliography::parse_bbl(text);
    assert_eq!(bib.len(), 1);
    let e = bib.get("good").unwrap();
    assert_eq!(e.get("year"), Some(&"2018".to_string()));
    assert_eq!(e.get("title"), Some(&"Title here".to_string()));
    assert_eq!(e.get("author"), Some(&"Author Name.".to_string()));
}

#[test]
fn parse_bbl_without_markers_is_empty() {
    assert_eq!(Bibliography::parse_bbl(r"\bibitem{a} x").len(), 0);
    assert_eq!(
        Bibliography::parse_bbl(r"\end{thebibliography} \begin{thebibliography} \bibitem{a}").len(),
        0
    );
}

#[test]
fn parse_bbl_later_duplicate_wins_and_keys_from_line_end() {
    let text = r"\begin{thebibliography}{3}
\bibitem[Doe(2001)]{dup}
First Author.
\bibitem{dup}
Second Author.
\bibitem[Lee et al.(1999)]{lee99}
Lee, in 1999 and 2005 editions
\end{thebibliography}";
    let bib = Bibliography::parse_bbl(text);
    assert_eq!(bib.len(), 2);
    assert_eq!(bib.get("dup").unwrap().get("author"), Some(&"Second Author.".to_string()));
    assert_eq!(bib.get("lee99").unwrap().get("year"), Some(&"1999".to_string()));
}

#[test]
fn citation_of_absent_key_is_unchanged() {
    let mut bib = Bibliography::new();
    bib.insert(entry("key1", &[("author", "Doe, John"), ("title", "A Title"), ("year", "2024")]));
    let (text, map) = bib.normalize_citations(r"see \cite{nokey} and \citep{key1, other}.");
    assert_eq!(text, r"see \cite{nokey} and \citep{doe_title_2024, other}.");
    assert_eq!(map.len(), 1);
    assert_eq!(map.get("key1"), Some(&"doe_title_2024".to_string()));
    assert_eq!(map.get("nokey"), None);
    let (same, empty) = bib.normalize_citations(r"\cite{} \ref{key1} \cite{absent}");
    assert_eq!(same, r"\cite{} \ref{key1} \cite{absent}");
    assert_eq!(empty.len(), 0);
}

#[test]
fn sections_collect_sorted_distinct_citations() {
    let body = r"\section{Related Work}
Prior art \cite{b, a} and \citet{a}.
\section{Method}
\subsection{Literature review of methods}
More \citeauthor{c}.";
    let bib = Bibliography::new();
    let sections = extract_sections_from_latex(body, &bib);
    assert_eq!(sections.len(), 2);
    assert_eq!(sections[0].title, "Related Work");
    assert_eq!(sections[0].citations, vec!["a".to_string(), "b".to_string()]);
    assert_eq!(sections[0].content, r"Prior art \cite{b, a} and \citet{a}.");
    assert_eq!(sections[1].title, "Literature review of methods");
    assert_eq!(sections[1].citations, vec!["c".to_string()]);
}

#[test]
fn related_work_titles() {
    assert!(related_work_section("RELATED WORK"));
    assert!(related_work_section("Background and Motivation"));
    assert!(!related_work_section("Introduction"));
    assert!(!related_work_section(""));
}

#[test]
fn strong_candidate_is_selected_and_disjoint_one_rejected() {
    let bib = Bibliography::new();
    let e = entry(
        "k",
        &[
            ("author", "Ann Bo Cy Dee Eve and Fay"),
            ("title", "Exact Title"),
            ("year", "2021"),
        ],
    );
    let strong = vec![hit("Exact Title", "2021", &["Ann Bo", "Cy Dee Eve"])];
    assert!(bib.find_best_match_in_dblp(&strong, &e).is_some());
    let disjoint = vec![hit("Unrelated Words Here", "1990", &["Zed Quinn"])];
    assert!(bib.find_best_match_in_dblp(&disjoint, &e).is_none());
}

#[test]
fn incomplete_candidate_means_no_match() {
    let bib = Bibliography::new();
    let e = entry("k", &[("author", "A B"), ("title", "Exact Title"), ("year", "2021")]);
    let mut broken = hit("Other", "2021", &[]);
    broken.year = None;
    let hits = vec![hit("Exact Title", "2021", &["A B"]), broken];
    assert!(bib.find_best_match_in_dblp(&hits, &e).is_none());
}

#[test]
fn entry_without_title_or_identifier_is_not_verified() {
    let bib = Bibliography::new();
    let mut e = entry("smith2020", &[("author", "John Smith")]);
    assert_eq!(bib.extract_arxiv_id(&e), None);
    assert_eq!(dblp_query(&e), None);
    assert!(!bib.verify_entry(&mut e, None, None));
    assert_eq!(e.get("verified_source"), None);
    assert_eq!(e.get("author"), Some(&"John Smith".to_string()));
}

#[test]
fn archive_record_wins_over_index() {
    let bib = Bibliography::new();
    let mut e = entry(
        "2101.00001",
        &[("title", "Old"), ("raw", "raw text"), ("author", "X"), ("year", "2020")],
    );
    assert_eq!(bib.extract_arxiv_id(&e), Some("2101.00001".to_string()));
    let record = "@misc{arxivkey, title = {New Title}, author = {Y Z}, raw = {dropped}}";
    let hits = vec![hit("Old", "2020", &["X"])];
    assert!(bib.verify_entry(&mut e, Some(record), Some(&hits)));
    assert_eq!(e.get("title"), Some(&"New Title".to_string()));
    assert_eq!(e.get("author"), Some(&"Y Z".to_string()));
    assert_eq!(e.get("raw"), Some(&"raw text".to_string()));
    assert_eq!(e.get("verified_source"), Some(&"arXiv".to_string()));
    assert_eq!(e.key, "2101.00001");
}

#[test]
fn index_candidate_fills_fields() {
    let bib = Bibliography::new();
    let mut e = entry(
        "k",
        &[
            ("author", "Jane Roe"),
            ("title", "Graph Methods"),
            ("year", "2019"),
            ("verified_source", "stale"),
        ],
    );
    let mut h = hit("Graph Methods", "2019", &["Jane Roe 0001", "Max Moe"]);
    h.venue = Some("Conf".to_string());
    h.doi = Some("10.1/x".to_string());
    let hits = vec![h];
    assert!(bib.verify_entry(&mut e, Some("not a record"), Some(&hits)));
    assert_eq!(e.get("author"), Some(&"Jane Roe and Max Moe".to_string()));
    assert_eq!(e.get("booktitle"), Some(&"Conf".to_string()));
    assert_eq!(e.get("doi"), Some(&"10.1/x".to_string()));
    assert_eq!(e.get("verified_source"), Some(&"DBLP".to_string()));
}

#[test]
fn arxiv_identifier_in_note() {
    let bib = Bibliography::new();
    let e = entry("k", &[("note", "see arXiv: 2312.4567v2")]);
    assert_eq!(bib.extract_arxiv_id(&e), Some("2312.4567".to_string()));
    let e = entry("k", &[("journal", "arXiv preprint")]);
    assert_eq!(bib.extract_arxiv_id(&e), None);
}

#[test]
fn answers_of_the_services() {
    assert_eq!(arxiv_answer(200, "@misc{a, author = {x}, title = {y}}"), Answer::Usable);
    assert_eq!(arxiv_answer(200, "<html>none</html>"), Answer::NoMatch);
    assert_eq!(arxiv_answer(404, "@ author title"), Answer::NoMatch);
    assert_eq!(arxiv_answer(503, ""), Answer::Retry);
    assert_eq!(dblp_answer(200, Some("3"), 2), Answer::Usable);
    assert_eq!(dblp_answer(200, Some("+7"), 1), Answer::Usable);
    assert_eq!(dblp_answer(200, Some("0"), 0), Answer::NoMatch);
    assert_eq!(dblp_answer(200, Some("5"), 0), Answer::NoMatch);
    assert_eq!(dblp_answer(200, Some("99999999999"), 3), Answer::NoMatch);
    assert_eq!(dblp_answer(200, Some("-2"), 3), Answer::NoMatch);
    assert_eq!(dblp_answer(200, None, 3), Answer::NoMatch);
    assert_eq!(dblp_answer(500, Some("3"), 3), Answer::Retry);
    assert_eq!(dblp_answer(429, Some("3"), 3), Answer::NoMatch);
}

#[test]
fn request_urls() {
    let e = entry("k", &[("title", "Deep {L}earning *now*")]);
    assert_eq!(dblp_query(&e), Some("Deep+Learning+now".to_string()));
    assert_eq!(
        dblp_search_url("https://dblp.org", &e),
        Some("https://dblp.org/search/publ/api?q=Deep+Learning+now&format=json".to_string())
    );
    assert_eq!(arxiv_record_url("https://arxiv.org", "2104.08653"), "https://arxiv.org/bibtex/2104.08653");
}

#[test]
fn bibtex_rendering_sorts_and_strips() {
    let mut bib = Bibliography::new();
    bib.insert(entry("zzz", &[("author", "Doe, John"), ("title", "{A} Title"), ("raw", "x")]));
    bib.insert(entry("aaa", &[("author", "Roe, Max")]));
    let text = format_bibliography_as_bibtex(&bib);
    assert_eq!(
        text,
        "@article{doe_title,\n  author = {Doe, John},\n  title = {A Title},\n}\n\n@article{roe,\n  author = {Roe, Max},\n}\n\n"
    );
    let listing = bib.to_string();
    assert_eq!(
        listing,
        "Bibliography {\n  doe_title: article {\n    author: \"Doe, John\",\n    title: \"{A} Title\",\n  }\n  roe: article {\n    author: \"Roe, Max\",\n  }\n}\n"
    );
}

#[test]
fn survey_of_two_papers() {
    let mut b1 = Bibliography::new();
    b1.insert(entry("k1", &[("author", "Doe, John"), ("year", "2001")]));
    let mut b2 = Bibliography::new();
    b2.insert(entry("k1", &[("author", "Roe, Max"), ("year", "2002")]));
    let sections = extract_sections_from_latex(r"\section{Related Work} See \cite{k1}.", &b1);
    let papers = vec![
        Paper {
            id: "1".to_string(),
            title: "T1".to_string(),
            authors: "A1".to_string(),
            sections,
            bibliography: b1,
        },
        Paper {
            id: "2".to_string(),
            title: "T2".to_string(),
            authors: "A2".to_string(),
            sections: Vec::new(),
            bibliography: b2,
        },
    ];
    assert_eq!(consolidate(&papers).len(), 1);
    let (text, bibtex) = extract_survey_internal(&vec!["1".to_string(), "2".to_string()], &papers).unwrap();
    assert_eq!(
        text,
        "% Paper ID: 1\n% Title: T1\n% Authors: A1\n\n\\section{Related Work}\n\nSee \\cite{roe_2002}.\n\n% Paper ID: 2\n% Title: T2\n% Authors: A2\n\n"
    );
    assert_eq!(bibtex, "@article{roe_2002,\n  author = {Roe, Max},\n  year = {2002},\n}\n\n");
}

#[test]
fn verified_entries_are_written_back() {
    let mut bib = Bibliography::new();
    bib.insert(entry("a", &[("title", "Old")]));
    let stored = bib.apply_verified(vec![entry("a", &[("title", "New")]), entry("b", &[])]);
    assert_eq!(stored, 1);
    assert_eq!(bib.len(), 1);
    assert_eq!(bib.get("a").unwrap().get("title"), Some(&"New".to_string()));
}

#[test]
fn entries_iterate_in_key_order() {
    let mut bib = Bibliography::new();
    bib.insert(entry("b", &[]));
    bib.insert(entry("a", &[]));
    bib.insert(entry("b", &[("title", "Again")]));
    let keys: Vec<String> = bib.iter().map(|e| e.key.clone()).collect();
    assert_eq!(keys, vec!["a".to_string(), "b".to_string()]);
    assert_eq!(bib.iter().nth(1).unwrap().get("title"), Some(&"Again".to_string()));
}

#[test]
fn builder_sets_fields_in_turn() {
    let e = bibextract::BibEntryBuilder::new("k", "book")
        .fields(vec![
            ("year".to_string(), "1999".to_string()),
            ("title".to_string(), "First".to_string()),
            ("title".to_string(), "Second".to_string()),
        ])
        .build();
    assert_eq!(e.entry_type, "book");
    assert_eq!(e.get("title"), Some(&"Second".to_string()));
    assert_eq!(e.get("year"), Some(&"1999".to_string()));
    assert_eq!(e.fields.len(), 2);
}
