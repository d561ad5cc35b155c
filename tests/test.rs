use bibextract::{extract_sections_from_latex, BibEntry, Bibliography};

#[test]
fn test_bib_entry_builder() {
    let entry = BibEntry::builder("key", "article")
        .field("author", "Doe, John")
        .field("title", "A Title")
        .field("year", "2024")
        .build();

    assert_eq!(entry.key, "key");
    assert_eq!(entry.entry_type, "article");
    assert_eq!(entry.get("author"), Some(&"Doe, John".to_string()));
    assert_eq!(entry.get("title"), Some(&"A Title".to_string()));
    assert_eq!(entry.get("year"), Some(&"2024".to_string()));
}

#[test]
fn test_normalize_citation_key() {
    let mut bib = Bibliography::new();
    let entry = BibEntry::builder("key", "article")
        .field("author", "Doe, John and Smith, Jane")
        .field("title", "A Great Paper on Science")
        .field("year", "2024")
        .build();
    bib.insert(entry.clone());

    let normalized_key = bib.normalize_citation_key(&entry);
    assert_eq!(normalized_key, "doe_great_paper_science_2024");
}

#[test]
fn test_extract_arxiv_id() {
    let mut bib = Bibliography::new();
    let entry = BibEntry::builder("key", "article")
        .field("title", "A Paper with arXiv:2401.12345")
        .build();
    bib.insert(entry.clone());

    let arxiv_id = bib.extract_arxiv_id(&entry);
    assert_eq!(arxiv_id, Some("2401.12345".to_string()));
}

#[test]
fn test_normalize_citations() {
    let mut bib = Bibliography::new();
    let entry = BibEntry::builder("key1", "article")
        .field("author", "Doe, John")
        .field("title", "A Title")
        .field("year", "2024")
        .build();
    bib.insert(entry);

    let content = r"\cite{key1}";
    let (normalized_content, key_map) = bib.normalize_citations(content);

    assert_eq!(normalized_content, r"\cite{doe_title_2024}");
    assert_eq!(key_map.get("key1"), Some(&"doe_title_2024".to_string()));
}

#[test]
fn test_extract_sections() {
    let content = r#"
\section{Introduction}
This is the introduction.
\subsection{Background}
Some background information.
\section{Conclusion}
This is the conclusion.
"#;
    let bibliography = Bibliography::new();
    let sections = extract_sections_from_latex(content, &bibliography);
    assert_eq!(sections.len(), 1);
    assert_eq!(sections[0].title, "Background");
}
