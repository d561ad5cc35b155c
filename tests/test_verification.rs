use bibextract::{BibEntry, Bibliography, DblpHit};

fn entry(key: &str, fields: &[(&str, &str)]) -> BibEntry {
    let mut b = BibEntry::builder(key, "article");
    for (name, value) in fields {
        b = b.field(name, value);
    }
    b.build()
}

fn hit(title: &str, year: &str, authors: &[&str]) -> DblpHit {
    DblpHit {
        title: Some(title.to_string()),
        year: Some(year.to_string()),
        venue: None,
        url: None,
        volume: None,
        doi: None,
        authors: Some(authors.iter().map(|a| a.to_string()).collect()),
    }
}

#[test]
fn test_verify_from_dblp_successful_match() {
    let bib = Bibliography::new();
    let entry = entry(
        "test_key",
        &[
            ("author", "Smith, Alice"),
            ("title", "Machine Learning Advances"),
            ("year", "2023"),
        ],
    );
    let mut h = hit("Machine Learning Advances", "2023", &["Smith, Alice"]);
    h.venue = Some("AI Conference".to_string());
    h.doi = Some("10.1000/example".to_string());
    let hits = vec![h];

    let best_match = bib.find_best_match_in_dblp(&hits, &entry);
    assert!(best_match.is_some());

    let matched_entry = best_match.unwrap();
    assert_eq!(matched_entry.title.as_deref().unwrap(), "Machine Learning Advances");
    assert_eq!(matched_entry.year.as_deref().unwrap(), "2023");
}

#[test]
fn test_find_best_match_title_substring() {
    let bib = Bibliography::new();
    let entry = entry(
        "key",
        &[
            ("author", "Wilson, Robert"),
            ("title", "Deep Learning for Natural Language Processing"),
            ("year", "2023"),
        ],
    );
    let hits = vec![hit("Deep Learning", "2023", &["Wilson, Robert"])];

    let best_match = bib.find_best_match_in_dblp(&hits, &entry);
    assert!(best_match.is_some());
}

#[test]
fn test_find_best_match_low_score_threshold() {
    let bib = Bibliography::new();
    let entry = entry(
        "key",
        &[("author", "Anderson, Mark"), ("title", "Quantum Computing"), ("year", "2022")],
    );
    let hits = vec![hit("Completely Different Topic", "2020", &["Different, Author"])];

    let best_match = bib.find_best_match_in_dblp(&hits, &entry);
    assert!(best_match.is_none());
}

#[test]
fn test_parse_bibtex_multiline_fields() {
    let bib = Bibliography::new();
    let bibtex_str = r#"@article{multiline2024,
            author = {First Author and 
                        Second Author},
            title = {A Very Long Title That Spans
                        Multiple Lines},
            journal = {Journal Name},
            year = {2024}
        }"#;
    let entry = bib.parse_bibtex_entry(bibtex_str);
    assert!(entry.is_some());
    let entry = entry.unwrap();
    assert_eq!(entry.key, "multiline2024");
    assert!(entry.get("title").is_some());
}

#[test]
fn test_parse_bibtex_with_numbers_in_values() {
    let bib = Bibliography::new();
    let bibtex_str = r#"@article{numbers2024,
            author = "Author Name",
            title = "Paper with Numbers 123 and Symbols @#$",
            volume = "42",
            pages = "123--456",
            year = "2024"
        }"#;
    let entry = bib.parse_bibtex_entry(bibtex_str).unwrap();
    assert_eq!(entry.get("volume"), Some(&"42".to_string()));
    assert_eq!(entry.get("pages"), Some(&"123--456".to_string()));
}

#[test]
fn test_find_best_match_multiple_hits_best_score() {
    let bib = Bibliography::new();
    let entry = entry(
        "key",
        &[
            ("author", "Garcia, Maria"),
            ("title", "Artificial Intelligence Applications"),
            ("year", "2023"),
        ],
    );
    let hits = vec![
        hit("AI Applications", "2023", &["Different, Author"]),
        hit("Artificial Intelligence Applications", "2023", &["Garcia, Maria"]),
    ];

    let best_match = bib.find_best_match_in_dblp(&hits, &entry);
    assert!(best_match.is_some());
    let matched = best_match.unwrap();
    assert_eq!(matched.title.as_deref().unwrap(), "Artificial Intelligence Applications");
}

#[test]
fn test_parse_bibtex_nested_braces() {
    let bib = Bibliography::new();
    let bibtex_str = r#"@inproceedings{nested2024,
            title = {Paper about {Machine Learning} and {Deep {Neural} Networks}},
            author = {Author Name},
            booktitle = {Conference on {AI} and {ML}},
            year = {2024}
        }"#;
    let entry = bib.parse_bibtex_entry(bibtex_str);
    assert!(entry.is_some());
    let entry = entry.unwrap();
    assert_eq!(entry.key, "nested2024");
    assert!(entry.get("title").is_some());
    let title = entry.get("title").unwrap();
    assert!(title.contains("Machine Learning"));
}

#[test]
fn test_find_best_match_author_word_matching() {
    let bib = Bibliography::new();
    let entry = entry(
        "key",
        &[
            ("author", "John Michael Smith and Mary Elizabeth Johnson"),
            ("title", "Research Study"),
            ("year", "2023"),
        ],
    );
    let hits = vec![hit("Different Study", "2023", &["John Smith", "Mary Johnson"])];

    let best_match = bib.find_best_match_in_dblp(&hits, &entry);
    assert!(best_match.is_some());
}

#[test]
fn test_parse_bibtex_empty_fields() {
    let bib = Bibliography::new();
    let bibtex_str = r#"@article{empty2024,
            author = "",
            title = "Valid Title",
            note = {},
            year = "2024"
        }"#;
    let entry = bib.parse_bibtex_entry(bibtex_str).unwrap();
    assert_eq!(entry.get("author"), Some(&"".to_string()));
    assert_eq!(entry.get("note"), Some(&"".to_string()));
    assert_eq!(entry.get("title"), Some(&"Valid Title".to_string()));
}

#[test]
fn test_parse_bibtex_entry() {
    let bib = Bibliography::new();
    let bibtex_str = r#"@inproceedings{test2023,
        author = {Smith, Jane and Brown, Bob},
        title = {Advanced Topics in {Machine Learning}},
        year = {2023},
        booktitle = {Proceedings of AI Conference}
    }"#;
    let entry = bib.parse_bibtex_entry(bibtex_str).unwrap();
    assert_eq!(entry.key, "test2023");
    assert_eq!(entry.entry_type, "inproceedings");
    assert_eq!(entry.get("title"), Some(&"Advanced Topics in {Machine Learning}".to_string()));
    assert_eq!(entry.get("booktitle"), Some(&"Proceedings of AI Conference".to_string()));
}

#[test]
fn test_parse_bibtex_entry_invalid() {
    let bib = Bibliography::new();
    let invalid_bibtex = "not a valid bibtex entry";
    let entry = bib.parse_bibtex_entry(invalid_bibtex);
    assert!(entry.is_none());
}

#[test]
fn test_find_best_match_in_dblp() {
    let bib = Bibliography::new();
    let entry = entry(
        "key",
        &[
            ("author", "Doe, John and Smith, Jane"),
            ("title", "A Great Paper on Science"),
            ("year", "2024"),
        ],
    );
    let mut h = hit("A Great Paper on Science", "2024", &["Doe, John", "Smith, Jane"]);
    h.venue = Some("A Prestigious Journal".to_string());
    h.url = Some("https://example.com/paper".to_string());
    let hits = vec![h];

    let best_match = bib.find_best_match_in_dblp(&hits, &entry).unwrap();
    assert_eq!(best_match.title.as_deref().unwrap(), "A Great Paper on Science");
    assert_eq!(best_match.year.as_deref().unwrap(), "2024");
}

#[test]
fn test_find_best_match_in_dblp_no_match() {
    let bib = Bibliography::new();
    let entry = entry(
        "key",
        &[
            ("author", "Johnson, Peter"),
            ("title", "A Completely Different Paper"),
            ("year", "2023"),
        ],
    );
    let mut h = hit("A Great Paper on Science", "2024", &["Doe, John", "Smith, Jane"]);
    h.venue = Some("A Prestigious Journal".to_string());
    h.url = Some("https://example.com/paper".to_string());
    let hits = vec![h];

    let best_match = bib.find_best_match_in_dblp(&hits, &entry);
    assert!(best_match.is_none());
}

#[test]
fn test_find_best_match_partial_title_match() {
    let bib = Bibliography::new();
    let entry = entry(
        "key",
        &[
            ("author", "Doe, John"),
            ("title", "Machine Learning in Computer Vision"),
            ("year", "2024"),
        ],
    );
    let hits = vec![hit("Machine Learning in Computer Vision Applications", "2024", &["Doe, John"])];

    let best_match = bib.find_best_match_in_dblp(&hits, &entry);
    assert!(best_match.is_some());
}

#[test]
fn test_find_best_match_year_mismatch() {
    let bib = Bibliography::new();
    let entry = entry(
        "key",
        &[("author", "Doe, John"), ("title", "A Paper"), ("year", "2020")],
    );
    let hits = vec![hit("Different Paper", "2024", &["Smith, Jane"])];

    let best_match = bib.find_best_match_in_dblp(&hits, &entry);
    assert!(best_match.is_none());
}

#[test]
fn test_find_best_match_empty_results() {
    let bib = Bibliography::new();
    let entry = entry("key", &[("title", "Some Title"), ("year", "2024")]);
    let hits: Vec<DblpHit> = Vec::new();

    let best_match = bib.find_best_match_in_dblp(&hits, &entry);
    assert!(best_match.is_none());
}

#[test]
fn test_parse_bibtex_mixed_quotes_braces() {
    let bib = Bibliography::new();
    let bibtex_str = r#"@book{mixedtest,
    author = "Author Name",
    title = {Book Title with {Special} Characters},
    publisher = "Publisher Name",
    year = {2024}
    }"#;
    let entry = bib.parse_bibtex_entry(bibtex_str).unwrap();
    assert_eq!(entry.entry_type, "book");
    assert_eq!(entry.get("author"), Some(&"Author Name".to_string()));
    assert_eq!(entry.get("publisher"), Some(&"Publisher Name".to_string()));
}

#[test]
fn test_find_best_match_author_scoring() {
    let bib = Bibliography::new();
    let entry = entry(
        "key",
        &[
            (
                "author",
                "Alice Smith and Bob Johnson and Carol Williams and David Brown and Eve Davis",
            ),
            ("title", "Research Paper"),
            ("year", "2024"),
        ],
    );
    let hits = vec![hit(
        "Different Research Paper",
        "2024",
        &["Alice Smith", "Bob Johnson", "Carol Williams"],
    )];

    let best_match = bib.find_best_match_in_dblp(&hits, &entry);
    assert!(best_match.is_some());

    assert_eq!(entry.key, "key");
    assert_eq!(entry.entry_type, "article");
    assert_eq!(
        entry.get("author"),
        Some(&"Alice Smith and Bob Johnson and Carol Williams and David Brown and Eve Davis".to_string())
    );
    assert_eq!(entry.get("title"), Some(&"Research Paper".to_string()));
    assert_eq!(entry.get("year"), Some(&"2024".to_string()));
}
