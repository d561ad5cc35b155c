use bibextract::{include_names, input_candidates, splice_includes, Bibliography};

#[test]
fn include_directives_are_listed_in_order() {
    let text = r"intro \input{sec/a} mid \include{b.tex} \input{} end \inputx{c}";
    assert_eq!(include_names(text), vec!["sec/a".to_string(), "b.tex".to_string()]);
    assert!(include_names("no directives").is_empty());
}

#[test]
fn directives_are_replaced_by_included_text() {
    let text = "Main file content.\n\\input{included}\nEnd.";
    assert_eq!(
        splice_includes(text, &vec!["Included file content.".to_string()]),
        "Main file content.\nIncluded file content.\nEnd."
    );
    assert_eq!(splice_includes(text, &Vec::new()), "Main file content.\n\nEnd.");
}

#[test]
fn candidates_for_an_included_name() {
    assert_eq!(input_candidates("included"), vec!["included".to_string(), "included.tex".to_string()]);
    assert_eq!(input_candidates("included.tex"), vec!["included.tex".to_string()]);
}

#[test]
fn reference_lists_merge_later_wins() {
    let first = "\\begin{thebibliography}{1}\n\\bibitem{a}\nFirst.\n\\bibitem{b}\nB.\n\\end{thebibliography}".to_string();
    let second = "\\begin{thebibliography}{1}\n\\bibitem{a}\nSecond.\n\\end{thebibliography}".to_string();
    let merged = Bibliography::parse_bibliography_files(&vec![first, "unreadable junk".to_string(), second]);
    assert_eq!(merged.len(), 2);
    assert_eq!(merged.get("a").unwrap().get("author"), Some(&"Second.".to_string()));
    assert_eq!(merged.get("b").unwrap().get("author"), Some(&"B.".to_string()));
}
