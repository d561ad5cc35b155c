//! Bibliography extraction for LaTeX papers: a parser for `thebibliography`
//! blocks, content-derived citation keys, extraction of related-work
//! sections, the decisions of the two-source verification of entries, and
//! the rendering of a consolidated survey and bibliography.
pub mod text;
pub mod entry;
pub mod bibliography;
pub mod keys;
pub mod citations;
pub mod bbl;
pub mod sections;
pub mod matching;
pub mod fieldmap;
pub mod verification;
pub mod survey;
pub mod requests;
pub mod includes;

pub use bibliography::Bibliography;
pub use includes::{include_names, input_candidates, splice_includes};
pub use entry::{BibEntry, BibEntryBuilder, StrMap};
pub use keys::clean_text;
pub use matching::DblpHit;
pub use requests::{Answer, arxiv_answer, arxiv_record_url, dblp_answer, dblp_query, dblp_search_url};
pub use sections::{ExtractedSection, extract_sections_from_latex, related_work_section};
pub use survey::{BibExtractError, Paper, consolidate, extract_survey_internal,
    format_bibliography_as_bibtex};
