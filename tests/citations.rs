use biblib::dedupe::{find_duplicate_indices, Deduplicator, DeduplicatorConfig};
use biblib::edit::edit_distance;
use biblib::normalize::normalize;
use biblib::score::{author_key_of, identifiers_match, score};
use biblib::select::{completeness_of, select_best};
use biblib::tokens::{jaccard_index, split_words};
use biblib::{Author, Citation, CitationError};

fn author(family: &str, given: &str) -> Author {
    Author { family_name: family.to_string(), given_name: given.to_string(), affiliation: None }
}

fn cite(title: &str, year: Option<i32>, doi: Option<&str>, source: Option<&str>) -> Citation {
    Citation {
        title: title.to_string(),
        year,
        doi: doi.map(|d| d.to_string()),
        source: source.map(|s| s.to_string()),
        ..Default::default()
    }
}

fn chars(s: &str) -> Vec<char> {
    s.chars().collect()
}

fn config(group_by_year: bool, run_in_parallel: bool, prefs: &[&str]) -> DeduplicatorConfig {
    DeduplicatorConfig {
        group_by_year,
        run_in_parallel,
        source_preferences: prefs.iter().map(|s| s.to_string()).collect(),
    }
}

#[test]
fn test_citation_error_display() {
    let error = CitationError::InvalidFormat("Invalid line".to_string());
    assert_eq!(error.to_string(), "Parse error: Invalid line");
}

#[test]
fn test_author_equality() {
    let author1 = Author {
        family_name: "Smith".to_string(),
        given_name: "John".to_string(),
        affiliation: None,
    };
    let author2 = Author {
        family_name: "Smith".to_string(),
        given_name: "John".to_string(),
        affiliation: None,
    };
    assert_eq!(author1, author2);
}

#[test]
fn author_inequality_on_affiliation() {
    let mut a = author("Smith", "John");
    let b = author("Smith", "John");
    a.affiliation = Some("Oxford".to_string());
    assert_ne!(a, b);
}

#[test]
fn error_messages() {
    assert_eq!(CitationError::MissingField("title".to_string()).to_string(), "Missing required field: title");
    assert_eq!(
        CitationError::InvalidFieldValue { field: "year".to_string(), message: "not a number".to_string() }
            .to_string(),
        "Invalid field value: year - not a number"
    );
    assert_eq!(
        CitationError::MalformedInput { message: "bad tag".to_string(), line: 42 }.to_string(),
        "Malformed input: bad tag at line 42"
    );
    assert_eq!(
        CitationError::MalformedInput { message: "x".to_string(), line: 0 }.to_string(),
        "Malformed input: x at line 0"
    );
    assert_eq!(CitationError::Other("oops".to_string()).to_string(), "Error: oops");
    let io = CitationError::from(std::io::Error::new(std::io::ErrorKind::Other, "disk gone"));
    assert_eq!(io.to_string(), "IO error: disk gone");
}

#[test]
fn normalize_folds_and_collapses() {
    assert_eq!(normalize("  Héllo,  World-Wide\tStudy. "), "hello world-wide study");
    assert_eq!(normalize("\"Quoted\" TITLE"), "quoted title");
    assert_eq!(normalize(""), "");
    assert_eq!(normalize(" .,; "), "");
}

#[test]
fn normalize_is_idempotent() {
    for s in ["  Héllo,  World-Wide\tStudy. ", "Effects of X on Y: A Study", "Ñandú  Ärger", "-a- b"] {
        let once = normalize(s);
        assert_eq!(normalize(&once), once);
    }
}

#[test]
fn author_keys_use_initials() {
    let k1: String = author_key_of(&author("Smith", "J.")).into_iter().collect();
    let k2: String = author_key_of(&author("Smith", "John")).into_iter().collect();
    assert_eq!(k1, "smith j");
    assert_eq!(k1, k2);
    let k3: String = author_key_of(&author("Müller", "")).into_iter().collect();
    assert_eq!(k3, "muller");
}

#[test]
fn edit_distance_values() {
    assert_eq!(edit_distance(&chars("kitten"), &chars("sitting")), 3);
    assert_eq!(edit_distance(&chars(""), &chars("abc")), 3);
    assert_eq!(edit_distance(&chars("abc"), &chars("abc")), 0);
}

#[test]
fn jaccard_of_words() {
    let a = split_words(&chars("effects of x on y"));
    let b = split_words(&chars("effects of x on y a study"));
    assert_eq!(a.len(), 5);
    assert_eq!(jaccard_index(&a, &b), 714);
    let c = split_words(&chars("a a b"));
    let d = split_words(&chars("b"));
    assert_eq!(jaccard_index(&c, &d), 500);
    assert_eq!(jaccard_index(&Vec::new(), &Vec::new()), 0);
}

#[test]
fn doi_comparison_ignores_case_and_spaces() {
    let a = cite("A", None, Some("10.1/ABC"), None);
    let b = cite("B", None, Some(" 10.1/abc"), None);
    let c = cite("C", None, Some(""), None);
    let d = cite("D", None, Some(""), None);
    assert!(identifiers_match(&a, &b));
    assert!(!identifiers_match(&c, &d));
    assert!(!identifiers_match(&a, &c));
}

#[test]
fn score_is_symmetric() {
    let mut a = cite("Effects of X on Y", Some(2015), None, None);
    a.authors = vec![author("Smith", "J."), author("Doe", "A")];
    a.journal = Some("Nature".to_string());
    let mut b = cite("Effects of Z on Y", Some(2016), None, None);
    b.authors = vec![author("Smith", "John")];
    b.journal_abbr = Some("nature".to_string());
    let ab = score(&a, &b);
    let ba = score(&b, &a);
    assert_eq!(ab.composite, ba.composite);
    assert_eq!(ab.is_duplicate, ba.is_duplicate);
}

#[test]
fn identifier_match_scores_full() {
    let a = cite("Completely different", Some(1990), Some("10.5/q"), None);
    let b = cite("Nothing alike at all", Some(2020), Some("10.5/Q"), None);
    let r = score(&a, &b);
    assert_eq!(r.composite, 1000);
    assert!(r.is_duplicate);
}

#[test]
fn identifier_match_clusters_without_year_partition() {
    let cs = vec![
        cite("Completely different", Some(1990), Some("10.5/q"), None),
        cite("Nothing alike at all", Some(2020), Some("10.5/q"), None),
    ];
    let groups = find_duplicate_indices(&cs, false, &Vec::new());
    assert_eq!(groups.len(), 1);
    assert_eq!(groups[0].unique, 0);
    assert_eq!(groups[0].duplicates, vec![1]);
}

#[test]
fn pmid_match_clusters() {
    let mut a = cite("One", Some(2001), None, None);
    let mut b = cite("Two", Some(2001), None, None);
    a.pmid = Some("12345".to_string());
    b.pmid = Some("12345".to_string());
    let groups = find_duplicate_indices(&[a, b], true, &Vec::new());
    assert_eq!(groups.len(), 1);
}

#[test]
fn blank_records_do_not_cluster() {
    let mut a = cite("", None, None, None);
    a.authors = vec![author("Smith", "J")];
    a.journal = Some("Lancet".to_string());
    let mut b = cite("", None, None, None);
    b.authors = vec![author("Jones", "K")];
    b.journal = Some("Lancet".to_string());
    assert!(!score(&a, &b).is_duplicate);
    let groups = find_duplicate_indices(&[a, b], false, &Vec::new());
    assert!(groups.is_empty());
}

#[test]
fn parallel_flag_does_not_change_groups() {
    let cs = vec![
        cite("Foo Bar Study", Some(2020), Some("10.1/x"), Some("PubMed")),
        cite("Other Work", Some(1999), None, None),
        cite("Foo Bar Study.", Some(2020), Some("10.1/x"), Some("Scholar")),
        cite("Other Work", Some(1999), None, Some("Scholar")),
    ];
    let seq = Deduplicator::new().with_config(config(true, false, &["Scholar"]));
    let par = Deduplicator::new().with_config(config(true, true, &["Scholar"]));
    let a = seq.find_duplicates(&cs).unwrap();
    let b = par.find_duplicates(&cs).unwrap();
    assert_eq!(a.len(), 2);
    assert_eq!(a.len(), b.len());
    for (x, y) in a.iter().zip(b.iter()) {
        assert_eq!(x.unique.title, y.unique.title);
        assert_eq!(x.unique.source, y.unique.source);
        assert_eq!(x.duplicates.len(), y.duplicates.len());
    }
    assert_eq!(a[0].unique.title, "Foo Bar Study.");
    assert_eq!(a[1].unique.source.as_deref(), Some("Scholar"));
}

#[test]
fn year_partition_keeps_years_apart() {
    let cs = vec![
        cite("Same title here", Some(2019), Some("10.9/z"), None),
        cite("Same title here", Some(2020), Some("10.9/z"), None),
    ];
    assert!(find_duplicate_indices(&cs, true, &Vec::new()).is_empty());
    assert_eq!(find_duplicate_indices(&cs, false, &Vec::new()).len(), 1);
}

#[test]
fn clusters_are_transitive() {
    let cs = vec![
        cite("A", Some(2000), Some("10.1/a"), None),
        cite("B", Some(2000), Some("10.1/a"), None),
        cite("C", Some(2000), None, None),
    ];
    let mut cs = cs;
    cs[1].pmid = Some("77".to_string());
    cs[2].pmid = Some("77".to_string());
    let groups = find_duplicate_indices(&cs, true, &Vec::new());
    assert_eq!(groups.len(), 1);
    assert_eq!(groups[0].unique, 1);
    assert_eq!(groups[0].duplicates, vec![0, 2]);
    assert!(!score(&cs[0], &cs[2]).is_duplicate);
}

#[test]
fn selection_is_deterministic() {
    let cs = vec![
        cite("T", Some(2000), None, Some("B")),
        cite("T", Some(2000), None, Some("A")),
        cite("T", Some(2000), None, Some("C")),
    ];
    let prefs = vec!["A".to_string(), "B".to_string()];
    let members = vec![0, 1, 2];
    let first = select_best(&cs, &prefs, &members);
    assert_eq!(first, 1);
    for _ in 0..3 {
        assert_eq!(select_best(&cs, &prefs, &members), first);
    }
}

#[test]
fn scenario_doi_group_with_preferred_source() {
    let cs = vec![
        cite("Foo Bar Study", Some(2020), Some("10.1/x"), Some("PubMed")),
        cite("Foo Bar Study.", Some(2020), Some("10.1/x"), Some("Scholar")),
        cite("Other Work", Some(1999), None, None),
    ];
    let d = Deduplicator::new().with_config(config(true, false, &["PubMed", "Scholar"]));
    let groups = d.find_duplicates(&cs).unwrap();
    assert_eq!(groups.len(), 1);
    assert_eq!(groups[0].unique.source.as_deref(), Some("PubMed"));
    assert_eq!(groups[0].unique.title, "Foo Bar Study");
    assert_eq!(groups[0].duplicates.len(), 1);
    assert_eq!(groups[0].duplicates[0].source.as_deref(), Some("Scholar"));
    assert!(groups.iter().all(|g| g.unique.title != "Other Work"
        && g.duplicates.iter().all(|c| c.title != "Other Work")));
}

#[test]
fn scenario_subtitle_variant_clusters() {
    let mut a = cite("Effects of X on Y", Some(2015), None, None);
    a.authors = vec![author("Smith", "J.")];
    let mut b = cite("Effects of X on Y: A Study", Some(2015), None, None);
    b.authors = vec![author("Smith", "J.")];
    let r = score(&a, &b);
    assert_eq!(r.composite, 841);
    assert!(r.is_duplicate);
    let groups = find_duplicate_indices(&[a, b], true, &Vec::new());
    assert_eq!(groups.len(), 1);
    assert_eq!(groups[0].unique, 0);
    assert_eq!(groups[0].duplicates, vec![1]);
}

#[test]
fn scenario_unlisted_sources_fall_back_to_completeness() {
    let a = cite("Shared", Some(2010), Some("10.2/s"), Some("A"));
    let mut b = cite("Shared", Some(2010), Some("10.2/s"), Some("B"));
    b.volume = Some("12".to_string());
    assert_eq!(completeness_of(&a), 4);
    assert_eq!(completeness_of(&b), 5);
    let no_prefs: Vec<String> = Vec::new();
    let cs = vec![a.clone(), b.clone()];
    assert_eq!(select_best(&cs, &no_prefs, &vec![0, 1]), 1);
    let d = Deduplicator::new().with_config(config(true, false, &[]));
    let groups = d.find_duplicates(&cs).unwrap();
    assert_eq!(groups[0].unique.source.as_deref(), Some("B"));
    let tie = vec![a.clone(), cite("Shared", Some(2010), Some("10.2/s"), Some("B"))];
    assert_eq!(select_best(&tie, &no_prefs, &vec![0, 1]), 0);
    let groups = d.find_duplicates(&tie).unwrap();
    assert_eq!(groups[0].unique.source.as_deref(), Some("A"));
    assert_eq!(groups[0].duplicates[0].source.as_deref(), Some("B"));
}

#[test]
fn default_citation_is_empty() {
    let c = Citation::default();
    assert!(c.title.is_empty());
    assert!(c.authors.is_empty());
    assert_eq!(c.year, None);
    assert_eq!(completeness_of(&c), 0);
    let d = DeduplicatorConfig::default();
    assert!(d.group_by_year);
    assert!(!d.run_in_parallel);
}

#[test]
fn copies_keep_every_field() {
    let mut c = cite("Title", Some(1999), Some("10.3/c"), Some("Src"));
    c.authors = vec![author("Smith", "J")];
    c.keywords = vec!["k".to_string()];
    c.extra_fields.insert("N1".to_string(), vec!["note".to_string()]);
    let d = biblib::model::copy_citation(&c);
    assert_eq!(d.title, c.title);
    assert_eq!(d.authors, c.authors);
    assert_eq!(d.keywords, c.keywords);
    assert_eq!(d.extra_fields, c.extra_fields);
    assert_eq!(d.source, c.source);
    assert_eq!(d.doi, c.doi);
}

#[test]
fn outside_errors_become_invalid_format() {
    let attr = quick_xml::events::attributes::AttrError::ExpectedEq(3);
    let attr_text = attr.to_string();
    match CitationError::from(attr) {
        CitationError::InvalidFormat(m) => {
            assert_eq!(m, attr_text);
            assert!(!m.is_empty());
        }
        _ => panic!("expected InvalidFormat"),
    }
    let xml = quick_xml::Error::InvalidAttr(quick_xml::events::attributes::AttrError::ExpectedEq(5));
    let xml_text = xml.to_string();
    match CitationError::from(xml) {
        CitationError::InvalidFormat(m) => assert_eq!(m, xml_text),
        _ => panic!("expected InvalidFormat"),
    }
    let mut reader = csv::Reader::from_reader("a,b\n1\n".as_bytes());
    let err = reader.records().next().unwrap().unwrap_err();
    let csv_text = err.to_string();
    match CitationError::from(err) {
        CitationError::InvalidFormat(m) => assert_eq!(m, csv_text),
        _ => panic!("expected InvalidFormat"),
    }
}

#[test]
fn groups_follow_partition_order() {
    let cs = vec![
        cite("Alpha", Some(2020), None, None),
        cite("Beta", Some(1999), None, None),
        cite("Gamma", Some(2020), None, None),
        cite("Beta", Some(1999), None, None),
        cite("Gamma", Some(2020), None, None),
        cite("Alpha", Some(2020), None, None),
    ];
    let by_year = find_duplicate_indices(&cs, true, &Vec::new());
    let uniques: Vec<usize> = by_year.iter().map(|g| g.unique).collect();
    assert_eq!(uniques, vec![0, 2, 1]);
    assert_eq!(by_year[0].duplicates, vec![5]);
    let flat = find_duplicate_indices(&cs, false, &Vec::new());
    let uniques: Vec<usize> = flat.iter().map(|g| g.unique).collect();
    assert_eq!(uniques, vec![0, 1, 2]);
}

#[test]
fn blank_dois_still_take_the_fast_path() {
    let a = cite("", None, Some(" "), None);
    let b = cite("", None, Some(" "), None);
    assert!(identifiers_match(&a, &b));
    assert!(score(&a, &b).is_duplicate);
    let c = cite("", None, None, None);
    assert!(!identifiers_match(&a, &c));
}

#[test]
fn completeness_counts_id_source_and_extra_fields() {
    let a = cite("", None, None, Some("A"));
    let mut b = cite("", None, None, Some("B"));
    b.id = "7".to_string();
    assert_eq!(completeness_of(&a), 1);
    assert_eq!(completeness_of(&b), 2);
    b.extra_fields.insert("N1".to_string(), vec!["x".to_string()]);
    assert_eq!(completeness_of(&b), 3);
    let cs = vec![a, b];
    assert_eq!(select_best(&cs, &Vec::new(), &vec![0, 1]), 1);
}

#[test]
fn journal_abbreviation_matches_full_name() {
    let mut a = cite("A study of enzymes", Some(2001), None, None);
    a.journal = Some("Journal of Biological Chemistry".to_string());
    let mut b = cite("A study of enzymes", Some(2001), None, None);
    b.journal_abbr = Some("J. Biol. Chem.".to_string());
    let mut c = cite("A study of enzymes", Some(2001), None, None);
    c.journal = Some("Nature".to_string());
    // title 1000, year 1000, journal 1000 or 0
    assert_eq!(score(&a, &b).composite, 1000);
    assert_eq!(score(&b, &a).composite, 1000);
    assert_eq!(score(&a, &c).composite, (50 * 1000 + 15 * 1000) / 75);
}
