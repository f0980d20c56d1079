use vstd::prelude::*;
use std::collections::HashMap;
use crate::error::Result;

verus! {

/// An author of a cited work.
#[derive(Clone, Debug)]
pub struct Author {
    /// The family name (surname).
    pub family_name: String,
    /// The given name (first name).
    pub given_name: String,
    /// An optional affiliation.
    pub affiliation: Option<String>,
}

/// The text of an optional string, if any.
pub open spec fn opt_view(o: Option<String>) -> Option<Seq<char>> {
    match o {
        Some(s) => Some(s@),
        None => None,
    }
}

/// Whether two optional strings hold the same text, or are both absent.
pub fn opt_str_eq(a: &Option<String>, b: &Option<String>) -> (r: bool)
    ensures
        r == (opt_view(*a) == opt_view(*b)),
{
    match a {
        Some(x) => match b {
            Some(y) => {
                let e = x.eq(y);
                proof {
                    if x@ == y@ {
                        assert(opt_view(*a) == opt_view(*b));
                    } else {
                        assert(opt_view(*a)->0 != opt_view(*b)->0);
                    }
                }
                e
            },
            None => false,
        },
        None => b.is_none(),
    }
}

impl PartialEq for Author {
    fn eq(&self, other: &Author) -> (r: bool) {
        self.family_name.eq(&other.family_name) && self.given_name.eq(&other.given_name)
            && opt_str_eq(&self.affiliation, &other.affiliation)
    }
}

impl vstd::std_specs::cmp::PartialEqSpecImpl for Author {
    open spec fn obeys_eq_spec() -> bool {
        true
    }

    open spec fn eq_spec(&self, other: &Author) -> bool {
        self.family_name@ == other.family_name@ && self.given_name@ == other.given_name@
            && opt_view(self.affiliation) == opt_view(other.affiliation)
    }
}

/// A bibliographic record in the canonical schema.
#[derive(Clone, Debug)]
pub struct Citation {
    pub id: String,
    /// Type tags of the work, in source order.
    pub citation_type: Vec<String>,
    /// Title of the work; empty when the source had none.
    pub title: String,
    /// Authors in order of appearance.
    pub authors: Vec<Author>,
    pub journal: Option<String>,
    pub journal_abbr: Option<String>,
    /// Publication year.
    pub year: Option<i32>,
    pub volume: Option<String>,
    pub issue: Option<String>,
    pub pages: Option<String>,
    pub issn: Vec<String>,
    /// Digital Object Identifier.
    pub doi: Option<String>,
    /// PubMed identifier.
    pub pmid: Option<String>,
    pub pmc_id: Option<String>,
    pub abstract_text: Option<String>,
    pub keywords: Vec<String>,
    pub urls: Vec<String>,
    pub language: Option<String>,
    pub mesh_terms: Vec<String>,
    pub publisher: Option<String>,
    /// Fields that the schema has no named slot for.
    pub extra_fields: HashMap<String, Vec<String>>,
    /// Where the record came from, as the parser tagged it.
    pub source: Option<String>,
}

impl Default for Citation {
    fn default() -> (r: Citation)
        ensures
            r.id@.len() == 0,
            r.citation_type@.len() == 0,
            r.title@.len() == 0,
            r.authors@.len() == 0,
            r.journal is None,
            r.journal_abbr is None,
            r.year is None,
            r.volume is None,
            r.issue is None,
            r.pages is None,
            r.issn@.len() == 0,
            r.doi is None,
            r.pmid is None,
            r.pmc_id is None,
            r.abstract_text is None,
            r.keywords@.len() == 0,
            r.urls@.len() == 0,
            r.language is None,
            r.mesh_terms@.len() == 0,
            r.publisher is None,
            r.extra_fields@ == Map::<String, Vec<String>>::empty(),
            r.source is None,
    {
        Citation {
            id: String::new(),
            citation_type: Vec::new(),
            title: String::new(),
            authors: Vec::new(),
            journal: None,
            journal_abbr: None,
            year: None,
            volume: None,
            issue: None,
            pages: None,
            issn: Vec::new(),
            doi: None,
            pmid: None,
            pmc_id: None,
            abstract_text: None,
            keywords: Vec::new(),
            urls: Vec::new(),
            language: None,
            mesh_terms: Vec::new(),
            publisher: None,
            extra_fields: HashMap::new(),
            source: None,
        }
    }
}

/// The data of an author, as texts.
pub open spec fn author_view(a: Author) -> (Seq<char>, Seq<char>, Option<Seq<char>>) {
    (a.family_name@, a.given_name@, opt_view(a.affiliation))
}

/// The data of a list of authors, in order.
pub open spec fn authors_view(v: Seq<Author>) -> Seq<(Seq<char>, Seq<char>, Option<Seq<char>>)> {
    v.map_values(|a: Author| author_view(a))
}

/// Whether two records hold the same data in every field.
pub open spec fn same_record(a: Citation, b: Citation) -> bool {
    &&& a.id@ == b.id@
    &&& a.citation_type@ == b.citation_type@
    &&& a.title@ == b.title@
    &&& authors_view(a.authors@) == authors_view(b.authors@)
    &&& opt_view(a.journal) == opt_view(b.journal)
    &&& opt_view(a.journal_abbr) == opt_view(b.journal_abbr)
    &&& a.year == b.year
    &&& opt_view(a.volume) == opt_view(b.volume)
    &&& opt_view(a.issue) == opt_view(b.issue)
    &&& opt_view(a.pages) == opt_view(b.pages)
    &&& a.issn@ == b.issn@
    &&& opt_view(a.doi) == opt_view(b.doi)
    &&& opt_view(a.pmid) == opt_view(b.pmid)
    &&& opt_view(a.pmc_id) == opt_view(b.pmc_id)
    &&& opt_view(a.abstract_text) == opt_view(b.abstract_text)
    &&& a.keywords@ == b.keywords@
    &&& a.urls@ == b.urls@
    &&& opt_view(a.language) == opt_view(b.language)
    &&& a.mesh_terms@ == b.mesh_terms@
    &&& opt_view(a.publisher) == opt_view(b.publisher)
    &&& a.extra_fields@ == b.extra_fields@
    &&& opt_view(a.source) == opt_view(b.source)
}

fn copy_opt(o: &Option<String>) -> (r: Option<String>)
    ensures
        opt_view(r) == opt_view(*o),
{
    match o {
        Some(s) => Some(s.clone()),
        None => None,
    }
}

fn copy_strings(v: &Vec<String>) -> (r: Vec<String>)
    ensures
        r@ == v@,
{
    let mut out: Vec<String> = Vec::new();
    let mut i: usize = 0;
    while i < v.len()
        invariant
            i <= v@.len(),
            out@ == v@.take(i as int),
        decreases v@.len() - i,
    {
        out.push(v[i].clone());
        assert(out@ =~= v@.take(i + 1));
        i = i + 1;
    }
    assert(v@.take(v@.len() as int) =~= v@);
    out
}

/// A copy of an author with the same data.
pub fn copy_author(a: &Author) -> (r: Author)
    ensures
        author_view(r) == author_view(*a),
{
    Author {
        family_name: a.family_name.clone(),
        given_name: a.given_name.clone(),
        affiliation: copy_opt(&a.affiliation),
    }
}

fn copy_authors(v: &Vec<Author>) -> (r: Vec<Author>)
    ensures
        authors_view(r@) == authors_view(v@),
{
    let mut out: Vec<Author> = Vec::new();
    let mut i: usize = 0;
    while i < v.len()
        invariant
            i <= v@.len(),
            authors_view(out@) == authors_view(v@.take(i as int)),
        decreases v@.len() - i,
    {
        let a = copy_author(&v[i]);
        proof {
            assert(authors_view(out@.push(a)) =~= authors_view(out@).push(author_view(a)));
            assert(authors_view(v@.take(i + 1)) =~= authors_view(v@.take(i as int)).push(
                author_view(v@[i as int]),
            ));
        }
        out.push(a);
        i = i + 1;
    }
    assert(v@.take(v@.len() as int) =~= v@);
    out
}

/// A copy of a record with the same data in every field.
pub fn copy_citation(c: &Citation) -> (r: Citation)
    ensures
        same_record(r, *c),
{
    Citation {
        id: c.id.clone(),
        citation_type: copy_strings(&c.citation_type),
        title: c.title.clone(),
        authors: copy_authors(&c.authors),
        journal: copy_opt(&c.journal),
        journal_abbr: copy_opt(&c.journal_abbr),
        year: c.year,
        volume: copy_opt(&c.volume),
        issue: copy_opt(&c.issue),
        pages: copy_opt(&c.pages),
        issn: copy_strings(&c.issn),
        doi: copy_opt(&c.doi),
        pmid: copy_opt(&c.pmid),
        pmc_id: copy_opt(&c.pmc_id),
        abstract_text: copy_opt(&c.abstract_text),
        keywords: copy_strings(&c.keywords),
        urls: copy_strings(&c.urls),
        language: copy_opt(&c.language),
        mesh_terms: copy_strings(&c.mesh_terms),
        publisher: copy_opt(&c.publisher),
        extra_fields: c.extra_fields.clone(),
        source: copy_opt(&c.source),
    }
}

/// A cluster of records judged to describe one work: its representative and the rest.
#[derive(Clone, Debug)]
pub struct DuplicateGroup {
    /// The representative record of the cluster.
    pub unique: Citation,
    /// The other records of the cluster.
    pub duplicates: Vec<Citation>,
}

/// A reader of one bibliographic format.
pub trait CitationParser {
    /// Parses every record that `input` holds.
    fn parse(&self, input: &str) -> Result<Vec<Citation>>;
}

} // verus!
