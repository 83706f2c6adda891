//! Metadata of one document, read off its path and its text.

use crate::pattern::{captures, regex_captures};
use crate::text::{split, split_on, trim, trim_text};
use vstd::prelude::*;

verus! {

/// The kind of source directory a document was found in.
#[derive(Clone, Copy, Debug, PartialEq, Eq, Structural)]
pub enum Category {
    Documentation,
    Changelog,
    Blog,
}

impl Category {
    /// The text a document of this category carries as its `source`.
    pub open spec fn label(self) -> Seq<char> {
        match self {
            Category::Documentation => "documentation"@,
            Category::Changelog => "changelog"@,
            Category::Blog => "blog"@,
        }
    }

    /// The category's `source` text.
    pub fn as_str(&self) -> (r: &'static str)
        ensures
            r@ == self.label(),
    {
        match self {
            Category::Documentation => "documentation",
            Category::Changelog => "changelog",
            Category::Blog => "blog",
        }
    }
}

/// A date and a version in a path: `YYYY-MM-DD-X.Y.Z`.
pub const DATE_VERSION_PATTERN: &'static str = r"(\d{4}-\d{2}-\d{2})-(\d+\.\d+\.\d+)";

/// A version marker in a document's text.
pub const VERSION_PATTERN: &'static str = r"version:\s*([\d.]+)";

/// A title marker in a document's text; the title runs to the end of the line.
pub const TITLE_PATTERN: &'static str = r"title:\s*(.+)";

/// A keyword list in a document's text.
pub const KEYWORDS_PATTERN: &'static str = r"keywords:\s*\[(.+)\]";

/// What is known of one document. A key that the document gave no value for
/// is `None`.
#[derive(Clone, Debug)]
pub struct Metadata {
    pub source: String,
    pub date: Option<String>,
    pub version: Option<String>,
    pub title: Option<String>,
    pub keywords: Option<Vec<String>>,
}

/// The mathematical content of a [`Metadata`].
pub ghost struct MetadataView {
    pub source: Seq<char>,
    pub date: Option<Seq<char>>,
    pub version: Option<Seq<char>>,
    pub title: Option<Seq<char>>,
    pub keywords: Option<Seq<Seq<char>>>,
}

impl View for Metadata {
    type V = MetadataView;

    open spec fn view(&self) -> MetadataView {
        MetadataView {
            source: self.source@,
            date: self.date.deep_view(),
            version: self.version.deep_view(),
            title: self.title.deep_view(),
            keywords: self.keywords.deep_view(),
        }
    }
}

/// The key under which a document's category is kept.
pub const SOURCE_KEY: &'static str = "source";

/// The key under which a document's date is kept.
pub const DATE_KEY: &'static str = "date";

/// The key under which a document's version is kept.
pub const VERSION_KEY: &'static str = "version";

/// The key under which a document's title is kept.
pub const TITLE_KEY: &'static str = "title";

/// The key under which a document's keywords are kept.
pub const KEYWORDS_KEY: &'static str = "keywords";

/// A value of the metadata: a text, or a list of texts.
#[derive(Clone, Debug, PartialEq, Eq)]
pub enum MetadataValue {
    Text(String),
    List(Vec<String>),
}

/// The mathematical content of a [`MetadataValue`].
pub ghost enum ValueView {
    Text(Seq<char>),
    List(Seq<Seq<char>>),
}

impl View for MetadataValue {
    type V = ValueView;

    open spec fn view(&self) -> ValueView {
        match self {
            MetadataValue::Text(text) => ValueView::Text(text@),
            MetadataValue::List(list) => ValueView::List(list.deep_view()),
        }
    }
}

impl DeepView for MetadataValue {
    type V = ValueView;

    open spec fn deep_view(&self) -> ValueView {
        self.view()
    }
}

/// The one entry of a text that is there, and none for one that is not.
pub open spec fn text_entry(key: Seq<char>, value: Option<Seq<char>>) -> Seq<
    (Seq<char>, ValueView),
> {
    match value {
        Some(text) => seq![(key, ValueView::Text(text))],
        None => Seq::empty(),
    }
}

/// The one entry of a list that is there, and none for one that is not.
pub open spec fn list_entry(key: Seq<char>, value: Option<Seq<Seq<char>>>) -> Seq<
    (Seq<char>, ValueView),
> {
    match value {
        Some(list) => seq![(key, ValueView::List(list))],
        None => Seq::empty(),
    }
}

/// The metadata as keys with their values: the source first and always,
/// then the date, the version, the title and the keywords, each only where
/// the document has it.
pub open spec fn entries_of(m: MetadataView) -> Seq<(Seq<char>, ValueView)> {
    seq![(SOURCE_KEY@, ValueView::Text(m.source))] + text_entry(DATE_KEY@, m.date) + text_entry(
        VERSION_KEY@,
        m.version,
    ) + text_entry(TITLE_KEY@, m.title) + list_entry(KEYWORDS_KEY@, m.keywords)
}

/// Group `i` of a match, where there was a match and the group took part.
pub open spec fn group(caps: Option<Seq<Option<Seq<char>>>>, i: int) -> Option<Seq<char>> {
    match caps {
        Some(groups) => if 0 <= i < groups.len() {
            groups[i]
        } else {
            None
        },
        None => None,
    }
}

/// Group `i` of a match, read as empty text where it took no part.
pub open spec fn group_or_empty(caps: Option<Seq<Option<Seq<char>>>>, i: int) -> Seq<char> {
    match group(caps, i) {
        Some(text) => text,
        None => Seq::empty(),
    }
}

/// The keywords listed in `list`: its comma-separated pieces, each trimmed.
pub open spec fn keywords_of(list: Seq<char>) -> Seq<Seq<char>> {
    split(list, ',').map_values(|piece: Seq<char>| trim(piece))
}

/// The metadata that four matches give: `in_path` of the date-and-version
/// pattern in the document's path, the other three of the marker patterns in
/// its text. A version marker in the text wins over a version in the path.
pub open spec fn metadata_of(
    category: Category,
    in_path: Option<Seq<Option<Seq<char>>>>,
    version: Option<Seq<Option<Seq<char>>>>,
    title: Option<Seq<Option<Seq<char>>>>,
    keywords: Option<Seq<Option<Seq<char>>>>,
) -> MetadataView {
    MetadataView {
        source: category.label(),
        date: if in_path is Some {
            Some(group_or_empty(in_path, 1))
        } else {
            None
        },
        version: if group(version, 1) is Some {
            group(version, 1)
        } else if in_path is Some {
            Some(group_or_empty(in_path, 2))
        } else {
            None
        },
        title: group(title, 1),
        keywords: match group(keywords, 1) {
            Some(list) => Some(keywords_of(list)),
            None => None,
        },
    }
}

/// The metadata of a document, as a function of its category, its path and
/// its text: [`metadata_of`] the matches of the four patterns.
pub open spec fn extracted(
    category: Category,
    path: Seq<char>,
    content: Seq<char>,
) -> MetadataView {
    metadata_of(
        category,
        regex_captures(DATE_VERSION_PATTERN@, path),
        regex_captures(VERSION_PATTERN@, content),
        regex_captures(TITLE_PATTERN@, content),
        regex_captures(KEYWORDS_PATTERN@, content),
    )
}

/// Copies group `i` out of a match.
fn group_text(caps: &Option<Vec<Option<String>>>, i: usize) -> (r: Option<String>)
    ensures
        r.deep_view() == group(caps.deep_view(), i as int),
{
    match caps {
        Some(groups) => if i < groups.len() {
            groups[i].clone()
        } else {
            None
        },
        None => None,
    }
}

/// Splits a keyword list at its commas and trims each piece.
pub fn parse_keywords(list: &str) -> (r: Vec<String>)
    ensures
        r.deep_view() == keywords_of(list@),
{
    let pieces = split_on(list, ',');
    let mut r: Vec<String> = Vec::new();
    let mut i: usize = 0;
    while i < pieces.len()
        invariant
            i <= pieces@.len(),
            r@.len() == i,
            forall|j: int| 0 <= j < i ==> r@[j]@ == trim(pieces@[j]@),
        decreases pieces@.len() - i,
    {
        let piece = trim_text(pieces[i].as_str());
        r.push(piece);
        i += 1;
    }
    assert(r.deep_view() =~= pieces.deep_view().map_values(|piece: Seq<char>| trim(piece)));
    r
}

impl Metadata {
    /// Builds the metadata from the four matches; see [`metadata_of`].
    pub fn from_captures(
        category: Category,
        in_path: &Option<Vec<Option<String>>>,
        version: &Option<Vec<Option<String>>>,
        title: &Option<Vec<Option<String>>>,
        keywords: &Option<Vec<Option<String>>>,
    ) -> (m: Metadata)
        ensures
            m@ == metadata_of(
                category,
                in_path.deep_view(),
                version.deep_view(),
                title.deep_view(),
                keywords.deep_view(),
            ),
    {
        let mut date: Option<String> = None;
        let mut found_version: Option<String> = None;
        if in_path.is_some() {
            date = Some(text_or_empty(group_text(in_path, 1)));
            found_version = Some(text_or_empty(group_text(in_path, 2)));
        }
        let marked = group_text(version, 1);
        if marked.is_some() {
            found_version = marked;
        }
        let listed = match group_text(keywords, 1) {
            Some(list) => Some(parse_keywords(list.as_str())),
            None => None,
        };
        Metadata {
            source: category.as_str().to_owned(),
            date,
            version: found_version,
            title: group_text(title, 1),
            keywords: listed,
        }
    }

    /// The metadata as a list of keys with their values: see [`entries_of`].
    pub fn entries(&self) -> (r: Vec<(String, MetadataValue)>)
        ensures
            r.deep_view() == entries_of(self@),
    {
        let mut r: Vec<(String, MetadataValue)> = Vec::new();
        r.push((SOURCE_KEY.to_owned(), MetadataValue::Text(self.source.clone())));
        if let Some(date) = &self.date {
            r.push((DATE_KEY.to_owned(), MetadataValue::Text(date.clone())));
        }
        if let Some(version) = &self.version {
            r.push((VERSION_KEY.to_owned(), MetadataValue::Text(version.clone())));
        }
        if let Some(title) = &self.title {
            r.push((TITLE_KEY.to_owned(), MetadataValue::Text(title.clone())));
        }
        if let Some(keywords) = &self.keywords {
            let mut list: Vec<String> = Vec::new();
            let mut i: usize = 0;
            while i < keywords.len()
                invariant
                    i <= keywords@.len(),
                    list@.len() == i,
                    forall|j: int| 0 <= j < i ==> list@[j]@ == keywords@[j]@,
                decreases keywords@.len() - i,
            {
                list.push(keywords[i].clone());
                i += 1;
            }
            assert(list.deep_view() =~= keywords.deep_view());
            r.push((KEYWORDS_KEY.to_owned(), MetadataValue::List(list)));
        }
        assert(r.deep_view() =~= entries_of(self@));
        r
    }

    /// The metadata of the document at `path` with text `content`, found in
    /// a directory of the given category. It depends on these three alone.
    pub fn extract(category: Category, path: &str, content: &str) -> (m: Metadata)
        ensures
            m@ == extracted(category, path@, content@),
    {
        let in_path = captures(DATE_VERSION_PATTERN, path);
        let version = captures(VERSION_PATTERN, content);
        let title = captures(TITLE_PATTERN, content);
        let keywords = captures(KEYWORDS_PATTERN, content);
        Metadata::from_captures(category, &in_path, &version, &title, &keywords)
    }
}

fn text_or_empty(text: Option<String>) -> (r: String)
    ensures
        r@ == match text.deep_view() {
            Some(t) => t,
            None => Seq::empty(),
        },
{
    match text {
        Some(t) => t,
        None => String::new(),
    }
}

/// A path that holds a date and a version gives the document both, exactly
/// as they were captured, unless its text marks a version of its own.
pub proof fn lemma_path_gives_date_and_version(
    category: Category,
    path: Seq<char>,
    content: Seq<char>,
)
    requires
        regex_captures(DATE_VERSION_PATTERN@, path) is Some,
    ensures
        extracted(category, path, content).date == Some(
            group_or_empty(regex_captures(DATE_VERSION_PATTERN@, path), 1),
        ),
        group(regex_captures(VERSION_PATTERN@, content), 1) is None ==> extracted(
            category,
            path,
            content,
        ).version == Some(group_or_empty(regex_captures(DATE_VERSION_PATTERN@, path), 2)),
{
}

/// A version marked in the text is the document's version, whatever its
/// path holds.
pub proof fn lemma_marked_version_wins(category: Category, path: Seq<char>, content: Seq<char>)
    requires
        group(regex_captures(VERSION_PATTERN@, content), 1) is Some,
    ensures
        extracted(category, path, content).version == group(
            regex_captures(VERSION_PATTERN@, content),
            1,
        ),
{
}

/// A document in which none of the four patterns matches has its source and
/// nothing else.
pub proof fn lemma_no_markers_only_source(category: Category, path: Seq<char>, content: Seq<char>)
    requires
        regex_captures(DATE_VERSION_PATTERN@, path) is None,
        regex_captures(VERSION_PATTERN@, content) is None,
        regex_captures(TITLE_PATTERN@, content) is None,
        regex_captures(KEYWORDS_PATTERN@, content) is None,
    ensures
        extracted(category, path, content) == (MetadataView {
            source: category.label(),
            date: None,
            version: None,
            title: None,
            keywords: None,
        }),
{
}

/// No key occurs twice among the entries of a document's metadata.
pub proof fn lemma_entries_keys_unique(m: MetadataView)
    ensures
        forall|i: int, j: int|
            0 <= i < j < entries_of(m).len() ==> entries_of(m)[i].0 != entries_of(m)[j].0,
{
    reveal_strlit("source");
    reveal_strlit("date");
    reveal_strlit("version");
    reveal_strlit("title");
    reveal_strlit("keywords");
    assert(SOURCE_KEY@.len() == 6);
    assert(DATE_KEY@.len() == 4);
    assert(VERSION_KEY@.len() == 7);
    assert(TITLE_KEY@.len() == 5);
    assert(KEYWORDS_KEY@.len() == 8);
}

/// Metadata with the source alone has one entry, and the other way round.
pub proof fn lemma_only_source(m: MetadataView)
    ensures
        entries_of(m).len() == 1 <==> m.date is None && m.version is None && m.title is None
            && m.keywords is None,
{
}

} // verus!
