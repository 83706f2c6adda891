//! Turning converted source files into documents ready for indexing.

use crate::metadata::{extracted, Category, Metadata, MetadataView};
use crate::rollup::{rollup, rollup_text};
use crate::text::{
    chars_of, contains, contains_text, last_index, last_index_from, lemma_last_index, slice_of,
};
use vstd::prelude::*;
use vstd::string::StringExecFns;

verus! {

/// The file name that marks the page listing all versions.
pub const SUMMARY_MARKER: &'static str = "versions.md";

/// A directory of source files, all of one category.
#[derive(Clone, Debug)]
pub struct SourceDirectory {
    pub path: String,
    pub category: Category,
}

/// One source file after conversion to plain text: its path and the text
/// units it was converted to, in order.
#[derive(Clone, Debug)]
pub struct SourceFile {
    pub path: String,
    pub category: Category,
    pub units: Vec<String>,
}

/// The mathematical content of a [`SourceFile`].
pub ghost struct SourceFileView {
    pub path: Seq<char>,
    pub category: Category,
    pub units: Seq<Seq<char>>,
}

impl View for SourceFile {
    type V = SourceFileView;

    open spec fn view(&self) -> SourceFileView {
        SourceFileView {
            path: self.path@,
            category: self.category,
            units: self.units.deep_view(),
        }
    }
}

impl DeepView for SourceFile {
    type V = SourceFileView;

    open spec fn deep_view(&self) -> SourceFileView {
        self.view()
    }
}

/// A unit of text with what is known about it.
#[derive(Clone, Debug)]
pub struct Document {
    pub content: String,
    pub metadata: Metadata,
}

/// The mathematical content of a [`Document`].
pub ghost struct DocumentView {
    pub content: Seq<char>,
    pub metadata: MetadataView,
}

impl View for Document {
    type V = DocumentView;

    open spec fn view(&self) -> DocumentView {
        DocumentView { content: self.content@, metadata: self.metadata@ }
    }
}

impl DeepView for Document {
    type V = DocumentView;

    open spec fn deep_view(&self) -> DocumentView {
        self.view()
    }
}

/// The directory that holds the corpus in a development layout.
pub const DEVELOPMENT_ROOT: &'static str = "..";

/// The directory that holds the corpus in a packaged layout.
pub const PACKAGED_ROOT: &'static str = "pianorhythm-docs-bot-sources";

/// The directory that holds the corpus, by the layout the service runs in.
pub fn corpus_root(development: bool) -> (root: &'static str)
    ensures
        root@ == if development {
            DEVELOPMENT_ROOT@
        } else {
            PACKAGED_ROOT@
        },
{
    if development {
        DEVELOPMENT_ROOT
    } else {
        PACKAGED_ROOT
    }
}

/// The three source directories below `root`: documentation, changelog and
/// blog, in that order.
pub fn source_directories(root: &str) -> (dirs: Vec<SourceDirectory>)
    ensures
        dirs@.len() == 3,
        dirs@[0].path@ == root@ + "/docs"@,
        dirs@[0].category == Category::Documentation,
        dirs@[1].path@ == root@ + "/changelog"@,
        dirs@[1].category == Category::Changelog,
        dirs@[2].path@ == root@ + "/blog"@,
        dirs@[2].category == Category::Blog,
{
    let mut dirs: Vec<SourceDirectory> = Vec::new();
    dirs.push(
        SourceDirectory {
            path: String::from_str(root).concat("/docs"),
            category: Category::Documentation,
        },
    );
    dirs.push(
        SourceDirectory {
            path: String::from_str(root).concat("/changelog"),
            category: Category::Changelog,
        },
    );
    dirs.push(
        SourceDirectory { path: String::from_str(root).concat("/blog"), category: Category::Blog },
    );
    dirs
}

/// The last component of `path`: what follows its last `/`. No other
/// character separates components, and a path that ends in `/` has an
/// empty last component.
pub open spec fn file_name(path: Seq<char>) -> Seq<char> {
    path.skip(last_index(path, '/') + 1)
}

/// The extension of `path`: what follows the last `.` of its file name,
/// unless the name has no `.` or only a leading one.
///
/// On the path of a file with `/` between its components, as a walk of a
/// directory yields it on Unix, this is what `std::path::Path::extension`
/// gives. It is not on a path that ends in `/` or in `..`, nor where `\`
/// separates components, as on Windows.
pub open spec fn extension(path: Seq<char>) -> Option<Seq<char>> {
    let name = file_name(path);
    let dot = last_index(name, '.');
    if dot > 0 {
        Some(name.skip(dot + 1))
    } else {
        None
    }
}

/// Whether `path` names a file in a markup format that is ingested.
pub open spec fn is_markup(path: Seq<char>) -> bool {
    extension(path) == Some("md"@) || extension(path) == Some("mdx"@)
}

/// Whether `path` names the page that lists all versions.
pub open spec fn is_summary(path: Seq<char>) -> bool {
    contains(path, SUMMARY_MARKER@)
}

/// Reads the extension off `path`.
pub fn extension_of(path: &str) -> (r: Option<String>)
    ensures
        r.deep_view() == extension(path@),
{
    let chars = chars_of(path);
    let n = chars.len();
    proof {
        assert(chars@.skip(0) =~= chars@);
        lemma_last_index(path@, '/');
    }
    let start: usize = match last_index_from(&chars, 0, '/') {
        Some(slash) => slash + 1,
        None => 0,
    };
    proof {
        lemma_last_index(file_name(path@), '.');
    }
    match last_index_from(&chars, start, '.') {
        Some(dot) => {
            if dot > 0 {
                let r = slice_of(path, start + dot + 1, n);
                assert(r@ =~= file_name(path@).skip(dot + 1));
                Some(r)
            } else {
                None
            }
        },
        None => None,
    }
}

/// Tells whether `path` has one of the ingested extensions, `md` or `mdx`.
pub fn is_markup_path(path: &str) -> (b: bool)
    ensures
        b == is_markup(path@),
{
    match extension_of(path) {
        Some(ext) => ext == String::from_str("md") || ext == String::from_str("mdx"),
        None => false,
    }
}

/// Tells whether `path` names the page that lists all versions.
pub fn is_summary_path(path: &str) -> (b: bool)
    ensures
        b == is_summary(path@),
{
    contains_text(path, SUMMARY_MARKER)
}

/// Keeps the paths with an ingested extension, in their order.
pub fn markup_paths(paths: &Vec<String>) -> (kept: Vec<String>)
    ensures
        kept.deep_view() == paths.deep_view().filter(|p: Seq<char>| is_markup(p)),
{
    let mut kept: Vec<String> = Vec::new();
    let mut i: usize = 0;
    proof {
        assert(paths.deep_view().take(0) =~= Seq::<Seq<char>>::empty());
        assert(kept.deep_view() =~= Seq::<Seq<char>>::empty());
        reveal(Seq::filter);
    }
    while i < paths.len()
        invariant
            i <= paths@.len(),
            kept.deep_view() == paths.deep_view().take(i as int).filter(
                |p: Seq<char>| is_markup(p),
            ),
        decreases paths@.len() - i,
    {
        let ghost all = paths.deep_view();
        let ghost before = kept.deep_view();
        proof {
            let keep = |p: Seq<char>| is_markup(p);
            assert(all.take(i + 1) =~= all.take(i as int).push(all[i as int]));
            assert(all.take(i + 1).drop_last() =~= all.take(i as int));
            reveal(Seq::filter);
            assert(all.take(i + 1).filter(keep) == if keep(all[i as int]) {
                all.take(i as int).filter(keep).push(all[i as int])
            } else {
                all.take(i as int).filter(keep)
            });
        }
        if is_markup_path(paths[i].as_str()) {
            kept.push(paths[i].clone());
            assert(kept.deep_view() =~= before.push(all[i as int]));
        }
        i += 1;
    }
    assert(paths.deep_view().take(paths@.len() as int) =~= paths.deep_view());
    kept
}

/// The document made of one unit of a file. The page that lists all
/// versions gets `suffix` appended to its text; the metadata is read off the
/// unit's own path and text, and nothing else.
pub open spec fn document_of(
    category: Category,
    path: Seq<char>,
    unit: Seq<char>,
    suffix: Seq<char>,
) -> DocumentView {
    DocumentView {
        content: if is_summary(path) {
            unit + suffix
        } else {
            unit
        },
        metadata: extracted(category, path, unit),
    }
}

/// The documents of one file: one for each of its units, in order.
pub open spec fn file_documents(file: SourceFileView, suffix: Seq<char>) -> Seq<DocumentView> {
    Seq::new(
        file.units.len(),
        |i: int| document_of(file.category, file.path, file.units[i], suffix),
    )
}

/// The documents of all files, file after file.
pub open spec fn corpus_documents(files: Seq<SourceFileView>, suffix: Seq<char>) -> Seq<
    DocumentView,
>
    decreases files.len(),
{
    if files.len() == 0 {
        Seq::empty()
    } else {
        corpus_documents(files.drop_last(), suffix) + file_documents(files.last(), suffix)
    }
}

/// The versions that the given units of one file carry, in order; a unit
/// without a version adds nothing.
pub open spec fn versions_in(category: Category, path: Seq<char>, units: Seq<Seq<char>>) -> Seq<
    Seq<char>,
>
    decreases units.len(),
{
    if units.len() == 0 {
        Seq::empty()
    } else {
        let before = versions_in(category, path, units.drop_last());
        match extracted(category, path, units.last()).version {
            Some(version) => before.push(version),
            None => before,
        }
    }
}

/// The versions that a file adds to the summary: those of its units where it
/// is a changelog file, none otherwise.
pub open spec fn file_versions(file: SourceFileView) -> Seq<Seq<char>> {
    if file.category == Category::Changelog {
        versions_in(file.category, file.path, file.units)
    } else {
        Seq::empty()
    }
}

/// The versions of all changelog documents of the corpus, in the order of
/// ingestion.
pub open spec fn changelog_versions(files: Seq<SourceFileView>) -> Seq<Seq<char>>
    decreases files.len(),
{
    if files.len() == 0 {
        Seq::empty()
    } else {
        changelog_versions(files.drop_last()) + file_versions(files.last())
    }
}

/// What ingestion makes of a corpus: every unit becomes a document, and the
/// page that lists all versions ends with the summary of the versions of
/// the whole changelog, wherever in the corpus that page stands.
pub open spec fn ingested(files: Seq<SourceFileView>) -> Seq<DocumentView> {
    corpus_documents(files, rollup_text(changelog_versions(files)))
}

/// A document as it stands before the summary is appended, against the
/// document it is to become.
spec fn awaits(doc: DocumentView, flagged: bool, target: DocumentView, suffix: Seq<char>) -> bool {
    doc.metadata == target.metadata && target.content == if flagged {
        doc.content + suffix
    } else {
        doc.content
    }
}

/// Appends the documents of `file`, without the summary, notes for each
/// whether the summary is still to come, and collects the file's versions.
fn push_file(
    file: &SourceFile,
    docs: &mut Vec<Document>,
    flags: &mut Vec<bool>,
    versions: &mut Vec<String>,
    Ghost(suffix): Ghost<Seq<char>>,
)
    requires
        old(docs)@.len() == old(flags)@.len(),
    ensures
        final(docs)@.len() == old(docs)@.len() + file@.units.len(),
        final(flags)@.len() == final(docs)@.len(),
        forall|k: int|
            0 <= k < old(docs)@.len() ==> final(docs)@[k] == old(docs)@[k] && final(flags)@[k]
                == old(flags)@[k],
        forall|j: int|
            0 <= j < file@.units.len() ==> awaits(
                #[trigger] final(docs)@[old(docs)@.len() + j]@,
                final(flags)@[old(docs)@.len() + j],
                file_documents(file@, suffix)[j],
                suffix,
            ),
        final(versions).deep_view() == old(versions).deep_view() + file_versions(file@),
{
    let summary_page = is_summary_path(file.path.as_str());
    let changelog = file.category == Category::Changelog;
    let ghost base = docs@.len();
    let ghost units = file@.units;
    let mut j: usize = 0;
    proof {
        assert(units.take(0) =~= Seq::<Seq<char>>::empty());
        assert(versions.deep_view() + Seq::<Seq<char>>::empty() =~= versions.deep_view());
    }
    while j < file.units.len()
        invariant
            j <= file.units@.len(),
            units == file@.units,
            base == old(docs)@.len(),
            summary_page == is_summary(file.path@),
            changelog == (file.category == Category::Changelog),
            docs@.len() == base + j,
            flags@.len() == docs@.len(),
            forall|k: int|
                0 <= k < base ==> docs@[k] == old(docs)@[k] && flags@[k] == old(flags)@[k],
            forall|m: int|
                0 <= m < j ==> awaits(
                    #[trigger] docs@[base + m]@,
                    flags@[base + m],
                    file_documents(file@, suffix)[m],
                    suffix,
                ),
            versions.deep_view() == old(versions).deep_view() + if changelog {
                versions_in(file.category, file.path@, units.take(j as int))
            } else {
                Seq::empty()
            },
        decreases file.units@.len() - j,
    {
        let unit = &file.units[j];
        let metadata = Metadata::extract(file.category, file.path.as_str(), unit.as_str());
        proof {
            assert(units[j as int] == unit@);
            assert(units.take(j + 1).drop_last() =~= units.take(j as int));
            assert(units.take(j + 1).last() == unit@);
        }
        if changelog {
            let ghost before = versions.deep_view();
            match &metadata.version {
                Some(version) => {
                    versions.push(version.clone());
                    assert(versions.deep_view() =~= before.push(version@));
                    assert(versions.deep_view() =~= old(versions).deep_view() + versions_in(
                        file.category,
                        file.path@,
                        units.take(j + 1),
                    ));
                },
                None => {},
            }
        }
        docs.push(Document { content: unit.clone(), metadata });
        flags.push(summary_page);
        j += 1;
    }
    assert(units.take(units.len() as int) =~= units);
}

/// Makes the documents of a converted corpus: every unit becomes a
/// document with its own metadata, and the summary of all changelog
/// versions is appended to the page that lists them. See [`ingested`].
pub fn ingest(files: &Vec<SourceFile>) -> (docs: Vec<Document>)
    ensures
        docs.deep_view() == ingested(files.deep_view()),
{
    let ghost all = files.deep_view();
    let ghost suffix = rollup_text(changelog_versions(all));
    let mut docs: Vec<Document> = Vec::new();
    let mut flags: Vec<bool> = Vec::new();
    let mut versions: Vec<String> = Vec::new();
    let mut i: usize = 0;
    proof {
        assert(all.take(0) =~= Seq::<SourceFileView>::empty());
        assert(versions.deep_view() =~= Seq::<Seq<char>>::empty());
    }
    while i < files.len()
        invariant
            i <= files@.len(),
            all == files.deep_view(),
            docs@.len() == flags@.len(),
            docs@.len() == corpus_documents(all.take(i as int), suffix).len(),
            forall|k: int|
                0 <= k < docs@.len() ==> awaits(
                    #[trigger] docs@[k]@,
                    flags@[k],
                    corpus_documents(all.take(i as int), suffix)[k],
                    suffix,
                ),
            versions.deep_view() == changelog_versions(all.take(i as int)),
        decreases files@.len() - i,
    {
        let ghost base = docs@.len();
        let ghost before = corpus_documents(all.take(i as int), suffix);
        proof {
            assert(all.take(i + 1).drop_last() =~= all.take(i as int));
            assert(all.take(i + 1).last() == files@[i as int]@);
        }
        push_file(&files[i], &mut docs, &mut flags, &mut versions, Ghost(suffix));
        proof {
            let after = corpus_documents(all.take(i + 1), suffix);
            assert(after == before + file_documents(files@[i as int]@, suffix));
            assert forall|k: int| 0 <= k < docs@.len() implies awaits(
                #[trigger] docs@[k]@,
                flags@[k],
                after[k],
                suffix,
            ) by {
                if k >= base {
                    assert(docs@[k] == docs@[base + (k - base)]);
                }
            }
        }
        i += 1;
    }
    assert(all.take(files@.len() as int) =~= all);
    let summary = rollup(&versions);
    let ghost target = ingested(all);
    let mut k: usize = 0;
    while k < docs.len()
        invariant
            k <= docs@.len(),
            docs@.len() == flags@.len(),
            docs@.len() == target.len(),
            summary@ == suffix,
            forall|m: int| 0 <= m < k ==> (#[trigger] docs@[m])@ == target[m],
            forall|m: int|
                k <= m < docs@.len() ==> awaits(
                    #[trigger] docs@[m]@,
                    flags@[m],
                    target[m],
                    suffix,
                ),
        decreases docs@.len() - k,
    {
        let ghost prev = docs@;
        assert(awaits(prev[k as int]@, flags@[k as int], target[k as int], suffix));
        if flags[k] {
            docs[k].content.append(summary.as_str());
        }
        proof {
            assert(docs@[k as int]@.metadata == prev[k as int]@.metadata);
            assert(docs@[k as int]@.content =~= target[k as int].content);
            assert forall|m: int| 0 <= m < docs@.len() && m != k implies docs@[m]
                == prev[m] by {}
        }
        k += 1;
    }
    assert(docs.deep_view() =~= target);
    docs
}

/// Whether a document came from the changelog.
pub open spec fn is_changelog(doc: DocumentView) -> bool {
    doc.metadata.source == Category::Changelog.label()
}

/// The versions of the changelog documents among `docs`, in order; a
/// document without a version adds nothing.
pub open spec fn versions_of(docs: Seq<DocumentView>) -> Seq<Seq<char>>
    decreases docs.len(),
{
    if docs.len() == 0 {
        Seq::empty()
    } else {
        let before = versions_of(docs.drop_last());
        let doc = docs.last();
        if is_changelog(doc) && doc.metadata.version is Some {
            before.push(doc.metadata.version->0)
        } else {
            before
        }
    }
}

/// The number of units in all files together.
pub open spec fn unit_count(files: Seq<SourceFileView>) -> nat
    decreases files.len(),
{
    if files.len() == 0 {
        0
    } else {
        unit_count(files.drop_last()) + files.last().units.len()
    }
}

/// Only the changelog category carries the changelog's label.
pub proof fn lemma_changelog_label(category: Category)
    ensures
        category.label() == Category::Changelog.label() <==> category == Category::Changelog,
{
    reveal_strlit("documentation");
    reveal_strlit("changelog");
    reveal_strlit("blog");
    assert("documentation"@.len() == 13);
    assert("changelog"@.len() == 9);
    assert("blog"@.len() == 4);
}

proof fn lemma_versions_of_add(a: Seq<DocumentView>, b: Seq<DocumentView>)
    ensures
        versions_of(a + b) == versions_of(a) + versions_of(b),
    decreases b.len(),
{
    if b.len() == 0 {
        assert(a + b =~= a);
        assert(versions_of(a) + versions_of(b) =~= versions_of(a));
    } else {
        assert((a + b).drop_last() =~= a + b.drop_last());
        assert((a + b).last() == b.last());
        lemma_versions_of_add(a, b.drop_last());
        let doc = b.last();
        if is_changelog(doc) && doc.metadata.version is Some {
            let v = doc.metadata.version->0;
            assert((versions_of(a) + versions_of(b.drop_last())).push(v) =~= versions_of(a)
                + versions_of(b.drop_last()).push(v));
        }
    }
}

proof fn lemma_file_versions(file: SourceFileView, suffix: Seq<char>)
    ensures
        versions_of(file_documents(file, suffix)) == file_versions(file),
    decreases file.units.len(),
{
    lemma_changelog_label(file.category);
    let docs = file_documents(file, suffix);
    if file.units.len() == 0 {
        assert(versions_of(docs) =~= Seq::<Seq<char>>::empty());
        assert(versions_in(file.category, file.path, file.units) =~= Seq::<Seq<char>>::empty());
    } else {
        let shorter = SourceFileView { units: file.units.drop_last(), ..file };
        lemma_file_versions(shorter, suffix);
        assert(docs.drop_last() =~= file_documents(shorter, suffix));
        assert(docs.last() == document_of(file.category, file.path, file.units.last(), suffix));
    }
}

/// Every unit of every file becomes one document.
pub proof fn lemma_ingested_len(files: Seq<SourceFileView>)
    ensures
        ingested(files).len() == unit_count(files),
{
    lemma_corpus_len(files, rollup_text(changelog_versions(files)));
}

proof fn lemma_corpus_len(files: Seq<SourceFileView>, suffix: Seq<char>)
    ensures
        corpus_documents(files, suffix).len() == unit_count(files),
    decreases files.len(),
{
    if files.len() > 0 {
        lemma_corpus_len(files.drop_last(), suffix);
    }
}

proof fn lemma_corpus_versions(files: Seq<SourceFileView>, suffix: Seq<char>)
    ensures
        versions_of(corpus_documents(files, suffix)) == changelog_versions(files),
    decreases files.len(),
{
    if files.len() > 0 {
        lemma_corpus_versions(files.drop_last(), suffix);
        lemma_file_versions(files.last(), suffix);
        lemma_versions_of_add(
            corpus_documents(files.drop_last(), suffix),
            file_documents(files.last(), suffix),
        );
    }
}

/// The versions that the summary lists are exactly the versions of the
/// ingested documents that came from the changelog, in the order of
/// ingestion.
pub proof fn lemma_summary_lists_changelog_versions(files: Seq<SourceFileView>)
    ensures
        changelog_versions(files) == versions_of(ingested(files)),
{
    lemma_corpus_versions(files, rollup_text(changelog_versions(files)));
}

proof fn lemma_versions_of_all(docs: Seq<DocumentView>)
    requires
        forall|k: int|
            0 <= k < docs.len() && is_changelog(#[trigger] docs[k])
                ==> docs[k].metadata.version is Some,
    ensures
        versions_of(docs).len() == docs.filter(|d: DocumentView| is_changelog(d)).len(),
    decreases docs.len(),
{
    reveal(Seq::filter);
    if docs.len() > 0 {
        let init = docs.drop_last();
        assert forall|k: int|
            0 <= k < init.len() && is_changelog(
                #[trigger] init[k],
            ) implies init[k].metadata.version is Some by {
            assert(init[k] == docs[k]);
        }
        lemma_versions_of_all(init);
        assert(docs.last() == docs[docs.len() - 1]);
    }
}

/// Where every changelog document carries a version, the summary counts
/// the changelog documents: its total is their number.
pub proof fn lemma_summary_counts_changelog_documents(files: Seq<SourceFileView>)
    requires
        forall|k: int|
            0 <= k < ingested(files).len() && is_changelog(#[trigger] ingested(files)[k])
                ==> ingested(files)[k].metadata.version is Some,
    ensures
        changelog_versions(files).len() == ingested(files).filter(
            |d: DocumentView| is_changelog(d),
        ).len(),
{
    lemma_summary_lists_changelog_versions(files);
    lemma_versions_of_all(ingested(files));
}

proof fn lemma_corpus_add(a: Seq<SourceFileView>, b: Seq<SourceFileView>, suffix: Seq<char>)
    ensures
        corpus_documents(a + b, suffix) == corpus_documents(a, suffix) + corpus_documents(
            b,
            suffix,
        ),
    decreases b.len(),
{
    if b.len() == 0 {
        assert(a + b =~= a);
        assert(corpus_documents(a, suffix) + corpus_documents(b, suffix) =~= corpus_documents(
            a,
            suffix,
        ));
    } else {
        assert((a + b).drop_last() =~= a + b.drop_last());
        assert((a + b).last() == b.last());
        lemma_corpus_add(a, b.drop_last(), suffix);
        assert(corpus_documents(a, suffix) + corpus_documents(b.drop_last(), suffix)
            + file_documents(b.last(), suffix) =~= corpus_documents(a, suffix) + (
        corpus_documents(b.drop_last(), suffix) + file_documents(b.last(), suffix)));
    }
}

/// Wherever a file stands in the corpus, its units become documents in
/// their order, after the documents of the files before it. What each of
/// them knows is read off that unit and that file's path and category
/// alone: nothing is carried over from another document. Its text is the
/// unit's, followed on the page that lists all versions by the summary of
/// the whole corpus's changelog versions.
pub proof fn lemma_documents_of_file(
    before: Seq<SourceFileView>,
    file: SourceFileView,
    after: Seq<SourceFileView>,
)
    ensures
        unit_count(before) + file.units.len() <= ingested(before.push(file) + after).len(),
        forall|j: int|
            #![trigger file.units[j]]
            0 <= j < file.units.len() ==> {
                let files = before.push(file) + after;
                let doc = ingested(files)[unit_count(before) + j];
                &&& doc.metadata == extracted(file.category, file.path, file.units[j])
                &&& is_summary(file.path) ==> doc.content == file.units[j] + rollup_text(
                    changelog_versions(files),
                )
                &&& !is_summary(file.path) ==> doc.content == file.units[j]
            },
{
    let files = before.push(file) + after;
    let suffix = rollup_text(changelog_versions(files));
    lemma_corpus_add(before.push(file), after, suffix);
    assert(before.push(file).drop_last() =~= before);
    lemma_corpus_len(before, suffix);
    let mine = file_documents(file, suffix);
    assert forall|j: int| #![trigger file.units[j]] 0 <= j < file.units.len() implies ingested(
        files,
    )[unit_count(before) + j] == mine[j] by {
        assert(corpus_documents(before.push(file), suffix)[unit_count(before) + j] == mine[j]);
    }
}

} // verus!
