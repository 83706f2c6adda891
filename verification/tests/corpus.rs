use docs_bot::corpus::{
    corpus_root, extension_of, ingest, is_markup_path, is_summary_path, markup_paths,
    source_directories, SourceFile,
};
use docs_bot::metadata::Category;

fn file(path: &str, category: Category, units: &[&str]) -> SourceFile {
    SourceFile {
        path: path.to_string(),
        category,
        units: units.iter().map(|u| u.to_string()).collect(),
    }
}

#[test]
fn corpus_root_goes_by_the_layout() {
    assert_eq!(corpus_root(true), "..");
    assert_eq!(corpus_root(false), "pianorhythm-docs-bot-sources");
}

#[test]
fn source_directories_are_docs_changelog_blog() {
    let dirs = source_directories("..");
    assert_eq!(dirs.len(), 3);
    assert_eq!(dirs[0].path, "../docs");
    assert_eq!(dirs[0].category, Category::Documentation);
    assert_eq!(dirs[1].path, "../changelog");
    assert_eq!(dirs[1].category, Category::Changelog);
    assert_eq!(dirs[2].path, "../blog");
    assert_eq!(dirs[2].category, Category::Blog);
}

#[test]
fn extension_is_what_follows_the_last_dot_of_the_file_name() {
    assert_eq!(extension_of("docs/intro.md"), Some("md".to_string()));
    assert_eq!(extension_of("intro.tar.gz"), Some("gz".to_string()));
    assert_eq!(extension_of("a.b/intro"), None);
    assert_eq!(extension_of("docs/.md"), None);
    assert_eq!(extension_of("docs/.hidden.mdx"), Some("mdx".to_string()));
    assert_eq!(extension_of("docs/intro."), Some(String::new()));
    assert_eq!(extension_of(""), None);
    assert_eq!(extension_of("docs/"), None);
}

#[test]
fn extension_agrees_with_std_on_file_paths() {
    let paths = ["a.md", "x/y.mdx", "x.y/z", "x/.md", "x/.a.md", "x/a.", "a", "x/y/z.MD", "é/ü.md"];
    for path in paths {
        let expected = std::path::Path::new(path)
            .extension()
            .and_then(|e| e.to_str())
            .map(|e| e.to_string());
        assert_eq!(extension_of(path), expected, "{path:?}");
    }
}

#[test]
fn markup_is_md_or_mdx() {
    assert!(is_markup_path("docs/intro.md"));
    assert!(is_markup_path("blog/2024/post.mdx"));
    assert!(!is_markup_path("docs/intro.txt"));
    assert!(!is_markup_path("docs/intro.MD"));
    assert!(!is_markup_path("docs/intro.mdxx"));
    assert!(!is_markup_path("docs/intro.m"));
    assert!(!is_markup_path("docs/md"));
    assert!(!is_markup_path("docs/.md"));
    assert!(!is_markup_path("docs.md/readme"));
}

#[test]
fn markup_paths_keeps_the_order() {
    let paths: Vec<String> = ["b.md", "a.txt", "c.mdx", "d", "a.md"]
        .iter()
        .map(|p| p.to_string())
        .collect();
    assert_eq!(
        markup_paths(&paths),
        vec!["b.md".to_string(), "c.mdx".to_string(), "a.md".to_string()]
    );
    assert_eq!(markup_paths(&Vec::new()), Vec::<String>::new());
}

#[test]
fn summary_page_is_named_by_its_marker() {
    assert!(is_summary_path("../changelog/versions.md"));
    assert!(is_summary_path("versions.mdx"));
    assert!(!is_summary_path("../changelog/version.md"));
}

#[test]
fn one_file_with_a_title_gives_one_document() {
    let docs = ingest(&vec![file("docs/intro.md", Category::Documentation, &["title: Intro"])]);
    assert_eq!(docs.len(), 1);
    assert_eq!(docs[0].content, "title: Intro");
    assert_eq!(docs[0].metadata.source, "documentation");
    assert_eq!(docs[0].metadata.title, Some("Intro".to_string()));
    assert_eq!(docs[0].metadata.date, None);
    assert_eq!(docs[0].metadata.version, None);
    assert_eq!(docs[0].metadata.keywords, None);
}

#[test]
fn summary_page_ends_with_the_rollup_of_the_changelog() {
    let docs = ingest(&vec![
        file("changelog/2024-01-01-1.0.0.md", Category::Changelog, &["First."]),
        file("changelog/2024-02-01-1.1.0.md", Category::Changelog, &["Second."]),
        file("changelog/versions.md", Category::Changelog, &["All versions\n"]),
    ]);
    assert_eq!(docs.len(), 3);
    assert_eq!(docs[0].content, "First.");
    assert_eq!(docs[1].content, "Second.");
    assert_eq!(
        docs[2].content,
        "All versions\ntotal_versions: 2\nall_versions:[1.0.0,1.1.0]"
    );
    assert!(docs[2].content.ends_with("total_versions: 2\nall_versions:[1.0.0,1.1.0]"));
    assert_eq!(docs[2].metadata.version, None);
}

#[test]
fn rollup_does_not_depend_on_where_the_summary_page_stands() {
    let docs = ingest(&vec![
        file("docs/versions.md", Category::Documentation, &["Versions: "]),
        file("changelog/2024-01-01-1.0.0.md", Category::Changelog, &["First."]),
        file("blog/2024-01-05-7.7.7.md", Category::Blog, &["Not a changelog."]),
        file("changelog/2024-02-01-1.1.0.md", Category::Changelog, &["Second."]),
    ]);
    assert_eq!(docs[0].content, "Versions: total_versions: 2\nall_versions:[1.0.0,1.1.0]");
    assert_eq!(docs[2].metadata.version, Some("7.7.7".to_string()));
}

#[test]
fn rollup_lists_versions_in_the_order_of_ingestion() {
    let docs = ingest(&vec![
        file("changelog/2024-02-01-1.1.0.md", Category::Changelog, &["b", "version: 3.0"]),
        file("changelog/notes.md", Category::Changelog, &["no version here"]),
        file("changelog/2024-01-01-1.0.0.md", Category::Changelog, &["a"]),
        file("changelog/versions.md", Category::Changelog, &["", "second unit"]),
    ]);
    let rollup = "total_versions: 3\nall_versions:[1.1.0,3.0,1.0.0]";
    assert_eq!(docs.len(), 6);
    assert_eq!(docs[4].content, rollup);
    assert_eq!(docs[5].content, format!("second unit{rollup}"));
    assert_eq!(docs[2].metadata.version, None);
}

#[test]
fn summary_page_with_a_version_of_its_own_is_counted() {
    let docs = ingest(&vec![
        file("changelog/versions.md", Category::Changelog, &["version: 0.1\n"]),
        file("changelog/2024-01-01-1.0.0.md", Category::Changelog, &["a"]),
    ]);
    assert_eq!(docs[0].content, "version: 0.1\ntotal_versions: 2\nall_versions:[0.1,1.0.0]");
}

#[test]
fn summary_page_without_a_changelog_gets_an_empty_rollup() {
    let docs = ingest(&vec![file("docs/versions.md", Category::Documentation, &["x"])]);
    assert_eq!(docs[0].content, "xtotal_versions: 0\nall_versions:[]");
}

#[test]
fn every_unit_becomes_a_document_in_order() {
    let docs = ingest(&vec![
        file("docs/a.md", Category::Documentation, &["one", "two"]),
        file("docs/empty.md", Category::Documentation, &[]),
        file("blog/b.md", Category::Blog, &["three"]),
    ]);
    let contents: Vec<&str> = docs.iter().map(|d| d.content.as_str()).collect();
    assert_eq!(contents, vec!["one", "two", "three"]);
    assert_eq!(docs[1].metadata.source, "documentation");
    assert_eq!(docs[2].metadata.source, "blog");
}

#[test]
fn metadata_does_not_leak_between_documents() {
    let docs = ingest(&vec![
        file(
            "docs/2024-01-01-1.0.0-a.md",
            Category::Documentation,
            &["title: A\nkeywords: [x, y]\nversion: 5.5", "plain unit"],
        ),
        file("docs/b.md", Category::Documentation, &["plain file"]),
    ]);
    assert_eq!(docs[0].metadata.title, Some("A".to_string()));
    assert_eq!(docs[0].metadata.version, Some("5.5".to_string()));
    assert_eq!(docs[1].metadata.title, None);
    assert_eq!(docs[1].metadata.keywords, None);
    assert_eq!(docs[1].metadata.version, Some("1.0.0".to_string()));
    assert_eq!(docs[1].metadata.date, Some("2024-01-01".to_string()));
    assert_eq!(docs[2].metadata.title, None);
    assert_eq!(docs[2].metadata.keywords, None);
    assert_eq!(docs[2].metadata.version, None);
    assert_eq!(docs[2].metadata.date, None);
}

#[test]
fn empty_corpus_gives_no_documents() {
    assert!(ingest(&Vec::new()).is_empty());
    assert!(ingest(&vec![file("docs/a.md", Category::Documentation, &[])]).is_empty());
}
