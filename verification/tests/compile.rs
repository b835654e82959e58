use dbot::attr::AttrType;
use dbot::compile::{compile, Answer, CompiledEntries, CompiledProfile, CompilerOptions, Query, Step};
use dbot::document::Document;
use dbot::entries::Profile;
use dbot::Error;
use std::collections::HashMap;

fn document_of(value: serde_yaml::Value) -> Document {
    match value {
        serde_yaml::Value::Null => Document::Null,
        serde_yaml::Value::Bool(b) => Document::Bool(b),
        serde_yaml::Value::Number(n) => Document::Number(n.to_string()),
        serde_yaml::Value::String(s) => Document::Text(s),
        serde_yaml::Value::Sequence(items) => {
            Document::List(items.into_iter().map(document_of).collect())
        }
        serde_yaml::Value::Mapping(pairs) => Document::Table(
            pairs
                .into_iter()
                .map(|(k, v)| (document_of(k), document_of(v)))
                .collect(),
        ),
        serde_yaml::Value::Tagged(tagged) => {
            Document::Tagged(tagged.tag.to_string(), Box::new(document_of(tagged.value)))
        }
    }
}

fn path(s: &str) -> Vec<String> {
    s.split('/').filter(|c| !c.is_empty()).map(|c| c.to_string()).collect()
}

/// What stands at a path of the tree that the tests compile against.
enum Node {
    File,
    Dir(Vec<&'static str>),
    Link(&'static str),
}

struct Tree {
    nodes: HashMap<Vec<String>, Node>,
    queries: Vec<Query>,
}

impl Tree {
    fn new(nodes: Vec<(&'static str, Node)>) -> Tree {
        Tree {
            nodes: nodes.into_iter().map(|(p, n)| (path(p), n)).collect(),
            queries: Vec::new(),
        }
    }

    fn is_dir(&self, at: &Vec<String>) -> Option<bool> {
        match self.nodes.get(at)? {
            Node::File => Some(false),
            Node::Dir(_) => Some(true),
            Node::Link(to) => self.is_dir(&path(to)),
        }
    }

    fn answer(&mut self, query: Query) -> Answer {
        let answer = match &query {
            Query::Metadata(at) => match (self.nodes.get(at), self.is_dir(at)) {
                (Some(node), Some(is_dir)) => Answer::Metadata {
                    is_symlink: matches!(node, Node::Link(_)),
                    is_dir,
                },
                _ => Answer::Failed,
            },
            Query::ReadLink(at) => match self.nodes.get(at) {
                Some(Node::Link(to)) => Answer::Link(path(to)),
                _ => Answer::Failed,
            },
            Query::ReadDir(at) => match self.nodes.get(at) {
                Some(Node::Dir(names)) => {
                    Answer::Entries(names.iter().map(|n| n.to_string()).collect())
                }
                _ => Answer::Failed,
            },
        };
        self.queries.push(query);
        answer
    }

    fn run(&mut self, source: &str, profile: &str, symlinks: bool) -> Result<CompiledEntries, Error> {
        let document = document_of(serde_yaml::from_str::<serde_yaml::Value>(profile).unwrap());
        let entries = Profile::from_document(&document, false)
            .unwrap()
            .into_entries()
            .unwrap();
        let options = CompilerOptions {
            source: path(source),
            target: path("~"),
        };
        let mut step = compile(&options, entries, symlinks)?;
        loop {
            match step {
                Step::Done(compiled) => return Ok(compiled),
                Step::Ask(compiler, query) => {
                    let answer = self.answer(query);
                    step = compiler.answer(answer)?;
                }
            }
        }
    }
}

fn compile_str(tree: &mut Tree, profile: &str) -> Result<CompiledEntries, Error> {
    tree.run("tmp", profile, true)
}

fn create_tmp_tree() -> Tree {
    Tree::new(vec![
        ("tmp", Node::Dir(vec!["path"])),
        ("tmp/path", Node::Dir(vec!["to"])),
        ("tmp/path/to", Node::Dir(vec!["source"])),
        ("tmp/path/to/source", Node::Dir(vec!["file1", "file2"])),
        ("tmp/path/to/source/file1", Node::File),
        ("tmp/path/to/source/file2", Node::File),
    ])
}

fn compiled_entries(paths: &[&str], ty: AttrType) -> Vec<(Vec<String>, CompiledProfile)> {
    let mut expected: Vec<(Vec<String>, CompiledProfile)> = paths
        .iter()
        .map(|filename| {
            (
                path(&format!("~/path/to/target/{filename}")),
                CompiledProfile {
                    source: path(&format!("tmp/path/to/source/{filename}")),
                    ty,
                },
            )
        })
        .collect();
    expected.sort_by(|a, b| a.0.cmp(&b.0));
    expected
}

fn touched_file_entries(ty: AttrType) -> Vec<(Vec<String>, CompiledProfile)> {
    compiled_entries(&["file1", "file2"], ty)
}

fn sorted(entries: CompiledEntries) -> Vec<(Vec<String>, CompiledProfile)> {
    let mut list = entries.0;
    list.sort_by(|a, b| a.0.cmp(&b.0));
    list
}

#[test]
fn copy_source() {
    let mut tree = create_tmp_tree();
    let entries = compile_str(
        &mut tree,
        r#"
            path/to/target: path/to/source
            "#,
    )
    .unwrap();
    let expected = touched_file_entries(AttrType::Copy);
    assert_eq!(sorted(entries), expected);
}

#[test]
fn link_source() {
    let mut tree = create_tmp_tree();
    let entries = compile_str(
        &mut tree,
        r#"
            path/to/target:
              ~source: path/to/source
              ~type: link
            "#,
    )
    .unwrap();
    let expected = vec![(
        path("~/path/to/target"),
        CompiledProfile {
            source: path("tmp/path/to/source"),
            ty: AttrType::Link,
        },
    )];
    assert_eq!(sorted(entries), expected);
}

#[test]
fn link_source_recursive() {
    let mut tree = create_tmp_tree();
    let entries = compile_str(
        &mut tree,
        r#"
            path/to/target:
              ~source: path/to/source
              ~type: link
              ~recursive: true
            "#,
    )
    .unwrap();
    let expected = touched_file_entries(AttrType::Link);
    assert_eq!(sorted(entries), expected);
}

#[test]
fn template_source() {
    let mut tree = create_tmp_tree();
    let result = compile_str(
        &mut tree,
        r#"
            path/to/target:
              ~source: path/to/source
              ~type: template
            "#,
    );
    assert!(
        matches!(
            &result,
            Err(Error::UnexpectedDirectoryForTemplate(p))
                if p == &path("tmp/path/to/source")
        ),
        "{result:?}"
    );
}

#[test]
fn template_source_recursive() {
    let mut tree = create_tmp_tree();
    let entries = compile_str(
        &mut tree,
        r#"
            path/to/target:
              ~source: path/to/source
              ~type: template
              ~recursive: true
            "#,
    )
    .unwrap();
    let expected = touched_file_entries(AttrType::Template);
    assert_eq!(sorted(entries), expected);
}

#[test]
fn ignore() {
    let mut tree = Tree::new(vec![
        (
            "tmp/path/to/source",
            Node::Dir(vec!["file1", "file2", "ignore1", "ignore2", "ignore_dir"]),
        ),
        ("tmp/path/to/source/file1", Node::File),
        ("tmp/path/to/source/file2", Node::File),
        ("tmp/path/to/source/ignore1", Node::File),
        ("tmp/path/to/source/ignore2", Node::File),
        ("tmp/path/to/source/ignore_dir", Node::Dir(vec!["file1", "file2"])),
        ("tmp/path/to/source/ignore_dir/file1", Node::File),
        ("tmp/path/to/source/ignore_dir/file2", Node::File),
    ]);
    let entries = compile_str(
        &mut tree,
        r#"
            path/to/target:
                ~source: path/to/source
                ~ignore:
                  - ignore*
                  - ignore_dir/*
            "#,
    )
    .unwrap();
    let expected = touched_file_entries(AttrType::Copy);
    assert_eq!(sorted(entries), expected);
}

#[test]
fn child_profile() {
    let mut tree = Tree::new(vec![
        ("tmp/path/to/source", Node::Dir(vec!["dir1", "dir2"])),
        ("tmp/path/to/source/dir1", Node::Dir(vec!["file1", "file2"])),
        ("tmp/path/to/source/dir1/file1", Node::File),
        ("tmp/path/to/source/dir1/file2", Node::File),
        ("tmp/path/to/source/dir2", Node::Dir(vec!["file3", "file4"])),
        ("tmp/path/to/source/dir2/file3", Node::File),
        ("tmp/path/to/source/dir2/file4", Node::File),
    ]);
    let entries = compile_str(
        &mut tree,
        r#"
            path/to/target:
              ~source: path/to/source
              ~type: link
              ~recursive: true
              dir2:
                ~recursive: false
            "#,
    )
    .unwrap();
    let expected = compiled_entries(&["dir1/file1", "dir1/file2", "dir2"], AttrType::Link);
    assert_eq!(sorted(entries), expected);
}

#[test]
fn explicit_child_wins_over_expansion_of_ancestor() {
    let mut tree = Tree::new(vec![
        ("tmp/x", Node::File),
        ("tmp/y", Node::Dir(vec!["b", "c"])),
        ("tmp/y/b", Node::File),
        ("tmp/y/c", Node::File),
    ]);
    let entries = compile_str(
        &mut tree,
        r#"
            a:
              ~source: y
              ~type: link
              ~recursive: true
            a/b:
              ~source: x
              ~type: copy
            "#,
    )
    .unwrap();
    let expected = vec![
        (
            path("~/a/b"),
            CompiledProfile {
                source: path("tmp/x"),
                ty: AttrType::Copy,
            },
        ),
        (
            path("~/a/c"),
            CompiledProfile {
                source: path("tmp/y/c"),
                ty: AttrType::Link,
            },
        ),
    ];
    assert_eq!(sorted(entries), expected);
    assert!(!tree.queries.contains(&Query::Metadata(path("tmp/y/b"))));
}

#[test]
fn end_to_end_copy_expands_directory() {
    let mut tree = Tree::new(vec![
        ("p/s", Node::Dir(vec!["f1", "f2"])),
        ("p/s/f1", Node::File),
        ("p/s/f2", Node::File),
    ]);
    let options = CompilerOptions {
        source: Vec::new(),
        target: Vec::new(),
    };
    let document = Document::Table(vec![(
        Document::Text("p/t".to_string()),
        Document::Text("p/s".to_string()),
    )]);
    let entries = Profile::from_document(&document, false)
        .unwrap()
        .into_entries()
        .unwrap();
    let mut step = compile(&options, entries, true).unwrap();
    let compiled = loop {
        match step {
            Step::Done(compiled) => break compiled,
            Step::Ask(compiler, query) => {
                let answer = tree.answer(query);
                step = compiler.answer(answer).unwrap();
            }
        }
    };
    assert_eq!(
        compiled.0,
        vec![
            (
                path("p/t/f1"),
                CompiledProfile {
                    source: path("p/s/f1"),
                    ty: AttrType::Copy
                }
            ),
            (
                path("p/t/f2"),
                CompiledProfile {
                    source: path("p/s/f2"),
                    ty: AttrType::Copy
                }
            ),
        ]
    );
    assert_eq!(
        tree.queries,
        vec![
            Query::Metadata(path("p/s")),
            Query::ReadDir(path("p/s")),
            Query::Metadata(path("p/s/f1")),
            Query::Metadata(path("p/s/f2")),
        ]
    );
    assert_eq!(compiled.iter().len(), 2);
    assert!(compiled.contains(&path("p/t/f1")));
    assert!(!compiled.contains(&path("p/t")));
}

#[test]
fn ignore_filtering_keeps_unmatched_names() {
    let mut tree = Tree::new(vec![
        ("tmp/s", Node::Dir(vec!["skip1", "keep1"])),
        ("tmp/s/skip1", Node::File),
        ("tmp/s/keep1", Node::File),
    ]);
    let entries = compile_str(
        &mut tree,
        r#"
            t:
              ~source: s
              ~ignore: ["skip*"]
            "#,
    )
    .unwrap();
    assert_eq!(
        entries.0,
        vec![(
            path("~/t/keep1"),
            CompiledProfile {
                source: path("tmp/s/keep1"),
                ty: AttrType::Copy
            }
        )]
    );
}

#[test]
fn child_inherits_ignore_patterns_of_ancestors() {
    let mut tree = Tree::new(vec![
        ("tmp/s", Node::Dir(vec!["d", "a.bak"])),
        ("tmp/s/a.bak", Node::File),
        ("tmp/s/d", Node::Dir(vec!["x.tmp", "y.bak", "z"])),
        ("tmp/s/d/x.tmp", Node::File),
        ("tmp/s/d/y.bak", Node::File),
        ("tmp/s/d/z", Node::File),
    ]);
    let entries = compile_str(
        &mut tree,
        r#"
            t:
              ~source: s
              ~ignore: "*.bak"
              d:
                ~ignore: "*.tmp"
            "#,
    )
    .unwrap();
    // The entry for `t/d` is compiled first and passes over what either list
    // matches. The expansion of `t` then reaches `d` with the list of `t`
    // alone, and adds what only the list of `t/d` had kept out.
    assert_eq!(
        entries.0,
        vec![
            (
                path("~/t/d/z"),
                CompiledProfile {
                    source: path("tmp/s/d/z"),
                    ty: AttrType::Copy
                }
            ),
            (
                path("~/t/d/x.tmp"),
                CompiledProfile {
                    source: path("tmp/s/d/x.tmp"),
                    ty: AttrType::Copy
                }
            ),
        ]
    );
    assert_eq!(
        tree.queries[..4],
        [
            Query::Metadata(path("tmp/s/d")),
            Query::ReadDir(path("tmp/s/d")),
            Query::Metadata(path("tmp/s/d/z")),
            Query::Metadata(path("tmp/s")),
        ]
    );
}

#[test]
fn symlink_is_resolved_one_level() {
    let mut tree = Tree::new(vec![
        ("tmp/s", Node::Link("real/dir")),
        ("real/dir", Node::Dir(vec!["f", "l"])),
        ("real/dir/f", Node::File),
        ("real/dir/l", Node::Link("real/other")),
        ("real/other", Node::Link("real/dir/f")),
    ]);
    let entries = compile_str(&mut tree, "t: s\n").unwrap();
    assert_eq!(
        sorted(entries),
        vec![
            (
                path("~/t/f"),
                CompiledProfile {
                    source: path("real/dir/f"),
                    ty: AttrType::Copy
                }
            ),
            (
                path("~/t/l"),
                CompiledProfile {
                    source: path("real/other"),
                    ty: AttrType::Copy
                }
            ),
        ]
    );
}

#[test]
fn failed_query_names_the_source() {
    let mut tree = Tree::new(vec![]);
    let result = compile_str(&mut tree, "t: missing\n");
    assert_eq!(result.unwrap_err(), Error::IoFailed(path("tmp/missing")));
}

#[test]
fn answer_of_the_wrong_kind_is_a_failed_query() {
    let document = Document::Table(vec![(
        Document::Text("t".to_string()),
        Document::Text("s".to_string()),
    )]);
    let entries = Profile::from_document(&document, false)
        .unwrap()
        .into_entries()
        .unwrap();
    let options = CompilerOptions {
        source: path("tmp"),
        target: path("~"),
    };
    match compile(&options, entries, true).unwrap() {
        Step::Ask(compiler, query) => {
            assert_eq!(query, Query::Metadata(path("tmp/s")));
            assert_eq!(
                compiler.answer(Answer::Entries(vec![])).unwrap_err(),
                Error::IoFailed(path("tmp/s"))
            );
        }
        Step::Done(_) => panic!("a query was expected"),
    }
}

#[test]
fn links_need_support() {
    let mut tree = create_tmp_tree();
    let result = tree.run(
        "tmp",
        r#"
            path/to/target:
              ~source: path/to/source
              ~type: link
            "#,
        false,
    );
    assert_eq!(
        result.unwrap_err(),
        Error::UnsupportedSymlinks(path("path/to/source"))
    );
    assert!(tree.queries.is_empty());
}

#[test]
fn empty_profile_compiles_to_nothing() {
    let mut tree = Tree::new(vec![]);
    let entries = compile_str(&mut tree, "{}\n").unwrap();
    assert!(entries.0.is_empty());
}
