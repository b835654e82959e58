use dbot::apply::{plan, render_template, rendered, Operation, TemplateRenderer};
use dbot::attr::{inherit_attr, path_only_attr, AttrType, ProfileAttrBuilder};
use dbot::compile::{CompiledEntries, CompiledProfile};
use dbot::document::Document;
use dbot::entries::Profile;
use dbot::options::{expand_tilde, Options};
use dbot::pattern::{PatternSet, PatternSetBuilder};
use dbot::profile::ProfileNode;
use dbot::{Error, Merge};

fn path(s: &str) -> Vec<String> {
    s.split('/').filter(|c| !c.is_empty()).map(|c| c.to_string()).collect()
}

fn text(s: &str) -> Document {
    Document::Text(s.to_string())
}

fn globs(items: &[&str]) -> PatternSetBuilder {
    PatternSetBuilder::new(items.iter().map(|s| s.to_string()).collect())
}

#[test]
fn option_merge_keeps_or_replaces() {
    let mut a = Some(1);
    a.merge(None);
    assert_eq!(a, Some(1));
    a.merge(Some(2));
    assert_eq!(a, Some(2));
    let mut b: Option<u8> = None;
    b.merge(None);
    assert_eq!(b, None);
    b.merge(Some(3));
    assert_eq!(b, Some(3));
}

#[test]
fn merge_of_recursive_flag_keeps_source() {
    let mut first = ProfileAttrBuilder {
        source: Some(path("a/b")),
        ty: Some(AttrType::Link),
        recursive: None,
        ignore: None,
    };
    first.merge(ProfileAttrBuilder {
        source: None,
        ty: None,
        recursive: Some(true),
        ignore: None,
    });
    assert_eq!(
        first,
        ProfileAttrBuilder {
            source: Some(path("a/b")),
            ty: Some(AttrType::Link),
            recursive: Some(true),
            ignore: None,
        }
    );
}

#[test]
fn merge_of_ignore_lists_accumulates() {
    let mut first = ProfileAttrBuilder {
        source: None,
        ty: None,
        recursive: None,
        ignore: Some(globs(&["a*"])),
    };
    let mut second = ProfileAttrBuilder::new();
    second.ignore = Some(globs(&[]));
    first.merge(second);
    assert_eq!(first.ignore, Some(globs(&["a*"])));
    let mut third = ProfileAttrBuilder::new();
    third.ignore = Some(globs(&["b*", "a*"]));
    first.merge(third);
    assert_eq!(first.ignore, Some(globs(&["a*", "b*", "a*"])));
    let mut empty = ProfileAttrBuilder::new();
    let mut fourth = ProfileAttrBuilder::new();
    fourth.ignore = Some(globs(&[]));
    empty.merge(fourth);
    assert_eq!(empty.ignore, None);
    let mut fifth = ProfileAttrBuilder::new();
    fifth.ignore = Some(globs(&["c"]));
    empty.merge(fifth);
    assert_eq!(empty.ignore, Some(globs(&["c"])));
}

#[test]
fn inherit_joins_parent_source_and_unions_ignore() {
    let parent = ProfileAttrBuilder {
        source: Some(path("p/s")),
        ty: Some(AttrType::Template),
        recursive: Some(true),
        ignore: Some(globs(&["x"])),
    };
    let own = ProfileAttrBuilder {
        source: None,
        ty: None,
        recursive: Some(false),
        ignore: Some(globs(&["y"])),
    };
    let got = inherit_attr(&path("child"), own, &parent);
    assert_eq!(
        got,
        ProfileAttrBuilder {
            source: Some(path("p/s/child")),
            ty: Some(AttrType::Template),
            recursive: Some(false),
            ignore: Some(globs(&["y", "x"])),
        }
    );
    let got = inherit_attr(&path("child"), path_only_attr(path("own")), &parent);
    assert_eq!(got.source, Some(path("own")));
    assert_eq!(got.ignore, Some(globs(&["x"])));
    let got = inherit_attr(&path("child"), ProfileAttrBuilder::new(), &ProfileAttrBuilder::new());
    assert_eq!(got, ProfileAttrBuilder::new());
}

#[test]
fn build_applies_defaults() {
    let target = path("t");
    assert!(ProfileAttrBuilder::new().build(&target).unwrap().is_none());
    let attr = path_only_attr(path("s")).build(&target).unwrap().unwrap();
    assert_eq!(attr.source, path("s"));
    assert_eq!(attr.ty, AttrType::Copy);
    assert_eq!(AttrType::default(), AttrType::Copy);
    assert!(!attr.recursive);
    assert!(!attr.ignore.is_match("anything"));
    let mut with_ignore = path_only_attr(path("s"));
    with_ignore.ty = Some(AttrType::Link);
    with_ignore.recursive = Some(true);
    with_ignore.ignore = Some(globs(&["*.bak", "tmp?"]));
    let attr = with_ignore.build(&target).unwrap().unwrap();
    assert_eq!(attr.ty, AttrType::Link);
    assert!(attr.recursive);
    assert!(attr.ignore.is_match("a.bak"));
    assert!(attr.ignore.is_match("tmp1"));
    assert!(!attr.ignore.is_match("tmp"));
    let mut bad = path_only_attr(path("s"));
    bad.ignore = Some(globs(&["ok", "{a,b"]));
    assert_eq!(bad.build(&target).unwrap_err(), Error::InvalidPatternSet(path("t")));
}

#[test]
fn pattern_set_matches_any_of_its_globs() {
    assert!(!PatternSet::empty().is_match("a"));
    assert!(globs(&[]).is_empty());
    assert!(!globs(&["a"]).is_empty());
    let set = globs(&["a*", "*.rs"]).build().unwrap();
    assert!(set.is_match("abc"));
    assert!(set.is_match("lib.rs"));
    assert!(!set.is_match("b.txt"));
    assert!(globs(&["a", "[z"]).build().is_err());
    assert!(!globs(&[]).build().unwrap().is_match(""));
    let mut list = globs(&["a"]);
    list.extend(&globs(&["b", "c"]));
    assert_eq!(list, globs(&["a", "b", "c"]));
    assert_eq!(list.clone_list(), list);
}

#[test]
fn profile_nodes_merge_by_target() {
    let mut first = Profile::new(ProfileNode {
        attr: path_only_attr(path("root")),
        children: vec![
            (
                path("a"),
                ProfileNode {
                    attr: path_only_attr(path("sa")),
                    children: vec![(path("x/y"), ProfileNode::new())],
                },
            ),
            (path("b"), ProfileNode::new()),
        ],
    });
    let mut link = ProfileAttrBuilder::new();
    link.ty = Some(AttrType::Link);
    let second = Profile::new(ProfileNode {
        attr: ProfileAttrBuilder::new(),
        children: vec![
            (path("c"), ProfileNode::new()),
            (
                path("a"),
                ProfileNode {
                    attr: link,
                    children: vec![
                        (path("z"), ProfileNode::new()),
                        (
                            path("x/y"),
                            ProfileNode {
                                attr: path_only_attr(path("sxy")),
                                children: vec![],
                            },
                        ),
                    ],
                },
            ),
        ],
    });
    first.merge(second);
    let expected = ProfileNode {
        attr: path_only_attr(path("root")),
        children: vec![
            (
                path("a"),
                ProfileNode {
                    attr: ProfileAttrBuilder {
                        source: Some(path("sa")),
                        ty: Some(AttrType::Link),
                        recursive: None,
                        ignore: None,
                    },
                    children: vec![
                        (
                            path("x/y"),
                            ProfileNode {
                                attr: path_only_attr(path("sxy")),
                                children: vec![],
                            },
                        ),
                        (path("z"), ProfileNode::new()),
                    ],
                },
            ),
            (path("b"), ProfileNode::new()),
            (path("c"), ProfileNode::new()),
        ],
    };
    assert_eq!(first.root, expected);
    assert_eq!(first.root.clone_node(), expected);
}

#[test]
fn documents_merge_like_data() {
    let mut data = Document::Table(vec![
        (text("name"), text("old")),
        (text("list"), Document::List(vec![text("a")])),
        (
            text("nested"),
            Document::Table(vec![(text("k"), Document::Bool(false))]),
        ),
        (text("kept"), Document::Number("1".to_string())),
    ]);
    data.merge(Document::Table(vec![
        (text("name"), text("new")),
        (text("list"), Document::List(vec![text("b")])),
        (
            text("nested"),
            Document::Table(vec![
                (text("k"), Document::Bool(true)),
                (text("more"), Document::Null),
            ]),
        ),
        (text("kept"), Document::Null),
        (text("added"), Document::Number("2".to_string())),
    ]));
    let expected = Document::Table(vec![
        (text("name"), text("new")),
        (text("list"), Document::List(vec![text("a"), text("b")])),
        (
            text("nested"),
            Document::Table(vec![
                (text("k"), Document::Bool(true)),
                (text("more"), Document::Null),
            ]),
        ),
        (text("kept"), Document::Number("1".to_string())),
        (text("added"), Document::Number("2".to_string())),
    ]);
    assert_eq!(data, expected);
    assert!(data.same_document(&expected));
    assert!(data.same_document(&data.clone_document()));
    assert!(!data.same_document(&text("x")));

    let mut scalar = text("x");
    scalar.merge(Document::Table(vec![]));
    assert_eq!(scalar, text("x"));
    scalar.merge(Document::List(vec![text("y")]));
    assert_eq!(scalar, text("x"));
    scalar.merge(Document::Null);
    assert_eq!(scalar, text("x"));
    scalar.merge(Document::Bool(true));
    assert_eq!(scalar, Document::Bool(true));
    let mut list = Document::List(vec![]);
    list.merge(text("z"));
    assert_eq!(list, text("z"));
    let mut tagged = Document::Null;
    tagged.merge(Document::Tagged("!t".to_string(), Box::new(text("v"))));
    assert_eq!(tagged, Document::Tagged("!t".to_string(), Box::new(text("v"))));
}

#[test]
fn options_merge_and_expand() {
    let mut options = Options {
        source: Some(path("~/dots")),
        target: None,
    };
    options.merge(Options {
        source: None,
        target: Some(path("/out")),
    });
    assert_eq!(options.source(), &path("~/dots"));
    assert_eq!(options.target(), &path("/out"));
    options.merge(Options {
        source: Some(path("other")),
        target: None,
    });
    assert_eq!(options.source(), &path("other"));

    let home = vec!["/".to_string(), "home".to_string(), "me".to_string()];
    let mut p = path("~/dots/x");
    expand_tilde(&mut p, &home);
    assert_eq!(
        p,
        vec!["/", "home", "me", "dots", "x"]
            .into_iter()
            .map(String::from)
            .collect::<Vec<_>>()
    );
    let mut q = path("a/~/b");
    expand_tilde(&mut q, &home);
    assert_eq!(q, path("a/~/b"));
    let mut r = path("~x/b");
    expand_tilde(&mut r, &home);
    assert_eq!(r, path("~x/b"));
    let mut e: Vec<String> = Vec::new();
    expand_tilde(&mut e, &home);
    assert!(e.is_empty());
    let mut t = path("~");
    expand_tilde(&mut t, &home);
    assert_eq!(t, home);
}

struct Upper;

impl TemplateRenderer for Upper {
    type Err = String;

    fn render(&mut self, s: &str) -> Result<String, String> {
        if s.is_empty() {
            Err("empty".to_string())
        } else {
            Ok(s.to_uppercase())
        }
    }
}

#[test]
fn plan_lists_operations_in_order() {
    let entries = CompiledEntries(vec![
        (
            path("~/a/b"),
            CompiledProfile {
                source: path("s/b"),
                ty: AttrType::Copy,
            },
        ),
        (
            path("top"),
            CompiledProfile {
                source: path("s/t"),
                ty: AttrType::Template,
            },
        ),
        (
            Vec::new(),
            CompiledProfile {
                source: path("s"),
                ty: AttrType::Link,
            },
        ),
    ]);
    assert_eq!(
        plan(&entries),
        vec![
            Operation::CreateDirAll(path("~/a")),
            Operation::Copy {
                source: path("s/b"),
                target: path("~/a/b")
            },
            Operation::CreateDirAll(Vec::new()),
            Operation::Render {
                source: path("s/t"),
                target: path("top")
            },
            Operation::Link {
                source: path("s"),
                target: Vec::new()
            },
        ]
    );
    assert!(plan(&CompiledEntries(vec![])).is_empty());
}

#[test]
fn rendering_maps_failure_to_render_error() {
    let source = path("s/t");
    assert_eq!(render_template(&mut Upper, "hi", &source).unwrap(), "HI");
    assert_eq!(
        render_template(&mut Upper, "", &source).unwrap_err(),
        Error::RenderError(path("s/t"))
    );
    assert_eq!(
        rendered::<u8>(Ok("x".to_string()), &source).unwrap(),
        "x"
    );
    assert_eq!(
        rendered(Err(7u8), &source).unwrap_err(),
        Error::RenderError(path("s/t"))
    );
}
