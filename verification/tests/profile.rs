use dbot::attr::{path_only_attr, AttrType, ProfileAttrBuilder};
use dbot::decode::{parse_attribute, unknown_attributes};
use dbot::document::Document;
use dbot::entries::{Profile, ProfileEntries};
use dbot::pattern::PatternSetBuilder;
use dbot::profile::{collect_entries_from_node, ComponentNode, ProfileNode};
use dbot::Error;

fn document_of(value: serde_yaml::Value) -> Document {
    match value {
        serde_yaml::Value::Null => Document::Null,
        serde_yaml::Value::Bool(b) => Document::Bool(b),
        serde_yaml::Value::Number(n) => Document::Number(n.to_string()),
        serde_yaml::Value::String(s) => Document::Text(s),
        serde_yaml::Value::Sequence(items) => {
            Document::List(items.into_iter().map(document_of).collect())
        }
        serde_yaml::Value::Mapping(pairs) => Document::Table(
            pairs
                .into_iter()
                .map(|(k, v)| (document_of(k), document_of(v)))
                .collect(),
        ),
        serde_yaml::Value::Tagged(tagged) => {
            Document::Tagged(tagged.tag.to_string(), Box::new(document_of(tagged.value)))
        }
    }
}

fn document_from_str(s: &str) -> Document {
    document_of(serde_yaml::from_str::<serde_yaml::Value>(s).unwrap())
}

fn profile_from_str(s: &str) -> Profile {
    Profile::from_document(&document_from_str(s), false).unwrap()
}

fn node_from_str(s: &str) -> ProfileNode {
    ProfileNode::from_document(&document_from_str(s), &Vec::new(), false).unwrap()
}

fn path(s: &str) -> Vec<String> {
    s.split('/').filter(|c| !c.is_empty()).map(|c| c.to_string()).collect()
}

fn create_component_node(entries: Vec<(&str, ComponentNode)>) -> ComponentNode {
    ComponentNode {
        attr: ProfileAttrBuilder::new(),
        children: entries
            .into_iter()
            .map(|(target, node)| (target.to_string(), node))
            .collect(),
    }
}

fn path_only_component_node(source: &str) -> ComponentNode {
    ComponentNode {
        attr: path_only_attr(path(source)),
        children: Vec::new(),
    }
}

fn path_only_node(source: &str) -> ProfileNode {
    ProfileNode {
        attr: path_only_attr(path(source)),
        children: Vec::new(),
    }
}

fn assert_entries(entries: &ProfileEntries, expected: &[(&str, &str, AttrType, bool)]) {
    assert_eq!(entries.0.len(), expected.len());
    for ((target, attr), (want_target, want_source, want_ty, want_recursive)) in
        entries.0.iter().zip(expected.iter())
    {
        assert_eq!(target, &path(want_target));
        assert_eq!(attr.source, path(want_source));
        assert_eq!(attr.ty, *want_ty);
        assert_eq!(attr.recursive, *want_recursive);
    }
}

#[test]
fn build_component_tree() {
    let profile = profile_from_str(
        r#"
            path:
              to:
                target1: path/to/source1
              to/target2: path/to/source2
            path/to/target3: path/to/source3
            "#,
    );
    let children = create_component_node(
        [
            ("target1", "path/to/source1"),
            ("target2", "path/to/source2"),
            ("target3", "path/to/source3"),
        ]
        .into_iter()
        .map(|(target, source)| (target, path_only_component_node(source)))
        .collect(),
    );
    let expected = create_component_node(vec![(
        "path",
        create_component_node(vec![("to", children)]),
    )]);
    assert_eq!(profile.build_component_tree(), expected);
}

#[test]
fn merge_attributes() {
    let profile = profile_from_str(
        r#"
            path:
              to:
                target1:
                  ~source: path/to/source1
                  ~type: link
              to/target1:
                  ~type: template
            path/to/target1:
              ~type: link
              ~recursive: true
            "#,
    );
    let attr = ProfileAttrBuilder {
        source: Some(path("path/to/source1")),
        ty: Some(AttrType::Link),
        recursive: Some(true),
        ignore: None,
    };
    let expected = create_component_node(vec![(
        "path",
        create_component_node(vec![(
            "to",
            create_component_node(vec![(
                "target1",
                ComponentNode {
                    attr,
                    children: Vec::new(),
                },
            )]),
        )]),
    )]);
    assert_eq!(profile.build_component_tree(), expected);
}

#[test]
fn collect_entries() {
    let entries = profile_from_str(
        r#"
            path:
              to:
                target1: path/to/source1
              to/target2: path/to/source2
            path/to/target3: path/to/source3
            "#,
    )
    .into_entries()
    .unwrap();
    assert_entries(
        &entries,
        &[
            ("path/to/target1", "path/to/source1", AttrType::Copy, false),
            ("path/to/target2", "path/to/source2", AttrType::Copy, false),
            ("path/to/target3", "path/to/source3", AttrType::Copy, false),
        ],
    );
}

#[test]
fn inherited_from_attribute() {
    let entries = profile_from_str(
        r#"
            path/to/target:
              ~source: path/to/source
              child1: path/to/child1
              child2:
                ~type: link
            "#,
    )
    .into_entries()
    .unwrap();
    assert_entries(
        &entries,
        &[
            ("path/to/target", "path/to/source", AttrType::Copy, false),
            ("path/to/target/child1", "path/to/child1", AttrType::Copy, false),
            (
                "path/to/target/child2",
                "path/to/source/child2",
                AttrType::Link,
                false,
            ),
        ],
    );
}

fn test_into_entries_error(s: &str, f: impl FnOnce(Error) -> bool) {
    let result = profile_from_str(s).into_entries();
    assert!(f(result.unwrap_err()))
}

fn expects_unexpected_children(want: &str) -> impl '_ + FnOnce(Error) -> bool {
    move |err| matches!(err, Error::UnexpectedChildren(p) if p == path(want))
}

#[test]
fn unexpected_children() {
    test_into_entries_error(
        r#"
            path/to/target:
              ~source: path/to/source
              ~type: link
              child1: path/to/child1
            "#,
        expects_unexpected_children("path/to/target"),
    );
    test_into_entries_error(
        r#"
            path/to/target:
              ~source: path/to/source
              ~type: template
              ~recursive: false
              child1: path/to/child1
            "#,
        expects_unexpected_children("path/to/target"),
    );
}

#[test]
fn normalized_path_attributes() {
    let node = node_from_str(
        r#"
            ~source: skip/../path/to/root
            /path/to/./target1: ../path/to/source1
            "#,
    );
    let expected = ProfileNode {
        attr: path_only_attr(path("path/to/root")),
        children: vec![(path("path/to/target1"), path_only_node("path/to/source1"))],
    };
    assert_eq!(node, expected);
}

#[test]
fn deserialize_profile_attr() {
    let doc = document_from_str(
        r#"
            ~source: path/to/source
            ~type: link
            ~undefined_attr: ...
            ~recursive: true
            "#,
    );
    let node = ProfileNode::from_document(&doc, &Vec::new(), false).unwrap();
    let attr = ProfileAttrBuilder {
        source: Some(path("path/to/source")),
        ty: Some(AttrType::Link),
        recursive: Some(true),
        ignore: None,
    };
    assert_eq!(node.attr, attr);
    assert!(node.children.is_empty());
    assert_eq!(unknown_attributes(&doc), vec!["~undefined_attr".to_string()]);
}

#[test]
fn deserialize_profile_node() {
    let node = node_from_str(
        r#"
            target1: path/to/source1
            target2:
              ~source: path/to/source2
            "#,
    );
    let child1 = path_only_node("path/to/source1");
    let child2 = path_only_node("path/to/source2");
    let expected = ProfileNode {
        attr: ProfileAttrBuilder::new(),
        children: vec![(path("target1"), child1), (path("target2"), child2)],
    };
    assert_eq!(node, expected);
}

#[test]
fn deserialize_pattern() {
    let node = node_from_str("~ignore: abc/**/def");
    let list = node.attr.ignore.unwrap();
    assert_eq!(list, PatternSetBuilder::new(vec!["abc/**/def".to_string()]));
    list.build().unwrap();
}

#[test]
fn deserialize_pattern_set_builder() {
    node_from_str("~ignore: abc/**/def")
        .attr
        .ignore
        .unwrap()
        .build()
        .unwrap();
    let list = node_from_str(
        r#"
            ~ignore:
            - abc/**/def
            - xyz/**
            "#,
    )
    .attr
    .ignore
    .unwrap();
    assert_eq!(
        list,
        PatternSetBuilder::new(vec!["abc/**/def".to_string(), "xyz/**".to_string()])
    );
    list.build().unwrap();
}

#[test]
fn later_declaration_replaces_child_of_same_target() {
    let node = node_from_str(
        r#"
            a/b: first
            a/./b: second
            "#,
    );
    assert_eq!(node.children, vec![(path("a/b"), path_only_node("second"))]);
}

#[test]
fn text_node_may_name_a_type() {
    let attr = parse_attribute("<template>", false).unwrap();
    assert_eq!(attr.ty, Some(AttrType::Template));
    assert_eq!(attr.source, None);
    assert_eq!(parse_attribute("<copy>", false).unwrap().ty, Some(AttrType::Copy));
    assert_eq!(parse_attribute("<link>", false).unwrap().ty, Some(AttrType::Link));
    assert_eq!(parse_attribute("<link", false), Err(Error::TypeMustEndWithGt));
    assert_eq!(parse_attribute("<", false), Err(Error::TypeMustEndWithGt));
    assert_eq!(
        parse_attribute("<socket>", false),
        Err(Error::UnknownType("<socket>".to_string()))
    );
    assert_eq!(parse_attribute("<>", false), Err(Error::UnknownType("<>".to_string())));
    assert_eq!(
        parse_attribute("a/../b/c", false).unwrap(),
        path_only_attr(path("b/c"))
    );
    assert_eq!(
        parse_attribute("d:/x", true),
        Err(Error::InvalidPath("d:/x".to_string()))
    );
    assert_eq!(
        parse_attribute("d:/x", false).unwrap(),
        path_only_attr(path("d:/x"))
    );
}

#[test]
fn documents_of_other_shapes_are_no_profile() {
    let at = path("x/y");
    for doc in [
        Document::Null,
        Document::Bool(true),
        Document::Number("1".to_string()),
        Document::List(vec![]),
    ] {
        assert_eq!(
            ProfileNode::from_document(&doc, &at, false),
            Err(Error::InvalidProfile(at.clone()))
        );
    }
    let doc = document_from_str("a:\n  b:\n    ~recursive: yes please\n");
    assert_eq!(
        Profile::from_document(&doc, false),
        Err(Error::InvalidProfile(path("a/b")))
    );
    let doc = document_from_str("a:\n  ~type: socket\n");
    assert_eq!(
        Profile::from_document(&doc, false),
        Err(Error::UnknownType("socket".to_string()))
    );
    let doc = document_from_str("a:\n  ~ignore: [x, 1]\n");
    assert_eq!(
        Profile::from_document(&doc, false),
        Err(Error::InvalidProfile(path("a")))
    );
    let doc = document_from_str("1: x\n");
    assert_eq!(
        Profile::from_document(&doc, false),
        Err(Error::InvalidProfile(Vec::new()))
    );
    let doc = document_from_str("\"c:/x\": y\n");
    assert_eq!(
        Profile::from_document(&doc, true),
        Err(Error::InvalidPath("c:/x".to_string()))
    );
    assert_eq!(
        Profile::from_document(&doc, false).unwrap().root.children,
        vec![(path("c:/x"), path_only_node("y"))]
    );
    let doc = document_from_str("a:\n  ~source: \"c:/x\"\n");
    assert_eq!(
        Profile::from_document(&doc, true),
        Err(Error::InvalidPath("c:/x".to_string()))
    );
}

#[test]
fn invalid_pattern_shows_when_entries_are_built() {
    let profile = profile_from_str(
        r#"
            a:
              ~source: s
              ~ignore: "[unclosed"
            "#,
    );
    assert_eq!(
        profile.into_entries().unwrap_err(),
        Error::InvalidPatternSet(path("a"))
    );
}

#[test]
fn invalid_pattern_is_found_at_the_entry_finished_first() {
    // Children are finished before their parent, so the child that
    // inherits the list is named, not the node that declares it.
    let profile = profile_from_str(
        r#"
            a:
              ~source: s
              ~ignore: "[unclosed"
              b:
                ~type: copy
            "#,
    );
    assert_eq!(
        profile.into_entries().unwrap_err(),
        Error::InvalidPatternSet(path("a/b"))
    );
    // A node is checked for its children before they are walked.
    let profile = profile_from_str(
        r#"
            a:
              ~source: s
              ~type: link
              ~ignore: "[unclosed"
              b: x
            "#,
    );
    assert_eq!(
        profile.into_entries().unwrap_err(),
        Error::UnexpectedChildren(path("a"))
    );
    // What is walked first decides between the two.
    let profile = profile_from_str(
        r#"
            a:
              ~source: s
              ~ignore: "[unclosed"
            b:
              ~source: s
              ~type: link
              c: x
            "#,
    );
    assert_eq!(
        profile.into_entries().unwrap_err(),
        Error::InvalidPatternSet(path("a"))
    );
    let profile = profile_from_str(
        r#"
            b:
              ~source: s
              ~type: link
              c: x
            a:
              ~source: s
              ~ignore: "[unclosed"
            "#,
    );
    assert_eq!(
        profile.into_entries().unwrap_err(),
        Error::UnexpectedChildren(path("b"))
    );
}

#[test]
fn empty_ignore_list_always_compiles() {
    let entries = profile_from_str(
        r#"
            a:
              ~source: s
              ~ignore: []
            "#,
    )
    .into_entries()
    .unwrap();
    assert_entries(&entries, &[("a", "s", AttrType::Copy, false)]);
    assert!(!entries.0[0].1.ignore.is_match("anything"));
}

#[test]
fn refused_node_leaves_collected_entries_as_they_were() {
    let mut link = path_only_attr(path("s"));
    link.ty = Some(AttrType::Link);
    let node = ComponentNode {
        attr: link,
        children: vec![("child".to_string(), path_only_component_node("x"))],
    };
    let kept = path_only_attr(path("kept"))
        .build(&path("k"))
        .unwrap()
        .unwrap();
    let mut collected = ProfileEntries(vec![(path("k"), kept)]);
    let result = collect_entries_from_node(
        &path("t"),
        &node,
        &path("p"),
        &ProfileAttrBuilder::new(),
        &mut collected,
    );
    assert_eq!(result, Err(Error::UnexpectedChildren(path("p/t"))));
    assert_eq!(collected.0.len(), 1);
    assert_eq!(collected.0[0].0, path("k"));
    assert_eq!(collected.0[0].1.source, path("kept"));

    let mut template = ProfileAttrBuilder::new();
    template.ty = Some(AttrType::Template);
    template.recursive = Some(false);
    let node = ComponentNode {
        attr: ProfileAttrBuilder::new(),
        children: vec![("child".to_string(), path_only_component_node("x"))],
    };
    let result = collect_entries_from_node(&path("t"), &node, &path("p"), &template, &mut collected);
    assert_eq!(result, Err(Error::UnexpectedChildren(path("p/t"))));
    assert_eq!(collected.0.len(), 1);

    let mut recursive = ProfileAttrBuilder::new();
    recursive.ty = Some(AttrType::Template);
    recursive.recursive = Some(true);
    let result =
        collect_entries_from_node(&path("t"), &node, &path("p"), &recursive, &mut collected);
    assert_eq!(result, Ok(()));
    assert_eq!(collected.0.len(), 2);
    assert_eq!(collected.0[1].0, path("p/t/child"));
    assert_eq!(collected.0[1].1.source, path("x"));
    assert_eq!(collected.0[1].1.ty, AttrType::Template);
}

#[test]
fn entries_are_sorted_by_target_components() {
    let entries = profile_from_str(
        r#"
            b: s1
            a/c: s2
            a: s3
            a.b: s4
            a-b: s5
            "#,
    )
    .into_entries()
    .unwrap();
    let targets: Vec<Vec<String>> = entries.0.iter().map(|(t, _)| t.clone()).collect();
    assert_eq!(
        targets,
        vec![path("a"), path("a/c"), path("a-b"), path("a.b"), path("b")]
    );
}

#[test]
fn intermediate_nodes_without_source_are_dropped() {
    let entries = profile_from_str(
        r#"
            a/b/c: s
            "#,
    )
    .into_entries()
    .unwrap();
    assert_entries(&entries, &[("a/b/c", "s", AttrType::Copy, false)]);
    let entries = profile_from_str(
        r#"
            a:
              ~source: s
              ~type: template
              ~recursive: true
              b/c:
                ~recursive: false
            "#,
    )
    .into_entries()
    .unwrap();
    assert_entries(
        &entries,
        &[
            ("a", "s", AttrType::Template, true),
            ("a/b", "s/b", AttrType::Template, true),
            ("a/b/c", "s/b/c", AttrType::Template, false),
        ],
    );
}
