//! Reading a profile from a document.
//!
//! A node is written as a text, which names its source, or as a table. In
//! a table a key that begins with `~` sets an attribute of the node, and
//! any other key is the target of a child, relative to the node.

use crate::attr::{no_attr, AttrType, AttrView, ProfileAttrBuilder};
use crate::document::{list_value, pair_count, table_value, Document, DocumentView};
use crate::entries::Profile;
use crate::error::{Error, ErrorView};
use crate::path::{
    clone_path, is_refused, join, normalize_path, normalized, push_text, same_path,
    PathView,
};
use crate::pattern::PatternSetBuilder;
use crate::profile::{
    children_value, children_well_declared, distinct_child_targets, lemma_target_index,
    lemma_target_index_divides, target_index, well_declared, NodeView, ProfileNode,
};
use vstd::prelude::*;
use vstd::string::*;

verus! {

/// Whether two texts are the same.
pub fn text_is(a: &str, b: &str) -> (r: bool)
    ensures
        r == (a@ == b@),
{
    a.to_owned() == b.to_owned()
}

/// The type that a name stands for: `copy`, `link` or `template`.
pub open spec fn type_named(name: Seq<char>) -> Option<AttrType> {
    if name == "copy"@ {
        Some(AttrType::Copy)
    } else if name == "link"@ {
        Some(AttrType::Link)
    } else if name == "template"@ {
        Some(AttrType::Template)
    } else {
        None
    }
}

/// The type that a name stands for, if it stands for one.
pub fn attr_type_of(name: &str) -> (r: Option<AttrType>)
    ensures
        r == type_named(name@),
{
    if text_is(name, "copy") {
        Some(AttrType::Copy)
    } else if text_is(name, "link") {
        Some(AttrType::Link)
    } else if text_is(name, "template") {
        Some(AttrType::Template)
    } else {
        None
    }
}

/// What a node that is written as a text declares: a type where the text
/// is `<` and `>` around the name of one, and otherwise a source, the text
/// in normal form. `prefixes` says whether paths have prefixes on the
/// platform.
pub open spec fn parsed_attribute(text: Seq<char>, prefixes: bool) -> Result<AttrView, ErrorView> {
    if text.len() > 0 && text[0] == '<' {
        if text.last() == '>' {
            match type_named(text.subrange(1, text.len() - 1)) {
                Some(ty) => Ok(AttrView { ty: Some(ty), ..no_attr() }),
                None => Err(ErrorView::UnknownType(text)),
            }
        } else {
            Err(ErrorView::TypeMustEndWithGt)
        }
    } else if is_refused(text, prefixes) {
        Err(ErrorView::InvalidPath(text))
    } else {
        Ok(AttrView { source: Some(normalized(text)), ..no_attr() })
    }
}

/// Reads the attributes of a node that is written as a text.
pub fn parse_attribute(s: &str, prefixes: bool) -> (r: Result<ProfileAttrBuilder, Error>)
    ensures
        match parsed_attribute(s@, prefixes) {
            Ok(attr) => r is Ok && r->Ok_0@ == attr,
            Err(e) => r is Err && r->Err_0@ == e,
        },
{
    let n = s.unicode_len();
    if n > 0 && s.get_char(0) == '<' {
        if s.get_char(n - 1) == '>' {
            let name = s.substring_char(1, n - 1);
            match attr_type_of(name) {
                Some(ty) => Ok(
                    ProfileAttrBuilder { source: None, ty: Some(ty), recursive: None, ignore: None },
                ),
                None => Err(Error::UnknownType(s.to_owned())),
            }
        } else {
            Err(Error::TypeMustEndWithGt)
        }
    } else {
        match normalize_path(s, prefixes) {
            Ok(source) => Ok(
                ProfileAttrBuilder { source: Some(source), ty: None, recursive: None, ignore: None },
            ),
            Err(e) => Err(e),
        }
    }
}

/// Whether every document of the list is a text.
pub open spec fn all_texts(items: Seq<DocumentView>) -> bool {
    forall|i: int| 0 <= i < items.len() ==> (#[trigger] items[i]) is Text
}

/// The texts of a list of documents that are all texts.
pub open spec fn texts_of(items: Seq<DocumentView>) -> Seq<Seq<char>> {
    Seq::new(items.len(), |i: int| items[i]->Text_0)
}

/// The attributes `attr` after the attribute `name` is given the value
/// `value`, in a node at `at`.
///
/// `source` takes a text, a path that is then brought into normal form;
/// `type` takes the name of a type; `recursive` takes a boolean; `ignore`
/// takes one text or a list of texts. A value of another kind makes the
/// profile invalid at `at`. An attribute of any other name is not known
/// and changes nothing.
pub open spec fn with_attribute(
    attr: AttrView,
    name: Seq<char>,
    value: DocumentView,
    at: PathView,
    prefixes: bool,
) -> Result<AttrView, ErrorView> {
    if name == "source"@ {
        match value {
            DocumentView::Text(s) => if is_refused(s, prefixes) {
                Err(ErrorView::InvalidPath(s))
            } else {
                Ok(AttrView { source: Some(normalized(s)), ..attr })
            },
            _ => Err(ErrorView::InvalidProfile(at)),
        }
    } else if name == "type"@ {
        match value {
            DocumentView::Text(s) => match type_named(s) {
                Some(ty) => Ok(AttrView { ty: Some(ty), ..attr }),
                None => Err(ErrorView::UnknownType(s)),
            },
            _ => Err(ErrorView::InvalidProfile(at)),
        }
    } else if name == "recursive"@ {
        match value {
            DocumentView::Bool(b) => Ok(AttrView { recursive: Some(b), ..attr }),
            _ => Err(ErrorView::InvalidProfile(at)),
        }
    } else if name == "ignore"@ {
        match value {
            DocumentView::Text(s) => Ok(AttrView { ignore: Some(seq![s]), ..attr }),
            DocumentView::List(items) => if all_texts(items) {
                Ok(AttrView { ignore: Some(texts_of(items)), ..attr })
            } else {
                Err(ErrorView::InvalidProfile(at))
            },
            _ => Err(ErrorView::InvalidProfile(at)),
        }
    } else {
        Ok(attr)
    }
}

/// The texts of a list of documents, or nothing where one of them is no
/// text.
fn read_texts(items: &Vec<Document>) -> (r: Option<Vec<String>>)
    ensures
        r is Some <==> all_texts(list_value(items@)),
        r is Some ==> r->Some_0.deep_view() == texts_of(list_value(items@)),
{
    let mut out: Vec<String> = Vec::new();
    let mut i: usize = 0;
    while i < items.len()
        invariant
            i <= items.len(),
            all_texts(list_value(items@).take(i as int)),
            out.deep_view() == texts_of(list_value(items@).take(i as int)),
        decreases items.len() - i,
    {
        match &items[i] {
            Document::Text(s) => {
                push_text(&mut out, s.clone());
                assert(list_value(items@)[i as int] == DocumentView::Text(s@));
                assert(out.deep_view() =~= texts_of(list_value(items@).take(i + 1)));
                assert forall|j: int| 0 <= j < i + 1 implies (#[trigger] list_value(items@).take(
                    i + 1,
                )[j]) is Text by {
                    if j < i {
                        assert(list_value(items@).take(i as int)[j] is Text);
                    }
                }
            },
            _ => {
                assert(!(list_value(items@)[i as int] is Text));
                return None;
            },
        }
        i += 1;
    }
    assert(list_value(items@).take(i as int) =~= list_value(items@));
    Some(out)
}

/// Gives the attribute `name` of `attr` the value `value`, in a node at
/// `at`.
pub fn set_attribute(
    attr: ProfileAttrBuilder,
    name: &str,
    value: &Document,
    at: &Vec<String>,
    prefixes: bool,
) -> (r: Result<ProfileAttrBuilder, Error>)
    ensures
        match with_attribute(attr@, name@, value@, at.deep_view(), prefixes) {
            Ok(next) => r is Ok && r->Ok_0@ == next,
            Err(e) => r is Err && r->Err_0@ == e,
        },
{
    let mut attr = attr;
    if text_is(name, "source") {
        match value {
            Document::Text(s) => match normalize_path(s.as_str(), prefixes) {
                Ok(source) => {
                    attr.source = Some(source);
                    Ok(attr)
                },
                Err(e) => Err(e),
            },
            _ => Err(Error::InvalidProfile(clone_path(at))),
        }
    } else if text_is(name, "type") {
        match value {
            Document::Text(s) => match attr_type_of(s.as_str()) {
                Some(ty) => {
                    attr.ty = Some(ty);
                    Ok(attr)
                },
                None => Err(Error::UnknownType(s.clone())),
            },
            _ => Err(Error::InvalidProfile(clone_path(at))),
        }
    } else if text_is(name, "recursive") {
        match value {
            Document::Bool(b) => {
                attr.recursive = Some(*b);
                Ok(attr)
            },
            _ => Err(Error::InvalidProfile(clone_path(at))),
        }
    } else if text_is(name, "ignore") {
        match value {
            Document::Text(s) => {
                let mut globs: Vec<String> = Vec::new();
                push_text(&mut globs, s.clone());
                assert(globs.deep_view() =~= seq![s@]);
                attr.ignore = Some(PatternSetBuilder::new(globs));
                Ok(attr)
            },
            Document::List(items) => match read_texts(items) {
                Some(globs) => {
                    attr.ignore = Some(PatternSetBuilder::new(globs));
                    Ok(attr)
                },
                None => Err(Error::InvalidProfile(clone_path(at))),
            },
            _ => Err(Error::InvalidProfile(clone_path(at))),
        }
    } else {
        Ok(attr)
    }
}

/// The children after `child` is declared for the target `key`: it takes
/// the place of a child declared for that target before, or is added at
/// the end.
pub open spec fn put_child(children: Seq<(PathView, NodeView)>, key: PathView, child: NodeView) -> Seq<
    (PathView, NodeView),
> {
    let i = target_index(children, key) as int;
    if i < children.len() {
        children.update(i, (key, child))
    } else {
        children.push((key, child))
    }
}

/// Whether a key of a table sets an attribute: it begins with `~`.
pub open spec fn is_reserved(key: Seq<char>) -> bool {
    key.len() > 0 && key[0] == '~'
}

/// The node that the document declares at the target `at`, or why it
/// declares none.
///
/// A text declares what [`parsed_attribute`] says. A table declares its
/// pairs in order. Any other document makes the profile invalid at `at`.
pub open spec fn decoded(doc: DocumentView, at: PathView, prefixes: bool) -> Result<
    NodeView,
    ErrorView,
>
    decreases doc, pair_count(doc) + 1,
{
    match doc {
        DocumentView::Text(s) => match parsed_attribute(s, prefixes) {
            Ok(attr) => Ok(NodeView { attr, children: Seq::empty() }),
            Err(e) => Err(e),
        },
        DocumentView::Table(pairs) => decoded_pairs(doc, at, pairs.len(), prefixes),
        _ => Err(ErrorView::InvalidProfile(at)),
    }
}

/// The node that the first `n` pairs of the table `doc` declare at `at`.
///
/// A key must be a text. A reserved key gives the attribute named behind
/// the `~` the pair's value. Any other key is brought into normal form,
/// and the pair's value declares the child for that target.
pub open spec fn decoded_pairs(doc: DocumentView, at: PathView, n: nat, prefixes: bool) -> Result<
    NodeView,
    ErrorView,
>
    decreases doc, n,
{
    match doc {
        DocumentView::Table(pairs) => {
            if n == 0 || n > pairs.len() {
                Ok(NodeView { attr: no_attr(), children: Seq::empty() })
            } else {
                match decoded_pairs(doc, at, (n - 1) as nat, prefixes) {
                    Err(e) => Err(e),
                    Ok(node) => match pairs[n - 1].0 {
                        DocumentView::Text(key) => {
                            if is_reserved(key) {
                                match with_attribute(
                                    node.attr,
                                    key.skip(1),
                                    pairs[n - 1].1,
                                    at,
                                    prefixes,
                                ) {
                                    Ok(attr) => Ok(NodeView { attr, children: node.children }),
                                    Err(e) => Err(e),
                                }
                            } else if is_refused(key, prefixes) {
                                Err(ErrorView::InvalidPath(key))
                            } else {
                                match decoded(pairs[n - 1].1, at + normalized(key), prefixes) {
                                    Ok(child) => Ok(
                                        NodeView {
                                            attr: node.attr,
                                            children: put_child(
                                                node.children,
                                                normalized(key),
                                                child,
                                            ),
                                        },
                                    ),
                                    Err(e) => Err(e),
                                }
                            }
                        },
                        _ => Err(ErrorView::InvalidProfile(at)),
                    },
                }
            }
        },
        _ => Err(ErrorView::InvalidProfile(at)),
    }
}

/// Declaring a child that holds each target once, among children of which
/// each does and no two are for the same target, leaves them so.
pub proof fn lemma_put_child_well_declared(
    children: Seq<(PathView, NodeView)>,
    key: PathView,
    child: NodeView,
)
    requires
        distinct_child_targets(children),
        children_well_declared(children),
        well_declared(child),
    ensures
        distinct_child_targets(put_child(children, key, child)),
        children_well_declared(put_child(children, key, child)),
{
    let i = target_index(children, key) as int;
    lemma_target_index_divides(children, key);
    let out = put_child(children, key, child);
    assert forall|k: int| 0 <= k < out.len() implies well_declared((#[trigger] out[k]).1) by {
        if k < children.len() && k != i {
            assert(out[k] == children[k]);
        }
    }
    assert forall|a: int, b: int| 0 <= a < b < out.len() implies (#[trigger] out[a]).0 != (
    #[trigger] out[b]).0 by {
        if a < children.len() {
            assert(out[a].0 == children[a].0);
        }
        if b < children.len() {
            assert(out[b].0 == children[b].0);
        }
    }
}

/// A node that a document declares holds each target once.
pub proof fn lemma_decoded_well_declared(doc: DocumentView, at: PathView, prefixes: bool)
    ensures
        decoded(doc, at, prefixes) is Ok ==> well_declared(decoded(doc, at, prefixes)->Ok_0),
    decreases doc, pair_count(doc) + 1,
{
    match doc {
        DocumentView::Table(pairs) => {
            lemma_decoded_pairs_well_declared(doc, at, pairs.len(), prefixes);
        },
        _ => {},
    }
}

/// A node that the first `n` pairs of a table declare holds each target
/// once.
pub proof fn lemma_decoded_pairs_well_declared(
    doc: DocumentView,
    at: PathView,
    n: nat,
    prefixes: bool,
)
    ensures
        decoded_pairs(doc, at, n, prefixes) is Ok ==> well_declared(
            decoded_pairs(doc, at, n, prefixes)->Ok_0,
        ),
    decreases doc, n,
{
    match doc {
        DocumentView::Table(pairs) => {
            if !(n == 0 || n > pairs.len()) {
                lemma_decoded_pairs_well_declared(doc, at, (n - 1) as nat, prefixes);
                if decoded_pairs(doc, at, n, prefixes) is Ok {
                    let node = decoded_pairs(doc, at, (n - 1) as nat, prefixes)->Ok_0;
                    match pairs[n - 1].0 {
                        DocumentView::Text(key) => {
                            if !is_reserved(key) {
                                lemma_decoded_well_declared(
                                    pairs[n - 1].1,
                                    at + normalized(key),
                                    prefixes,
                                );
                                assert(children_well_declared(node.children));
                                lemma_put_child_well_declared(
                                    node.children,
                                    normalized(key),
                                    decoded(pairs[n - 1].1, at + normalized(key), prefixes)->Ok_0,
                                );
                            }
                        },
                        _ => {},
                    }
                }
            }
        },
        _ => {},
    }
}

/// An error among the first `n` pairs of a table is the outcome for any
/// greater number of its pairs.
pub proof fn lemma_decoded_error_stays(
    doc: DocumentView,
    at: PathView,
    n: nat,
    m: nat,
    prefixes: bool,
)
    requires
        n <= m <= pair_count(doc),
        decoded_pairs(doc, at, n, prefixes) is Err,
    ensures
        decoded_pairs(doc, at, m, prefixes) == decoded_pairs(doc, at, n, prefixes),
    decreases m,
{
    if n < m {
        lemma_decoded_error_stays(doc, at, n, (m - 1) as nat, prefixes);
    }
}

/// Declares `child` for the target `key` among the children.
fn put(children: &mut Vec<(Vec<String>, ProfileNode)>, key: Vec<String>, child: ProfileNode)
    ensures
        children_value(final(children)@) == put_child(
            children_value(old(children)@),
            key.deep_view(),
            child@,
        ),
{
    let ghost before = children_value(children@);
    let mut k: usize = 0;
    let mut found = false;
    while k < children.len() && !found
        invariant
            k <= children.len(),
            forall|j: int| 0 <= j < k ==> before[j].0 != key.deep_view(),
            found ==> k < children.len() && before[k as int].0 == key.deep_view(),
            before == children_value(children@),
        decreases children.len() - k + (if found { 0int } else { 1int }),
    {
        if same_path(&children[k].0, &key) {
            found = true;
        } else {
            k += 1;
        }
    }
    proof {
        lemma_target_index(before, key.deep_view(), k as int);
    }
    let ghost pair = (key.deep_view(), child@);
    if found {
        children.remove(k);
        children.insert(k, (key, child));
        assert(children_value(children@) =~= before.update(k as int, pair));
    } else {
        children.push((key, child));
        assert(children_value(children@) =~= before.push(pair));
    }
}

impl ProfileNode {
    /// Reads the node that a document declares at the target `at`.
    #[verifier::loop_isolation(false)]
    pub fn from_document(doc: &Document, at: &Vec<String>, prefixes: bool) -> (r: Result<
        ProfileNode,
        Error,
    >)
        ensures
            match decoded(doc@, at.deep_view(), prefixes) {
                Ok(node) => r is Ok && r->Ok_0@ == node,
                Err(e) => r is Err && r->Err_0@ == e,
            },
            r is Ok ==> well_declared(r->Ok_0@),
        decreases doc,
    {
        proof {
            lemma_decoded_well_declared(doc@, at.deep_view(), prefixes);
        }
        match doc {
            Document::Text(s) => match parse_attribute(s.as_str(), prefixes) {
                Ok(attr) => {
                    let node = ProfileNode { attr, children: Vec::new() };
                    assert(node@.children =~= Seq::empty());
                    Ok(node)
                },
                Err(e) => Err(e),
            },
            Document::Table(pairs) => {
                let mut attr = ProfileAttrBuilder::new();
                let mut children: Vec<(Vec<String>, ProfileNode)> = Vec::new();
                let mut n: usize = 0;
                assert(children_value(children@) =~= Seq::empty());
                assert(doc@ == DocumentView::Table(table_value(pairs@)));
                while n < pairs.len()
                    invariant
                        n <= pairs.len(),
                        decoded_pairs(doc@, at.deep_view(), n as nat, prefixes) == Ok::<
                            NodeView,
                            ErrorView,
                        >(
                            NodeView { attr: attr@, children: children_value(children@) },
                        ),
                    decreases pairs.len() - n,
                {
                    assert(table_value(pairs@)[n as int] == (pairs[n as int].0@, pairs[n as int].1@));
                    assert(decreases_to!(pairs => pairs[n as int]));
                    let ghost here = (n + 1) as nat;
                    match &pairs[n].0 {
                        Document::Text(key) => {
                            let len = key.as_str().unicode_len();
                            if len > 0 && key.as_str().get_char(0) == '~' {
                                let name = key.as_str().substring_char(1, len);
                                assert(name@ =~= key@.skip(1));
                                match set_attribute(attr, name, &pairs[n].1, at, prefixes) {
                                    Ok(next) => {
                                        attr = next;
                                    },
                                    Err(e) => {
                                        proof {
                                            lemma_decoded_error_stays(
                                                doc@,
                                                at.deep_view(),
                                                here,
                                                pairs.len() as nat,
                                                prefixes,
                                            );
                                        }
                                        return Err(e);
                                    },
                                }
                            } else {
                                match normalize_path(key.as_str(), prefixes) {
                                    Ok(dest) => {
                                        let child_at = join(at, &dest);
                                        match ProfileNode::from_document(
                                            &pairs[n].1,
                                            &child_at,
                                            prefixes,
                                        ) {
                                            Ok(child) => {
                                                put(&mut children, dest, child);
                                            },
                                            Err(e) => {
                                                proof {
                                                    lemma_decoded_error_stays(
                                                        doc@,
                                                        at.deep_view(),
                                                        here,
                                                        pairs.len() as nat,
                                                prefixes,
                                                    );
                                                }
                                                return Err(e);
                                            },
                                        }
                                    },
                                    Err(e) => {
                                        proof {
                                            lemma_decoded_error_stays(
                                                doc@,
                                                at.deep_view(),
                                                here,
                                                pairs.len() as nat,
                                                prefixes,
                                            );
                                        }
                                        return Err(e);
                                    },
                                }
                            }
                        },
                        _ => {
                            proof {
                                lemma_decoded_error_stays(
                                    doc@,
                                    at.deep_view(),
                                    here,
                                    pairs.len() as nat,
                                                prefixes,
                                );
                            }
                            return Err(Error::InvalidProfile(clone_path(at)));
                        },
                    }
                    n += 1;
                }
                Ok(ProfileNode { attr, children })
            },
            _ => Err(Error::InvalidProfile(clone_path(at))),
        }
    }
}

impl Profile {
    /// Reads the profile that a document declares. `prefixes` says whether
    /// paths have prefixes on the platform.
    pub fn from_document(doc: &Document, prefixes: bool) -> (r: Result<Profile, Error>)
        ensures
            match decoded(doc@, Seq::empty(), prefixes) {
                Ok(node) => r is Ok && r->Ok_0@ == node,
                Err(e) => r is Err && r->Err_0@ == e,
            },
            r is Ok ==> well_declared(r->Ok_0@),
    {
        let top: Vec<String> = Vec::new();
        assert(top.deep_view() =~= Seq::empty());
        match ProfileNode::from_document(doc, &top, prefixes) {
            Ok(root) => Ok(Profile { root }),
            Err(e) => Err(e),
        }
    }
}

/// Whether a profile knows the attribute of this name.
pub open spec fn is_known(name: Seq<char>) -> bool {
    name == "source"@ || name == "type"@ || name == "recursive"@ || name == "ignore"@
}

/// The reserved keys of the document, and of the children that it
/// declares, that name no known attribute, in order.
pub open spec fn unknown_keys(doc: DocumentView) -> Seq<Seq<char>>
    decreases doc, pair_count(doc) + 1,
{
    match doc {
        DocumentView::Table(pairs) => unknown_keys_of(doc, pairs.len()),
        _ => Seq::empty(),
    }
}

/// The unknown keys among the first `n` pairs of the table `doc`.
pub open spec fn unknown_keys_of(doc: DocumentView, n: nat) -> Seq<Seq<char>>
    decreases doc, n,
{
    match doc {
        DocumentView::Table(pairs) => {
            if n == 0 || n > pairs.len() {
                Seq::empty()
            } else {
                unknown_keys_of(doc, (n - 1) as nat) + (match pairs[n - 1].0 {
                    DocumentView::Text(key) => {
                        if is_reserved(key) {
                            if is_known(key.skip(1)) {
                                Seq::empty()
                            } else {
                                seq![key]
                            }
                        } else {
                            unknown_keys(pairs[n - 1].1)
                        }
                    },
                    _ => Seq::empty(),
                })
            }
        },
        _ => Seq::empty(),
    }
}

/// Adds the unknown keys of the document to `out`.
#[verifier::loop_isolation(false)]
fn collect_unknown(doc: &Document, out: &mut Vec<String>)
    ensures
        final(out).deep_view() == old(out).deep_view() + unknown_keys(doc@),
    decreases doc,
{
    match doc {
        Document::Table(pairs) => {
            let ghost before = out.deep_view();
            let mut n: usize = 0;
            assert(doc@ == DocumentView::Table(table_value(pairs@)));
            assert(out.deep_view() =~= before + unknown_keys_of(doc@, 0));
            while n < pairs.len()
                invariant
                    n <= pairs.len(),
                    out.deep_view() == before + unknown_keys_of(doc@, n as nat),
                decreases pairs.len() - n,
            {
                assert(table_value(pairs@)[n as int] == (pairs[n as int].0@, pairs[n as int].1@));
                assert(decreases_to!(pairs => pairs[n as int]));
                let ghost done = out.deep_view();
                match &pairs[n].0 {
                    Document::Text(key) => {
                        let len = key.as_str().unicode_len();
                        if len > 0 && key.as_str().get_char(0) == '~' {
                            let name = key.as_str().substring_char(1, len);
                            assert(name@ =~= key@.skip(1));
                            let known = text_is(name, "source") || text_is(name, "type") || text_is(
                                name,
                                "recursive",
                            ) || text_is(name, "ignore");
                            if !known {
                                push_text(out, key.clone());
                                assert(out.deep_view() =~= done + seq![key@]);
                            } else {
                                assert(out.deep_view() =~= done + Seq::<Seq<char>>::empty());
                            }
                        } else {
                            collect_unknown(&pairs[n].1, out);
                        }
                    },
                    _ => {
                        assert(out.deep_view() =~= done + Seq::<Seq<char>>::empty());
                    },
                }
                assert(out.deep_view() =~= before + unknown_keys_of(doc@, (n + 1) as nat));
                n += 1;
            }
        },
        _ => {
            assert(out.deep_view() =~= old(out).deep_view() + Seq::<Seq<char>>::empty());
        },
    }
}

/// The reserved keys of a document that name no attribute a profile knows.
///
/// Reading a profile passes over them; they are listed here for the caller
/// to report.
pub fn unknown_attributes(doc: &Document) -> (r: Vec<String>)
    ensures
        r.deep_view() == unknown_keys(doc@),
{
    let mut out: Vec<String> = Vec::new();
    assert(out.deep_view() =~= Seq::empty());
    collect_unknown(doc, &mut out);
    assert(out.deep_view() =~= unknown_keys(doc@));
    out
}

} // verus!
