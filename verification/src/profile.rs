//! Profiles: the declared tree, the tree keyed by single components, and
//! the entries that come of it.

use crate::attr::{
    attr_compiles, finished, inherit_attr, inherited, merged, no_attr, AttrView,
    ProfileAttrBuilder,
};
use crate::entries::EntryView;
use crate::error::{Error, ErrorView};
use crate::merge::Merge;
use crate::path::{clone_path, join, same_path, PathView};
use vstd::prelude::*;

pub use crate::attr::{AttrType, ProfileAttr};
pub use crate::entries::{Profile, ProfileEntries};

verus! {

/// A node of a profile as it is declared: its attributes, and its children
/// by their targets relative to it. Such a target may have several
/// components.
#[derive(Debug, PartialEq, Eq)]
pub struct ProfileNode {
    pub attr: ProfileAttrBuilder,
    pub children: Vec<(Vec<String>, ProfileNode)>,
}

/// The mathematical value of a [`ProfileNode`].
pub struct NodeView {
    pub attr: AttrView,
    pub children: Seq<(PathView, NodeView)>,
}

/// The value of the children of a declared node.
pub open spec fn children_value(children: Seq<(Vec<String>, ProfileNode)>) -> Seq<
    (PathView, NodeView),
>
    decreases children,
{
    Seq::new(
        children.len(),
        |i: int|
            if 0 <= i < children.len() {
                (children[i].0.deep_view(), node_value(children[i].1))
            } else {
                (Seq::empty(), NodeView { attr: no_attr(), children: Seq::empty() })
            },
    )
}

/// The value of a declared node.
pub open spec fn node_value(node: ProfileNode) -> NodeView
    decreases node,
{
    NodeView { attr: node.attr@, children: children_value(node.children@) }
}

impl View for ProfileNode {
    type V = NodeView;

    open spec fn view(&self) -> NodeView {
        node_value(*self)
    }
}

/// The index of the first child with the target `key`, or the number of
/// children where none has that target.
pub open spec fn target_index(children: Seq<(PathView, NodeView)>, key: PathView) -> nat
    decreases children.len(),
{
    if children.len() == 0 || children[0].0 == key {
        0
    } else {
        1 + target_index(children.skip(1), key)
    }
}

/// `target_index` is the one index before which no child has the target
/// and at which one has it, or the children end.
pub proof fn lemma_target_index(children: Seq<(PathView, NodeView)>, key: PathView, k: int)
    requires
        0 <= k <= children.len(),
        forall|j: int| 0 <= j < k ==> children[j].0 != key,
        k < children.len() ==> children[k].0 == key,
    ensures
        target_index(children, key) == k,
    decreases children.len(),
{
    if k > 0 {
        lemma_target_index(children.skip(1), key, k - 1);
    }
}

/// Before the index that `target_index` gives no child has the target, and
/// at it, if a child is there, the child has it.
pub proof fn lemma_target_index_divides(children: Seq<(PathView, NodeView)>, key: PathView)
    ensures
        target_index(children, key) <= children.len(),
        forall|j: int| 0 <= j < target_index(children, key) ==> (#[trigger] children[j]).0 != key,
        target_index(children, key) < children.len() ==> children[target_index(
            children,
            key,
        ) as int].0 == key,
    decreases children.len(),
{
    if !(children.len() == 0 || children[0].0 == key) {
        let rest = children.skip(1);
        lemma_target_index_divides(rest, key);
        assert forall|j: int| 0 <= j < target_index(children, key) implies (
        #[trigger] children[j]).0 != key by {
            if j > 0 {
                assert(children[j] == rest[j - 1]);
            }
        }
        if target_index(children, key) < children.len() {
            assert(children[target_index(children, key) as int] == rest[target_index(rest, key) as int]);
        }
    }
}

/// Whether no two of the children are declared for the same target.
pub open spec fn distinct_child_targets(children: Seq<(PathView, NodeView)>) -> bool {
    forall|i: int, j: int|
        0 <= i < j < children.len() ==> (#[trigger] children[i]).0 != (#[trigger] children[j]).0
}

/// Whether a declared node holds each target once: no node, here or below,
/// has two children for the same target.
pub open spec fn well_declared(node: NodeView) -> bool
    decreases node,
{
    distinct_child_targets(node.children) && forall|i: int|
        0 <= i < node.children.len() ==> well_declared((#[trigger] node.children[i]).1)
}

/// Whether each of the children holds each target once.
pub open spec fn children_well_declared(children: Seq<(PathView, NodeView)>) -> bool {
    forall|i: int| 0 <= i < children.len() ==> well_declared((#[trigger] children[i]).1)
}

/// Merging a node that holds each target once into one that does gives one
/// that does.
pub proof fn lemma_merged_node_well_declared(this: NodeView, other: NodeView)
    requires
        well_declared(this),
        well_declared(other),
    ensures
        well_declared(merged_node(this, other)),
    decreases other, other.children.len() + 1,
{
    assert(children_well_declared(this.children));
    lemma_merged_children_well_declared(this.children, other, other.children.len());
}

/// Merging children that hold each target once into children that do gives
/// children that do, with no two for the same target.
pub proof fn lemma_merged_children_well_declared(
    kept: Seq<(PathView, NodeView)>,
    other: NodeView,
    n: nat,
)
    requires
        distinct_child_targets(kept),
        children_well_declared(kept),
        well_declared(other),
    ensures
        distinct_child_targets(merged_children(kept, other, n)),
        children_well_declared(merged_children(kept, other, n)),
    decreases other, n,
{
    if !(n == 0 || n > other.children.len()) {
        let done = merged_children(kept, other, (n - 1) as nat);
        lemma_merged_children_well_declared(kept, other, (n - 1) as nat);
        let child = other.children[n - 1];
        assert(well_declared(child.1));
        let i = target_index(done, child.0) as int;
        lemma_target_index_divides(done, child.0);
        let out = merged_children(kept, other, n);
        if i < done.len() {
            assert(well_declared(done[i].1));
            lemma_merged_node_well_declared(done[i].1, child.1);
            assert forall|k: int| 0 <= k < out.len() implies well_declared(
                (#[trigger] out[k]).1,
            ) by {
                if k != i {
                    assert(out[k] == done[k]);
                }
            }
            assert forall|a: int, b: int| 0 <= a < b < out.len() implies (#[trigger] out[a]).0 != (
            #[trigger] out[b]).0 by {
                assert(out[a].0 == done[a].0);
                assert(out[b].0 == done[b].0);
            }
        } else {
            assert forall|k: int| 0 <= k < out.len() implies well_declared(
                (#[trigger] out[k]).1,
            ) by {
                if k < done.len() {
                    assert(out[k] == done[k]);
                }
            }
            assert forall|a: int, b: int| 0 <= a < b < out.len() implies (#[trigger] out[a]).0 != (
            #[trigger] out[b]).0 by {
                assert(out[a] == done[a]);
                if b < done.len() {
                    assert(out[b] == done[b]);
                }
            }
        }
    }
}

/// What merging the declared node `other` into `this` gives: the
/// attributes are merged, and the children are merged target by target.
pub open spec fn merged_node(this: NodeView, other: NodeView) -> NodeView
    decreases other, other.children.len() + 1,
{
    NodeView {
        attr: merged(this.attr, other.attr),
        children: merged_children(this.children, other, other.children.len()),
    }
}

/// The children `kept` after the first `n` children of `other` are merged
/// into them: a child for a new target is added at the end, and any other
/// is merged into the child that the target has.
pub open spec fn merged_children(kept: Seq<(PathView, NodeView)>, other: NodeView, n: nat) -> Seq<
    (PathView, NodeView),
>
    decreases other, n,
{
    if n == 0 || n > other.children.len() {
        kept
    } else {
        let done = merged_children(kept, other, (n - 1) as nat);
        let child = other.children[n - 1];
        let i = target_index(done, child.0) as int;
        if i < done.len() {
            done.update(i, (done[i].0, merged_node(done[i].1, child.1)))
        } else {
            done.push(child)
        }
    }
}

/// The index of the first child with the target `key`, or the number of
/// children.
fn find_target(children: &Vec<(Vec<String>, ProfileNode)>, key: &Vec<String>) -> (k: usize)
    ensures
        k == target_index(children_value(children@), key.deep_view()),
        k <= children.len(),
{
    let mut k: usize = 0;
    while k < children.len()
        invariant
            k <= children.len(),
            forall|j: int| 0 <= j < k ==> children_value(children@)[j].0 != key.deep_view(),
        decreases children.len() - k,
    {
        if same_path(&children[k].0, key) {
            proof {
                assert(children_value(children@)[k as int].0 == key.deep_view());
                lemma_target_index(children_value(children@), key.deep_view(), k as int);
            }
            return k;
        }
        assert(children_value(children@)[k as int].0 != key.deep_view());
        k += 1;
    }
    proof {
        lemma_target_index(children_value(children@), key.deep_view(), k as int);
    }
    k
}

impl ProfileNode {
    /// A node that declares nothing and has no children.
    pub fn new() -> (r: ProfileNode)
        ensures
            r@ == (NodeView { attr: no_attr(), children: Seq::empty() }),
    {
        let r = ProfileNode { attr: ProfileAttrBuilder::new(), children: Vec::new() };
        assert(r@.children =~= Seq::empty());
        r
    }

    /// A copy of the node and of all nodes below it.
    #[verifier::loop_isolation(false)]
    pub fn clone_node(&self) -> (r: ProfileNode)
        ensures
            r@ == self@,
        decreases self,
    {
        let mut children: Vec<(Vec<String>, ProfileNode)> = Vec::new();
        let mut i: usize = 0;
        while i < self.children.len()
            invariant
                i <= self.children.len(),
                children_value(children@) == children_value(self.children@).take(i as int),
            decreases self.children.len() - i,
        {
            assert(decreases_to!(self.children => self.children[i as int]));
            let key = clone_path(&self.children[i].0);
            let child = self.children[i].1.clone_node();
            let ghost before = children_value(children@);
            children.push((key, child));
            assert(children_value(children@) =~= before.push((key.deep_view(), child@)));
            assert(children_value(children@) =~= children_value(self.children@).take(i + 1));
            i += 1;
        }
        assert(children_value(self.children@).take(i as int) =~= children_value(self.children@));
        ProfileNode { attr: self.attr.clone_attr(), children }
    }
}

/// Merges the declared node `other` into `this`.
#[verifier::loop_isolation(false)]
fn merge_node(this: ProfileNode, other: &ProfileNode) -> (r: ProfileNode)
    ensures
        r@ == merged_node(this@, other@),
    decreases other,
{
    let ProfileNode { attr, children } = this;
    let mut attr = attr;
    let mut kept = children;
    let ghost start = children_value(kept@);
    attr.merge(other.attr.clone_attr());
    let mut n: usize = 0;
    while n < other.children.len()
        invariant
            n <= other.children.len(),
            children_value(kept@) == merged_children(start, other@, n as nat),
        decreases other.children.len() - n,
    {
        let ghost done = children_value(kept@);
        assert(other@.children[n as int] == (
            other.children[n as int].0.deep_view(),
            other.children[n as int].1@,
        ));
        assert(decreases_to!(other.children => other.children[n as int]));
        let k = find_target(&kept, &other.children[n].0);
        if k < kept.len() {
            let (key, child) = kept.remove(k);
            let child = merge_node(child, &other.children[n].1);
            let ghost pair = (key.deep_view(), child@);
            kept.insert(k, (key, child));
            assert(children_value(kept@) =~= done.update(k as int, pair));
        } else {
            let key = clone_path(&other.children[n].0);
            let child = other.children[n].1.clone_node();
            kept.push((key, child));
            assert(children_value(kept@) =~= done.push((key.deep_view(), child@)));
        }
        n += 1;
    }
    ProfileNode { attr, children: kept }
}

impl Merge for ProfileNode {
    /// Merges what `other` declares into `self`. Where both hold each
    /// target once, so does what comes of it.
    fn merge(&mut self, other: ProfileNode)
        ensures
            final(self)@ == merged_node(old(self)@, other@),
            well_declared(old(self)@) && well_declared(other@) ==> well_declared(final(self)@),
    {
        proof {
            if well_declared(self@) && well_declared(other@) {
                lemma_merged_node_well_declared(self@, other@);
            }
        }
        let mut this = ProfileNode::new();
        core::mem::swap(self, &mut this);
        *self = merge_node(this, &other);
    }
}

/// A node of the tree that is keyed by single components: its attributes,
/// and its children by name.
#[derive(Debug, PartialEq, Eq)]
pub struct ComponentNode {
    pub attr: ProfileAttrBuilder,
    pub children: Vec<(String, ComponentNode)>,
}

/// The mathematical value of a [`ComponentNode`].
pub struct ComponentView {
    pub attr: AttrView,
    pub children: Seq<(Seq<char>, ComponentView)>,
}

/// The tree of one node that declares nothing.
pub open spec fn empty_tree() -> ComponentView {
    ComponentView { attr: no_attr(), children: Seq::empty() }
}

/// The value of a component node.
pub open spec fn component_value(node: ComponentNode) -> ComponentView
    decreases node,
{
    ComponentView {
        attr: node.attr@,
        children: Seq::new(
            node.children@.len(),
            |i: int|
                if 0 <= i < node.children@.len() {
                    (node.children@[i].0@, component_value(node.children@[i].1))
                } else {
                    (Seq::empty(), empty_tree())
                },
        ),
    }
}

impl View for ComponentNode {
    type V = ComponentView;

    open spec fn view(&self) -> ComponentView {
        component_value(*self)
    }
}

/// One declaration: the full target of a declared node, and what the node
/// declares.
pub type Declaration = (PathView, AttrView);

/// The declarations of a node at the target `at` and of all nodes below it,
/// each node before its children, the children in their order.
pub open spec fn declarations(node: NodeView, at: PathView) -> Seq<Declaration>
    decreases node, node.children.len() + 1,
{
    seq![(at, node.attr)] + child_declarations(node, at, node.children.len())
}

/// The declarations of the first `n` children of a node at the target `at`.
pub open spec fn child_declarations(node: NodeView, at: PathView, n: nat) -> Seq<Declaration>
    decreases node, n,
{
    if n == 0 || n > node.children.len() {
        Seq::empty()
    } else {
        child_declarations(node, at, (n - 1) as nat) + declarations(
            node.children[n - 1].1,
            at + node.children[n - 1].0,
        )
    }
}

/// The index of the first child named `name`, or the number of children
/// where none has that name.
pub open spec fn child_index(children: Seq<(Seq<char>, ComponentView)>, name: Seq<char>) -> nat
    decreases children.len(),
{
    if children.len() == 0 || children[0].0 == name {
        0
    } else {
        1 + child_index(children.skip(1), name)
    }
}

/// The tree after `attr` is merged into the node that `path` leads to from
/// the root, the nodes on the way being added, without attributes, where
/// they were missing.
pub open spec fn inserted(tree: ComponentView, path: PathView, attr: AttrView) -> ComponentView
    decreases path.len(),
{
    if path.len() == 0 {
        ComponentView { attr: merged(tree.attr, attr), children: tree.children }
    } else {
        let i = child_index(tree.children, path[0]) as int;
        if i < tree.children.len() {
            ComponentView {
                attr: tree.attr,
                children: tree.children.update(
                    i,
                    (path[0], inserted(tree.children[i].1, path.skip(1), attr)),
                ),
            }
        } else {
            ComponentView {
                attr: tree.attr,
                children: tree.children.push(
                    (path[0], inserted(empty_tree(), path.skip(1), attr)),
                ),
            }
        }
    }
}

/// The tree after the first `n` declarations are inserted, in order.
pub open spec fn inserted_all(tree: ComponentView, decls: Seq<Declaration>, n: nat) -> ComponentView
    decreases n,
{
    if n == 0 || n > decls.len() {
        tree
    } else {
        inserted(inserted_all(tree, decls, (n - 1) as nat), decls[n - 1].0, decls[n - 1].1)
    }
}

/// The component tree of a declared profile: every declaration of the
/// profile, in the order of declaration, merged into the node at its full
/// target.
pub open spec fn component_tree(root: NodeView) -> ComponentView {
    let decls = declarations(root, Seq::empty());
    inserted_all(empty_tree(), decls, decls.len())
}

/// `child_index` is the one index before which no child has the name and
/// at which one has it, or the children end.
pub proof fn lemma_child_index(children: Seq<(Seq<char>, ComponentView)>, name: Seq<char>, k: int)
    requires
        0 <= k <= children.len(),
        forall|j: int| 0 <= j < k ==> children[j].0 != name,
        k < children.len() ==> children[k].0 == name,
    ensures
        child_index(children, name) == k,
    decreases children.len(),
{
    if k > 0 {
        lemma_child_index(children.skip(1), name, k - 1);
    }
}

/// Whether no two of the children have the same name.
pub open spec fn distinct_names(children: Seq<(Seq<char>, ComponentView)>) -> bool {
    forall|i: int, j: int|
        0 <= i < j < children.len() ==> (#[trigger] children[i]).0 != (#[trigger] children[j]).0
}

/// Whether every path leads to at most one node of the tree: no node has
/// two children of the same name.
pub open spec fn well_formed(tree: ComponentView) -> bool
    decreases tree,
{
    distinct_names(tree.children) && forall|i: int|
        0 <= i < tree.children.len() ==> well_formed((#[trigger] tree.children[i]).1)
}

/// Before the index that `child_index` gives no child has the name, and at
/// it, if a child is there, the child has it.
pub proof fn lemma_child_index_divides(children: Seq<(Seq<char>, ComponentView)>, name: Seq<char>)
    ensures
        child_index(children, name) <= children.len(),
        forall|j: int| 0 <= j < child_index(children, name) ==> (#[trigger] children[j]).0 != name,
        child_index(children, name) < children.len() ==> children[child_index(
            children,
            name,
        ) as int].0 == name,
    decreases children.len(),
{
    if !(children.len() == 0 || children[0].0 == name) {
        let rest = children.skip(1);
        lemma_child_index_divides(rest, name);
        assert forall|j: int| 0 <= j < child_index(children, name) implies (
        #[trigger] children[j]).0 != name by {
            if j > 0 {
                assert(children[j] == rest[j - 1]);
            }
        }
        if child_index(children, name) < children.len() {
            assert(children[child_index(children, name) as int] == rest[child_index(rest, name) as int]);
        }
    }
}

/// Merging attributes into a tree in which every path leads to at most one
/// node leaves it so.
pub proof fn lemma_inserted_well_formed(tree: ComponentView, path: PathView, attr: AttrView)
    requires
        well_formed(tree),
    ensures
        well_formed(inserted(tree, path, attr)),
    decreases path.len(),
{
    let out = inserted(tree, path, attr);
    if path.len() > 0 {
        let i = child_index(tree.children, path[0]) as int;
        lemma_child_index_divides(tree.children, path[0]);
        if i < tree.children.len() {
            assert(well_formed(tree.children[i].1));
            lemma_inserted_well_formed(tree.children[i].1, path.skip(1), attr);
            assert forall|k: int| 0 <= k < out.children.len() implies well_formed(
                (#[trigger] out.children[k]).1,
            ) by {
                if k != i {
                    assert(out.children[k] == tree.children[k]);
                }
            }
            assert forall|a: int, b: int| 0 <= a < b < out.children.len() implies (
            #[trigger] out.children[a]).0 != (#[trigger] out.children[b]).0 by {
                assert(out.children[a].0 == tree.children[a].0);
                assert(out.children[b].0 == tree.children[b].0);
            }
        } else {
            assert(well_formed(empty_tree()));
            lemma_inserted_well_formed(empty_tree(), path.skip(1), attr);
            assert forall|k: int| 0 <= k < out.children.len() implies well_formed(
                (#[trigger] out.children[k]).1,
            ) by {
                if k < tree.children.len() {
                    assert(out.children[k] == tree.children[k]);
                }
            }
            assert forall|a: int, b: int| 0 <= a < b < out.children.len() implies (
            #[trigger] out.children[a]).0 != (#[trigger] out.children[b]).0 by {
                assert(out.children[a] == tree.children[a]);
                if b < tree.children.len() {
                    assert(out.children[b] == tree.children[b]);
                }
            }
        }
    } else {
        assert forall|k: int| 0 <= k < out.children.len() implies well_formed(
            (#[trigger] out.children[k]).1,
        ) by {
            assert(out.children[k] == tree.children[k]);
        }
    }
}

/// In the component tree of any profile every path leads to at most one
/// node.
pub proof fn lemma_component_tree_well_formed(root: NodeView)
    ensures
        well_formed(component_tree(root)),
{
    let decls = declarations(root, Seq::empty());
    lemma_inserted_all_well_formed(decls, decls.len());
}

/// Inserting declarations into the empty tree gives a tree in which every
/// path leads to at most one node.
pub proof fn lemma_inserted_all_well_formed(decls: Seq<Declaration>, n: nat)
    ensures
        well_formed(inserted_all(empty_tree(), decls, n)),
    decreases n,
{
    if n == 0 || n > decls.len() {
        assert(well_formed(empty_tree()));
    } else {
        lemma_inserted_all_well_formed(decls, (n - 1) as nat);
        lemma_inserted_well_formed(
            inserted_all(empty_tree(), decls, (n - 1) as nat),
            decls[n - 1].0,
            decls[n - 1].1,
        );
    }
}

/// The attributes of the node that `path` leads to from the root of the
/// tree; none where it leads to no node.
pub open spec fn attr_at(tree: ComponentView, path: PathView) -> AttrView
    decreases path.len(),
{
    if path.len() == 0 {
        tree.attr
    } else {
        let i = child_index(tree.children, path[0]) as int;
        if i < tree.children.len() {
            attr_at(tree.children[i].1, path.skip(1))
        } else {
            no_attr()
        }
    }
}

/// Merging attributes into the node at `path` merges them into what that
/// node had, which is nothing if the node was not there, and leaves the
/// attributes at every other path as they were.
pub proof fn lemma_inserted_attr_at(
    tree: ComponentView,
    path: PathView,
    attr: AttrView,
    other: PathView,
)
    ensures
        attr_at(inserted(tree, path, attr), path) == merged(attr_at(tree, path), attr),
        other != path ==> attr_at(inserted(tree, path, attr), other) == attr_at(tree, other),
    decreases path.len(),
{
    let out = inserted(tree, path, attr);
    if path.len() > 0 {
        let name = path[0];
        let i = child_index(tree.children, name) as int;
        lemma_child_index_divides(tree.children, name);
        let below = if i < tree.children.len() {
            tree.children[i].1
        } else {
            empty_tree()
        };
        let rest = if other.len() > 0 {
            other.skip(1)
        } else {
            other
        };
        lemma_inserted_attr_at(below, path.skip(1), attr, rest);
        lemma_missing_attr_at(path.skip(1));
        lemma_missing_attr_at(rest);
        assert(out.children.len() > i);
        assert(out.children[i] == (name, inserted(below, path.skip(1), attr)));
        assert forall|j: int| 0 <= j < i implies out.children[j].0 != name by {
            assert(out.children[j] == tree.children[j]);
        }
        lemma_child_index(out.children, name, i);
        if other.len() > 0 {
            if other[0] == name {
                if other.skip(1) == path.skip(1) {
                    assert(other =~= seq![other[0]] + other.skip(1));
                    assert(path =~= seq![path[0]] + path.skip(1));
                }
            } else {
                let k = child_index(tree.children, other[0]) as int;
                lemma_child_index_divides(tree.children, other[0]);
                if k < tree.children.len() {
                    assert(out.children[k] == tree.children[k]);
                    assert forall|j: int| 0 <= j < k implies out.children[j].0 != other[0] by {
                        assert(out.children[j].0 == tree.children[j].0);
                    }
                    lemma_child_index(out.children, other[0], k);
                } else {
                    assert forall|j: int| 0 <= j < out.children.len() implies out.children[j].0
                        != other[0] by {
                        if j < tree.children.len() {
                            assert(out.children[j].0 == tree.children[j].0);
                        }
                    }
                    lemma_child_index(out.children, other[0], out.children.len() as int);
                }
            }
        }
    } else if other.len() == 0 {
        assert(other =~= path);
    }
}

/// No path leads to attributes in the tree of one node that declares
/// nothing.
pub proof fn lemma_missing_attr_at(path: PathView)
    ensures
        attr_at(empty_tree(), path) == no_attr(),
{
}

/// The value of a list of declarations.
pub open spec fn declarations_view(list: Seq<(Vec<String>, ProfileAttrBuilder)>) -> Seq<
    Declaration,
> {
    Seq::new(list.len(), |i: int| (list[i].0.deep_view(), list[i].1@))
}

/// Adds the declarations of `node`, which stands at the target `at`, and of
/// all nodes below it to `out`.
#[verifier::loop_isolation(false)]
pub fn collect_declarations(
    node: &ProfileNode,
    at: &Vec<String>,
    out: &mut Vec<(Vec<String>, ProfileAttrBuilder)>,
)
    ensures
        declarations_view(final(out)@) == declarations_view(old(out)@) + declarations(
            node@,
            at.deep_view(),
        ),
    decreases node,
{
    let ghost before = declarations_view(out@);
    out.push((clone_path(at), node.attr.clone_attr()));
    assert(declarations_view(out@) =~= before + seq![(at.deep_view(), node@.attr)]);
    let mut i: usize = 0;
    while i < node.children.len()
        invariant
            i <= node.children.len(),
            declarations_view(out@) == before + seq![(at.deep_view(), node@.attr)]
                + child_declarations(node@, at.deep_view(), i as nat),
        decreases node.children.len() - i,
    {
        let child_at = join(at, &node.children[i].0);
        assert(decreases_to!(node.children => node.children[i as int]));
        collect_declarations(&node.children[i].1, &child_at, out);
        i += 1;
    }
}

/// The index of the first child named `name`, or the number of children.
fn find_child(children: &Vec<(String, ComponentNode)>, name: &String) -> (k: usize)
    ensures
        k <= children.len(),
        forall|j: int| 0 <= j < k ==> children[j].0@ != name@,
        k < children.len() ==> children[k as int].0@ == name@,
{
    let mut k: usize = 0;
    while k < children.len()
        invariant
            k <= children.len(),
            forall|j: int| 0 <= j < k ==> children[j].0@ != name@,
        decreases children.len() - k,
    {
        if children[k].0 == *name {
            return k;
        }
        k += 1;
    }
    k
}

impl ComponentNode {
    /// A node without attributes and without children.
    pub fn new() -> (r: ComponentNode)
        ensures
            r@ == empty_tree(),
    {
        let r = ComponentNode { attr: ProfileAttrBuilder::new(), children: Vec::new() };
        assert(r@.children =~= Seq::empty());
        r
    }

    /// Merges `attr` into the node that the components of `path` from index
    /// `from` on lead to, adding the nodes that are missing on the way.
    pub fn insert(&mut self, path: &Vec<String>, from: usize, attr: ProfileAttrBuilder)
        requires
            from <= path.len(),
        ensures
            final(self)@ == inserted(old(self)@, path.deep_view().skip(from as int), attr@),
            well_formed(old(self)@) ==> well_formed(final(self)@),
        decreases path.len() - from,
    {
        let ghost rest = path.deep_view().skip(from as int);
        proof {
            if well_formed(self@) {
                lemma_inserted_well_formed(self@, rest, attr@);
            }
        }
        if from == path.len() {
            self.attr.merge(attr);
            assert(self@.children =~= old(self)@.children);
        } else {
            assert(rest[0] == path[from as int]@);
            assert(rest.skip(1) =~= path.deep_view().skip(from + 1));
            let k = find_child(&self.children, &path[from]);
            proof {
                lemma_child_index(old(self)@.children, rest[0], k as int);
            }
            if k < self.children.len() {
                self.children[k].1.insert(path, from + 1, attr);
                assert(self@.children =~= old(self)@.children.update(
                    k as int,
                    (rest[0], inserted(old(self)@.children[k as int].1, rest.skip(1), attr@)),
                ));
            } else {
                let mut child = ComponentNode::new();
                child.insert(path, from + 1, attr);
                self.children.push((path[from].clone(), child));
                assert(self@.children =~= old(self)@.children.push(
                    (rest[0], inserted(empty_tree(), rest.skip(1), attr@)),
                ));
            }
        }
    }
}

/// Whether a node with these inherited attributes may have no children: it
/// is a link or a template, and not recursive.
pub open spec fn must_be_leaf(attr: AttrView) -> bool {
    (attr.ty == Some(AttrType::Link) || attr.ty == Some(AttrType::Template)) && attr.recursive
        != Some(true)
}

/// The entries of the tree below and at `node`, which stands at `target`
/// and has the inherited attributes `attr`: those of its children in their
/// order, then its own if it has a source.
///
/// A node that must be a leaf and has children is an error that names its
/// target, before any of its children is looked at. A node with a source
/// whose ignore list cannot be compiled is an invalid pattern set at its
/// target, after its children. The first error in this order is the
/// outcome.
pub open spec fn resolved(node: ComponentView, target: PathView, attr: AttrView) -> Result<
    Seq<EntryView>,
    ErrorView,
>
    decreases node, node.children.len() + 1,
{
    if must_be_leaf(attr) && node.children.len() > 0 {
        Err(ErrorView::UnexpectedChildren(target))
    } else {
        match resolved_children(node, target, attr, node.children.len()) {
            Err(e) => Err(e),
            Ok(below) => if attr.source is None {
                Ok(below)
            } else if attr_compiles(attr) {
                Ok(below.push((target, finished(attr))))
            } else {
                Err(ErrorView::InvalidPatternSet(target))
            },
        }
    }
}

/// The entries of the first `n` children of `node`, each child inheriting
/// from `attr`.
pub open spec fn resolved_children(
    node: ComponentView,
    target: PathView,
    attr: AttrView,
    n: nat,
) -> Result<Seq<EntryView>, ErrorView>
    decreases node, n,
{
    if n == 0 || n > node.children.len() {
        Ok(Seq::empty())
    } else {
        match resolved_children(node, target, attr, (n - 1) as nat) {
            Err(e) => Err(e),
            Ok(first) => {
                let child = node.children[n - 1];
                match resolved(
                    child.1,
                    target.push(child.0),
                    inherited(seq![child.0], child.1.attr, attr),
                ) {
                    Err(e) => Err(e),
                    Ok(more) => Ok(first + more),
                }
            },
        }
    }
}

/// The entries of a whole component tree, before they are sorted: the root
/// stands at the empty target and inherits from nothing.
pub open spec fn resolved_tree(tree: ComponentView) -> Result<Seq<EntryView>, ErrorView> {
    resolved(tree, Seq::empty(), inherited(Seq::empty(), tree.attr, no_attr()))
}

/// An error among the first `n` children of a node is the outcome for any
/// greater number of its children.
pub proof fn lemma_children_error_stays(
    node: ComponentView,
    target: PathView,
    attr: AttrView,
    n: nat,
    m: nat,
)
    requires
        n <= m <= node.children.len(),
        resolved_children(node, target, attr, n) is Err,
    ensures
        resolved_children(node, target, attr, m) == resolved_children(node, target, attr, n),
    decreases m,
{
    if n < m {
        lemma_children_error_stays(node, target, attr, n, (m - 1) as nat);
    }
}

/// Whether `way` leads from `node` down the tree: each of its numbers is
/// the index of a child of the node reached so far.
pub open spec fn leads(node: ComponentView, way: Seq<int>) -> bool
    decreases way.len(),
{
    way.len() == 0 || (0 <= way[0] < node.children.len() && leads(
        node.children[way[0]].1,
        way.skip(1),
    ))
}

/// The node that `way` leads to from `node`, which stands at `target` and
/// has the inherited attributes `attr`; with it, its target and what it
/// inherits.
pub open spec fn descend(node: ComponentView, target: PathView, attr: AttrView, way: Seq<int>) -> (
    ComponentView,
    PathView,
    AttrView,
)
    decreases way.len(),
{
    if way.len() == 0 {
        (node, target, attr)
    } else {
        let child = node.children[way[0]];
        descend(
            child.1,
            target.push(child.0),
            inherited(seq![child.0], child.1.attr, attr),
            way.skip(1),
        )
    }
}

/// A node that is a link, or a template that is not recursive, and has a
/// child has no entries: resolving it fails, and the error names its
/// target.
pub proof fn lemma_unexpected_children(node: ComponentView, target: PathView, attr: AttrView)
    requires
        attr.ty == Some(AttrType::Link) || attr.ty == Some(AttrType::Template),
        attr.recursive != Some(true),
        node.children.len() > 0,
    ensures
        resolved(node, target, attr) == Err::<Seq<EntryView>, ErrorView>(
            ErrorView::UnexpectedChildren(target),
        ),
{
}

/// A tree that holds, anywhere, a node that is a link, or a template that
/// is not recursive, and has a child has no entries: resolving it fails.
pub proof fn lemma_unexpected_children_below(
    node: ComponentView,
    target: PathView,
    attr: AttrView,
    way: Seq<int>,
)
    requires
        leads(node, way),
        must_be_leaf(descend(node, target, attr, way).2),
        descend(node, target, attr, way).0.children.len() > 0,
    ensures
        resolved(node, target, attr) is Err,
    decreases way.len(),
{
    if way.len() > 0 {
        let i = way[0];
        let child = node.children[i];
        lemma_unexpected_children_below(
            child.1,
            target.push(child.0),
            inherited(seq![child.0], child.1.attr, attr),
            way.skip(1),
        );
        if !(must_be_leaf(attr) && node.children.len() > 0) {
            assert(resolved_children(node, target, attr, (i + 1) as nat) is Err);
            lemma_children_error_stays(node, target, attr, (i + 1) as nat, node.children.len());
        }
    }
}

/// Whether an error is one that resolving gives: unexpected children, or
/// an invalid pattern set.
pub open spec fn is_resolving_error(e: ErrorView) -> bool {
    e is UnexpectedChildren || e is InvalidPatternSet
}

/// Resolving fails for two reasons only: a node has children that it may
/// not have, or the ignore list of an entry cannot be compiled.
pub proof fn lemma_resolved_error(node: ComponentView, target: PathView, attr: AttrView)
    ensures
        resolved(node, target, attr) is Err ==> is_resolving_error(
            resolved(node, target, attr)->Err_0,
        ),
    decreases node, node.children.len() + 1,
{
    lemma_resolved_children_error(node, target, attr, node.children.len());
}

/// Resolving the children of a node fails for the same two reasons only.
pub proof fn lemma_resolved_children_error(
    node: ComponentView,
    target: PathView,
    attr: AttrView,
    n: nat,
)
    ensures
        resolved_children(node, target, attr, n) is Err ==> is_resolving_error(
            resolved_children(node, target, attr, n)->Err_0,
        ),
    decreases node, n,
{
    if !(n == 0 || n > node.children.len()) {
        lemma_resolved_children_error(node, target, attr, (n - 1) as nat);
        let child = node.children[n - 1];
        lemma_resolved_error(
            child.1,
            target.push(child.0),
            inherited(seq![child.0], child.1.attr, attr),
        );
    }
}

/// Collects the entries of `node` and of the nodes below it into
/// `collect_to`.
///
/// `target` leads from the parent, which stands at `parent_target` and has
/// the inherited attributes `parent`, to the node. The node inherits, is
/// checked for children that it may not have, hands what it inherited on
/// to its children, and after them is an entry itself if it has a source;
/// its ignore list is compiled then. A node that is refused for its
/// children leaves `collect_to` as it was.
#[verifier::loop_isolation(false)]
pub fn collect_entries_from_node(
    target: &Vec<String>,
    node: &ComponentNode,
    parent_target: &Vec<String>,
    parent: &ProfileAttrBuilder,
    collect_to: &mut ProfileEntries,
) -> (r: Result<(), Error>)
    ensures
        match resolved(
            node@,
            parent_target.deep_view() + target.deep_view(),
            inherited(target.deep_view(), node@.attr, parent@),
        ) {
            Ok(entries) => r is Ok && final(collect_to)@ == old(collect_to)@ + entries,
            Err(e) => r is Err && r->Err_0@ == e,
        },
        must_be_leaf(inherited(target.deep_view(), node@.attr, parent@)) && node@.children.len()
            > 0 ==> final(collect_to)@ == old(collect_to)@,
    decreases node,
{
    let full_target = join(parent_target, target);
    let attr = inherit_attr(target, node.attr.clone_attr(), parent);
    let is_leaf_type = match attr.ty {
        Some(AttrType::Link) => true,
        Some(AttrType::Template) => true,
        _ => false,
    };
    let is_recursive = match attr.recursive {
        Some(true) => true,
        _ => false,
    };
    if is_leaf_type && !is_recursive && node.children.len() > 0 {
        return Err(Error::UnexpectedChildren(full_target));
    }
    let ghost before = collect_to@;
    let ghost inherited_attr = attr@;
    let mut i: usize = 0;
    assert(collect_to@ =~= before + Seq::<EntryView>::empty());
    while i < node.children.len()
        invariant
            i <= node.children.len(),
            resolved_children(node@, full_target.deep_view(), attr@, i as nat) is Ok,
            collect_to@ == before + resolved_children(
                node@,
                full_target.deep_view(),
                attr@,
                i as nat,
            )->Ok_0,
        decreases node.children.len() - i,
    {
        let mut name: Vec<String> = Vec::new();
        name.push(node.children[i].0.clone());
        assert(name.deep_view() =~= seq![node@.children[i as int].0]);
        assert(full_target.deep_view() + name.deep_view() =~= full_target.deep_view().push(
            node@.children[i as int].0,
        ));
        assert(decreases_to!(node.children => node.children[i as int]));
        let ghost done = collect_to@;
        match collect_entries_from_node(&name, &node.children[i].1, &full_target, &attr, collect_to) {
            Ok(()) => {
                assert(collect_to@ =~= before + resolved_children(
                    node@,
                    full_target.deep_view(),
                    attr@,
                    (i + 1) as nat,
                )->Ok_0);
            },
            Err(e) => {
                proof {
                    lemma_children_error_stays(
                        node@,
                        full_target.deep_view(),
                        attr@,
                        (i + 1) as nat,
                        node@.children.len(),
                    );
                }
                return Err(e);
            },
        }
        i += 1;
    }
    match attr.build(&full_target) {
        Ok(Some(built)) => {
            let ghost below = collect_to@;
            let ghost entry = (full_target.deep_view(), built@);
            collect_to.0.push((full_target, built));
            assert(collect_to@ =~= below.push(entry));
            Ok(())
        },
        Ok(None) => Ok(()),
        Err(e) => Err(e),
    }
}

} // verus!
