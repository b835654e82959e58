//! The entries of a profile: its targets in order, each with the attributes
//! it resolved to.

use crate::attr::{inherited, no_attr, ProfileAttr, ProfileAttrBuilder, ProfileAttrView};
use crate::error::{Error, ErrorView};
use crate::merge::Merge;
use crate::path::{path_before, path_lt, PathView};
use crate::profile::{
    collect_entries_from_node, component_tree, declarations_view, resolved_tree, ComponentNode,
    NodeView, ProfileNode,
};
use vstd::prelude::*;

verus! {

/// A profile: the root of a declared tree.
#[derive(Debug, PartialEq, Eq)]
pub struct Profile {
    pub root: ProfileNode,
}

impl View for Profile {
    type V = NodeView;

    open spec fn view(&self) -> NodeView {
        self.root@
    }
}

/// Entries of a profile: targets, each with the attributes it resolved to.
/// Those that [`Profile::into_entries`] gives stand in the order of their
/// targets.
#[derive(Debug)]
pub struct ProfileEntries(pub Vec<(Vec<String>, ProfileAttr)>);

/// One entry in contracts: a target and the attributes it resolved to.
pub type EntryView = (PathView, ProfileAttrView);

/// The value of a list of entries.
pub open spec fn entries_view(list: Seq<(Vec<String>, ProfileAttr)>) -> Seq<EntryView> {
    Seq::new(list.len(), |i: int| (list[i].0.deep_view(), list[i].1@))
}

impl View for ProfileEntries {
    type V = Seq<EntryView>;

    open spec fn view(&self) -> Seq<EntryView> {
        entries_view(self.0@)
    }
}

/// How many entries at the front of `entries` have a target before `key`,
/// counted up to the first that has not.
pub open spec fn lower_bound(entries: Seq<EntryView>, key: PathView) -> nat
    decreases entries.len(),
{
    if entries.len() == 0 || !path_lt(entries[0].0, key) {
        0
    } else {
        1 + lower_bound(entries.skip(1), key)
    }
}

/// The entries in the order of their targets. Entries with the same target
/// keep their order.
pub open spec fn sorted_entries(entries: Seq<EntryView>) -> Seq<EntryView>
    decreases entries.len(),
{
    if entries.len() == 0 {
        Seq::empty()
    } else {
        let rest = sorted_entries(entries.skip(1));
        rest.insert(lower_bound(rest, entries[0].0) as int, entries[0])
    }
}

/// `lower_bound` is the one index before which every target is before the
/// key and at which one is not, or the entries end.
pub proof fn lemma_lower_bound(entries: Seq<EntryView>, key: PathView, k: int)
    requires
        0 <= k <= entries.len(),
        forall|j: int| 0 <= j < k ==> path_lt(entries[j].0, key),
        k < entries.len() ==> !path_lt(entries[k].0, key),
    ensures
        lower_bound(entries, key) == k,
    decreases entries.len(),
{
    if k > 0 {
        lemma_lower_bound(entries.skip(1), key, k - 1);
    }
}

/// Whether the entries stand in the order of their targets: none comes
/// after one whose target comes after its own.
pub open spec fn in_target_order(entries: Seq<EntryView>) -> bool {
    forall|i: int, j: int|
        0 <= i < j < entries.len() ==> !path_lt(
            (#[trigger] entries[j]).0,
            (#[trigger] entries[i]).0,
        )
}

/// Before the index that `lower_bound` gives every target is before the
/// key, and at it, if an entry is there, the target is not.
pub proof fn lemma_lower_bound_divides(entries: Seq<EntryView>, key: PathView)
    ensures
        lower_bound(entries, key) <= entries.len(),
        forall|j: int| 0 <= j < lower_bound(entries, key) ==> path_lt(#[trigger] entries[j].0, key),
        lower_bound(entries, key) < entries.len() ==> !path_lt(
            entries[lower_bound(entries, key) as int].0,
            key,
        ),
    decreases entries.len(),
{
    if !(entries.len() == 0 || !path_lt(entries[0].0, key)) {
        let rest = entries.skip(1);
        lemma_lower_bound_divides(rest, key);
        assert forall|j: int| 0 <= j < lower_bound(entries, key) implies path_lt(
            #[trigger] entries[j].0,
            key,
        ) by {
            if j > 0 {
                assert(entries[j] == rest[j - 1]);
            }
        }
        if lower_bound(entries, key) < entries.len() {
            assert(entries[lower_bound(entries, key) as int] == rest[lower_bound(rest, key) as int]);
        }
    }
}

/// Sorting gives the same entries, each as often as before, in the order of
/// their targets.
pub proof fn lemma_sorted_entries(entries: Seq<EntryView>)
    ensures
        in_target_order(sorted_entries(entries)),
        sorted_entries(entries).to_multiset() == entries.to_multiset(),
        sorted_entries(entries).len() == entries.len(),
    decreases entries.len(),
{
    if entries.len() == 0 {
        assert(entries =~= Seq::empty());
    } else {
        let rest = sorted_entries(entries.skip(1));
        let first = entries[0];
        let k = lower_bound(rest, first.0) as int;
        let out = rest.insert(k, first);
        lemma_sorted_entries(entries.skip(1));
        lemma_lower_bound_divides(rest, first.0);
        vstd::seq_lib::to_multiset_insert(rest, k, first);
        vstd::seq_lib::to_multiset_insert(entries.skip(1), 0, first);
        assert(entries.skip(1).insert(0, first) =~= entries);
        assert forall|i: int, j: int| 0 <= i < j < out.len() implies !path_lt(
            (#[trigger] out[j]).0,
            (#[trigger] out[i]).0,
        ) by {
            if j == k {
                assert(out[i] == rest[i]);
                crate::path::lemma_path_lt_asymmetric(rest[i].0, first.0);
            } else if i == k {
                assert(out[j] == rest[j - 1]);
                if j - 1 > k {
                    assert(!path_lt(rest[j - 1].0, rest[k].0));
                }
                if path_lt(rest[j - 1].0, first.0) {
                    crate::path::lemma_path_lt_between(rest[j - 1].0, rest[k].0, first.0);
                }
            } else {
                let a = if i < k {
                    i
                } else {
                    i - 1
                };
                let b = if j < k {
                    j
                } else {
                    j - 1
                };
                assert(out[i] == rest[a]);
                assert(out[j] == rest[b]);
            }
        }
    }
}

/// Sorts entries by their targets.
pub fn sort_entries(entries: Vec<(Vec<String>, ProfileAttr)>) -> (r: Vec<(Vec<String>, ProfileAttr)>)
    ensures
        entries_view(r@) == sorted_entries(entries_view(entries@)),
        in_target_order(entries_view(r@)),
        entries_view(r@).to_multiset() == entries_view(entries@).to_multiset(),
{
    let ghost all = entries_view(entries@);
    proof {
        lemma_sorted_entries(all);
    }
    let mut input = entries;
    let mut out: Vec<(Vec<String>, ProfileAttr)> = Vec::new();
    assert(all.skip(all.len() as int) =~= Seq::empty());
    assert(entries_view(out@) =~= Seq::empty());
    while input.len() > 0
        invariant
            input.len() <= all.len(),
            entries_view(input@) == all.take(input.len() as int),
            entries_view(out@) == sorted_entries(all.skip(input.len() as int)),
        decreases input.len(),
    {
        let ghost n = input.len() as int;
        let ghost input_before = entries_view(input@);
        let entry = input.pop().unwrap();
        assert(entries_view(input@) =~= all.take(n - 1));
        assert((entry.0.deep_view(), entry.1@) == input_before[n - 1]);
        assert(all.skip(n - 1)[0] == all[n - 1]);
        assert(all.skip(n - 1).skip(1) =~= all.skip(n));
        let mut j: usize = 0;
        let mut found = false;
        while j < out.len() && !found
            invariant
                j <= out.len(),
                forall|i: int| 0 <= i < j ==> path_lt(entries_view(out@)[i].0, entry.0.deep_view()),
                found ==> j < out.len() && !path_lt(
                    entries_view(out@)[j as int].0,
                    entry.0.deep_view(),
                ),
            decreases out.len() - j + (if found { 0int } else { 1int }),
        {
            if path_before(&out[j].0, &entry.0) {
                j += 1;
            } else {
                found = true;
            }
        }
        proof {
            lemma_lower_bound(entries_view(out@), entry.0.deep_view(), j as int);
        }
        let ghost out_before = entries_view(out@);
        let ghost item = (entry.0.deep_view(), entry.1@);
        out.insert(j, entry);
        assert(entries_view(out@) =~= out_before.insert(j as int, item));
    }
    assert(all.skip(0) =~= all);
    out
}

/// The entries of a profile, in the order of their targets, or the error
/// that stops it from having any: the first that resolving its component
/// tree comes upon.
pub open spec fn profile_entries(root: NodeView) -> Result<Seq<EntryView>, ErrorView> {
    match resolved_tree(component_tree(root)) {
        Err(e) => Err(e),
        Ok(entries) => Ok(sorted_entries(entries)),
    }
}

/// The entries of a profile stand in the order of their targets, and are
/// those that resolving its component tree gives, each as often.
pub proof fn lemma_profile_entries_in_order(root: NodeView)
    ensures
        profile_entries(root) is Ok ==> in_target_order(profile_entries(root)->Ok_0)
            && profile_entries(root)->Ok_0.to_multiset() == resolved_tree(
            component_tree(root),
        )->Ok_0.to_multiset(),
{
    if profile_entries(root) is Ok {
        lemma_sorted_entries(resolved_tree(component_tree(root))->Ok_0);
    }
}

/// A profile in whose component tree some node is a link, or a template
/// that is not recursive, and has a child has no entries: it fails, with
/// unexpected children or, where an entry that is finished before that node
/// is reached has an ignore list that cannot be compiled, with an invalid
/// pattern set.
pub proof fn lemma_profile_unexpected_children(root: NodeView, way: Seq<int>)
    requires
        crate::profile::leads(component_tree(root), way),
        crate::profile::must_be_leaf(
            crate::profile::descend(
                component_tree(root),
                Seq::empty(),
                inherited(Seq::empty(), component_tree(root).attr, no_attr()),
                way,
            ).2,
        ),
        crate::profile::descend(
            component_tree(root),
            Seq::empty(),
            inherited(Seq::empty(), component_tree(root).attr, no_attr()),
            way,
        ).0.children.len() > 0,
    ensures
        profile_entries(root) is Err,
        crate::profile::is_resolving_error(profile_entries(root)->Err_0),
{
    let tree = component_tree(root);
    let attr = inherited(Seq::empty(), tree.attr, no_attr());
    crate::profile::lemma_unexpected_children_below(tree, Seq::empty(), attr, way);
    crate::profile::lemma_resolved_error(tree, Seq::empty(), attr);
}

impl Merge for Profile {
    /// Merges what `other` declares into `self`.
    fn merge(&mut self, other: Profile)
        ensures
            final(self)@ == crate::profile::merged_node(old(self)@, other@),
            crate::profile::well_declared(old(self)@) && crate::profile::well_declared(other@)
                ==> crate::profile::well_declared(final(self)@),
    {
        self.root.merge(other.root);
    }
}

impl Profile {
    /// The profile with the given root.
    pub fn new(root: ProfileNode) -> (r: Profile)
        ensures
            r@ == root@,
    {
        Profile { root }
    }

    /// Splits the declared targets into components and makes the tree that
    /// is keyed by them.
    ///
    /// Declared nodes need not follow the directories of the filesystem;
    /// in the component tree every node's parent is its parent directory,
    /// which is what inheritance goes by.
    pub fn build_component_tree(&self) -> (tree: ComponentNode)
        ensures
            tree@ == component_tree(self@),
            crate::profile::well_formed(tree@),
    {
        proof {
            crate::profile::lemma_component_tree_well_formed(self@);
        }
        let mut declared: Vec<(Vec<String>, ProfileAttrBuilder)> = Vec::new();
        let top: Vec<String> = Vec::new();
        assert(declarations_view(declared@) =~= Seq::empty());
        assert(top.deep_view() =~= Seq::empty());
        crate::profile::collect_declarations(&self.root, &top, &mut declared);
        let ghost all = declarations_view(declared@);
        assert(all =~= crate::profile::declarations(self@, Seq::empty()));
        let mut tree = ComponentNode::new();
        let mut i: usize = 0;
        while i < declared.len()
            invariant
                i <= declared.len(),
                all == declarations_view(declared@),
                tree@ == crate::profile::inserted_all(
                    crate::profile::empty_tree(),
                    all,
                    i as nat,
                ),
            decreases declared.len() - i,
        {
            let attr = declared[i].1.clone_attr();
            assert(declared[i as int].0.deep_view().skip(0) =~= all[i as int].0);
            tree.insert(&declared[i].0, 0, attr);
            i += 1;
        }
        tree
    }

    /// The entries of the profile: its targets that have a source, in
    /// order, each with the attributes it resolved to.
    ///
    /// The component tree is walked from the root, each node before its
    /// children, the children in their order. It fails on the first error
    /// of the walk: a node that is a link or a non-recursive template and
    /// has children, which is found before its children are walked, or an
    /// entry whose ignore list cannot be compiled, which is found after its
    /// children are walked.
    pub fn into_entries(self) -> (r: Result<ProfileEntries, Error>)
        ensures
            match profile_entries(self@) {
                Ok(entries) => r is Ok && r->Ok_0@ == entries,
                Err(e) => r is Err && r->Err_0@ == e,
            },
            r is Ok ==> in_target_order(r->Ok_0@),
    {
        proof {
            lemma_profile_entries_in_order(self@);
        }
        let tree = self.build_component_tree();
        let mut collected = ProfileEntries(Vec::new());
        let top: Vec<String> = Vec::new();
        let nothing = ProfileAttrBuilder::new();
        assert(collected@ =~= Seq::empty());
        assert(top.deep_view() =~= Seq::empty());
        assert(top.deep_view() + top.deep_view() =~= Seq::empty());
        match collect_entries_from_node(&top, &tree, &top, &nothing, &mut collected) {
            Ok(()) => {
                assert(collected@ =~= resolved_tree(tree@)->Ok_0);
                Ok(ProfileEntries(sort_entries(collected.0)))
            },
            Err(e) => Err(e),
        }
    }
}

} // verus!
