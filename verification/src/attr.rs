//! The attributes of a profile node: as declared, as inherited, and as
//! resolved.

use crate::error::{Error, ErrorView};
use crate::merge::Merge;
use crate::path::{clone_path, join, PathView};
use crate::pattern::{
    any_matches, compiles, lemma_any_matches_concat, PatternSet, PatternSetBuilder,
};
use vstd::prelude::*;

verus! {

/// How a target is made from its source.
#[derive(Clone, Copy, Debug, PartialEq, Eq, Structural)]
pub enum AttrType {
    Copy,
    Link,
    Template,
}

impl Default for AttrType {
    fn default() -> (r: AttrType)
        ensures
            r == AttrType::Copy,
    {
        AttrType::Copy
    }
}

/// The attributes that a node declares. What is absent is inherited.
#[derive(Debug, PartialEq, Eq)]
pub struct ProfileAttrBuilder {
    pub source: Option<Vec<String>>,
    pub ty: Option<AttrType>,
    pub recursive: Option<bool>,
    pub ignore: Option<PatternSetBuilder>,
}

/// The mathematical value of a [`ProfileAttrBuilder`].
pub struct AttrView {
    pub source: Option<PathView>,
    pub ty: Option<AttrType>,
    pub recursive: Option<bool>,
    pub ignore: Option<Seq<Seq<char>>>,
}

impl View for ProfileAttrBuilder {
    type V = AttrView;

    open spec fn view(&self) -> AttrView {
        AttrView {
            source: match self.source {
                Some(p) => Some(p.deep_view()),
                None => None,
            },
            ty: self.ty,
            recursive: self.recursive,
            ignore: match self.ignore {
                Some(b) => Some(b@),
                None => None,
            },
        }
    }
}

/// The attributes of a node that declares nothing.
pub open spec fn no_attr() -> AttrView {
    AttrView { source: None, ty: None, recursive: None, ignore: None }
}

/// What merging `other` into `this` gives: a source, type or recursive flag
/// of `other` replaces that of `this`, and a non-empty ignore list of
/// `other` is added behind that of `this`.
pub open spec fn merged(this: AttrView, other: AttrView) -> AttrView {
    AttrView {
        source: if other.source is Some {
            other.source
        } else {
            this.source
        },
        ty: if other.ty is Some {
            other.ty
        } else {
            this.ty
        },
        recursive: if other.recursive is Some {
            other.recursive
        } else {
            this.recursive
        },
        ignore: match other.ignore {
            Some(added) if added.len() > 0 => Some(
                match this.ignore {
                    Some(kept) => kept + added,
                    None => added,
                },
            ),
            _ => this.ignore,
        },
    }
}

/// What a node with the attributes `own`, reached from its parent by
/// `target`, has once it inherits from `parent`: its own source, or else the
/// parent's source followed by `target`; its own type and recursive flag, or
/// else the parent's; its own ignore list followed by the parent's.
pub open spec fn inherited(target: PathView, own: AttrView, parent: AttrView) -> AttrView {
    AttrView {
        source: match own.source {
            Some(s) => Some(s),
            None => match parent.source {
                Some(p) => Some(p + target),
                None => None,
            },
        },
        ty: if own.ty is Some {
            own.ty
        } else {
            parent.ty
        },
        recursive: if own.recursive is Some {
            own.recursive
        } else {
            parent.recursive
        },
        ignore: match (own.ignore, parent.ignore) {
            (Some(a), Some(b)) => Some(a + b),
            (Some(a), None) => Some(a),
            (None, Some(b)) => Some(b),
            (None, None) => None,
        },
    }
}

/// The attributes of an entry: what a node has once nothing is left to
/// inherit and the defaults are applied.
#[derive(Debug)]
pub struct ProfileAttr {
    pub source: Vec<String>,
    pub ty: AttrType,
    pub recursive: bool,
    pub ignore: PatternSet,
}

/// The mathematical value of a [`ProfileAttr`]. Its ignore list holds the
/// glob texts that the matcher was compiled from.
pub struct ProfileAttrView {
    pub source: PathView,
    pub ty: AttrType,
    pub recursive: bool,
    pub ignore: Seq<Seq<char>>,
}

impl View for ProfileAttr {
    type V = ProfileAttrView;

    open spec fn view(&self) -> ProfileAttrView {
        ProfileAttrView {
            source: self.source.deep_view(),
            ty: self.ty,
            recursive: self.recursive,
            ignore: self.ignore@,
        }
    }
}

/// The ignore list of a node's attributes: empty where none is declared.
pub open spec fn ignore_list(attr: AttrView) -> Seq<Seq<char>> {
    match attr.ignore {
        Some(list) => list,
        None => Seq::empty(),
    }
}

/// The entry attributes that fully inherited attributes with a source
/// stand for: the type defaults to `Copy`, the recursive flag to `false`,
/// the ignore list to the empty one.
pub open spec fn finished(attr: AttrView) -> ProfileAttrView
    recommends
        attr.source is Some,
{
    ProfileAttrView {
        source: attr.source->Some_0,
        ty: match attr.ty {
            Some(t) => t,
            None => AttrType::Copy,
        },
        recursive: match attr.recursive {
            Some(r) => r,
            None => false,
        },
        ignore: ignore_list(attr),
    }
}

impl PatternSetBuilder {
    /// A copy of the list.
    pub fn clone_list(&self) -> (r: PatternSetBuilder)
        ensures
            r@ == self@,
    {
        PatternSetBuilder { globs: clone_path(&self.globs) }
    }

    /// Adds the patterns of `other` behind those of `self`.
    pub fn extend(&mut self, other: &PatternSetBuilder)
        ensures
            final(self)@ == old(self)@ + other@,
    {
        let all = join(&self.globs, &other.globs);
        self.globs = all;
    }
}

impl Merge for ProfileAttrBuilder {
    /// Merges what `other` declares into `self`.
    fn merge(&mut self, other: ProfileAttrBuilder)
        ensures
            final(self)@ == merged(old(self)@, other@),
    {
        let ProfileAttrBuilder { source, ty, recursive, ignore } = other;
        self.source.merge(source);
        self.ty.merge(ty);
        self.recursive.merge(recursive);
        if let Some(added) = ignore {
            if !added.is_empty() {
                let kept = self.ignore.take();
                let list = match kept {
                    Some(mut kept) => {
                        kept.extend(&added);
                        kept
                    },
                    None => added,
                };
                self.ignore = Some(list);
            }
        }
    }
}

impl ProfileAttrBuilder {
    /// The attributes of a node that declares nothing.
    pub fn new() -> (r: ProfileAttrBuilder)
        ensures
            r@ == no_attr(),
    {
        ProfileAttrBuilder { source: None, ty: None, recursive: None, ignore: None }
    }

    /// A copy of the attributes.
    pub fn clone_attr(&self) -> (r: ProfileAttrBuilder)
        ensures
            r@ == self@,
    {
        ProfileAttrBuilder {
            source: match &self.source {
                Some(p) => Some(clone_path(p)),
                None => None,
            },
            ty: self.ty,
            recursive: self.recursive,
            ignore: match &self.ignore {
                Some(b) => Some(b.clone_list()),
                None => None,
            },
        }
    }
}

/// Merging attributes that declare no source leaves the source as it was,
/// and merging attributes that declare a recursive flag sets the flag to
/// what they declare.
pub proof fn lemma_merge_keeps_source(this: AttrView, other: AttrView)
    requires
        other.source is None,
        other.recursive is Some,
    ensures
        merged(this, other).source == this.source,
        merged(this, other).recursive == other.recursive,
{
}

/// Merging the same attributes a second time changes nothing, where they
/// carry no ignore pattern: an ignore list is added each time it is merged.
pub proof fn lemma_merge_twice(this: AttrView, other: AttrView)
    requires
        ignore_list(other).len() == 0,
    ensures
        merged(merged(this, other), other) == merged(this, other),
{
}

/// A node without a source of its own has its parent's source followed by
/// the way from the parent to it, or none where the parent has none.
pub proof fn lemma_inherits_source(target: PathView, own: AttrView, parent: AttrView)
    requires
        own.source is None,
    ensures
        parent.source is Some ==> inherited(target, own, parent).source == Some(
            parent.source->Some_0 + target,
        ),
        parent.source is None ==> inherited(target, own, parent).source is None,
{
}

/// The ignore list that a node inherits matches a name exactly if the
/// node's own list or the list that its parent inherited matches it. The
/// parent's list holds those of all nodes above it in the same way.
pub proof fn lemma_ignore_union(target: PathView, own: AttrView, parent: AttrView, name: Seq<char>)
    ensures
        any_matches(ignore_list(inherited(target, own, parent)), name) <==> any_matches(
            ignore_list(own),
            name,
        ) || any_matches(ignore_list(parent), name),
{
    lemma_any_matches_concat(ignore_list(own), ignore_list(parent), name);
    assert(ignore_list(inherited(target, own, parent)) =~= ignore_list(own) + ignore_list(parent));
}

/// Whether the ignore list of the attributes, if they have one, can be
/// compiled into a matcher.
pub open spec fn attr_compiles(attr: AttrView) -> bool {
    match attr.ignore {
        Some(list) => compiles(list),
        None => true,
    }
}

/// Makes the attributes of the entry at `target` from a source, what was
/// inherited, and the outcome of compiling the ignore list.
///
/// A matcher that could not be compiled is an invalid pattern set at
/// `target`; otherwise the type defaults to `Copy` and the recursive flag
/// to `false`.
pub fn finish(
    source: Vec<String>,
    ty: Option<AttrType>,
    recursive: Option<bool>,
    ignore: Result<PatternSet, globset::ErrorKind>,
    target: &Vec<String>,
) -> (r: Result<ProfileAttr, Error>)
    ensures
        ignore is Ok ==> r is Ok && r->Ok_0@ == (ProfileAttrView {
            source: source.deep_view(),
            ty: match ty {
                Some(t) => t,
                None => AttrType::Copy,
            },
            recursive: match recursive {
                Some(b) => b,
                None => false,
            },
            ignore: ignore->Ok_0@,
        }),
        ignore is Err ==> r is Err && r->Err_0@ == ErrorView::InvalidPatternSet(
            target.deep_view(),
        ),
{
    match ignore {
        Ok(set) => Ok(
            ProfileAttr {
                source,
                ty: match ty {
                    Some(t) => t,
                    None => AttrType::default(),
                },
                recursive: match recursive {
                    Some(b) => b,
                    None => false,
                },
                ignore: set,
            },
        ),
        Err(_) => Err(Error::InvalidPatternSet(clone_path(target))),
    }
}

impl ProfileAttrBuilder {
    /// Makes the attributes of the entry at `target`, or nothing where the
    /// node has no source.
    ///
    /// The ignore list is compiled here, so a list that cannot be compiled
    /// shows only now, as an invalid pattern set at `target`.
    pub fn build(self, target: &Vec<String>) -> (r: Result<Option<ProfileAttr>, Error>)
        ensures
            self@.source is None ==> r is Ok && r->Ok_0 is None,
            self@.source is Some && attr_compiles(self@) ==> r is Ok && r->Ok_0 is Some
                && r->Ok_0->Some_0@ == finished(self@),
            self@.source is Some && !attr_compiles(self@) ==> r is Err && r->Err_0@
                == ErrorView::InvalidPatternSet(target.deep_view()),
    {
        let ProfileAttrBuilder { source, ty, recursive, ignore } = self;
        match source {
            Some(source) => {
                let matcher = match ignore {
                    Some(list) => list.build(),
                    None => Ok(PatternSet::empty()),
                };
                match finish(source, ty, recursive, matcher, target) {
                    Ok(attr) => Ok(Some(attr)),
                    Err(e) => Err(e),
                }
            },
            None => Ok(None),
        }
    }
}

/// The attributes that declare a source and nothing else.
pub fn path_only_attr(source: Vec<String>) -> (r: ProfileAttrBuilder)
    ensures
        r@ == (AttrView { source: Some(source.deep_view()), ..no_attr() }),
{
    ProfileAttrBuilder { source: Some(source), ty: None, recursive: None, ignore: None }
}

/// Gives a node what it inherits from its parent.
///
/// `target` leads from the parent to the node. A node without a source of
/// its own is the entry of that name under the parent's source.
pub fn inherit_attr(target: &Vec<String>, attr: ProfileAttrBuilder, parent: &ProfileAttrBuilder) -> (r:
    ProfileAttrBuilder)
    ensures
        r@ == inherited(target.deep_view(), attr@, parent@),
        attr@.source is None && parent@.source is Some ==> r@.source == Some(
            parent@.source->Some_0 + target.deep_view(),
        ),
        attr@.source is None && parent@.source is None ==> r@.source is None,
{
    let ProfileAttrBuilder { source, ty, recursive, ignore } = attr;
    let source = match source {
        Some(s) => Some(s),
        None => match &parent.source {
            Some(p) => Some(join(p, target)),
            None => None,
        },
    };
    let ty = match ty {
        Some(t) => Some(t),
        None => parent.ty,
    };
    let recursive = match recursive {
        Some(r) => Some(r),
        None => parent.recursive,
    };
    let ignore = match (ignore, &parent.ignore) {
        (Some(mut this), Some(parent)) => {
            this.extend(parent);
            Some(this)
        },
        (Some(this), None) => Some(this),
        (None, Some(parent)) => Some(parent.clone_list()),
        (None, None) => None,
    };
    ProfileAttrBuilder { source, ty, recursive, ignore }
}

} // verus!
