//! The options of a run: where the sources are, and where the targets go.

use crate::merge::Merge;
use crate::path::{clone_path, push_text, PathView};
use vstd::prelude::*;
use vstd::string::*;

verus! {

/// The directories of a run. What is absent is filled in by the caller's
/// defaults.
#[derive(Debug)]
pub struct Options {
    pub source: Option<Vec<String>>,
    pub target: Option<Vec<String>>,
}

/// The mathematical value of [`Options`].
pub struct OptionsView {
    pub source: Option<PathView>,
    pub target: Option<PathView>,
}

/// The value of a path that may be absent.
pub open spec fn optional_path(path: Option<Vec<String>>) -> Option<PathView> {
    match path {
        Some(p) => Some(p.deep_view()),
        None => None,
    }
}

impl View for Options {
    type V = OptionsView;

    open spec fn view(&self) -> OptionsView {
        OptionsView { source: optional_path(self.source), target: optional_path(self.target) }
    }
}

impl Merge for Options {
    /// A directory that `other` names replaces that of `self`.
    fn merge(&mut self, other: Options)
        ensures
            final(self)@.source == (if other@.source is Some {
                other@.source
            } else {
                old(self)@.source
            }),
            final(self)@.target == (if other@.target is Some {
                other@.target
            } else {
                old(self)@.target
            }),
    {
        let Options { source, target } = other;
        self.source.merge(source);
        self.target.merge(target);
    }
}

impl Options {
    /// The directory of the sources, which must be set.
    pub fn source(&self) -> (r: &Vec<String>)
        requires
            self.source is Some,
        ensures
            Some(r.deep_view()) == self@.source,
    {
        self.source.as_ref().unwrap()
    }

    /// The directory of the targets, which must be set.
    pub fn target(&self) -> (r: &Vec<String>)
        requires
            self.target is Some,
        ensures
            Some(r.deep_view()) == self@.target,
    {
        self.target.as_ref().unwrap()
    }
}

/// The path with a leading `~` replaced by the components of `home`.
pub open spec fn tilde_expanded(path: PathView, home: PathView) -> PathView {
    if path.len() > 0 && path[0].len() == 1 && path[0][0] == '~' {
        home + path.skip(1)
    } else {
        path
    }
}

/// Replaces a leading `~` of the path by the home directory.
pub fn expand_tilde(path: &mut Vec<String>, home: &Vec<String>)
    ensures
        final(path).deep_view() == tilde_expanded(old(path).deep_view(), home.deep_view()),
{
    if path.len() > 0 {
        let first = path[0].as_str();
        let is_tilde = first.unicode_len() == 1 && first.get_char(0) == '~';
        if is_tilde {
            let mut expanded = clone_path(home);
            let mut i: usize = 1;
            assert(path.deep_view().skip(1).take(0) =~= Seq::empty());
            while i < path.len()
                invariant
                    1 <= i <= path.len(),
                    expanded.deep_view() == home.deep_view() + path.deep_view().skip(1).take(
                        i - 1,
                    ),
                decreases path.len() - i,
            {
                push_text(&mut expanded, path[i].clone());
                assert(expanded.deep_view() =~= home.deep_view() + path.deep_view().skip(1).take(
                    i as int,
                ));
                i += 1;
            }
            assert(path.deep_view().skip(1).take(i - 1) =~= path.deep_view().skip(1));
            *path = expanded;
        }
    }
}

} // verus!
