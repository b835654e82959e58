//! The error shared among the modules.

use vstd::prelude::*;

verus! {

/// What can stop a profile from being read, resolved or compiled.
///
/// Paths are held as their components.
#[derive(Debug, PartialEq, Eq)]
pub enum Error {
    /// A linked or non-recursive template node has declared children.
    UnexpectedChildren(Vec<String>),
    /// The ignore patterns that apply at the target cannot be compiled.
    InvalidPatternSet(Vec<String>),
    /// The declaration at the target has a shape that no profile has.
    InvalidProfile(Vec<String>),
    /// The text starts with a drive designator or another path prefix.
    InvalidPath(String),
    /// A type attribute written as `<...` does not end with `>`.
    TypeMustEndWithGt,
    /// A type attribute names no known type.
    UnknownType(String),
    /// The filesystem refused a query at the path.
    IoFailed(Vec<String>),
    /// A template would have to be created from the directory at the path.
    UnexpectedDirectoryForTemplate(Vec<String>),
    /// Rendering the template at the path failed.
    RenderError(Vec<String>),
    /// A link was asked for where symbolic links are not supported.
    UnsupportedSymlinks(Vec<String>),
}

/// The mathematical value of an [`Error`].
pub enum ErrorView {
    UnexpectedChildren(Seq<Seq<char>>),
    InvalidPatternSet(Seq<Seq<char>>),
    InvalidProfile(Seq<Seq<char>>),
    InvalidPath(Seq<char>),
    TypeMustEndWithGt,
    UnknownType(Seq<char>),
    IoFailed(Seq<Seq<char>>),
    UnexpectedDirectoryForTemplate(Seq<Seq<char>>),
    RenderError(Seq<Seq<char>>),
    UnsupportedSymlinks(Seq<Seq<char>>),
}

impl View for Error {
    type V = ErrorView;

    open spec fn view(&self) -> ErrorView {
        match *self {
            Error::UnexpectedChildren(p) => ErrorView::UnexpectedChildren(p.deep_view()),
            Error::InvalidPatternSet(p) => ErrorView::InvalidPatternSet(p.deep_view()),
            Error::InvalidProfile(p) => ErrorView::InvalidProfile(p.deep_view()),
            Error::InvalidPath(s) => ErrorView::InvalidPath(s@),
            Error::TypeMustEndWithGt => ErrorView::TypeMustEndWithGt,
            Error::UnknownType(s) => ErrorView::UnknownType(s@),
            Error::IoFailed(p) => ErrorView::IoFailed(p.deep_view()),
            Error::UnexpectedDirectoryForTemplate(p) => ErrorView::UnexpectedDirectoryForTemplate(
                p.deep_view(),
            ),
            Error::RenderError(p) => ErrorView::RenderError(p.deep_view()),
            Error::UnsupportedSymlinks(p) => ErrorView::UnsupportedSymlinks(p.deep_view()),
        }
    }
}

} // verus!
