//! Applying compiled entries: what is to be done on the filesystem, in
//! order. Doing it is left to the caller.

use crate::attr::AttrType;
use crate::compile::{ActionView, CompiledEntries};
use crate::error::{Error, ErrorView};
use crate::path::{clone_path, PathView};
use vstd::prelude::*;

verus! {

/// What renders the text of a template.
pub trait TemplateRenderer {
    /// Why a text could not be rendered.
    type Err;

    /// Renders the text of a template.
    fn render(&mut self, s: &str) -> Result<String, Self::Err>;
}

/// One operation on the filesystem.
#[derive(Debug, PartialEq, Eq)]
pub enum Operation {
    /// Create the directory and every directory above it that is missing.
    CreateDirAll(Vec<String>),
    /// Read the source, render it as a template, and write the target.
    Render { source: Vec<String>, target: Vec<String> },
    /// Copy the source to the target.
    Copy { source: Vec<String>, target: Vec<String> },
    /// Make the target a symbolic link to the source.
    Link { source: Vec<String>, target: Vec<String> },
}

/// The mathematical value of an [`Operation`].
pub enum OperationView {
    CreateDirAll(PathView),
    Render { source: PathView, target: PathView },
    Copy { source: PathView, target: PathView },
    Link { source: PathView, target: PathView },
}

impl View for Operation {
    type V = OperationView;

    open spec fn view(&self) -> OperationView {
        match *self {
            Operation::CreateDirAll(p) => OperationView::CreateDirAll(p.deep_view()),
            Operation::Render { source, target } => OperationView::Render {
                source: source.deep_view(),
                target: target.deep_view(),
            },
            Operation::Copy { source, target } => OperationView::Copy {
                source: source.deep_view(),
                target: target.deep_view(),
            },
            Operation::Link { source, target } => OperationView::Link {
                source: source.deep_view(),
                target: target.deep_view(),
            },
        }
    }
}

/// The value of a list of operations.
pub open spec fn operations_view(list: Seq<Operation>) -> Seq<OperationView> {
    Seq::new(list.len(), |i: int| list[i]@)
}

/// The operation that makes the target of an action from its source.
pub open spec fn making(action: ActionView) -> OperationView {
    match action.1.ty {
        AttrType::Template => OperationView::Render { source: action.1.source, target: action.0 },
        AttrType::Copy => OperationView::Copy { source: action.1.source, target: action.0 },
        AttrType::Link => OperationView::Link { source: action.1.source, target: action.0 },
    }
}

/// The operations for one action: the directory of the target is created
/// first, where the target has one, and then the target is made.
pub open spec fn operations_for(action: ActionView) -> Seq<OperationView> {
    if action.0.len() > 0 {
        seq![OperationView::CreateDirAll(action.0.drop_last()), making(action)]
    } else {
        seq![making(action)]
    }
}

/// The operations for the first `n` actions, in order.
pub open spec fn planned(actions: Seq<ActionView>, n: nat) -> Seq<OperationView>
    decreases n,
{
    if n == 0 || n > actions.len() {
        Seq::empty()
    } else {
        planned(actions, (n - 1) as nat) + operations_for(actions[n - 1])
    }
}

/// The operations that apply the compiled entries, in their order.
pub fn plan(entries: &CompiledEntries) -> (r: Vec<Operation>)
    ensures
        operations_view(r@) == planned(entries@, entries@.len()),
{
    let mut out: Vec<Operation> = Vec::new();
    let mut i: usize = 0;
    assert(operations_view(out@) =~= Seq::empty());
    while i < entries.0.len()
        invariant
            i <= entries.0.len(),
            operations_view(out@) == planned(entries@, i as nat),
        decreases entries.0.len() - i,
    {
        let ghost before = operations_view(out@);
        let target = &entries.0[i].0;
        let profile = &entries.0[i].1;
        assert(entries@[i as int] == (target.deep_view(), profile@));
        if target.len() > 0 {
            let mut dir = clone_path(target);
            dir.pop();
            assert(dir.deep_view() =~= target.deep_view().drop_last());
            out.push(Operation::CreateDirAll(dir));
        }
        let source = clone_path(&profile.source);
        let target = clone_path(target);
        let make = match profile.ty {
            AttrType::Template => Operation::Render { source, target },
            AttrType::Copy => Operation::Copy { source, target },
            AttrType::Link => Operation::Link { source, target },
        };
        out.push(make);
        assert(operations_view(out@) =~= before + operations_for(entries@[i as int]));
        i += 1;
    }
    out
}

/// What rendering the template at `source` comes to: the rendered text, or
/// a render error at `source` where the renderer failed.
pub fn rendered<E>(outcome: Result<String, E>, source: &Vec<String>) -> (r: Result<String, Error>)
    ensures
        outcome is Ok ==> r is Ok && r->Ok_0@ == outcome->Ok_0@,
        outcome is Err ==> r is Err && r->Err_0@ == ErrorView::RenderError(source.deep_view()),
{
    match outcome {
        Ok(text) => Ok(text),
        Err(_) => Err(Error::RenderError(clone_path(source))),
    }
}

/// Renders the text of the template at `source` with the renderer.
///
/// The renderer's `render` is called once, on `text` as it is, and the
/// renderer is left as that call leaves it. The text that the call gives is
/// the result; where the call fails, the result is a render error at
/// `source`.
pub fn render_template<R: TemplateRenderer>(renderer: &mut R, text: &str, source: &Vec<String>) -> (r:
    Result<String, Error>)
    ensures
        r is Err ==> r->Err_0@ == ErrorView::RenderError(source.deep_view()),
        exists|called: &mut R, outcome: Result<String, R::Err>|
            {
                &&& *called == *old(renderer)
                &&& *final(called) == *final(renderer)
                &&& #[trigger] call_ensures(R::render, (called, text), outcome)
                &&& outcome is Ok ==> r is Ok && r->Ok_0@ == outcome->Ok_0@
                &&& outcome is Err ==> r is Err
            },
{
    rendered(renderer.render(text), source)
}

} // verus!
