//! Compiles a declarative, hierarchical profile of dotfiles into a flat table
//! of filesystem actions.
//!
//! A profile maps target locations to source locations and says, per node,
//! whether the source is copied, linked or rendered as a template. The
//! library reconciles the declared tree into one node per path component,
//! resolves inherited attributes, and decides, step by step against what the
//! caller reports of the filesystem, which target is made from which source.

pub mod apply;
pub mod attr;
pub mod compile;
pub mod decode;
pub mod document;
pub mod entries;
pub mod error;
pub mod merge;
pub mod options;
pub mod path;
pub mod pattern;
pub mod profile;

pub use apply::TemplateRenderer;
pub use compile::compile;
pub use entries::Profile;
pub use error::Error;
pub use merge::Merge;
