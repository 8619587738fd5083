use vstd::prelude::*;

pub mod manifest;
pub mod parse;
pub mod pipeline;
pub mod render;
pub mod sanitize;
pub mod strutil;
pub mod tags;

verus! {

/// The fatal conditions the build logic itself can detect: a post whose last
/// line is no `DD.MM.YYYY` date line, named by its file, and a failure of
/// the template engine.
#[derive(Debug)]
pub enum BuildError {
    InvalidDateLine(String),
    RenderError,
}

} // verus!
