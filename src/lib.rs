//! Fragment composition at the edge: a manifest of selector bindings is parsed
//! from JSON and applied to an HTML document, falling back to the unmodified
//! document whenever the fragment side fails.
mod composer;
mod json;
mod manifest;
mod orchestrator;
mod parser;

pub use composer::{selector_nesting_ok, ComposeError, Renderer, MAX_SELECTOR_NESTING};
pub use json::Json;
pub use manifest::{Component, ComponentList, Operation, Page};
pub use orchestrator::{
    fetch_fragment_after_content, fetch_fragment_first, is_html_content_type, merge, method_allowed,
    path_is_composed, Action, Event, FragmentOutcome, Merged, Orchestrator, ResourceMode, Stage,
    FILE_EXTENSION_PATTERN,
};
pub use parser::{ParseError, Strictness};
