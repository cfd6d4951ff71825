//! Extraction of microdata items (`itemscope`, `itemprop`, `itemref`, ...)
//! from HTML documents.
//!
//! - `dom`: the document tree, built from the events of an HTML parse;
//! - `domain`: the extracted items and their mathematical models;
//! - `text`: splitting attribute values into tokens;
//! - `resolve`: property values and property names;
//! - `guard`: the identifiers being walked through references;
//! - `walk`: the extraction walk, stated over the models;
//! - `engine`: the executable walk, proved to follow `walk`;
//! - `laws`: properties of extraction as a whole.
use std::collections::VecDeque;
use vstd::prelude::*;

pub mod dom;
pub mod domain;
pub mod engine;
pub mod guard;
pub mod laws;
pub mod resolve;
pub mod text;
pub mod walk;

use crate::dom::{parsed_events, tree_of, Document};
use crate::domain::{Config, ItemScope, MicrodataError};
use crate::engine::{extract, extraction, result_view};
use crate::guard::ordered;
use crate::text::{chars_of, string_of};

verus! {

/// The base address without one trailing `/`.
pub open spec fn stripped_base(b: Seq<char>) -> Seq<char> {
    if b.len() > 0 && b.last() == '/' {
        b.drop_last()
    } else {
        b
    }
}

/// Parses an HTML text and extracts its items, resolving relative URLs and
/// names against `base_url` (empty for none).
pub fn parse_html(base_url: &str, html: &str) -> (r: Result<VecDeque<ItemScope>, MicrodataError>)
    ensures
        result_view(r) == extraction(stripped_base(base_url@), tree_of(parsed_events(html@))),
        r matches Err(MicrodataError::CycleDetected(ids)) ==> ordered(ids@),
{
    let mut cs = chars_of(base_url);
    if cs.len() > 0 && cs[cs.len() - 1] == '/' {
        cs.pop();
    }
    let base = string_of(cs.as_slice());
    let document = Document::parse(html);
    extract(Config { base_url: base.as_str() }, &document)
}

} // verus!
