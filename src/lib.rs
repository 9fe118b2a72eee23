//! Parsing and rendering of speech-synthesis markup.
use vstd::prelude::*;

pub mod break_strength;
pub mod duration;
pub mod element;
pub mod escape;
pub mod functions;
pub mod grammar;
pub mod parser;
pub mod round_trip;
pub mod ser;
pub mod text;

pub use break_strength::BreakStrength;
pub use duration::Duration;
pub use element::{SsmlElement, SSML};
pub use functions::{find_and_modify_elements, visit_mut};
pub use parser::ParseError;

use grammar::{document_err, parse_document};
use ser::render_nodes;

verus! {

/// Reads markup text into a document. It fails, with at least one error and
/// no partial result, exactly when the text does not follow the grammar; the
/// first error starts where the grammar fails.
pub fn from_str(input: &str) -> (r: Result<SSML, Vec<ParseError>>)
    ensures
        match parse_document(input@) {
            Some(ns) => r matches Ok(d) && d@ == ns,
            None => r matches Err(es) && es@.len() > 0 && es@[0].start == document_err(input@)
                && forall|k: int|
                0 <= k < es@.len() ==> #[trigger] es@[k].start <= es@[k].end == input@.len(),
        },
{
    parser::parse(input)
}

/// Renders a document as markup text.
pub fn to_string(ssml: &SSML) -> (r: String)
    ensures
        r@ == render_nodes(ssml@),
{
    ser::to_ssml(ssml)
}

} // verus!
