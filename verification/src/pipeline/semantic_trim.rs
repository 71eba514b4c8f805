//! Semantic trimming. It does nothing yet.
use vstd::prelude::*;
use vstd::string::*;

use crate::metrics::CompressionEvent;
use crate::text;
use crate::tokenizer::Tokenizer;

verus! {

/// Leaves a text as it is.
pub fn trim(content: &str, _tokenizer: &Tokenizer) -> (r: (String, Vec<CompressionEvent>))
    ensures
        r.0@ == content@,
        r.1@.len() == 0,
{
    (text::owned(content), Vec::new())
}

} // verus!
