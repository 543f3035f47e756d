//! A variable that stands for a text.

use vstd::prelude::*;

verus! {

/// Expands to the text it holds, whatever the indent and the options.
#[derive(Debug, Clone, Copy)]
pub struct TextExpander<'a>(  /* text: */ pub &'a str);

} // verus!
