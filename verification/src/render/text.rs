//! Drawing text. For now a text is shown by its background color alone.

use vstd::prelude::*;

verus! {

/// Draws texts.
#[derive(Debug, Clone, Copy, PartialEq, Eq, Structural)]
pub struct TextRenderer;

impl TextRenderer {
    /// A renderer without state.
    pub fn new() -> (r: TextRenderer)
        ensures
            r == TextRenderer,
    {
        TextRenderer
    }
}

impl Default for TextRenderer {
    fn default() -> (r: TextRenderer)
        ensures
            r == TextRenderer,
    {
        TextRenderer::new()
    }
}

} // verus!
