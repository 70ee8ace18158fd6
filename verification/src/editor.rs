//! Editor-side data: a cursor coordinate local to a pane's content, and
//! the motion engine's working copy of content and cursor.

use vstd::prelude::*;

verus! {

/// A cursor coordinate local to a pane's content: `x` is the column,
/// `y` the row.
#[derive(Debug, PartialEq, Eq, Clone, Copy, Structural)]
pub struct CursorPosition {
    pub x: u32,
    pub y: u32,
}

/// The motion engine's working state: content lines and a cursor.
#[derive(Clone)]
pub struct Buffer {
    pub content: Vec<String>,
    pub cursor_position: CursorPosition,
}

impl Buffer {
    /// A motion buffer over the given content and cursor.
    pub fn new(content: Vec<String>, cursor_position: CursorPosition) -> (r: Buffer)
        ensures
            r.content == content,
            r.cursor_position == cursor_position,
    {
        Buffer { content, cursor_position }
    }
}

} // verus!
