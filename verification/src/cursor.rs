use vstd::prelude::*;

verus! {

/// The caret of the text editor: a row relative to the first visible line and a column.
pub struct Cursor {
    pub row: i32,
    pub col: i32,
}

impl Cursor {
    /// A cursor at the top-left corner.
    pub fn new() -> (c: Cursor)
        ensures
            c.row == 0,
            c.col == 0,
    {
        Cursor { row: 0, col: 0 }
    }
}

} // verus!
