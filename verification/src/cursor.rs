//! The cursor: transient sequential-iteration state over a table's row
//! range.
//!
//! A cursor reads a row-count snapshot at construction and holds no
//! reference into the table or the pager; callers resolve each row number
//! through the table's stride arithmetic independently. Any insert performed
//! after construction invalidates the cursor.

use vstd::prelude::*;

verus! {

/// Sequential-scan position: the current row number, whether the position is
/// at or past the end, and the row-count snapshot taken at construction.
pub struct Cursor {
    pub row_num: usize,
    pub end_of_table: bool,
    pub table_size: usize,
}

/// The two places a cursor can be created at.
pub enum CursorLocation {
    Start,
    End,
}

impl PartialEq for CursorLocation {
    fn eq(&self, other: &Self) -> (r: bool) {
        match (self, other) {
            (CursorLocation::Start, CursorLocation::Start) => true,
            _ => false,
        }
    }
}

impl vstd::std_specs::cmp::PartialEqSpecImpl for CursorLocation {
    open spec fn obeys_eq_spec() -> bool {
        true
    }

    open spec fn eq_spec(&self, other: &Self) -> bool {
        self is Start && other is Start
    }
}

impl Cursor {
    /// A cursor at the first row; it starts at the end exactly when the
    /// table is empty.
    pub fn table_start(table_size: usize) -> (c: Cursor)
        ensures
            c.row_num == 0,
            c.end_of_table == (table_size == 0),
            c.table_size == table_size,
    {
        Cursor { row_num: 0, end_of_table: table_size == 0, table_size }
    }

    /// A cursor at the append position, one past the last row; always at the
    /// end.
    pub fn table_end(num_rows: usize, table_size: usize) -> (c: Cursor)
        ensures
            c.row_num == num_rows,
            c.end_of_table,
            c.table_size == table_size,
    {
        Cursor { row_num: num_rows, end_of_table: true, table_size }
    }

    /// Step to the next row. The end flag becomes true once the position
    /// reaches the snapshot size and never turns back; advancing past the
    /// end is permitted, but the terminal position must not be dereferenced.
    pub fn advance(&mut self)
        requires
            old(self).row_num < usize::MAX,
        ensures
            final(self).row_num == old(self).row_num + 1,
            final(self).table_size == old(self).table_size,
            final(self).end_of_table == (old(self).end_of_table || old(self).row_num + 1
                >= old(self).table_size),
    {
        self.row_num = self.row_num + 1;
        if self.row_num >= self.table_size {
            self.end_of_table = true;
        }
    }
}

} // verus!
