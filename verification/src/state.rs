//! Cursor, viewport, and session state, with clamped movement.

use crate::matrix::Matrix;
use crate::mode::Mode;
use vstd::prelude::*;

verus! {

/// An addressable position in the table, with a sub-cell character offset;
/// a pinned cursor is excluded from bulk movement.
#[derive(Copy, Clone, Eq, PartialEq, Debug, Structural)]
pub struct Cursor {
    pub row: usize,
    pub column: usize,
    /// Character offset inside the cell, used while editing.
    pub position: usize,
    /// A pinned cursor holds still under bulk movement.
    pub pinned: bool,
}

impl Cursor {
    /// A fresh, unpinned cursor at the start of a cell.
    pub fn new(row: usize, column: usize) -> (r: Cursor)
        ensures
            r == (Cursor { row: row, column: column, position: 0, pinned: false }),
    {
        Cursor { row, column, position: 0, pinned: false }
    }
}

/// The whole session: settings, modal state, text buffers, viewport,
/// cursors, and the table itself with its undo snapshots.
pub struct State {
    /// Smallest and largest rendered column width, in characters.
    pub column_width: (usize, usize),
    /// Number of leading header rows.
    pub headers: usize,
    /// Current input mode.
    pub mode: Mode,
    /// Transient status message.
    pub status: Vec<char>,
    /// Command or search input buffer.
    pub command: Vec<char>,
    /// Top-left visible data cell, as row and column.
    pub view: [usize; 2],
    /// All cursors, in z-order; the first one is the active one.
    pub cursors: Vec<Cursor>,
    /// Snapshots of the table taken before mutating commands, oldest first.
    pub undo_stack: Vec<Matrix<Vec<char>>>,
    /// The table being edited.
    pub data: Matrix<Vec<char>>,
}

/// Clamp `v` into `[lo, hi]` the way the editor does: the upper bound is
/// applied first, so the lower bound wins when the two cross.
pub open spec fn clamp(lo: int, hi: int, v: int) -> int {
    let m = if v < hi {
        v
    } else {
        hi
    };
    if m < lo {
        lo
    } else {
        m
    }
}

/// The last valid index of an axis of size `n`, or zero for an empty axis.
pub open spec fn last_index(n: nat) -> int {
    if n == 0 {
        0
    } else {
        n - 1
    }
}

/// The clamped row a moved viewport or cursor lands on: never above the
/// header block, never past the last row.
pub open spec fn clamped_row(s: State, row: int, dy: int) -> int {
    clamp(s.headers as int, last_index(s.data.dims()[0] as nat), row + dy)
}

/// The clamped column a moved viewport or cursor lands on.
pub open spec fn clamped_col(s: State, col: int, dx: int) -> int {
    clamp(0, last_index(s.data.dims()[1] as nat), col + dx)
}

/// How one cursor responds to a bulk move: a pinned cursor holds still, any
/// other is clamped into the data area.
pub open spec fn cursor_moved(pre: State, old_c: Cursor, new_c: Cursor, dy: int, dx: int) -> bool {
    if old_c.pinned {
        new_c == old_c
    } else {
        new_c == (Cursor {
            row: clamped_row(pre, old_c.row as int, dy) as usize,
            column: clamped_col(pre, old_c.column as int, dx) as usize,
            position: old_c.position,
            pinned: false,
        })
    }
}

/// The viewport after a `move_view` by the given deltas.
pub open spec fn moved_view(pre: State, post: State, dy: int, dx: int) -> bool {
    &&& post.view@[0] == clamped_row(pre, pre.view@[0] as int, dy)
    &&& post.view@[1] == clamped_col(pre, pre.view@[1] as int, dx)
}

/// The cursor collection after a `move_cursor` by the given deltas.
pub open spec fn moved_cursors(pre: State, post: State, dy: int, dx: int) -> bool {
    &&& post.cursors@.len() == pre.cursors@.len()
    &&& forall|i: int|
        0 <= i < pre.cursors@.len() ==> cursor_moved(
            pre,
            pre.cursors@[i],
            #[trigger] post.cursors@[i],
            dy,
            dx,
        )
}

/// Clamp a moved index into `[lo, last index of n]`, computed wide so that
/// no step can overflow.
fn clamp_move(lo: usize, n: usize, v: usize, d: i32) -> (r: usize)
    ensures
        r as int == clamp(lo as int, last_index(n as nat), v as int + d as int),
{
    let hi: usize = if n == 0 {
        0
    } else {
        n - 1
    };
    let t: i128 = v as i128 + d as i128;
    let m: i128 = if t > hi as i128 {
        hi as i128
    } else {
        t
    };
    let r: i128 = if m < lo as i128 {
        lo as i128
    } else {
        m
    };
    assert(0 <= r <= usize::MAX);
    r as usize
}

impl State {
    /// The state's structural soundness: a rank-two table whose buffer
    /// matches its shape, and at least one cursor.
    pub open spec fn wf(&self) -> bool {
        &&& self.data.wf()
        &&& self.data.dims().len() == 2
        &&& self.cursors@.len() >= 1
    }

    /// Everything but the viewport is untouched.
    pub open spec fn same_but_view(pre: State, post: State) -> bool {
        &&& post.column_width == pre.column_width
        &&& post.headers == pre.headers
        &&& post.mode == pre.mode
        &&& post.status == pre.status
        &&& post.command == pre.command
        &&& post.cursors == pre.cursors
        &&& post.undo_stack == pre.undo_stack
        &&& post.data == pre.data
    }

    /// Everything but the cursor collection is untouched.
    pub open spec fn same_but_cursors(pre: State, post: State) -> bool {
        &&& post.column_width == pre.column_width
        &&& post.headers == pre.headers
        &&& post.mode == pre.mode
        &&& post.status == pre.status
        &&& post.command == pre.command
        &&& post.view == pre.view
        &&& post.undo_stack == pre.undo_stack
        &&& post.data == pre.data
    }

    /// Scroll the viewport by the given deltas, clamped so the header block
    /// stays fully visible and the viewport stays inside the data.
    pub fn move_view(&mut self, dy: i32, dx: i32)
        requires
            old(self).wf(),
        ensures
            final(self).wf(),
            moved_view(*old(self), *final(self), dy as int, dx as int),
            State::same_but_view(*old(self), *final(self)),
    {
        let rows = self.data.dimensions()[0];
        let cols = self.data.dimensions()[1];
        let y = clamp_move(self.headers, rows, self.view[0], dy);
        let x = clamp_move(0, cols, self.view[1], dx);
        self.view = [y, x];
        proof {
            assert(self.view@[0] == y && self.view@[1] == x);
        }
    }

    /// Move every unpinned cursor by the given deltas, each clamped into the
    /// data area; pinned cursors are untouched.
    pub fn move_cursor(&mut self, dy: i32, dx: i32)
        requires
            old(self).wf(),
        ensures
            final(self).wf(),
            moved_cursors(*old(self), *final(self), dy as int, dx as int),
            State::same_but_cursors(*old(self), *final(self)),
    {
        let rows = self.data.dimensions()[0];
        let cols = self.data.dimensions()[1];
        let n = self.cursors.len();
        let mut i: usize = 0;
        while i < n
            invariant
                old(self).wf(),
                self.data == old(self).data,
                self.headers == old(self).headers,
                n == old(self).cursors@.len(),
                self.cursors@.len() == n,
                i <= n,
                rows == old(self).data.dims()[0],
                cols == old(self).data.dims()[1],
                forall|m: int|
                    0 <= m < i ==> cursor_moved(
                        *old(self),
                        old(self).cursors@[m],
                        #[trigger] self.cursors@[m],
                        dy as int,
                        dx as int,
                    ),
                forall|m: int| i <= m < n ==> self.cursors@[m] == old(self).cursors@[m],
                State::same_but_cursors(*old(self), *self),
            decreases n - i,
        {
            let c = self.cursors[i];
            if !c.pinned {
                let row = clamp_move(self.headers, rows, c.row, dy);
                let column = clamp_move(0, cols, c.column, dx);
                self.cursors[i] = Cursor { row, column, position: c.position, pinned: false };
            }
            i += 1;
        }
    }

    /// Replace the whole cursor collection with a single fresh cursor at the
    /// start of the given line.
    pub fn goto_line(&mut self, line: usize)
        requires
            old(self).wf(),
        ensures
            final(self).wf(),
            final(self).cursors@ =~= seq![
                Cursor { row: line, column: 0, position: 0, pinned: false },
            ],
            State::same_but_cursors(*old(self), *final(self)),
    {
        self.cursors.clear();
        self.cursors.push(Cursor::new(line, 0));
    }
}

/// The viewport clamp keeps every move inside the data, whatever the deltas:
/// at or below the header block and never past the last row or column. Over
/// any sequence of moves this holds by induction, each step from this lemma.
pub proof fn lemma_view_move_in_range(pre: State, post: State, dy: int, dx: int)
    requires
        pre.wf(),
        (pre.headers as int) < pre.data.dims()[0],
        1 <= pre.data.dims()[1],
        post.view@[0] == clamped_row(pre, pre.view@[0] as int, dy),
        post.view@[1] == clamped_col(pre, pre.view@[1] as int, dx),
    ensures
        pre.headers <= post.view@[0] < pre.data.dims()[0],
        0 <= post.view@[1] < pre.data.dims()[1],
{
}

/// Bulk cursor movement keeps every cursor on a valid data cell at or below
/// the header block: a moved cursor is clamped there, and a pinned one stays
/// wherever it already was. Over any sequence of moves this holds by
/// induction, each step from this lemma.
pub proof fn lemma_cursor_move_in_range(pre: State, a: Cursor, b: Cursor, dy: int, dx: int)
    requires
        pre.wf(),
        (pre.headers as int) < pre.data.dims()[0],
        1 <= pre.data.dims()[1],
        cursor_moved(pre, a, b, dy, dx),
        a.pinned ==> pre.headers <= a.row < pre.data.dims()[0] && a.column < pre.data.dims()[1],
    ensures
        pre.headers <= b.row < pre.data.dims()[0],
        b.column < pre.data.dims()[1],
{
}

} // verus!
