//! The modal input dispatcher: one pure transition per mode, and the
//! top-level step that feeds one input event through the state machine.

use crate::matrix::coord_valid;
use crate::matrix::lemma_offset_in_bounds;
use crate::matrix::row_major_offset;
use crate::mode::Mode;
use crate::state::moved_cursors;
use crate::state::moved_view;
use crate::state::Cursor;
use crate::state::State;
use vstd::prelude::*;
use vstd::string::StrSliceExecFns;

verus! {

/// One input event as the terminal delivers it: a character key, the named
/// backspace key, or any other named key.
#[derive(Copy, Clone, Eq, PartialEq, Debug, Structural)]
pub enum Key {
    Char(char),
    Backspace,
    Other,
}

/// An ASCII graphic character: the printable range, space excluded.
pub open spec fn is_graphic(c: char) -> bool {
    0x21 <= c as u32 <= 0x7e
}

/// Exec mirror of `is_graphic`.
fn graphic(c: char) -> (r: bool)
    ensures
        r == is_graphic(c),
{
    let u = c as u32;
    0x21 <= u && u <= 0x7e
}

/// The characters of a string slice, as an owned vector.
pub(crate) fn chars_of(s: &str) -> (r: Vec<char>)
    ensures
        r@ == s@,
{
    let n = s.unicode_len();
    let mut r: Vec<char> = Vec::new();
    let mut i: usize = 0;
    while i < n
        invariant
            i <= n,
            n == s@.len(),
            r@ == s@.take(i as int),
        decreases n - i,
    {
        r.push(s.get_char(i));
        proof {
            assert(r@ =~= s@.take(i + 1));
        }
        i += 1;
    }
    proof {
        assert(r@ =~= s@);
    }
    r
}

/// An owned copy of a character buffer.
pub(crate) fn copy_chars(v: &Vec<char>) -> (r: Vec<char>)
    ensures
        r@ == v@,
{
    let mut r: Vec<char> = Vec::new();
    let mut i: usize = 0;
    while i < v.len()
        invariant
            i <= v@.len(),
            r@ == v@.take(i as int),
        decreases v@.len() - i,
    {
        r.push(v[i]);
        proof {
            assert(r@ =~= v@.take(i + 1));
        }
        i += 1;
    }
    proof {
        assert(r@ =~= v@);
    }
    r
}

/// Whether the buffer spells exactly the given word.
fn buffer_is(buf: &Vec<char>, word: &str) -> (r: bool)
    ensures
        r == (buf@ == word@),
{
    let n = word.unicode_len();
    if buf.len() != n {
        return false;
    }
    let mut i: usize = 0;
    while i < n
        invariant
            i <= n,
            n == word@.len(),
            buf@.len() == n,
            forall|m: int| 0 <= m < i ==> buf@[m] == word@[m],
        decreases n - i,
    {
        if buf[i] != word.get_char(i) {
            return false;
        }
        i += 1;
    }
    proof {
        assert(buf@ =~= word@);
    }
    true
}

/// The status text reporting an input normal mode does not handle.
pub open spec fn received_text(k: Key) -> Seq<char> {
    match k {
        Key::Char(c) => "received '"@ + seq![c] + "'"@,
        Key::Backspace => "received Backspace"@,
        Key::Other => "received key"@,
    }
}

/// The status text for a committed command nobody knows.
pub open spec fn unknown_command_text(cmd: Seq<char>) -> Seq<char> {
    "unknown command '"@ + cmd + "'"@
}

/// Exec mirror of `received_text`.
fn received_status(k: Key) -> (r: Vec<char>)
    ensures
        r@ == received_text(k),
{
    match k {
        Key::Char(c) => {
            let mut r = chars_of("received '");
            r.push(c);
            r.push('\'');
            proof {
                reveal_strlit("'");
                assert(r@ =~= "received '"@ + seq![c] + "'"@);
            }
            r
        }
        Key::Backspace => chars_of("received Backspace"),
        Key::Other => chars_of("received key"),
    }
}

/// The mode a normal-mode key switches to.
pub open spec fn normal_next_mode(k: Key) -> Mode {
    match k {
        Key::Char(c) => {
            if c == 'i' {
                Mode::Insert
            } else if c == ':' {
                Mode::Command
            } else if c == '/' {
                Mode::Search
            } else if c == 'v' {
                Mode::View
            } else {
                Mode::Normal
            }
        },
        _ => Mode::Normal,
    }
}

/// Whether normal mode has a binding for the key.
pub open spec fn normal_handles(k: Key) -> bool {
    ||| k == Key::Char('i')
    ||| k == Key::Char(':')
    ||| k == Key::Char('/')
    ||| k == Key::Char('v')
    ||| k == Key::Char('h')
    ||| k == Key::Char('j')
    ||| k == Key::Char('k')
    ||| k == Key::Char('l')
}

/// Normal mode's transition table: the status is cleared first; `i`, `:`,
/// `/`, `v` switch modes (the two prompts start with a cleared buffer),
/// `hjkl` move every unpinned cursor one cell, and any other input only
/// reports itself in the status line.
pub open spec fn normal_step(pre: State, post: State, k: Key) -> bool {
    &&& post.column_width == pre.column_width
    &&& post.headers == pre.headers
    &&& post.view == pre.view
    &&& post.undo_stack == pre.undo_stack
    &&& post.data == pre.data
    &&& post.mode == normal_next_mode(k)
    &&& post.status@ == if normal_handles(k) {
        Seq::<char>::empty()
    } else {
        received_text(k)
    }
    &&& post.command@ == if k == Key::Char(':') || k == Key::Char('/') {
        Seq::<char>::empty()
    } else {
        pre.command@
    }
    &&& if k == Key::Char('h') {
        moved_cursors(pre, post, 0, -1)
    } else if k == Key::Char('j') {
        moved_cursors(pre, post, 1, 0)
    } else if k == Key::Char('k') {
        moved_cursors(pre, post, -1, 0)
    } else if k == Key::Char('l') {
        moved_cursors(pre, post, 0, 1)
    } else {
        post.cursors == pre.cursors
    }
}

/// The mode a view-mode key switches to; escape leaves for normal mode.
pub open spec fn view_next_mode(k: Key) -> Mode {
    match k {
        Key::Char(c) => {
            if c == ':' {
                Mode::Command
            } else if c == '/' {
                Mode::Search
            } else if c == '\u{1b}' {
                Mode::Normal
            } else {
                Mode::View
            }
        },
        _ => Mode::View,
    }
}

/// View mode's transition table: the status is cleared; `:` and `/` open a
/// cleared prompt, escape returns to normal mode, `hjkl` scroll the
/// viewport, and everything else changes nothing.
pub open spec fn view_step(pre: State, post: State, k: Key) -> bool {
    &&& post.column_width == pre.column_width
    &&& post.headers == pre.headers
    &&& post.cursors == pre.cursors
    &&& post.undo_stack == pre.undo_stack
    &&& post.data == pre.data
    &&& post.mode == view_next_mode(k)
    &&& post.status@ == Seq::<char>::empty()
    &&& post.command@ == if k == Key::Char(':') || k == Key::Char('/') {
        Seq::<char>::empty()
    } else {
        pre.command@
    }
    &&& if k == Key::Char('h') {
        moved_view(pre, post, 0, -1)
    } else if k == Key::Char('j') {
        moved_view(pre, post, 1, 0)
    } else if k == Key::Char('k') {
        moved_view(pre, post, -1, 0)
    } else if k == Key::Char('l') {
        moved_view(pre, post, 0, 1)
    } else {
        post.view == pre.view
    }
}

/// The cell text once a character is written at a sub-cell offset: inserted
/// there, or appended when the offset runs past the end.
pub open spec fn insert_char(cell: Seq<char>, at: int, c: char) -> Seq<char> {
    let p = if at > cell.len() {
        cell.len() as int
    } else {
        at
    };
    cell.insert(p, c)
}

/// The active cursor after it has written one character: its sub-cell
/// offset advanced by one, saturating at the machine limit.
pub open spec fn advanced(cur: Cursor) -> Cursor {
    Cursor {
        row: cur.row,
        column: cur.column,
        position: if cur.position == usize::MAX {
            usize::MAX
        } else {
            (cur.position + 1) as usize
        },
        pinned: cur.pinned,
    }
}

/// What writing a graphic character in insert mode does to the table and
/// the active cursor: when the active cursor addresses a valid cell, the
/// character is written into that cell at the cursor's sub-cell offset and
/// the offset advances; a stale cursor changes nothing.
pub open spec fn inserted(pre: State, post: State, c: char) -> bool {
    let cur = pre.cursors@[0];
    let coord = seq![cur.row, cur.column];
    let off = row_major_offset(pre.data.dims(), coord) as int;
    if coord_valid(pre.data.dims(), coord) {
        &&& post.data.dims() == pre.data.dims()
        &&& post.data.elems().len() == pre.data.elems().len()
        &&& (forall|o: int|
            0 <= o < pre.data.elems().len() && o != off ==> post.data.elems()[o]
                == pre.data.elems()[o])
        &&& post.data.elems()[off]@ == insert_char(pre.data.elems()[off]@, cur.position as int, c)
        &&& post.cursors@ =~= pre.cursors@.update(0, advanced(cur))
    } else {
        &&& post.data == pre.data
        &&& post.cursors == pre.cursors
    }
}

/// Insert mode's transition table: the status is cleared; escape returns to
/// normal mode, a graphic character is written at the active cursor, and
/// everything else changes nothing.
pub open spec fn insert_step(pre: State, post: State, k: Key) -> bool {
    &&& post.column_width == pre.column_width
    &&& post.headers == pre.headers
    &&& post.view == pre.view
    &&& post.undo_stack == pre.undo_stack
    &&& post.command == pre.command
    &&& post.status@ == Seq::<char>::empty()
    &&& match k {
        Key::Char(c) => {
            if c == '\u{1b}' {
                &&& post.mode == Mode::Normal
                &&& post.data == pre.data
                &&& post.cursors == pre.cursors
            } else if is_graphic(c) {
                &&& post.mode == Mode::Insert
                &&& inserted(pre, post, c)
            } else {
                &&& post.mode == Mode::Insert
                &&& post.data == pre.data
                &&& post.cursors == pre.cursors
            }
        },
        _ => {
            &&& post.mode == Mode::Insert
            &&& post.data == pre.data
            &&& post.cursors == pre.cursors
        },
    }
}

/// The shared prompt editor of command and search mode: escape abandons the
/// prompt, enter commits it (the caller dispatches the buffer), a graphic
/// character is appended, backspace removes the last character, and
/// everything else changes nothing. The status line is left alone.
pub open spec fn prompt_step(pre: State, post: State, k: Key, committed: bool) -> bool {
    &&& post.column_width == pre.column_width
    &&& post.headers == pre.headers
    &&& post.view == pre.view
    &&& post.cursors == pre.cursors
    &&& post.undo_stack == pre.undo_stack
    &&& post.data == pre.data
    &&& post.status == pre.status
    &&& match k {
        Key::Char(c) => {
            if c == '\u{1b}' {
                &&& post.mode == Mode::Normal
                &&& post.command@ == Seq::<char>::empty()
                &&& !committed
            } else if c == '\n' {
                &&& post.mode == Mode::Normal
                &&& post.command == pre.command
                &&& committed
            } else if is_graphic(c) {
                &&& post.mode == pre.mode
                &&& post.command@ == pre.command@.push(c)
                &&& !committed
            } else {
                &&& post.mode == pre.mode
                &&& post.command == pre.command
                &&& !committed
            }
        },
        Key::Backspace => {
            &&& post.mode == pre.mode
            &&& post.command@ == if pre.command@.len() == 0 {
                pre.command@
            } else {
                pre.command@.drop_last()
            }
            &&& !committed
        },
        Key::Other => {
            &&& post.mode == pre.mode
            &&& post.command == pre.command
            &&& !committed
        },
    }
}

/// Handle one key in normal mode.
pub fn normal_mode(state: &mut State, key: Key)
    requires
        old(state).wf(),
    ensures
        final(state).wf(),
        normal_step(*old(state), *final(state), key),
{
    state.status.clear();
    match key {
        Key::Char(c) => {
            if c == 'i' {
                state.mode = Mode::Insert;
            } else if c == ':' {
                state.mode = Mode::Command;
                state.command.clear();
            } else if c == '/' {
                state.mode = Mode::Search;
                state.command.clear();
            } else if c == 'v' {
                state.mode = Mode::View;
            } else if c == 'h' {
                state.mode = Mode::Normal;
                state.move_cursor(0, -1);
            } else if c == 'j' {
                state.mode = Mode::Normal;
                state.move_cursor(1, 0);
            } else if c == 'k' {
                state.mode = Mode::Normal;
                state.move_cursor(-1, 0);
            } else if c == 'l' {
                state.mode = Mode::Normal;
                state.move_cursor(0, 1);
            } else {
                state.mode = Mode::Normal;
                state.status = received_status(key);
            }
        }
        _ => {
            state.mode = Mode::Normal;
            state.status = received_status(key);
        }
    }
}

/// Handle one key in view (viewport-scroll) mode.
pub fn view_mode(state: &mut State, key: Key)
    requires
        old(state).wf(),
    ensures
        final(state).wf(),
        view_step(*old(state), *final(state), key),
{
    state.status.clear();
    match key {
        Key::Char(c) => {
            if c == ':' {
                state.mode = Mode::Command;
                state.command.clear();
            } else if c == '/' {
                state.mode = Mode::Search;
                state.command.clear();
            } else if c == '\u{1b}' {
                state.mode = Mode::Normal;
            } else if c == 'h' {
                state.mode = Mode::View;
                state.move_view(0, -1);
            } else if c == 'j' {
                state.mode = Mode::View;
                state.move_view(1, 0);
            } else if c == 'k' {
                state.mode = Mode::View;
                state.move_view(-1, 0);
            } else if c == 'l' {
                state.mode = Mode::View;
                state.move_view(0, 1);
            } else {
                state.mode = Mode::View;
            }
        }
        _ => {
            state.mode = Mode::View;
        }
    }
}

/// Handle one key in insert mode.
pub fn insert_mode(state: &mut State, key: Key)
    requires
        old(state).wf(),
    ensures
        final(state).wf(),
        insert_step(*old(state), *final(state), key),
{
    state.status.clear();
    match key {
        Key::Char(c) => {
            if c == '\u{1b}' {
                state.mode = Mode::Normal;
            } else if graphic(c) {
                state.mode = Mode::Insert;
                let cur = state.cursors[0];
                let rows = state.data.dimensions()[0];
                let cols = state.data.dimensions()[1];
                if cur.row < rows && cur.column < cols {
                    let mut coord: Vec<usize> = Vec::new();
                    coord.push(cur.row);
                    coord.push(cur.column);
                    proof {
                        assert(coord@ =~= seq![cur.row, cur.column]);
                        assert(coord_valid(state.data.dims(), coord@));
                    }
                    let looked = state.data.get(coord.as_slice());
                    let mut cell: Vec<char> = Vec::new();
                    match looked {
                        Ok(old_cell) => {
                            let mut i: usize = 0;
                            while i < old_cell.len()
                                invariant
                                    i <= old_cell@.len(),
                                    cell@ == old_cell@.take(i as int),
                                decreases old_cell@.len() - i,
                            {
                                cell.push(old_cell[i]);
                                proof {
                                    assert(cell@ =~= old_cell@.take(i + 1));
                                }
                                i += 1;
                            }
                            proof {
                                assert(cell@ =~= old_cell@);
                            }
                        }
                        Err(_) => {
                            proof {
                                assert(false);
                            }
                        }
                    }
                    let at = if cur.position < cell.len() {
                        cur.position
                    } else {
                        cell.len()
                    };
                    cell.insert(at, c);
                    let _ = state.data.set(coord.as_slice(), cell);
                    proof {
                        lemma_offset_in_bounds(old(state).data.dims(), coord@);
                    }
                    let newpos = if cur.position == usize::MAX {
                        usize::MAX
                    } else {
                        cur.position + 1
                    };
                    state.cursors[0] = Cursor {
                        row: cur.row,
                        column: cur.column,
                        position: newpos,
                        pinned: cur.pinned,
                    };
                } else {
                    proof {
                        assert(!coord_valid(state.data.dims(), seq![cur.row, cur.column]));
                    }
                }
            } else {
                state.mode = Mode::Insert;
            }
        }
        _ => {
            state.mode = Mode::Insert;
        }
    }
}

/// Handle one key at the command or search prompt; the result says whether
/// the buffer was committed with enter.
pub fn command_mode(state: &mut State, key: Key) -> (committed: bool)
    requires
        old(state).wf(),
    ensures
        final(state).wf(),
        prompt_step(*old(state), *final(state), key, committed),
{
    match key {
        Key::Char(c) => {
            if c == '\u{1b}' {
                state.mode = Mode::Normal;
                state.command.clear();
                false
            } else if c == '\n' {
                state.mode = Mode::Normal;
                true
            } else if graphic(c) {
                state.command.push(c);
                false
            } else {
                false
            }
        }
        Key::Backspace => {
            let _ = state.command.pop();
            false
        }
        Key::Other => false,
    }
}

/// The committed command that ends the session.
pub open spec fn quit_text() -> Seq<char> {
    "quit"@
}

/// The whole transition table, one relation for every mode and key; the
/// `quit` flag is set exactly when a committed `quit` command ends the
/// session. The match is total, so the table is exhaustive, and each arm
/// pins the next state, so it is deterministic: a pair not named by a mode's
/// table leaves everything but the status line and prompt buffer unchanged.
pub open spec fn step(pre: State, post: State, k: Key, quit: bool) -> bool {
    match pre.mode {
        Mode::Normal => !quit && normal_step(pre, post, k),
        Mode::View => !quit && view_step(pre, post, k),
        Mode::Insert => !quit && insert_step(pre, post, k),
        Mode::Command => {
            if k == Key::Char('\n') {
                if pre.command@ == quit_text() {
                    &&& quit
                    &&& post.mode == Mode::Normal
                    &&& post.command@ == Seq::<char>::empty()
                    &&& post.status == pre.status
                    &&& post.column_width == pre.column_width
                    &&& post.headers == pre.headers
                    &&& post.view == pre.view
                    &&& post.cursors == pre.cursors
                    &&& post.undo_stack == pre.undo_stack
                    &&& post.data == pre.data
                } else {
                    &&& !quit
                    &&& post.mode == Mode::Normal
                    &&& post.command@ == Seq::<char>::empty()
                    &&& post.status@ == unknown_command_text(pre.command@)
                    &&& post.column_width == pre.column_width
                    &&& post.headers == pre.headers
                    &&& post.view == pre.view
                    &&& post.cursors == pre.cursors
                    &&& post.undo_stack == pre.undo_stack
                    &&& post.data == pre.data
                }
            } else {
                !quit && prompt_step(pre, post, k, false)
            }
        },
        Mode::Search => {
            if k == Key::Char('\n') {
                &&& !quit
                &&& post.mode == Mode::Normal
                &&& post.command@ == Seq::<char>::empty()
                &&& post.status == pre.status
                &&& post.column_width == pre.column_width
                &&& post.headers == pre.headers
                &&& post.view == pre.view
                &&& post.cursors == pre.cursors
                &&& post.undo_stack == pre.undo_stack
                &&& post.data == pre.data
            } else {
                !quit && prompt_step(pre, post, k, false)
            }
        },
    }
}

/// The transition table is deterministic: two sessions that start equal and
/// receive the same input agree afterwards on every observable part of the
/// state - the quit flag, mode, status and prompt texts, viewport, cursors,
/// shape, and every cell's text.
pub proof fn lemma_step_deterministic(pre: State, a: State, b: State, k: Key, qa: bool, qb: bool)
    requires
        pre.wf(),
        step(pre, a, k, qa),
        step(pre, b, k, qb),
    ensures
        qa == qb,
        a.mode == b.mode,
        a.status@ == b.status@,
        a.command@ == b.command@,
        a.view == b.view,
        a.cursors@ == b.cursors@,
        a.column_width == b.column_width,
        a.headers == b.headers,
        a.undo_stack == b.undo_stack,
        a.data.dims() == b.data.dims(),
        a.data.elems().len() == b.data.elems().len(),
        forall|o: int|
            0 <= o < a.data.elems().len() ==> #[trigger] a.data.elems()[o]@ == b.data.elems()[o]@,
{
    match pre.mode {
        Mode::Normal => {
            if k == Key::Char('h') || k == Key::Char('j') || k == Key::Char('k') || k == Key::Char(
                'l',
            ) {
                assert(a.cursors@ =~= b.cursors@);
            }
        },
        Mode::Insert => {
            if k matches Key::Char(c) && c != '\u{1b}' && is_graphic(c) {
                let cur = pre.cursors@[0];
                let coord = seq![cur.row, cur.column];
                if coord_valid(pre.data.dims(), coord) {
                    lemma_offset_in_bounds(pre.data.dims(), coord);
                    assert(a.cursors@ =~= b.cursors@);
                }
            }
        },
        _ => {},
    }
}

/// Feed one input event through the state machine; the result says whether
/// a committed `quit` command ends the surrounding event loop.
pub fn handle_key(state: &mut State, key: Key) -> (quit: bool)
    requires
        old(state).wf(),
    ensures
        final(state).wf(),
        step(*old(state), *final(state), key, quit),
{
    match state.mode {
        Mode::Normal => {
            normal_mode(state, key);
            false
        }
        Mode::View => {
            view_mode(state, key);
            false
        }
        Mode::Insert => {
            insert_mode(state, key);
            false
        }
        Mode::Command => {
            if command_mode(state, key) {
                if buffer_is(&state.command, "quit") {
                    state.command = Vec::new();
                    true
                } else {
                    let mut msg = chars_of("unknown command '");
                    msg.append(&mut state.command);
                    msg.push('\'');
                    proof {
                        reveal_strlit("'");
                        assert(msg@ =~= unknown_command_text(old(state).command@));
                    }
                    state.status = msg;
                    state.mode = Mode::Normal;
                    false
                }
            } else {
                false
            }
        }
        Mode::Search => {
            if command_mode(state, key) {
                state.mode = Mode::Normal;
                state.command = Vec::new();
                false
            } else {
                false
            }
        }
    }
}

} // verus!
