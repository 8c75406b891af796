//! The pure render-layout engine: from session state and terminal size to a
//! list of draw instructions. Nothing here touches a terminal; the caller
//! executes the instructions in order on whatever surface it has. An
//! instruction that would fall outside the surface is simply not emitted.

use crate::matrix::coord_valid;
use crate::mode::Mode;
use crate::state::State;
use vstd::arithmetic::div_mod::lemma_div_decreases;
use vstd::arithmetic::div_mod::lemma_div_is_ordered;
use vstd::prelude::*;

verus! {

/// `a + b`, stopping at the machine limit.
pub open spec fn sat_add(a: int, b: int) -> int {
    if a + b > usize::MAX {
        usize::MAX as int
    } else {
        a + b
    }
}

/// Terminal rows left for the table once the status rows are reserved.
pub open spec fn spec_usable(max_y: int) -> int {
    sat_sub(max_y, 2)
}

/// How many data rows fit: what is left below the viewport, capped by the
/// room on screen at two terminal rows per data row.
pub open spec fn spec_rows_to_show(s: State, max_y: int) -> int {
    let avail = sat_sub(spec_usable(max_y) / 2, s.headers as int);
    let left = sat_sub(s.data.dims()[0] as int, s.view@[0] as int);
    if left < avail {
        left
    } else {
        avail
    }
}

/// The terminal row of the first data row: below the header block and its
/// boundary line.
pub open spec fn spec_first_content_row(s: State) -> int {
    if s.headers == 0 {
        0
    } else {
        sat_add(s.headers as int, 1)
    }
}

/// The terminal row showing visible data row `i`.
pub open spec fn content_row(s: State, i: int) -> int {
    sat_add(sat_add(spec_first_content_row(s), i), i)
}

/// The width of the row-number gutter: as wide as the largest visible row
/// index, at least one column.
pub open spec fn spec_gutter(s: State, max_y: int) -> nat {
    let rts = spec_rows_to_show(s, max_y);
    if rts == 0 {
        1
    } else {
        spec_digits10((s.view@[0] + rts - 1) as nat)
    }
}

/// The instructions hold visible row `i`'s right-aligned row-number label on
/// its content row.
pub open spec fn has_row_label(ops: Seq<DrawOp>, s: State, max_y: int, i: int) -> bool {
    exists|k: int|
        0 <= k < ops.len() && (#[trigger] ops[k] matches DrawOp::Text { y, x, text, bold }
            && y == content_row(s, i) && x == 0 && text@ == spec_right_aligned(
            spec_decimal((s.view@[0] + i) as nat),
            spec_gutter(s, max_y),
        ) && !bold)
}

/// Appending instructions never loses a row label already emitted.
proof fn lemma_labels_monotone(a: Seq<DrawOp>, b: Seq<DrawOp>, s: State, max_y: int)
    requires
        a.len() <= b.len(),
        forall|k: int| 0 <= k < a.len() ==> a[k] == b[k],
    ensures
        forall|i: int| has_row_label(a, s, max_y, i) ==> #[trigger] has_row_label(b, s, max_y, i),
{
    assert forall|i: int| has_row_label(a, s, max_y, i) implies #[trigger] has_row_label(
        b,
        s,
        max_y,
        i,
    ) by {
        let k = choose|k: int|
            0 <= k < a.len() && (#[trigger] a[k] matches DrawOp::Text { y, x, text, bold }
                && y == content_row(s, i) && x == 0 && text@ == spec_right_aligned(
                spec_decimal((s.view@[0] + i) as nat),
                spec_gutter(s, max_y),
            ) && !bold);
        assert(b[k] == a[k]);
    }
}

/// One draw instruction for the terminal surface.
#[derive(Debug, Clone, PartialEq, Eq)]
pub enum DrawOp {
    /// Write text starting at a cell, optionally with the bold attribute.
    Text { y: usize, x: usize, text: Vec<char>, bold: bool },
    /// Put a single grid glyph at a cell.
    Glyph { y: usize, x: usize, glyph: char },
    /// Clear from a cell to the end of its row.
    ClearToEol { y: usize, x: usize },
}

/// The row an instruction starts on.
pub open spec fn op_y(op: DrawOp) -> int {
    match op {
        DrawOp::Text { y, .. } => y as int,
        DrawOp::Glyph { y, .. } => y as int,
        DrawOp::ClearToEol { y, .. } => y as int,
    }
}

/// The column an instruction starts on.
pub open spec fn op_x(op: DrawOp) -> int {
    match op {
        DrawOp::Text { x, .. } => x as int,
        DrawOp::Glyph { x, .. } => x as int,
        DrawOp::ClearToEol { x, .. } => x as int,
    }
}

/// The instruction starts inside a terminal of the given size.
pub open spec fn op_on_screen(op: DrawOp, max_y: int, max_x: int) -> bool {
    0 <= op_y(op) < max_y && 0 <= op_x(op) < max_x
}

/// Number of decimal digits of `n`.
pub open spec fn spec_digits10(n: nat) -> nat
    decreases n,
{
    if n < 10 {
        1
    } else {
        1 + spec_digits10(n / 10)
    }
}

/// A positive number has at most as many digits as its own value.
proof fn lemma_digits10_le_self(n: nat)
    requires
        1 <= n,
    ensures
        spec_digits10(n) <= n,
    decreases n,
{
    if n >= 10 {
        lemma_div_is_ordered(10, n as int, 10);
        lemma_div_decreases(n as int, 10);
        lemma_digits10_le_self(n / 10);
    }
}

/// Exec mirror of `spec_digits10`.
pub fn digits10(n: usize) -> (r: usize)
    ensures
        r == spec_digits10(n as nat),
        1 <= r,
{
    proof {
        if n >= 10 {
            lemma_div_is_ordered(10, n as int, 10);
            lemma_div_decreases(n as int, 10);
            lemma_digits10_le_self((n as nat) / 10);
            lemma_div_is_ordered(n as int, usize::MAX as int, 10);
        }
    }
    let ghost n0 = n;
    let mut n = n;
    let mut d: usize = 1;
    while n >= 10
        invariant
            spec_digits10(n0 as nat) == d - 1 + spec_digits10(n as nat),
            1 <= d,
            n <= n0,
            d <= spec_digits10(n0 as nat),
            n0 >= 10 ==> spec_digits10(n0 as nat) <= 1 + (n0 as nat) / 10 && (n0 as int) / 10 <= (
            usize::MAX as int) / 10,
        decreases n,
    {
        proof {
            lemma_div_decreases(n as int, 10);
        }
        n = n / 10;
        d = d + 1;
    }
    d
}

/// The character for one decimal digit.
pub open spec fn spec_digit_char(k: nat) -> char {
    if k == 0 {
        '0'
    } else if k == 1 {
        '1'
    } else if k == 2 {
        '2'
    } else if k == 3 {
        '3'
    } else if k == 4 {
        '4'
    } else if k == 5 {
        '5'
    } else if k == 6 {
        '6'
    } else if k == 7 {
        '7'
    } else if k == 8 {
        '8'
    } else {
        '9'
    }
}

/// The decimal spelling of `n`, most significant digit first.
pub open spec fn spec_decimal(n: nat) -> Seq<char>
    decreases n,
{
    if n < 10 {
        seq![spec_digit_char(n)]
    } else {
        spec_decimal(n / 10).push(spec_digit_char(n % 10))
    }
}

fn digit_of(k: usize) -> (c: char)
    requires
        k < 10,
    ensures
        c == spec_digit_char(k as nat),
{
    if k == 0 {
        '0'
    } else if k == 1 {
        '1'
    } else if k == 2 {
        '2'
    } else if k == 3 {
        '3'
    } else if k == 4 {
        '4'
    } else if k == 5 {
        '5'
    } else if k == 6 {
        '6'
    } else if k == 7 {
        '7'
    } else if k == 8 {
        '8'
    } else {
        '9'
    }
}

/// Exec mirror of `spec_decimal`.
pub fn decimal_chars(n: usize) -> (r: Vec<char>)
    ensures
        r@ == spec_decimal(n as nat),
    decreases n,
{
    let digit = digit_of(n % 10);
    if n < 10 {
        let mut r: Vec<char> = Vec::new();
        r.push(digit);
        proof {
            assert(r@ =~= seq![spec_digit_char(n as nat)]);
            assert(n % 10 == n) by (nonlinear_arith)
                requires
                    0 <= n < 10,
            ;
        }
        r
    } else {
        proof {
            lemma_div_decreases(n as int, 10);
        }
        let mut r = decimal_chars(n / 10);
        r.push(digit);
        r
    }
}

/// A run of spaces.
pub open spec fn spec_spaces(k: nat) -> Seq<char> {
    Seq::new(k, |i: int| ' ')
}

/// `label`, right-aligned in a field of the given width with leading spaces;
/// a label that is already wide enough is left alone.
pub open spec fn spec_right_aligned(label: Seq<char>, width: nat) -> Seq<char> {
    if label.len() >= width {
        label
    } else {
        spec_spaces((width - label.len()) as nat) + label
    }
}

/// Exec mirror of `spec_right_aligned`.
pub fn right_aligned(label: Vec<char>, width: usize) -> (r: Vec<char>)
    ensures
        r@ == spec_right_aligned(label@, width as nat),
{
    if label.len() >= width {
        label
    } else {
        let pad = width - label.len();
        let mut r: Vec<char> = Vec::new();
        let mut i: usize = 0;
        while i < pad
            invariant
                i <= pad,
                r@ =~= spec_spaces(i as nat),
            decreases pad - i,
        {
            r.push(' ');
            proof {
                assert(r@ =~= spec_spaces((i + 1) as nat));
            }
            i += 1;
        }
        let mut label = label;
        let ghost l0 = label@;
        r.append(&mut label);
        proof {
            assert(r@ =~= spec_spaces(pad as nat) + l0);
        }
        r
    }
}

/// The first `cap` characters of a cell, or all of them if it is shorter.
pub open spec fn spec_truncated(cell: Seq<char>, cap: nat) -> Seq<char> {
    if cell.len() <= cap {
        cell
    } else {
        cell.take(cap as int)
    }
}

/// Exec mirror of `spec_truncated`.
pub fn truncated(cell: &Vec<char>, cap: usize) -> (r: Vec<char>)
    ensures
        r@ == spec_truncated(cell@, cap as nat),
        r@.len() <= cap || r@.len() == cell@.len(),
{
    let n = if cell.len() <= cap {
        cell.len()
    } else {
        cap
    };
    let mut r: Vec<char> = Vec::new();
    let mut i: usize = 0;
    while i < n
        invariant
            i <= n,
            n <= cell@.len(),
            r@ == cell@.take(i as int),
        decreases n - i,
    {
        r.push(cell[i]);
        proof {
            assert(r@ =~= cell@.take(i + 1));
        }
        i += 1;
    }
    proof {
        if cell@.len() <= cap {
            assert(r@ =~= cell@);
        }
    }
    r
}

/// Whether the vector holds the value.
fn contains_val(v: &Vec<usize>, x: usize) -> (r: bool)
    ensures
        r == v@.contains(x),
{
    let mut i: usize = 0;
    while i < v.len()
        invariant
            i <= v@.len(),
            forall|m: int| 0 <= m < i ==> v@[m] != x,
        decreases v@.len() - i,
    {
        if v[i] == x {
            return true;
        }
        i += 1;
    }
    false
}

/// The glyph a crossed horizontal line shows at column `ix`: its left cap at
/// the start, its right cap at the end, a cross wherever a vertical grid
/// line passes, and the plain line everywhere else.
pub open spec fn hline_glyph(
    x0: int,
    x1: int,
    crosses: Seq<usize>,
    left: char,
    middle: char,
    cross: char,
    right: char,
    ix: int,
) -> char {
    if ix == x0 {
        left
    } else if ix == x1 - 1 {
        right
    } else if crosses.contains(ix as usize) {
        cross
    } else {
        middle
    }
}

/// Emit one crossed horizontal line on row `y`, spanning `[x0, x1)`.
fn crossed_hline(
    ops: &mut Vec<DrawOp>,
    y: usize,
    x0: usize,
    x1: usize,
    left: char,
    middle: char,
    cross: char,
    right: char,
    crosses: &Vec<usize>,
)
    requires
        x0 <= x1,
    ensures
        final(ops)@.len() == old(ops)@.len() + (x1 - x0),
        forall|k: int| 0 <= k < old(ops)@.len() ==> final(ops)@[k] == old(ops)@[k],
        forall|k: int|
            old(ops)@.len() <= k < final(ops)@.len() ==> final(ops)@[k] == (DrawOp::Glyph {
                y: y,
                x: (x0 + k - old(ops)@.len()) as usize,
                glyph: hline_glyph(
                    x0 as int,
                    x1 as int,
                    crosses@,
                    left,
                    middle,
                    cross,
                    right,
                    x0 + k - old(ops)@.len(),
                ),
            }),
{
    let mut ix = x0;
    while ix < x1
        invariant
            x0 <= ix <= x1,
            ops@.len() == old(ops)@.len() + (ix - x0),
            forall|k: int| 0 <= k < old(ops)@.len() ==> ops@[k] == old(ops)@[k],
            forall|k: int|
                old(ops)@.len() <= k < ops@.len() ==> ops@[k] == (DrawOp::Glyph {
                    y: y,
                    x: (x0 + k - old(ops)@.len()) as usize,
                    glyph: hline_glyph(
                        x0 as int,
                        x1 as int,
                        crosses@,
                        left,
                        middle,
                        cross,
                        right,
                        x0 + k - old(ops)@.len(),
                    ),
                }),
        decreases x1 - ix,
    {
        let glyph = if ix == x0 {
            left
        } else if ix == x1 - 1 {
            right
        } else if contains_val(crosses, ix) {
            cross
        } else {
            middle
        };
        ops.push(DrawOp::Glyph { y, x: ix, glyph });
        ix += 1;
    }
}

/// `a - b`, stopping at zero.
pub open spec fn sat_sub(a: int, b: int) -> int {
    if a < b {
        0
    } else {
        a - b
    }
}

/// The text of the status line's left side: the command or search buffer
/// behind its prompt character, or the transient status message.
pub open spec fn status_text(s: State) -> Seq<char> {
    match s.mode {
        Mode::Command => seq![':'] + s.command@,
        Mode::Search => seq!['?'] + s.command@,
        _ => s.status@,
    }
}

/// The label of a mode in the status line.
pub open spec fn mode_text(m: Mode) -> Seq<char> {
    match m {
        Mode::Normal => "Normal"@,
        Mode::Insert => "Insert"@,
        Mode::Command => "Prompt"@,
        Mode::Search => "Search"@,
        Mode::View => "View"@,
    }
}

/// The right-aligned summary of the status line: mode, active-cursor
/// position and table size in data coordinates, and the cursor count.
pub open spec fn modeline_text(s: State) -> Seq<char> {
    mode_text(s.mode) + " Mode. "@ + spec_decimal(
        sat_sub(s.cursors@[0].row as int, s.headers as int) as nat,
    ) + ":"@ + spec_decimal(s.cursors@[0].column as nat) + "/"@ + spec_decimal(
        sat_sub(s.data.dims()[0] as int, s.headers as int) as nat,
    ) + ":"@ + spec_decimal(s.data.dims()[1] as nat) + ". "@ + spec_decimal(s.cursors@.len())
        + " cursors."@
}

/// Exec mirror of `modeline_text`.
fn modeline_chars(s: &State) -> (r: Vec<char>)
    requires
        s.wf(),
    ensures
        r@ == modeline_text(*s),
{
    let cur = s.cursors[0];
    let rows = s.data.dimensions()[0];
    let cols = s.data.dimensions()[1];
    let mut r = crate::dispatch::chars_of(s.mode.name());
    let mut part = crate::dispatch::chars_of(" Mode. ");
    r.append(&mut part);
    let mut part = decimal_chars(cur.row.saturating_sub(s.headers));
    r.append(&mut part);
    r.push(':');
    let mut part = decimal_chars(cur.column);
    r.append(&mut part);
    r.push('/');
    let mut part = decimal_chars(rows.saturating_sub(s.headers));
    r.append(&mut part);
    r.push(':');
    let mut part = decimal_chars(cols);
    r.append(&mut part);
    let mut part = crate::dispatch::chars_of(". ");
    r.append(&mut part);
    let mut part = decimal_chars(s.cursors.len());
    r.append(&mut part);
    let mut part = crate::dispatch::chars_of(" cursors.");
    r.append(&mut part);
    proof {
        reveal_strlit(":");
        reveal_strlit("/");
        assert(r@ =~= modeline_text(*s));
    }
    r
}

/// Compute the whole screen's draw instructions from the current state and
/// the terminal size: row-number gutter, bordered grid of truncated cell
/// texts with bold header rows, and the status line. Every instruction
/// starts inside the terminal, the status line's left side carries exactly
/// the prompt or status text, and its right side exactly the summary.
pub fn layout(state: &State, max_y: usize, max_x: usize) -> (ops: Vec<DrawOp>)
    requires
        state.wf(),
        1 <= max_y,
        1 <= max_x,
    ensures
        forall|k: int| 0 <= k < ops@.len() ==> op_on_screen(#[trigger] ops@[k], max_y as int, max_x as int),
        exists|k: int|
            0 <= k < ops@.len() && (#[trigger] ops@[k] matches DrawOp::Text { y, x, text, bold }
                && y == max_y - 1 && x == 0 && text@ == status_text(*state) && !bold),
        exists|k: int|
            0 <= k < ops@.len() && (#[trigger] ops@[k] matches DrawOp::Text { y, x, text, bold }
                && y == max_y - 1 && text@ == modeline_text(*state) && !bold),
        forall|i: int|
            0 <= i < spec_rows_to_show(*state, max_y as int) && content_row(*state, i) < max_y
                ==> has_row_label(ops@, *state, max_y as int, i),
{
    let rows = state.data.dimensions()[0];
    let cols = state.data.dimensions()[1];
    let headers = state.headers;
    let wmin = state.column_width.0;
    let wmax = state.column_width.1;
    let view0 = state.view[0];
    let view1 = state.view[1];

    let mut ops: Vec<DrawOp> = Vec::new();

    // room: the last two rows are kept for the status line, and each data
    // row takes a content row and a separator row
    let usable = max_y.saturating_sub(2);
    let rows_avail = (usable / 2).saturating_sub(headers);
    let rows_to_show = {
        let left = rows.saturating_sub(view0);
        if left < rows_avail {
            left
        } else {
            rows_avail
        }
    };
    // first content row: below the header block and its boundary line
    let y0 = if headers == 0 {
        0
    } else {
        headers.saturating_add(1)
    };

    // row-number gutter, as wide as the largest visible row index
    let gutter = if rows_to_show == 0 {
        1
    } else {
        digits10(view0 + (rows_to_show - 1))
    };
    let mut i: usize = 0;
    while i < rows_to_show
        invariant
            forall|k: int|
                0 <= k < ops@.len() ==> op_on_screen(#[trigger] ops@[k], max_y as int, max_x as int),
            rows_to_show > 0 ==> view0 + rows_to_show <= rows,
            1 <= max_x,
            i <= rows_to_show,
            rows_to_show == spec_rows_to_show(*state, max_y as int),
            view0 == state.view@[0],
            gutter as nat == spec_gutter(*state, max_y as int),
            y0 as int == spec_first_content_row(*state),
            forall|ii: int|
                0 <= ii < i && content_row(*state, ii) < max_y ==> has_row_label(
                    ops@,
                    *state,
                    max_y as int,
                    ii,
                ),
        decreases rows_to_show - i,
    {
        let y = y0.saturating_add(i).saturating_add(i);
        proof {
            assert(y as int == content_row(*state, i as int));
        }
        if y < max_y {
            let ghost ops0 = ops@;
            let label = right_aligned(decimal_chars(view0 + i), gutter);
            ops.push(DrawOp::Text { y, x: 0, text: label, bold: false });
            proof {
                lemma_labels_monotone(ops0, ops@, *state, max_y as int);
                let k = ops@.len() - 1;
                assert(ops@[k] matches DrawOp::Text { y: yy, x, text, bold } && yy == content_row(
                    *state,
                    i as int,
                ) && x == 0 && text@ == spec_right_aligned(
                    spec_decimal((state.view@[0] + i) as nat),
                    spec_gutter(*state, max_y as int),
                ) && !bold);
            }
        }
        i += 1;
    }

    // the table, column by column, while it still fits
    let mut vlines: Vec<usize> = Vec::new();
    let mut x = gutter.saturating_add(2);
    vlines.push(x - 1);
    let mut column = view1;
    while x < max_x && column < cols
        invariant
            state.wf(),
            forall|k: int|
                0 <= k < ops@.len() ==> op_on_screen(#[trigger] ops@[k], max_y as int, max_x as int),
            rows == state.data.dims()[0],
            cols == state.data.dims()[1],
            headers == state.headers,
            rows_to_show > 0 ==> view0 + rows_to_show <= rows,
            1 <= max_y,
            1 <= vlines@.len(),
            forall|ii: int|
                0 <= ii < spec_rows_to_show(*state, max_y as int) && content_row(*state, ii)
                    < max_y ==> has_row_label(ops@, *state, max_y as int, ii),

        decreases cols - column,
    {
        let mut width = wmin;
        // header rows, shown bold
        let hdr_rows = if headers <= rows {
            headers
        } else {
            rows
        };
        let mut h: usize = 0;
        while h < hdr_rows
            invariant
                state.wf(),
                forall|k: int|
                    0 <= k < ops@.len() ==> op_on_screen(
                        #[trigger] ops@[k],
                        max_y as int,
                        max_x as int,
                    ),
                hdr_rows <= rows,
                rows == state.data.dims()[0],
                cols == state.data.dims()[1],
                column < cols,
                x < max_x,
                forall|ii: int|
                    0 <= ii < spec_rows_to_show(*state, max_y as int) && content_row(*state, ii)
                        < max_y ==> has_row_label(ops@, *state, max_y as int, ii),

            decreases hdr_rows - h,
        {
            let ghost ops0 = ops@;
            let mut coord: Vec<usize> = Vec::new();
            coord.push(h);
            coord.push(column);
            proof {
                assert(coord@ =~= seq![h, column]);
                assert(coord_valid(state.data.dims(), coord@));
            }
            match state.data.get(coord.as_slice()) {
                Ok(cell) => {
                    let text = truncated(cell, wmax);
                    if text.len() > width {
                        width = text.len();
                    }
                    if h < max_y {
                        ops.push(DrawOp::Text { y: h, x, text, bold: true });
                    }
                }
                Err(_) => {}
            }
            proof {
                lemma_labels_monotone(ops0, ops@, *state, max_y as int);
            }
            h += 1;
        }
        // visible data rows
        let mut i: usize = 0;
        while i < rows_to_show
            invariant
                state.wf(),
                forall|k: int|
                    0 <= k < ops@.len() ==> op_on_screen(
                        #[trigger] ops@[k],
                        max_y as int,
                        max_x as int,
                    ),
                rows_to_show > 0 ==> view0 + rows_to_show <= rows,
                rows == state.data.dims()[0],
                cols == state.data.dims()[1],
                column < cols,
                x < max_x,
                1 <= max_y,
                forall|ii: int|
                    0 <= ii < spec_rows_to_show(*state, max_y as int) && content_row(*state, ii)
                        < max_y ==> has_row_label(ops@, *state, max_y as int, ii),

            decreases rows_to_show - i,
        {
            let ghost ops0 = ops@;
            let mut coord: Vec<usize> = Vec::new();
            coord.push(view0 + i);
            coord.push(column);
            proof {
                assert(coord@ =~= seq![(view0 + i) as usize, column]);
                assert(coord_valid(state.data.dims(), coord@));
            }
            match state.data.get(coord.as_slice()) {
                Ok(cell) => {
                    let text = truncated(cell, wmax);
                    if text.len() > width {
                        width = text.len();
                    }
                    let y = y0.saturating_add(i).saturating_add(i);
                    if y < max_y {
                        ops.push(DrawOp::Text { y, x, text, bold: false });
                    }
                }
                Err(_) => {}
            }
            proof {
                lemma_labels_monotone(ops0, ops@, *state, max_y as int);
            }
            i += 1;
        }
        x = x.saturating_add(width).saturating_add(3);
        if x >= 2 {
            vlines.push(x - 2);
        }
        column += 1;
    }

    // vertical grid lines, from the top to below the last visible row
    let bottom = {
        let b = headers.saturating_add(rows_to_show).saturating_add(rows_to_show);
        if b < max_y {
            b
        } else {
            max_y
        }
    };
    let mut vi: usize = 0;
    while vi < vlines.len()
        invariant
            forall|k: int|
                0 <= k < ops@.len() ==> op_on_screen(#[trigger] ops@[k], max_y as int, max_x as int),
            bottom <= max_y,
            forall|ii: int|
                0 <= ii < spec_rows_to_show(*state, max_y as int) && content_row(*state, ii)
                    < max_y ==> has_row_label(ops@, *state, max_y as int, ii),

        decreases vlines@.len() - vi,
    {
        let p = vlines[vi];
        if p < max_x {
            let mut y: usize = 0;
            while y < bottom
                invariant
                    forall|k: int|
                        0 <= k < ops@.len() ==> op_on_screen(
                            #[trigger] ops@[k],
                            max_y as int,
                            max_x as int,
                        ),
                    bottom <= max_y,
                    p < max_x,
                forall|ii: int|
                    0 <= ii < spec_rows_to_show(*state, max_y as int) && content_row(*state, ii)
                        < max_y ==> has_row_label(ops@, *state, max_y as int, ii),

                decreases bottom - y,
            {
                let ghost ops0 = ops@;
                ops.push(DrawOp::Glyph { y, x: p, glyph: '│' });
                proof {
                    lemma_labels_monotone(ops0, ops@, *state, max_y as int);
                }
                y += 1;
            }
        }
        vi += 1;
    }

    // horizontal boundaries with crosses at the vertical lines
    let x_end = if x < max_x {
        x.saturating_sub(1)
    } else {
        max_x
    };
    let x_start = vlines[0];
    if headers > 0 && x_start < x_end && y0 >= 2 && y0 - 1 < max_y {
        let ghost ops0 = ops@;
        crossed_hline(&mut ops, y0 - 1, x_start, x_end, '╞', '═', '╪', '╡', &vlines);
        proof {
            lemma_labels_monotone(ops0, ops@, *state, max_y as int);
        }
    }
    let mut i: usize = 0;
    while i < rows_to_show
        invariant
            forall|k: int|
                0 <= k < ops@.len() ==> op_on_screen(#[trigger] ops@[k], max_y as int, max_x as int),
            x_end <= max_x,
            forall|ii: int|
                0 <= ii < spec_rows_to_show(*state, max_y as int) && content_row(*state, ii)
                    < max_y ==> has_row_label(ops@, *state, max_y as int, ii),
        decreases rows_to_show - i,
    {
        let ghost ops0 = ops@;
        let y = y0.saturating_add(i).saturating_add(i).saturating_add(1);
        if x_start < x_end && y < max_y {
            if i + 1 < rows_to_show {
                crossed_hline(&mut ops, y, x_start, x_end, '├', '─', '┼', '┤', &vlines);
            } else {
                crossed_hline(&mut ops, y, x_start, x_end, '└', '─', '┴', '┘', &vlines);
            }
        }
        proof {
            lemma_labels_monotone(ops0, ops@, *state, max_y as int);
        }
        i += 1;
    }

    // status line: the prompt or message on the left, cleared to the end
    let ghost ops_grid = ops@;
    let text = if matches!(state.mode, Mode::Command) {
        let mut t: Vec<char> = Vec::new();
        t.push(':');
        let mut rest = crate::dispatch::copy_chars(&state.command);
        t.append(&mut rest);
        proof {
            assert(t@ =~= status_text(*state));
        }
        t
    } else if matches!(state.mode, Mode::Search) {
        let mut t: Vec<char> = Vec::new();
        t.push('?');
        let mut rest = crate::dispatch::copy_chars(&state.command);
        t.append(&mut rest);
        proof {
            assert(t@ =~= status_text(*state));
        }
        t
    } else {
        crate::dispatch::copy_chars(&state.status)
    };
    let text_len = text.len();
    ops.push(DrawOp::Text { y: max_y - 1, x: 0, text, bold: false });
    let ghost status_at = ops@.len() - 1;
    let clear_x = if text_len < max_x {
        text_len
    } else {
        max_x - 1
    };
    ops.push(DrawOp::ClearToEol { y: max_y - 1, x: clear_x });

    // the summary, right-aligned on the same row
    let summary = modeline_chars(state);
    let sx = max_x.saturating_sub(summary.len().saturating_add(1));
    ops.push(DrawOp::Text { y: max_y - 1, x: sx, text: summary, bold: false });
    proof {
        let n = ops@.len();
        assert(ops@[status_at] matches DrawOp::Text { y, x, text, bold } && y == max_y - 1 && x
            == 0 && text@ == status_text(*state) && !bold);
        assert(ops@[n - 1] matches DrawOp::Text { y, x, text, bold } && y == max_y - 1 && text@
            == modeline_text(*state) && !bold);
        assert(sx < max_x);
        lemma_labels_monotone(ops_grid, ops@, *state, max_y as int);
    }
    ops
}

} // verus!
