use greg::dispatch::handle_key;
use greg::dispatch::Key;
use greg::matrix::Matrix;
use greg::mode::Mode;
use greg::render::decimal_chars;
use greg::render::digits10;
use greg::render::layout;
use greg::render::right_aligned;
use greg::render::truncated;
use greg::render::DrawOp;
use greg::state::Cursor;
use greg::state::State;

fn chars(s: &str) -> Vec<char> {
    s.chars().collect()
}

fn session(rows: Vec<Vec<&str>>, headers: usize) -> State {
    let rows: Vec<Vec<Vec<char>>> =
        rows.into_iter().map(|r| r.into_iter().map(chars).collect()).collect();
    State {
        column_width: (4, 16),
        headers,
        mode: Mode::default(),
        status: Vec::new(),
        command: Vec::new(),
        view: [headers, 0],
        cursors: vec![Cursor::new(headers, 0)],
        undo_stack: Vec::new(),
        data: Matrix::from_rows(rows),
    }
}

#[test]
fn digit_counts() {
    assert_eq!(digits10(0), 1);
    assert_eq!(digits10(9), 1);
    assert_eq!(digits10(10), 2);
    assert_eq!(digits10(99), 2);
    assert_eq!(digits10(100), 3);
    assert_eq!(digits10(65535), 5);
}

#[test]
fn decimal_spellings() {
    assert_eq!(decimal_chars(0), chars("0"));
    assert_eq!(decimal_chars(7), chars("7"));
    assert_eq!(decimal_chars(10), chars("10"));
    assert_eq!(decimal_chars(90210), chars("90210"));
}

#[test]
fn alignment_and_truncation() {
    assert_eq!(right_aligned(chars("7"), 3), chars("  7"));
    assert_eq!(right_aligned(chars("1234"), 3), chars("1234"));
    assert_eq!(truncated(&chars("hello"), 3), chars("hel"));
    assert_eq!(truncated(&chars("hi"), 3), chars("hi"));
}

#[test]
fn layout_puts_the_status_and_summary_on_the_last_row() {
    let state = session(vec![vec!["name", "age"], vec!["ada", "36"]], 1);
    let ops = layout(&state, 24, 80);
    let texts: Vec<(usize, usize, String, bool)> = ops
        .iter()
        .filter_map(|op| match op {
            DrawOp::Text { y, x, text, bold } => {
                Some((*y, *x, text.iter().collect::<String>(), *bold))
            }
            _ => None,
        })
        .collect();
    assert!(texts.iter().any(|t| t.0 == 23 && t.1 == 0 && t.2.is_empty() && !t.3));
    let summary = texts.iter().find(|t| t.0 == 23 && t.1 > 0).expect("a summary op");
    assert_eq!(summary.2, "Normal Mode. 0:0/1:2. 1 cursors.");
    assert!(texts.iter().any(|t| t.2 == "name" && t.0 == 0 && t.3), "bold header text");
    assert!(texts.iter().any(|t| t.2 == "ada" && !t.3), "cell text");
}

#[test]
fn layout_stays_on_screen_and_shows_the_prompt() {
    let mut state = session(vec![vec!["a", "b"], vec!["c", "d"]], 0);
    assert!(!handle_key(&mut state, Key::Char(':')));
    assert!(!handle_key(&mut state, Key::Char('w')));
    let ops = layout(&state, 10, 20);
    for op in &ops {
        let (y, x) = match op {
            DrawOp::Text { y, x, .. } => (*y, *x),
            DrawOp::Glyph { y, x, .. } => (*y, *x),
            DrawOp::ClearToEol { y, x } => (*y, *x),
        };
        assert!(y < 10 && x < 20, "instruction off screen at {},{}", y, x);
    }
    assert!(ops.iter().any(|op| matches!(
        op,
        DrawOp::Text { y: 9, x: 0, text, bold: false } if text.iter().collect::<String>() == ":w"
    )));
}

#[test]
fn layout_draws_the_grid() {
    let state = session(vec![vec!["aa", "bb"], vec!["cc", "dd"]], 0);
    let ops = layout(&state, 24, 40);
    assert!(ops.iter().any(|op| matches!(op, DrawOp::Glyph { glyph: '│', .. })));
    assert!(ops.iter().any(|op| matches!(op, DrawOp::Glyph { glyph: '└', .. })));
    assert!(ops.iter().any(|op| matches!(op, DrawOp::Glyph { glyph: '┴', .. })));
    assert!(
        ops.iter().any(|op| matches!(op, DrawOp::Text { x: 0, text, .. } if text == &chars("0"))),
        "a row-number label"
    );
}
