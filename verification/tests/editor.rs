use greg::dispatch::handle_key;
use greg::dispatch::Key;
use greg::matrix::Matrix;
use greg::mode::Mode;
use greg::state::Cursor;
use greg::state::State;

fn chars(s: &str) -> Vec<char> {
    s.chars().collect()
}

fn session(rows: Vec<Vec<&str>>, headers: usize) -> State {
    let rows: Vec<Vec<Vec<char>>> =
        rows.into_iter().map(|r| r.into_iter().map(chars).collect()).collect();
    State {
        column_width: (4, 16),
        headers,
        mode: Mode::default(),
        status: Vec::new(),
        command: Vec::new(),
        view: [headers, 0],
        cursors: vec![Cursor::new(headers, 0)],
        undo_stack: Vec::new(),
        data: Matrix::from_rows(rows),
    }
}

#[test]
fn load_rectangularizes_and_quit_ends_the_session() {
    let mut state = session(vec![vec!["a", "b"], vec!["c"]], 0);
    assert_eq!(state.data.dimensions(), &[2, 2]);
    assert_eq!(*state.data.get(&[1, 1]).unwrap(), chars(""));
    for key in [':', 'q', 'u', 'i', 't'] {
        assert!(!handle_key(&mut state, Key::Char(key)));
    }
    assert!(handle_key(&mut state, Key::Char('\n')));
    assert_eq!(state.mode, Mode::Normal);
    assert_eq!(state.command, chars(""));
}

#[test]
fn unknown_command_reports_and_returns_to_normal() {
    let mut state = session(vec![vec!["a", "b"], vec!["c"]], 0);
    assert!(!handle_key(&mut state, Key::Char(':')));
    assert_eq!(state.mode, Mode::Command);
    assert!(!handle_key(&mut state, Key::Char('x')));
    assert!(!handle_key(&mut state, Key::Char('\n')));
    assert_eq!(state.mode, Mode::Normal);
    assert_eq!(state.status, chars("unknown command 'x'"));
    assert_eq!(state.command, chars(""));
}

#[test]
fn normal_mode_moves_cursors_with_clamping() {
    let mut state = session(vec![vec!["a", "b"], vec!["c", "d"], vec!["e", "f"]], 1);
    assert!(!handle_key(&mut state, Key::Char('j')));
    assert_eq!((state.cursors[0].row, state.cursors[0].column), (2, 0));
    assert!(!handle_key(&mut state, Key::Char('j')));
    assert_eq!(state.cursors[0].row, 2, "clamped at the last row");
    assert!(!handle_key(&mut state, Key::Char('k')));
    assert!(!handle_key(&mut state, Key::Char('k')));
    assert_eq!(state.cursors[0].row, 1, "never above the header block");
    assert!(!handle_key(&mut state, Key::Char('h')));
    assert_eq!(state.cursors[0].column, 0, "clamped at the first column");
    assert!(!handle_key(&mut state, Key::Char('l')));
    assert_eq!(state.cursors[0].column, 1);
}

#[test]
fn pinned_cursors_hold_still() {
    let mut state = session(vec![vec!["a", "b"], vec!["c", "d"]], 0);
    state.cursors.push(Cursor { row: 0, column: 1, position: 0, pinned: true });
    assert!(!handle_key(&mut state, Key::Char('j')));
    assert_eq!(state.cursors[0].row, 1);
    assert_eq!(state.cursors[1].row, 0, "a pinned cursor is untouched");
}

#[test]
fn view_mode_scrolls_the_viewport() {
    let mut state = session(
        vec![vec!["a"], vec!["b"], vec!["c"], vec!["d"]],
        0,
    );
    assert!(!handle_key(&mut state, Key::Char('v')));
    assert_eq!(state.mode, Mode::View);
    assert!(!handle_key(&mut state, Key::Char('j')));
    assert!(!handle_key(&mut state, Key::Char('j')));
    assert_eq!(state.view, [2, 0]);
    assert!(!handle_key(&mut state, Key::Char('k')));
    assert_eq!(state.view, [1, 0]);
    assert!(!handle_key(&mut state, Key::Char('\u{1b}')));
    assert_eq!(state.mode, Mode::Normal);
}

#[test]
fn insert_mode_writes_at_the_active_cursor() {
    let mut state = session(vec![vec!["ab", "c"]], 0);
    assert!(!handle_key(&mut state, Key::Char('i')));
    assert_eq!(state.mode, Mode::Insert);
    assert!(!handle_key(&mut state, Key::Char('x')));
    assert!(!handle_key(&mut state, Key::Char('y')));
    assert_eq!(*state.data.get(&[0, 0]).unwrap(), chars("xyab"));
    assert_eq!(state.cursors[0].position, 2);
    assert!(!handle_key(&mut state, Key::Char('\u{1b}')));
    assert_eq!(state.mode, Mode::Normal);
}

#[test]
fn unhandled_input_is_reported_in_the_status() {
    let mut state = session(vec![vec!["a"]], 0);
    assert!(!handle_key(&mut state, Key::Char('q')));
    assert_eq!(state.status, chars("received 'q'"));
    assert_eq!(state.mode, Mode::Normal);
    assert!(!handle_key(&mut state, Key::Backspace));
    assert_eq!(state.status, chars("received Backspace"));
}

#[test]
fn prompt_editing_appends_and_erases() {
    let mut state = session(vec![vec!["a"]], 0);
    assert!(!handle_key(&mut state, Key::Char('/')));
    assert_eq!(state.mode, Mode::Search);
    assert!(!handle_key(&mut state, Key::Char('a')));
    assert!(!handle_key(&mut state, Key::Char('b')));
    assert_eq!(state.command, chars("ab"));
    assert!(!handle_key(&mut state, Key::Backspace));
    assert_eq!(state.command, chars("a"));
    assert!(!handle_key(&mut state, Key::Backspace));
    assert!(!handle_key(&mut state, Key::Backspace));
    assert_eq!(state.command, chars(""), "erasing an empty buffer is a no-op");
    assert!(!handle_key(&mut state, Key::Char('\n')));
    assert_eq!(state.mode, Mode::Normal, "committing a search returns to normal mode");
    assert_eq!(state.command, chars(""));
}

#[test]
fn escape_abandons_the_prompt() {
    let mut state = session(vec![vec!["a"]], 0);
    assert!(!handle_key(&mut state, Key::Char(':')));
    assert!(!handle_key(&mut state, Key::Char('q')));
    assert!(!handle_key(&mut state, Key::Char('\u{1b}')));
    assert_eq!(state.mode, Mode::Normal);
    assert_eq!(state.command, chars(""));
    assert!(!handle_key(&mut state, Key::Char(':')));
    assert!(!handle_key(&mut state, Key::Char('q')));
    assert!(!handle_key(&mut state, Key::Char('u')));
    assert!(!handle_key(&mut state, Key::Char('i')));
    assert!(!handle_key(&mut state, Key::Char('t')));
    assert!(handle_key(&mut state, Key::Char('\n')), "quit still works after an abandoned prompt");
}

#[test]
fn goto_line_resets_the_cursor_collection() {
    let mut state = session(vec![vec!["a"], vec!["b"], vec!["c"]], 0);
    state.cursors.push(Cursor { row: 1, column: 0, position: 0, pinned: true });
    state.goto_line(2);
    assert_eq!(state.cursors, vec![Cursor { row: 2, column: 0, position: 0, pinned: false }]);
}

#[test]
fn move_view_never_scrolls_above_the_headers() {
    let mut state = session(vec![vec!["h"], vec!["a"], vec!["b"]], 1);
    state.move_view(-5, 0);
    assert_eq!(state.view, [1, 0]);
    state.move_view(99, 99);
    assert_eq!(state.view, [2, 0]);
}
