use mmterm::color::Color;
use mmterm::grid::Grid;

fn make_grid(cols: usize, rows: usize) -> Grid {
    Grid::with_colors(
        cols,
        rows,
        Color::rgb(255, 255, 255),
        Color::rgb(0, 0, 0),
        Color::rgb(0xbb, 0xbb, 0xbb),
        Color::rgb(0x3d, 0x3d, 0x3d),
        [Color::rgb(0, 0, 0); 16],
    )
}

#[test]
fn write_char_stores_and_advances_cursor() {
    let mut g = make_grid(10, 5);
    g.write_char('A');
    assert_eq!(g.cell(0, 0).c, 'A');
    assert_eq!(g.cursor_col, 1);
}

#[test]
fn write_char_wraps_to_next_row() {
    let mut g = make_grid(3, 5);
    g.write_char('A');
    g.write_char('B');
    g.write_char('C');
    // cursor_col is now 3; next write wraps
    g.write_char('D');
    assert_eq!(g.cell(0, 1).c, 'D');
    assert_eq!(g.cursor_col, 1);
    assert_eq!(g.cursor_row, 1);
}

#[test]
fn scroll_up_pushes_line_to_scrollback() {
    let mut g = make_grid(4, 3);
    g.write_char('A');
    assert_eq!(g.scrollback_len(), 0);
    g.scroll_up(1);
    assert_eq!(g.scrollback_len(), 1);
    assert_eq!(g.scrollback[0][0].c, 'A');
}

#[test]
fn scroll_down_shifts_content() {
    let mut g = make_grid(4, 3);
    g.write_char('A');
    g.cursor_col = 0;
    g.cursor_row = 1;
    g.write_char('B');
    g.scroll_down(1);
    assert_eq!(g.cell(0, 0).c, ' ');
    assert_eq!(g.cell(0, 1).c, 'A');
}

#[test]
fn resize_preserves_existing_content() {
    let mut g = make_grid(5, 5);
    g.write_char('X');
    g.resize(8, 8);
    assert_eq!(g.cell(0, 0).c, 'X');
    assert_eq!(g.cols, 8);
    assert_eq!(g.rows, 8);
}

#[test]
fn selected_text_single_row() {
    let mut g = make_grid(10, 5);
    for c in "hello".chars() {
        g.write_char(c);
    }
    assert_eq!(g.selected_text(0, 0, 4, 0), "hello");
}

#[test]
fn selected_text_reversed_selection() {
    let mut g = make_grid(10, 5);
    for c in "hello".chars() {
        g.write_char(c);
    }
    assert_eq!(g.selected_text(4, 0, 0, 0), "hello");
}

#[test]
fn selected_text_trims_trailing_spaces() {
    let mut g = make_grid(10, 5);
    g.write_char('H');
    g.write_char('i');
    assert_eq!(g.selected_text(0, 0, 9, 0), "Hi");
}

#[test]
fn alternate_screen_saves_and_restores() {
    let mut g = make_grid(10, 5);
    g.write_char('A');
    g.enter_alternate_screen();
    assert_eq!(g.cell(0, 0).c, ' ');
    g.write_char('B');
    g.exit_alternate_screen();
    assert_eq!(g.cell(0, 0).c, 'A');
}

#[test]
fn alternate_screen_double_enter_is_noop() {
    let mut g = make_grid(10, 5);
    g.write_char('A');
    g.enter_alternate_screen();
    g.enter_alternate_screen();
    g.exit_alternate_screen();
    assert_eq!(g.cell(0, 0).c, 'A');
}

#[test]
fn clear_line_blanks_row() {
    let mut g = make_grid(5, 3);
    g.write_char('X');
    g.clear_line(0);
    assert_eq!(g.cell(0, 0).c, ' ');
}

#[test]
fn clear_screen_blanks_all_cells() {
    let mut g = make_grid(5, 3);
    g.write_char('X');
    g.clear_screen();
    for row in 0..3 {
        for col in 0..5 {
            assert_eq!(g.cell(col, row).c, ' ');
        }
    }
}

#[test]
fn scrollback_len_increments_on_scroll_up() {
    let mut g = make_grid(4, 2);
    assert_eq!(g.scrollback_len(), 0);
    g.scroll_up(1);
    assert_eq!(g.scrollback_len(), 1);
    g.scroll_up(2);
    assert_eq!(g.scrollback_len(), 3);
}

// ── Further cases ────────────────────────────────────────────────────────────

fn write_str(g: &mut Grid, s: &str) {
    for c in s.chars() {
        g.write_char(c);
    }
}

#[test]
fn new_grid_is_blank_with_cursor_home() {
    let g = make_grid(3, 2);
    assert_eq!(g.cursor_col, 0);
    assert_eq!(g.cursor_row, 0);
    for row in 0..2 {
        for col in 0..3 {
            assert_eq!(g.cell(col, row).c, ' ');
            assert_eq!(g.cell(col, row).bg, Color::rgb(0, 0, 0));
        }
    }
}

#[test]
fn written_cell_takes_default_colors() {
    let mut g = make_grid(3, 2);
    g.write_char('Q');
    assert_eq!(g.cell(0, 0).fg, Color::rgb(255, 255, 255));
    assert_eq!(g.cell(0, 0).bg, Color::rgb(0, 0, 0));
}

#[test]
fn write_past_bottom_right_scrolls() {
    let mut g = make_grid(2, 2);
    write_str(&mut g, "abcde");
    // "ab" scrolled off, "cd" moved up, "e" on the last line.
    assert_eq!(g.scrollback_len(), 1);
    assert_eq!(g.scrollback[0][0].c, 'a');
    assert_eq!(g.cell(0, 0).c, 'c');
    assert_eq!(g.cell(1, 0).c, 'd');
    assert_eq!(g.cell(0, 1).c, 'e');
    assert_eq!(g.cursor_row, 1);
    assert_eq!(g.cursor_col, 1);
}

#[test]
fn scroll_up_more_than_screen_pushes_blank_lines() {
    let mut g = make_grid(2, 2);
    g.write_char('z');
    g.scroll_up(3);
    assert_eq!(g.scrollback_len(), 3);
    assert_eq!(g.scrollback[0][0].c, 'z');
    assert_eq!(g.scrollback[2][0].c, ' ');
}

#[test]
fn selected_text_spans_rows() {
    let mut g = make_grid(4, 3);
    write_str(&mut g, "ab  cd");
    // row 0: "ab  ", row 1: "cd  "
    assert_eq!(g.selected_text(1, 0, 0, 1), "b\nc");
    assert_eq!(g.selected_text(0, 1, 1, 0), "b\nc");
    assert_eq!(g.selected_text(0, 0, 3, 2), "ab\ncd\n");
}

#[test]
fn selected_text_clamps_to_screen() {
    let mut g = make_grid(3, 2);
    write_str(&mut g, "xyz");
    assert_eq!(g.selected_text(0, 0, 100, 0), "xyz");
}

#[test]
fn alternate_screen_has_no_scrollback() {
    let mut g = make_grid(3, 2);
    g.write_char('m');
    g.scroll_up(1);
    assert_eq!(g.scrollback_len(), 1);
    g.enter_alternate_screen();
    assert_eq!(g.scrollback_len(), 0);
    g.scroll_up(2);
    assert_eq!(g.scrollback_len(), 0);
    g.exit_alternate_screen();
    assert_eq!(g.scrollback_len(), 1);
    assert_eq!(g.scrollback[0][0].c, 'm');
}

#[test]
fn alternate_screen_restores_cursor() {
    let mut g = make_grid(5, 3);
    write_str(&mut g, "ab");
    g.enter_alternate_screen();
    write_str(&mut g, "xyz");
    g.cursor_row = 2;
    g.exit_alternate_screen();
    assert_eq!(g.cursor_col, 2);
    assert_eq!(g.cursor_row, 0);
}

#[test]
fn exit_alternate_on_main_screen_changes_nothing() {
    let mut g = make_grid(3, 2);
    g.write_char('k');
    g.exit_alternate_screen();
    assert_eq!(g.cell(0, 0).c, 'k');
    assert_eq!(g.cursor_col, 1);
}

#[test]
fn resize_shrink_pushes_lines_above_cursor() {
    let mut g = make_grid(2, 4);
    write_str(&mut g, "aabbccd");
    // cursor on row 3; shrinking to 2 rows pushes rows 0 and 1.
    assert_eq!(g.cursor_row, 3);
    let delta = g.resize(2, 2);
    assert_eq!(delta, 2);
    assert_eq!(g.scrollback_len(), 2);
    assert_eq!(g.scrollback[0][0].c, 'a');
    assert_eq!(g.scrollback[1][0].c, 'b');
    assert_eq!(g.cell(0, 0).c, 'c');
    assert_eq!(g.cell(0, 1).c, 'd');
    assert_eq!(g.cursor_row, 1);
}

#[test]
fn resize_shrink_keeps_top_when_cursor_high() {
    let mut g = make_grid(2, 4);
    g.write_char('a');
    let delta = g.resize(2, 2);
    assert_eq!(delta, 0);
    assert_eq!(g.cell(0, 0).c, 'a');
    assert_eq!(g.scrollback_len(), 0);
}

#[test]
fn resize_grow_pulls_lines_back() {
    let mut g = make_grid(2, 2);
    write_str(&mut g, "aabbc");
    assert_eq!(g.scrollback_len(), 1);
    let delta = g.resize(2, 4);
    assert_eq!(delta, -1);
    assert_eq!(g.scrollback_len(), 0);
    assert_eq!(g.cell(0, 0).c, 'a');
    assert_eq!(g.cell(0, 1).c, 'b');
    assert_eq!(g.cell(0, 2).c, 'c');
    assert_eq!(g.cell(0, 3).c, ' ');
    assert_eq!(g.cursor_row, 2);
}

#[test]
fn resize_narrower_cuts_lines_and_cursor() {
    let mut g = make_grid(4, 2);
    write_str(&mut g, "abcd");
    g.resize(2, 2);
    assert_eq!(g.cols, 2);
    assert_eq!(g.cell(1, 0).c, 'b');
    assert_eq!(g.cursor_col, 2);
}

#[test]
fn clear_line_leaves_other_rows() {
    let mut g = make_grid(2, 2);
    write_str(&mut g, "abc");
    g.clear_line(0);
    assert_eq!(g.cell(0, 0).c, ' ');
    assert_eq!(g.cell(0, 1).c, 'c');
}
