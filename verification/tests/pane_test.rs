use mmterm::color::Color;
use mmterm::grid::Grid;
use mmterm::pane::Pane;

fn pane_with_scrollback(lines: usize) -> Pane {
    let mut g = Grid::with_colors(
        4,
        2,
        Color::rgb(255, 255, 255),
        Color::rgb(0, 0, 0),
        Color::rgb(1, 1, 1),
        Color::rgb(2, 2, 2),
        [Color::rgb(0, 0, 0); 16],
    );
    g.scroll_up(lines);
    Pane::new(g, [0, 0, 40, 20])
}

#[test]
fn new_pane_follows_output() {
    let p = pane_with_scrollback(0);
    assert_eq!(p.scroll_offset, 0);
    assert_eq!(p.rect, [0, 0, 40, 20]);
}

#[test]
fn scroll_up_caps_at_scrollback() {
    let mut p = pane_with_scrollback(5);
    p.scroll_up(3);
    assert_eq!(p.scroll_offset, 3);
    p.scroll_up(10);
    assert_eq!(p.scroll_offset, 5);
    p.scroll_up(usize::MAX);
    assert_eq!(p.scroll_offset, 5);
}

#[test]
fn scroll_down_stops_at_bottom() {
    let mut p = pane_with_scrollback(5);
    p.scroll_up(4);
    p.scroll_down(1);
    assert_eq!(p.scroll_offset, 3);
    p.scroll_down(10);
    assert_eq!(p.scroll_offset, 0);
}

#[test]
fn scroll_down_undoes_scroll_up() {
    let mut p = pane_with_scrollback(6);
    p.scroll_up(2);
    p.scroll_up(3);
    p.scroll_down(3);
    assert_eq!(p.scroll_offset, 2);
}

#[test]
fn scroll_top_and_bottom() {
    let mut p = pane_with_scrollback(7);
    p.scroll_top();
    assert_eq!(p.scroll_offset, 7);
    p.scroll_bottom();
    assert_eq!(p.scroll_offset, 0);
}

#[test]
fn resize_moves_offset_with_scrollback() {
    let mut p = pane_with_scrollback(3);
    p.scroll_up(2);
    // growing pulls 2 lines back from the scrollback
    p.resize(4, 4, [1, 2, 3, 4]);
    assert_eq!(p.grid.scrollback_len(), 1);
    assert_eq!(p.scroll_offset, 0);
    assert_eq!(p.rect, [1, 2, 3, 4]);
    assert_eq!(p.grid.rows, 4);
}

#[test]
fn resize_keeps_offset_when_scrollback_grows() {
    let mut p = pane_with_scrollback(3);
    p.grid.cursor_row = 1;
    p.scroll_up(1);
    p.resize(4, 1, [0, 0, 1, 1]);
    assert_eq!(p.grid.scrollback_len(), 4);
    assert_eq!(p.scroll_offset, 2);
}

#[test]
fn resize_of_following_pane_keeps_following() {
    let mut p = pane_with_scrollback(3);
    p.grid.cursor_row = 1;
    p.resize(4, 1, [0, 0, 1, 1]);
    assert_eq!(p.scroll_offset, 0);
}
