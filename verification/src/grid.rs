use vstd::prelude::*;

use crate::color::Color;
use crate::text::push_char;

verus! {

/// One character cell of the terminal screen.
#[derive(Clone, Copy, Debug, PartialEq, Eq, Structural)]
pub struct Cell {
    pub c: char,
    pub fg: Color,
    pub bg: Color,
}

/// The main screen as it was when the alternate screen was entered.
pub struct SavedScreen {
    pub cells: Vec<Vec<Cell>>,
    pub scrollback: Vec<Vec<Cell>>,
    pub cursor_col: usize,
    pub cursor_row: usize,
}

/// The character grid of one terminal: the visible screen, the lines that
/// scrolled off its top (the scrollback) and the cursor.
pub struct Grid {
    pub cols: usize,
    pub rows: usize,
    pub cursor_col: usize,
    pub cursor_row: usize,
    /// The visible screen, `rows` lines of `cols` cells, top first.
    pub cells: Vec<Vec<Cell>>,
    /// Lines that scrolled off the top of the main screen, oldest first.
    pub scrollback: Vec<Vec<Cell>>,
    pub fg: Color,
    pub bg: Color,
    pub cursor_color: Color,
    pub selection_color: Color,
    pub palette: [Color; 16],
    /// The saved main screen while the alternate screen is shown.
    pub alternate: Option<SavedScreen>,
    /// Bytes the terminal owes the program on the other end of the pty.
    pub pending_responses: Vec<u8>,
    /// Text that the program asked to put on the clipboard.
    pub pending_clipboard_write: Option<String>,
    /// The program asked for the clipboard's contents.
    pub pending_clipboard_read: bool,
    /// The program rang the bell.
    pub bell_pending: bool,
}

/// The saved main screen, as sequences.
pub struct SavedModel {
    pub lines: Seq<Seq<Cell>>,
    pub history: Seq<Seq<Cell>>,
    pub cursor_col: nat,
    pub cursor_row: nat,
}

/// The mathematical state of a grid: what the screen shows, what the
/// scrollback holds and where the cursor stands.
pub struct GridModel {
    pub cols: nat,
    pub rows: nat,
    pub cursor_col: nat,
    pub cursor_row: nat,
    pub lines: Seq<Seq<Cell>>,
    pub history: Seq<Seq<Cell>>,
    pub saved: Option<SavedModel>,
    pub fg: Color,
    pub bg: Color,
}

/// The contents of a sequence of rows.
pub open spec fn lines_of(v: Seq<Vec<Cell>>) -> Seq<Seq<Cell>> {
    v.map_values(|r: Vec<Cell>| r@)
}

/// `n` copies of `cell`.
pub open spec fn repeat_cell(cell: Cell, n: nat) -> Seq<Cell> {
    Seq::new(n, |i: int| cell)
}

/// `n` copies of `row`.
pub open spec fn repeat_row(row: Seq<Cell>, n: nat) -> Seq<Seq<Cell>> {
    Seq::new(n, |i: int| row)
}

/// `row` cut or padded with `blank` cells to `cols` cells.
pub open spec fn fit_row(row: Seq<Cell>, cols: nat, blank: Cell) -> Seq<Cell> {
    Seq::new(cols, |j: int| if j < row.len() { row[j] } else { blank })
}

/// `lines` cut or padded to `rows` lines of `cols` cells each.
pub open spec fn fit_lines(lines: Seq<Seq<Cell>>, cols: nat, rows: nat, blank: Cell) -> Seq<Seq<Cell>> {
    Seq::new(
        rows,
        |i: int|
            if i < lines.len() {
                fit_row(lines[i], cols, blank)
            } else {
                repeat_cell(blank, cols)
            },
    )
}

/// The characters of a run of cells.
pub open spec fn text_of(cells: Seq<Cell>) -> Seq<char> {
    cells.map_values(|c: Cell| c.c)
}

/// `s` without its trailing spaces.
pub open spec fn trim_end_spaces(s: Seq<char>) -> Seq<char>
    decreases s.len(),
{
    if s.len() > 0 && s.last() == ' ' {
        trim_end_spaces(s.drop_last())
    } else {
        s
    }
}

/// Position (`r0`, `c0`) comes no later than (`r1`, `c1`) in reading order.
pub open spec fn reads_before(r0: nat, c0: nat, r1: nat, c1: nat) -> bool {
    r0 < r1 || (r0 == r1 && c0 <= c1)
}

pub open spec fn min_nat(a: nat, b: nat) -> nat {
    if a <= b {
        a
    } else {
        b
    }
}

impl GridModel {
    /// The cell that clearing writes: a space in the default colours.
    pub open spec fn blank(self) -> Cell {
        Cell { c: ' ', fg: self.fg, bg: self.bg }
    }

    pub open spec fn blank_line(self) -> Seq<Cell> {
        repeat_cell(self.blank(), self.cols)
    }

    /// The grid is in a consistent state.
    pub open spec fn wf(self) -> bool {
        &&& 0 < self.rows <= isize::MAX
        &&& 0 < self.cols
        &&& self.lines.len() == self.rows
        &&& forall|i: int| 0 <= i < self.lines.len() ==> (#[trigger] self.lines[i]).len() == self.cols
        &&& self.cursor_row < self.rows
        &&& self.cursor_col <= self.cols
        &&& self.saved is Some ==> self.history.len() == 0
    }

    pub open spec fn in_alternate(self) -> bool {
        self.saved is Some
    }

    /// The top line leaves the screen (into the scrollback, on the main
    /// screen) and a blank line enters at the bottom.
    pub open spec fn scroll_up_one(self) -> GridModel {
        GridModel {
            history: if self.saved is None {
                self.history.push(self.lines[0])
            } else {
                self.history
            },
            lines: self.lines.drop_first().push(self.blank_line()),
            ..self
        }
    }

    pub open spec fn scrolled_up(self, n: nat) -> GridModel
        decreases n,
    {
        if n == 0 {
            self
        } else {
            self.scrolled_up((n - 1) as nat).scroll_up_one()
        }
    }

    /// The bottom line is dropped and a blank line enters at the top.
    pub open spec fn scroll_down_one(self) -> GridModel {
        GridModel { lines: seq![self.blank_line()] + self.lines.drop_last(), ..self }
    }

    pub open spec fn scrolled_down(self, n: nat) -> GridModel
        decreases n,
    {
        if n == 0 {
            self
        } else {
            self.scrolled_down((n - 1) as nat).scroll_down_one()
        }
    }

    /// Where the next character goes: past the last column the cursor
    /// moves to the start of the next line, scrolling at the bottom.
    pub open spec fn wrapped(self) -> GridModel {
        if self.cursor_col >= self.cols {
            if self.cursor_row + 1 >= self.rows {
                GridModel { cursor_col: 0, ..self.scroll_up_one() }
            } else {
                GridModel { cursor_col: 0, cursor_row: self.cursor_row + 1, ..self }
            }
        } else {
            self
        }
    }

    /// The character `c` written at the cursor, which then advances.
    pub open spec fn write_char(self, c: char) -> GridModel {
        let w = self.wrapped();
        GridModel {
            lines: w.lines.update(
                w.cursor_row as int,
                w.lines[w.cursor_row as int].update(
                    w.cursor_col as int,
                    Cell { c, fg: w.fg, bg: w.bg },
                ),
            ),
            cursor_col: w.cursor_col + 1,
            ..w
        }
    }

    pub open spec fn clear_line(self, row: nat) -> GridModel {
        GridModel { lines: self.lines.update(row as int, self.blank_line()), ..self }
    }

    pub open spec fn clear_screen(self) -> GridModel {
        GridModel { lines: repeat_row(self.blank_line(), self.rows), ..self }
    }

    /// The main screen is put aside and a blank screen without scrollback
    /// is shown; nothing changes when the alternate screen already shows.
    pub open spec fn enter_alternate(self) -> GridModel {
        if self.saved is Some {
            self
        } else {
            GridModel {
                saved: Some(
                    SavedModel {
                        lines: self.lines,
                        history: self.history,
                        cursor_col: self.cursor_col,
                        cursor_row: self.cursor_row,
                    },
                ),
                lines: repeat_row(self.blank_line(), self.rows),
                history: Seq::empty(),
                ..self
            }
        }
    }

    /// The saved main screen comes back, cut or padded to the current size,
    /// with its scrollback and its cursor (kept inside the screen).
    pub open spec fn exit_alternate(self) -> GridModel {
        match self.saved {
            None => self,
            Some(s) => GridModel {
                lines: fit_lines(s.lines, self.cols, self.rows, self.blank()),
                history: s.history,
                cursor_col: min_nat(s.cursor_col, self.cols),
                cursor_row: min_nat(s.cursor_row, (self.rows - 1) as nat),
                saved: None,
                ..self
            },
        }
    }

    /// How many lines shrinking the screen to `new_rows` lines pushes off
    /// its top: as many as keep the cursor line on screen.
    pub open spec fn lines_pushed(self, new_rows: nat) -> nat {
        if new_rows < self.rows && self.cursor_row >= new_rows {
            (self.cursor_row + 1 - new_rows) as nat
        } else {
            0
        }
    }

    /// How many scrollback lines growing the screen to `new_rows` lines
    /// brings back above the screen (none on the alternate screen).
    pub open spec fn lines_pulled(self, new_rows: nat) -> nat {
        if new_rows > self.rows && self.saved is None {
            min_nat((new_rows - self.rows) as nat, self.history.len())
        } else {
            0
        }
    }

    /// The screen set to `new_rows` lines.  Shrinking drops lines at the
    /// bottom, and at the top (into the scrollback, on the main screen)
    /// as many as keep the cursor on screen; growing brings back the latest
    /// scrollback lines above and adds blank lines below.
    pub open spec fn resize_rows(self, new_rows: nat) -> GridModel {
        if new_rows < self.rows {
            let k = self.lines_pushed(new_rows);
            GridModel {
                lines: self.lines.skip(k as int).take(new_rows as int),
                history: if self.saved is None {
                    self.history + self.lines.take(k as int)
                } else {
                    self.history
                },
                cursor_row: (self.cursor_row - k) as nat,
                rows: new_rows,
                ..self
            }
        } else if new_rows > self.rows {
            let p = self.lines_pulled(new_rows);
            let h = self.history.len();
            GridModel {
                lines: self.history.skip(h - p) + self.lines + repeat_row(
                    self.blank_line(),
                    (new_rows - self.rows - p) as nat,
                ),
                history: self.history.take(h - p),
                cursor_row: self.cursor_row + p,
                rows: new_rows,
                ..self
            }
        } else {
            self
        }
    }

    /// Every screen line cut or padded to `new_cols` cells; the cursor
    /// column is kept within the new width.
    pub open spec fn resize_cols(self, new_cols: nat) -> GridModel {
        GridModel {
            lines: Seq::new(self.lines.len(), |i: int| fit_row(self.lines[i], new_cols, self.blank())),
            cols: new_cols,
            cursor_col: min_nat(self.cursor_col, new_cols),
            ..self
        }
    }

    pub open spec fn resized(self, new_cols: nat, new_rows: nat) -> GridModel {
        self.resize_rows(new_rows).resize_cols(new_cols)
    }

    /// The selection between two cells, each clamped to the screen, as
    /// (first row, first column, last row, last column) in reading order.
    pub open spec fn selection_bounds(self, c0: nat, r0: nat, c1: nat, r1: nat) -> (nat, nat, nat, nat) {
        let ar = min_nat(r0, (self.rows - 1) as nat);
        let ac = min_nat(c0, (self.cols - 1) as nat);
        let br = min_nat(r1, (self.rows - 1) as nat);
        let bc = min_nat(c1, (self.cols - 1) as nat);
        if reads_before(ar, ac, br, bc) {
            (ar, ac, br, bc)
        } else {
            (br, bc, ar, ac)
        }
    }

    /// The selected part of screen line `r`, trailing spaces trimmed: from
    /// the first column on the first row, up to the last column on the last
    /// row, whole lines in between.
    pub open spec fn selected_line(self, sr: nat, sc: nat, er: nat, ec: nat, r: nat) -> Seq<char> {
        let from = if r == sr { sc } else { 0 };
        let to = if r == er { ec + 1 } else { self.cols };
        trim_end_spaces(text_of(self.lines[r as int].subrange(from as int, to as int)))
    }

    /// The selected lines from `sr` to `r`, joined by newlines.
    pub open spec fn selected_lines(self, sr: nat, sc: nat, er: nat, ec: nat, r: nat) -> Seq<char>
        decreases r,
    {
        if r <= sr {
            self.selected_line(sr, sc, er, ec, sr)
        } else {
            self.selected_lines(sr, sc, er, ec, (r - 1) as nat) + seq!['\n'] + self.selected_line(
                sr,
                sc,
                er,
                ec,
                r,
            )
        }
    }

    /// The text selected between cells (`c0`, `r0`) and (`c1`, `r1`), in
    /// either order.
    pub open spec fn selected_text(self, c0: nat, r0: nat, c1: nat, r1: nat) -> Seq<char> {
        let (sr, sc, er, ec) = self.selection_bounds(c0, r0, c1, r1);
        self.selected_lines(sr, sc, er, ec, er)
    }
}

impl View for Grid {
    type V = GridModel;

    open spec fn view(&self) -> GridModel {
        GridModel {
            cols: self.cols as nat,
            rows: self.rows as nat,
            cursor_col: self.cursor_col as nat,
            cursor_row: self.cursor_row as nat,
            lines: lines_of(self.cells@),
            history: lines_of(self.scrollback@),
            saved: match self.alternate {
                Some(s) => Some(
                    SavedModel {
                        lines: lines_of(s.cells@),
                        history: lines_of(s.scrollback@),
                        cursor_col: s.cursor_col as nat,
                        cursor_row: s.cursor_row as nat,
                    },
                ),
                None => None,
            },
            fg: self.fg,
            bg: self.bg,
        }
    }
}

proof fn lemma_lines_of_push(v: Seq<Vec<Cell>>, row: Vec<Cell>)
    ensures
        lines_of(v.push(row)) == lines_of(v).push(row@),
        lines_of(v).len() == v.len(),
{
    assert(lines_of(v.push(row)) =~= lines_of(v).push(row@));
}

proof fn lemma_trim_run(row: Seq<Cell>, from: int, end: int, to: int)
    requires
        0 <= from <= end <= to <= row.len(),
        forall|k: int| end <= k < to ==> (#[trigger] row[k]).c == ' ',
        end == from || row[end - 1].c != ' ',
    ensures
        trim_end_spaces(text_of(row.subrange(from, to))) == text_of(row.subrange(from, end)),
    decreases to - end,
{
    let t = text_of(row.subrange(from, to));
    if to > end {
        assert(t.last() == row[to - 1].c);
        assert(t.drop_last() =~= text_of(row.subrange(from, to - 1)));
        lemma_trim_run(row, from, end, to - 1);
    } else {
        if end > from {
            assert(t.last() == row[end - 1].c);
        }
    }
}

/// On the main screen, scrolling up by `n` lines adds exactly `n` lines to
/// the scrollback.
pub proof fn lemma_scrolled_up_history(m: GridModel, n: nat)
    requires
        m.saved is None,
    ensures
        m.scrolled_up(n).history.len() == m.history.len() + n,
        m.scrolled_up(n).saved is None,
    decreases n,
{
    if n > 0 {
        lemma_scrolled_up_history(m, (n - 1) as nat);
    }
}

proof fn lemma_scroll_up_one_wf(m: GridModel)
    requires
        m.wf(),
    ensures
        m.scroll_up_one().wf(),
{
    let r = m.scroll_up_one();
    assert forall|i: int| 0 <= i < r.lines.len() implies (#[trigger] r.lines[i]).len() == r.cols by {
        if i < r.lines.len() - 1 {
            assert(r.lines[i] == m.lines[i + 1]);
        }
    }
}

proof fn lemma_scroll_down_one_wf(m: GridModel)
    requires
        m.wf(),
    ensures
        m.scroll_down_one().wf(),
{
    let r = m.scroll_down_one();
    assert forall|i: int| 0 <= i < r.lines.len() implies (#[trigger] r.lines[i]).len() == r.cols by {
        if i > 0 {
            assert(r.lines[i] == m.lines[i - 1]);
        }
    }
}


proof fn lemma_scrolled_up_frame(m: GridModel, n: nat)
    ensures
        m.scrolled_up(n).cols == m.cols,
        m.scrolled_up(n).rows == m.rows,
        m.scrolled_up(n).cursor_col == m.cursor_col,
        m.scrolled_up(n).cursor_row == m.cursor_row,
        m.scrolled_up(n).saved == m.saved,
        m.scrolled_up(n).fg == m.fg,
        m.scrolled_up(n).bg == m.bg,
    decreases n,
{
    if n > 0 {
        lemma_scrolled_up_frame(m, (n - 1) as nat);
    }
}

/// Scrolling the main screen up by `n` lines (at most a screenful) moves its
/// top `n` lines, in order, to the end of the scrollback and shifts the rest
/// up, with blank lines below.
pub proof fn lemma_scroll_up_moves_lines(m: GridModel, n: nat)
    requires
        m.wf(),
        m.saved is None,
        n <= m.rows,
    ensures
        m.scrolled_up(n).history == m.history + m.lines.take(n as int),
        m.scrolled_up(n).lines == m.lines.skip(n as int) + repeat_row(m.blank_line(), n),
        m.scrolled_up(n).cursor_col == m.cursor_col,
        m.scrolled_up(n).cursor_row == m.cursor_row,
    decreases n,
{
    if n > 0 {
        lemma_scroll_up_moves_lines(m, (n - 1) as nat);
        lemma_scrolled_up_frame(m, (n - 1) as nat);
        let p = m.scrolled_up((n - 1) as nat);
        assert(p.lines[0] == m.lines[n - 1]);
        assert(m.lines.take(n as int) =~= m.lines.take(n - 1).push(m.lines[n - 1]));
        assert(p.history.push(p.lines[0]) =~= m.history + m.lines.take(n as int));
        assert(p.lines.drop_first().push(p.blank_line()) =~= m.lines.skip(n as int) + repeat_row(
            m.blank_line(),
            n,
        ));
    } else {
        assert(m.lines.take(0) =~= Seq::<Seq<Cell>>::empty());
        assert(m.lines.skip(0) =~= m.lines);
        assert(m.history + Seq::<Seq<Cell>>::empty() =~= m.history);
        assert(m.lines + repeat_row(m.blank_line(), 0) =~= m.lines);
    }
}

/// Writing a character and reading the cell back: the cell where the
/// (wrapped) cursor stood holds the character in the default colours, and
/// the cursor moved one column right.
pub proof fn lemma_write_then_read(m: GridModel, c: char)
    requires
        m.wf(),
    ensures
        m.write_char(c).lines[m.wrapped().cursor_row as int][m.wrapped().cursor_col as int] == (Cell {
            c,
            fg: m.fg,
            bg: m.bg,
        }),
        m.write_char(c).cursor_row == m.wrapped().cursor_row,
        m.write_char(c).cursor_col == m.wrapped().cursor_col + 1,
{
    lemma_scroll_up_one_wf(m);
}

/// Switching to the alternate screen, doing anything there that keeps the
/// size (writing, scrolling, clearing), and switching back restores the
/// main screen, its scrollback and its cursor exactly.
pub proof fn lemma_alternate_round_trip(m: GridModel, alt: GridModel)
    requires
        m.wf(),
        m.saved is None,
        alt.wf(),
        alt.saved == m.enter_alternate().saved,
        alt.cols == m.cols,
        alt.rows == m.rows,
        alt.fg == m.fg,
        alt.bg == m.bg,
    ensures
        m.enter_alternate().wf(),
        alt.exit_alternate().lines == m.lines,
        alt.exit_alternate().history == m.history,
        alt.exit_alternate().cursor_col == m.cursor_col,
        alt.exit_alternate().cursor_row == m.cursor_row,
        alt.exit_alternate().saved is None,
{
    let e = m.enter_alternate();
    assert forall|i: int| 0 <= i < e.lines.len() implies (#[trigger] e.lines[i]).len() == e.cols by {
        assert(e.lines[i] == m.blank_line());
    }
    let back = alt.exit_alternate();
    assert forall|i: int| 0 <= i < m.rows implies #[trigger] back.lines[i] == m.lines[i] by {
        assert(m.lines[i].len() == m.cols);
        assert(fit_row(m.lines[i], m.cols, m.blank()) =~= m.lines[i]);
    }
    assert(back.lines =~= m.lines);
}

/// What happens on the alternate screen leaves the saved main screen as it
/// was.
pub proof fn lemma_alternate_keeps_saved(m: GridModel, c: char, n: nat, row: nat)
    ensures
        m.write_char(c).saved == m.saved,
        m.scrolled_up(n).saved == m.saved,
        m.scrolled_down(n).saved == m.saved,
        m.clear_line(row).saved == m.saved,
        m.clear_screen().saved == m.saved,
    decreases n,
{
    if n > 0 {
        lemma_alternate_keeps_saved(m, c, (n - 1) as nat, row);
    }
}

/// Entering the alternate screen twice is the same as entering it once,
/// and leaving it when on the main screen changes nothing.
pub proof fn lemma_alternate_idempotent(m: GridModel)
    ensures
        m.enter_alternate().enter_alternate() == m.enter_alternate(),
        m.saved is None ==> m.exit_alternate() == m,
{
}

/// The alternate screen has no scrollback: lines scrolled off it are gone.
pub proof fn lemma_alternate_has_no_scrollback(m: GridModel, n: nat)
    requires
        m.wf(),
        m.saved is Some,
    ensures
        m.scrolled_up(n).history.len() == 0,
    decreases n,
{
    if n > 0 {
        lemma_alternate_has_no_scrollback(m, (n - 1) as nat);
        lemma_alternate_keeps_saved(m, ' ', (n - 1) as nat, 0);
    }
}

/// A resize changes the scrollback by the lines it pushes off the top less
/// the lines it brings back.
pub proof fn lemma_resize_scrollback_change(m: GridModel, cols: nat, rows: nat)
    requires
        m.wf(),
        rows > 0,
    ensures
        m.resized(cols, rows).history.len() == m.history.len() + (if m.saved is None {
            m.lines_pushed(rows)
        } else {
            0
        }) - m.lines_pulled(rows),
{
}

/// Growing a screen whose scrollback is empty keeps every cell where it
/// was; the new cells are blank.
pub proof fn lemma_grow_keeps_content(m: GridModel, cols: nat, rows: nat, i: int, j: int)
    requires
        m.wf(),
        m.history.len() == 0,
        cols >= m.cols,
        rows >= m.rows,
        0 <= i < m.rows,
        0 <= j < m.cols,
    ensures
        m.resized(cols, rows).lines[i][j] == m.lines[i][j],
        m.resized(cols, rows).cursor_col == m.cursor_col,
        m.resized(cols, rows).cursor_row == m.cursor_row,
{
    let r = m.resize_rows(rows);
    if rows > m.rows {
        assert(m.lines_pulled(rows) == 0);
        assert(m.history.skip(0).len() == 0);
        assert(r.lines[i] == m.lines[i]);
    }
}

proof fn lemma_scrolled_down_frame(m: GridModel, n: nat)
    requires
        m.wf(),
    ensures
        m.scrolled_down(n).wf(),
        m.scrolled_down(n).cols == m.cols,
        m.scrolled_down(n).rows == m.rows,
        m.scrolled_down(n).fg == m.fg,
        m.scrolled_down(n).bg == m.bg,
    decreases n,
{
    if n > 0 {
        lemma_scrolled_down_frame(m, (n - 1) as nat);
        lemma_scroll_down_one_wf(m.scrolled_down((n - 1) as nat));
    }
}

/// Scrolling down by `n` lines (at most a screenful) shifts the screen
/// down: `n` blank lines enter at the top and the bottom `n` lines are
/// dropped.
pub proof fn lemma_scroll_down_moves_lines(m: GridModel, n: nat)
    requires
        m.wf(),
        n <= m.rows,
    ensures
        m.scrolled_down(n).lines == repeat_row(m.blank_line(), n) + m.lines.take(m.rows - n),
    decreases n,
{
    if n == 0 {
        assert(m.lines.take(m.rows as int) =~= m.lines);
        assert(repeat_row(m.blank_line(), 0) + m.lines =~= m.lines);
    } else {
        lemma_scroll_down_moves_lines(m, (n - 1) as nat);
        lemma_scrolled_down_frame(m, (n - 1) as nat);
        let p = m.scrolled_down((n - 1) as nat);
        assert(p.blank_line() == m.blank_line());
        assert((repeat_row(m.blank_line(), (n - 1) as nat) + m.lines.take(m.rows - (n - 1))).drop_last()
            =~= repeat_row(m.blank_line(), (n - 1) as nat) + m.lines.take(m.rows - n));
        assert(seq![m.blank_line()] + (repeat_row(m.blank_line(), (n - 1) as nat) + m.lines.take(
            m.rows - n,
        )) =~= repeat_row(m.blank_line(), n) + m.lines.take(m.rows - n));
    }
}

/// Growing the main screen brings back the latest scrollback lines in
/// their order: read from the top of the scrollback to the bottom of the
/// old screen's lines, the text is unchanged, and new line `i` above the
/// old screen is the `i`-th of the lines pulled back.
pub proof fn lemma_grow_pulls_history_in_order(m: GridModel, rows: nat)
    requires
        m.wf(),
        rows > m.rows,
    ensures
        ({
            let p = m.lines_pulled(rows);
            let h = m.history.len();
            let g = m.resize_rows(rows);
            &&& g.history + g.lines.take((m.rows + p) as int) == m.history + m.lines
            &&& g.history.len() == h - p
            &&& forall|i: int| 0 <= i < p ==> #[trigger] g.lines[i] == m.history[h - p + i]
        }),
{
    let p = m.lines_pulled(rows);
    let h = m.history.len();
    let g = m.resize_rows(rows);
    assert(p <= h);
    assert(g.lines.take((m.rows + p) as int) =~= m.history.skip(h - p) + m.lines);
    assert(m.history.take(h - p) + (m.history.skip(h - p) + m.lines) =~= m.history + m.lines);
}

/// Trimming trailing spaces keeps a prefix of the text: only spaces are
/// dropped, all of them at the end, and the result does not end in one.
pub proof fn lemma_trim_end_spaces_prefix(s: Seq<char>)
    ensures
        ({
            let t = trim_end_spaces(s);
            &&& t.len() <= s.len()
            &&& t == s.take(t.len() as int)
            &&& forall|k: int| t.len() <= k < s.len() ==> #[trigger] s[k] == ' '
            &&& (t.len() == 0 || t.last() != ' ')
        }),
    decreases s.len(),
{
    if s.len() > 0 && s.last() == ' ' {
        lemma_trim_end_spaces_prefix(s.drop_last());
        let t = trim_end_spaces(s);
        assert(t == trim_end_spaces(s.drop_last()));
        assert(s.drop_last().take(t.len() as int) =~= s.take(t.len() as int));
        assert forall|k: int| t.len() <= k < s.len() implies #[trigger] s[k] == ' ' by {
            if k < s.len() - 1 {
                assert(s.drop_last()[k] == s[k]);
            }
        }
    } else {
        assert(s.take(s.len() as int) =~= s);
    }
}

/// A selected line is the selected cells' characters as they are, from
/// the selection's first column on its first row (the start of the line
/// otherwise) to its last column on its last row (the end otherwise),
/// with only its trailing spaces left out.
pub proof fn lemma_selected_line_keeps_text(m: GridModel, sr: nat, sc: nat, er: nat, ec: nat, r: nat)
    ensures
        ({
            let from = if r == sr { sc } else { 0 };
            let to = if r == er { ec + 1 } else { m.cols };
            let cells = text_of(m.lines[r as int].subrange(from as int, to as int));
            let line = m.selected_line(sr, sc, er, ec, r);
            &&& line.len() <= cells.len()
            &&& line == cells.take(line.len() as int)
            &&& forall|k: int| line.len() <= k < cells.len() ==> #[trigger] cells[k] == ' '
            &&& (line.len() == 0 || line.last() != ' ')
        }),
{
    let from = if r == sr { sc } else { 0 };
    let to = if r == er { ec + 1 } else { m.cols };
    lemma_trim_end_spaces_prefix(text_of(m.lines[r as int].subrange(from as int, to as int)));
}

/// Selecting from one cell to another gives the same text as selecting
/// from the second to the first.
pub proof fn lemma_selection_symmetric(m: GridModel, c0: nat, r0: nat, c1: nat, r1: nat)
    ensures
        m.selected_text(c0, r0, c1, r1) == m.selected_text(c1, r1, c0, r0),
{
}

impl Grid {
    /// Everything but the screen, the scrollback, the cursor and the
    /// dimensions is as in `other`.
    pub open spec fn same_settings(&self, other: &Grid) -> bool {
        &&& self.fg == other.fg
        &&& self.bg == other.bg
        &&& self.cursor_color == other.cursor_color
        &&& self.selection_color == other.selection_color
        &&& self.palette == other.palette
        &&& self.pending_responses@ == other.pending_responses@
        &&& self.pending_clipboard_write == other.pending_clipboard_write
        &&& self.pending_clipboard_read == other.pending_clipboard_read
        &&& self.bell_pending == other.bell_pending
    }

    pub open spec fn wf(&self) -> bool {
        self@.wf()
    }

    fn blank_cell(&self) -> (c: Cell)
        ensures
            c == self@.blank(),
    {
        Cell { c: ' ', fg: self.fg, bg: self.bg }
    }

    fn blank_row(&self, n: usize) -> (row: Vec<Cell>)
        ensures
            row@ == repeat_cell(self@.blank(), n as nat),
    {
        let blank = self.blank_cell();
        let mut row: Vec<Cell> = Vec::new();
        let mut j: usize = 0;
        while j < n
            invariant
                j <= n,
                blank == self@.blank(),
                row@ == repeat_cell(blank, j as nat),
            decreases n - j,
        {
            row.push(blank);
            j = j + 1;
            assert(row@ =~= repeat_cell(blank, j as nat));
        }
        row
    }

    /// A `cols` × `rows` grid of blank cells with the cursor at the top
    /// left, in the given colours.
    pub fn with_colors(
        cols: usize,
        rows: usize,
        fg: Color,
        bg: Color,
        cursor: Color,
        selection: Color,
        palette: [Color; 16],
    ) -> (g: Grid)
        requires
            cols > 0,
            0 < rows <= isize::MAX,
        ensures
            g.wf(),
            g@.cols == cols,
            g@.rows == rows,
            g@.cursor_col == 0,
            g@.cursor_row == 0,
            g@.lines == repeat_row(g@.blank_line(), rows as nat),
            g@.history.len() == 0,
            g@.saved is None,
            g.fg == fg,
            g.bg == bg,
            g.cursor_color == cursor,
            g.selection_color == selection,
            g.palette == palette,
            g.pending_responses@.len() == 0,
            g.pending_clipboard_write is None,
            !g.pending_clipboard_read,
            !g.bell_pending,
    {
        let mut g = Grid {
            cols,
            rows,
            cursor_col: 0,
            cursor_row: 0,
            cells: Vec::new(),
            scrollback: Vec::new(),
            fg,
            bg,
            cursor_color: cursor,
            selection_color: selection,
            palette,
            alternate: None,
            pending_responses: Vec::new(),
            pending_clipboard_write: None,
            pending_clipboard_read: false,
            bell_pending: false,
        };
        let mut i: usize = 0;
        while i < rows
            invariant
                i <= rows,
                g.cols == cols,
                g.rows == rows,
                g.cursor_col == 0,
                g.cursor_row == 0,
                g.fg == fg,
                g.bg == bg,
                g.cursor_color == cursor,
                g.selection_color == selection,
                g.palette == palette,
                g.scrollback@.len() == 0,
                g.alternate is None,
                g.pending_responses@.len() == 0,
                g.pending_clipboard_write is None,
                !g.pending_clipboard_read,
                !g.bell_pending,
                g.cells@.len() == i,
                lines_of(g.cells@) == repeat_row(g@.blank_line(), i as nat),
            decreases rows - i,
        {
            let row = g.blank_row(cols);
            let ghost prev = g.cells@;
            g.cells.push(row);
            assert(g.cells@[i as int]@ == g@.blank_line());
            assert forall|k: int| 0 <= k < prev.len() implies g.cells@[k]@ == g@.blank_line() by {
                assert(g.cells@[k] == prev[k]);
                assert(lines_of(prev)[k] == prev[k]@);
                assert(repeat_row(g@.blank_line(), k as nat + 1)[k] == g@.blank_line());
            }
            i = i + 1;
            assert(lines_of(g.cells@) =~= repeat_row(g@.blank_line(), i as nat));
        }
        assert(lines_of(g.scrollback@) =~= Seq::<Seq<Cell>>::empty());
        g
    }

    /// The cell at column `col` of screen line `row`.
    pub fn cell(&self, col: usize, row: usize) -> (c: &Cell)
        requires
            self.wf(),
            row < self@.rows,
            col < self@.cols,
        ensures
            *c == self@.lines[row as int][col as int],
    {
        assert(self@.lines[row as int] == self.cells@[row as int]@);
        &self.cells[row][col]
    }

    /// The number of lines in the scrollback.
    pub fn scrollback_len(&self) -> (n: usize)
        ensures
            n == self@.history.len(),
    {
        self.scrollback.len()
    }

    fn scroll_up_one(&mut self)
        requires
            old(self).wf(),
        ensures
            final(self)@ == old(self)@.scroll_up_one(),
            final(self).wf(),
            final(self).same_settings(&*old(self)),
    {
        proof {
            lemma_scroll_up_one_wf(self@);
        }
        let ghost m = self@;
        let top = self.cells.remove(0);
        if self.alternate.is_none() {
            self.scrollback.push(top);
        }
        let blank = self.blank_row(self.cols);
        self.cells.push(blank);
        assert(lines_of(self.cells@) =~= m.scroll_up_one().lines);
        assert(lines_of(self.scrollback@) =~= m.scroll_up_one().history);
    }

    /// Scrolls the screen up by `n` lines: the top lines go to the
    /// scrollback (on the main screen) and blank lines enter at the bottom.
    pub fn scroll_up(&mut self, n: usize)
        requires
            old(self).wf(),
        ensures
            final(self)@ == old(self)@.scrolled_up(n as nat),
            final(self).wf(),
            final(self).same_settings(&*old(self)),
    {
        let mut i: usize = 0;
        while i < n
            invariant
                i <= n,
                self@ == old(self)@.scrolled_up(i as nat),
                self.wf(),
                self.same_settings(&*old(self)),
            decreases n - i,
        {
            self.scroll_up_one();
            i = i + 1;
        }
    }

    fn scroll_down_one(&mut self)
        requires
            old(self).wf(),
        ensures
            final(self)@ == old(self)@.scroll_down_one(),
            final(self).wf(),
            final(self).same_settings(&*old(self)),
    {
        proof {
            lemma_scroll_down_one_wf(self@);
        }
        let ghost m = self@;
        let _ = self.cells.pop();
        let blank = self.blank_row(self.cols);
        self.cells.insert(0, blank);
        assert(lines_of(self.cells@) =~= m.scroll_down_one().lines);
    }

    /// Scrolls the screen down by `n` lines: blank lines enter at the top
    /// and the bottom lines are dropped.
    pub fn scroll_down(&mut self, n: usize)
        requires
            old(self).wf(),
        ensures
            final(self)@ == old(self)@.scrolled_down(n as nat),
            final(self).wf(),
            final(self).same_settings(&*old(self)),
    {
        let mut i: usize = 0;
        while i < n
            invariant
                i <= n,
                self@ == old(self)@.scrolled_down(i as nat),
                self.wf(),
                self.same_settings(&*old(self)),
            decreases n - i,
        {
            self.scroll_down_one();
            i = i + 1;
        }
    }

    /// Writes `c` at the cursor in the default colours and advances the
    /// cursor; a cursor past the last column first wraps to the next line.
    pub fn write_char(&mut self, c: char)
        requires
            old(self).wf(),
        ensures
            final(self)@ == old(self)@.write_char(c),
            final(self).wf(),
            final(self).same_settings(&*old(self)),
    {
        let ghost m = self@;
        if self.cursor_col >= self.cols {
            if self.cursor_row + 1 >= self.rows {
                self.scroll_up_one();
                self.cursor_col = 0;
            } else {
                self.cursor_col = 0;
                self.cursor_row = self.cursor_row + 1;
            }
        }
        let ghost w = self@;
        assert(w == m.wrapped());
        assert(w.lines[w.cursor_row as int].len() == w.cols);
        let cell = Cell { c, fg: self.fg, bg: self.bg };
        let row = self.cursor_row;
        let col = self.cursor_col;
        self.cells[row][col] = cell;
        self.cursor_col = col + 1;
        assert(lines_of(self.cells@) =~= m.write_char(c).lines);
        assert forall|i: int| 0 <= i < self@.lines.len() implies (#[trigger] self@.lines[i]).len()
            == self@.cols by {
            if i != row {
                assert(self@.lines[i] == w.lines[i]);
            }
        }
    }

    /// Blanks screen line `row`.
    pub fn clear_line(&mut self, row: usize)
        requires
            old(self).wf(),
            row < old(self)@.rows,
        ensures
            final(self)@ == old(self)@.clear_line(row as nat),
            final(self).wf(),
            final(self).same_settings(&*old(self)),
    {
        let ghost m = self@;
        let blank = self.blank_row(self.cols);
        self.cells.set(row, blank);
        assert(lines_of(self.cells@) =~= m.clear_line(row as nat).lines);
        assert forall|i: int| 0 <= i < self@.lines.len() implies (#[trigger] self@.lines[i]).len()
            == self@.cols by {
            if i != row {
                assert(self@.lines[i] == m.lines[i]);
            }
        }
    }

    /// Blanks every cell of the screen; the cursor stays where it is.
    pub fn clear_screen(&mut self)
        requires
            old(self).wf(),
        ensures
            final(self)@ == old(self)@.clear_screen(),
            final(self).wf(),
            final(self).same_settings(&*old(self)),
    {
        let ghost m = self@;
        let mut i: usize = 0;
        while i < self.rows
            invariant
                self.wf(),
                i <= self.rows,
                self.same_settings(&*old(self)),
                self@.cols == m.cols,
                self@.rows == m.rows,
                self@.cursor_col == m.cursor_col,
                self@.cursor_row == m.cursor_row,
                self@.history == m.history,
                self@.saved == m.saved,
                self@.fg == m.fg,
                self@.bg == m.bg,
                forall|k: int| 0 <= k < i ==> self@.lines[k] == m.blank_line(),
            decreases self.rows - i,
        {
            let ghost before = self@;
            let blank = self.blank_row(self.cols);
            self.cells.set(i, blank);
            assert(lines_of(self.cells@) =~= before.lines.update(i as int, m.blank_line()));
            assert forall|k: int| 0 <= k < self@.lines.len() implies (#[trigger] self@.lines[k]).len()
                == self@.cols by {
                if k != i {
                    assert(self@.lines[k] == before.lines[k]);
                }
            }
            i = i + 1;
        }
        assert(self@.lines =~= m.clear_screen().lines);
    }
    fn fit_row(&self, row: &Vec<Cell>, cols: usize) -> (out: Vec<Cell>)
        ensures
            out@ == fit_row(row@, cols as nat, self@.blank()),
    {
        let blank = self.blank_cell();
        let mut out: Vec<Cell> = Vec::new();
        let mut j: usize = 0;
        while j < cols
            invariant
                j <= cols,
                blank == self@.blank(),
                out@ == fit_row(row@, j as nat, blank),
            decreases cols - j,
        {
            if j < row.len() {
                out.push(row[j]);
            } else {
                out.push(blank);
            }
            j = j + 1;
            assert(out@ =~= fit_row(row@, j as nat, blank));
        }
        out
    }

    /// Switches to the alternate screen: the main screen, its scrollback
    /// and the cursor are put aside and a blank screen shows.  Does nothing
    /// when the alternate screen already shows.
    pub fn enter_alternate_screen(&mut self)
        requires
            old(self).wf(),
        ensures
            final(self)@ == old(self)@.enter_alternate(),
            final(self).wf(),
            final(self).same_settings(&*old(self)),
    {
        if self.alternate.is_some() {
            return;
        }
        let ghost m = self@;
        let mut fresh: Vec<Vec<Cell>> = Vec::new();
        let mut i: usize = 0;
        while i < self.rows
            invariant
                i <= self.rows,
                self@ == m,
                fresh@.len() == i,
                lines_of(fresh@) == repeat_row(m.blank_line(), i as nat),
            decreases self.rows - i,
        {
            let row = self.blank_row(self.cols);
            let ghost prev = fresh@;
            fresh.push(row);
            assert forall|k: int| 0 <= k < prev.len() implies fresh@[k]@ == m.blank_line() by {
                assert(fresh@[k] == prev[k]);
                assert(lines_of(prev)[k] == prev[k]@);
                assert(repeat_row(m.blank_line(), k as nat + 1)[k] == m.blank_line());
            }
            i = i + 1;
            assert(lines_of(fresh@) =~= repeat_row(m.blank_line(), i as nat));
        }
        let mut main_cells = fresh;
        std::mem::swap(&mut main_cells, &mut self.cells);
        let mut main_scrollback: Vec<Vec<Cell>> = Vec::new();
        std::mem::swap(&mut main_scrollback, &mut self.scrollback);
        self.alternate = Some(
            SavedScreen {
                cells: main_cells,
                scrollback: main_scrollback,
                cursor_col: self.cursor_col,
                cursor_row: self.cursor_row,
            },
        );
        assert(lines_of(self.scrollback@) =~= Seq::<Seq<Cell>>::empty());
    }

    /// Leaves the alternate screen: the saved main screen comes back, fitted
    /// to the current size, with its scrollback and cursor.  Does nothing on
    /// the main screen.
    pub fn exit_alternate_screen(&mut self)
        requires
            old(self).wf(),
        ensures
            final(self)@ == old(self)@.exit_alternate(),
            final(self).wf(),
            final(self).same_settings(&*old(self)),
    {
        let ghost m = self@;
        let saved = self.alternate.take();
        match saved {
            None => {},
            Some(s) => {
                let ghost sm = m.saved.unwrap();
                assert(lines_of(s.cells@) == sm.lines);
                let mut lines: Vec<Vec<Cell>> = Vec::new();
                let mut i: usize = 0;
                while i < self.rows
                    invariant
                        i <= self.rows,
                        self.rows == m.rows,
                        self.cols == m.cols,
                        self.fg == m.fg,
                        self.bg == m.bg,
                        lines_of(s.cells@) == sm.lines,
                        lines@.len() == i,
                        forall|k: int| 0 <= k < i ==> #[trigger] lines@[k]@ == fit_lines(sm.lines, m.cols, m.rows, m.blank())[k],
                    decreases self.rows - i,
                {
                    let row = if i < s.cells.len() {
                        assert(sm.lines[i as int] == s.cells@[i as int]@);
                        self.fit_row(&s.cells[i], self.cols)
                    } else {
                        self.blank_row(self.cols)
                    };
                    lines.push(row);
                    i = i + 1;
                }
                assert(lines_of(lines@) =~= fit_lines(sm.lines, m.cols, m.rows, m.blank()));
                self.cells = lines;
                self.scrollback = s.scrollback;
                self.cursor_col = if s.cursor_col < self.cols { s.cursor_col } else { self.cols };
                self.cursor_row = if s.cursor_row < self.rows - 1 { s.cursor_row } else { self.rows - 1 };
            },
        }
    }

    /// Resizes the screen to `cols` × `rows` (see `GridModel::resized`) and
    /// returns how much the scrollback grew (negative when it shrank).
    pub fn resize(&mut self, cols: usize, rows: usize) -> (delta: isize)
        requires
            old(self).wf(),
            cols > 0,
            0 < rows <= isize::MAX,
        ensures
            final(self)@ == old(self)@.resized(cols as nat, rows as nat),
            final(self).wf(),
            final(self).same_settings(&*old(self)),
            delta == final(self)@.history.len() - old(self)@.history.len(),
    {
        let ghost m = self@;
        let old_sb = self.scrollback.len();
        if rows < self.rows {
            let k: usize = if self.cursor_row >= rows { self.cursor_row + 1 - rows } else { 0 };
            assert(k == m.lines_pushed(rows as nat));
            let mut i: usize = 0;
            while i < k
                invariant
                    i <= k,
                    k <= m.rows,
                    m.wf(),
                    self.rows == m.rows,
                    self.cols == m.cols,
                    self.cursor_row == m.cursor_row,
                    self.cursor_col == m.cursor_col,
                    self.fg == m.fg,
                    self.bg == m.bg,
                    self.same_settings(&*old(self)),
                    (self.alternate is None) == (m.saved is None),
                    self@.saved == m.saved,
                    lines_of(self.cells@) == m.lines.skip(i as int),
                    self.cells@.len() == m.rows - i,
                    lines_of(self.scrollback@) == (if m.saved is None {
                        m.history + m.lines.take(i as int)
                    } else {
                        m.history
                    }),
                decreases k - i,
            {
                let ghost cells_before = self.cells@;
                let ghost sb_before = self.scrollback@;
                let top = self.cells.remove(0);
                assert(top@ == m.lines[i as int]) by {
                    assert(lines_of(cells_before)[0] == m.lines.skip(i as int)[0]);
                }
                if self.alternate.is_none() {
                    self.scrollback.push(top);
                    assert(lines_of(self.scrollback@) =~= lines_of(sb_before).push(top@));
                    assert(m.lines.take(i as int + 1) =~= m.lines.take(i as int).push(m.lines[i as int]));
                }
                assert forall|q: int| 0 <= q < self.cells@.len() implies #[trigger] lines_of(self.cells@)[q]
                    == m.lines.skip(i as int + 1)[q] by {
                    assert(self.cells@[q] == cells_before[q + 1]);
                    assert(lines_of(cells_before)[q + 1] == m.lines.skip(i as int)[q + 1]);
                }
                i = i + 1;
                assert(lines_of(self.cells@) =~= m.lines.skip(i as int));
            }
            self.cells.truncate(rows);
            self.cursor_row = self.cursor_row - k;
            self.rows = rows;
            assert(lines_of(self.cells@) =~= m.lines.skip(k as int).take(rows as int));
        } else if rows > self.rows {
            let grow = rows - self.rows;
            let p: usize = if self.alternate.is_none() {
                if grow < self.scrollback.len() { grow } else { self.scrollback.len() }
            } else {
                0
            };
            assert(p == m.lines_pulled(rows as nat));
            let h = self.scrollback.len();
            let mut i: usize = 0;
            while i < p
                invariant
                    i <= p,
                    p <= h,
                    m.wf(),
                    h == m.history.len(),
                    self.rows == m.rows,
                    self.cols == m.cols,
                    self.cursor_row == m.cursor_row,
                    self.cursor_col == m.cursor_col,
                    self.fg == m.fg,
                    self.bg == m.bg,
                    self.same_settings(&*old(self)),
                    self@.saved == m.saved,
                    (self.alternate is None) == (m.saved is None),
                    lines_of(self.cells@) == m.history.skip(h - i) + m.lines,
                    lines_of(self.scrollback@) == m.history.take(h - i),
                    self.scrollback@.len() == h - i,
                    self.cells@.len() == m.rows + i,
                decreases p - i,
            {
                let ghost cells_before = self.cells@;
                let ghost sb_before = self.scrollback@;
                let line = self.scrollback.pop().unwrap();
                assert(line@ == m.history[h - i - 1]) by {
                    assert(lines_of(sb_before)[h - i - 1] == m.history.take(h - i)[h - i - 1]);
                }
                self.cells.insert(0, line);
                assert forall|q: int| 1 <= q < self.cells@.len() implies #[trigger] lines_of(self.cells@)[q]
                    == lines_of(cells_before)[q - 1] by {
                    assert(self.cells@[q] == cells_before[q - 1]);
                }
                assert(lines_of(self.cells@)[0] == line@);
                i = i + 1;
                assert(lines_of(self.scrollback@) =~= m.history.take(h - i));
                let ghost prev_target = m.history.skip(h - (i - 1)) + m.lines;
                let ghost target = m.history.skip(h - i) + m.lines;
                assert forall|q: int| 1 <= q < target.len() implies #[trigger] target[q] == prev_target[q - 1] by {
                    if q < i {
                        assert(target[q] == m.history[h - i + q]);
                        assert(prev_target[q - 1] == m.history[h - (i - 1) + q - 1]);
                    } else {
                        assert(target[q] == m.lines[q - i]);
                        assert(prev_target[q - 1] == m.lines[q - 1 - (i - 1)]);
                    }
                }
                assert(target[0] == m.history[h - i]);
                assert(lines_of(self.cells@) =~= m.history.skip(h - i) + m.lines);
            }
            let mut j: usize = 0;
            while j < grow - p
                invariant
                    j <= grow - p,
                    m.wf(),
                    p <= h,
                    h == m.history.len(),
                    self.rows == m.rows,
                    self.cols == m.cols,
                    self.cursor_row == m.cursor_row,
                    self.cursor_col == m.cursor_col,
                    self.fg == m.fg,
                    self.bg == m.bg,
                    self.same_settings(&*old(self)),
                    self@.saved == m.saved,
                    lines_of(self.cells@) == m.history.skip(h - p) + m.lines + repeat_row(m.blank_line(), j as nat),
                    lines_of(self.scrollback@) == m.history.take(h - p),
                decreases grow - p - j,
            {
                let row = self.blank_row(self.cols);
                proof {
                    lemma_lines_of_push(self.cells@, row);
                }
                self.cells.push(row);
                j = j + 1;
                assert(lines_of(self.cells@) =~= m.history.skip(h - p) + m.lines + repeat_row(m.blank_line(), j as nat));
            }
            self.cursor_row = self.cursor_row + p;
            self.rows = rows;
        }
        let ghost mr = m.resize_rows(rows as nat);
        assert(self@ == mr);
        let mut i: usize = 0;
        while i < rows
            invariant
                i <= rows,
                self.rows == rows,
                self.cols == m.cols,
                self@.lines.len() == rows,
                self.same_settings(&*old(self)),
                forall|k: int| i <= k < rows ==> #[trigger] self@.lines[k] == mr.lines[k],
                forall|k: int| 0 <= k < i ==> #[trigger] self@.lines[k] == fit_row(mr.lines[k], cols as nat, mr.blank()),
                self@.history == mr.history,
                self@.saved == mr.saved,
                self.cursor_row == mr.cursor_row,
                self.cursor_col == mr.cursor_col,
                self.fg == mr.fg,
                self.bg == mr.bg,
            decreases rows - i,
        {
            let ghost before = self@;
            let ghost before_cells = self.cells@;
            assert(before.lines[i as int] == self.cells@[i as int]@);
            let row = self.fit_row(&self.cells[i], cols);
            self.cells.set(i, row);
            assert(self.cells@[i as int]@ == row@);
            assert(self@.lines[i as int] == fit_row(mr.lines[i as int], cols as nat, mr.blank()));
            assert forall|k: int| 0 <= k < rows && k != i implies #[trigger] self@.lines[k] == before.lines[k] by {
                assert(self.cells@[k] == before_cells[k]);
            }
            i = i + 1;
        }
        self.cols = cols;
        if self.cursor_col > cols {
            self.cursor_col = cols;
        }
        assert(self@.lines =~= m.resized(cols as nat, rows as nat).lines);
        assert forall|k: int| 0 <= k < self@.lines.len() implies (#[trigger] self@.lines[k]).len() == self@.cols by {
            assert(self@.lines[k] == fit_row(mr.lines[k], cols as nat, mr.blank()));
        }
        let new_sb = self.scrollback.len();
        if new_sb >= old_sb {
            (new_sb - old_sb) as isize
        } else {
            0 - ((old_sb - new_sb) as isize)
        }
    }
    /// The text between cells (`c0`, `r0`) and (`c1`, `r1`) of the screen,
    /// in reading order whichever end comes first, each line without its
    /// trailing spaces and lines joined by newlines; positions beyond the
    /// screen count as its last row or column.
    pub fn selected_text(&self, c0: usize, r0: usize, c1: usize, r1: usize) -> (text: String)
        requires
            self.wf(),
        ensures
            text@ == self@.selected_text(c0 as nat, r0 as nat, c1 as nat, r1 as nat),
    {
        let ar = if r0 < self.rows - 1 { r0 } else { self.rows - 1 };
        let ac = if c0 < self.cols - 1 { c0 } else { self.cols - 1 };
        let br = if r1 < self.rows - 1 { r1 } else { self.rows - 1 };
        let bc = if c1 < self.cols - 1 { c1 } else { self.cols - 1 };
        let (sr, sc, er, ec) = if ar < br || (ar == br && ac <= bc) {
            (ar, ac, br, bc)
        } else {
            (br, bc, ar, ac)
        };
        assert((sr as nat, sc as nat, er as nat, ec as nat) == self@.selection_bounds(
            c0 as nat,
            r0 as nat,
            c1 as nat,
            r1 as nat,
        ));
        let mut out = String::new();
        let mut r = sr;
        while r <= er
            invariant
                self.wf(),
                sr <= r <= er + 1,
                er < self.rows,
                sc < self.cols,
                ec < self.cols,
                sr == er ==> sc <= ec,
                r == sr ==> out@ == Seq::<char>::empty(),
                r > sr ==> out@ == self@.selected_lines(
                    sr as nat,
                    sc as nat,
                    er as nat,
                    ec as nat,
                    (r - 1) as nat,
                ),
            decreases er + 1 - r,
        {
            if r > sr {
                push_char(&mut out, '\n');
            }
            let from = if r == sr { sc } else { 0 };
            let to = if r == er { ec + 1 } else { self.cols };
            let ghost row = self@.lines[r as int];
            assert(row == self.cells@[r as int]@);
            assert(row.len() == self.cols);
            assert(self.cells@.len() == self.rows);
            let mut end = to;
            while end > from && self.cells[r][end - 1].c == ' '
                invariant
                    from <= end <= to <= self.cols,
                    r < self.rows,
                    self.cells@.len() == self.rows,
                    row == self.cells@[r as int]@,
                    row.len() == self.cols,
                    forall|k: int| end <= k < to ==> (#[trigger] row[k]).c == ' ',
                decreases end,
            {
                end = end - 1;
            }
            proof {
                lemma_trim_run(row, from as int, end as int, to as int);
            }
            let ghost start = out@;
            let mut j = from;
            while j < end
                invariant
                    from <= j <= end <= self.cols,
                    r < self.rows,
                    self.cells@.len() == self.rows,
                    row == self.cells@[r as int]@,
                    row.len() == self.cols,
                    out@ == start + text_of(row.subrange(from as int, j as int)),
                decreases end - j,
            {
                push_char(&mut out, self.cells[r][j].c);
                j = j + 1;
                assert(text_of(row.subrange(from as int, j as int)) =~= text_of(
                    row.subrange(from as int, (j - 1) as int),
                ).push(row[j - 1].c));
            }
            assert(out@ =~= start + self@.selected_line(sr as nat, sc as nat, er as nat, ec as nat, r as nat));
            r = r + 1;
        }
        out
    }
}

} // verus!
