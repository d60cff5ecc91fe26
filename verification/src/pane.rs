use vstd::prelude::*;

use crate::grid::Grid;

verus! {

/// `a + b`, capped at `cap`.
pub open spec fn capped_sum(a: nat, b: nat, cap: nat) -> nat {
    if a + b <= cap {
        a + b
    } else {
        cap
    }
}

/// The scroll offset after a resize that changed the scrollback by
/// `delta` lines: moved by `delta`, at least 0, at most `sb_len`; an
/// offset of 0 (following the output) stays 0.
pub open spec fn offset_after_resize(offset: nat, delta: int, sb_len: nat) -> nat {
    if offset == 0 {
        0
    } else if offset + delta <= 0 {
        0
    } else if offset + delta >= sb_len {
        sb_len
    } else {
        (offset + delta) as nat
    }
}

/// `min(a + b, cap)`, computed without overflow.
pub fn add_capped(a: usize, b: usize, cap: usize) -> (r: usize)
    ensures
        r == capped_sum(a as nat, b as nat, cap as nat),
{
    if a >= cap {
        cap
    } else if b >= cap - a {
        cap
    } else {
        a + b
    }
}

/// Scrolling never takes a pane past the start of its scrollback: an offset
/// within the scrollback stays within it after scrolling up, down, to the
/// top or to the bottom, and after a resize.
pub proof fn lemma_offset_stays_in_scrollback(offset: nat, n: nat, delta: int, sb_len: nat)
    ensures
        capped_sum(offset, n, sb_len) <= sb_len,
        offset <= sb_len ==> (if offset >= n { (offset - n) as nat } else { 0 }) <= sb_len,
        offset_after_resize(offset, delta, sb_len) <= sb_len,
{
}

/// Scrolling down undoes scrolling up by the same amount, as long as the
/// scroll up was not cut short at the start of the scrollback.
pub proof fn lemma_scroll_down_undoes_up(offset: nat, n: nat, sb_len: nat)
    requires
        offset + n <= sb_len,
    ensures
        ({
            let up = capped_sum(offset, n, sb_len);
            (if up >= n { (up - n) as nat } else { 0 }) == offset
        }),
{
}

/// A scrolled-back pane moves by the scrollback's change in a resize,
/// whichever its sign, clamped to the scrollback: when the lines it showed
/// are still there, it shows the same lines.
pub proof fn lemma_resize_moves_offset_by_delta(offset: nat, delta: int, sb_len: nat)
    requires
        offset > 0,
    ensures
        offset_after_resize(offset, delta, sb_len) == (if offset + delta <= 0 {
            0
        } else if offset + delta >= sb_len {
            sb_len as int
        } else {
            offset + delta
        }),
        0 < offset + delta < sb_len ==> offset_after_resize(offset, delta, sb_len) - delta == offset,
{
}

/// A pane that follows the live output keeps following it through a
/// resize.
pub proof fn lemma_following_pane_stays_at_bottom(delta: int, sb_len: nat)
    ensures
        offset_after_resize(0, delta, sb_len) == 0,
{
}

/// A terminal pane: its grid, its rectangle on the window
/// (`[x, y, width, height]`) and how many lines it is scrolled back.
pub struct Pane {
    pub grid: Grid,
    pub rect: [u32; 4],
    pub scroll_offset: usize,
}

impl Pane {
    /// A pane showing `grid` in `rect`, following the output.
    pub fn new(grid: Grid, rect: [u32; 4]) -> (p: Pane)
        ensures
            p.grid == grid,
            p.rect == rect,
            p.scroll_offset == 0,
    {
        Pane { grid, rect, scroll_offset: 0 }
    }

    /// Resizes the grid to `cols` × `rows` and moves the pane to `rect`; a
    /// pane scrolled back keeps showing the same lines as far as the new
    /// scrollback allows.
    pub fn resize(&mut self, cols: usize, rows: usize, rect: [u32; 4])
        requires
            old(self).grid.wf(),
            cols > 0,
            0 < rows <= isize::MAX,
        ensures
            final(self).grid@ == old(self).grid@.resized(cols as nat, rows as nat),
            final(self).grid.wf(),
            final(self).grid.same_settings(&old(self).grid),
            final(self).rect == rect,
            final(self).scroll_offset == offset_after_resize(
                old(self).scroll_offset as nat,
                final(self).grid@.history.len() - old(self).grid@.history.len(),
                final(self).grid@.history.len(),
            ),
    {
        let delta = self.grid.resize(cols, rows);
        self.rect = rect;
        if self.scroll_offset > 0 {
            let new_sb = self.grid.scrollback_len();
            let moved: i128 = self.scroll_offset as i128 + delta as i128;
            if moved <= 0 {
                self.scroll_offset = 0;
            } else if moved >= new_sb as i128 {
                self.scroll_offset = new_sb;
            } else {
                self.scroll_offset = moved as usize;
            }
        }
    }

    /// Scrolls `n` lines back into the scrollback, no further than its
    /// start.
    pub fn scroll_up(&mut self, n: usize)
        ensures
            final(self).grid == old(self).grid,
            final(self).rect == old(self).rect,
            final(self).scroll_offset == capped_sum(
                old(self).scroll_offset as nat,
                n as nat,
                old(self).grid@.history.len(),
            ),
    {
        let max = self.grid.scrollback_len();
        self.scroll_offset = add_capped(self.scroll_offset, n, max);
    }

    /// Scrolls `n` lines towards the live output, no further than it.
    pub fn scroll_down(&mut self, n: usize)
        ensures
            final(self).grid == old(self).grid,
            final(self).rect == old(self).rect,
            final(self).scroll_offset == (if old(self).scroll_offset >= n {
                old(self).scroll_offset - n
            } else {
                0
            }),
    {
        self.scroll_offset = if self.scroll_offset >= n { self.scroll_offset - n } else { 0 };
    }

    /// Scrolls to the oldest line of the scrollback.
    pub fn scroll_top(&mut self)
        ensures
            final(self).grid == old(self).grid,
            final(self).rect == old(self).rect,
            final(self).scroll_offset == old(self).grid@.history.len(),
    {
        self.scroll_offset = self.grid.scrollback_len();
    }

    /// Scrolls back to the live output.
    pub fn scroll_bottom(&mut self)
        ensures
            final(self).grid == old(self).grid,
            final(self).rect == old(self).rect,
            final(self).scroll_offset == 0,
    {
        self.scroll_offset = 0;
    }
}

} // verus!
