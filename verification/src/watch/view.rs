//! The interactive view's state and how key presses change it.

use crate::watch::monitor::SortBy;
use vstd::prelude::*;

verus! {

/// A key press, as the interactive view tells them apart.
#[derive(Debug, Clone, Copy, PartialEq, Eq, Structural)]
pub enum Key {
    Char(char),
    Up,
    Down,
    Esc,
    Other,
}

/// The row the cursor is on (none before the first rows arrive) and the order of rows.
#[derive(Debug, Clone, Copy, PartialEq, Eq, Structural)]
pub struct ViewState {
    pub selected: Option<usize>,
    pub sort_by: SortBy,
}

/// The row selected, counting no selection as the first row.
pub open spec fn cursor(s: ViewState) -> nat {
    match s.selected {
        Some(i) => i as nat,
        None => 0,
    }
}

/// The selection one row down, not past the last of `rows` rows.
pub open spec fn below(s: ViewState, rows: nat) -> usize {
    let last: nat = if rows == 0 { 0 } else { (rows - 1) as nat };
    if cursor(s) + 1 <= last { (cursor(s) + 1) as usize } else { last as usize }
}

/// The selection one row up, not before the first row.
pub open spec fn above(s: ViewState) -> usize {
    if cursor(s) == 0 { 0 } else { (cursor(s) - 1) as usize }
}

/// The key moves the selection down (Down or `j`).
pub open spec fn scrolls_down(key: Key) -> bool {
    key == Key::Down || key == Key::Char('j')
}

/// The key ends the view (`q` or Escape).
pub open spec fn quits(key: Key) -> bool {
    key == Key::Char('q') || key == Key::Esc
}

/// The state after `key`, with `rows` rows shown.
pub open spec fn after_key(s: ViewState, key: Key, rows: nat) -> ViewState {
    match key {
        Key::Down => ViewState { selected: Some(below(s, rows)), ..s },
        Key::Up => ViewState { selected: Some(above(s)), ..s },
        Key::Char(c) => if c == 'j' {
            ViewState { selected: Some(below(s, rows)), ..s }
        } else if c == 'k' {
            ViewState { selected: Some(above(s)), ..s }
        } else if c == 'c' {
            ViewState { sort_by: SortBy::Cpu, ..s }
        } else if c == 'm' {
            ViewState { sort_by: SortBy::Memory, ..s }
        } else if c == 'p' {
            ViewState { sort_by: SortBy::Pid, ..s }
        } else if c == 'n' {
            ViewState { sort_by: SortBy::Name, ..s }
        } else {
            s
        },
        _ => s,
    }
}

impl ViewState {
    /// The state before any rows are shown.
    pub fn new(sort_by: SortBy) -> (r: Self)
        ensures
            r.selected is None,
            r.sort_by == sort_by,
    {
        ViewState { selected: None, sort_by }
    }

    /// Moves the selection one row down, stopping at the last of `rows` rows.
    pub fn scroll_down(&mut self, rows: usize)
        requires
            cursor(*old(self)) < usize::MAX,
        ensures
            final(self).selected == Some(below(*old(self), rows as nat)),
            final(self).sort_by == old(self).sort_by,
    {
        let last = rows.saturating_sub(1);
        let cur = match self.selected {
            Some(i) => i,
            None => 0,
        };
        let next = if cur + 1 <= last { cur + 1 } else { last };
        self.selected = Some(next);
    }

    /// Moves the selection one row up, stopping at the first row.
    pub fn scroll_up(&mut self)
        ensures
            final(self).selected == Some(above(*old(self))),
            final(self).sort_by == old(self).sort_by,
    {
        let cur = match self.selected {
            Some(i) => i,
            None => 0,
        };
        self.selected = Some(cur.saturating_sub(1));
    }

    /// Applies a key press with `rows` rows shown; true when the key ends the view.
    pub fn handle_key(&mut self, key: Key, rows: usize) -> (quit: bool)
        requires
            scrolls_down(key) ==> cursor(*old(self)) < usize::MAX,
        ensures
            quit == quits(key),
            quit ==> *final(self) == *old(self),
            !quit ==> *final(self) == after_key(*old(self), key, rows as nat),
    {
        match key {
            Key::Esc => true,
            Key::Down => {
                self.scroll_down(rows);
                false
            },
            Key::Up => {
                self.scroll_up();
                false
            },
            Key::Char(c) => {
                if c == 'q' {
                    true
                } else if c == 'j' {
                    self.scroll_down(rows);
                    false
                } else if c == 'k' {
                    self.scroll_up();
                    false
                } else if c == 'c' {
                    self.sort_by = SortBy::Cpu;
                    false
                } else if c == 'm' {
                    self.sort_by = SortBy::Memory;
                    false
                } else if c == 'p' {
                    self.sort_by = SortBy::Pid;
                    false
                } else if c == 'n' {
                    self.sort_by = SortBy::Name;
                    false
                } else {
                    false
                }
            },
            Key::Other => false,
        }
    }

    /// After new rows arrive: select the first row if nothing is selected and there
    /// are rows.
    pub fn rows_refreshed(&mut self, rows: usize)
        ensures
            final(self).sort_by == old(self).sort_by,
            final(self).selected == (if old(self).selected is None && rows > 0 {
                Some(0usize)
            } else {
                old(self).selected
            }),
    {
        if self.selected.is_none() && rows > 0 {
            self.selected = Some(0);
        }
    }
}

/// Scrolling never leaves the rows: after moving down or up over `rows` rows, the
/// selection is a row (or the first row when there are none).
pub proof fn lemma_scroll_stays_in_rows(s: ViewState, rows: nat)
    requires
        rows > 0,
        cursor(s) < rows,
    ensures
        below(s, rows) < rows,
        above(s) < rows,
{
}

/// What each key does: Down and `j` move the selection one row down, stopping at the
/// last row; Up and `k` move it one row up, stopping at the first; `c`, `m`, `p`, `n`
/// sort by CPU, memory, PID and name and keep the selection; moving keeps the order;
/// every other key (but `q` and Escape, which end the view) changes nothing.
pub proof fn lemma_key_effects(s: ViewState, rows: nat, c: char)
    ensures
        after_key(s, Key::Char('j'), rows) == after_key(s, Key::Down, rows),
        after_key(s, Key::Char('k'), rows) == after_key(s, Key::Up, rows),
        cursor(s) + 1 < rows ==> after_key(s, Key::Down, rows).selected == Some((cursor(s) + 1) as usize),
        rows > 0 && cursor(s) + 1 >= rows ==> after_key(s, Key::Down, rows).selected == Some((rows - 1) as usize),
        cursor(s) > 0 ==> after_key(s, Key::Up, rows).selected == Some((cursor(s) - 1) as usize),
        cursor(s) == 0 ==> after_key(s, Key::Up, rows).selected == Some(0usize),
        after_key(s, Key::Down, rows).sort_by == s.sort_by,
        after_key(s, Key::Up, rows).sort_by == s.sort_by,
        after_key(s, Key::Char('c'), rows).sort_by == SortBy::Cpu,
        after_key(s, Key::Char('m'), rows).sort_by == SortBy::Memory,
        after_key(s, Key::Char('p'), rows).sort_by == SortBy::Pid,
        after_key(s, Key::Char('n'), rows).sort_by == SortBy::Name,
        c == 'c' || c == 'm' || c == 'p' || c == 'n' ==> after_key(s, Key::Char(c), rows).selected == s.selected,
        c != 'j' && c != 'k' && c != 'c' && c != 'm' && c != 'p' && c != 'n' ==> after_key(s, Key::Char(c), rows) == s,
        after_key(s, Key::Other, rows) == s,
        quits(Key::Esc) && quits(Key::Char('q')) && !quits(Key::Char(c)) == (c != 'q'),
        !quits(Key::Up) && !quits(Key::Down) && !quits(Key::Other),
{
}

/// Moving down then up comes back to the row the cursor was on, when there is a row
/// below it (`rows` being a count of rows shown, a `usize`).
pub proof fn lemma_down_then_up(s: ViewState, rows: nat)
    requires
        cursor(s) + 1 < rows,
        rows <= usize::MAX,
    ensures
        after_key(after_key(s, Key::Down, rows), Key::Up, rows).selected == Some(cursor(s) as usize),
{
}

} // verus!
