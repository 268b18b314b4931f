//! The cursor in a listing and the part of the listing that the screen shows.
//!
//! The screen shows the entries from the top line on. When the cursor leaves
//! what is shown, the view moves by whole screens until the cursor is on it
//! again. A screen of `rows` lines moves by `rows - 1` entries, so that one
//! entry of the screen before stays in sight.

use crate::handle::entry::entries::Entries;
use crate::handle::entry::iterator::EntryIterator;
use crate::handle::entry::{Entry, Listed};
use vstd::arithmetic::div_mod::{lemma_fundamental_div_mod, lemma_mod_bound};
use vstd::prelude::*;

verus! {

/// `numer` divided by `denom`, rounded up: the least number of parts of size
/// `denom` that hold `numer` things.
pub fn ceildiv(numer: usize, denom: usize) -> (parts: usize)
    requires
        denom > 0,
        numer + (denom - 1) <= usize::MAX,
    ensures
        (parts - 1) * denom < numer <= parts * denom,
{
    let parts = (numer + (denom - 1)) / denom;
    proof {
        let x = numer + (denom - 1);
        lemma_fundamental_div_mod(x, denom as int);
        lemma_mod_bound(x, denom as int);
        assert(denom * (x / denom as int) == (x / denom as int) * denom) by (nonlinear_arith);
        assert((x / denom as int - 1) * denom == (x / denom as int) * denom - denom)
            by (nonlinear_arith);
    }
    parts
}

/// The top line after the view has followed the cursor to `pos`: the line at or
/// above the cursor that is a whole number of screens away from the old top
/// line, and the first line where that would lie above the listing.
pub open spec fn adjusted_top(top: int, pos: int, rows: int) -> int {
    let line = pos - (pos - top) % (rows - 1);
    if line > 0 {
        line
    } else {
        0
    }
}

/// The view that has followed the cursor shows it: the top line is at or above
/// the cursor, less than a screen's move away.
pub proof fn lemma_adjusted_top(top: int, pos: int, rows: int)
    requires
        0 <= top,
        0 <= pos,
        2 <= rows,
    ensures
        0 <= adjusted_top(top, pos, rows) <= pos,
        pos - adjusted_top(top, pos, rows) < rows - 1,
        top <= pos ==> top <= adjusted_top(top, pos, rows),
        top >= pos ==> adjusted_top(top, pos, rows) <= top,
{
    lemma_mod_bound(pos - top, rows - 1);
    lemma_fundamental_div_mod(pos - top, rows - 1);
    let q = (pos - top) / (rows - 1);
    if top <= pos {
        assert(q >= 0) by (nonlinear_arith)
            requires
                pos - top == (rows - 1) * q + (pos - top) % (rows - 1),
                0 <= (pos - top) % (rows - 1) < rows - 1,
                pos - top >= 0,
        ;
        assert((rows - 1) * q >= 0) by (nonlinear_arith)
            requires
                q >= 0,
                rows - 1 > 0,
        ;
    }
}

/// A place in a listing and the line of the listing that stands at the top of
/// the screen.
#[derive(Debug)]
pub struct Cursor {
    entries: Entries,
    top: usize,
    pos: usize,
}

impl Cursor {
    /// The listing that the cursor moves in.
    pub closed spec fn listing(&self) -> Entries {
        self.entries
    }

    /// The place of the cursor.
    pub closed spec fn position(&self) -> int {
        self.pos as int
    }

    /// The line at the top of the screen.
    pub closed spec fn top_line(&self) -> int {
        self.top as int
    }

    /// The cursor stands on an entry, and a screen of `rows` lines that begins at
    /// the top line shows it.
    pub open spec fn sane(&self, rows: int) -> bool {
        &&& self.top_line() <= self.position()
        &&& self.top_line() < self.listing()@.len()
        &&& self.position() < self.listing()@.len()
        &&& self.position() - self.top_line() <= rows
    }

    /// Whether the view can follow the cursor to `target` on a screen of `rows`
    /// lines: the screen has a line to move by, the target is an entry, and the
    /// way back to it can be counted in a `usize`.
    pub open spec fn reaches(&self, target: int, rows: int) -> bool {
        &&& 2 <= rows
        &&& 0 <= target < self.listing()@.len()
        &&& self.top_line() > target ==> self.top_line() - target + rows - 2 <= usize::MAX
    }

    /// A cursor in `entries`, at `initial` or at the last place if that is
    /// nearer, and on the first entry below the parent directory where no place
    /// is given. The view begins at the first line.
    pub fn new(entries: Entries, initial: Option<usize>) -> (cursor: Cursor)
        requires
            entries.wf(),
        ensures
            cursor.listing() == entries,
            cursor.top_line() == 0,
            cursor.position() == match initial {
                Some(pos) => if pos <= entries@.len() {
                    pos as int
                } else {
                    entries@.len() as int
                },
                None => 1,
            },
    {
        let pos = match initial {
            Some(pos) => {
                let count = entries.len();
                if pos <= count {
                    pos
                } else {
                    count
                }
            },
            None => 1,
        };
        Cursor { entries, top: 0, pos }
    }

    /// The directory that is listed.
    pub fn get_path(&self) -> (path: &str)
        ensures
            path@ == self.listing().directory(),
    {
        self.entries.path()
    }

    /// Lists `path`, of which `listing` was read, in place of the directory
    /// listed so far. The cursor and the view stay where they are.
    pub fn set_path(&mut self, path: String, listing: &Vec<Listed>)
        requires
            old(self).listing().wf(),
            listing@.len() < usize::MAX,
        ensures
            final(self).listing().wf(),
            final(self).listing().with_parent() == old(self).listing().with_parent(),
            final(self).listing().directory() == path@,
            crate::handle::entry::entries::sorted(final(self).listing().files()),
            final(self).listing().files().to_multiset() == crate::handle::entry::entries::kept(
                crate::handle::entry::entries::listed(listing@),
            ).to_multiset(),
            final(self).position() == old(self).position(),
            final(self).top_line() == old(self).top_line(),
    {
        self.entries.update(path, listing);
    }

    /// The entry that the cursor stands on.
    pub fn current(&self) -> (entry: &Entry)
        requires
            self.listing().wf(),
            self.position() < self.listing()@.len(),
        ensures
            entry@ == self.listing()@[self.position()],
    {
        self.entries.get(self.pos)
    }

    /// The number of entries in the listing.
    pub fn len(&self) -> (count: usize)
        requires
            self.listing().wf(),
        ensures
            count == self.listing()@.len(),
    {
        self.entries.len()
    }

    /// The place of the cursor.
    pub fn current_index(&self) -> (pos: usize)
        ensures
            pos == self.position(),
    {
        self.pos
    }

    /// The line at the top of the screen.
    pub fn current_top(&self) -> (top: usize)
        ensures
            top == self.top_line(),
    {
        self.top
    }

    /// A walk through the entries that the screen shows, from the top line on.
    pub fn entries(&self) -> (walk: EntryIterator<'_>)
        ensures
            *walk.listing() == self.listing(),
            walk.place() == self.top_line(),
    {
        EntryIterator::new(&self.entries, self.top)
    }

    /// Whether the view can follow the cursor to `target` on a screen of `rows`
    /// lines.
    pub fn can_follow(&self, target: usize, rows: usize) -> (can: bool)
        requires
            self.listing().wf(),
        ensures
            can == self.reaches(target as int, rows as int),
    {
        if rows < 2 || target >= self.entries.len() {
            return false;
        }
        self.top <= target || self.top - target <= usize::MAX - (rows - 2)
    }

    /// Lets the view follow the cursor, on a screen of `rows` lines.
    fn adjust_view(&mut self, rows: usize)
        requires
            old(self).listing().wf(),
            old(self).reaches(old(self).position(), rows as int),
        ensures
            final(self).listing() == old(self).listing(),
            final(self).position() == old(self).position(),
            final(self).top_line() == adjusted_top(
                old(self).top_line(),
                old(self).position(),
                rows as int,
            ),
            final(self).sane(rows as int),
    {
        let rows = rows - 1;
        let ghost r = rows as int;
        let ghost top = self.top as int;
        let ghost pos = self.pos as int;
        proof {
            lemma_adjusted_top(top, pos, r + 1);
            lemma_fundamental_div_mod(pos - top, r);
            lemma_mod_bound(pos - top, r);
        }
        if self.top > self.pos {
            /* Move view up */
            let screens = ceildiv(self.top - self.pos, rows);
            proof {
                let m = (pos - top) % r;
                let q = (pos - top) / r;
                assert(r * q == q * r) by (nonlinear_arith);
                assert(top - pos + m == (-q) * r) by (nonlinear_arith)
                    requires
                        pos - top == q * r + m,
                ;
                assert(screens == -q) by (nonlinear_arith)
                    requires
                        (screens - 1) * r < top - pos <= screens * r,
                        top - pos + m == (-q) * r,
                        0 <= m < r,
                ;
                assert(screens * r == top - pos + m);
            }
            let screen_rows = screens * rows;

            // Perform an unsigned cmp::max()
            if self.top > screen_rows {
                self.top -= screen_rows;
            } else {
                self.top = 0;
            }
        } else {
            /* Move view down */
            let screens = (self.pos - self.top) / rows;
            proof {
                assert(r * screens == screens * r) by (nonlinear_arith);
            }
            let screen_rows = screens * rows;
            let count = self.entries.len();
            let last = count - 1;
            let moved = self.top + screen_rows;
            self.top = if last < moved {
                last
            } else {
                moved
            };
        }
    }

    /// Whether the cursor stands on an entry that a screen of `rows` lines
    /// shows.
    pub fn sanity(&self, rows: usize) -> (sane: bool)
        requires
            self.listing().wf(),
        ensures
            sane == self.sane(rows as int),
    {
        let count = self.entries.len();
        self.top <= self.pos && self.top < count && self.pos < count && self.pos - self.top
            <= rows
    }

    /// Moves the cursor up by `off` entries, or to the first entry if that is
    /// nearer, and lets the view follow.
    pub fn up(&mut self, off: usize, rows: usize)
        requires
            old(self).listing().wf(),
            old(self).reaches(
                if off <= old(self).position() {
                    old(self).position() - off
                } else {
                    0
                },
                rows as int,
            ),
        ensures
            final(self).listing() == old(self).listing(),
            final(self).position() == if off <= old(self).position() {
                old(self).position() - off
            } else {
                0
            },
            final(self).top_line() == adjusted_top(
                old(self).top_line(),
                final(self).position(),
                rows as int,
            ),
            final(self).sane(rows as int),
    {
        let step = if self.pos < off {
            self.pos
        } else {
            off
        };
        self.pos -= step;
        self.adjust_view(rows);
    }

    /// Moves the cursor down by `off` entries, or to the last entry if that is
    /// nearer, and lets the view follow.
    pub fn down(&mut self, off: usize, rows: usize)
        requires
            old(self).listing().wf(),
            old(self).position() + off <= usize::MAX,
            old(self).reaches(
                if old(self).position() + off < old(self).listing()@.len() {
                    old(self).position() + off
                } else {
                    old(self).listing()@.len() - 1
                },
                rows as int,
            ),
        ensures
            final(self).listing() == old(self).listing(),
            final(self).position() == if old(self).position() + off < old(self).listing()@.len() {
                old(self).position() + off
            } else {
                old(self).listing()@.len() - 1
            },
            final(self).top_line() == adjusted_top(
                old(self).top_line(),
                final(self).position(),
                rows as int,
            ),
            final(self).sane(rows as int),
    {
        let last = self.entries.len() - 1;
        let moved = self.pos + off;
        self.pos = if last < moved {
            last
        } else {
            moved
        };
        self.adjust_view(rows);
    }

    /// Puts the cursor and the view on the first entry.
    pub fn jump_top(&mut self)
        ensures
            final(self).listing() == old(self).listing(),
            final(self).position() == 0,
            final(self).top_line() == 0,
    {
        self.top = 0;
        self.pos = 0;
    }

    /// Puts the cursor on the last entry and lets the view follow.
    pub fn jump_bottom(&mut self, rows: usize)
        requires
            old(self).listing().wf(),
            old(self).reaches(old(self).listing()@.len() - 1, rows as int),
        ensures
            final(self).listing() == old(self).listing(),
            final(self).position() == old(self).listing()@.len() - 1,
            final(self).top_line() == adjusted_top(
                old(self).top_line(),
                final(self).position(),
                rows as int,
            ),
            final(self).sane(rows as int),
    {
        self.pos = self.entries.len() - 1;
        self.adjust_view(rows);
    }
}

} // verus!
