//! Progress of a render: the bookkeeping of the thread that reports it, and
//! the bar that shows it.

use vstd::prelude::*;
use vstd::string::*;

verus! {

/// Number of pixels a worker lets pass between two wake-ups of the reporter.
pub const UPDATE_INTERVAL: usize = 1024;

/// Value of the shared counter that tells the reporter that the render is
/// over.
pub const FINISHED: usize = usize::MAX;

/// Width of the bar between its brackets.
pub const BAR_WIDTH: i32 = 50;

/// Whether a worker that found `previous` in the shared counter wakes the
/// reporter.
pub fn should_notify(previous: usize) -> (r: bool)
    ensures
        r == (previous >= UPDATE_INTERVAL),
{
    previous >= UPDATE_INTERVAL
}

/// What the reporter knows: how many pixels there are and how many are done.
pub struct Progress {
    total: usize,
    done: usize,
}

impl Progress {
    pub closed spec fn total(self) -> nat {
        self.total as nat
    }

    pub closed spec fn done(self) -> nat {
        self.done as nat
    }

    pub fn new(total: usize) -> (r: Self)
        ensures
            r.total() == total,
            r.done() == 0,
    {
        Self { total, done: 0 }
    }

    /// Whether the reporter goes on waiting: not all pixels are accounted
    /// for.
    pub fn is_waiting(&self) -> (r: bool)
        ensures
            r == (self.done() < self.total()),
    {
        self.done < self.total
    }

    /// The pair to report: the total and the number done.
    pub fn report(&self) -> (r: (usize, usize))
        ensures
            r.0 == self.total(),
            r.1 == self.done(),
    {
        (self.total, self.done)
    }

    /// Takes in what the reporter read from the shared counter. The value
    /// `FINISHED` ends the render: everything counts as done and the result is
    /// true. Any other value is added to the number done, which stops at the
    /// largest value it can hold.
    pub fn absorb(&mut self, add: usize) -> (finished: bool)
        ensures
            finished == (add == FINISHED),
            final(self).total() == old(self).total(),
            add == FINISHED ==> final(self).done() == old(self).total(),
            add != FINISHED ==> final(self).done() == (if old(self).done() + add > usize::MAX {
                usize::MAX as int
            } else {
                old(self).done() + add
            }),
    {
        if add == usize::MAX {
            self.done = self.total;
            true
        } else {
            self.done =
            if add > usize::MAX - self.done {
                usize::MAX
            } else {
                self.done + add
            };
            false
        }
    }
}

/// Number of filled cells of a bar for the given count: none for a negative
/// count.
pub open spec fn filled_cells(to_color: int) -> nat {
    if to_color < 0 {
        0
    } else {
        to_color as nat
    }
}

/// Number of empty cells: what is missing to the width of the bar, and none
/// where the count exceeds it.
pub open spec fn empty_cells(to_color: int) -> nat {
    if to_color > BAR_WIDTH {
        0
    } else {
        (BAR_WIDTH - to_color) as nat
    }
}

/// The bar for `to_color` filled cells: an opening bracket, the filled
/// cells as `#`, the empty cells as `.`, and a closing bracket.
pub open spec fn bar_text(to_color: int) -> Seq<char> {
    seq!['['] + Seq::new(filled_cells(to_color), |i: int| '#') + Seq::new(
        empty_cells(to_color),
        |i: int| '.',
    ) + seq![']']
}

/// Replaces `bar` by the bar for `to_color` filled cells.
pub fn format_bar(bar: &mut String, to_color: i32)
    ensures
        final(bar)@ == bar_text(to_color as int),
{
    *bar = String::new();
    proof {
        reveal_strlit("[");
        reveal_strlit("#");
        reveal_strlit(".");
        reveal_strlit("]");
    }
    bar.append("[");
    let mut filled: i32 = 0;
    while filled < to_color
        invariant
            0 <= filled <= filled_cells(to_color as int),
            "#"@ == seq!['#'],
            bar@ == seq!['['] + Seq::new(filled as nat, |i: int| '#'),
        decreases to_color - filled,
    {
        bar.append("#");
        filled = filled + 1;
    }
    let ghost head = bar@;
    let cells: i64 = BAR_WIDTH as i64 - to_color as i64;
    let mut empty: i64 = 0;
    while empty < cells
        invariant
            0 <= empty <= empty_cells(to_color as int),
            cells == BAR_WIDTH - to_color,
            "."@ == seq!['.'],
            bar@ == head + Seq::new(empty as nat, |i: int| '.'),
        decreases cells - empty,
    {
        bar.append(".");
        empty = empty + 1;
    }
    bar.append("]");
}

} // verus!
