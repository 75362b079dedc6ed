//! The size of the terminal, as far as the listing depends on it.

use vstd::prelude::*;

verus! {

/// The size of a terminal in characters.
#[derive(Clone, Copy, Debug, PartialEq, Eq, Structural)]
pub struct TerminalSize {
    pub columns: usize,
    pub rows: usize,
}

impl TerminalSize {
    /// The size that is taken where the terminal does not tell its own.
    pub open spec fn spec_fallback() -> TerminalSize {
        TerminalSize { columns: 80, rows: 24 }
    }

    /// The size that is taken where the terminal does not tell its own: 80
    /// columns and 24 rows.
    pub fn fallback() -> (size: TerminalSize)
        ensures
            size == Self::spec_fallback(),
    {
        TerminalSize { columns: 80, rows: 24 }
    }

    /// How many tasks a listing shows: four fewer than the terminal has
    /// rows.
    pub fn task_limit(&self) -> (limit: usize)
        requires
            self.rows >= 4,
        ensures
            limit == self.rows - 4,
    {
        self.rows - 4
    }

    /// How wide the columns of a listing may be together: twelve less than
    /// the terminal has columns.
    pub fn width_limit(&self) -> (limit: usize)
        requires
            self.columns >= 12,
        ensures
            limit == self.columns - 12,
    {
        self.columns - 12
    }
}

/// The size to lay a listing out for, given the size that the terminal
/// reported, if it reported one: the reported size where it has at least
/// one column and one row, and 80 columns and 24 rows else.
pub fn terminal_size(reported: Option<TerminalSize>) -> (size: TerminalSize)
    ensures
        size == match reported {
            Some(given) => if given.columns > 0 && given.rows > 0 {
                given
            } else {
                TerminalSize::spec_fallback()
            },
            None => TerminalSize::spec_fallback(),
        },
{
    match reported {
        Some(given) => {
            if given.columns > 0 && given.rows > 0 {
                given
            } else {
                TerminalSize::fallback()
            }
        },
        None => TerminalSize::fallback(),
    }
}

} // verus!
