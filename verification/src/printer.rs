//! The layout of a table of texts.

use vstd::prelude::*;
use crate::task::{spec_ellipsize, Priority, StringExt};
use crate::text::byte_len;

verus! {

/// Where a text stands in a column that is wider than the text.
#[derive(Copy, Clone, Debug, PartialEq, Eq, Structural)]
pub enum Alignment {
    Left,
    Center,
    Right,
}

/// A colour, by its red, green and blue parts.
#[derive(Copy, Clone, Debug, PartialEq, Eq, Structural)]
pub struct Rgb(pub u8, pub u8, pub u8);

/// How a row is set off from its neighbours.
#[derive(Copy, Clone, Debug, PartialEq, Eq, Structural)]
pub struct RowStyle {
    pub foreground: Option<Rgb>,
    pub background: Option<Rgb>,
}

impl RowStyle {
    /// The style of the `n`-th row of a listing, counted from zero, for a
    /// task of the given priority: every other row has a dark background,
    /// a task of high priority is written in red and one of low priority
    /// in grey.
    pub open spec fn spec_of_row(n: nat, priority: Priority) -> RowStyle {
        RowStyle {
            foreground: match priority {
                Priority::High => Some(Rgb(250, 50, 50)),
                Priority::Low => Some(Rgb(150, 150, 150)),
                Priority::Default => None,
            },
            background: if n % 2 == 0 {
                Some(Rgb(40, 40, 40))
            } else {
                None
            },
        }
    }

    /// The style of the `n`-th row of a listing, counted from zero, for a
    /// task of the given priority.
    pub fn of_row(n: usize, priority: Priority) -> (style: RowStyle)
        ensures
            style == Self::spec_of_row(n as nat, priority),
    {
        RowStyle {
            foreground: match priority {
                Priority::High => Some(Rgb(250, 50, 50)),
                Priority::Low => Some(Rgb(150, 150, 150)),
                Priority::Default => None,
            },
            background: if n % 2 == 0 {
                Some(Rgb(40, 40, 40))
            } else {
                None
            },
        }
    }
}

/// One row of a table: a text for each column, and how the row is set
/// off.
#[derive(Debug)]
pub struct PrintRow {
    pub fields: Vec<String>,
    pub style: Option<RowStyle>,
}

/// Why a table cannot be shown.
#[derive(Debug, PartialEq, Eq)]
pub enum PrintError {
    /// Writing failed; it holds what the system said.
    IO(String),
    TerminalTooNarrow,
}

/// Lays out tables: the titles of the columns, how each column is aligned
/// and how wide the table may be.
#[derive(Debug)]
pub struct TablePrinter {
    pub titles: Vec<String>,
    pub alignments: Vec<(String, Alignment)>,
    pub width_limit: Option<usize>,
}

/// A table laid out: for each title the blanks before it, the title and
/// the blanks behind it, and for each row its cells and its style.
#[derive(Debug)]
pub struct Table {
    pub header: Vec<(String, String, String)>,
    pub rows: Vec<(Vec<String>, Option<RowStyle>)>,
}

/// `n` blanks.
pub open spec fn blanks(n: nat) -> Seq<char> {
    Seq::new(n, |i: int| ' ')
}

/// A text made as wide as a column by blanks: behind it, before it, or on
/// both sides with the odd blank behind. A text that is as wide as the
/// column or wider stays as it is.
pub open spec fn padded(text: Seq<char>, width: nat, alignment: Alignment) -> Seq<char> {
    if text.len() >= width {
        text
    } else {
        let gap = (width - text.len()) as nat;
        match alignment {
            Alignment::Left => text + blanks(gap),
            Alignment::Right => blanks(gap) + text,
            Alignment::Center => blanks(gap / 2) + text + blanks((gap - gap / 2) as nat),
        }
    }
}

/// The number of bytes of each text of a row.
pub open spec fn byte_lens(fields: Seq<String>) -> Seq<nat> {
    fields.map_values(|f: String| byte_len(f@))
}

/// The number of bytes of each text of each row.
pub open spec fn row_lens(rows: Seq<PrintRow>) -> Seq<Seq<nat>> {
    rows.map_values(|r: PrintRow| byte_lens(r.fields@))
}

/// The width of the column `n`: the number of bytes of the longest text in
/// it, where `start` is that of its title.
pub open spec fn widest(rows: Seq<Seq<nat>>, n: int, start: nat) -> nat
    decreases rows.len(),
{
    if rows.len() == 0 {
        start
    } else {
        let above = widest(rows.drop_last(), n, start);
        if 0 <= n < rows.last().len() && rows.last()[n] > above {
            rows.last()[n]
        } else {
            above
        }
    }
}

/// The sum of the first `n` of `widths`.
pub open spec fn total(widths: Seq<usize>, n: int) -> int
    decreases n,
{
    if n <= 0 {
        0
    } else {
        total(widths, n - 1) + widths[n - 1]
    }
}

/// The alignment that a list of alignments gives a title: that of the last
/// entry for the title, or centred where there is none.
pub open spec fn alignment_in(alignments: Seq<(String, Alignment)>, title: Seq<char>) -> Alignment
    decreases alignments.len(),
{
    if alignments.len() == 0 {
        Alignment::Center
    } else if alignments.last().0@ == title {
        alignments.last().1
    } else {
        alignment_in(alignments.drop_last(), title)
    }
}

/// `n` blanks.
pub fn spaces(n: usize) -> (text: String)
    ensures
        text@ == blanks(n as nat),
{
    let mut text = String::new();
    let mut i: usize = 0;
    proof {
        reveal_strlit(" ");
        assert(text@ =~= blanks(0));
    }
    while i < n
        invariant
            i <= n,
            text@ == blanks(i as nat),
            " "@ == seq![' '],
        decreases n - i,
    {
        text.append(" ");
        proof {
            assert(text@ =~= blanks((i + 1) as nat));
        }
        i += 1;
    }
    text
}

/// `text` made as wide as `width` characters by blanks.
pub fn pad(text: &str, width: usize, alignment: Alignment) -> (cell: String)
    ensures
        cell@ == padded(text@, width as nat, alignment),
{
    let len = text.unicode_len();
    if len >= width {
        return text.to_owned();
    }
    let gap = width - len;
    let (before, after) = match alignment {
        Alignment::Left => (0, gap),
        Alignment::Right => (gap, 0),
        Alignment::Center => (gap / 2, gap - gap / 2),
    };
    let mut cell = spaces(before);
    cell.append(text);
    cell.append(spaces(after).as_str());
    proof {
        assert(blanks(0) =~= Seq::<char>::empty());
        assert(cell@ =~= padded(text@, width as nat, alignment));
    }
    cell
}

impl TablePrinter {
    /// A printer without columns and without a limit to the width.
    pub fn new() -> (printer: Self)
        ensures
            printer.titles@.len() == 0,
            printer.alignments@.len() == 0,
            printer.width_limit is None,
    {
        TablePrinter { titles: Vec::new(), alignments: Vec::new(), width_limit: None }
    }

    /// Asks for the column of the title `title` to be aligned as
    /// `alignment` says.
    pub fn align(&mut self, title: &str, alignment: Alignment)
        ensures
            final(self).titles == old(self).titles,
            final(self).width_limit == old(self).width_limit,
            final(self).alignments@.len() == old(self).alignments@.len() + 1,
            forall|t: Seq<char>|
                alignment_in(final(self).alignments@, t) == if t == title@ {
                    alignment
                } else {
                    alignment_in(old(self).alignments@, t)
                },
    {
        self.alignments.push((title.to_owned(), alignment));
        proof {
            assert(self.alignments@.drop_last() =~= old(self).alignments@);
        }
    }

    /// The alignment of the column of the title `title`.
    pub fn alignment_of(&self, title: &str) -> (alignment: Alignment)
        ensures
            alignment == alignment_in(self.alignments@, title@),
    {
        let mut i: usize = self.alignments.len();
        proof {
            assert(self.alignments@.take(i as int) =~= self.alignments@);
        }
        while i > 0
            invariant
                i <= self.alignments@.len(),
                alignment_in(self.alignments@, title@) == alignment_in(
                    self.alignments@.take(i as int),
                    title@,
                ),
            decreases i,
        {
            proof {
                assert(self.alignments@.take(i as int).drop_last() =~= self.alignments@.take(i - 1));
                assert(self.alignments@.take(i as int).last() == self.alignments@[i - 1]);
            }
            if self.alignments[i - 1].0.as_str().eq(title) {
                return self.alignments[i - 1].1;
            }
            i -= 1;
        }
        Alignment::Center
    }

    /// The width of each column: the number of bytes of the longest text
    /// in it, its title counted.
    pub fn widths(&self, rows: &[PrintRow]) -> (widths: Vec<usize>)
        ensures
            widths@.len() == self.titles@.len(),
            forall|n: int|
                0 <= n < widths@.len() ==> #[trigger] widths@[n] == widest(
                    row_lens(rows@),
                    n,
                    byte_len(self.titles@[n]@),
                ),
    {
        let mut widths: Vec<usize> = Vec::new();
        let mut n: usize = 0;
        while n < self.titles.len()
            invariant
                n <= self.titles@.len(),
                widths@.len() == n,
                forall|m: int|
                    0 <= m < n ==> #[trigger] widths@[m] == widest(
                        row_lens(rows@),
                        m,
                        byte_len(self.titles@[m]@),
                    ),
            decreases self.titles@.len() - n,
        {
            let mut width: usize = self.titles[n].as_str().as_bytes().len();
            let ghost start = byte_len(self.titles@[n as int]@);
            let mut r: usize = 0;
            proof {
                assert(row_lens(rows@).take(0) =~= Seq::<Seq<nat>>::empty());
            }
            while r < rows.len()
                invariant
                    r <= rows@.len(),
                    n < self.titles@.len(),
                    width == widest(row_lens(rows@).take(r as int), n as int, start),
                decreases rows@.len() - r,
            {
                proof {
                    let lens = row_lens(rows@);
                    assert(lens.take(r + 1).drop_last() =~= lens.take(r as int));
                    assert(lens.take(r + 1).last() == byte_lens(rows@[r as int].fields@));
                }
                if n < rows[r].fields.len() {
                    let len = rows[r].fields[n].as_str().as_bytes().len();
                    if len > width {
                        width = len;
                    }
                }
                r += 1;
            }
            proof {
                assert(row_lens(rows@).take(r as int) =~= row_lens(rows@));
            }
            widths.push(width);
            n += 1;
        }
        widths
    }

    /// Whether columns of the widths `widths` are within the limit: their
    /// sum has to stay below it.
    pub fn check_widths(&self, widths: &Vec<usize>) -> (fits: Result<(), PrintError>)
        ensures
            match self.width_limit {
                Some(limit) => fits == (if total(widths@, widths@.len() as int) >= limit {
                    Err::<(), PrintError>(PrintError::TerminalTooNarrow)
                } else {
                    Ok::<(), PrintError>(())
                }),
                None => fits == Ok::<(), PrintError>(()),
            },
    {
        let limit = match self.width_limit {
            Some(limit) => limit,
            None => {
                return Ok(());
            },
        };
        let mut sum: usize = 0;
        let mut i: usize = 0;
        while i < widths.len()
            invariant
                i <= widths@.len(),
                self.width_limit == Some(limit),
                sum == total(widths@, i as int),
                sum < limit || i == 0,
            decreases widths@.len() - i,
        {
            proof {
                assert(total(widths@, i + 1) == total(widths@, i as int) + widths@[i as int]);
                lemma_total_grows(widths@, i + 1, widths@.len() as int);
            }
            if widths[i] >= limit - sum {
                return Err(PrintError::TerminalTooNarrow);
            }
            sum += widths[i];
            i += 1;
        }
        if sum >= limit {
            Err(PrintError::TerminalTooNarrow)
        } else {
            Ok(())
        }
    }

    /// The width of the column `n` of a table with the rows `rows`.
    pub open spec fn width_of(self, rows: Seq<PrintRow>, n: int) -> nat {
        widest(row_lens(rows), n, byte_len(self.titles@[n]@))
    }

    /// Whether `table` is the table with the rows `rows` laid out: each
    /// title stands in the middle of its column, and each text of a row is
    /// cut down to the width of its column and aligned in it, with a blank
    /// on either side.
    pub open spec fn is_layout(self, rows: Seq<PrintRow>, table: Table) -> bool {
        &&& table.header@.len() == self.titles@.len()
        &&& forall|n: int|
            0 <= n < self.titles@.len() ==> cell_view(#[trigger] table.header@[n]) == title_cell(
                self.titles@[n]@,
                self.width_of(rows, n),
            )
        &&& table.rows@.len() == rows.len()
        &&& forall|r: int|
            0 <= r < rows.len() ==> (#[trigger] table.rows@[r]).1 == rows[r].style
                && table.rows@[r].0@.len() == rows[r].fields@.len()
        &&& forall|r: int, n: int|
            0 <= r < rows.len() && 0 <= n < rows[r].fields@.len() ==> (
            #[trigger] table.rows@[r].0@[n])@ == text_cell(
                rows[r].fields@[n]@,
                self.width_of(rows, n),
                alignment_in(self.alignments@, self.titles@[n]@),
            )
    }

    /// Lays out the table with the rows `rows`, or says that the columns
    /// together are too wide for the limit.
    pub fn print(&self, rows: &[PrintRow]) -> (laid_out: Result<Table, PrintError>)
        requires
            forall|r: int| 0 <= r < rows@.len() ==> (#[trigger] rows@[r]).fields@.len()
                <= self.titles@.len(),
        ensures
            match laid_out {
                Ok(table) => self.is_layout(rows@, table) && match self.width_limit {
                    Some(limit) => self.total_width(rows@) < limit,
                    None => true,
                },
                Err(error) => error == PrintError::TerminalTooNarrow && match self.width_limit {
                    Some(limit) => self.total_width(rows@) >= limit,
                    None => false,
                },
            },
    {
        let widths = self.widths(rows);
        proof {
            lemma_total_same(widths@, self, rows@, widths@.len() as int);
        }
        match self.check_widths(&widths) {
            Err(error) => {
                return Err(error);
            },
            Ok(_) => {},
        }
        let mut header: Vec<(String, String, String)> = Vec::new();
        let mut n: usize = 0;
        while n < self.titles.len()
            invariant
                n <= self.titles@.len(),
                widths@.len() == self.titles@.len(),
                forall|m: int|
                    0 <= m < widths@.len() ==> #[trigger] widths@[m] == self.width_of(rows@, m),
                header@.len() == n,
                forall|m: int|
                    0 <= m < n ==> cell_view(#[trigger] header@[m]) == title_cell(
                        self.titles@[m]@,
                        self.width_of(rows@, m),
                    ),
            decreases self.titles@.len() - n,
        {
            let title = self.titles[n].as_str();
            let len = title.unicode_len();
            let gap = if widths[n] > len { widths[n] - len } else { 0 };
            proof {
                reveal_strlit(" ");
            }
            let mut before = " ".to_owned();
            before.append(spaces(gap / 2).as_str());
            let mut after = spaces(gap - gap / 2);
            after.append(" ");
            header.push((before, title.to_owned(), after));
            proof {
                assert(widths@[n as int] == self.width_of(rows@, n as int));
                assert(cell_view(header@[n as int]) =~= title_cell(
                    self.titles@[n as int]@,
                    self.width_of(rows@, n as int),
                ));
            }
            n += 1;
        }
        let mut lines: Vec<(Vec<String>, Option<RowStyle>)> = Vec::new();
        let mut r: usize = 0;
        while r < rows.len()
            invariant
                r <= rows@.len(),
                widths@.len() == self.titles@.len(),
                forall|q: int| 0 <= q < rows@.len() ==> (#[trigger] rows@[q]).fields@.len()
                    <= self.titles@.len(),
                forall|m: int|
                    0 <= m < widths@.len() ==> #[trigger] widths@[m] == self.width_of(rows@, m),
                lines@.len() == r,
                forall|q: int|
                    0 <= q < r ==> (#[trigger] lines@[q]).1 == rows@[q].style && lines@[q].0@.len()
                        == rows@[q].fields@.len(),
                forall|q: int, m: int|
                    0 <= q < r && 0 <= m < rows@[q].fields@.len() ==> (
                    #[trigger] lines@[q].0@[m])@ == text_cell(
                        rows@[q].fields@[m]@,
                        self.width_of(rows@, m),
                        alignment_in(self.alignments@, self.titles@[m]@),
                    ),
            decreases rows@.len() - r,
        {
            let row = &rows[r];
            let mut cells: Vec<String> = Vec::new();
            let mut m: usize = 0;
            while m < row.fields.len()
                invariant
                    m <= row.fields@.len() <= self.titles@.len(),
                    widths@.len() == self.titles@.len(),
                    forall|k: int|
                        0 <= k < widths@.len() ==> #[trigger] widths@[k] == self.width_of(rows@, k),
                    cells@.len() == m,
                    forall|k: int|
                        0 <= k < m ==> (#[trigger] cells@[k])@ == text_cell(
                            row.fields@[k]@,
                            self.width_of(rows@, k),
                            alignment_in(self.alignments@, self.titles@[k]@),
                        ),
                decreases row.fields@.len() - m,
            {
                let width = widths[m];
                let alignment = self.alignment_of(self.titles[m].as_str());
                let text = row.fields[m].as_str();
                let short = if width == 0 {
                    text.to_owned()
                } else {
                    text.ellipsize(width)
                };
                proof {
                    reveal_strlit(" ");
                }
                let mut cell = " ".to_owned();
                cell.append(pad(short.as_str(), width, alignment).as_str());
                cell.append(" ");
                proof {
                    assert(widths@[m as int] == self.width_of(rows@, m as int));
                    assert(cell@ =~= text_cell(
                        row.fields@[m as int]@,
                        self.width_of(rows@, m as int),
                        alignment_in(self.alignments@, self.titles@[m as int]@),
                    ));
                }
                cells.push(cell);
                m += 1;
            }
            lines.push((cells, row.style));
            r += 1;
        }
        Ok(Table { header, rows: lines })
    }

    /// The sum of the widths of the columns of a table with the rows
    /// `rows`.
    pub open spec fn total_width(self, rows: Seq<PrintRow>) -> int {
        self.total_upto(rows, self.titles@.len() as int)
    }

    /// The sum of the widths of the first `n` columns.
    pub open spec fn total_upto(self, rows: Seq<PrintRow>, n: int) -> int
        decreases n,
    {
        if n <= 0 {
            0
        } else {
            self.total_upto(rows, n - 1) + self.width_of(rows, n - 1)
        }
    }
}

/// The three parts of a cell of the header, as texts.
pub open spec fn cell_view(cell: (String, String, String)) -> (Seq<char>, Seq<char>, Seq<char>) {
    (cell.0@, cell.1@, cell.2@)
}

/// A title in the middle of a column of the width `width`, with a blank on
/// either side of the column: the blanks before the title, the title, and
/// the blanks behind it, of which there is one more where they cannot be
/// as many as before it.
pub open spec fn title_cell(title: Seq<char>, width: nat) -> (Seq<char>, Seq<char>, Seq<char>) {
    let gap = if width > title.len() {
        (width - title.len()) as nat
    } else {
        0
    };
    (seq![' '] + blanks(gap / 2), title, blanks((gap - gap / 2) as nat) + seq![' '])
}

/// A text in a column of the width `width`: cut down to the width, aligned
/// in the column, and with a blank on either side.
pub open spec fn text_cell(text: Seq<char>, width: nat, alignment: Alignment) -> Seq<char> {
    let short = if width == 0 {
        text
    } else {
        spec_ellipsize(text, width as usize)
    };
    seq![' '] + padded(short, width, alignment) + seq![' ']
}

/// The sum of the widths that were computed is the sum of the widths of
/// the columns.
pub proof fn lemma_total_same(widths: Seq<usize>, printer: &TablePrinter, rows: Seq<PrintRow>, n: int)
    requires
        0 <= n <= widths.len(),
        forall|m: int| 0 <= m < widths.len() ==> #[trigger] widths[m] == printer.width_of(rows, m),
    ensures
        total(widths, n) == printer.total_upto(rows, n),
    decreases n,
{
    if n > 0 {
        lemma_total_same(widths, printer, rows, n - 1);
    }
}

/// The sum of more widths is no smaller.
pub proof fn lemma_total_grows(widths: Seq<usize>, m: int, n: int)
    requires
        0 <= m <= n,
    ensures
        total(widths, m) <= total(widths, n),
    decreases n - m,
{
    if m < n {
        lemma_total_grows(widths, m, n - 1);
    }
}

} // verus!
