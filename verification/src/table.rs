//! Table formatting: column widths, cell alignment and box drawing.
//! The table's text is built and verified here; printing it is one
//! `println` away, outside the library.

use vstd::prelude::*;
use vstd::string::StrSliceExecFns;
use vstd::string::StringExecFns;
use crate::strutil::{char_repeat, push_char, repeat_char};
use crate::unicode::{display_width, spec_display_width};

verus! {

/// Box drawing styles.
#[derive(Debug, Clone, Copy, PartialEq, Eq, Structural)]
pub enum BoxStyle {
    /// Single lines
    Single,
    /// Double lines
    Double,
    /// Heavy lines
    Heavy,
    /// Rounded corners with single lines
    Rounded,
    /// Plain characters only
    Ascii,
}

/// The characters a box style draws with.
#[derive(Debug, Clone, Copy, PartialEq, Eq, Structural)]
pub struct BoxChars {
    /// Top left corner
    pub top_left: char,
    /// Top right corner
    pub top_right: char,
    /// Bottom left corner
    pub bottom_left: char,
    /// Bottom right corner
    pub bottom_right: char,
    /// Horizontal line
    pub horizontal: char,
    /// Vertical line
    pub vertical: char,
    /// Four-way junction
    pub cross: char,
    /// Junction opening downwards
    pub t_down: char,
    /// Junction opening upwards
    pub t_up: char,
    /// Junction opening rightwards
    pub t_right: char,
    /// Junction opening leftwards
    pub t_left: char,
}

/// The character set of each box style.
pub open spec fn spec_chars(s: BoxStyle) -> BoxChars {
    match s {
        BoxStyle::Single => BoxChars {
            top_left: '\u{250C}',
            top_right: '\u{2510}',
            bottom_left: '\u{2514}',
            bottom_right: '\u{2518}',
            horizontal: '\u{2500}',
            vertical: '\u{2502}',
            cross: '\u{253C}',
            t_down: '\u{252C}',
            t_up: '\u{2534}',
            t_right: '\u{251C}',
            t_left: '\u{2524}',
        },
        BoxStyle::Double => BoxChars {
            top_left: '\u{2554}',
            top_right: '\u{2557}',
            bottom_left: '\u{255A}',
            bottom_right: '\u{255D}',
            horizontal: '\u{2550}',
            vertical: '\u{2551}',
            cross: '\u{256C}',
            t_down: '\u{2566}',
            t_up: '\u{2569}',
            t_right: '\u{2560}',
            t_left: '\u{2563}',
        },
        BoxStyle::Heavy => BoxChars {
            top_left: '\u{250F}',
            top_right: '\u{2513}',
            bottom_left: '\u{2517}',
            bottom_right: '\u{251B}',
            horizontal: '\u{2501}',
            vertical: '\u{2503}',
            cross: '\u{254B}',
            t_down: '\u{2533}',
            t_up: '\u{253B}',
            t_right: '\u{2523}',
            t_left: '\u{252B}',
        },
        BoxStyle::Rounded => BoxChars {
            top_left: '\u{256D}',
            top_right: '\u{256E}',
            bottom_left: '\u{2570}',
            bottom_right: '\u{256F}',
            horizontal: '\u{2500}',
            vertical: '\u{2502}',
            cross: '\u{253C}',
            t_down: '\u{252C}',
            t_up: '\u{2534}',
            t_right: '\u{251C}',
            t_left: '\u{2524}',
        },
        BoxStyle::Ascii => BoxChars {
            top_left: '+',
            top_right: '+',
            bottom_left: '+',
            bottom_right: '+',
            horizontal: '-',
            vertical: '|',
            cross: '+',
            t_down: '+',
            t_up: '+',
            t_right: '+',
            t_left: '+',
        },
    }
}

impl BoxStyle {
    /// The characters this style draws with.
    pub fn chars(&self) -> (r: BoxChars)
        ensures
            r == spec_chars(*self),
    {
        match self {
            BoxStyle::Single => BoxChars {
                top_left: '\u{250C}',
                top_right: '\u{2510}',
                bottom_left: '\u{2514}',
                bottom_right: '\u{2518}',
                horizontal: '\u{2500}',
                vertical: '\u{2502}',
                cross: '\u{253C}',
                t_down: '\u{252C}',
                t_up: '\u{2534}',
                t_right: '\u{251C}',
                t_left: '\u{2524}',
            },
            BoxStyle::Double => BoxChars {
                top_left: '\u{2554}',
                top_right: '\u{2557}',
                bottom_left: '\u{255A}',
                bottom_right: '\u{255D}',
                horizontal: '\u{2550}',
                vertical: '\u{2551}',
                cross: '\u{256C}',
                t_down: '\u{2566}',
                t_up: '\u{2569}',
                t_right: '\u{2560}',
                t_left: '\u{2563}',
            },
            BoxStyle::Heavy => BoxChars {
                top_left: '\u{250F}',
                top_right: '\u{2513}',
                bottom_left: '\u{2517}',
                bottom_right: '\u{251B}',
                horizontal: '\u{2501}',
                vertical: '\u{2503}',
                cross: '\u{254B}',
                t_down: '\u{2533}',
                t_up: '\u{253B}',
                t_right: '\u{2523}',
                t_left: '\u{252B}',
            },
            BoxStyle::Rounded => BoxChars {
                top_left: '\u{256D}',
                top_right: '\u{256E}',
                bottom_left: '\u{2570}',
                bottom_right: '\u{256F}',
                horizontal: '\u{2500}',
                vertical: '\u{2502}',
                cross: '\u{253C}',
                t_down: '\u{252C}',
                t_up: '\u{2534}',
                t_right: '\u{251C}',
                t_left: '\u{2524}',
            },
            BoxStyle::Ascii => BoxChars {
                top_left: '+',
                top_right: '+',
                bottom_left: '+',
                bottom_right: '+',
                horizontal: '-',
                vertical: '|',
                cross: '+',
                t_down: '+',
                t_up: '+',
                t_right: '+',
                t_left: '+',
            },
        }
    }
}

/// Text alignment within a cell.
#[derive(Debug, Clone, Copy, PartialEq, Eq, Structural)]
pub enum Alignment {
    /// Left-aligned
    Left,
    /// Right-aligned
    Right,
    /// Center-aligned
    Center,
}

/// The display width of a cell, clamped to what `usize` can hold.
pub open spec fn cell_width(s: Seq<char>) -> int {
    if spec_display_width(s) <= usize::MAX {
        spec_display_width(s)
    } else {
        usize::MAX as int
    }
}

/// A cell's width never exceeds twice its character count, so any
/// column grown from cells of reasonable length can be drawn.
pub proof fn lemma_cell_width_bound(s: Seq<char>)
    ensures
        0 <= cell_width(s) <= 2 * s.len(),
{
    crate::unicode::lemma_display_width_bound(s);
}

/// A cell padded with spaces to the column width, under the column's
/// alignment; text wider than the column is kept whole.
pub open spec fn spec_format_cell(text: Seq<char>, width: int, alignment: Alignment) -> Seq<
    char,
> {
    let w = cell_width(text);
    let padding = if width >= w {
        width - w
    } else {
        0
    };
    match alignment {
        Alignment::Left => text + repeat_char(' ', padding as nat),
        Alignment::Right => repeat_char(' ', padding as nat) + text,
        Alignment::Center => repeat_char(' ', (padding / 2) as nat) + text + repeat_char(
            ' ',
            (padding - padding / 2) as nat,
        ),
    }
}

/// A formatted table: headers, rows, and per-column widths and
/// alignments kept in step with the content.
#[derive(Debug)]
pub struct Table {
    /// Column headers
    pub headers: Vec<String>,
    /// Data rows
    pub rows: Vec<Vec<String>>,
    /// The width of each column: the widest cell seen in it
    pub col_widths: Vec<usize>,
    /// The alignment of each column
    pub col_alignments: Vec<Alignment>,
    /// The box drawing style
    pub box_style: BoxStyle,
    /// Spaces before each line
    pub indent: usize,
    /// Whether a line separates the header row from the data
    pub has_header_separator: bool,
    /// Whether a line separates the last row from the rest
    pub has_footer_separator: bool,
}

impl Table {
    /// Creates a table with the given headers; every column starts as
    /// wide as its header and left-aligned.
    pub fn new(headers: Vec<&str>) -> (r: Table)
        ensures
            r.headers.deep_view() == headers.deep_view(),
            r.col_widths@.len() == headers@.len(),
            forall|i: int|
                0 <= i < headers@.len() ==> r.col_widths@[i] as int == cell_width(
                    headers.deep_view()[i],
                ),
            r.col_alignments@.len() == headers@.len(),
            forall|i: int| 0 <= i < headers@.len() ==> r.col_alignments@[i] == Alignment::Left,
            r.rows@.len() == 0,
            r.box_style == BoxStyle::Single,
            r.indent == 3,
            r.has_header_separator,
            !r.has_footer_separator,
    {
        let mut owned: Vec<String> = Vec::new();
        let mut widths: Vec<usize> = Vec::new();
        let mut aligns: Vec<Alignment> = Vec::new();
        let n = headers.len();
        let mut i: usize = 0;
        while i < n
            invariant
                0 <= i <= n,
                n == headers@.len(),
                owned@.len() == i,
                widths@.len() == i,
                aligns@.len() == i,
                forall|j: int| 0 <= j < i ==> owned@[j]@ == headers@[j]@,
                forall|j: int|
                    0 <= j < i ==> widths@[j] as int == cell_width(headers@[j]@),
                forall|j: int| 0 <= j < i ==> aligns@[j] == Alignment::Left,
            decreases n - i,
        {
            let h = headers[i];
            let w = display_width(h);
            owned.push(String::from_str(h));
            widths.push(w);
            aligns.push(Alignment::Left);
            i = i + 1;
        }
        let r = Table {
            headers: owned,
            rows: Vec::new(),
            col_widths: widths,
            col_alignments: aligns,
            box_style: BoxStyle::Single,
            indent: 3,
            has_header_separator: true,
            has_footer_separator: false,
        };
        proof {
            assert(r.headers.deep_view() =~= headers.deep_view());
            assert(forall|j: int|
                0 <= j < n ==> headers.deep_view()[j] == headers@[j]@);
        }
        r
    }

    /// Adds a row; every column it touches grows to the width of its
    /// widest cell.
    pub fn add_row(&mut self, row: Vec<&str>)
        ensures
            final(self).rows@.len() == old(self).rows@.len() + 1,
            final(self).rows.deep_view() == old(self).rows.deep_view().push(row.deep_view()),
            final(self).col_widths@.len() == old(self).col_widths@.len(),
            forall|i: int|
                0 <= i < final(self).col_widths@.len() ==> final(self).col_widths@[i] as int == (
                if i < row@.len() && cell_width(row.deep_view()[i]) > old(self).col_widths@[i] {
                    cell_width(row.deep_view()[i])
                } else {
                    old(self).col_widths@[i] as int
                }),
            final(self).headers == old(self).headers,
            final(self).col_alignments == old(self).col_alignments,
            final(self).box_style == old(self).box_style,
            final(self).indent == old(self).indent,
            final(self).has_header_separator == old(self).has_header_separator,
            final(self).has_footer_separator == old(self).has_footer_separator,
    {
        let n = row.len();
        let mut i: usize = 0;
        while i < n
            invariant
                0 <= i <= n,
                n == row@.len(),
                self.headers == old(self).headers,
                self.rows == old(self).rows,
                self.col_alignments == old(self).col_alignments,
                self.box_style == old(self).box_style,
                self.indent == old(self).indent,
                self.has_header_separator == old(self).has_header_separator,
                self.has_footer_separator == old(self).has_footer_separator,
                self.col_widths@.len() == old(self).col_widths@.len(),
                forall|j: int|
                    0 <= j < self.col_widths@.len() ==> self.col_widths@[j] as int == (if j < i && j
                        < row@.len() && cell_width(row.deep_view()[j]) > old(
                        self,
                    ).col_widths@[j] {
                        cell_width(row.deep_view()[j])
                    } else {
                        old(self).col_widths@[j] as int
                    }),
            decreases n - i,
        {
            if i < self.col_widths.len() {
                let w = display_width(row[i]);
                proof {
                    assert(row.deep_view()[i as int] == row@[i as int]@);
                }
                if w > self.col_widths[i] {
                    let mut widths: Vec<usize> = Vec::new();
                    core::mem::swap(&mut widths, &mut self.col_widths);
                    widths.set(i, w);
                    self.col_widths = widths;
                }
            }
            i = i + 1;
        }
        let mut owned: Vec<String> = Vec::new();
        let mut k: usize = 0;
        while k < n
            invariant
                0 <= k <= n,
                n == row@.len(),
                owned@.len() == k,
                forall|j: int| 0 <= j < k ==> owned@[j]@ == row@[j]@,
            decreases n - k,
        {
            owned.push(String::from_str(row[k]));
            k = k + 1;
        }
        proof {
            assert(owned.deep_view() =~= row.deep_view());
        }
        let ghost prev = self.rows;
        let mut rows: Vec<Vec<String>> = Vec::new();
        core::mem::swap(&mut rows, &mut self.rows);
        rows.push(owned);
        self.rows = rows;
        proof {
            crate::command::lemma_deep_view_push(prev, self.rows, self.rows@[prev@.len() as int]);
            assert(self.rows.deep_view() =~= old(self).rows.deep_view().push(row.deep_view()));
        }
    }

    /// Sets the box drawing style.
    pub fn set_box_style(&mut self, style: BoxStyle)
        ensures
            *final(self) == (Table { box_style: style, ..*old(self) }),
    {
        self.box_style = style;
    }

    /// Sets the number of spaces before each line.
    pub fn set_indent(&mut self, indent: usize)
        ensures
            *final(self) == (Table { indent, ..*old(self) }),
    {
        self.indent = indent;
    }

    /// Sets one column's alignment; an index past the columns does
    /// nothing.
    pub fn set_column_alignment(&mut self, col_index: usize, alignment: Alignment)
        ensures
            col_index < old(self).col_alignments@.len() ==> final(self).col_alignments@ == old(
                self,
            ).col_alignments@.update(col_index as int, alignment),
            col_index >= old(self).col_alignments@.len() ==> final(self).col_alignments == old(
                self,
            ).col_alignments,
            final(self).headers == old(self).headers,
            final(self).rows == old(self).rows,
            final(self).col_widths == old(self).col_widths,
            final(self).box_style == old(self).box_style,
            final(self).indent == old(self).indent,
            final(self).has_header_separator == old(self).has_header_separator,
            final(self).has_footer_separator == old(self).has_footer_separator,
    {
        if col_index < self.col_alignments.len() {
            let mut aligns: Vec<Alignment> = Vec::new();
            core::mem::swap(&mut aligns, &mut self.col_alignments);
            aligns.set(col_index, alignment);
            self.col_alignments = aligns;
        }
    }

    /// Turns the separator under the header row on or off.
    pub fn set_header_separator(&mut self, enabled: bool)
        ensures
            *final(self) == (Table { has_header_separator: enabled, ..*old(self) }),
    {
        self.has_header_separator = enabled;
    }

    /// Turns the separator before the last row on or off.
    pub fn set_footer_separator(&mut self, enabled: bool)
        ensures
            *final(self) == (Table { has_footer_separator: enabled, ..*old(self) }),
    {
        self.has_footer_separator = enabled;
    }

    /// A cell padded to the column width under the given alignment.
    pub fn format_cell(&self, text: &str, width: usize, alignment: Alignment) -> (r: String)
        ensures
            r@ == spec_format_cell(text@, width as int, alignment),
    {
        let text_width = display_width(text);
        let padding = if width >= text_width {
            width - text_width
        } else {
            0
        };
        match alignment {
            Alignment::Left => {
                let mut out = String::from_str(text);
                let fill = char_repeat(' ', padding);
                out.append(fill.as_str());
                out
            },
            Alignment::Right => {
                let mut out = char_repeat(' ', padding);
                out.append(text);
                out
            },
            Alignment::Center => {
                let left_pad = padding / 2;
                let right_pad = padding - left_pad;
                let mut out = char_repeat(' ', left_pad);
                out.append(text);
                let fill = char_repeat(' ', right_pad);
                out.append(fill.as_str());
                out
            },
        }
    }
}


/// The rule segments across the columns: each column's width plus the
/// cell padding, with a junction between columns.
pub open spec fn spec_rule_segments(h: char, j: char, widths: Seq<usize>, k: int) -> Seq<char>
    decreases widths.len() - k,
{
    if k < 0 || k >= widths.len() {
        Seq::empty()
    } else {
        repeat_char(h, (widths[k] + 2) as nat) + (if k < widths.len() - 1 {
            seq![j]
        } else {
            Seq::empty()
        }) + spec_rule_segments(h, j, widths, k + 1)
    }
}

/// One horizontal rule line of the table.
pub open spec fn spec_rule_line(
    indent: int,
    left: char,
    h: char,
    j: char,
    right: char,
    widths: Seq<usize>,
) -> Seq<char> {
    repeat_char(' ', indent as nat) + seq![left] + spec_rule_segments(h, j, widths, 0)
        + seq![right] + "\n"@
}

/// The cells of one row, each padded to its column and fenced by the
/// vertical line; extra cells beyond the columns are dropped, missing
/// ones leave their columns out.
pub open spec fn spec_row_cells(
    v: char,
    cells: Seq<Seq<char>>,
    widths: Seq<usize>,
    als: Seq<Alignment>,
    k: int,
) -> Seq<char>
    decreases widths.len() - k,
{
    if k < 0 || k >= widths.len() || k >= cells.len() || k >= als.len() {
        Seq::empty()
    } else {
        seq![' '] + spec_format_cell(cells[k], widths[k] as int, als[k]) + seq![' '] + seq![v]
            + spec_row_cells(v, cells, widths, als, k + 1)
    }
}

/// One content line of the table.
pub open spec fn spec_row_line(
    indent: int,
    v: char,
    cells: Seq<Seq<char>>,
    widths: Seq<usize>,
    als: Seq<Alignment>,
) -> Seq<char> {
    repeat_char(' ', indent as nat) + seq![v] + spec_row_cells(v, cells, widths, als, 0) + "\n"@
}

/// The data rows from `k` on, with the footer separator drawn before
/// the last row when enabled and there are at least two rows.
pub open spec fn spec_data_rows(t: Table, k: int) -> Seq<char>
    decreases t.rows@.len() - k,
{
    let bc = spec_chars(t.box_style);
    if k < 0 || k >= t.rows@.len() {
        Seq::empty()
    } else {
        spec_row_line(
            t.indent as int,
            bc.vertical,
            t.rows.deep_view()[k],
            t.col_widths@,
            t.col_alignments@,
        ) + (if t.has_footer_separator && t.rows@.len() >= 2 && k == t.rows@.len() - 2 {
            spec_rule_line(
                t.indent as int,
                bc.t_right,
                bc.horizontal,
                bc.cross,
                bc.t_left,
                t.col_widths@,
            )
        } else {
            Seq::empty()
        }) + spec_data_rows(t, k + 1)
    }
}

/// The whole table text: top border, header row, the separator under
/// it when enabled, the data rows, and the bottom border.
pub open spec fn spec_table_text(t: Table) -> Seq<char> {
    let bc = spec_chars(t.box_style);
    spec_rule_line(t.indent as int, bc.top_left, bc.horizontal, bc.t_down, bc.top_right,
        t.col_widths@,
    ) + spec_row_line(
        t.indent as int,
        bc.vertical,
        t.headers.deep_view(),
        t.col_widths@,
        t.col_alignments@,
    ) + (if t.has_header_separator {
        spec_rule_line(
            t.indent as int,
            bc.t_right,
            bc.horizontal,
            bc.cross,
            bc.t_left,
            t.col_widths@,
        )
    } else {
        Seq::empty()
    }) + spec_data_rows(t, 0) + spec_rule_line(
        t.indent as int,
        bc.bottom_left,
        bc.horizontal,
        bc.t_up,
        bc.bottom_right,
        t.col_widths@,
    )
}

impl Table {
    /// One horizontal rule line, appended to `out`.
    fn render_rule(&self, out: &mut String, left: char, h: char, j: char, right: char)
        requires
            forall|k: int|
                0 <= k < self.col_widths@.len() ==> (#[trigger] self.col_widths@[k]) + 2
                    <= usize::MAX,
        ensures
            final(out)@ == old(out)@ + spec_rule_line(
                self.indent as int,
                left,
                h,
                j,
                right,
                self.col_widths@,
            ),
    {
        let pad = char_repeat(' ', self.indent);
        out.append(pad.as_str());
        push_char(out, left);
        let ghost widths = self.col_widths@;
        let ghost base = out@;
        let n = self.col_widths.len();
        let mut k: usize = 0;
        while k < n
            invariant
                0 <= k <= n,
                n == self.col_widths@.len(),
                widths == self.col_widths@,
                forall|x: int| 0 <= x < n ==> (#[trigger] widths[x]) + 2 <= usize::MAX,
                base + spec_rule_segments(h, j, widths, 0) == out@ + spec_rule_segments(
                    h,
                    j,
                    widths,
                    k as int,
                ),
            decreases n - k,
        {
            let ghost o0 = out@;
            let seg = char_repeat(h, self.col_widths[k] + 2);
            out.append(seg.as_str());
            if k + 1 < n {
                push_char(out, j);
            }
            proof {
                assert(base + spec_rule_segments(h, j, widths, 0) =~= out@ + spec_rule_segments(
                    h,
                    j,
                    widths,
                    k + 1,
                ));
            }
            k = k + 1;
        }
        push_char(out, right);
        out.append("\n");
        proof {
            assert(out@ =~= old(out)@ + spec_rule_line(
                self.indent as int,
                left,
                h,
                j,
                right,
                self.col_widths@,
            ));
        }
    }

    /// One content line, appended to `out`.
    fn render_row(&self, out: &mut String, cells: &Vec<String>, v: char)
        ensures
            final(out)@ == old(out)@ + spec_row_line(
                self.indent as int,
                v,
                cells.deep_view(),
                self.col_widths@,
                self.col_alignments@,
            ),
    {
        let pad = char_repeat(' ', self.indent);
        out.append(pad.as_str());
        push_char(out, v);
        let ghost widths = self.col_widths@;
        let ghost als = self.col_alignments@;
        let ghost cv = cells.deep_view();
        let ghost base = out@;
        let mut n = self.col_widths.len();
        if cells.len() < n {
            n = cells.len();
        }
        if self.col_alignments.len() < n {
            n = self.col_alignments.len();
        }
        let mut k: usize = 0;
        while k < n
            invariant
                0 <= k <= n,
                widths == self.col_widths@,
                als == self.col_alignments@,
                cv == cells.deep_view(),
                n <= widths.len() && n <= cv.len() && n <= als.len(),
                n == widths.len() || n == cv.len() || n == als.len(),
                base + spec_row_cells(v, cv, widths, als, 0) == out@ + spec_row_cells(
                    v,
                    cv,
                    widths,
                    als,
                    k as int,
                ),
            decreases n - k,
        {
            proof {
                assert(cv[k as int] == cells@[k as int]@);
            }
            let formatted = self.format_cell(
                cells[k].as_str(),
                self.col_widths[k],
                self.col_alignments[k],
            );
            push_char(out, ' ');
            out.append(formatted.as_str());
            push_char(out, ' ');
            push_char(out, v);
            proof {
                assert(base + spec_row_cells(v, cv, widths, als, 0) =~= out@ + spec_row_cells(
                    v,
                    cv,
                    widths,
                    als,
                    k + 1,
                ));
            }
            k = k + 1;
        }
        out.append("\n");
        proof {
            assert(spec_row_cells(v, cv, widths, als, n as int) == Seq::<char>::empty());
            assert(out@ =~= old(out)@ + spec_row_line(self.indent as int, v, cv, widths, als));
        }
    }

    /// The whole table as text, one line per row plus the borders, as
    /// `spec_table_text` lays it out.
    pub fn render(&self) -> (r: String)
        requires
            forall|k: int|
                0 <= k < self.col_widths@.len() ==> (#[trigger] self.col_widths@[k]) + 2
                    <= usize::MAX,
        ensures
            r@ == spec_table_text(*self),
    {
        let bc = self.box_style.chars();
        let mut out = String::new();
        self.render_rule(&mut out, bc.top_left, bc.horizontal, bc.t_down, bc.top_right);
        self.render_row(&mut out, &self.headers, bc.vertical);
        if self.has_header_separator {
            self.render_rule(&mut out, bc.t_right, bc.horizontal, bc.cross, bc.t_left);
        }
        let ghost base = out@;
        let nrows = self.rows.len();
        let mut k: usize = 0;
        while k < nrows
            invariant
                0 <= k <= nrows,
                nrows == self.rows@.len(),
                bc == spec_chars(self.box_style),
                forall|x: int|
                    0 <= x < self.col_widths@.len() ==> (#[trigger] self.col_widths@[x]) + 2
                        <= usize::MAX,
                base + spec_data_rows(*self, 0) == out@ + spec_data_rows(*self, k as int),
            decreases nrows - k,
        {
            let ghost o0 = out@;
            let ghost bcg = spec_chars(self.box_style);
            let ghost row = spec_row_line(
                self.indent as int,
                bcg.vertical,
                self.rows.deep_view()[k as int],
                self.col_widths@,
                self.col_alignments@,
            );
            let ghost foot = (if self.has_footer_separator && self.rows@.len() >= 2 && k as int
                == self.rows@.len() - 2 {
                spec_rule_line(
                    self.indent as int,
                    bcg.t_right,
                    bcg.horizontal,
                    bcg.cross,
                    bcg.t_left,
                    self.col_widths@,
                )
            } else {
                Seq::<char>::empty()
            });
            proof {
                assert(self.rows.deep_view()[k as int] == self.rows@[k as int].deep_view());
            }
            self.render_row(&mut out, &self.rows[k], bc.vertical);
            if self.has_footer_separator && nrows >= 2 && k == nrows - 2 {
                self.render_rule(&mut out, bc.t_right, bc.horizontal, bc.cross, bc.t_left);
            }
            proof {
                assert(out@ =~= o0 + row + foot);
                assert(spec_data_rows(*self, k as int) == row + foot + spec_data_rows(
                    *self,
                    k + 1,
                ));
                assert(base + spec_data_rows(*self, 0) =~= out@ + spec_data_rows(*self, k + 1));
            }
            k = k + 1;
        }
        self.render_rule(&mut out, bc.bottom_left, bc.horizontal, bc.t_up, bc.bottom_right);
        proof {
            assert(spec_data_rows(*self, nrows as int) == Seq::<char>::empty());
            assert(out@ =~= spec_table_text(*self));
        }
        out
    }
}

} // verus!
