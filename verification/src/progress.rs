//! Progress bars: the counters and the bar text are verified; drawing
//! the line, with its elapsed-time figures, lives with the other
//! input/output shims, outside the library.

use vstd::prelude::*;
use crate::strutil::{char_repeat, push_char, repeat_char};

verus! {

/// The visual shape of the bar.
#[derive(Debug, Clone, Copy, PartialEq, Eq)]
pub enum ProgressStyle {
    /// `[==========          ]`
    Classic,
    /// `[=========>          ]`
    Arrow,
    /// `[**********          ]`
    Dots,
    /// `[/|/|/|/|            ]` with a turning spinner
    Spinner,
}

impl Default for ProgressStyle {
    /// The classic shape.
    fn default() -> (r: Self)
        ensures
            r == ProgressStyle::Classic,
    {
        ProgressStyle::Classic
    }
}

/// A progress bar over a fixed number of steps.
#[derive(Debug)]
pub struct ProgressBar {
    /// Total number of steps
    pub total: u64,
    /// The position reached so far
    pub current: u64,
    /// The width of the bar in characters
    pub width: u16,
    /// The visual shape
    pub style: ProgressStyle,
    /// The spinner's animation frame
    pub spinner_frame: usize,
}

/// The spinner character for an animation frame.
pub open spec fn spec_spinner_char(frame: int) -> char {
    if frame == 0 {
        '/'
    } else if frame == 1 {
        '|'
    } else if frame == 2 {
        '\\'
    } else {
        '|'
    }
}

/// The bar text for a shape, given the filled and empty widths.  The
/// spinner uses the frame it was advanced to.
pub open spec fn spec_bar(
    style: ProgressStyle,
    width: int,
    filled: int,
    empty: int,
    frame: int,
) -> Seq<char> {
    match style {
        ProgressStyle::Classic => repeat_char('=', filled as nat) + repeat_char(' ', empty as nat),
        ProgressStyle::Arrow => {
            if filled == 0 {
                repeat_char(' ', width as nat)
            } else if filled >= width {
                repeat_char('=', width as nat)
            } else {
                repeat_char('=', (filled - 1) as nat) + seq!['>'] + repeat_char(' ', empty as nat)
            }
        },
        ProgressStyle::Dots => repeat_char('*', filled as nat) + repeat_char(' ', empty as nat),
        ProgressStyle::Spinner => {
            let shown = if filled < width {
                filled
            } else {
                width
            };
            repeat_char(spec_spinner_char(frame), shown as nat) + repeat_char(
                ' ',
                (width - shown) as nat,
            )
        },
    }
}

impl ProgressBar {
    /// Creates a bar over the given number of steps, forty characters
    /// wide, in the classic shape.
    pub fn new(total: u64) -> (r: Self)
        ensures
            r.total == total,
            r.current == 0,
            r.width == 40,
            r.style == ProgressStyle::Classic,
            r.spinner_frame == 0,
    {
        ProgressBar {
            total,
            current: 0,
            width: 40,
            style: ProgressStyle::Classic,
            spinner_frame: 0,
        }
    }

    /// Sets the width of the bar.
    pub fn width(self, width: u16) -> (r: Self)
        ensures
            r == (ProgressBar { width, ..self }),
    {
        let mut s = self;
        s.width = width;
        s
    }

    /// Sets the visual shape.
    pub fn with_style(self, style: ProgressStyle) -> (r: Self)
        ensures
            r == (ProgressBar { style, ..self }),
    {
        let mut s = self;
        s.style = style;
        s
    }

    /// Moves the bar to the given position; moving backwards is
    /// allowed.
    pub fn set(&mut self, position: u64)
        ensures
            *final(self) == (ProgressBar { current: position, ..*old(self) }),
    {
        self.current = position;
    }

    /// Advances the bar, never beyond the total; an advance past the
    /// largest representable position stops at the total as well.
    pub fn inc(&mut self, amount: u64)
        ensures
            final(self).current == (if old(self).current + amount <= u64::MAX && old(
                self,
            ).current + amount <= old(self).total {
                old(self).current + amount
            } else {
                old(self).total as int
            }),
            final(self).total == old(self).total,
            final(self).width == old(self).width,
            final(self).style == old(self).style,
            final(self).spinner_frame == old(self).spinner_frame,
    {
        if amount <= u64::MAX - self.current {
            let sum = self.current + amount;
            self.current = if sum <= self.total {
                sum
            } else {
                self.total
            };
        } else {
            self.current = self.total;
        }
    }

    /// Builds the bar text for the given filled and empty widths; the
    /// spinner style advances its frame by one.
    pub fn build_bar(&mut self, filled_width: u16, empty_width: u16) -> (r: String)
        ensures
            final(self).spinner_frame == (if old(self).style is Spinner {
                (old(self).spinner_frame + 1) % 4int
            } else {
                old(self).spinner_frame as int
            }),
            final(self).total == old(self).total && final(self).current == old(self).current
                && final(self).width == old(self).width && final(self).style == old(self).style,
            r@ == spec_bar(
                old(self).style,
                old(self).width as int,
                filled_width as int,
                empty_width as int,
                (old(self).spinner_frame + 1) % 4int,
            ),
    {
        match self.style {
            ProgressStyle::Classic => {
                let mut out = char_repeat('=', filled_width as usize);
                let tail = char_repeat(' ', empty_width as usize);
                out.append(tail.as_str());
                out
            },
            ProgressStyle::Dots => {
                let mut out = char_repeat('*', filled_width as usize);
                let tail = char_repeat(' ', empty_width as usize);
                out.append(tail.as_str());
                out
            },
            ProgressStyle::Arrow => {
                if filled_width == 0 {
                    char_repeat(' ', self.width as usize)
                } else if filled_width >= self.width {
                    char_repeat('=', self.width as usize)
                } else {
                    let mut out = char_repeat('=', (filled_width - 1) as usize);
                    push_char(&mut out, '>');
                    let tail = char_repeat(' ', empty_width as usize);
                    out.append(tail.as_str());
                    proof {
                        assert(out@ =~= spec_bar(
                            old(self).style,
                            old(self).width as int,
                            filled_width as int,
                            empty_width as int,
                            (old(self).spinner_frame + 1) % 4int,
                        ));
                    }
                    out
                }
            },
            ProgressStyle::Spinner => {
                let next_frame: usize = (self.spinner_frame % 4) + 1;
                let next_frame: usize = if next_frame == 4 {
                    0
                } else {
                    next_frame
                };
                self.spinner_frame = next_frame;
                proof {
                    assert(next_frame == (old(self).spinner_frame + 1) % 4);
                }
                let c = if next_frame == 0 {
                    '/'
                } else if next_frame == 1 {
                    '|'
                } else if next_frame == 2 {
                    '\\'
                } else {
                    '|'
                };
                let shown = if filled_width < self.width {
                    filled_width
                } else {
                    self.width
                };
                let mut out = char_repeat(c, shown as usize);
                let tail = char_repeat(' ', (self.width - shown) as usize);
                out.append(tail.as_str());
                out
            },
        }
    }
}

} // verus!
