//! Terminal queries.  Cursor movement, clearing and positioned printing
//! write control sequences to the standard output and live with the
//! other input/output shims, outside the library.

use vstd::prelude::*;

verus! {

/// Terminal utilities.
#[derive(Debug)]
pub struct Terminal;

impl Terminal {
    /// The terminal size as columns and rows.  Size detection is not
    /// wired to the operating system; a conventional 80 by 24 surface
    /// is reported.
    pub fn size() -> (r: Option<(u16, u16)>)
        ensures
            r == Some((80u16, 24u16)),
    {
        Some((80, 24))
    }
}

} // verus!
