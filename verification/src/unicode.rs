//! Terminal display width for strings: a pragmatic subset of the
//! Unicode rules, covering zero-width marks, East Asian wide
//! characters, emoji with their modifiers and joiners, regional
//! indicator pairs, and keycap sequences.

use vstd::prelude::*;
use vstd::string::StrSliceExecFns;

verus! {

/// Characters that take no terminal cell: variation selectors, joiners,
/// zero-width spaces and control characters.
pub open spec fn spec_zero_width(cp: u32) -> bool {
    (0xFE00 <= cp && cp <= 0xFE0F) || (0xE0100 <= cp && cp <= 0xE01EF) || cp == 0x200D || cp
        == 0x200C || cp == 0x200B || cp == 0xFEFF || cp <= 0x001F || (0x007F <= cp && cp <= 0x009F)
}

/// Combining marks, drawn over the preceding character.
pub open spec fn spec_combining_mark(cp: u32) -> bool {
    (0x0300 <= cp && cp <= 0x036F) || (0x1AB0 <= cp && cp <= 0x1AFF) || (0x1DC0 <= cp && cp
        <= 0x1DFF) || (0x20D0 <= cp && cp <= 0x20FF) || (0xFE20 <= cp && cp <= 0xFE2F)
}

/// Regional indicator symbols; a pair of them forms a flag.
pub open spec fn spec_regional_indicator(cp: u32) -> bool {
    0x1F1E6 <= cp && cp <= 0x1F1FF
}

/// Code points that start an emoji cluster.
pub open spec fn spec_emoji_base(cp: u32) -> bool {
    (0x1F600 <= cp && cp <= 0x1F64F) || (0x1F300 <= cp && cp <= 0x1F5FF) || (0x1F680 <= cp && cp
        <= 0x1F6FF) || (0x1F900 <= cp && cp <= 0x1F9FF) || (0x1FA70 <= cp && cp <= 0x1FAFF) || (
    0x1F100 <= cp && cp <= 0x1F1FF) || (0x1F200 <= cp && cp <= 0x1F2FF) || (0x2600 <= cp && cp
        <= 0x26FF) || (0x2700 <= cp && cp <= 0x27BF) || (0x1F0A0 <= cp && cp <= 0x1F0FF) || (
    0x1F000 <= cp && cp <= 0x1F02F) || (0x1F030 <= cp && cp <= 0x1F09F) || (0x25A0 <= cp && cp
        <= 0x25FF) || (0x2300 <= cp && cp <= 0x23FF)
}

/// Emoji skin-tone modifiers.
pub open spec fn spec_emoji_modifier(cp: u32) -> bool {
    0x1F3FB <= cp && cp <= 0x1F3FF
}

/// East Asian wide and fullwidth characters, two cells each.
pub open spec fn spec_wide_character(cp: u32) -> bool {
    (0x4E00 <= cp && cp <= 0x9FFF) || (0x3400 <= cp && cp <= 0x4DBF) || (0x20000 <= cp && cp
        <= 0x2EBEF) || (0xF900 <= cp && cp <= 0xFAFF) || (0x2F800 <= cp && cp <= 0x2FA1F) || (
    0xAC00 <= cp && cp <= 0xD7AF) || (0xA960 <= cp && cp <= 0xA97F) || (0xD7B0 <= cp && cp
        <= 0xD7FF) || (0xFF01 <= cp && cp <= 0xFF60) || (0xFFE0 <= cp && cp <= 0xFFE6) || (0xFF00
        <= cp && cp <= 0xFFEF) || (0x3040 <= cp && cp <= 0x309F) || (0x30A0 <= cp && cp <= 0x30FF)
        || (0x31F0 <= cp && cp <= 0x31FF) || (0x3100 <= cp && cp <= 0x312F) || (0x31A0 <= cp && cp
        <= 0x31BF) || (0x3190 <= cp && cp <= 0x319F) || (0x3200 <= cp && cp <= 0x32FF) || (0x3300
        <= cp && cp <= 0x33FF) || (0xA000 <= cp && cp <= 0xA48F) || (0xA490 <= cp && cp <= 0xA4CF)
}

/// Emoji that default to text presentation: one cell plain, two with a
/// variation selector.
pub open spec fn spec_text_default_emoji(cp: u32) -> bool {
    cp == 0x26A0 || cp == 0x263A || cp == 0x2709 || cp == 0x260E || cp == 0x270F
}

/// The display width of the characters of `s` from position `i` on:
/// one pass, left to right, grouping each cluster.
pub open spec fn spec_width_from(s: Seq<char>, i: int) -> int
    decreases s.len() - i, 0int,
{
    if i < 0 || i >= s.len() {
        0
    } else {
        let cp = s[i] as u32;
        if spec_zero_width(cp) {
            spec_width_from(s, i + 1)
        } else if spec_text_default_emoji(cp) {
            if i + 1 < s.len() && (s[i + 1] as u32) == 0xFE0F {
                2 + spec_width_from(s, i + 2)
            } else {
                1 + spec_width_from(s, i + 1)
            }
        } else if spec_regional_indicator(cp) && i + 1 < s.len() && spec_regional_indicator(
            s[i + 1] as u32,
        ) {
            2 + spec_width_from(s, i + 2)
        } else if spec_emoji_base(cp) || spec_wide_character(cp) {
            2 + spec_width_tail(s, i + 1)
        } else if ((0x30 <= cp && cp <= 0x39) || cp == 0x23 || cp == 0x2A) && i + 2 < s.len() && (
        s[i + 1] as u32) == 0xFE0F && (s[i + 2] as u32) == 0x20E3 {
            2 + spec_width_from(s, i + 3)
        } else {
            1 + spec_width_marks(s, i + 1)
        }
    }
}

/// Consumes the trailing parts of an emoji cluster: joiner pairs,
/// zero-width marks and skin-tone modifiers.
pub open spec fn spec_width_tail(s: Seq<char>, i: int) -> int
    decreases s.len() - i, 1int,
{
    if i < 0 || i >= s.len() {
        0
    } else {
        let cp = s[i] as u32;
        if cp == 0x200D {
            if i + 1 < s.len() {
                spec_width_tail(s, i + 2)
            } else {
                spec_width_from(s, i + 1)
            }
        } else if spec_zero_width(cp) || spec_emoji_modifier(cp) {
            spec_width_tail(s, i + 1)
        } else {
            spec_width_from(s, i)
        }
    }
}

/// Consumes combining marks after an ordinary character.
pub open spec fn spec_width_marks(s: Seq<char>, i: int) -> int
    decreases s.len() - i, 1int,
{
    if i < 0 || i >= s.len() {
        0
    } else if spec_combining_mark(s[i] as u32) {
        spec_width_marks(s, i + 1)
    } else {
        spec_width_from(s, i)
    }
}

/// The display width of a string in terminal cells.
pub open spec fn spec_display_width(s: Seq<char>) -> int {
    spec_width_from(s, 0)
}

fn zero_width(cp: u32) -> (r: bool)
    ensures
        r == spec_zero_width(cp),
{
    (0xFE00 <= cp && cp <= 0xFE0F) || (0xE0100 <= cp && cp <= 0xE01EF) || cp == 0x200D || cp
        == 0x200C || cp == 0x200B || cp == 0xFEFF || cp <= 0x001F || (0x007F <= cp && cp <= 0x009F)
}

fn combining_mark(cp: u32) -> (r: bool)
    ensures
        r == spec_combining_mark(cp),
{
    (0x0300 <= cp && cp <= 0x036F) || (0x1AB0 <= cp && cp <= 0x1AFF) || (0x1DC0 <= cp && cp
        <= 0x1DFF) || (0x20D0 <= cp && cp <= 0x20FF) || (0xFE20 <= cp && cp <= 0xFE2F)
}

fn regional_indicator(cp: u32) -> (r: bool)
    ensures
        r == spec_regional_indicator(cp),
{
    0x1F1E6 <= cp && cp <= 0x1F1FF
}

fn emoji_base(cp: u32) -> (r: bool)
    ensures
        r == spec_emoji_base(cp),
{
    (0x1F600 <= cp && cp <= 0x1F64F) || (0x1F300 <= cp && cp <= 0x1F5FF) || (0x1F680 <= cp && cp
        <= 0x1F6FF) || (0x1F900 <= cp && cp <= 0x1F9FF) || (0x1FA70 <= cp && cp <= 0x1FAFF) || (
    0x1F100 <= cp && cp <= 0x1F1FF) || (0x1F200 <= cp && cp <= 0x1F2FF) || (0x2600 <= cp && cp
        <= 0x26FF) || (0x2700 <= cp && cp <= 0x27BF) || (0x1F0A0 <= cp && cp <= 0x1F0FF) || (
    0x1F000 <= cp && cp <= 0x1F02F) || (0x1F030 <= cp && cp <= 0x1F09F) || (0x25A0 <= cp && cp
        <= 0x25FF) || (0x2300 <= cp && cp <= 0x23FF)
}

fn emoji_modifier(cp: u32) -> (r: bool)
    ensures
        r == spec_emoji_modifier(cp),
{
    0x1F3FB <= cp && cp <= 0x1F3FF
}

fn wide_character(cp: u32) -> (r: bool)
    ensures
        r == spec_wide_character(cp),
{
    (0x4E00 <= cp && cp <= 0x9FFF) || (0x3400 <= cp && cp <= 0x4DBF) || (0x20000 <= cp && cp
        <= 0x2EBEF) || (0xF900 <= cp && cp <= 0xFAFF) || (0x2F800 <= cp && cp <= 0x2FA1F) || (
    0xAC00 <= cp && cp <= 0xD7AF) || (0xA960 <= cp && cp <= 0xA97F) || (0xD7B0 <= cp && cp
        <= 0xD7FF) || (0xFF01 <= cp && cp <= 0xFF60) || (0xFFE0 <= cp && cp <= 0xFFE6) || (0xFF00
        <= cp && cp <= 0xFFEF) || (0x3040 <= cp && cp <= 0x309F) || (0x30A0 <= cp && cp <= 0x30FF)
        || (0x31F0 <= cp && cp <= 0x31FF) || (0x3100 <= cp && cp <= 0x312F) || (0x31A0 <= cp && cp
        <= 0x31BF) || (0x3190 <= cp && cp <= 0x319F) || (0x3200 <= cp && cp <= 0x32FF) || (0x3300
        <= cp && cp <= 0x33FF) || (0xA000 <= cp && cp <= 0xA48F) || (0xA490 <= cp && cp <= 0xA4CF)
}

fn text_default_emoji(cp: u32) -> (r: bool)
    ensures
        r == spec_text_default_emoji(cp),
{
    cp == 0x26A0 || cp == 0x263A || cp == 0x2709 || cp == 0x260E || cp == 0x270F
}

/// The display width of `s` in terminal cells, as `spec_display_width`
/// counts them.  A width beyond what `usize` can hold is clamped to
/// `usize::MAX`; no real string reaches it.
pub fn display_width(s: &str) -> (width: usize)
    ensures
        spec_display_width(s@) <= usize::MAX ==> width as int == spec_display_width(s@),
        spec_display_width(s@) > usize::MAX ==> width == usize::MAX,
{
    let chars_len = s.unicode_len();
    let mut width: u128 = 0;
    let mut i: usize = 0;
    proof {
        lemma_width_from_bounds(s@, 0);
    }
    while i < chars_len
        invariant
            0 <= i <= chars_len,
            chars_len == s@.len(),
            width as int + spec_width_from(s@, i as int) == spec_display_width(s@),
            width as int <= 2 * i,
        decreases chars_len - i,
    {
        proof {
            lemma_width_from_bounds(s@, i + 1);
            lemma_width_from_bounds(s@, i + 2);
            lemma_width_from_bounds(s@, i + 3);
            lemma_width_tail_bounds(s@, i + 1);
            lemma_width_marks_bounds(s@, i + 1);
        }
        let c = s.get_char(i);
        let cp = c as u32;

        if zero_width(cp) {
            i = i + 1;
            continue ;
        }
        if text_default_emoji(cp) {
            if i + 1 < chars_len && (s.get_char(i + 1) as u32) == 0xFE0F {
                width = width + 2;
                i = i + 2;
            } else {
                width = width + 1;
                i = i + 1;
            }
            continue ;
        }
        if regional_indicator(cp) && i + 1 < chars_len {
            let next_cp = s.get_char(i + 1) as u32;
            if regional_indicator(next_cp) {
                width = width + 2;
                i = i + 2;
                continue ;
            }
        }
        if emoji_base(cp) || wide_character(cp) {
            width = width + 2;
            i = i + 1;
            let ghost entry = i as int;
            while i < chars_len
                invariant_except_break
                    0 <= entry <= i <= chars_len,
                    chars_len == s@.len(),
                    spec_width_tail(s@, entry) == spec_width_tail(s@, i as int),
                ensures
                    0 <= entry <= i <= chars_len,
                    chars_len == s@.len(),
                    spec_width_tail(s@, entry) == spec_width_from(s@, i as int),
                decreases chars_len - i,
            {
                let next_cp = s.get_char(i) as u32;
                if next_cp == 0x200D {
                    i = i + 1;
                    if i < chars_len {
                        i = i + 1;
                        continue ;
                    }
                    proof {
                        assert(spec_width_from(s@, i as int) == 0);
                        assert(spec_width_tail(s@, i - 1) == spec_width_from(s@, i as int));
                    }
                    break ;
                }
                if zero_width(next_cp) || emoji_modifier(next_cp) {
                    i = i + 1;
                    continue ;
                }
                proof {
                    assert(spec_width_tail(s@, i as int) == spec_width_from(s@, i as int));
                }
                break ;
            }
            proof {
                lemma_width_from_bounds(s@, i as int);
                lemma_width_tail_bounds(s@, entry);
            }
            continue ;
        }
        if ((0x30 <= cp && cp <= 0x39) || cp == 0x23 || cp == 0x2A) && chars_len - i > 2 {
            let vs = s.get_char(i + 1) as u32;
            let combining = s.get_char(i + 2) as u32;
            if vs == 0xFE0F && combining == 0x20E3 {
                width = width + 2;
                i = i + 3;
                continue ;
            }
        }
        width = width + 1;
        i = i + 1;
        let ghost entry = i as int;
        while i < chars_len && combining_mark(s.get_char(i) as u32)
            invariant
                0 <= entry <= i <= chars_len,
                chars_len == s@.len(),
                spec_width_marks(s@, entry) == spec_width_marks(s@, i as int),
            decreases chars_len - i,
        {
            i = i + 1;
        }
        proof {
            assert(spec_width_marks(s@, i as int) == spec_width_from(s@, i as int));
            lemma_width_from_bounds(s@, i as int);
        }
        continue ;
    }
    proof {
        assert(spec_width_from(s@, chars_len as int) == 0);
    }
    if width > (usize::MAX as u128) {
        usize::MAX
    } else {
        width as usize
    }
}

/// The display width never exceeds twice the character count.
pub proof fn lemma_display_width_bound(s: Seq<char>)
    ensures
        0 <= spec_display_width(s) <= 2 * s.len(),
{
    lemma_width_from_bounds(s, 0);
}

/// The width of any suffix is bounded by twice its length.
proof fn lemma_width_from_bounds(s: Seq<char>, i: int)
    ensures
        0 <= spec_width_from(s, i),
        0 <= i <= s.len() ==> spec_width_from(s, i) <= 2 * (s.len() - i),
    decreases s.len() - i, 0int,
{
    reveal_with_fuel(spec_width_from, 2);
    reveal_with_fuel(spec_width_tail, 2);
    reveal_with_fuel(spec_width_marks, 2);
    if i < 0 || i >= s.len() {
    } else {
        lemma_width_from_bounds(s, i + 1);
        if i + 2 <= s.len() {
            lemma_width_from_bounds(s, i + 2);
        } else {
            assert(spec_width_from(s, i + 2) == 0);
        }
        if i + 3 <= s.len() {
            lemma_width_from_bounds(s, i + 3);
        } else {
            assert(spec_width_from(s, i + 3) == 0);
        }
        lemma_width_tail_bounds(s, i + 1);
        lemma_width_marks_bounds(s, i + 1);
    }
}

/// The width of a cluster tail is bounded by twice its length.
proof fn lemma_width_tail_bounds(s: Seq<char>, i: int)
    ensures
        0 <= spec_width_tail(s, i),
        0 <= i <= s.len() ==> spec_width_tail(s, i) <= 2 * (s.len() - i),
    decreases s.len() - i, 1int,
{
    reveal_with_fuel(spec_width_from, 2);
    reveal_with_fuel(spec_width_tail, 2);
    reveal_with_fuel(spec_width_marks, 2);
    if i < 0 || i >= s.len() {
    } else {
        lemma_width_tail_bounds(s, i + 1);
        if i + 2 <= s.len() {
            lemma_width_tail_bounds(s, i + 2);
        } else {
            assert(spec_width_tail(s, i + 2) == 0);
        }
        lemma_width_from_bounds(s, i);
        lemma_width_from_bounds(s, i + 1);
    }
}

/// The width after combining marks is bounded by twice the length.
proof fn lemma_width_marks_bounds(s: Seq<char>, i: int)
    ensures
        0 <= spec_width_marks(s, i),
        0 <= i <= s.len() ==> spec_width_marks(s, i) <= 2 * (s.len() - i),
    decreases s.len() - i, 1int,
{
    reveal_with_fuel(spec_width_from, 2);
    reveal_with_fuel(spec_width_tail, 2);
    reveal_with_fuel(spec_width_marks, 2);
    if i < 0 || i >= s.len() {
    } else {
        lemma_width_marks_bounds(s, i + 1);
        lemma_width_from_bounds(s, i);
    }
}

} // verus!
