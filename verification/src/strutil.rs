//! String helpers shared by the parsing and rendering modules.
//!
//! Tokens are modelled as sequences of characters (`Seq<char>`); every
//! executable helper here carries a contract tying its result to a spec
//! function over those sequences.

use vstd::prelude::*;
use vstd::string::StrSliceExecFns;
use vstd::string::StringExecFns;

verus! {

/// The Unicode white-space characters, as `str::trim` understands them.
pub open spec fn is_wspace(c: char) -> bool {
    c == ' ' || c == '\t' || c == '\n' || c == '\u{0B}' || c == '\u{0C}' || c == '\r'
        || c == '\u{85}' || c == '\u{A0}' || c == '\u{1680}'
        || ('\u{2000}' <= c && c <= '\u{200A}')
        || c == '\u{2028}' || c == '\u{2029}' || c == '\u{202F}' || c == '\u{205F}'
        || c == '\u{3000}'
}

fn wspace_char(c: char) -> (r: bool)
    ensures
        r == is_wspace(c),
{
    c == ' ' || c == '\t' || c == '\n' || c == '\u{0B}' || c == '\u{0C}' || c == '\r'
        || c == '\u{85}' || c == '\u{A0}' || c == '\u{1680}'
        || ('\u{2000}' <= c && c <= '\u{200A}')
        || c == '\u{2028}' || c == '\u{2029}' || c == '\u{202F}' || c == '\u{205F}'
        || c == '\u{3000}'
}

/// True when the token begins with `-`.
pub open spec fn starts_dash(s: Seq<char>) -> bool {
    s.len() > 0 && s[0] == '-'
}

/// True when the token begins with `--`.
pub open spec fn starts_dashdash(s: Seq<char>) -> bool {
    s.len() >= 2 && s[0] == '-' && s[1] == '-'
}

pub fn begins_dash(s: &str) -> (r: bool)
    ensures
        r == starts_dash(s@),
{
    let n = s.unicode_len();
    n > 0 && s.get_char(0) == '-'
}

pub fn begins_dashdash(s: &str) -> (r: bool)
    ensures
        r == starts_dashdash(s@),
{
    let n = s.unicode_len();
    n >= 2 && s.get_char(0) == '-' && s.get_char(1) == '-'
}

/// Position of the first occurrence of `c` in `s`, if any.
pub open spec fn find_char(s: Seq<char>, c: char) -> Option<int>
    decreases s.len(),
{
    if s.len() == 0 {
        None
    } else if s[0] == c {
        Some(0)
    } else {
        match find_char(s.drop_first(), c) {
            Some(i) => Some(i + 1),
            None => None,
        }
    }
}

/// When no occurrence exists up to the end, `find_char` is `None`;
/// when `s[i]` is the first occurrence, it is `Some(i)`.
proof fn lemma_find_char_at(s: Seq<char>, c: char, i: int)
    requires
        0 <= i <= s.len(),
        forall|j: int| 0 <= j < i ==> s[j] != c,
        i < s.len() ==> s[i] == c,
    ensures
        i < s.len() ==> find_char(s, c) == Some(i),
        i == s.len() ==> find_char(s, c) is None,
    decreases i + 1,
{
    if s.len() == 0 {
    } else if i == 0 {
    } else {
        assert(s[0] != c);
        lemma_find_char_at(s.drop_first(), c, i - 1);
    }
}

/// The position `find_char` returns is a position of `c`, and the first one.
pub proof fn lemma_find_char_bounds(s: Seq<char>, c: char)
    ensures
        match find_char(s, c) {
            Some(i) => 0 <= i < s.len() && s[i] == c && forall|j: int| 0 <= j < i ==> s[j] != c,
            None => forall|j: int| 0 <= j < s.len() ==> s[j] != c,
        },
    decreases s.len(),
{
    if s.len() == 0 {
    } else if s[0] == c {
    } else {
        lemma_find_char_bounds(s.drop_first(), c);
        let t = s.drop_first();
        assert(forall|j: int| 1 <= j < s.len() ==> s[j] == t[j - 1]);
        match find_char(t, c) {
            Some(k) => {
                assert(find_char(s, c) == Some(k + 1));
                assert(forall|j: int| 0 <= j < k + 1 ==> s[j] != c) by {
                    assert(forall|j: int| 1 <= j < k + 1 ==> s[j] == t[j - 1] && t[j - 1] != c);
                }
            },
            None => {
                assert(forall|j: int| 0 <= j < s.len() ==> s[j] != c) by {
                    assert(forall|j: int| 1 <= j < s.len() ==> s[j] == t[j - 1] && t[j - 1] != c);
                }
            },
        }
    }
}

/// First position of `c` in `s`, scanning left to right.
pub fn find_char_at(s: &str, c: char) -> (r: Option<usize>)
    ensures
        match r {
            Some(i) => find_char(s@, c) == Some(i as int),
            None => find_char(s@, c) is None,
        },
{
    let n = s.unicode_len();
    let mut i: usize = 0;
    while i < n
        invariant
            0 <= i <= n,
            n == s@.len(),
            forall|j: int| 0 <= j < i ==> s@[j] != c,
        decreases n - i,
    {
        if s.get_char(i) == c {
            proof {
                lemma_find_char_at(s@, c, i as int);
            }
            return Some(i);
        }
        i = i + 1;
    }
    proof {
        lemma_find_char_at(s@, c, n as int);
    }
    None
}

pub fn str_eq(a: &str, b: &str) -> (r: bool)
    ensures
        r == (a@ == b@),
{
    let sa = String::from_str(a);
    let sb = String::from_str(b);
    sa.eq(&sb)
}

/// True when `s` is the one-character string holding `c`.
pub fn single_char_eq(s: &str, c: char) -> (r: bool)
    ensures
        r == (s@ == seq![c]),
{
    let n = s.unicode_len();
    if n == 1 {
        let hit = s.get_char(0) == c;
        proof {
            if hit {
                assert(s@ =~= seq![c]);
            }
        }
        hit
    } else {
        proof {
            assert(seq![c].len() == 1);
        }
        false
    }
}

/// Relies on char::to_string: the string holding exactly that character.
#[verifier::external_body]
pub fn char_string(c: char) -> (r: String)
    ensures
        r@ == seq![c],
{
    c.to_string()
}

pub fn push_char(s: &mut String, c: char)
    ensures
        final(s)@ == old(s)@ + seq![c],
{
    let t = char_string(c);
    s.append(t.as_str());
}

/// What `str::to_uppercase` returns; the mapping depends on the
/// characters alone.
pub uninterp spec fn upper_of(s: Seq<char>) -> Seq<char>;

/// Relies on str::to_uppercase: the result is a function of the characters alone.
#[verifier::external_body]
pub fn to_upper(s: &str) -> (r: String)
    ensures
        r@ == upper_of(s@),
{
    s.to_uppercase()
}

/// `s` with every leading repetition of `c` removed.
pub open spec fn trim_leading(s: Seq<char>, c: char) -> Seq<char>
    decreases s.len(),
{
    if s.len() > 0 && s[0] == c {
        trim_leading(s.drop_first(), c)
    } else {
        s
    }
}

proof fn lemma_trim_leading_at(s: Seq<char>, c: char, i: int)
    requires
        0 <= i <= s.len(),
        forall|j: int| 0 <= j < i ==> s[j] == c,
        i < s.len() ==> s[i] != c,
    ensures
        trim_leading(s, c) =~= s.skip(i),
    decreases i + 1,
{
    if i == 0 {
        assert(s.skip(0) =~= s);
    } else {
        lemma_trim_leading_at(s.drop_first(), c, i - 1);
        assert(s.drop_first().skip(i - 1) =~= s.skip(i));
    }
}

/// `str::trim_start_matches` with a single character pattern.
pub fn strip_leading<'a>(s: &'a str, c: char) -> (r: &'a str)
    ensures
        r@ == trim_leading(s@, c),
{
    let n = s.unicode_len();
    let mut i: usize = 0;
    while i < n && s.get_char(i) == c
        invariant
            0 <= i <= n,
            n == s@.len(),
            forall|j: int| 0 <= j < i ==> s@[j] == c,
        decreases n - i,
    {
        i = i + 1;
    }
    proof {
        lemma_trim_leading_at(s@, c, i as int);
    }
    s.substring_char(i, n)
}

/// `s` with every leading `--` pair removed, as
/// `str::trim_start_matches("--")` leaves it.
pub open spec fn trim_dashdash(s: Seq<char>) -> Seq<char>
    decreases s.len(),
{
    if s.len() >= 2 && s[0] == '-' && s[1] == '-' {
        trim_dashdash(s.skip(2))
    } else {
        s
    }
}

pub fn strip_dashdash<'a>(s: &'a str) -> (r: &'a str)
    ensures
        r@ == trim_dashdash(s@),
{
    let mut t = s;
    while t.unicode_len() >= 2 && t.get_char(0) == '-' && t.get_char(1) == '-'
        invariant
            trim_dashdash(s@) == trim_dashdash(t@),
        decreases t@.len(),
    {
        let n = t.unicode_len();
        t = t.substring_char(2, n);
    }
    proof {
        assert(!starts_dashdash(t@));
    }
    t
}

/// `s` with leading and trailing white space removed, as `str::trim`
/// leaves it.
pub open spec fn trim_ws(s: Seq<char>) -> Seq<char> {
    trim_ws_end(trim_ws_start(s))
}

pub open spec fn trim_ws_start(s: Seq<char>) -> Seq<char>
    decreases s.len(),
{
    if s.len() > 0 && is_wspace(s[0]) {
        trim_ws_start(s.drop_first())
    } else {
        s
    }
}

pub open spec fn trim_ws_end(s: Seq<char>) -> Seq<char>
    decreases s.len(),
{
    if s.len() > 0 && is_wspace(s[s.len() - 1]) {
        trim_ws_end(s.drop_last())
    } else {
        s
    }
}

proof fn lemma_trim_ws_start_at(s: Seq<char>, i: int)
    requires
        0 <= i <= s.len(),
        forall|j: int| 0 <= j < i ==> is_wspace(s[j]),
        i < s.len() ==> !is_wspace(s[i]),
    ensures
        trim_ws_start(s) =~= s.skip(i),
    decreases i + 1,
{
    if i == 0 {
        assert(s.skip(0) =~= s);
    } else {
        lemma_trim_ws_start_at(s.drop_first(), i - 1);
        assert(s.drop_first().skip(i - 1) =~= s.skip(i));
    }
}

proof fn lemma_trim_ws_end_at(s: Seq<char>, i: int)
    requires
        0 <= i <= s.len(),
        forall|j: int| i <= j < s.len() ==> is_wspace(s[j]),
        i > 0 ==> !is_wspace(s[i - 1]),
    ensures
        trim_ws_end(s) =~= s.take(i),
    decreases s.len() - i + 1,
{
    if i == s.len() {
        if s.len() > 0 && is_wspace(s[s.len() - 1]) {
            lemma_trim_ws_end_at(s.drop_last(), i - 1);
            assert(s.drop_last().take(i - 1) =~= s.take(i - 1));
        } else {
            assert(s.take(i) =~= s);
        }
    } else {
        lemma_trim_ws_end_at(s.drop_last(), i);
        assert(s.drop_last().take(i) =~= s.take(i));
        assert(s.drop_last() =~= s.take(s.len() - 1));
    }
}

/// `str::trim`.
pub fn trim_spaces<'a>(s: &'a str) -> (r: &'a str)
    ensures
        r@ == trim_ws(s@),
{
    let n = s.unicode_len();
    let mut lo: usize = 0;
    while lo < n && wspace_char(s.get_char(lo))
        invariant
            0 <= lo <= n,
            n == s@.len(),
            forall|j: int| 0 <= j < lo ==> is_wspace(s@[j]),
        decreases n - lo,
    {
        lo = lo + 1;
    }
    let mut hi: usize = n;
    while hi > lo && wspace_char(s.get_char(hi - 1))
        invariant
            lo <= hi <= n,
            n == s@.len(),
            forall|j: int| hi <= j < n ==> is_wspace(s@[j]),
        decreases hi,
    {
        hi = hi - 1;
    }
    proof {
        lemma_trim_ws_start_at(s@, lo as int);
        let t = s@.skip(lo as int);
        lemma_trim_ws_end_at(t, hi - lo as int);
        assert(t.take(hi - lo as int) =~= s@.subrange(lo as int, hi as int));
    }
    s.substring_char(lo, hi)
}

/// The pieces of `s` split at every occurrence of `d`, each piece
/// trimmed of surrounding white space.
pub open spec fn split_trimmed(s: Seq<char>, d: char) -> Seq<Seq<char>>
    decreases s.len(),
    via split_trimmed_decreases
{
    match find_char(s, d) {
        None => seq![trim_ws(s)],
        Some(i) => seq![trim_ws(s.take(i))] + split_trimmed(s.skip(i + 1), d),
    }
}

#[via_fn]
proof fn split_trimmed_decreases(s: Seq<char>, d: char) {
    lemma_find_char_bounds(s, d);
}

/// `str::split` at `d` with each piece trimmed, as the value processor
/// applies it.
pub fn split_and_trim(s: &str, d: char) -> (r: Vec<String>)
    ensures
        r.deep_view() == split_trimmed(s@, d),
    decreases s@.len(),
{
    let mut out: Vec<String> = Vec::new();
    match find_char_at(s, d) {
        None => {
            let piece = trim_spaces(s);
            out.push(String::from_str(piece));
            proof {
                assert(out.deep_view() =~= split_trimmed(s@, d));
            }
        },
        Some(i) => {
            proof {
                lemma_find_char_bounds(s@, d);
            }
            let n = s.unicode_len();
            let head = s.substring_char(0, i);
            let piece = trim_spaces(head);
            let tail = s.substring_char(i + 1, n);
            let mut rest = split_and_trim(tail, d);
            out.push(String::from_str(piece));
            out.append(&mut rest);
            proof {
                assert(head@ =~= s@.take(i as int));
                assert(tail@ =~= s@.skip(i + 1));
                assert(out.deep_view() =~= split_trimmed(s@, d));
            }
        },
    }
    out
}

/// The elements of `xs` joined with the separator `sep` between them.
pub open spec fn join_with(xs: Seq<Seq<char>>, sep: Seq<char>) -> Seq<char>
    decreases xs.len(),
{
    if xs.len() == 0 {
        Seq::empty()
    } else if xs.len() == 1 {
        xs[0]
    } else {
        xs[0] + sep + join_with(xs.drop_first(), sep)
    }
}

/// `[T]::join` for strings.
pub fn join_strings(xs: &Vec<String>, sep: &str) -> (r: String)
    ensures
        r@ == join_with(xs.deep_view(), sep@),
{
    let ghost dv = xs.deep_view();
    let mut out = String::new();
    let n = xs.len();
    proof {
        assert(dv.skip(0) =~= dv);
        assert(out@ + join_with(dv, sep@) =~= join_with(dv, sep@));
    }
    let mut i: usize = 0;
    while i < n
        invariant
            0 <= i <= n,
            n == xs.len(),
            dv == xs.deep_view(),
            join_with(dv, sep@) == out@ + join_with(dv.skip(i as int), sep@),
        decreases n - i,
    {
        let ghost out0 = out@;
        proof {
            assert(dv.skip(i as int)[0] == dv[i as int]);
            assert(dv[i as int] == xs@[i as int]@);
        }
        out.append(xs[i].as_str());
        if i + 1 < n {
            out.append(sep);
            proof {
                assert(dv.skip(i as int).drop_first() =~= dv.skip(i + 1));
                assert(dv.skip(i as int).len() >= 2);
                assert(join_with(dv.skip(i as int), sep@) == dv[i as int] + sep@ + join_with(
                    dv.skip(i + 1),
                    sep@,
                ));
                assert(out0 + join_with(dv.skip(i as int), sep@) =~= out@ + join_with(
                    dv.skip(i + 1),
                    sep@,
                ));
            }
        } else {
            proof {
                assert(dv.skip(i as int).len() == 1);
                assert(join_with(dv.skip(i as int), sep@) == dv[i as int]);
                assert(dv.skip(i + 1) =~= Seq::<Seq<char>>::empty());
                assert(out0 + join_with(dv.skip(i as int), sep@) =~= out@ + join_with(
                    dv.skip(i + 1),
                    sep@,
                ));
            }
        }
        i = i + 1;
    }
    proof {
        if n == 0 {
            assert(join_with(dv, sep@) =~= Seq::<char>::empty());
            assert(out@ + join_with(dv.skip(0), sep@) =~= out@);
        } else {
            assert(dv.skip(n as int) =~= Seq::<Seq<char>>::empty());
            assert(out@ + join_with(dv.skip(n as int), sep@) =~= out@);
        }
    }
    out
}

/// The character `c` repeated `n` times.
pub open spec fn repeat_char(c: char, n: nat) -> Seq<char>
    decreases n,
{
    if n == 0 {
        Seq::empty()
    } else {
        repeat_char(c, (n - 1) as nat) + seq![c]
    }
}

pub fn char_repeat(c: char, n: usize) -> (r: String)
    ensures
        r@ == repeat_char(c, n as nat),
{
    let mut out = String::new();
    let mut i: usize = 0;
    while i < n
        invariant
            0 <= i <= n,
            out@ == repeat_char(c, i as nat),
        decreases n - i,
    {
        push_char(&mut out, c);
        i = i + 1;
    }
    out
}

/// The decimal digit character for `n` in `0 ..= 9`.
pub open spec fn digit_char(n: nat) -> char {
    if n == 0 { '0' }
    else if n == 1 { '1' }
    else if n == 2 { '2' }
    else if n == 3 { '3' }
    else if n == 4 { '4' }
    else if n == 5 { '5' }
    else if n == 6 { '6' }
    else if n == 7 { '7' }
    else if n == 8 { '8' }
    else { '9' }
}

/// The decimal rendering of `n`.
pub open spec fn dec_str(n: nat) -> Seq<char>
    decreases n,
{
    if n < 10 {
        seq![digit_char(n)]
    } else {
        dec_str(n / 10) + seq![digit_char(n % 10)]
    }
}

fn digit_of(n: u64) -> (r: char)
    requires
        n < 10,
    ensures
        r == digit_char(n as nat),
{
    if n == 0 { '0' }
    else if n == 1 { '1' }
    else if n == 2 { '2' }
    else if n == 3 { '3' }
    else if n == 4 { '4' }
    else if n == 5 { '5' }
    else if n == 6 { '6' }
    else if n == 7 { '7' }
    else if n == 8 { '8' }
    else { '9' }
}

/// `n` written in decimal.
pub fn u64_string(n: u64) -> (r: String)
    ensures
        r@ == dec_str(n as nat),
    decreases n,
{
    if n < 10 {
        char_string(digit_of(n))
    } else {
        let mut head = u64_string(n / 10);
        push_char(&mut head, digit_of(n % 10));
        head
    }
}

} // verus!
