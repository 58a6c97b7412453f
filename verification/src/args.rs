//! A light argument scanner: short and long flags, options with values,
//! and positional tokens, without declarations.  Reading the process
//! arguments happens outside the library; the scan itself is verified.

use vstd::prelude::*;
use vstd::string::StrSliceExecFns;
use vstd::string::StringExecFns;
use crate::strutil::{
    begins_dash, find_char, find_char_at, lemma_find_char_bounds, starts_dash, str_eq,
};

verus! {

broadcast use vstd::seq::axiom_seq_index_decreases;

/// Name-value pairs with a name replaced in place, or appended when it
/// is new: the store the scanner fills.
pub open spec fn put_pair<V>(s: Seq<(Seq<char>, V)>, k: Seq<char>, v: V) -> Seq<(Seq<char>, V)>
    decreases s.len(),
{
    if s.len() == 0 {
        seq![(k, v)]
    } else if s[0].0 == k {
        seq![(k, v)] + s.drop_first()
    } else {
        seq![s[0]] + put_pair(s.drop_first(), k, v)
    }
}

/// The value stored under a name: that of the first pair holding it.
pub open spec fn pair_lookup<V>(s: Seq<(Seq<char>, V)>, k: Seq<char>) -> Option<V>
    decreases s.len(),
{
    if s.len() == 0 {
        None
    } else if s[0].0 == k {
        Some(s[0].1)
    } else {
        pair_lookup(s.drop_first(), k)
    }
}

/// The name-value view of a stored pair list.
pub open spec fn pairs_view<V>(s: Seq<(String, V)>) -> Seq<(Seq<char>, V)> {
    s.map_values(|p: (String, V)| (p.0@, p.1))
}

/// The view of the option store: names and values as character
/// sequences.
pub open spec fn opts_view(s: Seq<(String, String)>) -> Seq<(Seq<char>, Seq<char>)> {
    s.map_values(|p: (String, String)| (p.0@, p.1@))
}

/// Parsed command-line arguments: the program name, positional tokens,
/// flags and options with values.
#[derive(Debug)]
pub struct Args {
    /// The program name, the first token handed over
    pub command: String,
    /// Tokens that are neither flags nor values
    pub positional: Vec<String>,
    /// Flags, by name; a repeated flag keeps one entry
    pub flags: Vec<(String, bool)>,
    /// Options with their values, by name; a repeated option keeps the
    /// latest value
    pub options: Vec<(String, String)>,
}

/// What one token does to the scanner's stores, and how many tokens it
/// consumed.
pub open spec fn spec_args_step(
    full: Seq<Seq<char>>,
    i: int,
    flags: Seq<(Seq<char>, bool)>,
    options: Seq<(Seq<char>, Seq<char>)>,
    positional: Seq<Seq<char>>,
) -> (Seq<(Seq<char>, bool)>, Seq<(Seq<char>, Seq<char>)>, Seq<Seq<char>>, int)
    recommends
        0 <= i < full.len(),
{
    let t = full[i];
    let la = i + 1 < full.len() && !starts_dash(full[i + 1]);
    if t.len() >= 2 && t[0] == '-' && t[1] == '-' {
        let name = t.skip(2);
        match find_char(name, '=') {
            Some(e) => (flags, put_pair(options, name.take(e), name.skip(e + 1)), positional, 1),
            None => if la {
                (flags, put_pair(options, name, full[i + 1]), positional, 2)
            } else {
                (put_pair(flags, name, true), options, positional, 1)
            },
        }
    } else if t.len() >= 1 && t[0] == '-' {
        let body = t.skip(1);
        if body.len() == 0 {
            (flags, options, positional.push(t), 1)
        } else {
            spec_short_chars(body, 0, la, full, i, flags, options, positional)
        }
    } else {
        (flags, options, positional.push(t), 1)
    }
}

/// The combined short group: each character becomes a flag, but the
/// last may take the lookahead token as its value.
pub open spec fn spec_short_chars(
    body: Seq<char>,
    k: int,
    la: bool,
    full: Seq<Seq<char>>,
    i: int,
    flags: Seq<(Seq<char>, bool)>,
    options: Seq<(Seq<char>, Seq<char>)>,
    positional: Seq<Seq<char>>,
) -> (Seq<(Seq<char>, bool)>, Seq<(Seq<char>, Seq<char>)>, Seq<Seq<char>>, int)
    decreases body.len() - k,
{
    if k < 0 || k >= body.len() {
        (flags, options, positional, 1)
    } else if k == body.len() - 1 && la {
        (flags, put_pair(options, seq![body[k]], full[i + 1]), positional, 2)
    } else {
        spec_short_chars(
            body,
            k + 1,
            la,
            full,
            i,
            put_pair(flags, seq![body[k]], true),
            options,
            positional,
        )
    }
}

/// The whole scan from token `i` on.
pub open spec fn spec_args_scan(
    full: Seq<Seq<char>>,
    i: int,
    flags: Seq<(Seq<char>, bool)>,
    options: Seq<(Seq<char>, Seq<char>)>,
    positional: Seq<Seq<char>>,
) -> (Seq<(Seq<char>, bool)>, Seq<(Seq<char>, Seq<char>)>, Seq<Seq<char>>)
    decreases full.len() - i,
{
    if i < 0 || i >= full.len() {
        (flags, options, positional)
    } else {
        let out = spec_args_step(full, i, flags, options, positional);
        let consumed = if out.3 == 2 && i + 2 <= full.len() {
            2int
        } else {
            1int
        };
        spec_args_scan(full, i + consumed, out.0, out.1, out.2)
    }
}

/// Replaces or appends an option's value, first occurrence first.
fn assoc_put_string(list: &mut Vec<(String, String)>, name: String, value: String)
    ensures
        opts_view(final(list)@) == put_pair(opts_view(old(list)@), name@, value@),
{
    let ghost gname = name;
    let ghost gvalue = value;
    let n = list.len();
    let mut i: usize = 0;
    let mut found: Option<usize> = None;
    while i < n
        invariant
            0 <= i <= n,
            n == list.len(),
            gname == name,
            gvalue == value,
            found matches Some(fi) ==> fi < i && list@[fi as int].0@ == gname@ && forall|j: int|
                0 <= j < fi ==> list@[j].0@ != gname@,
            found is None ==> forall|j: int| 0 <= j < i ==> list@[j].0@ != gname@,
        decreases n - i,
    {
        if found.is_none() {
            let pair = &list[i];
            if str_eq(pair.0.as_str(), name.as_str()) {
                found = Some(i);
            } else {
                proof {
                    assert(list@[i as int].0@ != gname@);
                }
            }
        }
        i = i + 1;
    }
    let ghost prev = list@;
    match found {
        Some(fi) => {
            list.set(fi, (name, value));
            proof {
                lemma_put_pair_update(opts_view(prev), gname@, gvalue@, fi as int);
                assert(opts_view(list@) =~= opts_view(prev).update(
                    fi as int,
                    (gname@, gvalue@),
                ));
            }
        },
        None => {
            list.push((name, value));
            proof {
                lemma_put_pair_append(opts_view(prev), gname@, gvalue@);
                assert(opts_view(list@) =~= opts_view(prev).push((gname@, gvalue@)));
            }
        },
    }
}

/// Replaces or appends a name-value pair, first occurrence first.
fn assoc_put<V>(list: &mut Vec<(String, V)>, name: String, value: V)
    ensures
        pairs_view(final(list)@) == put_pair(pairs_view(old(list)@), name@, value),
{
    let ghost gname = name;
    let n = list.len();
    let mut i: usize = 0;
    let mut found: Option<usize> = None;
    while i < n
        invariant
            0 <= i <= n,
            n == list.len(),
            gname == name,
            found matches Some(fi) ==> fi < i && list@[fi as int].0@ == gname@ && forall|j: int|
                0 <= j < fi ==> list@[j].0@ != gname@,
            found is None ==> forall|j: int| 0 <= j < i ==> list@[j].0@ != gname@,
        decreases n - i,
    {
        if found.is_none() {
            let pair = &list[i];
            if str_eq(pair.0.as_str(), name.as_str()) {
                found = Some(i);
            } else {
                proof {
                    assert(list@[i as int].0@ != gname@);
                }
            }
        }
        i = i + 1;
    }
    let ghost prev = list@;
    match found {
        Some(fi) => {
            list.set(fi, (name, value));
            proof {
                lemma_put_pair_update(pairs_view(prev), gname@, value, fi as int);
                assert(pairs_view(list@) =~= pairs_view(prev).update(
                    fi as int,
                    (gname@, value),
                ));
            }
        },
        None => {
            list.push((name, value));
            proof {
                lemma_put_pair_append(pairs_view(prev), gname@, value);
                assert(pairs_view(list@) =~= pairs_view(prev).push((gname@, value)));
            }
        },
    }
}

/// When the first occurrence of the name sits at `fi`, replacing it is
/// what `put_pair` does.
proof fn lemma_put_pair_update<V>(s: Seq<(Seq<char>, V)>, k: Seq<char>, v: V, fi: int)
    requires
        0 <= fi < s.len(),
        s[fi].0 == k,
        forall|j: int| 0 <= j < fi ==> s[j].0 != k,
    ensures
        put_pair(s, k, v) == s.update(fi, (k, v)),
    decreases fi + 1,
{
    if fi == 0 {
        assert(put_pair(s, k, v) == seq![(k, v)] + s.drop_first());
        assert(seq![(k, v)] + s.drop_first() =~= s.update(0, (k, v)));
    } else {
        assert(s[0].0 != k);
        assert(forall|j: int| 0 <= j < fi - 1 ==> s.drop_first()[j] == s[j + 1]);
        lemma_put_pair_update(s.drop_first(), k, v, fi - 1);
        assert(put_pair(s, k, v) == seq![s[0]] + s.drop_first().update(fi - 1, (k, v)));
        assert(seq![s[0]] + s.drop_first().update(fi - 1, (k, v)) =~= s.update(fi, (k, v)));
    }
}

/// When the name is new, appending it is what `put_pair` does.
proof fn lemma_put_pair_append<V>(s: Seq<(Seq<char>, V)>, k: Seq<char>, v: V)
    requires
        forall|j: int| 0 <= j < s.len() ==> s[j].0 != k,
    ensures
        put_pair(s, k, v) == s.push((k, v)),
    decreases s.len(),
{
    if s.len() == 0 {
        assert(put_pair(s, k, v) =~= s.push((k, v)));
    } else {
        assert(forall|j: int| 0 <= j < s.len() - 1 ==> s.drop_first()[j] == s[j + 1]);
        lemma_put_pair_append(s.drop_first(), k, v);
        assert(seq![s[0]] + s.drop_first().push((k, v)) =~= s.push((k, v)));
    }
}

impl Args {
    /// Scans a full token list, program name first, into flags, options
    /// and positional tokens.
    pub fn parse_from(tokens: &Vec<String>) -> (r: Args)
        ensures
            tokens@.len() == 0 ==> r.command@ == Seq::<char>::empty(),
            tokens@.len() > 0 ==> r.command@ == tokens.deep_view()[0],
            ({
                let scanned = spec_args_scan(
                    tokens.deep_view(),
                    if tokens@.len() == 0 {
                        0int
                    } else {
                        1int
                    },
                    Seq::empty(),
                    Seq::empty(),
                    Seq::empty(),
                );
                &&& pairs_view(r.flags@) == scanned.0
                &&& opts_view(r.options@) == scanned.1
                &&& r.positional.deep_view() == scanned.2
            }),
    {
        let ghost full = tokens.deep_view();
        let command = if tokens.len() > 0 {
            tokens[0].clone()
        } else {
            String::new()
        };
        let mut flags: Vec<(String, bool)> = Vec::new();
        let mut options: Vec<(String, String)> = Vec::new();
        let mut positional: Vec<String> = Vec::new();
        let mut i: usize = if tokens.len() > 0 {
            1
        } else {
            0
        };
        let ghost scan0 = spec_args_scan(
            full,
            i as int,
            Seq::empty(),
            Seq::empty(),
            Seq::empty(),
        );
        proof {
            assert(pairs_view(flags@) =~= Seq::<(Seq<char>, bool)>::empty());
            assert(opts_view(options@) =~= Seq::<(Seq<char>, Seq<char>)>::empty());
            assert(positional.deep_view() =~= Seq::<Seq<char>>::empty());
        }
        while i < tokens.len()
            invariant
                0 <= i <= tokens@.len(),
                full == tokens.deep_view(),
                scan0 == spec_args_scan(
                    full,
                    i as int,
                    pairs_view(flags@),
                    opts_view(options@),
                    positional.deep_view(),
                ),
            decreases tokens@.len() - i,
        {
            let consumed = step_token(tokens, i, &mut flags, &mut options, &mut positional);
            i = i + consumed;
        }
        Args { command, positional, flags, options }
    }

    /// Whether a flag is present.
    pub fn has_flag(&self, name: &str) -> (r: bool)
        ensures
            r == (pair_lookup(pairs_view(self.flags@), name@) == Some(true)),
    {
        let n = self.flags.len();
        let mut i: usize = 0;
        while i < n
            invariant
                0 <= i <= n,
                n == self.flags.len(),
                forall|j: int| 0 <= j < i ==> self.flags@[j].0@ != name@,
            decreases n - i,
        {
            let pair = &self.flags[i];
            if str_eq(pair.0.as_str(), name) {
                proof {
                    lemma_pair_lookup_at(pairs_view(self.flags@), name@, i as int);
                }
                return pair.1;
            }
            proof {
                assert(self.flags@[i as int].0@ != name@);
            }
            i = i + 1;
        }
        proof {
            lemma_pair_lookup_none(pairs_view(self.flags@), name@);
        }
        false
    }

    /// The value of an option, when it was given one.
    pub fn get_option(&self, name: &str) -> (r: Option<&String>)
        ensures
            match r {
                Some(v) => pair_lookup(opts_view(self.options@), name@) == Some(v@),
                None => pair_lookup(opts_view(self.options@), name@) is None,
            },
    {
        let n = self.options.len();
        let mut i: usize = 0;
        while i < n
            invariant
                0 <= i <= n,
                n == self.options.len(),
                forall|j: int| 0 <= j < i ==> self.options@[j].0@ != name@,
            decreases n - i,
        {
            let pair = &self.options[i];
            if str_eq(pair.0.as_str(), name) {
                proof {
                    lemma_pair_lookup_at(opts_view(self.options@), name@, i as int);
                }
                return Some(&pair.1);
            }
            proof {
                assert(self.options@[i as int].0@ != name@);
            }
            i = i + 1;
        }
        proof {
            lemma_pair_lookup_none(opts_view(self.options@), name@);
        }
        None
    }
}

/// A matching pair at the first matching position decides the lookup.
proof fn lemma_pair_lookup_at<V>(s: Seq<(Seq<char>, V)>, k: Seq<char>, i: int)
    requires
        0 <= i < s.len(),
        s[i].0 == k,
        forall|j: int| 0 <= j < i ==> s[j].0 != k,
    ensures
        pair_lookup(s, k) == Some(s[i].1),
    decreases i + 1,
{
    if i == 0 {
    } else {
        assert(forall|j: int| 0 <= j < i - 1 ==> s.drop_first()[j] == s[j + 1]);
        lemma_pair_lookup_at(s.drop_first(), k, i - 1);
    }
}

/// Without a matching pair the lookup is empty.
proof fn lemma_pair_lookup_none<V>(s: Seq<(Seq<char>, V)>, k: Seq<char>)
    requires
        forall|j: int| 0 <= j < s.len() ==> s[j].0 != k,
    ensures
        pair_lookup(s, k) is None,
    decreases s.len(),
{
    if s.len() > 0 {
        assert(forall|j: int| 0 <= j < s.len() - 1 ==> s.drop_first()[j] == s[j + 1]);
        lemma_pair_lookup_none(s.drop_first(), k);
    }
}

/// Applies one token to the stores and says how many tokens it
/// consumed.
fn step_token(
    tokens: &Vec<String>,
    i: usize,
    flags: &mut Vec<(String, bool)>,
    options: &mut Vec<(String, String)>,
    positional: &mut Vec<String>,
) -> (consumed: usize)
    requires
        i < tokens@.len(),
    ensures
        ({
            let out = spec_args_step(
                tokens.deep_view(),
                i as int,
                pairs_view(old(flags)@),
                opts_view(old(options)@),
                old(positional).deep_view(),
            );
            &&& pairs_view(final(flags)@) == out.0
            &&& opts_view(final(options)@) == out.1
            &&& final(positional).deep_view() == out.2
            &&& consumed as int == (if out.3 == 2 && i + 2 <= tokens@.len() {
                2int
            } else {
                1int
            })
            &&& 1 <= consumed <= 2
        }),
{
    let ghost full = tokens.deep_view();
    let token = &tokens[i];
    proof {
        assert(full[i as int] == tokens@[i as int]@);
        if i + 1 < tokens@.len() {
            assert(full[i + 1] == tokens@[i + 1]@);
        }
    }
    let tn = token.as_str().unicode_len();
    let la = i < tokens.len() - 1 && !begins_dash(tokens[i + 1].as_str());
    if tn >= 2 && token.as_str().get_char(0) == '-' && token.as_str().get_char(1) == '-' {
        let name = token.as_str().substring_char(2, tn);
        proof {
            assert(name@ =~= full[i as int].skip(2));
        }
        match find_char_at(name, '=') {
            Some(e) => {
                proof {
                    lemma_find_char_bounds(name@, '=');
                }
                let key = name.substring_char(0, e);
                let value = name.substring_char(e + 1, name.unicode_len());
                proof {
                    assert(key@ =~= name@.take(e as int));
                    assert(value@ =~= name@.skip(e + 1));
                }
                assoc_put_string(options, String::from_str(key), String::from_str(value));
                1
            },
            None => {
                if la {
                    assoc_put_string(options, String::from_str(name), tokens[i + 1].clone());
                    2
                } else {
                    assoc_put(flags, String::from_str(name), true);
                    1
                }
            },
        }
    } else if tn >= 1 && token.as_str().get_char(0) == '-' {
        let body = token.as_str().substring_char(1, tn);
        proof {
            assert(body@ =~= full[i as int].skip(1));
        }
        let bn = body.unicode_len();
        if bn == 0 {
            positional.push(token.clone());
            proof {
                assert(final(positional).deep_view() =~= old(positional).deep_view().push(
                    full[i as int],
                ));
            }
            1
        } else {
            let next_string: Option<&String> = if la {
                Some(&tokens[i + 1])
            } else {
                None
            };
            let ghost scan0 = spec_short_chars(
                body@,
                0,
                la,
                full,
                i as int,
                pairs_view(flags@),
                opts_view(options@),
                positional.deep_view(),
            );
            let mut k: usize = 0;
            let mut consumed: usize = 1;
            while k < bn
                invariant
                    0 <= k <= bn,
                    bn == body@.len(),
                    bn >= 1,
                    i < tokens@.len(),
                    full == tokens.deep_view(),
                    la == (i + 1 < full.len() && !starts_dash(full[i + 1])),
                    la ==> (next_string matches Some(v) && v@ == full[i + 1]),
                    positional.deep_view() == old(positional).deep_view(),
                    consumed == 1 || consumed == 2,
                    consumed == 2 ==> k == bn && i + 1 < full.len(),
                    consumed == 1 ==> scan0 == spec_short_chars(
                        body@,
                        k as int,
                        la,
                        full,
                        i as int,
                        pairs_view(flags@),
                        opts_view(options@),
                        positional.deep_view(),
                    ),
                    consumed == 2 ==> scan0 == (
                        pairs_view(flags@),
                        opts_view(options@),
                        positional.deep_view(),
                        2int,
                    ),
                decreases bn - k,
            {
                let c = body.get_char(k);
                if k == bn - 1 && la {
                    let cs = crate::strutil::char_string(c);
                    match next_string {
                        Some(v) => {
                            assoc_put_string(options, cs, v.clone());
                        },
                        None => {},
                    }
                    consumed = 2;
                } else {
                    let cs = crate::strutil::char_string(c);
                    assoc_put(flags, cs, true);
                }
                k = k + 1;
            }
            proof {
                if consumed == 1 {
                    assert(spec_short_chars(
                        body@,
                        bn as int,
                        la,
                        full,
                        i as int,
                        pairs_view(flags@),
                        opts_view(options@),
                        positional.deep_view(),
                    ) == (
                        pairs_view(flags@),
                        opts_view(options@),
                        positional.deep_view(),
                        1int,
                    ));
                }
            }
            consumed
        }
    } else {
        positional.push(token.clone());
        proof {
            assert(final(positional).deep_view() =~= old(positional).deep_view().push(
                full[i as int],
            ));
        }
        1
    }
}

} // verus!
