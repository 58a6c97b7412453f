//! The tokenizer, value processor and validator pipeline.
//!
//! `spec_parse` is the mathematical description of parsing one command
//! level: a single left-to-right scan with one token of lookahead,
//! positional assignment, then the five validation stages in order.
//! `Command::parse_args` is proved to return exactly what `spec_parse`
//! says, for every command tree, token list and environment.

use vstd::prelude::*;
use crate::command::{
    App, Arg, ArgMatches, ArgModel, ArgValue, Command, CommandError, CommandModel, CommandResult,
    ErrorModel, GroupModel, MatchesModel, ValueModel, find_arg_idx, find_sub_idx,
    lemma_find_arg_idx_bounds, lemma_find_sub_idx_bounds, lemma_cmds_view_index,
    lemma_cmds_view_len,
};
use crate::strutil::{
    begins_dash, begins_dashdash, char_string, find_char, find_char_at, join_strings, join_with,
    lemma_find_char_bounds, split_and_trim, split_trimmed, starts_dash, starts_dashdash, str_eq,
    strip_dashdash, strip_leading, trim_dashdash, trim_leading,
};

verus! {

broadcast use vstd::seq::axiom_seq_index_decreases, vstd::std_specs::vec::group_vec_axioms;

/// An environment snapshot, folded into a map; the first pair holding a
/// name wins.
pub open spec fn env_map(s: Seq<(String, String)>) -> Map<Seq<char>, Seq<char>>
    decreases s.len(),
{
    if s.len() == 0 {
        Map::empty()
    } else {
        env_map(s.drop_first()).insert(s[0].0@, s[0].1@)
    }
}

/// A name is in the folded environment exactly when some pair holds it.
pub proof fn lemma_env_contains(s: Seq<(String, String)>, k: Seq<char>)
    ensures
        env_map(s).contains_key(k) <==> exists|i: int| 0 <= i < s.len() && s[i].0@ == k,
    decreases s.len(),
{
    if s.len() > 0 {
        lemma_env_contains(s.drop_first(), k);
        if s[0].0@ == k {
        } else {
            if env_map(s).contains_key(k) {
                let i = choose|i: int|
                    0 <= i < s.drop_first().len() && s.drop_first()[i].0@ == k;
                assert(s[i + 1].0@ == k);
            }
            if exists|i: int| 0 <= i < s.len() && s[i].0@ == k {
                let i = choose|i: int| 0 <= i < s.len() && s[i].0@ == k;
                assert(s.drop_first()[i - 1].0@ == k);
            }
        }
    }
}

/// The folded environment sends a name to the value of the first pair
/// holding it.
pub proof fn lemma_env_first(s: Seq<(String, String)>, k: Seq<char>, i: int)
    requires
        0 <= i < s.len(),
        s[i].0@ == k,
        forall|j: int| 0 <= j < i ==> s[j].0@ != k,
    ensures
        env_map(s).contains_key(k),
        env_map(s)[k] == s[i].1@,
    decreases s.len(),
{
    if i == 0 {
    } else {
        assert(s[0].0@ != k);
        assert(s.drop_first()[i - 1].0@ == k);
        assert(forall|j: int| 0 <= j < i - 1 ==> s.drop_first()[j].0@ == s[j + 1].0@);
        lemma_env_first(s.drop_first(), k, i - 1);
    }
}

/// Whether `v` is allowed for the argument: its allowed-value list is
/// absent, empty, or holds `v`.
pub open spec fn passes_allowed(a: ArgModel, v: Seq<char>) -> bool {
    match a.possible_values {
        Some(p) => p.len() == 0 || p.contains(v),
        None => true,
    }
}

/// The message given when a value is outside the allowed set.
pub open spec fn invalid_value_message(a: ArgModel, v: Seq<char>) -> Seq<char> {
    "invalid value '"@ + v + "', expected one of: "@ + join_with(
        match a.possible_values {
            Some(p) => p,
            None => Seq::empty(),
        },
        ", "@,
    )
}

/// The first piece the allowed-value check refuses, with its message.
pub open spec fn first_refused_piece(a: ArgModel, pieces: Seq<Seq<char>>) -> Option<Seq<char>>
    decreases pieces.len(),
{
    if pieces.len() == 0 {
        None
    } else if !passes_allowed(a, pieces[0]) {
        Some(invalid_value_message(a, pieces[0]))
    } else {
        first_refused_piece(a, pieces.drop_first())
    }
}

/// What the value processor does to the stored map for one raw value:
/// delimiter split with per-piece checks, accumulation for `multiple`
/// arguments, or a single checked value, with last-write-wins.
pub open spec fn spec_process_value(
    a: ArgModel,
    value: Seq<char>,
    m: Map<Seq<char>, ValueModel>,
) -> Result<Map<Seq<char>, ValueModel>, ErrorModel> {
    match a.value_delimiter {
        Some(d) => {
            let pieces = split_trimmed(value, d);
            match first_refused_piece(a, pieces) {
                Some(msg) => Err(ErrorModel::ValidationError(a.name, msg)),
                None => Ok(m.insert(a.name, ValueModel::Multiple(pieces))),
            }
        },
        None => spec_process_plain(a, value, m),
    }
}

/// The value processor without a delimiter: accumulation or a single
/// checked value.
pub open spec fn spec_process_plain(
    a: ArgModel,
    value: Seq<char>,
    m: Map<Seq<char>, ValueModel>,
) -> Result<Map<Seq<char>, ValueModel>, ErrorModel> {
    if a.multiple {
        if m.contains_key(a.name) && !(m[a.name] is Multiple) {
            Ok(m)
        } else {
            let cur = if m.contains_key(a.name) {
                m[a.name]->Multiple_0
            } else {
                Seq::empty()
            };
            if passes_allowed(a, value) {
                Ok(m.insert(a.name, ValueModel::Multiple(cur.push(value))))
            } else {
                Err(ErrorModel::ValidationError(a.name, invalid_value_message(a, value)))
            }
        }
    } else {
        if passes_allowed(a, value) {
            Ok(m.insert(a.name, ValueModel::Single(value)))
        } else {
            Err(ErrorModel::ValidationError(a.name, invalid_value_message(a, value)))
        }
    }
}

/// First argument whose short flag is the character, in declaration
/// order.
pub open spec fn find_short_idx(args: Seq<ArgModel>, c: char) -> Option<int>
    decreases args.len(),
{
    if args.len() == 0 {
        None
    } else if args[0].short matches Some(s) && s == c {
        Some(0)
    } else {
        match find_short_idx(args.drop_first(), c) {
            Some(i) => Some(i + 1),
            None => None,
        }
    }
}

/// The index `find_short_idx` returns names a matching argument, and
/// the first one.
pub proof fn lemma_find_short_idx_bounds(args: Seq<ArgModel>, c: char)
    ensures
        match find_short_idx(args, c) {
            Some(i) => 0 <= i < args.len() && args[i].short == Some(c) && forall|j: int|
                0 <= j < i ==> args[j].short != Some(c),
            None => forall|j: int| 0 <= j < args.len() ==> args[j].short != Some(c),
        },
    decreases args.len(),
{
    if args.len() == 0 {
    } else if args[0].short matches Some(s) && s == c {
    } else {
        lemma_find_short_idx_bounds(args.drop_first(), c);
        let t = args.drop_first();
        assert(forall|j: int| 1 <= j < args.len() ==> args[j] == t[j - 1]);
        match find_short_idx(t, c) {
            Some(k) => {
                assert(forall|j: int| 0 <= j < k + 1 ==> args[j].short != Some(c)) by {
                    assert(forall|j: int|
                        1 <= j < k + 1 ==> args[j] == t[j - 1] && t[j - 1].short != Some(c));
                }
            },
            None => {
                assert(forall|j: int| 0 <= j < args.len() ==> args[j].short != Some(c)) by {
                    assert(forall|j: int|
                        1 <= j < args.len() ==> args[j] == t[j - 1] && t[j - 1].short != Some(c));
                }
            },
        }
    }
}

/// What one combined short-flag token (`-vdq`) does to the stored map,
/// from character `k` on.  Only the final character may consume the
/// lookahead token `la`; the boolean says whether it did.
pub open spec fn spec_shorts(
    args: Seq<ArgModel>,
    flags: Seq<char>,
    k: int,
    la: Option<Seq<char>>,
    m: Map<Seq<char>, ValueModel>,
) -> Result<(Map<Seq<char>, ValueModel>, bool), ErrorModel>
    decreases flags.len() - k,
{
    if k < 0 || k >= flags.len() {
        Ok((m, false))
    } else {
        match find_short_idx(args, flags[k]) {
            None => Err(ErrorModel::UnknownArgument(seq![flags[k]])),
            Some(ai) => {
                let a = args[ai];
                if a.takes_value && k == flags.len() - 1 {
                    match la {
                        Some(v) => match spec_process_value(a, v, m) {
                            Ok(m2) => Ok((m2, true)),
                            Err(e) => Err(e),
                        },
                        None => match a.default_value {
                            Some(d) => Ok((m.insert(a.name, ValueModel::Single(d)), false)),
                            None => Ok((m, false)),
                        },
                    }
                } else {
                    spec_shorts(args, flags, k + 1, la, m.insert(a.name, ValueModel::Flag(true)))
                }
            },
        }
    }
}

/// What one token beginning with `-` does to the stored map, and how
/// many tokens it consumed (one, or two when the lookahead became a
/// value).
pub open spec fn spec_flag_step(
    c: CommandModel,
    rem: Seq<Seq<char>>,
    m: Map<Seq<char>, ValueModel>,
) -> Result<(Map<Seq<char>, ValueModel>, int), ErrorModel>
    recommends
        rem.len() > 0,
{
    let t = rem[0];
    let la = if rem.len() > 1 && !starts_dash(rem[1]) {
        Some(rem[1])
    } else {
        None
    };
    if starts_dashdash(t) && find_char(t, '=') is Some {
        let eq = find_char(t, '=')->0;
        let flag_name = trim_dashdash(t.take(eq));
        let value = t.skip(eq + 1);
        match find_arg_idx(c.args, flag_name) {
            Some(ai) => match spec_process_value(c.args[ai], value, m) {
                Ok(m2) => Ok((m2, 1)),
                Err(e) => Err(e),
            },
            None => Err(ErrorModel::UnknownArgument(flag_name)),
        }
    } else if starts_dashdash(t) {
        let flag_name = trim_dashdash(t);
        match find_arg_idx(c.args, flag_name) {
            None => Err(ErrorModel::UnknownArgument(flag_name)),
            Some(ai) => {
                let a = c.args[ai];
                if a.takes_value {
                    match la {
                        Some(v) => match spec_process_value(a, v, m) {
                            Ok(m2) => Ok((m2, 2)),
                            Err(e) => Err(e),
                        },
                        None => match a.default_value {
                            Some(d) => Ok((m.insert(a.name, ValueModel::Single(d)), 1)),
                            None => Ok((m, 1)),
                        },
                    }
                } else {
                    Ok((m.insert(a.name, ValueModel::Flag(true)), 1))
                }
            },
        }
    } else if starts_dash(t) && t.len() > 1 {
        let flags = trim_leading(t, '-');
        match spec_shorts(c.args, flags, 0, la, m) {
            Ok((m2, used)) => Ok((m2, if used { 2int } else { 1int })),
            Err(e) => Err(e),
        }
    } else {
        Ok((m, 1))
    }
}

/// One command level's scan over the remaining tokens: help and version
/// aborts, subcommand recursion, positional buffering, and flag/option
/// resolution with one token of lookahead.
pub open spec fn spec_scan(
    c: CommandModel,
    rem: Seq<Seq<char>>,
    m: Map<Seq<char>, ValueModel>,
    pos: Seq<Seq<char>>,
    env: Map<Seq<char>, Seq<char>>,
) -> Result<
    (Map<Seq<char>, ValueModel>, Seq<Seq<char>>, Option<(Seq<char>, Box<MatchesModel>)>),
    ErrorModel,
>
    decreases c, rem.len(), 0int,
    via spec_scan_decreases
{
    if rem.len() == 0 {
        Ok((m, pos, None))
    } else {
        let t = rem[0];
        if t == "--help"@ || t == "-h"@ {
            Err(ErrorModel::HelpRequested)
        } else if (t == "--version"@ || t == "-V"@) && c.version is Some {
            Err(ErrorModel::VersionRequested)
        } else if !starts_dash(t) {
            match find_sub_idx(c.subcommands, t) {
                Some(i) => match spec_parse_with(c.subcommands[i], rem.drop_first(), env) {
                    Ok(subm) => Ok((m, pos, Some((t, Box::new(subm))))),
                    Err(e) => Err(e),
                },
                None => spec_scan(c, rem.drop_first(), m, pos.push(t), env),
            }
        } else {
            match spec_flag_step(c, rem, m) {
                Ok((m2, consumed)) => spec_scan(
                    c,
                    rem.skip(if consumed == 2 && rem.len() >= 2 { 2int } else { 1int }),
                    m2,
                    pos,
                    env,
                ),
                Err(e) => Err(e),
            }
        }
    }
}

#[via_fn]
proof fn spec_scan_decreases(
    c: CommandModel,
    rem: Seq<Seq<char>>,
    m: Map<Seq<char>, ValueModel>,
    pos: Seq<Seq<char>>,
    env: Map<Seq<char>, Seq<char>>,
) {
    if rem.len() > 0 {
        lemma_find_sub_idx_bounds(c.subcommands, rem[0]);
    }
}

/// The key positional arguments sort under: their declared slot.
pub open spec fn pos_key(a: ArgModel) -> int {
    a.index->0 as int
}

/// `x` inserted into `s` after every element whose key does not exceed
/// its own, as one step of a stable insertion sort places it.
pub open spec fn insert_by_key(x: ArgModel, s: Seq<ArgModel>) -> Seq<ArgModel>
    decreases s.len(),
{
    if s.len() == 0 {
        seq![x]
    } else if pos_key(s.last()) <= pos_key(x) {
        s.push(x)
    } else {
        insert_by_key(x, s.drop_last()).push(s.last())
    }
}

/// Stable sort by declared slot, as `sort_by_key` orders the
/// positional arguments.
pub open spec fn sort_by_pos_key(s: Seq<ArgModel>) -> Seq<ArgModel>
    decreases s.len(),
{
    if s.len() == 0 {
        Seq::empty()
    } else {
        insert_by_key(s.last(), sort_by_pos_key(s.drop_last()))
    }
}

/// The positional arguments in assignment order: those with a slot,
/// stably sorted by it.
pub open spec fn sorted_positionals(args: Seq<ArgModel>) -> Seq<ArgModel> {
    sort_by_pos_key(args.filter(|a: ArgModel| a.index is Some))
}

/// Buffered positional tokens assigned to positional arguments from
/// `k` on: the variadic one absorbs every remaining token, the others
/// take the token at their position in the sorted order.
pub open spec fn assign_positionals(
    sorted: Seq<ArgModel>,
    pos: Seq<Seq<char>>,
    m: Map<Seq<char>, ValueModel>,
    k: int,
) -> Map<Seq<char>, ValueModel>
    decreases sorted.len() - k,
{
    if k < 0 || k >= sorted.len() {
        m
    } else {
        let a = sorted[k];
        let m2 = if a.last {
            if k < pos.len() {
                m.insert(a.name, ValueModel::Multiple(pos.skip(k)))
            } else {
                m
            }
        } else if k < pos.len() {
            m.insert(a.name, ValueModel::Single(pos[k]))
        } else {
            m
        };
        assign_positionals(sorted, pos, m2, k + 1)
    }
}

/// The first declared argument that is required but absent, from `k` on.
pub open spec fn first_missing_required(
    args: Seq<ArgModel>,
    m: Map<Seq<char>, ValueModel>,
    k: int,
) -> Option<Seq<char>>
    decreases args.len() - k,
{
    if k < 0 || k >= args.len() {
        None
    } else if args[k].required && !m.contains_key(args[k].name) {
        Some(args[k].name)
    } else {
        first_missing_required(args, m, k + 1)
    }
}

/// Environment and default backfill for every absent argument, from `k`
/// on; the environment wins over the default.
pub open spec fn apply_backfill(
    args: Seq<ArgModel>,
    m: Map<Seq<char>, ValueModel>,
    env: Map<Seq<char>, Seq<char>>,
    k: int,
) -> Map<Seq<char>, ValueModel>
    decreases args.len() - k,
{
    if k < 0 || k >= args.len() {
        m
    } else {
        apply_backfill(args, backfill_one(args[k], m, env), env, k + 1)
    }
}

/// Backfill for one argument: the environment first, then the default.
pub open spec fn backfill_one(
    a: ArgModel,
    m: Map<Seq<char>, ValueModel>,
    env: Map<Seq<char>, Seq<char>>,
) -> Map<Seq<char>, ValueModel> {
    if m.contains_key(a.name) {
        m
    } else {
        let from_env = match a.env {
            Some(ev) => if env.contains_key(ev) {
                Some(env[ev])
            } else {
                None
            },
            None => None,
        };
        match from_env {
            Some(v) => m.insert(a.name, ValueModel::Single(v)),
            None => match a.default_value {
                Some(d) => m.insert(a.name, ValueModel::Single(d)),
                None => m,
            },
        }
    }
}

/// The first absent name in one argument's dependency list, from `j` on.
pub open spec fn first_missing_dep(
    list: Seq<Seq<char>>,
    m: Map<Seq<char>, ValueModel>,
    j: int,
) -> Option<Seq<char>>
    decreases list.len() - j,
{
    if j < 0 || j >= list.len() {
        None
    } else if !m.contains_key(list[j]) {
        Some(list[j])
    } else {
        first_missing_dep(list, m, j + 1)
    }
}

/// The first dependency violation over the declared arguments, from `k`
/// on: a present argument paired with its first absent dependency.
pub open spec fn first_dep_violation(
    args: Seq<ArgModel>,
    m: Map<Seq<char>, ValueModel>,
    k: int,
) -> Option<(Seq<char>, Seq<char>)>
    decreases args.len() - k,
{
    if k < 0 || k >= args.len() {
        None
    } else if m.contains_key(args[k].name) && first_missing_dep(args[k].requires_list, m, 0)
        is Some {
        Some((args[k].name, first_missing_dep(args[k].requires_list, m, 0)->0))
    } else {
        first_dep_violation(args, m, k + 1)
    }
}

/// The first present name in one argument's conflict list, from `j` on.
pub open spec fn first_present_conflict(
    list: Seq<Seq<char>>,
    m: Map<Seq<char>, ValueModel>,
    j: int,
) -> Option<Seq<char>>
    decreases list.len() - j,
{
    if j < 0 || j >= list.len() {
        None
    } else if m.contains_key(list[j]) {
        Some(list[j])
    } else {
        first_present_conflict(list, m, j + 1)
    }
}

/// The first conflict over the declared arguments, from `k` on: a
/// present argument paired with the first present name it excludes.
pub open spec fn first_conflict(
    args: Seq<ArgModel>,
    m: Map<Seq<char>, ValueModel>,
    k: int,
) -> Option<(Seq<char>, Seq<char>)>
    decreases args.len() - k,
{
    if k < 0 || k >= args.len() {
        None
    } else if m.contains_key(args[k].name) && first_present_conflict(args[k].conflicts_list, m, 0)
        is Some {
        Some((args[k].name, first_present_conflict(args[k].conflicts_list, m, 0)->0))
    } else {
        first_conflict(args, m, k + 1)
    }
}

/// The members of a group that are present.
pub open spec fn present_members(
    names: Seq<Seq<char>>,
    m: Map<Seq<char>, ValueModel>,
) -> Seq<Seq<char>> {
    names.filter(|n: Seq<char>| m.contains_key(n))
}

/// The message given when a required group has no present member.
pub open spec fn group_missing_message(g: GroupModel) -> Seq<char> {
    g.name + " (one of: "@ + join_with(g.args, ", "@) + ")"@
}

/// The first group violation, from `k` on: a required group with no
/// present member, or a group with two, named by its first two present
/// members.
pub open spec fn first_group_violation(
    groups: Seq<GroupModel>,
    m: Map<Seq<char>, ValueModel>,
    k: int,
) -> Option<ErrorModel>
    decreases groups.len() - k,
{
    if k < 0 || k >= groups.len() {
        None
    } else {
        let g = groups[k];
        let present = present_members(g.args, m);
        if g.required && present.len() == 0 {
            Some(ErrorModel::MissingArgument(group_missing_message(g)))
        } else if present.len() > 1 {
            Some(ErrorModel::ArgumentConflict(present[0], present[1]))
        } else {
            first_group_violation(groups, m, k + 1)
        }
    }
}

/// Parsing one command level: the scan, positional assignment, and the
/// five validation stages, each seeing the one before it, with the
/// first violation ending the parse.
pub open spec fn spec_parse_with(
    c: CommandModel,
    args: Seq<Seq<char>>,
    env: Map<Seq<char>, Seq<char>>,
) -> Result<MatchesModel, ErrorModel>
    decreases c, args.len(), 1int,
{
    match spec_scan(c, args, Map::empty(), Seq::empty(), env) {
        Err(e) => Err(e),
        Ok((m0, pos, sub)) => {
            let m1 = assign_positionals(sorted_positionals(c.args), pos, m0, 0);
            match first_missing_required(c.args, m1, 0) {
                Some(n) => Err(ErrorModel::MissingArgument(n)),
                None => {
                    let m2 = apply_backfill(c.args, m1, env, 0);
                    match first_dep_violation(c.args, m2, 0) {
                        Some(p) => Err(ErrorModel::MissingDependency(p.0, p.1)),
                        None => match first_conflict(c.args, m2, 0) {
                            Some(p) => Err(ErrorModel::ArgumentConflict(p.0, p.1)),
                            None => match first_group_violation(c.groups, m2, 0) {
                                Some(e) => Err(e),
                                None => Ok(
                                    MatchesModel { name: c.name, args: m2, sub },
                                ),
                            },
                        },
                    }
                },
            }
        },
    }
}


/// Looks a name up in the environment snapshot; the first pair holding
/// it wins.
fn env_lookup<'a>(env: &'a Vec<(String, String)>, name: &str) -> (r: Option<&'a String>)
    ensures
        match r {
            Some(v) => env_map(env@).contains_key(name@) && v@ == env_map(env@)[name@],
            None => !env_map(env@).contains_key(name@),
        },
{
    let n = env.len();
    let mut i: usize = 0;
    while i < n
        invariant
            0 <= i <= n,
            n == env.len(),
            forall|j: int| 0 <= j < i ==> env@[j].0@ != name@,
        decreases n - i,
    {
        let pair = &env[i];
        if str_eq(pair.0.as_str(), name) {
            proof {
                lemma_env_first(env@, name@, i as int);
            }
            return Some(&pair.1);
        }
        i = i + 1;
    }
    proof {
        lemma_env_contains(env@, name@);
    }
    None
}

/// Whether the value passes the argument's allowed-value check.
fn value_allowed(arg: &Arg, value: &str) -> (r: bool)
    ensures
        r == passes_allowed(arg@, value@),
{
    match &arg.possible_values {
        Some(p) => {
            proof {
                assert(arg@.possible_values == Some(p.deep_view()));
            }
            let n = p.len();
            if n == 0 {
                true
            } else {
                let mut i: usize = 0;
                while i < n
                    invariant
                        0 <= i <= n,
                        n == p.len(),
                        n > 0,
                        arg@.possible_values == Some(p.deep_view()),
                        forall|j: int| 0 <= j < i ==> p.deep_view()[j] != value@,
                    decreases n - i,
                {
                    if str_eq(p[i].as_str(), value) {
                        proof {
                            assert(p.deep_view()[i as int] == p@[i as int]@);
                            assert(p.deep_view()[i as int] == value@);
                            assert(p.deep_view().contains(value@));
                        }
                        return true;
                    }
                    proof {
                        assert(p.deep_view()[i as int] == p@[i as int]@);
                    }
                    i = i + 1;
                }
                proof {
                    assert(!p.deep_view().contains(value@));
                }
                false
            }
        },
        None => true,
    }
}

/// The message for a value outside the allowed set.
fn invalid_message(arg: &Arg, value: &str) -> (r: String)
    ensures
        r@ == invalid_value_message(arg@, value@),
{
    let mut out = String::new();
    out.append("invalid value '");
    out.append(value);
    out.append("', expected one of: ");
    let joined = match &arg.possible_values {
        Some(p) => join_strings(p, ", "),
        None => {
            let empty = String::new();
            proof {
                assert(join_with(Seq::<Seq<char>>::empty(), ", "@) == Seq::<char>::empty());
            }
            empty
        },
    };
    out.append(joined.as_str());
    proof {
        assert(out@ =~= invalid_value_message(arg@, value@));
    }
    out
}

/// Applies one raw value to the stored map: delimiter splitting,
/// accumulation, and the allowed-value check, as `spec_process_value`
/// says.
pub(crate) fn process_value(arg: &Arg, value: &str, matches: &mut ArgMatches) -> (r: CommandResult<
    (),
>)
    requires
        old(matches).wf(),
    ensures
        final(matches).wf(),
        match spec_process_value(arg@, value@, old(matches)@.args) {
            Ok(m2) => r is Ok && final(matches)@ == (MatchesModel {
                args: m2,
                ..old(matches)@
            }),
            Err(e) => (r matches Err(er) && er@ == e) && *final(matches) == *old(matches),
        },
{
    match &arg.value_delimiter {
        Some(d) => {
            let ghost gd = *d;
            let pieces = split_and_trim(value, *d);
            let ghost pv = pieces.deep_view();
            proof {
                assert(pv.skip(0) =~= pv);
            }
            let n = pieces.len();
            let mut i: usize = 0;
            while i < n
                invariant
                    0 <= i <= n,
                    n == pieces.len(),
                    old(matches).wf(),
                    *matches == *old(matches),
                    arg@.value_delimiter == Some(gd),
                    pv == pieces.deep_view(),
                    pv == split_trimmed(value@, gd),
                    first_refused_piece(arg@, pv.skip(i as int)) == first_refused_piece(arg@, pv),
                    forall|j: int| 0 <= j < i ==> passes_allowed(arg@, pv[j]),
                decreases n - i,
            {
                proof {
                    assert(pv.skip(i as int)[0] == pv[i as int]);
                    assert(pv.skip(i as int).drop_first() =~= pv.skip(i + 1));
                }
                if !value_allowed(arg, pieces[i].as_str()) {
                    let msg = invalid_message(arg, pieces[i].as_str());
                    proof {
                        assert(pieces@[i as int]@ == pv[i as int]);
                        assert(first_refused_piece(arg@, pv) == Some(
                            invalid_value_message(arg@, pv[i as int]),
                        ));
                    }
                    return Err(CommandError::ValidationError(arg.name.clone(), msg));
                }
                proof {
                    assert(pieces@[i as int]@ == pv[i as int]);
                }
                i = i + 1;
            }
            proof {
                assert(pv.skip(n as int) =~= Seq::<Seq<char>>::empty());
                assert(first_refused_piece(arg@, pv) is None);
            }
            matches.insert_value(arg.name.clone(), ArgValue::Multiple(pieces));
            Ok(())
        },
        None => {
            if arg.multiple {
                let cur_opt: Option<Vec<String>> = match matches.get_value(arg.name.as_str()) {
                    Some(v) => match v.as_vec() {
                        Some(sl) => Some(crate::command::strings_of_slice(sl)),
                        None => None,
                    },
                    None => Some(Vec::new()),
                };
                match cur_opt {
                    None => Ok(()),
                    Some(cur) => {
                        let ghost gcur = cur.deep_view();
                        if !value_allowed(arg, value) {
                            let msg = invalid_message(arg, value);
                            return Err(CommandError::ValidationError(arg.name.clone(), msg));
                        }
                        let mut vals = cur;
                        let x = String::from_str(value);
                        let ghost gx = x;
                        let ghost prev = vals;
                        vals.push(x);
                        proof {
                            crate::command::lemma_deep_view_push(prev, vals, gx);
                        }
                        matches.insert_value(arg.name.clone(), ArgValue::Multiple(vals));
                        proof {
                            if old(matches)@.args.contains_key(arg@.name) {
                                assert(old(matches)@.args[arg@.name]->Multiple_0 == gcur);
                            } else {
                                assert(gcur =~= Seq::<Seq<char>>::empty());
                            }
                        }
                        Ok(())
                    },
                }
            } else {
                if value_allowed(arg, value) {
                    matches.insert_value(
                        arg.name.clone(),
                        ArgValue::Single(String::from_str(value)),
                    );
                    Ok(())
                } else {
                    let msg = invalid_message(arg, value);
                    Err(CommandError::ValidationError(arg.name.clone(), msg))
                }
            }
        },
    }
}


impl Command {
    /// The required check: every required argument must have been
    /// resolved by the scan or the positional assignment.
    fn check_required_args(&self, matches: &ArgMatches) -> (r: CommandResult<()>)
        requires
            matches.wf(),
        ensures
            match first_missing_required(self@.args, matches@.args, 0) {
                Some(nm) => r matches Err(e) && e@ == ErrorModel::MissingArgument(nm),
                None => r is Ok,
            },
    {
        let n = self.args.len();
        let mut k: usize = 0;
        while k < n
            invariant
                0 <= k <= n,
                n == self.args.len(),
                matches.wf(),
                first_missing_required(self@.args, matches@.args, 0) == first_missing_required(
                    self@.args,
                    matches@.args,
                    k as int,
                ),
            decreases n - k,
        {
            let a = &self.args[k];
            proof {
                assert(self@.args[k as int] == self.args@[k as int]@);
            }
            if a.required && !matches.is_present(a.name.as_str()) {
                return Err(CommandError::MissingArgument(a.name.clone()));
            }
            k = k + 1;
        }
        Ok(())
    }

    /// The backfill: an absent argument takes its environment value
    /// first, then its default.
    fn apply_defaults_and_env(
        &self,
        matches: &mut ArgMatches,
        env: &Vec<(String, String)>,
    )
        requires
            old(matches).wf(),
        ensures
            final(matches).wf(),
            final(matches)@ == (MatchesModel {
                args: apply_backfill(self@.args, old(matches)@.args, env_map(env@), 0),
                ..old(matches)@
            }),
    {
        let ghost em = env_map(env@);
        let ghost m0 = old(matches)@.args;
        let n = self.args.len();
        let mut k: usize = 0;
        while k < n
            invariant
                0 <= k <= n,
                n == self.args.len(),
                matches.wf(),
                em == env_map(env@),
                matches@.name == old(matches)@.name,
                matches@.sub == old(matches)@.sub,
                apply_backfill(self@.args, m0, em, 0) == apply_backfill(
                    self@.args,
                    matches@.args,
                    em,
                    k as int,
                ),
            decreases n - k,
        {
            let a = &self.args[k];
            proof {
                assert(self@.args[k as int] == self.args@[k as int]@);
            }
            if !matches.is_present(a.name.as_str()) {
                let mut filled = false;
                match &a.env {
                    Some(ev) => {
                        match env_lookup(env, ev.as_str()) {
                            Some(v) => {
                                matches.insert_value(
                                    a.name.clone(),
                                    ArgValue::Single(v.clone()),
                                );
                                filled = true;
                            },
                            None => {},
                        }
                    },
                    None => {},
                }
                if !filled {
                    match &a.default_value {
                        Some(d) => {
                            matches.insert_value(
                                a.name.clone(),
                                ArgValue::Single(d.clone()),
                            );
                        },
                        None => {},
                    }
                }
            }
            k = k + 1;
        }
    }

    /// The dependency check: every present argument's dependencies must
    /// be present too.
    fn check_dependencies(&self, matches: &ArgMatches) -> (r: CommandResult<()>)
        requires
            matches.wf(),
        ensures
            match first_dep_violation(self@.args, matches@.args, 0) {
                Some(p) => r matches Err(e) && e@ == ErrorModel::MissingDependency(p.0, p.1),
                None => r is Ok,
            },
    {
        let n = self.args.len();
        let mut k: usize = 0;
        while k < n
            invariant
                0 <= k <= n,
                n == self.args.len(),
                matches.wf(),
                first_dep_violation(self@.args, matches@.args, 0) == first_dep_violation(
                    self@.args,
                    matches@.args,
                    k as int,
                ),
            decreases n - k,
        {
            let a = &self.args[k];
            proof {
                assert(self@.args[k as int] == self.args@[k as int]@);
            }
            if matches.is_present(a.name.as_str()) {
                let m = a.requires_list.len();
                let mut j: usize = 0;
                while j < m
                    invariant
                        0 <= j <= m,
                        m == a.requires_list.len(),
                        matches.wf(),
                        a@ == self@.args[k as int],
                        k < n == self.args.len(),
                        matches@.args.contains_key(a@.name),
                        first_dep_violation(self@.args, matches@.args, 0) == first_dep_violation(
                            self@.args,
                            matches@.args,
                            k as int,
                        ),
                        first_missing_dep(a@.requires_list, matches@.args, 0)
                            == first_missing_dep(a@.requires_list, matches@.args, j as int),
                    decreases m - j,
                {
                    let dep = &a.requires_list[j];
                    proof {
                        assert(a@.requires_list[j as int] == a.requires_list@[j as int]@);
                    }
                    if !matches.is_present(dep.as_str()) {
                        return Err(CommandError::MissingDependency(a.name.clone(), dep.clone()));
                    }
                    j = j + 1;
                }
            }
            k = k + 1;
        }
        Ok(())
    }

    /// The conflict check: no present argument may exclude another
    /// present one.
    fn check_conflicts(&self, matches: &ArgMatches) -> (r: CommandResult<()>)
        requires
            matches.wf(),
        ensures
            match first_conflict(self@.args, matches@.args, 0) {
                Some(p) => r matches Err(e) && e@ == ErrorModel::ArgumentConflict(p.0, p.1),
                None => r is Ok,
            },
    {
        let n = self.args.len();
        let mut k: usize = 0;
        while k < n
            invariant
                0 <= k <= n,
                n == self.args.len(),
                matches.wf(),
                first_conflict(self@.args, matches@.args, 0) == first_conflict(
                    self@.args,
                    matches@.args,
                    k as int,
                ),
            decreases n - k,
        {
            let a = &self.args[k];
            proof {
                assert(self@.args[k as int] == self.args@[k as int]@);
            }
            if matches.is_present(a.name.as_str()) {
                let m = a.conflicts_list.len();
                let mut j: usize = 0;
                while j < m
                    invariant
                        0 <= j <= m,
                        m == a.conflicts_list.len(),
                        matches.wf(),
                        a@ == self@.args[k as int],
                        k < n == self.args.len(),
                        matches@.args.contains_key(a@.name),
                        first_conflict(self@.args, matches@.args, 0) == first_conflict(
                            self@.args,
                            matches@.args,
                            k as int,
                        ),
                        first_present_conflict(a@.conflicts_list, matches@.args, 0)
                            == first_present_conflict(a@.conflicts_list, matches@.args, j as int),
                    decreases m - j,
                {
                    let other = &a.conflicts_list[j];
                    proof {
                        assert(a@.conflicts_list[j as int] == a.conflicts_list@[j as int]@);
                    }
                    if matches.is_present(other.as_str()) {
                        return Err(CommandError::ArgumentConflict(a.name.clone(), other.clone()));
                    }
                    j = j + 1;
                }
            }
            k = k + 1;
        }
        Ok(())
    }

    /// The group check: a required group needs a present member, and no
    /// group may have two.
    fn validate_groups(&self, matches: &ArgMatches) -> (r: CommandResult<()>)
        requires
            matches.wf(),
        ensures
            match first_group_violation(self@.groups, matches@.args, 0) {
                Some(e) => r matches Err(er) && er@ == e,
                None => r is Ok,
            },
    {
        let n = self.groups.len();
        let mut k: usize = 0;
        while k < n
            invariant
                0 <= k <= n,
                n == self.groups.len(),
                matches.wf(),
                first_group_violation(self@.groups, matches@.args, 0) == first_group_violation(
                    self@.groups,
                    matches@.args,
                    k as int,
                ),
            decreases n - k,
        {
            let g = &self.groups[k];
            proof {
                assert(self@.groups[k as int] == self.groups@[k as int]@);
            }
            let ghost gm = g@;
            let ghost mm = matches@.args;
            let m = g.args.len();
            let mut j: usize = 0;
            let mut first: Option<&String> = None;
            let mut second: Option<&String> = None;
            while j < m
                invariant
                    0 <= j <= m,
                    m == g.args.len(),
                    matches.wf(),
                    gm == g@,
                    mm == matches@.args,
                    ({
                        let pm = present_members(gm.args.take(j as int), mm);
                        &&& (first matches Some(f) ==> pm.len() >= 1 && f@ == pm[0])
                        &&& (first is None ==> pm.len() == 0)
                        &&& (second matches Some(s2) ==> pm.len() >= 2 && s2@ == pm[1])
                        &&& (second is None ==> pm.len() <= 1)
                    }),
                decreases m - j,
            {
                let member = &g.args[j];
                proof {
                    reveal(Seq::filter);
                    assert(gm.args[j as int] == g.args@[j as int]@);
                    assert(gm.args.take(j + 1).drop_last() =~= gm.args.take(j as int));
                    assert(gm.args.take(j + 1).last() == gm.args[j as int]);
                    let pm0 = present_members(gm.args.take(j as int), mm);
                    let pm1 = present_members(gm.args.take(j + 1), mm);
                    if mm.contains_key(gm.args[j as int]) {
                        assert(pm1 == pm0.push(gm.args[j as int]));
                    } else {
                        assert(pm1 == pm0);
                    }
                }
                if matches.is_present(member.as_str()) {
                    if first.is_none() {
                        first = Some(member);
                    } else if second.is_none() {
                        second = Some(member);
                    }
                }
                j = j + 1;
            }
            proof {
                assert(gm.args.take(m as int) =~= gm.args);
            }
            let required_violation = g.required && first.is_none();
            if required_violation {
                let mut msg = g.name.clone();
                msg.append(" (one of: ");
                let joined = join_strings(&g.args, ", ");
                msg.append(joined.as_str());
                msg.append(")");
                proof {
                    assert(msg@ =~= group_missing_message(gm));
                }
                return Err(CommandError::MissingArgument(msg));
            }
            match (first, second) {
                (Some(f), Some(s2)) => {
                    return Err(CommandError::ArgumentConflict(f.clone(), s2.clone()));
                },
                _ => {},
            }
            k = k + 1;
        }
        Ok(())
    }
}


/// Inserting at the first position from the right whose left neighbour
/// does not exceed the key is what `insert_by_key` does.
proof fn lemma_insert_by_key_at(x: ArgModel, s: Seq<ArgModel>, p: int)
    requires
        0 <= p <= s.len(),
        forall|j: int| p <= j < s.len() ==> pos_key(s[j]) > pos_key(x),
        p > 0 ==> pos_key(s[p - 1]) <= pos_key(x),
    ensures
        insert_by_key(x, s) == s.take(p) + seq![x] + s.skip(p),
    decreases s.len(),
{
    if s.len() == 0 {
        assert(insert_by_key(x, s) =~= s.take(p) + seq![x] + s.skip(p));
    } else if p == s.len() {
        assert(insert_by_key(x, s) == s.push(x));
        assert(s.push(x) =~= s.take(p) + seq![x] + s.skip(p));
    } else {
        assert(pos_key(s.last()) > pos_key(x));
        lemma_insert_by_key_at(x, s.drop_last(), p);
        assert(s.drop_last().take(p) =~= s.take(p));
        assert(insert_by_key(x, s) == (s.take(p) + seq![x] + s.drop_last().skip(p)).push(
            s.last(),
        ));
        assert((s.take(p) + seq![x] + s.drop_last().skip(p)).push(s.last()) =~= s.take(p)
            + seq![x] + s.skip(p));
    }
}

impl Command {
    /// The positional arguments in assignment order: those with a
    /// declared slot, stably sorted by it, as `sort_by_key` leaves them.
    pub(crate) fn positional_order(&self) -> (r: Vec<Arg>)
        ensures
            crate::command::args_view(r@) == sorted_positionals(self@.args),
    {
        proof {
            reveal(Seq::filter);
        }
        let mut out: Vec<Arg> = Vec::new();
        let n = self.args.len();
        let mut i: usize = 0;
        while i < n
            invariant
                0 <= i <= n,
                n == self.args.len(),
                forall|j: int| 0 <= j < out@.len() ==> (#[trigger] out@[j])@.index is Some,
                crate::command::args_view(out@) == sort_by_pos_key(
                    self@.args.take(i as int).filter(|a: ArgModel| a.index is Some),
                ),
            decreases n - i,
        {
            let a = &self.args[i];
            proof {
                reveal(Seq::filter);
                assert(self@.args[i as int] == self.args@[i as int]@);
                assert(self@.args.take(i + 1).drop_last() =~= self@.args.take(i as int));
                assert(self@.args.take(i + 1).last() == self@.args[i as int]);
            }
            let ghost fprev = self@.args.take(i as int).filter(|a: ArgModel| a.index is Some);
            let ghost fnext = self@.args.take(i + 1).filter(|a: ArgModel| a.index is Some);
            if a.index.is_some() {
                proof {
                    reveal(Seq::filter);
                    assert(fnext == fprev.push(self@.args[i as int]));
                    assert(fnext.drop_last() =~= fprev);
                    assert(sort_by_pos_key(fnext) == insert_by_key(
                        self@.args[i as int],
                        sort_by_pos_key(fprev),
                    ));
                }
                let key = match a.index {
                    Some(ix) => ix,
                    None => 0,
                };
                let mut p: usize = out.len();
                while p > 0 && key_of(&out[p - 1]) > key
                    invariant
                        0 <= p <= out.len(),
                        a@ == self@.args[i as int],
                        key == pos_key(a@),
                        forall|j: int| 0 <= j < out@.len() ==> (#[trigger] out@[j])@.index is Some,
                        forall|j: int|
                            p <= j < out@.len() ==> pos_key(out@[j]@) > pos_key(a@),
                    decreases p,
                {
                    p = p - 1;
                }
                let ghost prevout = out@;
                let item = a.clone();
                let ghost gitem = item;
                out.insert(p, item);
                proof {
                    lemma_insert_by_key_at(
                        self@.args[i as int],
                        crate::command::args_view(prevout),
                        p as int,
                    );
                    assert(out@ == prevout.insert(p as int, gitem));
                    let av = crate::command::args_view(prevout);
                    assert(av.len() == prevout.len());
                    assert(forall|j: int|
                        p <= j < prevout.len() ==> pos_key(av[j]) > pos_key(a@));
                    if p > 0 {
                        assert(pos_key(av[p - 1]) <= pos_key(a@));
                    }
                    let expected = av.take(p as int) + seq![self@.args[i as int]] + av.skip(
                        p as int,
                    );
                    assert(crate::command::args_view(out@) =~= expected);
                }
            } else {
                proof {
                    reveal(Seq::filter);
                    assert(fnext == fprev);
                }
            }
            i = i + 1;
        }
        proof {
            assert(self@.args.take(n as int) =~= self@.args);
        }
        out
    }

    /// Assigns the buffered positional tokens to the positional
    /// arguments: ascending by slot, with the variadic last one
    /// absorbing every remaining token.
    fn process_positional_args(
        &self,
        positional_values: &Vec<String>,
        matches: &mut ArgMatches,
    )
        requires
            old(matches).wf(),
        ensures
            final(matches).wf(),
            final(matches)@ == (MatchesModel {
                args: assign_positionals(
                    sorted_positionals(self@.args),
                    positional_values.deep_view(),
                    old(matches)@.args,
                    0,
                ),
                ..old(matches)@
            }),
    {
        let sorted = self.positional_order();
        let ghost sv = sorted_positionals(self@.args);
        let ghost posv = positional_values.deep_view();
        let ghost m0 = old(matches)@.args;
        let n = sorted.len();
        proof {
            assert(crate::command::args_view(sorted@).len() == sorted@.len());
        }
        let mut k: usize = 0;
        while k < n
            invariant
                0 <= k <= n,
                n == sorted.len(),
                matches.wf(),
                sv == sorted_positionals(self@.args),
                sv == crate::command::args_view(sorted@),
                sv.len() == n,
                posv == positional_values.deep_view(),
                matches@.name == old(matches)@.name,
                matches@.sub == old(matches)@.sub,
                assign_positionals(sv, posv, m0, 0) == assign_positionals(
                    sv,
                    posv,
                    matches@.args,
                    k as int,
                ),
            decreases n - k,
        {
            let a = &sorted[k];
            proof {
                assert(sv[k as int] == sorted@[k as int]@);
            }
            if a.last {
                if k < positional_values.len() {
                    let remaining = crate::command::strings_of_slice_from(positional_values, k);
                    proof {
                        assert(remaining.deep_view() =~= posv.skip(k as int));
                    }
                    matches.insert_value(a.name.clone(), ArgValue::Multiple(remaining));
                }
            } else {
                if k < positional_values.len() {
                    let v = positional_values[k].clone();
                    matches.insert_value(a.name.clone(), ArgValue::Single(v));
                }
            }
            k = k + 1;
        }
    }
}

/// The declared slot of a positional argument, for the insertion scan.
fn key_of(a: &Arg) -> (r: usize)
    requires
        a@.index is Some,
    ensures
        r as int == pos_key(a@),
{
    match a.index {
        Some(ix) => ix,
        None => 0,
    }
}


/// The lookahead value for the token at `index`: the next token, when
/// there is one and it does not begin with `-`.
pub open spec fn spec_lookahead(full: Seq<Seq<char>>, index: int) -> Option<Seq<char>> {
    if index + 1 < full.len() && !starts_dash(full[index + 1]) {
        Some(full[index + 1])
    } else {
        None
    }
}

impl Command {
    /// Finds the first argument whose short flag is `c`.
    fn find_short(&self, c: char) -> (r: Option<&Arg>)
        ensures
            match find_short_idx(self@.args, c) {
                Some(i) => r matches Some(a) && a@ == self@.args[i],
                None => r is None,
            },
    {
        let n = self.args.len();
        let mut i: usize = 0;
        while i < n
            invariant
                0 <= i <= n,
                n == self.args.len(),
                forall|j: int| 0 <= j < i ==> self@.args[j].short != Some(c),
            decreases n - i,
        {
            let a = &self.args[i];
            proof {
                assert(self@.args[i as int] == self.args@[i as int]@);
            }
            let hit = match a.short {
                Some(s) => s == c,
                None => false,
            };
            if hit {
                proof {
                    lemma_find_short_idx_bounds(self@.args, c);
                }
                return Some(a);
            }
            i = i + 1;
        }
        proof {
            lemma_find_short_idx_bounds(self@.args, c);
        }
        None
    }

    /// One combined short-flag token (`-v`, `-abc`): each character is a
    /// flag, and only the last may consume the lookahead token as its
    /// value.
    fn parse_short_flags(
        &self,
        token: &str,
        args: &Vec<String>,
        index: usize,
        matches: &mut ArgMatches,
    ) -> (r: CommandResult<usize>)
        requires
            old(matches).wf(),
            index < args@.len(),
            token@ == args.deep_view()[index as int],
        ensures
            match spec_shorts(
                self@.args,
                trim_leading(token@, '-'),
                0,
                spec_lookahead(args.deep_view(), index as int),
                old(matches)@.args,
            ) {
                Ok(p) => r matches Ok(c) && c as int == (if p.1 {
                    2int
                } else {
                    1int
                }) && final(matches).wf() && final(matches)@ == (MatchesModel {
                    args: p.0,
                    ..old(matches)@
                }) && (p.1 ==> index + 2 <= args@.len()),
                Err(e) => r matches Err(er) && er@ == e,
            },
    {
        let ghost full = args.deep_view();
        let ghost la = spec_lookahead(full, index as int);
        let ghost m0 = old(matches)@.args;
        let ghost argsv = self@.args;
        let flags = strip_leading(token, '-');
        let ghost flagsv = trim_leading(token@, '-');
        let fl = flags.unicode_len();
        let mut consumed: usize = 1;
        let mut k: usize = 0;
        proof {
            assert(flags@ == flagsv);
        }
        while k < fl
            invariant
                0 <= k <= fl,
                fl == flags@.len(),
                flags@ == flagsv,
                index < args@.len(),
                full == args.deep_view(),
                la == spec_lookahead(full, index as int),
                flagsv == trim_leading(token@, '-'),
                m0 == old(matches)@.args,
                argsv == self@.args,
                matches.wf(),
                matches@.name == old(matches)@.name,
                matches@.sub == old(matches)@.sub,
                consumed == 1 || consumed == 2,
                consumed == 1 ==> spec_shorts(argsv, flagsv, 0, la, m0) == spec_shorts(
                    argsv,
                    flagsv,
                    k as int,
                    la,
                    matches@.args,
                ),
                consumed == 2 ==> k == fl && spec_shorts(argsv, flagsv, 0, la, m0) == Ok::<
                    _,
                    ErrorModel,
                >((matches@.args, true)) && index + 2 <= args@.len(),
            decreases fl - k,
        {
            let c = flags.get_char(k);
            match self.find_short(c) {
                None => {
                    proof {
                        assert(c == flagsv[k as int]);
                        assert(spec_shorts(argsv, flagsv, k as int, la, matches@.args) == Err::<
                            (Map<Seq<char>, ValueModel>, bool),
                            ErrorModel,
                        >(ErrorModel::UnknownArgument(seq![flagsv[k as int]])));
                    }
                    let cs = char_string(c);
                    return Err(CommandError::UnknownArgument(cs));
                },
                Some(farg) => {
                    if farg.takes_value && k == fl - 1 {
                        let la_ok = index < args.len() - 1 && !begins_dash(
                            args[index + 1].as_str(),
                        );
                        proof {
                            if index + 1 < args@.len() {
                                assert(full[index + 1] == args@[index + 1]@);
                            }
                        }
                        if la_ok {
                            match process_value(farg, args[index + 1].as_str(), matches) {
                                Ok(_) => {
                                    consumed = 2;
                                },
                                Err(e) => {
                                    return Err(e);
                                },
                            }
                        } else {
                            match &farg.default_value {
                                Some(d) => {
                                    matches.insert_value(
                                        farg.name.clone(),
                                        ArgValue::Single(d.clone()),
                                    );
                                },
                                None => {},
                            }
                        }
                    } else {
                        matches.insert_value(farg.name.clone(), ArgValue::Flag(true));
                    }
                    k = k + 1;
                },
            }
        }
        proof {
            if consumed == 1 {
                assert(spec_shorts(argsv, flagsv, fl as int, la, matches@.args) == Ok::<
                    _,
                    ErrorModel,
                >((matches@.args, false)));
            }
        }
        Ok(consumed)
    }

    /// One token beginning with `-`: the `--key=value` form, the long
    /// form with lookahead, or a combined short group.  Returns how many
    /// tokens were consumed.
    fn parse_flag_or_option(
        &self,
        token: &str,
        args: &Vec<String>,
        index: usize,
        matches: &mut ArgMatches,
    ) -> (r: CommandResult<usize>)
        requires
            old(matches).wf(),
            index < args@.len(),
            token@ == args.deep_view()[index as int],
            starts_dash(token@),
        ensures
            match spec_flag_step(self@, args.deep_view().skip(index as int), old(matches)@.args) {
                Ok(p) => r matches Ok(c) && c as int == p.1 && final(matches).wf()
                    && final(matches)@ == (MatchesModel { args: p.0, ..old(matches)@ })
                    && 1 <= p.1 <= 2 && (p.1 == 2 ==> index + 2 <= args@.len()),
                Err(e) => r matches Err(er) && er@ == e,
            },
    {
        let ghost full = args.deep_view();
        let ghost rem = full.skip(index as int);
        proof {
            assert(rem[0] == full[index as int]);
            if index + 1 < args@.len() {
                assert(rem[1] == full[index + 1]);
                assert(full[index + 1] == args@[index + 1]@);
            }
            assert(spec_lookahead(full, index as int) == (if rem.len() > 1 && !starts_dash(
                rem[1],
            ) {
                Some(rem[1])
            } else {
                None::<Seq<char>>
            }));
        }
        let n_tok = token.unicode_len();
        if begins_dashdash(token) {
            match find_char_at(token, '=') {
                Some(eq) => {
                    proof {
                        lemma_find_char_bounds(token@, '=');
                    }
                    let head = token.substring_char(0, eq);
                    let value = token.substring_char(eq + 1, n_tok);
                    let flag_name = strip_dashdash(head);
                    proof {
                        assert(head@ =~= token@.take(eq as int));
                        assert(value@ =~= token@.skip(eq + 1));
                    }
                    match self.find_arg(flag_name) {
                        Some(farg) => match process_value(farg, value, matches) {
                            Ok(_) => Ok(1),
                            Err(e) => Err(e),
                        },
                        None => Err(
                            CommandError::UnknownArgument(String::from_str(flag_name)),
                        ),
                    }
                },
                None => {
                    let flag_name = strip_dashdash(token);
                    match self.find_arg(flag_name) {
                        None => Err(
                            CommandError::UnknownArgument(String::from_str(flag_name)),
                        ),
                        Some(farg) => {
                            if farg.takes_value {
                                let la_ok = index < args.len() - 1 && !begins_dash(
                                    args[index + 1].as_str(),
                                );
                                if la_ok {
                                    match process_value(farg, args[index + 1].as_str(), matches) {
                                        Ok(_) => Ok(2),
                                        Err(e) => Err(e),
                                    }
                                } else {
                                    match &farg.default_value {
                                        Some(d) => {
                                            matches.insert_value(
                                                farg.name.clone(),
                                                ArgValue::Single(d.clone()),
                                            );
                                            Ok(1)
                                        },
                                        None => Ok(1),
                                    }
                                }
                            } else {
                                matches.insert_value(farg.name.clone(), ArgValue::Flag(true));
                                Ok(1)
                            }
                        },
                    }
                },
            }
        } else if n_tok > 1 {
            self.parse_short_flags(token, args, index, matches)
        } else {
            Ok(1)
        }
    }
}


/// The tokens a process hands over, with the program name dropped.
pub open spec fn rest_tokens(s: Seq<Seq<char>>) -> Seq<Seq<char>> {
    if s.len() == 0 {
        s
    } else {
        s.skip(1)
    }
}

impl Command {
    /// Parses the token list that remains at this command's level, with
    /// the given environment snapshot, exactly as `spec_parse_with`
    /// describes.
    pub fn parse_args_with_env(
        &self,
        args: &Vec<String>,
        env: &Vec<(String, String)>,
    ) -> (r: CommandResult<ArgMatches>)
        ensures
            r matches Ok(m) ==> m.wf() && spec_parse_with(
                self@,
                args.deep_view(),
                env_map(env@),
            ) == Ok::<MatchesModel, ErrorModel>(m@),
            r matches Err(e) ==> spec_parse_with(self@, args.deep_view(), env_map(env@)) == Err::<
                MatchesModel,
                ErrorModel,
            >(e@),
        decreases *self,
    {
        let ghost full = args.deep_view();
        let ghost em = env_map(env@);
        let ghost scan0 = spec_scan(self@, full, Map::empty(), Seq::empty(), em);
        let mut matches = ArgMatches::new(self.name.as_str());
        let mut positional: Vec<String> = Vec::new();
        proof {
            assert(full.skip(0) =~= full);
            assert(positional.deep_view() =~= Seq::<Seq<char>>::empty());
        }
        let mut i: usize = 0;
        let mut sub_done = false;
        while i < args.len() && !sub_done
            invariant
                0 <= i <= args@.len(),
                full == args.deep_view(),
                em == env_map(env@),
                scan0 == spec_scan(self@, full, Map::empty(), Seq::empty(), em),
                matches.wf(),
                matches@.name == self@.name,
                !sub_done ==> matches@.sub is None,
                !sub_done ==> spec_scan(
                    self@,
                    full.skip(i as int),
                    matches@.args,
                    positional.deep_view(),
                    em,
                ) == scan0,
                sub_done ==> scan0 == Ok::<_, ErrorModel>(
                    (matches@.args, positional.deep_view(), matches@.sub),
                ),
            decreases args@.len() - i + (if sub_done { 0int } else { 1int }),
        {
            let token = &args[i];
            let ghost rem = full.skip(i as int);
            proof {
                assert(rem[0] == full[i as int]);
                assert(full[i as int] == args@[i as int]@);
                assert(rem.drop_first() =~= full.skip(i + 1));
            }
            if str_eq(token.as_str(), "--help") || str_eq(token.as_str(), "-h") {
                return Err(CommandError::HelpRequested);
            }
            let version_hit = str_eq(token.as_str(), "--version") || str_eq(
                token.as_str(),
                "-V",
            );
            if version_hit && self.version.is_some() {
                proof {
                    assert(self@.version is Some);
                }
                return Err(CommandError::VersionRequested);
            }
            proof {
                if version_hit {
                    assert(self.version.is_none());
                    assert(!(self@.version is Some));
                }
            }
            if !begins_dash(token.as_str()) {
                match self.find_subcommand(token.as_str()) {
                    Some(subcmd) => {
                        proof {
                            lemma_find_sub_idx_bounds(self@.subcommands, token@);
                            lemma_cmds_view_len(self.subcommands@);
                        }
                        let tail = crate::command::strings_of_slice_from(args, i + 1);
                        let sub_res = subcmd.parse_args_with_env(&tail, env);
                        match sub_res {
                            Ok(subm) => {
                                matches.set_subcommand(token.clone(), subm);
                                sub_done = true;
                            },
                            Err(e) => {
                                return Err(e);
                            },
                        }
                    },
                    None => {
                        let x = token.clone();
                        let ghost gx = x;
                        let ghost prevpos = positional;
                        positional.push(x);
                        proof {
                            crate::command::lemma_deep_view_push(prevpos, positional, gx);
                        }
                        i = i + 1;
                    },
                }
            } else {
                match self.parse_flag_or_option(token.as_str(), args, i, &mut matches) {
                    Ok(consumed) => {
                        proof {
                            assert(full.skip(i + consumed) =~= rem.skip(consumed as int));
                        }
                        i = i + consumed;
                    },
                    Err(e) => {
                        return Err(e);
                    },
                }
            }
        }
        proof {
            if !sub_done {
                assert(full.skip(args@.len() as int) =~= Seq::<Seq<char>>::empty());
                assert(scan0 == Ok::<_, ErrorModel>(
                    (matches@.args, positional.deep_view(), matches@.sub),
                ));
            }
        }
        self.process_positional_args(&positional, &mut matches);
        match self.check_required_args(&matches) {
            Err(e) => {
                return Err(e);
            },
            Ok(_) => {},
        }
        self.apply_defaults_and_env(&mut matches, env);
        match self.check_dependencies(&matches) {
            Err(e) => {
                return Err(e);
            },
            Ok(_) => {},
        }
        match self.check_conflicts(&matches) {
            Err(e) => {
                return Err(e);
            },
            Ok(_) => {},
        }
        match self.validate_groups(&matches) {
            Err(e) => {
                return Err(e);
            },
            Ok(_) => {},
        }
        proof {
            assert(matches@ == (MatchesModel {
                name: self@.name,
                args: matches@.args,
                sub: matches@.sub,
            }));
        }
        Ok(matches)
    }
}

/// Copies borrowed tokens into owned strings, dropping the first
/// (the program name).
fn owned_tail(args: &Vec<&str>) -> (r: Vec<String>)
    ensures
        r.deep_view() == rest_tokens(args.deep_view()),
{
    let mut out: Vec<String> = Vec::new();
    if args.len() == 0 {
        proof {
            assert(out.deep_view() =~= rest_tokens(args.deep_view()));
        }
        return out;
    }
    let mut i: usize = 1;
    while i < args.len()
        invariant
            1 <= i <= args@.len(),
            out@.len() == i - 1,
            forall|j: int| 0 <= j < out@.len() ==> out@[j]@ == args@[j + 1]@,
        decreases args@.len() - i,
    {
        out.push(String::from_str(args[i]));
        i = i + 1;
    }
    proof {
        assert(out.deep_view() =~= rest_tokens(args.deep_view()));
    }
    out
}

impl App {
    /// Parses the given token list, program name first, against the
    /// given environment snapshot; errors are returned, never printed.
    pub fn try_get_matches_from_env(
        self,
        args: Vec<&str>,
        env: &Vec<(String, String)>,
    ) -> (r: CommandResult<ArgMatches>)
        ensures
            r matches Ok(m) ==> m.wf() && spec_parse_with(
                self@,
                rest_tokens(args.deep_view()),
                env_map(env@),
            ) == Ok::<MatchesModel, ErrorModel>(m@),
            r matches Err(e) ==> spec_parse_with(
                self@,
                rest_tokens(args.deep_view()),
                env_map(env@),
            ) == Err::<MatchesModel, ErrorModel>(e@),
    {
        let tail = owned_tail(&args);
        self.command.parse_args_with_env(&tail, env)
    }

    /// Parses the given token list, program name first, with an empty
    /// environment snapshot.
    pub fn try_get_matches_from(self, args: Vec<&str>) -> (r: CommandResult<ArgMatches>)
        ensures
            r matches Ok(m) ==> m.wf() && spec_parse_with(
                self@,
                rest_tokens(args.deep_view()),
                Map::empty(),
            ) == Ok::<MatchesModel, ErrorModel>(m@),
            r matches Err(e) ==> spec_parse_with(
                self@,
                rest_tokens(args.deep_view()),
                Map::empty(),
            ) == Err::<MatchesModel, ErrorModel>(e@),
    {
        let env: Vec<(String, String)> = Vec::new();
        proof {
            assert(env_map(env@) =~= Map::<Seq<char>, Seq<char>>::empty());
        }
        self.try_get_matches_from_env(args, &env)
    }
}

} // verus!
