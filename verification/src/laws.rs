//! Laws the parser and the help renderer obey, stated over the
//! mathematical models and proved once for all inputs.

use vstd::prelude::*;
use crate::command::{ArgModel, CommandModel, ErrorModel, MatchesModel, ValueModel, find_arg_idx};
use crate::help::spec_help;
use crate::parse::{
    apply_backfill, assign_positionals, backfill_one, first_conflict, first_dep_violation,
    first_missing_required, first_present_conflict, passes_allowed, sorted_positionals,
    spec_flag_step, spec_parse_with, spec_process_value, spec_scan,
};
use crate::strutil::{find_char, starts_dash, starts_dashdash, trim_dashdash};

verus! {

/// Help text is deterministic: it depends on the descriptor alone, so
/// two renderings of equal descriptors are equal, whatever else differs
/// between the two calls.
pub proof fn lemma_help_deterministic(c1: CommandModel, c2: CommandModel, h1: Seq<char>, h2: Seq<char>)
    requires
        c1 == c2,
        h1 == spec_help(c1),
        h2 == spec_help(c2),
    ensures
        h1 == h2,
{
}

/// The `--name=value` and `--name value` forms are interchangeable: at
/// the head of the remaining tokens, both resolve the same argument and
/// store the same value, so the scan goes on in the same state.  The
/// value must not begin with `-` (the lookahead rule would refuse it)
/// and the argument named must take a value (a flag with `=` stores the
/// text, while the space form leaves the value as a positional).
pub proof fn lemma_equals_space_equivalent(
    c: CommandModel,
    name_tok: Seq<char>,
    value: Seq<char>,
    rest: Seq<Seq<char>>,
    m: Map<Seq<char>, ValueModel>,
    pos: Seq<Seq<char>>,
    env: Map<Seq<char>, Seq<char>>,
    ai: int,
)
    requires
        starts_dashdash(name_tok),
        !name_tok.contains('='),
        !starts_dash(value),
        name_tok != "--help"@ && name_tok != "-h"@,
        name_tok != "--version"@ && name_tok != "-V"@,
        find_arg_idx(c.args, trim_dashdash(name_tok)) == Some(ai),
        0 <= ai < c.args.len(),
        c.args[ai].takes_value,
    ensures
        spec_scan(c, seq![name_tok + "="@ + value] + rest, m, pos, env) == spec_scan(
            c,
            seq![name_tok, value] + rest,
            m,
            pos,
            env,
        ),
{
    reveal_strlit("=");
    assert("="@.len() == 1);
    let eq_tok = name_tok + "="@ + value;
    let toks1 = seq![eq_tok] + rest;
    let toks2 = seq![name_tok, value] + rest;
    let a = c.args[ai];

    // The combined token still begins with `--` and its first `=` sits
    // right after the name.
    assert(starts_dashdash(eq_tok));
    lemma_find_char_concat_at(name_tok, value, eq_tok);
    let eq = find_char(eq_tok, '=');
    assert(eq == Some(name_tok.len() as int));
    assert(eq_tok.take(name_tok.len() as int) =~= name_tok);
    assert(eq_tok.skip(name_tok.len() as int + 1) =~= value);
    assert(eq_tok != "--help"@ && eq_tok != "-h"@ && eq_tok != "--version"@ && eq_tok
        != "-V"@) by {
        assert(eq_tok.len() > name_tok.len());
        assert(eq_tok[name_tok.len() as int] == '=');
        crate::strutil::lemma_find_char_bounds(name_tok, '=');
        if eq_tok == "--help"@ {
            reveal_strlit("--help");
            assert(false);
        }
        if eq_tok == "-h"@ {
            reveal_strlit("-h");
            assert(false);
        }
        if eq_tok == "--version"@ {
            reveal_strlit("--version");
            assert(false);
        }
        if eq_tok == "-V"@ {
            reveal_strlit("-V");
            assert(false);
        }
    }

    // Step the first form: the `=` branch consumes one token.
    assert(toks1[0] == eq_tok);
    assert(toks1.drop_first() =~= rest);
    let step1 = spec_flag_step(c, toks1, m);
    assert(step1 == (match spec_process_value(a, value, m) {
        Ok(m2) => Ok::<_, ErrorModel>((m2, 1int)),
        Err(e) => Err::<(Map<Seq<char>, ValueModel>, int), _>(e),
    }));

    // Step the second form: the lookahead accepts `value`.
    assert(toks2[0] == name_tok);
    assert(toks2.len() >= 2 && toks2[1] == value);
    assert(!(starts_dashdash(name_tok) && find_char(name_tok, '=') is Some)) by {
        crate::strutil::lemma_find_char_bounds(name_tok, '=');
    }
    let step2 = spec_flag_step(c, toks2, m);
    assert(step2 == (match spec_process_value(a, value, m) {
        Ok(m2) => Ok::<_, ErrorModel>((m2, 2int)),
        Err(e) => Err::<(Map<Seq<char>, ValueModel>, int), _>(e),
    }));

    // Both scans continue over `rest` with the same stored map.
    assert(toks1.skip(1) =~= rest);
    assert(toks2.skip(2) =~= rest);
    match spec_process_value(a, value, m) {
        Ok(m2) => {
            assert(spec_scan(c, toks1, m, pos, env) == spec_scan(c, rest, m2, pos, env));
            assert(spec_scan(c, toks2, m, pos, env) == spec_scan(c, rest, m2, pos, env));
        },
        Err(e) => {
            assert(spec_scan(c, toks1, m, pos, env) == Err::<
                (Map<Seq<char>, ValueModel>, Seq<Seq<char>>, Option<(Seq<char>, Box<MatchesModel>)>),
                _,
            >(e));
            assert(spec_scan(c, toks2, m, pos, env) == Err::<
                (Map<Seq<char>, ValueModel>, Seq<Seq<char>>, Option<(Seq<char>, Box<MatchesModel>)>),
                _,
            >(e));
        },
    }
}

/// In `name ++ "=" ++ value`, when `name` holds no `=`, the first `=`
/// sits exactly at the end of `name`.
proof fn lemma_find_char_concat_at(name_tok: Seq<char>, value: Seq<char>, eq_tok: Seq<char>)
    requires
        !name_tok.contains('='),
        eq_tok == name_tok + "="@ + value,
    ensures
        find_char(eq_tok, '=') == Some(name_tok.len() as int),
{
    reveal_strlit("=");
    assert("="@.len() == 1);
    assert(eq_tok[name_tok.len() as int] == '=');
    assert(forall|j: int| 0 <= j < name_tok.len() ==> eq_tok[j] == name_tok[j]);
    assert(forall|j: int| 0 <= j < name_tok.len() ==> eq_tok[j] != '=') by {
        assert(forall|j: int|
            0 <= j < name_tok.len() ==> name_tok[j] != '=' && eq_tok[j] == name_tok[j]);
    }
    lemma_find_char_from_first(eq_tok, '=', name_tok.len() as int);
}

/// `find_char` returns the position of the first occurrence.
proof fn lemma_find_char_from_first(s: Seq<char>, c: char, i: int)
    requires
        0 <= i < s.len(),
        s[i] == c,
        forall|j: int| 0 <= j < i ==> s[j] != c,
    ensures
        find_char(s, c) == Some(i),
    decreases i + 1,
{
    if i == 0 {
    } else {
        assert(s[0] != c);
        assert(forall|j: int| 0 <= j < i - 1 ==> s.drop_first()[j] == s[j + 1]);
        lemma_find_char_from_first(s.drop_first(), c, i - 1);
    }
}

/// Assigning no buffered positional tokens changes nothing.
proof fn lemma_assign_empty(sorted: Seq<ArgModel>, m: Map<Seq<char>, ValueModel>, k: int)
    requires
        k >= 0,
    ensures
        assign_positionals(sorted, Seq::empty(), m, k) == m,
    decreases sorted.len() - k,
{
    if k < sorted.len() {
        lemma_assign_empty(sorted, m, k + 1);
    }
}

/// Storing one more value cannot make a required argument go missing.
proof fn lemma_first_missing_required_insert(
    args: Seq<ArgModel>,
    m: Map<Seq<char>, ValueModel>,
    k: int,
    key: Seq<char>,
    v: ValueModel,
)
    requires
        first_missing_required(args, m, k) is None,
    ensures
        first_missing_required(args, m.insert(key, v), k) is None,
    decreases args.len() - k,
{
    if 0 <= k < args.len() {
        lemma_first_missing_required_insert(args, m, k + 1, key, v);
    }
}

/// When an absent argument's own backfill would store its default, a
/// parse that already stored that same value reaches the same map: the
/// early insert is absorbed by the backfill stage.
proof fn lemma_backfill_absorbs_default(
    args: Seq<ArgModel>,
    m: Map<Seq<char>, ValueModel>,
    env: Map<Seq<char>, Seq<char>>,
    k: int,
    ai: int,
)
    requires
        0 <= k <= ai < args.len(),
        args[ai].env is None,
        args[ai].default_value is Some,
        !m.contains_key(args[ai].name),
        forall|j: int|
            k <= j < args.len() && j != ai ==> (#[trigger] args[j]).name != args[ai].name,
    ensures
        apply_backfill(
            args,
            m.insert(args[ai].name, ValueModel::Single(args[ai].default_value->0)),
            env,
            k,
        ) == apply_backfill(args, m, env, k),
    decreases ai - k,
{
    let a = args[ai];
    let d = a.default_value->0;
    let sd = ValueModel::Single(d);
    if k == ai {
        assert(backfill_one(a, m.insert(a.name, sd), env) == m.insert(a.name, sd));
        assert(backfill_one(a, m, env) == m.insert(a.name, sd));
    } else {
        let b = args[k];
        assert(b.name != a.name);
        assert(backfill_one(b, m.insert(a.name, sd), env) == backfill_one(b, m, env).insert(
            a.name,
            sd,
        )) by {
            if m.contains_key(b.name) {
            } else {
                let from_env = match b.env {
                    Some(ev) => if env.contains_key(ev) {
                        Some(env[ev])
                    } else {
                        None::<Seq<char>>
                    },
                    None => None::<Seq<char>>,
                };
                match from_env {
                    Some(v) => {
                        assert(m.insert(a.name, sd).insert(b.name, ValueModel::Single(v))
                            =~= m.insert(b.name, ValueModel::Single(v)).insert(a.name, sd));
                    },
                    None => {
                        match b.default_value {
                            Some(bd) => {
                                assert(m.insert(a.name, sd).insert(
                                    b.name,
                                    ValueModel::Single(bd),
                                ) =~= m.insert(b.name, ValueModel::Single(bd)).insert(
                                    a.name,
                                    sd,
                                ));
                            },
                            None => {},
                        }
                    },
                }
            }
        }
        assert(!backfill_one(b, m, env).contains_key(a.name));
        lemma_backfill_absorbs_default(args, backfill_one(b, m, env), env, k + 1, ai);
    }
}

/// The idempotence of defaults, over a whole parse: when an input gave
/// an optional argument nothing and its default was stored, parsing the
/// rendered default explicitly yields the very same result.  The
/// argument must take one plain value, draw on no environment source,
/// pass its own allowed-value check, be the only argument under its
/// name, and the default must not begin with `-`.
pub proof fn lemma_default_round_trip(
    c: CommandModel,
    env: Map<Seq<char>, Seq<char>>,
    tok: Seq<char>,
    ai: int,
)
    requires
        spec_parse_with(c, Seq::empty(), env) is Ok,
        starts_dashdash(tok),
        tok != "--help"@ && tok != "-h"@,
        tok != "--version"@ && tok != "-V"@,
        find_char(tok, '=') is None,
        find_arg_idx(c.args, trim_dashdash(tok)) == Some(ai),
        0 <= ai < c.args.len(),
        c.args[ai].takes_value,
        c.args[ai].value_delimiter is None,
        !c.args[ai].multiple,
        c.args[ai].env is None,
        c.args[ai].default_value is Some,
        passes_allowed(c.args[ai], c.args[ai].default_value->0),
        !starts_dash(c.args[ai].default_value->0),
        forall|j: int|
            0 <= j < c.args.len() && j != ai ==> (#[trigger] c.args[j]).name != c.args[ai].name,
    ensures
        spec_parse_with(c, seq![tok, c.args[ai].default_value->0], env) == spec_parse_with(
            c,
            Seq::empty(),
            env,
        ),
{
    let a = c.args[ai];
    let d = a.default_value->0;
    let sd = ValueModel::Single(d);
    let toks = seq![tok, d];
    let none_tokens = Seq::<Seq<char>>::empty();
    let empty_map = Map::<Seq<char>, ValueModel>::empty();
    let no_pos = Seq::<Seq<char>>::empty();

    // The empty input scans to an empty store.
    assert(spec_scan(c, none_tokens, empty_map, no_pos, env) == Ok::<_, ErrorModel>(
        (empty_map, no_pos, None::<(Seq<char>, Box<MatchesModel>)>),
    ));

    // The explicit input stores the default under the argument's name
    // and nothing else.
    let m0 = empty_map.insert(a.name, sd);
    assert(toks[0] == tok && toks[1] == d);
    assert(spec_process_value(a, d, empty_map) == Ok::<_, ErrorModel>(m0));
    assert(spec_flag_step(c, toks, empty_map) == Ok::<_, ErrorModel>((m0, 2int)));
    assert(toks.skip(2) =~= none_tokens);
    assert(spec_scan(c, toks, empty_map, no_pos, env) == spec_scan(
        c,
        none_tokens,
        m0,
        no_pos,
        env,
    ));
    assert(spec_scan(c, none_tokens, m0, no_pos, env) == Ok::<_, ErrorModel>(
        (m0, no_pos, None::<(Seq<char>, Box<MatchesModel>)>),
    ));

    // Neither input buffers positional tokens.
    lemma_assign_empty(sorted_positionals(c.args), empty_map, 0);
    lemma_assign_empty(sorted_positionals(c.args), m0, 0);

    // The empty parse passed the required check, so the explicit parse
    // does too.
    assert(first_missing_required(c.args, empty_map, 0) is None);
    lemma_first_missing_required_insert(c.args, empty_map, 0, a.name, sd);

    // The backfill stores the default in the empty parse and leaves the
    // explicit store as it is; the maps agree from there on.
    lemma_backfill_absorbs_default(c.args, empty_map, env, 0, ai);
}

/// The required-argument invariant: when the scan and positional
/// assignment leave a required argument unresolved, and it is the first
/// such argument in declaration order, the parse fails with
/// `MissingArgument` naming it.  The required check runs before the
/// backfill, so a default or environment source does not rescue it.
pub proof fn lemma_required_missing(
    c: CommandModel,
    args: Seq<Seq<char>>,
    env: Map<Seq<char>, Seq<char>>,
    x: ArgModel,
    i: int,
)
    requires
        spec_scan(c, args, Map::empty(), Seq::empty(), env) matches Ok(out) && ({
            let m1 = assign_positionals(sorted_positionals(c.args), out.1, out.0, 0);
            &&& 0 <= i < c.args.len()
            &&& c.args[i] == x
            &&& x.required
            &&& !m1.contains_key(x.name)
            &&& forall|j: int|
                0 <= j < i ==> !((#[trigger] c.args[j]).required && !m1.contains_key(
                    c.args[j].name,
                ))
        }),
    ensures
        spec_parse_with(c, args, env) == Err::<MatchesModel, _>(
            ErrorModel::MissingArgument(x.name),
        ),
{
    let out = spec_scan(c, args, Map::empty(), Seq::empty(), env)->Ok_0;
    let m1 = assign_positionals(sorted_positionals(c.args), out.1, out.0, 0);
    lemma_first_missing_required_at(c.args, m1, x, i, 0);
}

/// `first_missing_required` finds exactly the first required-and-absent
/// argument.
proof fn lemma_first_missing_required_at(
    args: Seq<ArgModel>,
    m: Map<Seq<char>, ValueModel>,
    x: ArgModel,
    i: int,
    k: int,
)
    requires
        0 <= k <= i < args.len(),
        args[i] == x,
        x.required,
        !m.contains_key(x.name),
        forall|j: int|
            k <= j < i ==> !((#[trigger] args[j]).required && !m.contains_key(args[j].name)),
    ensures
        first_missing_required(args, m, k) == Some(x.name),
    decreases i - k,
{
    if k == i {
    } else {
        lemma_first_missing_required_at(args, m, x, i, k + 1);
    }
}

/// The conflict invariant: when two arguments are both present after
/// backfill, one naming the other in its conflict list, and the earlier
/// stages pass, the parse fails with `ArgumentConflict`.
pub proof fn lemma_conflict_detected(
    c: CommandModel,
    args: Seq<Seq<char>>,
    env: Map<Seq<char>, Seq<char>>,
    i: int,
)
    requires
        spec_scan(c, args, Map::empty(), Seq::empty(), env) matches Ok(out) && ({
            let m1 = assign_positionals(sorted_positionals(c.args), out.1, out.0, 0);
            let m2 = apply_backfill(c.args, m1, env, 0);
            &&& first_missing_required(c.args, m1, 0) is None
            &&& first_dep_violation(c.args, m2, 0) is None
            &&& 0 <= i < c.args.len()
            &&& m2.contains_key(c.args[i].name)
            &&& exists|j: int|
                0 <= j < c.args[i].conflicts_list.len() && m2.contains_key(
                    #[trigger] c.args[i].conflicts_list[j],
                )
        }),
    ensures
        spec_parse_with(c, args, env) matches Err(e) && e is ArgumentConflict,
{
    let out = spec_scan(c, args, Map::empty(), Seq::empty(), env)->Ok_0;
    let m1 = assign_positionals(sorted_positionals(c.args), out.1, out.0, 0);
    let m2 = apply_backfill(c.args, m1, env, 0);
    lemma_first_conflict_some(c.args, m2, i, 0);
}

/// When some argument from `k` on is present and conflicted,
/// `first_conflict` reports a pair.
proof fn lemma_first_conflict_some(
    args: Seq<ArgModel>,
    m: Map<Seq<char>, ValueModel>,
    i: int,
    k: int,
)
    requires
        0 <= k <= i < args.len(),
        m.contains_key(args[i].name),
        exists|j: int|
            0 <= j < args[i].conflicts_list.len() && m.contains_key(
                #[trigger] args[i].conflicts_list[j],
            ),
    ensures
        first_conflict(args, m, k) is Some,
    decreases i - k,
{
    if k == i {
        let j = choose|j: int|
            0 <= j < args[i].conflicts_list.len() && m.contains_key(
                #[trigger] args[i].conflicts_list[j],
            );
        lemma_first_present_conflict_some(args[i].conflicts_list, m, j, 0);
    } else {
        if m.contains_key(args[k].name) && first_present_conflict(args[k].conflicts_list, m, 0)
            is Some {
        } else {
            lemma_first_conflict_some(args, m, i, k + 1);
        }
    }
}

/// When some name from `j` on is present, `first_present_conflict`
/// reports one.
proof fn lemma_first_present_conflict_some(
    list: Seq<Seq<char>>,
    m: Map<Seq<char>, ValueModel>,
    j: int,
    k: int,
)
    requires
        0 <= k <= j < list.len(),
        m.contains_key(list[j]),
    ensures
        first_present_conflict(list, m, k) is Some,
    decreases j - k,
{
    if k == j {
    } else {
        if m.contains_key(list[k]) {
        } else {
            lemma_first_present_conflict_some(list, m, j, k + 1);
        }
    }
}

} // verus!
