//! The help renderer: a pure function from a command descriptor to its
//! usage and help text.
//!
//! `spec_help` pins the text down completely, so rendering is
//! deterministic: two calls on equal descriptors give equal text.

use vstd::prelude::*;
use crate::command::{Arg, ArgModel, Command, CommandModel, args_view};
use crate::parse::sorted_positionals;
use crate::strutil::{char_repeat, join_strings, join_with, repeat_char, to_upper, upper_of};
use vstd::string::StrSliceExecFns;
use vstd::string::StringExecFns;

verus! {

/// `s` padded with spaces to the thirty-column description margin.
pub open spec fn pad30(s: Seq<char>) -> Seq<char> {
    if s.len() >= 30 {
        s
    } else {
        s + repeat_char(' ', (30 - s.len()) as nat)
    }
}

/// The header: the description, then the version line.
pub open spec fn help_header(c: CommandModel) -> Seq<char> {
    (match c.about {
        Some(a) => a + "\n"@,
        None => Seq::empty(),
    }) + (match c.version {
        Some(v) => "\nVersion: "@ + v + "\n"@,
        None => Seq::empty(),
    })
}

/// One positional argument in the usage line: `[NAME]...` for the
/// variadic one, `<NAME>` when required, `[NAME]` otherwise.
pub open spec fn usage_positional(a: ArgModel) -> Seq<char> {
    if a.last {
        " ["@ + upper_of(a.name) + "]..."@
    } else if a.required {
        " <"@ + upper_of(a.name) + ">"@
    } else {
        " ["@ + upper_of(a.name) + "]"@
    }
}

/// The usage line's positional part, from `k` on.
pub open spec fn usage_positionals(sorted: Seq<ArgModel>, k: int) -> Seq<char>
    decreases sorted.len() - k,
{
    if k < 0 || k >= sorted.len() {
        Seq::empty()
    } else {
        usage_positional(sorted[k]) + usage_positionals(sorted, k + 1)
    }
}

/// The usage line: program name, the options marker, each positional in
/// ascending slot order, and the command marker.
pub open spec fn help_usage(c: CommandModel) -> Seq<char> {
    "\nUSAGE:\n    "@ + c.name + (if exists|j: int|
        0 <= j < c.args.len() && (#[trigger] c.args[j]).index is None {
        " [OPTIONS]"@
    } else {
        Seq::empty()
    }) + usage_positionals(sorted_positionals(c.args), 0) + (if c.subcommands.len() > 0 {
        " <COMMAND>"@
    } else {
        Seq::empty()
    }) + "\n"@
}

/// One line of the ARGS section.
pub open spec fn arg_line(a: ArgModel) -> Seq<char> {
    pad30("    <"@ + upper_of(a.name) + ">"@) + (match a.help {
        Some(h) => h,
        None => Seq::empty(),
    }) + (if a.required {
        " [required]"@
    } else {
        Seq::empty()
    }) + "\n"@
}

/// The ARGS section body, from `k` on.
pub open spec fn arg_lines(sorted: Seq<ArgModel>, k: int) -> Seq<char>
    decreases sorted.len() - k,
{
    if k < 0 || k >= sorted.len() {
        Seq::empty()
    } else {
        arg_line(sorted[k]) + arg_lines(sorted, k + 1)
    }
}

/// The ARGS section: the positional arguments, or nothing when there
/// are none.
pub open spec fn help_args_section(c: CommandModel) -> Seq<char> {
    let sorted = sorted_positionals(c.args);
    if sorted.len() == 0 {
        Seq::empty()
    } else {
        "\nARGS:\n"@ + arg_lines(sorted, 0)
    }
}

/// One line of the OPTIONS section: the flag forms, the value
/// placeholder, the help text, and the required and default notes.
pub open spec fn option_line(a: ArgModel) -> Seq<char> {
    let forms = "    "@ + (match a.short {
        Some(ch) => "-"@ + seq![ch] + (if a.long is Some {
            ", "@
        } else {
            Seq::empty()
        }),
        None => Seq::empty(),
    }) + (match a.long {
        Some(l) => "--"@ + l,
        None => Seq::empty(),
    }) + (if a.takes_value {
        " <"@ + upper_of(a.name) + ">"@
    } else {
        Seq::empty()
    });
    pad30(forms) + (match a.help {
        Some(h) => h,
        None => Seq::empty(),
    }) + (if a.required {
        " [required]"@
    } else {
        Seq::empty()
    }) + (match a.default_value {
        Some(d) => " [default: "@ + d + "]"@,
        None => Seq::empty(),
    }) + "\n"@
}

/// The OPTIONS section body, from `k` on.
pub open spec fn option_lines(opts: Seq<ArgModel>, k: int) -> Seq<char>
    decreases opts.len() - k,
{
    if k < 0 || k >= opts.len() {
        Seq::empty()
    } else {
        option_line(opts[k]) + option_lines(opts, k + 1)
    }
}

/// The flag and option arguments, in declaration order.
pub open spec fn option_args(args: Seq<ArgModel>) -> Seq<ArgModel> {
    args.filter(|a: ArgModel| a.index is None)
}

/// The OPTIONS section, or nothing when every argument is positional.
pub open spec fn help_options_section(c: CommandModel) -> Seq<char> {
    let opts = option_args(c.args);
    if opts.len() == 0 {
        Seq::empty()
    } else {
        "\nOPTIONS:\n"@ + option_lines(opts, 0)
    }
}

/// One line of the COMMANDS section: name, aliases, description.
pub open spec fn subcommand_line(s: CommandModel) -> Seq<char> {
    pad30("    "@ + s.name + (if s.aliases.len() > 0 {
        " ("@ + join_with(s.aliases, ", "@) + ")"@
    } else {
        Seq::empty()
    })) + (match s.about {
        Some(a) => a,
        None => Seq::empty(),
    }) + "\n"@
}

/// The COMMANDS section body, from `k` on.
pub open spec fn subcommand_lines(subs: Seq<CommandModel>, k: int) -> Seq<char>
    decreases subs.len() - k,
{
    if k < 0 || k >= subs.len() {
        Seq::empty()
    } else {
        subcommand_line(subs[k]) + subcommand_lines(subs, k + 1)
    }
}

/// The COMMANDS section, or nothing when there are no subcommands.
pub open spec fn help_subcommands_section(c: CommandModel) -> Seq<char> {
    if c.subcommands.len() == 0 {
        Seq::empty()
    } else {
        "\nCOMMANDS:\n"@ + subcommand_lines(c.subcommands, 0)
            + "\nRun '<COMMAND> --help' for more information on a specific command.\n"@
    }
}

/// The whole help text: header, usage line, ARGS, OPTIONS and COMMANDS
/// sections, in that order.
pub open spec fn spec_help(c: CommandModel) -> Seq<char> {
    help_header(c) + help_usage(c) + help_args_section(c) + help_options_section(c)
        + help_subcommands_section(c)
}

/// Appends spaces until the text reaches the description margin.
fn pad_line(s: &mut String)
    ensures
        final(s)@ == pad30(old(s)@),
{
    let n = s.as_str().unicode_len();
    if n < 30 {
        let fill = char_repeat(' ', 30 - n);
        s.append(fill.as_str());
    }
}


/// One OPTIONS line for an argument, exactly as `option_line` lays it
/// out.
#[verifier::rlimit(100)]
fn render_option_line(a: &Arg) -> (r: String)
    ensures
        r@ == option_line(a@),
{
    let ghost short_part = (match a@.short {
        Some(ch) => "-"@ + seq![ch] + (if a@.long is Some {
            ", "@
        } else {
            Seq::<char>::empty()
        }),
        None => Seq::<char>::empty(),
    });
    let ghost long_part = (match a@.long {
        Some(l) => "--"@ + l,
        None => Seq::<char>::empty(),
    });
    let ghost value_part = (if a@.takes_value {
        " <"@ + upper_of(a@.name) + ">"@
    } else {
        Seq::<char>::empty()
    });
    let mut line = String::new();
    line.append("    ");
    match a.short {
        Some(ch) => {
            line.append("-");
            let cs = crate::strutil::char_string(ch);
            line.append(cs.as_str());
            if a.long.is_some() {
                line.append(", ");
            }
            proof {
                assert(line@ =~= "    "@ + short_part);
            }
        },
        None => {
            proof {
                assert(line@ =~= "    "@ + short_part);
            }
        },
    }
    match &a.long {
        Some(l) => {
            line.append("--");
            line.append(l.as_str());
        },
        None => {},
    }
    proof {
        assert(line@ =~= "    "@ + short_part + long_part);
    }
    if a.takes_value {
        let upper = to_upper(a.name.as_str());
        line.append(" <");
        line.append(upper.as_str());
        line.append(">");
    }
    proof {
        assert(line@ =~= "    "@ + short_part + long_part + value_part);
    }
    let ghost forms = line@;
    pad_line(&mut line);
    proof {
        assert(line@ == pad30(forms));
    }
    let ghost help_part = (match a@.help {
        Some(h) => h,
        None => Seq::<char>::empty(),
    });
    match &a.help {
        Some(h) => line.append(h.as_str()),
        None => {},
    }
    proof {
        assert(line@ =~= pad30(forms) + help_part);
    }
    if a.required {
        line.append(" [required]");
    }
    let ghost req_part = (if a@.required {
        " [required]"@
    } else {
        Seq::<char>::empty()
    });
    proof {
        assert(line@ =~= pad30(forms) + help_part + req_part);
    }
    match &a.default_value {
        Some(d) => {
            line.append(" [default: ");
            line.append(d.as_str());
            line.append("]");
        },
        None => {},
    }
    let ghost def_part = (match a@.default_value {
        Some(d) => " [default: "@ + d + "]"@,
        None => Seq::<char>::empty(),
    });
    proof {
        assert(line@ =~= pad30(forms) + help_part + req_part + def_part);
    }
    line.append("
");
    proof {
        assert(line@ =~= pad30(forms) + help_part + req_part + def_part + "
"@);
        assert(option_line(a@) == pad30("    "@ + short_part + long_part + value_part) + help_part
            + req_part + def_part + "
"@);
        assert(forms == "    "@ + short_part + long_part + value_part);
    }
    line
}

/// Appending one more option extends the section body by its line.
proof fn lemma_option_lines_push(s: Seq<ArgModel>, x: ArgModel, k: int)
    requires
        0 <= k <= s.len(),
    ensures
        option_lines(s.push(x), k) == option_lines(s, k) + option_line(x),
    decreases s.len() - k,
{
    if k == s.len() {
        assert(option_lines(s.push(x), k) == option_line(x) + option_lines(s.push(x), k + 1));
        assert(option_lines(s.push(x), k + 1) == Seq::<char>::empty());
        assert(option_lines(s, k) == Seq::<char>::empty());
        assert(option_line(x) + Seq::<char>::empty() =~= option_line(x));
        assert(Seq::<char>::empty() + option_line(x) =~= option_line(x));
    } else {
        lemma_option_lines_push(s, x, k + 1);
        assert(s.push(x)[k] == s[k]);
        assert(option_line(s[k]) + (option_lines(s, k + 1) + option_line(x)) =~= (option_line(s[k])
            + option_lines(s, k + 1)) + option_line(x));
    }
}

impl Command {
    /// The usage line's positional parts and the ARGS section lines.
    fn render_positional_parts(&self, sorted: &Vec<Arg>, usage: &mut String, lines: &mut String)
        requires
            args_view(sorted@) == sorted_positionals(self@.args),
        ensures
            final(usage)@ == old(usage)@ + usage_positionals(sorted_positionals(self@.args), 0),
            final(lines)@ == old(lines)@ + arg_lines(sorted_positionals(self@.args), 0),
    {
        let ghost sv = sorted_positionals(self@.args);
        let n = sorted.len();
        proof {
            assert(args_view(sorted@).len() == sorted@.len());
        }
        let mut k: usize = 0;
        while k < n
            invariant
                0 <= k <= n,
                n == sorted@.len(),
                sv == sorted_positionals(self@.args),
                sv == args_view(sorted@),
                sv.len() == n,
                old(usage)@ + usage_positionals(sv, 0) == usage@ + usage_positionals(sv, k as int),
                old(lines)@ + arg_lines(sv, 0) == lines@ + arg_lines(sv, k as int),
            decreases n - k,
        {
            let a = &sorted[k];
            proof {
                assert(sv[k as int] == sorted@[k as int]@);
            }
            let ghost u0 = usage@;
            let ghost l0 = lines@;
            let upper = to_upper(a.name.as_str());
            if a.last {
                usage.append(" [");
                usage.append(upper.as_str());
                usage.append("]...");
            } else if a.required {
                usage.append(" <");
                usage.append(upper.as_str());
                usage.append(">");
            } else {
                usage.append(" [");
                usage.append(upper.as_str());
                usage.append("]");
            }
            proof {
                assert(usage@ =~= u0 + usage_positional(sv[k as int]));
                assert(old(usage)@ + usage_positionals(sv, 0) =~= usage@ + usage_positionals(
                    sv,
                    k + 1,
                ));
            }
            let mut line = String::new();
            line.append("    <");
            line.append(upper.as_str());
            line.append(">");
            proof {
                assert(line@ =~= "    <"@ + upper_of(sv[k as int].name) + ">"@);
            }
            pad_line(&mut line);
            match &a.help {
                Some(h) => line.append(h.as_str()),
                None => {},
            }
            if a.required {
                line.append(" [required]");
            }
            line.append("\n");
            proof {
                assert(line@ =~= arg_line(sv[k as int]));
            }
            lines.append(line.as_str());
            proof {
                assert(old(lines)@ + arg_lines(sv, 0) =~= lines@ + arg_lines(sv, k + 1));
            }
            k = k + 1;
        }
    }

    /// The OPTIONS section, appended to `out`.
    #[verifier::rlimit(100)]
    fn render_options_section(&self, out: &mut String)
        ensures
            final(out)@ == old(out)@ + help_options_section(self@),
    {
        proof {
            reveal(Seq::filter);
        }
        let n = self.args.len();
        let mut any: bool = false;
        let mut i: usize = 0;
        while i < n
            invariant
                0 <= i <= n,
                n == self.args.len(),
                any == exists|j: int|
                    0 <= j < i && (#[trigger] self@.args[j]).index is None,
            decreases n - i,
        {
            let a = &self.args[i];
            proof {
                assert(self@.args[i as int] == self.args@[i as int]@);
            }
            if a.index.is_none() {
                any = true;
            }
            i = i + 1;
        }
        if !any {
            proof {
                lemma_filter_all_positional(self@.args);
                assert(out@ + help_options_section(self@) =~= out@);
            }
            return ;
        }
        out.append("\nOPTIONS:\n");
        let ghost base = out@;
        let ghost opts = option_args(self@.args);
        let mut i: usize = 0;
        while i < n
            invariant
                0 <= i <= n,
                n == self.args.len(),
                opts == option_args(self@.args),
                out@ == base + option_lines(
                    self@.args.take(i as int).filter(|a: ArgModel| a.index is None),
                    0,
                ),
                base == old(out)@ + "\nOPTIONS:\n"@,
            decreases n - i,
        {
            let a = &self.args[i];
            let ghost fprev = self@.args.take(i as int).filter(|a: ArgModel| a.index is None);
            proof {
                reveal(Seq::filter);
                assert(self@.args[i as int] == self.args@[i as int]@);
                assert(self@.args.take(i + 1).drop_last() =~= self@.args.take(i as int));
                assert(self@.args.take(i + 1).last() == self@.args[i as int]);
            }
            if a.index.is_none() {
                proof {
                    assert(self@.args.take(i + 1).filter(|a: ArgModel| a.index is None) == fprev
                        .push(self@.args[i as int]));
                    lemma_option_lines_push(fprev, self@.args[i as int], 0);
                }
                let line = render_option_line(a);
                out.append(line.as_str());
                proof {
                    assert(out@ =~= base + option_lines(
                        self@.args.take(i + 1).filter(|a: ArgModel| a.index is None),
                        0,
                    ));
                }
            } else {
                proof {
                    assert(self@.args.take(i + 1).filter(|a: ArgModel| a.index is None) == fprev);
                }
            }
            i = i + 1;
        }
        proof {
            assert(self@.args.take(n as int) =~= self@.args);
            assert(opts.len() > 0) by {
                reveal(Seq::filter);
                let j = choose|j: int|
                    0 <= j < self@.args.len() && (#[trigger] self@.args[j]).index is None;
                self@.args.lemma_filter_contains(|a: ArgModel| a.index is None, j);
            }
            assert(out@ =~= old(out)@ + help_options_section(self@));
        }
    }

    /// The COMMANDS section, appended to `out`.
    fn render_subcommands_section(&self, out: &mut String)
        ensures
            final(out)@ == old(out)@ + help_subcommands_section(self@),
    {
        let n = self.subcommands.len();
        proof {
            crate::command::lemma_cmds_view_len(self.subcommands@);
        }
        if n == 0 {
            proof {
                assert(out@ + help_subcommands_section(self@) =~= out@);
            }
            return ;
        }
        out.append("\nCOMMANDS:\n");
        let ghost base = out@;
        let ghost subs = self@.subcommands;
        let mut k: usize = 0;
        while k < n
            invariant
                0 <= k <= n,
                n == self.subcommands.len(),
                subs == self@.subcommands,
                subs.len() == n,
                base + subcommand_lines(subs, 0) == out@ + subcommand_lines(subs, k as int),
            decreases n - k,
        {
            proof {
                crate::command::lemma_cmds_view_index(self.subcommands@, k as int);
            }
            let sub = &self.subcommands[k];
            let ghost o0 = out@;
            let mut line = String::new();
            line.append("    ");
            line.append(sub.name.as_str());
            if sub.aliases.len() > 0 {
                line.append(" (");
                let joined = join_strings(&sub.aliases, ", ");
                line.append(joined.as_str());
                line.append(")");
            }
            proof {
                assert(line@ =~= "    "@ + subs[k as int].name + (if subs[k as int].aliases.len()
                    > 0 {
                    " ("@ + join_with(subs[k as int].aliases, ", "@) + ")"@
                } else {
                    Seq::<char>::empty()
                }));
            }
            pad_line(&mut line);
            match &sub.about {
                Some(a) => line.append(a.as_str()),
                None => {},
            }
            line.append("\n");
            proof {
                assert(line@ =~= subcommand_line(subs[k as int]));
            }
            out.append(line.as_str());
            proof {
                assert(base + subcommand_lines(subs, 0) =~= out@ + subcommand_lines(subs, k + 1));
            }
            k = k + 1;
        }
        out.append("\nRun '<COMMAND> --help' for more information on a specific command.\n");
        proof {
            assert(out@ =~= old(out)@ + help_subcommands_section(self@));
        }
    }

    /// The whole help text for this command, exactly as `spec_help`
    /// lays it out.
    pub fn generate_help(&self) -> (r: String)
        ensures
            r@ == spec_help(self@),
    {
        let mut help = String::new();
        match &self.about {
            Some(a) => {
                help.append(a.as_str());
                help.append("\n");
            },
            None => {},
        }
        match &self.version {
            Some(v) => {
                help.append("\nVersion: ");
                help.append(v.as_str());
                help.append("\n");
            },
            None => {},
        }
        proof {
            assert(help@ =~= help_header(self@));
        }
        let mut usage = String::new();
        usage.append("\nUSAGE:\n    ");
        usage.append(self.name.as_str());
        let n = self.args.len();
        let mut any: bool = false;
        let mut i: usize = 0;
        while i < n
            invariant
                0 <= i <= n,
                n == self.args.len(),
                any == exists|j: int|
                    0 <= j < i && (#[trigger] self@.args[j]).index is None,
            decreases n - i,
        {
            let a = &self.args[i];
            proof {
                assert(self@.args[i as int] == self.args@[i as int]@);
            }
            if a.index.is_none() {
                any = true;
            }
            i = i + 1;
        }
        if any {
            usage.append(" [OPTIONS]");
        }
        let ghost usage_head = usage@;
        let sorted = self.positional_order();
        let mut arg_section = String::new();
        self.render_positional_parts(&sorted, &mut usage, &mut arg_section);
        if self.subcommands.len() > 0 {
            proof {
                crate::command::lemma_cmds_view_len(self.subcommands@);
            }
            usage.append(" <COMMAND>");
        } else {
            proof {
                crate::command::lemma_cmds_view_len(self.subcommands@);
            }
        }
        usage.append("\n");
        proof {
            assert(usage@ =~= help_usage(self@));
        }
        help.append(usage.as_str());
        let has_args = sorted.len() > 0;
        proof {
            assert(args_view(sorted@).len() == sorted@.len());
        }
        if has_args {
            help.append("\nARGS:\n");
            help.append(arg_section.as_str());
        }
        proof {
            if has_args {
                assert(help@ =~= help_header(self@) + help_usage(self@) + help_args_section(
                    self@,
                ));
            } else {
                assert(help@ =~= help_header(self@) + help_usage(self@) + help_args_section(
                    self@,
                ));
            }
        }
        self.render_options_section(&mut help);
        self.render_subcommands_section(&mut help);
        proof {
            assert(help@ =~= spec_help(self@));
        }
        help
    }
}

/// When no declared argument is an option, the option filter is empty.
proof fn lemma_filter_all_positional(args: Seq<ArgModel>)
    requires
        forall|j: int| 0 <= j < args.len() ==> !((#[trigger] args[j]).index is None),
    ensures
        option_args(args).len() == 0,
    decreases args.len(),
{
    reveal(Seq::filter);
    if args.len() > 0 {
        assert(forall|j: int|
            0 <= j < args.drop_last().len() ==> args.drop_last()[j] == args[j]);
        lemma_filter_all_positional(args.drop_last());
    }
}

} // verus!
