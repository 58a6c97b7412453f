//! Command and argument descriptors, and the result model.
//!
//! A `Command` is a named node holding argument descriptors, child
//! commands and group declarations; parsing one level of the command
//! line produces an `ArgMatches`.  Every type here has a mathematical
//! model (`ArgModel`, `CommandModel`, `MatchesModel`) that the
//! contracts of the parser and the help renderer speak of.

use vstd::prelude::*;
use vstd::string::StringExecFns;
use crate::strutil::str_eq;

verus! {

broadcast use vstd::seq::axiom_seq_index_decreases, vstd::std_specs::vec::group_vec_axioms;

/// A parsed value: one string, an ordered sequence of strings, or a flag.
#[derive(Debug, Clone, PartialEq)]
pub enum ArgValue {
    /// A single string value
    Single(String),
    /// Multiple string values (for repeated arguments)
    Multiple(Vec<String>),
    /// A flag (present/absent)
    Flag(bool),
}

/// Model of an [`ArgValue`]: the same three cases over character sequences.
pub enum ValueModel {
    Single(Seq<char>),
    Multiple(Seq<Seq<char>>),
    Flag(bool),
}

impl View for ArgValue {
    type V = ValueModel;

    open spec fn view(&self) -> ValueModel {
        match self {
            ArgValue::Single(s) => ValueModel::Single(s@),
            ArgValue::Multiple(v) => ValueModel::Multiple(v.deep_view()),
            ArgValue::Flag(b) => ValueModel::Flag(*b),
        }
    }
}

impl ArgValue {
    /// The value as a string, when it is a single value.
    pub fn as_str(&self) -> (r: Option<&str>)
        ensures
            (r is Some) == (self@ is Single),
            r matches Some(s) ==> self@ == ValueModel::Single(s@),
    {
        match self {
            ArgValue::Single(s) => Some(s.as_str()),
            _ => None,
        }
    }

    /// The value as a boolean, when it is a flag.
    pub fn as_bool(&self) -> (r: Option<bool>)
        ensures
            (r is Some) == (self@ is Flag),
            r matches Some(b) ==> self@ == ValueModel::Flag(b),
    {
        match self {
            ArgValue::Flag(b) => Some(*b),
            _ => None,
        }
    }

    /// The values as a slice, when there are multiple.
    pub fn as_vec(&self) -> (r: Option<&[String]>)
        ensures
            (r is Some) == (self@ is Multiple),
            r matches Some(v) ==> self@ == ValueModel::Multiple(v.deep_view()),
    {
        match self {
            ArgValue::Multiple(v) => Some(v.as_slice()),
            _ => None,
        }
    }
}

/// Errors and signals that can end the parse of one command level.
#[derive(Debug, Clone, PartialEq)]
pub enum CommandError {
    /// A required argument or group is absent
    MissingArgument(String),
    /// A flag or long name not declared on the current command
    UnknownArgument(String),
    /// A subcommand token that no child command matches
    UnknownSubcommand(String),
    /// A value failed an argument's checks: (argument name, message)
    ValidationError(String, String),
    /// A value outside an argument's allowed set: (argument name, value)
    InvalidValue(String, String),
    /// Help was requested; not a failure
    HelpRequested,
    /// Version text was requested; not a failure
    VersionRequested,
    /// Two mutually exclusive arguments are both present
    ArgumentConflict(String, String),
    /// A present argument's dependency is absent: (argument, required argument)
    MissingDependency(String, String),
}

/// Model of a [`CommandError`].
pub enum ErrorModel {
    MissingArgument(Seq<char>),
    UnknownArgument(Seq<char>),
    UnknownSubcommand(Seq<char>),
    ValidationError(Seq<char>, Seq<char>),
    InvalidValue(Seq<char>, Seq<char>),
    HelpRequested,
    VersionRequested,
    ArgumentConflict(Seq<char>, Seq<char>),
    MissingDependency(Seq<char>, Seq<char>),
}

impl View for CommandError {
    type V = ErrorModel;

    open spec fn view(&self) -> ErrorModel {
        match self {
            CommandError::MissingArgument(a) => ErrorModel::MissingArgument(a@),
            CommandError::UnknownArgument(a) => ErrorModel::UnknownArgument(a@),
            CommandError::UnknownSubcommand(a) => ErrorModel::UnknownSubcommand(a@),
            CommandError::ValidationError(a, b) => ErrorModel::ValidationError(a@, b@),
            CommandError::InvalidValue(a, b) => ErrorModel::InvalidValue(a@, b@),
            CommandError::HelpRequested => ErrorModel::HelpRequested,
            CommandError::VersionRequested => ErrorModel::VersionRequested,
            CommandError::ArgumentConflict(a, b) => ErrorModel::ArgumentConflict(a@, b@),
            CommandError::MissingDependency(a, b) => ErrorModel::MissingDependency(a@, b@),
        }
    }
}

impl CommandError {
    /// A human-readable description of the error.
    pub fn message(&self) -> String {
        let mut out = String::new();
        match self {
            CommandError::MissingArgument(name) => {
                out.append("error: the argument '");
                out.append(name.as_str());
                out.append("' is required");
            },
            CommandError::UnknownArgument(name) => {
                out.append("error: unknown argument '");
                out.append(name.as_str());
                out.append("'");
            },
            CommandError::UnknownSubcommand(name) => {
                out.append("error: unknown subcommand '");
                out.append(name.as_str());
                out.append("'");
            },
            CommandError::ValidationError(name, msg) => {
                out.append("error: validation failed for '");
                out.append(name.as_str());
                out.append("': ");
                out.append(msg.as_str());
            },
            CommandError::InvalidValue(name, value) => {
                out.append("error: invalid value '");
                out.append(value.as_str());
                out.append("' for '");
                out.append(name.as_str());
                out.append("'");
            },
            CommandError::HelpRequested => {
                out.append("help requested");
            },
            CommandError::VersionRequested => {
                out.append("version requested");
            },
            CommandError::ArgumentConflict(a, b) => {
                out.append("error: the argument '");
                out.append(a.as_str());
                out.append("' cannot be used with '");
                out.append(b.as_str());
                out.append("'");
            },
            CommandError::MissingDependency(a, b) => {
                out.append("error: the argument '");
                out.append(a.as_str());
                out.append("' requires '");
                out.append(b.as_str());
                out.append("'");
            },
        }
        out
    }
}

/// Result type for command operations.
pub type CommandResult<T> = Result<T, CommandError>;

/// A named set of mutually exclusive arguments.
#[derive(Debug)]
pub struct ArgGroup {
    /// Group name, used in error messages
    pub name: String,
    /// Names of the member arguments
    pub args: Vec<String>,
    /// Whether at least one member must be present
    pub required: bool,
}

/// Model of an [`ArgGroup`].
pub struct GroupModel {
    pub name: Seq<char>,
    pub args: Seq<Seq<char>>,
    pub required: bool,
}

impl View for ArgGroup {
    type V = GroupModel;

    open spec fn view(&self) -> GroupModel {
        GroupModel { name: self.name@, args: self.args.deep_view(), required: self.required }
    }
}

/// Pushing onto a vector pushes the element's model onto its deep view.
pub proof fn lemma_deep_view_push<T: DeepView>(v: Vec<T>, w: Vec<T>, x: T)
    requires
        w@ == v@.push(x),
    ensures
        w.deep_view() =~= v.deep_view().push(x.deep_view()),
{
    assert forall|j: int| 0 <= j < w.deep_view().len() implies w.deep_view()[j]
        == v.deep_view().push(x.deep_view())[j] by {
        assert(w@[j] == v@.push(x)[j]);
    }
}

pub(crate) fn clone_strings(v: &Vec<String>) -> (r: Vec<String>)
    ensures
        r@ == v@,
{
    let mut out: Vec<String> = Vec::new();
    let mut i: usize = 0;
    while i < v.len()
        invariant
            0 <= i <= v.len(),
            out@ =~= v@.take(i as int),
        decreases v.len() - i,
    {
        out.push(v[i].clone());
        i = i + 1;
    }
    proof {
        assert(v@.take(v.len() as int) =~= v@);
    }
    out
}

fn clone_opt_string(v: &Option<String>) -> (r: Option<String>)
    ensures
        r == v,
{
    match v {
        Some(s) => Some(s.clone()),
        None => None,
    }
}

/// Copies a borrowed slice of strings into an owned vector.
pub(crate) fn strings_of_slice(s: &[String]) -> (r: Vec<String>)
    ensures
        r.deep_view() == s.deep_view(),
{
    let mut out: Vec<String> = Vec::new();
    let mut i: usize = 0;
    while i < s.len()
        invariant
            0 <= i <= s.len(),
            out@.len() == i,
            forall|j: int| 0 <= j < i ==> out@[j]@ == s@[j]@,
        decreases s.len() - i,
    {
        let x = s[i].clone();
        out.push(x);
        i = i + 1;
    }
    proof {
        assert(out.deep_view() =~= s.deep_view());
    }
    out
}

/// Copies the tail of a vector of strings, from `from` on.
pub(crate) fn strings_of_slice_from(s: &Vec<String>, from: usize) -> (r: Vec<String>)
    requires
        from <= s.len(),
    ensures
        r.deep_view() == s.deep_view().skip(from as int),
{
    let mut out: Vec<String> = Vec::new();
    let mut i: usize = from;
    while i < s.len()
        invariant
            from <= i <= s.len(),
            out@.len() == i - from,
            forall|j: int| 0 <= j < out@.len() ==> out@[j]@ == s@[from + j]@,
        decreases s.len() - i,
    {
        let x = s[i].clone();
        out.push(x);
        i = i + 1;
    }
    proof {
        assert(out.deep_view() =~= s.deep_view().skip(from as int));
    }
    out
}

impl Clone for ArgGroup {
    /// An exact copy.
    fn clone(&self) -> (r: Self)
        ensures
            r@ == self@,
    {
        ArgGroup { name: self.name.clone(), args: clone_strings(&self.args), required: self.required }
    }
}

impl ArgGroup {
    /// Creates a new argument group with the given name.
    pub fn new(name: &str) -> (r: Self)
        ensures
            r@ == (GroupModel {
                name: name@,
                args: Seq::empty(),
                required: false,
            }),
    {
        let r = ArgGroup { name: String::from_str(name), args: Vec::new(), required: false };
        proof {
            assert(r.args.deep_view() =~= Seq::<Seq<char>>::empty());
        }
        r
    }

    /// Adds an argument to this group.
    pub fn arg(self, arg: &str) -> (r: Self)
        ensures
            r@ == (GroupModel { args: self@.args.push(arg@), ..self@ }),
    {
        let ghost orig = self@;
        let mut s = self;
        let x = String::from_str(arg);
        let ghost gx = x;
        let ghost prev = s.args;
        s.args.push(x);
        proof {
            lemma_deep_view_push(prev, s.args, gx);
        }
        s
    }

    /// Adds several arguments to this group.
    pub fn args(self, args: &[&str]) -> (r: Self)
        ensures
            r@ == (GroupModel { args: self@.args + args.deep_view(), ..self@ }),
    {
        let ghost orig = self@;
        let mut s = self;
        let mut i: usize = 0;
        while i < args.len()
            invariant
                0 <= i <= args.len(),
                s.name@ == orig.name,
                s.required == orig.required,
                s.args.deep_view() =~= orig.args + args.deep_view().take(i as int),
            decreases args.len() - i,
        {
            let x = String::from_str(args[i]);
            let ghost gx = x;
            let ghost prev = s.args;
            s.args.push(x);
            proof {
                lemma_deep_view_push(prev, s.args, gx);
                assert(args.deep_view()[i as int] == args@[i as int]@);
                assert(s.args.deep_view() =~= orig.args + args.deep_view().take(i + 1));
            }
            i = i + 1;
        }
        proof {
            assert(args.deep_view().take(args.len() as int) =~= args.deep_view());
        }
        s
    }

    /// Makes this group required: at least one member must be present.
    pub fn required(self, required: bool) -> (r: Self)
        ensures
            r@ == (GroupModel { required: required, ..self@ }),
    {
        let mut s = self;
        s.required = required;
        s
    }
}


/// One declared command-line argument: its identity (name, flags,
/// positional index) and its constraints.
#[derive(Debug)]
pub struct Arg {
    /// Unique identifier within the owning command
    pub name: String,
    /// Short flag character (`-v`)
    pub short: Option<char>,
    /// Long flag name (`--verbose`)
    pub long: Option<String>,
    /// Help text
    pub help: Option<String>,
    /// Whether absence after the scan is an error
    pub required: bool,
    /// Whether the argument consumes a value; `false` makes it a flag
    pub takes_value: bool,
    /// Whether repeated occurrences accumulate into a sequence
    pub multiple: bool,
    /// Value applied when neither the command line nor the environment gave one
    pub default_value: Option<String>,
    /// Allowed values; an empty list allows everything
    pub possible_values: Option<Vec<String>>,
    /// Positional slot, counted from zero; `usize::MAX` marks the variadic positional
    pub index: Option<usize>,
    /// Environment variable consulted before the default
    pub env: Option<String>,
    /// Names of arguments this one depends on
    pub requires_list: Vec<String>,
    /// Names of arguments this one excludes
    pub conflicts_list: Vec<String>,
    /// Character that splits one token into several values
    pub value_delimiter: Option<char>,
    /// Whether this is the variadic last positional
    pub last: bool,
}

/// Model of an [`Arg`].
pub struct ArgModel {
    pub name: Seq<char>,
    pub short: Option<char>,
    pub long: Option<Seq<char>>,
    pub help: Option<Seq<char>>,
    pub required: bool,
    pub takes_value: bool,
    pub multiple: bool,
    pub default_value: Option<Seq<char>>,
    pub possible_values: Option<Seq<Seq<char>>>,
    pub index: Option<usize>,
    pub env: Option<Seq<char>>,
    pub requires_list: Seq<Seq<char>>,
    pub conflicts_list: Seq<Seq<char>>,
    pub value_delimiter: Option<char>,
    pub last: bool,
}

impl View for Arg {
    type V = ArgModel;

    open spec fn view(&self) -> ArgModel {
        ArgModel {
            name: self.name@,
            short: self.short,
            long: self.long.deep_view(),
            help: self.help.deep_view(),
            required: self.required,
            takes_value: self.takes_value,
            multiple: self.multiple,
            default_value: self.default_value.deep_view(),
            possible_values: self.possible_values.deep_view(),
            index: self.index,
            env: self.env.deep_view(),
            requires_list: self.requires_list.deep_view(),
            conflicts_list: self.conflicts_list.deep_view(),
            value_delimiter: self.value_delimiter,
            last: self.last,
        }
    }
}

impl DeepView for Arg {
    type V = ArgModel;

    open spec fn deep_view(&self) -> ArgModel {
        self.view()
    }
}

fn clone_opt_strings(v: &Option<Vec<String>>) -> (r: Option<Vec<String>>)
    ensures
        r.deep_view() == v.deep_view(),
{
    match v {
        Some(xs) => Some(clone_strings(xs)),
        None => None,
    }
}

impl Clone for Arg {
    /// An exact copy.
    fn clone(&self) -> (r: Self)
        ensures
            r@ == self@,
    {
        Arg {
            name: self.name.clone(),
            short: self.short,
            long: clone_opt_string(&self.long),
            help: clone_opt_string(&self.help),
            required: self.required,
            takes_value: self.takes_value,
            multiple: self.multiple,
            default_value: clone_opt_string(&self.default_value),
            possible_values: clone_opt_strings(&self.possible_values),
            index: self.index,
            env: clone_opt_string(&self.env),
            requires_list: clone_strings(&self.requires_list),
            conflicts_list: clone_strings(&self.conflicts_list),
            value_delimiter: self.value_delimiter,
            last: self.last,
        }
    }
}

impl Arg {
    /// Creates a new argument with the given name.  It takes a value
    /// until `takes_value(false)` says otherwise, and its allowed-value
    /// list starts out empty, which allows everything.
    pub fn new(name: &str) -> (r: Self)
        ensures
            r@ == (ArgModel {
                name: name@,
                short: None,
                long: None,
                help: None,
                required: false,
                takes_value: true,
                multiple: false,
                default_value: None,
                possible_values: Some(Seq::empty()),
                index: None,
                env: None,
                requires_list: Seq::empty(),
                conflicts_list: Seq::empty(),
                value_delimiter: None,
                last: false,
            }),
    {
        let r = Arg {
            name: String::from_str(name),
            short: None,
            long: None,
            help: None,
            required: false,
            takes_value: true,
            multiple: false,
            default_value: None,
            possible_values: Some(Vec::new()),
            index: None,
            env: None,
            requires_list: Vec::new(),
            conflicts_list: Vec::new(),
            value_delimiter: None,
            last: false,
        };
        proof {
            assert(r.possible_values.deep_view() matches Some(s) && s =~= Seq::<Seq<char>>::empty());
            assert(r.requires_list.deep_view() =~= Seq::<Seq<char>>::empty());
            assert(r.conflicts_list.deep_view() =~= Seq::<Seq<char>>::empty());
        }
        r
    }

    /// Sets the short flag character (`-v`).
    pub fn short(self, short: char) -> (r: Self)
        ensures
            r@ == (ArgModel { short: Some(short), ..self@ }),
    {
        let mut s = self;
        s.short = Some(short);
        s
    }

    /// Sets the long flag name (`--verbose`).
    pub fn long(self, long: &str) -> (r: Self)
        ensures
            r@ == (ArgModel { long: Some(long@), ..self@ }),
    {
        let mut s = self;
        s.long = Some(String::from_str(long));
        s
    }

    /// Sets the help text shown for this argument.
    pub fn about(self, help: &str) -> (r: Self)
        ensures
            r@ == (ArgModel { help: Some(help@), ..self@ }),
    {
        let mut s = self;
        s.help = Some(String::from_str(help));
        s
    }

    /// Marks this argument as required.
    pub fn required(self, required: bool) -> (r: Self)
        ensures
            r@ == (ArgModel { required: required, ..self@ }),
    {
        let mut s = self;
        s.required = required;
        s
    }

    /// Sets whether this argument consumes a value.
    pub fn takes_value(self, takes_value: bool) -> (r: Self)
        ensures
            r@ == (ArgModel { takes_value: takes_value, ..self@ }),
    {
        let mut s = self;
        s.takes_value = takes_value;
        s
    }

    /// Allows this argument to be given several times.
    pub fn multiple(self, multiple: bool) -> (r: Self)
        ensures
            r@ == (ArgModel { multiple: multiple, ..self@ }),
    {
        let mut s = self;
        s.multiple = multiple;
        s
    }

    /// Sets the value applied when no explicit or environment value is found.
    pub fn default_value(self, value: &str) -> (r: Self)
        ensures
            r@ == (ArgModel { default_value: Some(value@), ..self@ }),
    {
        let mut s = self;
        s.default_value = Some(String::from_str(value));
        s
    }

    /// Restricts accepted values to the given set.
    pub fn possible_values(self, values: &[&str]) -> (r: Self)
        ensures
            r@ == (ArgModel { possible_values: Some(values.deep_view()), ..self@ }),
    {
        let mut s = self;
        let mut vs: Vec<String> = Vec::new();
        let mut i: usize = 0;
        while i < values.len()
            invariant
                0 <= i <= values.len(),
                vs.deep_view() =~= values.deep_view().take(i as int),
            decreases values.len() - i,
        {
            let x = String::from_str(values[i]);
            let ghost gx = x;
            let ghost prev = vs;
            vs.push(x);
            proof {
                lemma_deep_view_push(prev, vs, gx);
                assert(values.deep_view()[i as int] == values@[i as int]@);
                assert(vs.deep_view() =~= values.deep_view().take(i + 1));
            }
            i = i + 1;
        }
        proof {
            assert(values.deep_view().take(values.len() as int) =~= values.deep_view());
        }
        s.possible_values = Some(vs);
        s
    }

    /// Makes this a positional argument at the given slot, counted from zero.
    pub fn index(self, index: usize) -> (r: Self)
        ensures
            r@ == (ArgModel { index: Some(index), ..self@ }),
    {
        let mut s = self;
        s.index = Some(index);
        s
    }

    /// Names an environment variable consulted when no value was given.
    pub fn env(self, env: &str) -> (r: Self)
        ensures
            r@ == (ArgModel { env: Some(env@), ..self@ }),
    {
        let mut s = self;
        s.env = Some(String::from_str(env));
        s
    }

    /// Declares that this argument depends on another one.
    pub fn requires_arg(self, arg: &str) -> (r: Self)
        ensures
            r@ == (ArgModel { requires_list: self@.requires_list.push(arg@), ..self@ }),
    {
        let ghost orig = self@;
        let mut s = self;
        let x = String::from_str(arg);
        let ghost gx = x;
        let ghost prev = s.requires_list;
        s.requires_list.push(x);
        proof {
            lemma_deep_view_push(prev, s.requires_list, gx);
        }
        s
    }

    /// Declares that this argument excludes another one.
    pub fn conflicts_with(self, arg: &str) -> (r: Self)
        ensures
            r@ == (ArgModel { conflicts_list: self@.conflicts_list.push(arg@), ..self@ }),
    {
        let ghost orig = self@;
        let mut s = self;
        let x = String::from_str(arg);
        let ghost gx = x;
        let ghost prev = s.conflicts_list;
        s.conflicts_list.push(x);
        proof {
            lemma_deep_view_push(prev, s.conflicts_list, gx);
        }
        s
    }

    /// Sets a delimiter that splits one token into several values;
    /// this also turns on `multiple`.
    pub fn value_delimiter(self, delimiter: char) -> (r: Self)
        ensures
            r@ == (ArgModel { value_delimiter: Some(delimiter), multiple: true, ..self@ }),
    {
        let mut s = self;
        s.value_delimiter = Some(delimiter);
        s.multiple = true;
        s
    }

    /// Marks this as the variadic last positional (`[FILES]...`); when
    /// set, `multiple` is turned on and the slot becomes the sentinel
    /// `usize::MAX`.
    pub fn last(self, last: bool) -> (r: Self)
        ensures
            last ==> r@ == (ArgModel {
                last: true,
                multiple: true,
                index: Some(usize::MAX),
                ..self@
            }),
            !last ==> r@ == (ArgModel { last: false, ..self@ }),
    {
        let mut s = self;
        s.last = last;
        if last {
            s.multiple = true;
            s.index = Some(usize::MAX);
        }
        s
    }

    /// The name of this argument.
    pub fn name(&self) -> (r: &str)
        ensures
            r@ == self@.name,
    {
        self.name.as_str()
    }
}

/// True when `ident` names the argument: it equals the name, the
/// one-character short flag, or the long flag.
pub open spec fn arg_matches_ident(a: ArgModel, ident: Seq<char>) -> bool {
    ||| a.name == ident
    ||| (a.short matches Some(c) && seq![c] == ident)
    ||| (a.long matches Some(l) && l == ident)
}

/// First argument that `ident` names, if any.
pub open spec fn find_arg_idx(args: Seq<ArgModel>, ident: Seq<char>) -> Option<int>
    decreases args.len(),
{
    if args.len() == 0 {
        None
    } else if arg_matches_ident(args[0], ident) {
        Some(0)
    } else {
        match find_arg_idx(args.drop_first(), ident) {
            Some(i) => Some(i + 1),
            None => None,
        }
    }
}

/// The index `find_arg_idx` returns names a matching argument, and the
/// first one.
pub proof fn lemma_find_arg_idx_bounds(args: Seq<ArgModel>, ident: Seq<char>)
    ensures
        match find_arg_idx(args, ident) {
            Some(i) => 0 <= i < args.len() && arg_matches_ident(args[i], ident) && forall|j: int|
                0 <= j < i ==> !arg_matches_ident(args[j], ident),
            None => forall|j: int| 0 <= j < args.len() ==> !arg_matches_ident(args[j], ident),
        },
    decreases args.len(),
{
    if args.len() == 0 {
    } else if arg_matches_ident(args[0], ident) {
    } else {
        lemma_find_arg_idx_bounds(args.drop_first(), ident);
        let t = args.drop_first();
        assert(forall|j: int| 1 <= j < args.len() ==> args[j] == t[j - 1]);
        match find_arg_idx(t, ident) {
            Some(k) => {
                assert(forall|j: int| 0 <= j < k + 1 ==> !arg_matches_ident(args[j], ident)) by {
                    assert(forall|j: int|
                        1 <= j < k + 1 ==> args[j] == t[j - 1] && !arg_matches_ident(
                            t[j - 1],
                            ident,
                        ));
                }
            },
            None => {
                assert(forall|j: int| 0 <= j < args.len() ==> !arg_matches_ident(args[j], ident))
                    by {
                    assert(forall|j: int|
                        1 <= j < args.len() ==> args[j] == t[j - 1] && !arg_matches_ident(
                            t[j - 1],
                            ident,
                        ));
                }
            },
        }
    }
}

/// True when `tok` names the child command: its name or one of its
/// aliases.
pub open spec fn cmd_matches_token(c: CommandModel, tok: Seq<char>) -> bool {
    c.name == tok || c.aliases.contains(tok)
}

/// First child command that `tok` names, by name or alias.
pub open spec fn find_sub_idx(subs: Seq<CommandModel>, tok: Seq<char>) -> Option<int>
    decreases subs.len(),
{
    if subs.len() == 0 {
        None
    } else if cmd_matches_token(subs[0], tok) {
        Some(0)
    } else {
        match find_sub_idx(subs.drop_first(), tok) {
            Some(i) => Some(i + 1),
            None => None,
        }
    }
}

/// The index `find_sub_idx` returns names a matching child, and the
/// first one.
pub proof fn lemma_find_sub_idx_bounds(subs: Seq<CommandModel>, tok: Seq<char>)
    ensures
        match find_sub_idx(subs, tok) {
            Some(i) => 0 <= i < subs.len() && cmd_matches_token(subs[i], tok) && forall|j: int|
                0 <= j < i ==> !cmd_matches_token(subs[j], tok),
            None => forall|j: int| 0 <= j < subs.len() ==> !cmd_matches_token(subs[j], tok),
        },
    decreases subs.len(),
{
    if subs.len() == 0 {
    } else if cmd_matches_token(subs[0], tok) {
    } else {
        lemma_find_sub_idx_bounds(subs.drop_first(), tok);
        let t = subs.drop_first();
        assert(forall|j: int| 1 <= j < subs.len() ==> subs[j] == t[j - 1]);
        match find_sub_idx(t, tok) {
            Some(k) => {
                assert(forall|j: int| 0 <= j < k + 1 ==> !cmd_matches_token(subs[j], tok)) by {
                    assert(forall|j: int|
                        1 <= j < k + 1 ==> subs[j] == t[j - 1] && !cmd_matches_token(t[j - 1], tok));
                }
            },
            None => {
                assert(forall|j: int| 0 <= j < subs.len() ==> !cmd_matches_token(subs[j], tok)) by {
                    assert(forall|j: int|
                        1 <= j < subs.len() ==> subs[j] == t[j - 1] && !cmd_matches_token(
                            t[j - 1],
                            tok,
                        ));
                }
            },
        }
    }
}

/// A command or subcommand: a named node of the command tree.
#[derive(Debug)]
pub struct Command {
    /// Name, also the token matched on the command line
    pub name: String,
    /// Short description for help text
    pub about: Option<String>,
    /// Long description
    pub long_about: Option<String>,
    /// Version string; enables `--version`
    pub version: Option<String>,
    /// Declared arguments, in declaration order
    pub args: Vec<Arg>,
    /// Child commands
    pub subcommands: Vec<Command>,
    /// Mutually exclusive argument groups
    pub groups: Vec<ArgGroup>,
    /// Alternate tokens that match this command
    pub aliases: Vec<String>,
}

/// Model of a [`Command`]: the same tree over character sequences.
pub struct CommandModel {
    pub name: Seq<char>,
    pub about: Option<Seq<char>>,
    pub long_about: Option<Seq<char>>,
    pub version: Option<Seq<char>>,
    pub args: Seq<ArgModel>,
    pub subcommands: Seq<CommandModel>,
    pub groups: Seq<GroupModel>,
    pub aliases: Seq<Seq<char>>,
}

/// The models of a sequence of arguments.
pub open spec fn args_view(s: Seq<Arg>) -> Seq<ArgModel> {
    s.map_values(|a: Arg| a@)
}

/// The models of a sequence of groups.
pub open spec fn groups_view(s: Seq<ArgGroup>) -> Seq<GroupModel> {
    s.map_values(|g: ArgGroup| g@)
}

/// The models of a sequence of commands.
pub open spec fn cmds_view(s: Seq<Command>) -> Seq<CommandModel>
    decreases s,
{
    if s.len() == 0 {
        Seq::empty()
    } else {
        cmds_view(s.drop_last()).push(s.last()@)
    }
}

impl View for Command {
    type V = CommandModel;

    open spec fn view(&self) -> CommandModel
        decreases self,
    {
        CommandModel {
            name: self.name@,
            about: self.about.deep_view(),
            long_about: self.long_about.deep_view(),
            version: self.version.deep_view(),
            args: args_view(self.args@),
            subcommands: cmds_view(self.subcommands@),
            groups: groups_view(self.groups@),
            aliases: self.aliases.deep_view(),
        }
    }
}

/// Each element of `cmds_view` is the model of the element at the same
/// position.
pub proof fn lemma_cmds_view_index(s: Seq<Command>, i: int)
    requires
        0 <= i < s.len(),
    ensures
        cmds_view(s).len() == s.len(),
        cmds_view(s)[i] == s[i]@,
    decreases s.len(),
{
    lemma_cmds_view_len(s);
    lemma_cmds_view_len(s.drop_last());
    assert(cmds_view(s) == cmds_view(s.drop_last()).push(s.last()@));
    if i == s.len() - 1 {
        assert(s.last() == s[i]);
    } else {
        lemma_cmds_view_index(s.drop_last(), i);
        assert(s.drop_last()[i] == s[i]);
    }
}

/// `cmds_view` keeps the length.
pub proof fn lemma_cmds_view_len(s: Seq<Command>)
    ensures
        cmds_view(s).len() == s.len(),
    decreases s.len(),
{
    if s.len() > 0 {
        lemma_cmds_view_len(s.drop_last());
        assert(cmds_view(s) == cmds_view(s.drop_last()).push(s.last()@));
    } else {
        assert(cmds_view(s) == Seq::<CommandModel>::empty());
    }
}


impl DeepView for Command {
    type V = CommandModel;

    open spec fn deep_view(&self) -> CommandModel {
        self.view()
    }
}

/// `cmds_view` of element-wise equal command sequences is equal.
pub proof fn lemma_cmds_view_ext(a: Seq<Command>, b: Seq<Command>)
    requires
        a.len() == b.len(),
        forall|i: int| 0 <= i < a.len() ==> a[i]@ == b[i]@,
    ensures
        cmds_view(a) == cmds_view(b),
{
    lemma_cmds_view_len(a);
    lemma_cmds_view_len(b);
    assert forall|i: int| 0 <= i < a.len() implies cmds_view(a)[i] == cmds_view(b)[i] by {
        lemma_cmds_view_index(a, i);
        lemma_cmds_view_index(b, i);
    }
    assert(cmds_view(a) =~= cmds_view(b));
}

fn clone_args(v: &Vec<Arg>) -> (r: Vec<Arg>)
    ensures
        args_view(r@) == args_view(v@),
{
    let mut out: Vec<Arg> = Vec::new();
    let mut i: usize = 0;
    while i < v.len()
        invariant
            0 <= i <= v.len(),
            out@.len() == i,
            forall|j: int| 0 <= j < i ==> out@[j]@ == v@[j]@,
        decreases v.len() - i,
    {
        out.push(v[i].clone());
        i = i + 1;
    }
    proof {
        assert(args_view(out@) =~= args_view(v@));
    }
    out
}

fn clone_groups(v: &Vec<ArgGroup>) -> (r: Vec<ArgGroup>)
    ensures
        groups_view(r@) == groups_view(v@),
{
    let mut out: Vec<ArgGroup> = Vec::new();
    let mut i: usize = 0;
    while i < v.len()
        invariant
            0 <= i <= v.len(),
            out@.len() == i,
            forall|j: int| 0 <= j < i ==> out@[j]@ == v@[j]@,
        decreases v.len() - i,
    {
        out.push(v[i].clone());
        i = i + 1;
    }
    proof {
        assert(groups_view(out@) =~= groups_view(v@));
    }
    out
}

impl Command {
    /// An exact copy of the whole command tree.
    fn duplicate(&self) -> (r: Command)
        ensures
            r@ == self@,
        decreases *self,
    {
        let mut subs: Vec<Command> = Vec::new();
        let mut i: usize = 0;
        while i < self.subcommands.len()
            invariant
                0 <= i <= self.subcommands.len(),
                subs@.len() == i,
                forall|j: int| 0 <= j < i ==> subs@[j]@ == self.subcommands@[j]@,
            decreases self.subcommands.len() - i,
        {
            let c = self.subcommands[i].duplicate();
            subs.push(c);
            i = i + 1;
        }
        proof {
            lemma_cmds_view_ext(subs@, self.subcommands@);
        }
        Command {
            name: self.name.clone(),
            about: clone_opt_string(&self.about),
            long_about: clone_opt_string(&self.long_about),
            version: clone_opt_string(&self.version),
            args: clone_args(&self.args),
            subcommands: subs,
            groups: clone_groups(&self.groups),
            aliases: clone_strings(&self.aliases),
        }
    }
}

impl Clone for Command {
    /// An exact copy.
    fn clone(&self) -> (r: Self)
        ensures
            r@ == self@,
    {
        self.duplicate()
    }
}

impl Command {
    /// Creates a new command with the given name.
    pub fn new(name: &str) -> (r: Self)
        ensures
            r@ == (CommandModel {
                name: name@,
                about: None,
                long_about: None,
                version: None,
                args: Seq::empty(),
                subcommands: Seq::empty(),
                groups: Seq::empty(),
                aliases: Seq::empty(),
            }),
    {
        let r = Command {
            name: String::from_str(name),
            about: None,
            long_about: None,
            version: None,
            args: Vec::new(),
            subcommands: Vec::new(),
            groups: Vec::new(),
            aliases: Vec::new(),
        };
        proof {
            assert(args_view(r.args@) =~= Seq::<ArgModel>::empty());
            assert(cmds_view(r.subcommands@) == Seq::<CommandModel>::empty());
            assert(groups_view(r.groups@) =~= Seq::<GroupModel>::empty());
            assert(r.aliases.deep_view() =~= Seq::<Seq<char>>::empty());
        }
        r
    }

    /// Sets the short description.
    pub fn about(self, about: &str) -> (r: Self)
        ensures
            r@ == (CommandModel { about: Some(about@), ..self@ }),
    {
        let mut s = self;
        s.about = Some(String::from_str(about));
        s
    }

    /// Sets the long description.
    pub fn long_about(self, long_about: &str) -> (r: Self)
        ensures
            r@ == (CommandModel { long_about: Some(long_about@), ..self@ }),
    {
        let mut s = self;
        s.long_about = Some(String::from_str(long_about));
        s
    }

    /// Sets the version string, which enables the version flag.
    pub fn version(self, version: &str) -> (r: Self)
        ensures
            r@ == (CommandModel { version: Some(version@), ..self@ }),
    {
        let mut s = self;
        s.version = Some(String::from_str(version));
        s
    }

    /// Adds an argument.
    pub fn arg(self, arg: Arg) -> (r: Self)
        ensures
            r@ == (CommandModel { args: self@.args.push(arg@), ..self@ }),
    {
        let ghost orig = self@;
        let ghost garg = arg;
        let mut s = self;
        s.args.push(arg);
        proof {
            assert(args_view(s.args@) =~= orig.args.push(garg@));
        }
        s
    }

    /// Adds several arguments.
    pub fn args(self, args: &[Arg]) -> (r: Self)
        ensures
            r@ == (CommandModel { args: self@.args + args.deep_view(), ..self@ }),
    {
        let ghost orig = self@;
        let mut s = self;
        let mut i: usize = 0;
        while i < args.len()
            invariant
                0 <= i <= args.len(),
                s.name@ == orig.name,
                s.about.deep_view() == orig.about,
                s.long_about.deep_view() == orig.long_about,
                s.version.deep_view() == orig.version,
                cmds_view(s.subcommands@) == orig.subcommands,
                groups_view(s.groups@) == orig.groups,
                s.aliases.deep_view() == orig.aliases,
                args_view(s.args@) =~= orig.args + args.deep_view().take(i as int),
            decreases args.len() - i,
        {
            let a = args[i].clone();
            let ghost ga = a;
            let ghost prevseq = s.args@;
            s.args.push(a);
            proof {
                assert(s.args@ == prevseq.push(ga));
                assert(args.deep_view()[i as int] == args@[i as int]@);
                assert(ga@ == args@[i as int]@);
                let rhs = orig.args + args.deep_view().take(i + 1);
                assert(args.deep_view().len() == args@.len());
                assert(args_view(prevseq).len() == prevseq.len());
                assert(args_view(prevseq) == orig.args + args.deep_view().take(i as int));
                assert(args_view(s.args@).len() == s.args@.len());
                assert(args_view(s.args@).len() == rhs.len());
                assert forall|j: int| 0 <= j < rhs.len() implies args_view(s.args@)[j] == rhs[j]
                    by {
                    assert(args_view(s.args@)[j] == s.args@[j]@);
                    if j < prevseq.len() {
                        assert(s.args@[j] == prevseq[j]);
                        assert(args_view(prevseq)[j] == prevseq[j]@);
                    } else {
                        assert(s.args@[j] == ga);
                    }
                }
                assert(args_view(s.args@) =~= rhs);
            }
            i = i + 1;
        }
        proof {
            assert(args.deep_view().take(args.len() as int) =~= args.deep_view());
        }
        s
    }

    /// Adds a subcommand.
    pub fn subcommand(self, subcommand: Command) -> (r: Self)
        ensures
            r@ == (CommandModel { subcommands: self@.subcommands.push(subcommand@), ..self@ }),
    {
        let ghost orig = self@;
        let ghost gsub = subcommand;
        let mut s = self;
        let ghost prev = s.subcommands@;
        s.subcommands.push(subcommand);
        proof {
            lemma_cmds_view_len(prev);
            assert(s.subcommands@.drop_last() =~= prev);
            assert(cmds_view(s.subcommands@) == cmds_view(prev).push(gsub@));
        }
        s
    }

    /// Adds several subcommands.
    pub fn subcommands(self, subcommands: &[Command]) -> (r: Self)
        ensures
            r@ == (CommandModel {
                subcommands: self@.subcommands + subcommands.deep_view(),
                ..self@
            }),
    {
        let ghost orig = self@;
        let mut s = self;
        let mut i: usize = 0;
        while i < subcommands.len()
            invariant
                0 <= i <= subcommands.len(),
                s.name@ == orig.name,
                s.about.deep_view() == orig.about,
                s.long_about.deep_view() == orig.long_about,
                s.version.deep_view() == orig.version,
                args_view(s.args@) == orig.args,
                groups_view(s.groups@) == orig.groups,
                s.aliases.deep_view() == orig.aliases,
                cmds_view(s.subcommands@) =~= orig.subcommands + subcommands.deep_view().take(
                    i as int,
                ),
            decreases subcommands.len() - i,
        {
            let c = subcommands[i].clone();
            let ghost gc = c;
            let ghost prev = s.subcommands@;
            s.subcommands.push(c);
            proof {
                lemma_cmds_view_len(prev);
                assert(s.subcommands@.drop_last() =~= prev);
                assert(cmds_view(s.subcommands@) == cmds_view(prev).push(gc@));
                assert(subcommands.deep_view()[i as int] == subcommands@[i as int].deep_view());
                assert(subcommands@[i as int].deep_view() == subcommands@[i as int]@);
                assert(cmds_view(s.subcommands@) =~= orig.subcommands
                    + subcommands.deep_view().take(i + 1));
            }
            i = i + 1;
        }
        proof {
            assert(subcommands.deep_view().take(subcommands.len() as int)
                =~= subcommands.deep_view());
        }
        s
    }

    /// Adds an argument group.
    pub fn group(self, group: ArgGroup) -> (r: Self)
        ensures
            r@ == (CommandModel { groups: self@.groups.push(group@), ..self@ }),
    {
        let ghost orig = self@;
        let ghost ggroup = group;
        let mut s = self;
        s.groups.push(group);
        proof {
            assert(groups_view(s.groups@) =~= orig.groups.push(ggroup@));
        }
        s
    }

    /// Adds an alias token that also matches this command.
    pub fn alias(self, alias: &str) -> (r: Self)
        ensures
            r@ == (CommandModel { aliases: self@.aliases.push(alias@), ..self@ }),
    {
        let ghost orig = self@;
        let mut s = self;
        let x = String::from_str(alias);
        let ghost gx = x;
        let ghost prev = s.aliases;
        s.aliases.push(x);
        proof {
            lemma_deep_view_push(prev, s.aliases, gx);
        }
        s
    }

    /// Adds several aliases.
    pub fn aliases(self, aliases: &[&str]) -> (r: Self)
        ensures
            r@ == (CommandModel { aliases: self@.aliases + aliases.deep_view(), ..self@ }),
    {
        let ghost orig = self@;
        let mut s = self;
        let mut i: usize = 0;
        while i < aliases.len()
            invariant
                0 <= i <= aliases.len(),
                s.name@ == orig.name,
                s.about.deep_view() == orig.about,
                s.long_about.deep_view() == orig.long_about,
                s.version.deep_view() == orig.version,
                args_view(s.args@) == orig.args,
                cmds_view(s.subcommands@) == orig.subcommands,
                groups_view(s.groups@) == orig.groups,
                s.aliases.deep_view() =~= orig.aliases + aliases.deep_view().take(i as int),
            decreases aliases.len() - i,
        {
            let x = String::from_str(aliases[i]);
            let ghost gx = x;
            let ghost prev = s.aliases;
            s.aliases.push(x);
            proof {
                lemma_deep_view_push(prev, s.aliases, gx);
                assert(aliases.deep_view()[i as int] == aliases@[i as int]@);
                assert(s.aliases.deep_view() =~= orig.aliases + aliases.deep_view().take(i + 1));
            }
            i = i + 1;
        }
        proof {
            assert(aliases.deep_view().take(aliases.len() as int) =~= aliases.deep_view());
        }
        s
    }

    /// The name of this command.
    pub fn name(&self) -> (r: &str)
        ensures
            r@ == self@.name,
    {
        self.name.as_str()
    }

    /// Finds an argument by name, one-character short form, or long form.
    pub(crate) fn find_arg(&self, identifier: &str) -> (r: Option<&Arg>)
        ensures
            match find_arg_idx(self@.args, identifier@) {
                Some(i) => r matches Some(a) && a@ == self@.args[i],
                None => r is None,
            },
    {
        let n = self.args.len();
        let mut i: usize = 0;
        while i < n
            invariant
                0 <= i <= n,
                n == self.args.len(),
                forall|j: int| 0 <= j < i ==> !arg_matches_ident(self@.args[j], identifier@),
            decreases n - i,
        {
            let a = &self.args[i];
            let name_hit = str_eq(a.name.as_str(), identifier);
            let short_hit = match a.short {
                Some(c) => crate::strutil::single_char_eq(identifier, c),
                None => false,
            };
            let long_hit = match &a.long {
                Some(l) => str_eq(l.as_str(), identifier),
                None => false,
            };
            if name_hit || short_hit || long_hit {
                proof {
                    assert(arg_matches_ident(self@.args[i as int], identifier@));
                    lemma_find_arg_idx_bounds(self@.args, identifier@);
                }
                return Some(a);
            }
            proof {
                assert(!arg_matches_ident(self@.args[i as int], identifier@));
            }
            i = i + 1;
        }
        proof {
            lemma_find_arg_idx_bounds(self@.args, identifier@);
        }
        None
    }

    /// Finds a child command by name or alias.
    pub(crate) fn find_subcommand(&self, name: &str) -> (r: Option<&Command>)
        ensures
            match find_sub_idx(self@.subcommands, name@) {
                Some(i) => r matches Some(c) && c@ == self@.subcommands[i] && *c
                    == self.subcommands@[i],
                None => r is None,
            },
    {
        proof {
            lemma_cmds_view_len(self.subcommands@);
        }
        let n = self.subcommands.len();
        let mut i: usize = 0;
        while i < n
            invariant
                0 <= i <= n,
                n == self.subcommands.len(),
                cmds_view(self.subcommands@).len() == n,
                forall|j: int| 0 <= j < i ==> !cmd_matches_token(self@.subcommands[j], name@),
            decreases n - i,
        {
            proof {
                lemma_cmds_view_index(self.subcommands@, i as int);
            }
            let c = &self.subcommands[i];
            let mut hit = str_eq(c.name.as_str(), name);
            let m = c.aliases.len();
            let mut k: usize = 0;
            while k < m
                invariant
                    0 <= k <= m,
                    m == c.aliases.len(),
                    c@ == self@.subcommands[i as int],
                    hit == (c@.name == name@ || exists|t: int|
                        0 <= t < k && c@.aliases[t] == name@),
                decreases m - k,
            {
                if str_eq(c.aliases[k].as_str(), name) {
                    hit = true;
                }
                proof {
                    assert(c@.aliases[k as int] == c.aliases@[k as int]@);
                }
                k = k + 1;
            }
            if hit {
                proof {
                    assert(cmd_matches_token(self@.subcommands[i as int], name@));
                    lemma_find_sub_idx_bounds(self@.subcommands, name@);
                }
                return Some(c);
            }
            proof {
                assert(forall|t: int|
                    0 <= t < c@.aliases.len() ==> c@.aliases[t] != name@);
                assert(!c@.aliases.contains(name@));
                assert(!cmd_matches_token(self@.subcommands[i as int], name@));
            }
            i = i + 1;
        }
        proof {
            lemma_find_sub_idx_bounds(self@.subcommands, name@);
        }
        None
    }
}


/// The result of parsing one command level: resolved values by argument
/// name, and the recognized subcommand's result, if any.
#[derive(Debug, PartialEq)]
pub struct ArgMatches {
    /// Name of the command that produced this result
    pub command_name: String,
    /// Resolved values, keyed by argument name; names never repeat
    pub args: Vec<(String, ArgValue)>,
    /// The recognized subcommand's name and nested result
    pub subcommand: Option<Box<(String, ArgMatches)>>,
}

/// Model of an [`ArgMatches`]: a map from argument name to value, and
/// the nested subcommand result.
pub struct MatchesModel {
    pub name: Seq<char>,
    pub args: Map<Seq<char>, ValueModel>,
    pub sub: Option<(Seq<char>, Box<MatchesModel>)>,
}

/// The stored pairs, folded into a map; a later pair with the same name
/// wins, though well-formed matches never repeat a name.
pub open spec fn assoc_map(s: Seq<(String, ArgValue)>) -> Map<Seq<char>, ValueModel>
    decreases s.len(),
{
    if s.len() == 0 {
        Map::empty()
    } else {
        assoc_map(s.drop_last()).insert(s.last().0@, s.last().1@)
    }
}

/// No two stored pairs share a name.
pub open spec fn keys_unique(s: Seq<(String, ArgValue)>) -> bool {
    forall|i: int, j: int| 0 <= i < j < s.len() ==> s[i].0@ != s[j].0@
}

impl View for ArgMatches {
    type V = MatchesModel;

    open spec fn view(&self) -> MatchesModel
        decreases self,
    {
        MatchesModel {
            name: self.command_name@,
            args: assoc_map(self.args@),
            sub: match self.subcommand {
                Some(b) => Some((b.0@, Box::new(b.1@))),
                None => None,
            },
        }
    }
}

impl ArgMatches {
    /// Well-formed: stored names never repeat, here and in the nested
    /// result.  Every `ArgMatches` the parser returns is well-formed.
    pub open spec fn wf(&self) -> bool
        decreases self,
    {
        &&& keys_unique(self.args@)
        &&& match self.subcommand {
            Some(b) => b.1.wf(),
            None => true,
        }
    }
}

/// A name is in the folded map exactly when some stored pair holds it.
pub proof fn lemma_assoc_contains(s: Seq<(String, ArgValue)>, k: Seq<char>)
    ensures
        assoc_map(s).contains_key(k) <==> exists|i: int| 0 <= i < s.len() && s[i].0@ == k,
    decreases s.len(),
{
    if s.len() > 0 {
        lemma_assoc_contains(s.drop_last(), k);
        if s.last().0@ == k {
            assert(s[s.len() - 1].0@ == k);
        } else {
            if assoc_map(s).contains_key(k) {
                let i = choose|i: int| 0 <= i < s.drop_last().len() && s.drop_last()[i].0@ == k;
                assert(s[i].0@ == k);
            }
            if exists|i: int| 0 <= i < s.len() && s[i].0@ == k {
                let i = choose|i: int| 0 <= i < s.len() && s[i].0@ == k;
                assert(i < s.len() - 1);
                assert(s.drop_last()[i].0@ == k);
            }
        }
    }
}

/// With unique names, the folded map sends a stored name to its stored
/// value.
pub proof fn lemma_assoc_get(s: Seq<(String, ArgValue)>, k: Seq<char>, i: int)
    requires
        keys_unique(s),
        0 <= i < s.len(),
        s[i].0@ == k,
    ensures
        assoc_map(s).contains_key(k),
        assoc_map(s)[k] == s[i].1@,
    decreases s.len(),
{
    if i == s.len() - 1 {
    } else {
        assert(s.last().0@ != k);
        assert(s.drop_last()[i].0@ == k);
        lemma_assoc_get(s.drop_last(), k, i);
    }
}

/// Replacing the pair that holds a name folds to a map insert at that
/// name.
pub proof fn lemma_assoc_update(s: Seq<(String, ArgValue)>, i: int, p: (String, ArgValue))
    requires
        keys_unique(s),
        0 <= i < s.len(),
        p.0@ == s[i].0@,
    ensures
        assoc_map(s.update(i, p)) == assoc_map(s).insert(p.0@, p.1@),
        keys_unique(s.update(i, p)),
    decreases s.len(),
{
    let t = s.update(i, p);
    assert(t.len() == s.len());
    assert(keys_unique(t)) by {
        assert(forall|x: int, y: int|
            0 <= x < y < t.len() && x != i && y != i ==> t[x].0@ == s[x].0@ && t[y].0@
                == s[y].0@);
    }
    if i == s.len() - 1 {
        assert(t.drop_last() =~= s.drop_last());
        assert(assoc_map(t) == assoc_map(s.drop_last()).insert(p.0@, p.1@));
        assert(assoc_map(s) == assoc_map(s.drop_last()).insert(s.last().0@, s.last().1@));
        assert(assoc_map(s).insert(p.0@, p.1@) =~= assoc_map(s.drop_last()).insert(p.0@, p.1@));
    } else {
        assert(t.drop_last() =~= s.drop_last().update(i, p));
        assert(s.drop_last()[i].0@ == s[i].0@);
        lemma_assoc_update(s.drop_last(), i, p);
        assert(t.last() == s.last());
        assert(assoc_map(t) == assoc_map(s.drop_last()).insert(p.0@, p.1@).insert(
            s.last().0@,
            s.last().1@,
        ));
        assert(s.last().0@ != p.0@);
        assert(assoc_map(s.drop_last()).insert(p.0@, p.1@).insert(s.last().0@, s.last().1@)
            =~= assoc_map(s.drop_last()).insert(s.last().0@, s.last().1@).insert(p.0@, p.1@));
    }
}

impl ArgMatches {
    /// Creates an empty result for the named command.
    pub(crate) fn new(command_name: &str) -> (r: Self)
        ensures
            r@ == (MatchesModel {
                name: command_name@,
                args: Map::empty(),
                sub: None::<(Seq<char>, Box<MatchesModel>)>,
            }),
            r.wf(),
    {
        let r = ArgMatches {
            command_name: String::from_str(command_name),
            args: Vec::new(),
            subcommand: None,
        };
        proof {
            assert(r.args@.len() == 0);
        }
        r
    }

    /// The name of the command that produced this result.
    pub fn command_name(&self) -> (r: &str)
        ensures
            r@ == self@.name,
    {
        self.command_name.as_str()
    }

    /// The stored value for `name`, if any.
    pub fn get_value(&self, name: &str) -> (r: Option<&ArgValue>)
        requires
            self.wf(),
        ensures
            match r {
                Some(v) => self@.args.contains_key(name@) && v@ == self@.args[name@],
                None => !self@.args.contains_key(name@),
            },
    {
        let n = self.args.len();
        let mut i: usize = 0;
        while i < n
            invariant
                0 <= i <= n,
                n == self.args.len(),
                self.wf(),
                forall|j: int| 0 <= j < i ==> self.args@[j].0@ != name@,
            decreases n - i,
        {
            let pair = &self.args[i];
            if str_eq(pair.0.as_str(), name) {
                proof {
                    lemma_assoc_get(self.args@, name@, i as int);
                }
                return Some(&pair.1);
            }
            i = i + 1;
        }
        proof {
            lemma_assoc_contains(self.args@, name@);
        }
        None
    }

    /// Whether an argument was resolved.
    pub fn is_present(&self, name: &str) -> (r: bool)
        requires
            self.wf(),
        ensures
            r == self@.args.contains_key(name@),
    {
        match self.get_value(name) {
            Some(_) => true,
            None => false,
        }
    }

    /// The single string value of an argument, if it has one.
    pub fn value_of(&self, name: &str) -> (r: Option<&str>)
        requires
            self.wf(),
        ensures
            (r is Some) == (self@.args.contains_key(name@) && self@.args[name@] is Single),
            r matches Some(s) ==> self@.args[name@] == ValueModel::Single(s@),
    {
        match self.get_value(name) {
            Some(v) => v.as_str(),
            None => None,
        }
    }

    /// Whether an argument was set as a flag.
    pub fn is_flag_set(&self, name: &str) -> (r: bool)
        requires
            self.wf(),
        ensures
            r == (self@.args.contains_key(name@) && (self@.args[name@] matches ValueModel::Flag(
                b,
            ) && b)),
    {
        match self.get_value(name) {
            Some(v) => match v.as_bool() {
                Some(b) => b,
                None => false,
            },
            None => false,
        }
    }

    /// The accumulated values of an argument, if it has several.
    pub fn values_of(&self, name: &str) -> (r: Option<&[String]>)
        requires
            self.wf(),
        ensures
            (r is Some) == (self@.args.contains_key(name@) && self@.args[name@] is Multiple),
            r matches Some(v) ==> self@.args[name@] == ValueModel::Multiple(v.deep_view()),
    {
        match self.get_value(name) {
            Some(v) => v.as_vec(),
            None => None,
        }
    }

    /// The recognized subcommand's name and result, if any.
    pub fn subcommand(&self) -> (r: Option<(&str, &ArgMatches)>)
        ensures
            (r is Some) == (self@.sub is Some),
            r matches Some((n, m)) ==> self@.sub matches Some(p) && n@ == p.0 && m@ == *p.1 && (
            self.wf() ==> m.wf()),
    {
        match &self.subcommand {
            Some(b) => Some((b.0.as_str(), &b.1)),
            None => None,
        }
    }

    /// The recognized subcommand's name, if any.
    pub fn subcommand_name(&self) -> (r: Option<&str>)
        ensures
            (r is Some) == (self@.sub is Some),
            r matches Some(n) ==> self@.sub matches Some(p) && n@ == p.0,
    {
        match &self.subcommand {
            Some(b) => Some(b.0.as_str()),
            None => None,
        }
    }

    /// The nested result, when the recognized subcommand is `name`.
    pub fn subcommand_matches(&self, name: &str) -> (r: Option<&ArgMatches>)
        ensures
            (r is Some) == (self@.sub matches Some(p) && p.0 == name@),
            r matches Some(m) ==> self@.sub matches Some(p) && m@ == *p.1 && (self.wf()
                ==> m.wf()),
    {
        match &self.subcommand {
            Some(b) => {
                if str_eq(b.0.as_str(), name) {
                    Some(&b.1)
                } else {
                    None
                }
            },
            None => None,
        }
    }

    /// Stores a value under an argument name; a value already stored
    /// under that name is replaced.
    pub(crate) fn insert_value(&mut self, name: String, value: ArgValue)
        requires
            old(self).wf(),
        ensures
            final(self).wf(),
            final(self)@ == (MatchesModel {
                args: old(self)@.args.insert(name@, value@),
                ..old(self)@
            }),
    {
        let ghost gname = name;
        let ghost gvalue = value;
        let n = self.args.len();
        let mut i: usize = 0;
        let mut found: Option<usize> = None;
        while i < n
            invariant
                0 <= i <= n,
                n == self.args.len(),
                gname == name,
                gvalue == value,
                found matches Some(fi) ==> fi < i && self.args@[fi as int].0@ == gname@,
                found is None ==> forall|j: int| 0 <= j < i ==> self.args@[j].0@ != gname@,
            decreases n - i,
        {
            if found.is_none() {
                let pair = &self.args[i];
                if str_eq(pair.0.as_str(), name.as_str()) {
                    found = Some(i);
                } else {
                    proof {
                        assert(self.args@[i as int].0@ != gname@);
                    }
                }
            }
            i = i + 1;
        }
        let mut list: Vec<(String, ArgValue)> = Vec::new();
        core::mem::swap(&mut list, &mut self.args);
        let ghost prev = list@;
        match found {
            Some(fi) => {
                list.set(fi, (name, value));
                proof {
                    lemma_assoc_update(prev, fi as int, (gname, gvalue));
                }
            },
            None => {
                list.push((name, value));
                proof {
                    assert(keys_unique(list@)) by {
                        assert(forall|x: int|
                            0 <= x < prev.len() ==> list@[x].0@ == prev[x].0@);
                        assert(list@[prev.len() as int].0@ == gname@);
                    }
                    assert(list@.drop_last() =~= prev);
                }
            },
        }
        self.args = list;
    }

    /// Records the recognized subcommand and its nested result.
    pub(crate) fn set_subcommand(&mut self, name: String, matches: ArgMatches)
        requires
            old(self).wf(),
            matches.wf(),
        ensures
            final(self).wf(),
            final(self)@ == (MatchesModel {
                sub: Some((name@, Box::new(matches@))),
                ..old(self)@
            }),
    {
        self.subcommand = Some(Box::new((name, matches)));
    }
}

/// The entry point of an application: the root command.
#[derive(Debug)]
pub struct App {
    /// The root command
    pub command: Command,
}

impl View for App {
    type V = CommandModel;

    open spec fn view(&self) -> CommandModel {
        self.command@
    }
}

impl Clone for App {
    /// An exact copy.
    fn clone(&self) -> (r: Self)
        ensures
            r@ == self@,
    {
        App { command: self.command.clone() }
    }
}

impl App {
    /// Creates a new application with the given name.
    pub fn new(name: &str) -> (r: Self)
        ensures
            r@ == (CommandModel {
                name: name@,
                about: None,
                long_about: None,
                version: None,
                args: Seq::empty(),
                subcommands: Seq::empty(),
                groups: Seq::empty(),
                aliases: Seq::empty(),
            }),
    {
        App { command: Command::new(name) }
    }

    /// Sets the version string.
    pub fn version(self, version: &str) -> (r: Self)
        ensures
            r@ == (CommandModel { version: Some(version@), ..self@ }),
    {
        App { command: self.command.version(version) }
    }

    /// Sets the description.
    pub fn about(self, about: &str) -> (r: Self)
        ensures
            r@ == (CommandModel { about: Some(about@), ..self@ }),
    {
        App { command: self.command.about(about) }
    }

    /// Adds an argument to the root command.
    pub fn arg(self, arg: Arg) -> (r: Self)
        ensures
            r@ == (CommandModel { args: self@.args.push(arg@), ..self@ }),
    {
        App { command: self.command.arg(arg) }
    }

    /// Adds a subcommand to the root command.
    pub fn subcommand(self, subcommand: Command) -> (r: Self)
        ensures
            r@ == (CommandModel { subcommands: self@.subcommands.push(subcommand@), ..self@ }),
    {
        App { command: self.command.subcommand(subcommand) }
    }
}

} // verus!
