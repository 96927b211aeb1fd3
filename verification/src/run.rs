//! The invoker's binding step: a command-line argument vector bound
//! against a validated command.
//!
//! Scanning left to right, `--name=value` records a value flag,
//! `--name` toggles a boolean flag, `-c` matches a flag by its short
//! key (consuming the next token when the flag takes a value), and
//! anything else is a positional value.  After the scan the variadic
//! argument, if declared, absorbs the trailing positionals as one
//! space-joined value, required arguments are checked, and the
//! environment mapping and interpreter line are assembled.  Execution
//! itself is left to the caller.

use vstd::prelude::*;
use vstd::string::StringExecFns;
use crate::parse::{ArgumentV, Command, CommandV, Flag, FlagV};
use crate::text::{
    contains_char, find_char, join_with, starts_with, trim, upper_of,
    chars2, chars_of, contains_char_vec, find_char_vec,
    starts_with_vec, string_of, subvec, to_upper, trim_vec,
};

verus! {

/// How the caller wants the child process's streams handled: passed
/// through to the parent, or captured and returned.
#[derive(Clone, Copy, Debug)]
pub enum OutputMode {
    Inherit,
    Capture,
}

/// A failure of binding: an argument vector that does not fit the
/// command's declared parameters.
#[derive(Debug, Clone, PartialEq)]
pub enum BindError {
    UnknownValueFlag { name: String },
    UnknownFlag { name: String },
    UnknownShortFlag { short: char },
    MissingFlagValue { short: char },
    MissingRequiredArgument { name: String },
}

/// The mathematical shape of a [`BindError`].
pub ghost enum BindErrorV {
    UnknownValueFlag { name: Seq<char> },
    UnknownFlag { name: Seq<char> },
    UnknownShortFlag { short: char },
    MissingFlagValue { short: char },
    MissingRequiredArgument { name: Seq<char> },
}

impl View for BindError {
    type V = BindErrorV;

    open spec fn view(&self) -> BindErrorV {
        match self {
            BindError::UnknownValueFlag { name } => BindErrorV::UnknownValueFlag { name: name@ },
            BindError::UnknownFlag { name } => BindErrorV::UnknownFlag { name: name@ },
            BindError::UnknownShortFlag { short } => BindErrorV::UnknownShortFlag {
                short: *short,
            },
            BindError::MissingFlagValue { short } => BindErrorV::MissingFlagValue {
                short: *short,
            },
            BindError::MissingRequiredArgument { name } => BindErrorV::MissingRequiredArgument {
                name: name@,
            },
        }
    }
}

impl BindError {
    pub open spec fn message_view(self) -> Seq<char> {
        match self@ {
            BindErrorV::UnknownValueFlag { name } => "Unknown value flag: --"@ + name,
            BindErrorV::UnknownFlag { name } => "Unknown flag: --"@ + name,
            BindErrorV::UnknownShortFlag { short } => "Unknown short flag: -"@ + seq![short],
            BindErrorV::MissingFlagValue { short } => "Flag -"@ + seq![short]
                + " requires a value"@,
            BindErrorV::MissingRequiredArgument { name } => "Required argument '"@ + name
                + "' not provided"@,
        }
    }

    /// A human-readable description of the failure, as the invoker
    /// reports it.
    pub fn message(&self) -> (r: String)
        ensures
            r@ == self.message_view(),
    {
        match self {
            BindError::UnknownValueFlag { name } => {
                let mut s = "Unknown value flag: --".to_owned();
                s.append(name.as_str());
                s
            },
            BindError::UnknownFlag { name } => {
                let mut s = "Unknown flag: --".to_owned();
                s.append(name.as_str());
                s
            },
            BindError::UnknownShortFlag { short } => {
                let mut s = "Unknown short flag: -".to_owned();
                s.push(*short);
                proof {
                    assert("Unknown short flag: -"@.push(*short) =~= "Unknown short flag: -"@
                        + seq![*short]);
                }
                s
            },
            BindError::MissingFlagValue { short } => {
                let mut s = "Flag -".to_owned();
                s.push(*short);
                s.append(" requires a value");
                proof {
                    assert("Flag -"@.push(*short) =~= "Flag -"@ + seq![*short]);
                }
                s
            },
            BindError::MissingRequiredArgument { name } => {
                let mut s = "Required argument '".to_owned();
                s.append(name.as_str());
                s.append("' not provided");
                s
            },
        }
    }
}

/// A fully bound invocation: what the external process executor needs.
#[derive(Debug, Clone)]
pub struct Invocation {
    pub interpreter: String,
    pub script: String,
    pub env: Vec<(String, String)>,
}

/// The mathematical shape of an [`Invocation`].
pub ghost struct InvocationV {
    pub interpreter: Seq<char>,
    pub script: Seq<char>,
    pub env: Seq<(Seq<char>, Seq<char>)>,
}

impl View for Invocation {
    type V = InvocationV;

    open spec fn view(&self) -> InvocationV {
        InvocationV {
            interpreter: self.interpreter@,
            script: self.script@,
            env: self.env.deep_view(),
        }
    }
}

/// The first flag declaring this long name as a value flag.
pub open spec fn find_flag_value(flags: Seq<FlagV>, name: Seq<char>, i: int) -> Option<int>
    decreases flags.len() - i,
{
    if i < 0 || i >= flags.len() {
        None
    } else if flags[i].long == name && flags[i].takes_value {
        Some(i)
    } else {
        find_flag_value(flags, name, i + 1)
    }
}

/// The first flag declaring this long name as a boolean flag.
pub open spec fn find_flag_bool(flags: Seq<FlagV>, name: Seq<char>, i: int) -> Option<int>
    decreases flags.len() - i,
{
    if i < 0 || i >= flags.len() {
        None
    } else if flags[i].long == name && !flags[i].takes_value {
        Some(i)
    } else {
        find_flag_bool(flags, name, i + 1)
    }
}

/// The first flag with this short key.
pub open spec fn find_flag_short(flags: Seq<FlagV>, c: char, i: int) -> Option<int>
    decreases flags.len() - i,
{
    if i < 0 || i >= flags.len() {
        None
    } else if flags[i].short == Some(c) {
        Some(i)
    } else {
        find_flag_short(flags, c, i + 1)
    }
}

/// Whether some pair holds the key.
pub open spec fn has_key(m: Seq<(Seq<char>, Seq<char>)>, k: Seq<char>) -> bool {
    exists|i: int| 0 <= i < m.len() && m[i].0 == k
}

/// Record a key with its value once: a pair is appended only when the
/// key is absent, so the first record of a key wins.
pub open spec fn insert_new(
    m: Seq<(Seq<char>, Seq<char>)>,
    k: Seq<char>,
    v: Seq<char>,
) -> Seq<(Seq<char>, Seq<char>)> {
    if has_key(m, k) {
        m
    } else {
        m.push((k, v))
    }
}

/// The value first recorded for a key.
pub open spec fn lookup_first(m: Seq<(Seq<char>, Seq<char>)>, k: Seq<char>) -> Option<Seq<char>>
    decreases m.len(),
{
    if m.len() == 0 {
        None
    } else if m[0].0 == k {
        Some(m[0].1)
    } else {
        lookup_first(m.drop_first(), k)
    }
}

/// The value most recently recorded for a key.
pub open spec fn lookup_last(m: Seq<(Seq<char>, Seq<char>)>, k: Seq<char>) -> Option<Seq<char>>
    decreases m.len(),
{
    if m.len() == 0 {
        None
    } else if m.last().0 == k {
        Some(m.last().1)
    } else {
        lookup_last(m.drop_last(), k)
    }
}

/// The scan's running state: positional values, toggled boolean flags
/// (each long name with the literal token the caller used), recorded
/// flag values.
pub ghost struct BindStateV {
    pub pos: Seq<Seq<char>>,
    pub bflags: Seq<(Seq<char>, Seq<char>)>,
    pub values: Seq<(Seq<char>, Seq<char>)>,
}

pub open spec fn bind_init() -> BindStateV {
    BindStateV { pos: Seq::empty(), bflags: Seq::empty(), values: Seq::empty() }
}

/// The left-to-right scan of the argument vector, or its first
/// unmatched parameter.
pub open spec fn scan_cli(cmd: CommandV, cli: Seq<Seq<char>>, i: int, st: BindStateV) -> Result<
    BindStateV,
    BindErrorV,
>
    decreases cli.len() - i,
{
    if i < 0 || i >= cli.len() {
        Ok(st)
    } else {
        let a = cli[i];
        if starts_with(a, seq!['-', '-']) {
            if contains_char(a, '=') {
                match find_char(a, '=', 0) {
                    Some(e) => {
                        let name = a.take(e).skip(2);
                        let value = a.skip(e + 1);
                        match find_flag_value(cmd.flags, name, 0) {
                            Some(fi) => scan_cli(
                                cmd,
                                cli,
                                i + 1,
                                BindStateV {
                                    values: st.values.push((cmd.flags[fi].long, value)),
                                    ..st
                                },
                            ),
                            None => Err(BindErrorV::UnknownValueFlag { name }),
                        }
                    },
                    None => scan_cli(cmd, cli, i + 1, st),
                }
            } else {
                let name = a.skip(2);
                match find_flag_bool(cmd.flags, name, 0) {
                    Some(fi) => scan_cli(
                        cmd,
                        cli,
                        i + 1,
                        BindStateV {
                            bflags: insert_new(st.bflags, cmd.flags[fi].long, a),
                            ..st
                        },
                    ),
                    None => Err(BindErrorV::UnknownFlag { name }),
                }
            }
        } else if starts_with(a, seq!['-']) && a.len() == 2 {
            let c = a[1];
            match find_flag_short(cmd.flags, c, 0) {
                Some(fi) => if cmd.flags[fi].takes_value {
                    if i + 1 < cli.len() {
                        scan_cli(
                            cmd,
                            cli,
                            i + 2,
                            BindStateV {
                                values: st.values.push((cmd.flags[fi].long, cli[i + 1])),
                                ..st
                            },
                        )
                    } else {
                        Err(BindErrorV::MissingFlagValue { short: c })
                    }
                } else {
                    scan_cli(
                        cmd,
                        cli,
                        i + 1,
                        BindStateV {
                            bflags: insert_new(st.bflags, cmd.flags[fi].long, a),
                            ..st
                        },
                    )
                },
                None => Err(BindErrorV::UnknownShortFlag { short: c }),
            }
        } else {
            scan_cli(cmd, cli, i + 1, BindStateV { pos: st.pos.push(a), ..st })
        }
    }
}

/// The first variadic argument's position in declaration order.
pub open spec fn first_varargs(args: Seq<ArgumentV>, i: int) -> Option<int>
    decreases args.len() - i,
{
    if i < 0 || i >= args.len() {
        None
    } else if args[i].is_varargs {
        Some(i)
    } else {
        first_varargs(args, i + 1)
    }
}

/// The first argument with the given name.
pub open spec fn first_idx_with_name(args: Seq<ArgumentV>, name: Seq<char>, i: int) -> int
    decreases args.len() - i,
{
    if i < 0 || i >= args.len() {
        args.len() as int
    } else if args[i].name == name {
        i
    } else {
        first_idx_with_name(args, name, i + 1)
    }
}

/// The positional values with the run from the variadic slot on joined
/// into one space-separated value at that slot; zero trailing values
/// yield an empty string there.
pub open spec fn collect_varargs(cmd: CommandV, pos: Seq<Seq<char>>) -> Seq<Seq<char>> {
    match first_varargs(cmd.args, 0) {
        None => pos,
        Some(vi) => {
            let p = first_idx_with_name(cmd.args, cmd.args[vi].name, 0);
            if pos.len() >= p {
                pos.take(p).push(join_with(pos.skip(p), seq![' ']))
            } else {
                pos
            }
        },
    }
}

/// The name of the first required argument without a bound value.
pub open spec fn missing_required(args: Seq<ArgumentV>, pos: Seq<Seq<char>>, i: int) -> Option<
    Seq<char>,
>
    decreases args.len() - i,
{
    if i < 0 || i >= args.len() {
        None
    } else if !args[i].optional && first_idx_with_name(args, args[i].name, 0) >= pos.len() {
        Some(args[i].name)
    } else {
        missing_required(args, pos, i + 1)
    }
}

/// The environment pairs the bound arguments contribute: for each
/// argument with a value at its slot, the upper-cased name and the
/// original-case name, both set to the value.
pub open spec fn env_args(args: Seq<ArgumentV>, pos: Seq<Seq<char>>, i: int) -> Seq<
    (Seq<char>, Seq<char>),
>
    decreases args.len() - i,
{
    if i < 0 || i >= args.len() {
        Seq::empty()
    } else {
        let rest = env_args(args, pos, i + 1);
        if i < pos.len() {
            seq![(upper_of(args[i].name), pos[i]), (args[i].name, pos[i])] + rest
        } else {
            rest
        }
    }
}

/// The environment pairs the flags contribute: a value flag sets the
/// upper-cased long name to the value and the original-case name to the
/// literal `--name=value`; a toggled boolean flag sets the upper-cased
/// name to `true` and the original-case name to the form the caller
/// used; an unmatched flag contributes nothing.
pub open spec fn env_flags(
    flags: Seq<FlagV>,
    bflags: Seq<(Seq<char>, Seq<char>)>,
    values: Seq<(Seq<char>, Seq<char>)>,
    i: int,
) -> Seq<(Seq<char>, Seq<char>)>
    decreases flags.len() - i,
{
    if i < 0 || i >= flags.len() {
        Seq::empty()
    } else {
        let f = flags[i];
        let rest = env_flags(flags, bflags, values, i + 1);
        match lookup_last(values, f.long) {
            Some(v) => seq![
                (upper_of(f.long), v),
                (f.long, seq!['-', '-'] + f.long + seq!['='] + v),
            ] + rest,
            None => match lookup_first(bflags, f.long) {
                Some(lit) => seq![(upper_of(f.long), "true"@), (f.long, lit)] + rest,
                None => rest,
            },
        }
    }
}

/// The interpreter path a shebang line selects, the POSIX shell when
/// none is declared.
pub open spec fn interpreter_of(shebang: Seq<char>) -> Seq<char> {
    if starts_with(shebang, seq!['#', '!']) {
        trim(shebang.skip(2))
    } else {
        seq!['s', 'h']
    }
}

/// The scan with the variadic collection applied.
pub open spec fn spec_parse_cli(cmd: CommandV, cli: Seq<Seq<char>>) -> Result<
    BindStateV,
    BindErrorV,
> {
    match scan_cli(cmd, cli, 0, bind_init()) {
        Ok(st) => Ok(BindStateV { pos: collect_varargs(cmd, st.pos), ..st }),
        Err(e) => Err(e),
    }
}

/// What binding an argument vector against a command yields: the
/// completed environment and the interpreter and script to execute, or
/// the first unmatched or missing parameter.
pub open spec fn spec_bind(cmd: CommandV, cli: Seq<Seq<char>>) -> Result<
    InvocationV,
    BindErrorV,
> {
    match spec_parse_cli(cmd, cli) {
        Err(e) => Err(e),
        Ok(st) => match missing_required(cmd.args, st.pos, 0) {
            Some(name) => Err(BindErrorV::MissingRequiredArgument { name }),
            None => Ok(
                InvocationV {
                    interpreter: interpreter_of(cmd.shebang),
                    script: cmd.script,
                    env: env_args(cmd.args, st.pos, 0) + env_flags(
                        cmd.flags,
                        st.bflags,
                        st.values,
                        0,
                    ),
                },
            ),
        },
    }
}

fn find_flag_value_exec(flags: &Vec<Flag>, name: &String) -> (r: Option<usize>)
    ensures
        match r {
            Some(i) => find_flag_value(flags.deep_view(), name@, 0) == Some(i as int) && i
                < flags@.len(),
            None => find_flag_value(flags.deep_view(), name@, 0) == None::<int>,
        },
{
    let ghost fv = flags.deep_view();
    proof {
        assert(forall|j: int| 0 <= j < flags@.len() ==> fv[j] == flags@[j]@);
    }
    let mut i: usize = 0;
    while i < flags.len()
        invariant
            i <= flags@.len(),
            fv == flags.deep_view(),
            fv.len() == flags@.len(),
            forall|j: int| 0 <= j < flags@.len() ==> fv[j] == flags@[j]@,
            find_flag_value(fv, name@, 0) == find_flag_value(fv, name@, i as int),
        decreases flags@.len() - i,
    {
        if flags[i].long == *name && flags[i].takes_value {
            return Some(i);
        }
        i += 1;
    }
    None
}

fn find_flag_bool_exec(flags: &Vec<Flag>, name: &String) -> (r: Option<usize>)
    ensures
        match r {
            Some(i) => find_flag_bool(flags.deep_view(), name@, 0) == Some(i as int) && i
                < flags@.len(),
            None => find_flag_bool(flags.deep_view(), name@, 0) == None::<int>,
        },
{
    let ghost fv = flags.deep_view();
    proof {
        assert(forall|j: int| 0 <= j < flags@.len() ==> fv[j] == flags@[j]@);
    }
    let mut i: usize = 0;
    while i < flags.len()
        invariant
            i <= flags@.len(),
            fv == flags.deep_view(),
            fv.len() == flags@.len(),
            forall|j: int| 0 <= j < flags@.len() ==> fv[j] == flags@[j]@,
            find_flag_bool(fv, name@, 0) == find_flag_bool(fv, name@, i as int),
        decreases flags@.len() - i,
    {
        if flags[i].long == *name && !flags[i].takes_value {
            return Some(i);
        }
        i += 1;
    }
    None
}

fn find_flag_short_exec(flags: &Vec<Flag>, c: char) -> (r: Option<usize>)
    ensures
        match r {
            Some(i) => find_flag_short(flags.deep_view(), c, 0) == Some(i as int) && i
                < flags@.len(),
            None => find_flag_short(flags.deep_view(), c, 0) == None::<int>,
        },
{
    let ghost fv = flags.deep_view();
    proof {
        assert(forall|j: int| 0 <= j < flags@.len() ==> fv[j] == flags@[j]@);
    }
    let mut i: usize = 0;
    while i < flags.len()
        invariant
            i <= flags@.len(),
            fv == flags.deep_view(),
            fv.len() == flags@.len(),
            forall|j: int| 0 <= j < flags@.len() ==> fv[j] == flags@[j]@,
            find_flag_short(fv, c, 0) == find_flag_short(fv, c, i as int),
        decreases flags@.len() - i,
    {
        let hit = match flags[i].short {
            Some(x) => x == c,
            None => false,
        };
        if hit {
            return Some(i);
        }
        i += 1;
    }
    None
}

fn lookup_last_exec(m: &Vec<(String, String)>, k: &String) -> (r: Option<String>)
    ensures
        match r {
            Some(v) => lookup_last(m.deep_view(), k@) == Some(v@),
            None => lookup_last(m.deep_view(), k@) == None::<Seq<char>>,
        },
{
    let ghost mv = m.deep_view();
    proof {
        assert(forall|j: int| 0 <= j < m@.len() ==> mv[j] == (m@[j].0@, m@[j].1@));
    }
    let mut i: usize = m.len();
    proof {
        assert(mv.take(mv.len() as int) =~= mv);
    }
    while i > 0
        invariant
            i <= m@.len(),
            mv == m.deep_view(),
            mv.len() == m@.len(),
            forall|j: int| 0 <= j < m@.len() ==> mv[j] == (m@[j].0@, m@[j].1@),
            lookup_last(mv, k@) == lookup_last(mv.take(i as int), k@),
        decreases i,
    {
        proof {
            assert(mv.take(i as int).last() == mv[i - 1]);
            assert(mv.take(i as int).drop_last() =~= mv.take(i - 1));
        }
        if m[i - 1].0 == *k {
            return Some(m[i - 1].1.clone());
        }
        i -= 1;
    }
    proof {
        assert(mv.take(0).len() == 0);
    }
    None
}

fn contains_key_exec(m: &Vec<(String, String)>, k: &String) -> (r: bool)
    ensures
        r == has_key(m.deep_view(), k@),
{
    let ghost mv = m.deep_view();
    proof {
        assert(forall|j: int| 0 <= j < m@.len() ==> mv[j] == (m@[j].0@, m@[j].1@));
    }
    let mut j: usize = 0;
    while j < m.len()
        invariant
            j <= m@.len(),
            mv == m.deep_view(),
            mv.len() == m@.len(),
            forall|i: int| 0 <= i < m@.len() ==> mv[i] == (m@[i].0@, m@[i].1@),
            forall|i: int| 0 <= i < j ==> mv[i].0 != k@,
        decreases m@.len() - j,
    {
        if m[j].0 == *k {
            proof {
                assert(mv[j as int].0 == k@);
            }
            return true;
        }
        j += 1;
    }
    false
}

fn lookup_first_exec(m: &Vec<(String, String)>, k: &String) -> (r: Option<String>)
    ensures
        match r {
            Some(v) => lookup_first(m.deep_view(), k@) == Some(v@),
            None => lookup_first(m.deep_view(), k@) == None::<Seq<char>>,
        },
{
    let ghost mv = m.deep_view();
    proof {
        assert(forall|j: int| 0 <= j < m@.len() ==> mv[j] == (m@[j].0@, m@[j].1@));
        assert(mv.skip(0) =~= mv);
    }
    let mut j: usize = 0;
    while j < m.len()
        invariant
            j <= m@.len(),
            mv == m.deep_view(),
            mv.len() == m@.len(),
            forall|i: int| 0 <= i < m@.len() ==> mv[i] == (m@[i].0@, m@[i].1@),
            lookup_first(mv, k@) == lookup_first(mv.skip(j as int), k@),
        decreases m@.len() - j,
    {
        proof {
            assert(mv.skip(j as int)[0] == mv[j as int]);
            assert(mv.skip(j as int).drop_first() =~= mv.skip(j + 1));
        }
        if m[j].0 == *k {
            return Some(m[j].1.clone());
        }
        j += 1;
    }
    None
}

#[derive(Default)]
pub struct RunPhase;

impl RunPhase {
    pub fn new() -> (r: Self) {
        RunPhase
    }

    /// Scan the argument vector against the command's declared flags and
    /// arguments, collecting positional values, toggled flags and flag
    /// values, and absorbing the variadic tail into one value.
    #[verifier::rlimit(100)]
    pub fn parse_cli_args(&self, command: &Command, cli_args: Vec<String>) -> (r: Result<
        (Vec<String>, Vec<(String, String)>, Vec<(String, String)>),
        BindError,
    >)
        ensures
            match r {
                Ok(t) => spec_parse_cli(command@, cli_args.deep_view()) == Ok::<
                    BindStateV,
                    BindErrorV,
                >(
                    BindStateV {
                        pos: t.0.deep_view(),
                        bflags: t.1.deep_view(),
                        values: t.2.deep_view(),
                    },
                ),
                Err(e) => spec_parse_cli(command@, cli_args.deep_view()) == Err::<
                    BindStateV,
                    BindErrorV,
                >(e@),
            },
    {
        let ghost cmdv = command@;
        let ghost cliv = cli_args.deep_view();
        proof {
            assert(forall|j: int| 0 <= j < cli_args@.len() ==> cliv[j] =~= cli_args@[j]@);
        }
        let n = cli_args.len();
        let mut pos: Vec<String> = Vec::new();
        let mut bflags: Vec<(String, String)> = Vec::new();
        let mut values: Vec<(String, String)> = Vec::new();
        proof {
            assert(pos.deep_view() =~~= Seq::<Seq<char>>::empty());
            assert(bflags.deep_view() =~~= Seq::<(Seq<char>, Seq<char>)>::empty());
            assert(values.deep_view() =~~= Seq::<(Seq<char>, Seq<char>)>::empty());
        }
        let mut i: usize = 0;
        while i < n
            invariant
                n == cli_args@.len(),
                cliv == cli_args.deep_view(),
                cliv.len() == n,
                forall|j: int| 0 <= j < n ==> cliv[j] == cli_args@[j]@,
                i <= n,
                cmdv == command@,
                scan_cli(cmdv, cliv, 0, bind_init()) == scan_cli(
                    cmdv,
                    cliv,
                    i as int,
                    BindStateV {
                        pos: pos.deep_view(),
                        bflags: bflags.deep_view(),
                        values: values.deep_view(),
                    },
                ),
            decreases n - i,
        {
            let ghost st0 = BindStateV {
                pos: pos.deep_view(),
                bflags: bflags.deep_view(),
                values: values.deep_view(),
            };
            let a = chars_of(cli_args[i].as_str());
            if starts_with_vec(&a, &chars2('-', '-')) {
                if contains_char_vec(&a, '=') {
                    match find_char_vec(&a, '=') {
                        Some(e) => {
                            proof {
                                crate::text::lemma_find_char_bounds(a@, '=', 0);
                                assert(a@[0] == '-' && a@[1] == '-') by {
                                    assert(a@.take(2)[0] == a@[0]);
                                    assert(a@.take(2)[1] == a@[1]);
                                }
                                assert(e >= 2);
                            }
                            let namev = subvec(&a, 2, e);
                            proof {
                                assert(namev@ =~= a@.take(e as int).skip(2));
                            }
                            let alen = a.len();
                            let value = subvec(&a, e + 1, alen);
                            proof {
                                assert(value@ =~= a@.skip(e + 1));
                            }
                            let names = string_of(&namev);
                            match find_flag_value_exec(&command.flags, &names) {
                                Some(fi) => {
                                    let ghost v0 = values.deep_view();
                                    values.push(
                                        (command.flags[fi].long.clone(), string_of(&value)),
                                    );
                                    proof {
                                        assert(command.flags.deep_view()[fi as int]
                                            == command.flags@[fi as int]@);
                                        assert(values.deep_view() =~~= v0.push(
                                            (cmdv.flags[fi as int].long, a@.skip(e + 1)),
                                        ));
                                    }
                                    i += 1;
                                },
                                None => {
                                    return Err(BindError::UnknownValueFlag { name: names });
                                },
                            }
                        },
                        None => {
                            i += 1;
                        },
                    }
                } else {
                    let namev = subvec(&a, 2, a.len());
                    proof {
                        assert(namev@ =~= a@.skip(2));
                    }
                    let names = string_of(&namev);
                    match find_flag_bool_exec(&command.flags, &names) {
                        Some(fi) => {
                            let long = command.flags[fi].long.clone();
                            proof {
                                assert(command.flags.deep_view()[fi as int]
                                    == command.flags@[fi as int]@);
                            }
                            let ghost b0 = bflags.deep_view();
                            if !contains_key_exec(&bflags, &long) {
                                bflags.push((long, cli_args[i].clone()));
                                proof {
                                    assert(bflags.deep_view() =~~= b0.push(
                                        (cmdv.flags[fi as int].long, cliv[i as int]),
                                    ));
                                }
                            }
                            proof {
                                assert(bflags.deep_view() == insert_new(
                                    b0,
                                    cmdv.flags[fi as int].long,
                                    cliv[i as int],
                                ));
                            }
                            i += 1;
                        },
                        None => {
                            return Err(BindError::UnknownFlag { name: names });
                        },
                    }
                }
            } else if starts_with_vec(&a, &crate::text::chars1('-')) && a.len() == 2 {
                let c = a[1];
                match find_flag_short_exec(&command.flags, c) {
                    Some(fi) => {
                        proof {
                            assert(command.flags.deep_view()[fi as int]
                                == command.flags@[fi as int]@);
                        }
                        if command.flags[fi].takes_value {
                            if i + 1 < n {
                                let ghost v0 = values.deep_view();
                                values.push(
                                    (command.flags[fi].long.clone(), cli_args[i + 1].clone()),
                                );
                                proof {
                                    assert(values.deep_view() =~~= v0.push(
                                        (cmdv.flags[fi as int].long, cliv[i + 1]),
                                    ));
                                }
                                i += 2;
                            } else {
                                return Err(BindError::MissingFlagValue { short: c });
                            }
                        } else {
                            let long = command.flags[fi].long.clone();
                            let ghost b0 = bflags.deep_view();
                            if !contains_key_exec(&bflags, &long) {
                                bflags.push((long, cli_args[i].clone()));
                                proof {
                                    assert(bflags.deep_view() =~~= b0.push(
                                        (cmdv.flags[fi as int].long, cliv[i as int]),
                                    ));
                                }
                            }
                            proof {
                                assert(bflags.deep_view() == insert_new(
                                    b0,
                                    cmdv.flags[fi as int].long,
                                    cliv[i as int],
                                ));
                            }
                            i += 1;
                        }
                    },
                    None => {
                        return Err(BindError::UnknownShortFlag { short: c });
                    },
                }
            } else {
                let ghost p0 = pos.deep_view();
                pos.push(cli_args[i].clone());
                proof {
                    assert(pos.deep_view() =~~= p0.push(cliv[i as int]));
                }
                i += 1;
            }
        }
        let args = &command.args;
        let ghost av = args.deep_view();
        proof {
            assert(av == cmdv.args);
            assert(forall|j: int| 0 <= j < args@.len() ==> av[j] == args@[j]@);
        }
        let mut vi: Option<usize> = None;
        let mut k: usize = 0;
        while k < args.len() && vi.is_none()
            invariant
                k <= args@.len(),
                av == args.deep_view(),
                av.len() == args@.len(),
                forall|j: int| 0 <= j < args@.len() ==> av[j] == args@[j]@,
                match vi {
                    Some(v) => first_varargs(av, 0) == Some(v as int) && v < args@.len(),
                    None => first_varargs(av, 0) == first_varargs(av, k as int),
                },
            decreases args@.len() - k + (if vi.is_some() {
                0int
            } else {
                1int
            }),
        {
            if args[k].is_varargs {
                vi = Some(k);
            } else {
                k += 1;
            }
        }
        match vi {
            Some(v) => {
                let vname = &args[v].name;
                let mut p: usize = 0;
                while p < args.len() && args[p].name != *vname
                    invariant
                        p <= args@.len(),
                        av == args.deep_view(),
                        av.len() == args@.len(),
                        forall|j: int| 0 <= j < args@.len() ==> av[j] == args@[j]@,
                        vname@ == av[v as int].name,
                        first_idx_with_name(av, vname@, 0) == first_idx_with_name(
                            av,
                            vname@,
                            p as int,
                        ),
                    decreases args@.len() - p,
                {
                    p += 1;
                }
                proof {
                    assert(first_idx_with_name(av, vname@, 0) == p as int);
                }
                if pos.len() >= p {
                    let ghost posv = pos.deep_view();
                    let tail = pos.split_off(p);
                    proof {
                        assert(pos.deep_view() =~~= posv.take(p as int));
                        assert(tail.deep_view() =~~= posv.skip(p as int));
                    }
                    let joined = crate::text::join_strings(&tail, " ");
                    proof {
                        reveal_strlit(" ");
                        assert(" "@ =~= seq![' ']);
                    }
                    let ghost pt = pos.deep_view();
                    pos.push(joined);
                    proof {
                        assert(pos.deep_view() =~~= pt.push(
                            join_with(posv.skip(p as int), seq![' ']),
                        ));
                        assert(pos.deep_view() =~~= collect_varargs(cmdv, posv));
                    }
                }
            },
            None => {},
        }
        Ok((pos, bflags, values))
    }

    /// Check that every required argument has a bound value at its
    /// slot.
    pub fn validate_required_args(&self, command: &Command, provided_args: &Vec<String>) -> (r:
        Result<(), BindError>)
        ensures
            match r {
                Ok(_) => missing_required(command@.args, provided_args.deep_view(), 0)
                    == None::<Seq<char>>,
                Err(e) => match e@ {
                    BindErrorV::MissingRequiredArgument { name } => missing_required(
                        command@.args,
                        provided_args.deep_view(),
                        0,
                    ) == Some(name),
                    _ => false,
                },
            },
    {
        let args = &command.args;
        let ghost av = args.deep_view();
        let ghost pv = provided_args.deep_view();
        proof {
            assert(av == command@.args);
            assert(forall|j: int| 0 <= j < args@.len() ==> av[j] == args@[j]@);
        }
        let mut i: usize = 0;
        while i < args.len()
            invariant
                i <= args@.len(),
                av == args.deep_view(),
                av == command@.args,
                pv == provided_args.deep_view(),
                pv.len() == provided_args@.len(),
                av.len() == args@.len(),
                forall|j: int| 0 <= j < args@.len() ==> av[j] == args@[j]@,
                missing_required(av, pv, 0) == missing_required(av, pv, i as int),
            decreases args@.len() - i,
        {
            if !args[i].optional {
                let nm = &args[i].name;
                let mut p: usize = 0;
                while p < args.len() && args[p].name != *nm
                    invariant
                        p <= args@.len(),
                        av == args.deep_view(),
                        av.len() == args@.len(),
                        forall|j: int| 0 <= j < args@.len() ==> av[j] == args@[j]@,
                        nm@ == av[i as int].name,
                        first_idx_with_name(av, nm@, 0) == first_idx_with_name(av, nm@, p as int),
                    decreases args@.len() - p,
                {
                    p += 1;
                }
                proof {
                    assert(first_idx_with_name(av, nm@, 0) == p as int);
                }
                if p >= provided_args.len() {
                    return Err(BindError::MissingRequiredArgument { name: nm.clone() });
                }
            }
            proof {
                assert(missing_required(av, pv, i as int) == missing_required(av, pv, i + 1));
            }
            i += 1;
        }
        Ok(())
    }

    /// Bind the argument vector against the command: the completed
    /// environment, interpreter path and script, ready for the external
    /// process executor, or the first unmatched or missing parameter.
    #[verifier::rlimit(100)]
    pub fn bind(&self, command: &Command, cli_args: Vec<String>) -> (r: Result<
        Invocation,
        BindError,
    >)
        ensures
            match r {
                Ok(inv) => spec_bind(command@, cli_args.deep_view()) == Ok::<
                    InvocationV,
                    BindErrorV,
                >(inv@),
                Err(e) => spec_bind(command@, cli_args.deep_view()) == Err::<
                    InvocationV,
                    BindErrorV,
                >(e@),
            },
    {
        let ghost cmdv = command@;
        let ghost cliv = cli_args.deep_view();
        let (pos, bflags, values) = match self.parse_cli_args(command, cli_args) {
            Ok(t) => t,
            Err(e) => {
                return Err(e);
            },
        };
        match self.validate_required_args(command, &pos) {
            Ok(_) => {},
            Err(e) => {
                return Err(e);
            },
        }
        let ghost posv = pos.deep_view();
        let ghost bfv = bflags.deep_view();
        let ghost valv = values.deep_view();
        let mut env: Vec<(String, String)> = Vec::new();
        proof {
            assert(env.deep_view() =~~= Seq::<(Seq<char>, Seq<char>)>::empty());
        }
        let args = &command.args;
        let ghost av = args.deep_view();
        proof {
            assert(av == cmdv.args);
            assert(forall|j: int| 0 <= j < args@.len() ==> av[j] == args@[j]@);
            assert(forall|j: int| 0 <= j < pos@.len() ==> posv[j] == pos@[j]@);
        }
        let mut i: usize = 0;
        while i < args.len()
            invariant
                i <= args@.len(),
                av == args.deep_view(),
                av.len() == args@.len(),
                posv == pos.deep_view(),
                posv.len() == pos@.len(),
                forall|j: int| 0 <= j < args@.len() ==> av[j] == args@[j]@,
                forall|j: int| 0 <= j < pos@.len() ==> posv[j] == pos@[j]@,
                env_args(av, posv, 0) =~~= env.deep_view() + env_args(av, posv, i as int),
            decreases args@.len() - i,
        {
            if i < pos.len() {
                let up = to_upper(args[i].name.as_str());
                let ghost e0 = env.deep_view();
                env.push((up, pos[i].clone()));
                env.push((args[i].name.clone(), pos[i].clone()));
                proof {
                    assert(env.deep_view() =~~= e0 + seq![
                        (upper_of(av[i as int].name), posv[i as int]),
                        (av[i as int].name, posv[i as int]),
                    ]);
                }
            }
            i += 1;
        }
        proof {
            assert(env_args(av, posv, args@.len() as int) =~~= Seq::<
                (Seq<char>, Seq<char>),
            >::empty());
        }
        let flags = &command.flags;
        let ghost fv = flags.deep_view();
        proof {
            assert(fv == cmdv.flags);
            assert(forall|j: int| 0 <= j < flags@.len() ==> fv[j] == flags@[j]@);
        }
        let mut i2: usize = 0;
        while i2 < flags.len()
            invariant
                i2 <= flags@.len(),
                fv == flags.deep_view(),
                fv.len() == flags@.len(),
                bfv == bflags.deep_view(),
                valv == values.deep_view(),
                posv == pos.deep_view(),
                av == args.deep_view(),
                forall|j: int| 0 <= j < flags@.len() ==> fv[j] == flags@[j]@,
                env_args(av, posv, 0) + env_flags(fv, bfv, valv, 0) =~~= env.deep_view()
                    + env_flags(fv, bfv, valv, i2 as int),
            decreases flags@.len() - i2,
        {
            let f = &flags[i2];
            match lookup_last_exec(&values, &f.long) {
                Some(v) => {
                    let up = to_upper(f.long.as_str());
                    let mut lit = String::new();
                    lit.push('-');
                    lit.push('-');
                    lit.append(f.long.as_str());
                    lit.push('=');
                    lit.append(v.as_str());
                    proof {
                        assert(lit@ =~= seq!['-', '-'] + fv[i2 as int].long + seq!['='] + v@);
                    }
                    let ghost e0 = env.deep_view();
                    env.push((up, v));
                    env.push((f.long.clone(), lit));
                    proof {
                        let sv = lookup_last(valv, fv[i2 as int].long)->Some_0;
                        assert(env.deep_view() =~~= e0 + seq![
                            (upper_of(fv[i2 as int].long), sv),
                            (
                                fv[i2 as int].long,
                                seq!['-', '-'] + fv[i2 as int].long + seq!['='] + sv,
                            ),
                        ]);
                    }
                },
                None => {
                    match lookup_first_exec(&bflags, &f.long) {
                        Some(lit) => {
                            let up = to_upper(f.long.as_str());
                            let ghost litv = lookup_first(bfv, fv[i2 as int].long)->Some_0;
                            let ghost e0 = env.deep_view();
                            env.push((up, "true".to_owned()));
                            env.push((f.long.clone(), lit));
                            proof {
                                assert(env.deep_view() =~~= e0 + seq![
                                    (upper_of(fv[i2 as int].long), "true"@),
                                    (fv[i2 as int].long, litv),
                                ]);
                            }
                        },
                        None => {},
                    }
                },
            }
            i2 += 1;
        }
        proof {
            assert(env_flags(fv, bfv, valv, flags@.len() as int) =~~= Seq::<
                (Seq<char>, Seq<char>),
            >::empty());
            assert(env.deep_view() =~~= env_args(av, posv, 0) + env_flags(fv, bfv, valv, 0));
        }
        let sv = chars_of(command.shebang.as_str());
        let interpreter: String = if starts_with_vec(&sv, &chars2('#', '!')) {
            let sub = subvec(&sv, 2, sv.len());
            proof {
                assert(sub@ =~= cmdv.shebang.skip(2));
            }
            string_of(&trim_vec(&sub))
        } else {
            let mut s = String::new();
            s.push('s');
            s.push('h');
            proof {
                assert(s@ =~= seq!['s', 'h']);
            }
            s
        };
        Ok(Invocation { interpreter, script: command.script.clone(), env })
    }
}

} // verus!
