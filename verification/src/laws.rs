//! Laws of the pipeline: properties that relate several functions,
//! stated over the same specification functions their contracts use.

use vstd::prelude::*;
use crate::parse::{parse_fold, parse_init, parse_step, spec_parse, ParseStateV};
use crate::resolve::{dup_arg_at, find_cmd, last_varargs, spec_resolve, spec_validate, varargs_count, ResolveErrorV};
use crate::run::{
    bind_init, collect_varargs, find_flag_bool, first_idx_with_name, first_varargs,
    missing_required, scan_cli, spec_bind, BindErrorV, BindStateV,
};
use crate::text::{contains_char, starts_with};
use crate::tokenize::{spec_tokenize, InlineArgV, InlineFlagV, LexError, TokenV};
use crate::parse::{ArgumentV, CommandV, RunfileV};

verus! {

/// How many of the tokens are argument declarations.
pub open spec fn count_arg_tokens(toks: Seq<TokenV>) -> int
    decreases toks.len(),
{
    if toks.len() == 0 {
        0
    } else {
        (if toks[0] is Argument {
            1int
        } else {
            0int
        }) + count_arg_tokens(toks.drop_first())
    }
}

/// How many of the tokens are flag declarations.
pub open spec fn count_flag_tokens(toks: Seq<TokenV>) -> int
    decreases toks.len(),
{
    if toks.len() == 0 {
        0
    } else {
        (if toks[0] is Flag {
            1int
        } else {
            0int
        }) + count_flag_tokens(toks.drop_first())
    }
}

/// Every token is an argument or flag declaration.
pub open spec fn all_decl_tokens(toks: Seq<TokenV>) -> bool {
    forall|i: int| 0 <= i < toks.len() ==> (toks[i] is Argument || toks[i] is Flag)
}

proof fn lemma_decl_fold(st: ParseStateV, decls: Seq<TokenV>)
    requires
        all_decl_tokens(decls),
        st.current is Some,
        !st.in_script,
    ensures
        ({
            let st2 = parse_fold(st, decls);
            &&& st2.current matches Some(c2) && (st.current matches Some(c) && c2.args.len()
                == c.args.len() + count_arg_tokens(decls) && c2.flags.len() == c.flags.len()
                + count_flag_tokens(decls))
            &&& st2.commands == st.commands
            &&& st2.groups == st.groups
            &&& !st2.in_script
        }),
    decreases decls.len(),
{
    if decls.len() > 0 {
        let st1 = parse_step(st, decls[0]);
        assert(decls[0] is Argument || decls[0] is Flag);
        let rest = decls.drop_first();
        assert(all_decl_tokens(rest)) by {
            assert(forall|i: int| 0 <= i < rest.len() ==> rest[i] == decls[i + 1]);
        }
        lemma_decl_fold(st1, rest);
    }
}

/// LAW: for a command header with N inline argument declarations and M
/// inline flag declarations, followed by any run of block argument and
/// flag declarations, parsing yields exactly one command whose argument
/// count is N plus the number of block arguments and whose flag count
/// is M plus the number of block flags — inline and block declarations
/// count alike.
pub proof fn lemma_declaration_counts(
    name: Seq<Seq<char>>,
    inline_args: Seq<InlineArgV>,
    inline_flags: Seq<InlineFlagV>,
    comment: Option<Seq<char>>,
    decls: Seq<TokenV>,
)
    requires
        all_decl_tokens(decls),
    ensures
        ({
            let header = TokenV::CommandName { name, inline_args, inline_flags, comment };
            let rf = spec_parse(seq![header] + decls);
            &&& rf.commands.len() == 1
            &&& rf.commands[0].args.len() == inline_args.len() + count_arg_tokens(decls)
            &&& rf.commands[0].flags.len() == inline_flags.len() + count_flag_tokens(decls)
        }),
{
    let header = TokenV::CommandName { name, inline_args, inline_flags, comment };
    let toks = seq![header] + decls;
    assert(toks[0] == header);
    assert(toks.drop_first() =~= decls);
    let st1 = parse_step(parse_init(), header);
    assert(parse_fold(parse_init(), toks) == parse_fold(st1, decls));
    lemma_decl_fold(st1, decls);
    let st2 = parse_fold(st1, decls);
    assert(spec_parse(toks).commands =~= st2.commands.push(st2.current->Some_0));
}

proof fn lemma_unique_no_dup(args: Seq<ArgumentV>, k: int)
    requires
        0 <= k,
        forall|i: int, j: int| 0 <= i < j < args.len() ==> args[i].name != args[j].name,
    ensures
        dup_arg_at(args, k) == None::<int>,
    decreases args.len() - k,
{
    if k < args.len() {
        lemma_unique_no_dup(args, k + 1);
    }
}

proof fn lemma_no_varargs_count(args: Seq<ArgumentV>)
    requires
        forall|i: int| 0 <= i < args.len() ==> !args[i].is_varargs,
    ensures
        varargs_count(args) == 0,
        last_varargs(args) == None::<int>,
    decreases args.len(),
{
    reveal(Seq::filter);
    if args.len() > 0 {
        assert(forall|i: int| 0 <= i < args.drop_last().len() ==> args.drop_last()[i]
            == args[i]);
        lemma_no_varargs_count(args.drop_last());
    }
}

proof fn lemma_single_varargs(args: Seq<ArgumentV>, v: int)
    requires
        0 <= v < args.len(),
        args[v].is_varargs,
        forall|i: int| 0 <= i < args.len() && i != v ==> !args[i].is_varargs,
    ensures
        varargs_count(args) == 1,
        last_varargs(args) == Some(v),
    decreases args.len(),
{
    reveal(Seq::filter);
    let front = args.drop_last();
    assert(forall|i: int| 0 <= i < front.len() ==> front[i] == args[i]);
    if v == args.len() - 1 {
        assert(forall|i: int| 0 <= i < front.len() ==> !front[i].is_varargs);
        lemma_no_varargs_count(front);
    } else {
        lemma_single_varargs(front, v);
    }
}

proof fn lemma_two_varargs(args: Seq<ArgumentV>, i: int, j: int)
    requires
        0 <= i < j < args.len(),
        args[i].is_varargs,
        args[j].is_varargs,
    ensures
        varargs_count(args) >= 2,
    decreases args.len(),
{
    reveal(Seq::filter);
    let front = args.drop_last();
    assert(forall|k: int| 0 <= k < front.len() ==> front[k] == args[k]);
    if j == args.len() - 1 {
        lemma_one_varargs(front, i);
    } else {
        lemma_two_varargs(front, i, j);
    }
}

proof fn lemma_one_varargs(args: Seq<ArgumentV>, i: int)
    requires
        0 <= i < args.len(),
        args[i].is_varargs,
    ensures
        varargs_count(args) >= 1,
    decreases args.len(),
{
    reveal(Seq::filter);
    let front = args.drop_last();
    assert(forall|k: int| 0 <= k < front.len() ==> front[k] == args[k]);
    if i < args.len() - 1 {
        lemma_one_varargs(front, i);
    }
}

/// LAW: a command whose arguments have distinct names and whose single
/// variadic argument stands anywhere but last fails validation with
/// `VarargsNotLast`.
pub proof fn lemma_varargs_not_last(c: CommandV, v: int)
    requires
        forall|i: int, j: int| 0 <= i < j < c.args.len() ==> c.args[i].name != c.args[j].name,
        0 <= v < c.args.len() - 1,
        c.args[v].is_varargs,
        forall|i: int| 0 <= i < c.args.len() && i != v ==> !c.args[i].is_varargs,
    ensures
        spec_validate(c) == Some(ResolveErrorV::VarargsNotLast),
{
    lemma_unique_no_dup(c.args, 0);
    lemma_single_varargs(c.args, v);
}

/// LAW: a command whose arguments have distinct names and which
/// declares two variadic arguments fails validation with
/// `MultipleVarargs`.
pub proof fn lemma_multiple_varargs(c: CommandV, i: int, j: int)
    requires
        forall|a: int, b: int| 0 <= a < b < c.args.len() ==> c.args[a].name != c.args[b].name,
        0 <= i < j < c.args.len(),
        c.args[i].is_varargs,
        c.args[j].is_varargs,
    ensures
        spec_validate(c) == Some(ResolveErrorV::MultipleVarargs),
{
    lemma_unique_no_dup(c.args, 0);
    lemma_two_varargs(c.args, i, j);
}

/// LAW: resolving a name whose first matching command has distinct
/// argument names and a single variadic argument anywhere but last
/// fails with `VarargsNotLast`; no command is returned.
pub proof fn lemma_resolve_varargs_not_last(rf: RunfileV, target: Seq<char>, ci: int, v: int)
    requires
        find_cmd(rf.commands, target, 0) == Some(ci),
        0 <= ci < rf.commands.len(),
        forall|i: int, j: int|
            0 <= i < j < rf.commands[ci].args.len() ==> rf.commands[ci].args[i].name
                != rf.commands[ci].args[j].name,
        0 <= v < rf.commands[ci].args.len() - 1,
        rf.commands[ci].args[v].is_varargs,
        forall|i: int|
            0 <= i < rf.commands[ci].args.len() && i != v
                ==> !rf.commands[ci].args[i].is_varargs,
    ensures
        spec_resolve(rf, target) == Err::<CommandV, ResolveErrorV>(
            ResolveErrorV::VarargsNotLast,
        ),
{
    lemma_varargs_not_last(rf.commands[ci], v);
}

/// LAW: resolving a name whose first matching command has distinct
/// argument names and two variadic arguments fails with
/// `MultipleVarargs`; no command is returned.
pub proof fn lemma_resolve_multiple_varargs(rf: RunfileV, target: Seq<char>, ci: int, i: int, j: int)
    requires
        find_cmd(rf.commands, target, 0) == Some(ci),
        0 <= ci < rf.commands.len(),
        forall|a: int, b: int|
            0 <= a < b < rf.commands[ci].args.len() ==> rf.commands[ci].args[a].name
                != rf.commands[ci].args[b].name,
        0 <= i < j < rf.commands[ci].args.len(),
        rf.commands[ci].args[i].is_varargs,
        rf.commands[ci].args[j].is_varargs,
    ensures
        spec_resolve(rf, target) == Err::<CommandV, ResolveErrorV>(
            ResolveErrorV::MultipleVarargs,
        ),
{
    lemma_multiple_varargs(rf.commands[ci], i, j);
}

/// LAW: binding a command whose only argument is variadic (and so
/// optional) succeeds whenever the scan of the argument vector yields
/// no positional values at all — a variadic never makes a value
/// required.
pub proof fn lemma_variadic_zero_positionals(cmd: CommandV, cli: Seq<Seq<char>>)
    requires
        cmd.args.len() == 1,
        cmd.args[0].is_varargs,
        cmd.args[0].optional,
        scan_cli(cmd, cli, 0, bind_init()) matches Ok(st) && st.pos.len() == 0,
    ensures
        spec_bind(cmd, cli) is Ok,
{
    let st: BindStateV = match scan_cli(cmd, cli, 0, bind_init()) {
        Ok(st) => st,
        Err(_) => arbitrary::<BindStateV>(),
    };
    assert(first_varargs(cmd.args, 0) == Some(0int));
    assert(first_idx_with_name(cmd.args, cmd.args[0].name, 0) == 0);
    let pos2 = collect_varargs(cmd, st.pos);
    assert(missing_required(cmd.args, pos2, 0) == missing_required(cmd.args, pos2, 1));
}

proof fn lemma_find_flag_bool_none(flags: Seq<crate::parse::FlagV>, name: Seq<char>, k: int)
    requires
        0 <= k,
        forall|i: int| 0 <= i < flags.len() ==> !(flags[i].long == name
            && !flags[i].takes_value),
    ensures
        find_flag_bool(flags, name, k) == None::<int>,
    decreases flags.len() - k,
{
    if k < flags.len() {
        lemma_find_flag_bool_none(flags, name, k + 1);
    }
}

/// LAW: binding an argument vector that opens with `--name`, where no
/// declared flag offers `name` as a boolean flag, fails with
/// `UnknownFlag(name)`.
pub proof fn lemma_unknown_flag(cmd: CommandV, cli: Seq<Seq<char>>, name: Seq<char>)
    requires
        cli.len() > 0,
        cli[0] == seq!['-', '-'] + name,
        !contains_char(name, '='),
        forall|i: int| 0 <= i < cmd.flags.len() ==> !(cmd.flags[i].long == name
            && !cmd.flags[i].takes_value),
    ensures
        spec_bind(cmd, cli) == Err::<crate::run::InvocationV, BindErrorV>(
            BindErrorV::UnknownFlag { name },
        ),
{
    let a = cli[0];
    assert(starts_with(a, seq!['-', '-'])) by {
        assert(a.take(2) =~= seq!['-', '-']);
    }
    assert(!contains_char(a, '=')) by {
        assert forall|i: int| 0 <= i < a.len() implies a[i] != '=' by {
            if i >= 2 {
                assert(a[i] == name[i - 2]);
            }
        }
    }
    assert(a.skip(2) =~= name);
    lemma_find_flag_bool_none(cmd.flags, name, 0);
}

/// LAW: lexing is a pure function of the text — two passes over the
/// same text yield identical token sequences.
pub proof fn lemma_tokenize_deterministic(text: Seq<char>, t1: Seq<TokenV>, t2: Seq<TokenV>)
    requires
        spec_tokenize(text) == Ok::<Seq<TokenV>, LexError>(t1),
        spec_tokenize(text) == Ok::<Seq<TokenV>, LexError>(t2),
    ensures
        t1 == t2,
{
}

} // verus!
