//! The resolver: one command located by name and its structural
//! invariants enforced.
//!
//! The parser stays permissive so that declaration-shaped script text is
//! never rejected; the invariants — unique argument names, a single
//! trailing variadic, unique flag keys, a non-empty script — are checked
//! here, on the one command about to run, in a fixed order, and the
//! first violation is reported.

use vstd::prelude::*;
use vstd::string::StringExecFns;
use crate::parse::{ArgumentV, Command, CommandV, FlagV, Runfile, RunfileV};
use crate::text::{chars_of, contains_name, trim, trim_vec};

verus! {

/// A failure of resolution: the command is missing, or one of its
/// structural invariants does not hold.
#[derive(Debug, Clone, PartialEq)]
pub enum ResolveError {
    CommandNotFound { name: String },
    DuplicateArgument { name: String },
    MultipleVarargs,
    VarargsNotLast,
    DuplicateFlag { name: String },
    DuplicateShortFlag { short: char },
    EmptyScript { name: String },
}

/// The mathematical shape of a [`ResolveError`].
pub ghost enum ResolveErrorV {
    CommandNotFound { name: Seq<char> },
    DuplicateArgument { name: Seq<char> },
    MultipleVarargs,
    VarargsNotLast,
    DuplicateFlag { name: Seq<char> },
    DuplicateShortFlag { short: char },
    EmptyScript { name: Seq<char> },
}

impl View for ResolveError {
    type V = ResolveErrorV;

    open spec fn view(&self) -> ResolveErrorV {
        match self {
            ResolveError::CommandNotFound { name } => ResolveErrorV::CommandNotFound {
                name: name@,
            },
            ResolveError::DuplicateArgument { name } => ResolveErrorV::DuplicateArgument {
                name: name@,
            },
            ResolveError::MultipleVarargs => ResolveErrorV::MultipleVarargs,
            ResolveError::VarargsNotLast => ResolveErrorV::VarargsNotLast,
            ResolveError::DuplicateFlag { name } => ResolveErrorV::DuplicateFlag { name: name@ },
            ResolveError::DuplicateShortFlag { short } => ResolveErrorV::DuplicateShortFlag {
                short: *short,
            },
            ResolveError::EmptyScript { name } => ResolveErrorV::EmptyScript { name: name@ },
        }
    }
}

impl ResolveError {
    pub open spec fn message_view(self) -> Seq<char> {
        match self@ {
            ResolveErrorV::CommandNotFound { name } => "Command '"@ + name + "' not found"@,
            ResolveErrorV::DuplicateArgument { name } => "Duplicate argument name: "@ + name,
            ResolveErrorV::MultipleVarargs => "Only one varargs argument (...args) is allowed"@,
            ResolveErrorV::VarargsNotLast =>
                "Varargs argument (...args) must be the last argument"@,
            ResolveErrorV::DuplicateFlag { name } => "Duplicate flag name: "@ + name,
            ResolveErrorV::DuplicateShortFlag { short } => "Duplicate short flag: -"@ + seq![
                short,
            ],
            ResolveErrorV::EmptyScript { name } => "Command '"@ + name + "' has no script body"@,
        }
    }

    /// A human-readable description of the failure, as the resolver
    /// reports it.
    pub fn message(&self) -> (r: String)
        ensures
            r@ == self.message_view(),
    {
        match self {
            ResolveError::CommandNotFound { name } => {
                let mut s = "Command '".to_owned();
                s.append(name.as_str());
                s.append("' not found");
                s
            },
            ResolveError::DuplicateArgument { name } => {
                let mut s = "Duplicate argument name: ".to_owned();
                s.append(name.as_str());
                s
            },
            ResolveError::MultipleVarargs => (
                "Only one varargs argument (...args) is allowed"
            ).to_owned(),
            ResolveError::VarargsNotLast => (
                "Varargs argument (...args) must be the last argument"
            ).to_owned(),
            ResolveError::DuplicateFlag { name } => {
                let mut s = "Duplicate flag name: ".to_owned();
                s.append(name.as_str());
                s
            },
            ResolveError::DuplicateShortFlag { short } => {
                let mut s = "Duplicate short flag: -".to_owned();
                s.push(*short);
                proof {
                    assert("Duplicate short flag: -"@.push(*short) =~= "Duplicate short flag: -"@
                        + seq![*short]);
                }
                s
            },
            ResolveError::EmptyScript { name } => {
                let mut s = "Command '".to_owned();
                s.append(name.as_str());
                s.append("' has no script body");
                s
            },
        }
    }
}

/// The first command, in document order, whose alias list holds the
/// target name.
pub open spec fn find_cmd(cmds: Seq<CommandV>, target: Seq<char>, i: int) -> Option<int>
    decreases cmds.len() - i,
{
    if i < 0 || i >= cmds.len() {
        None
    } else if cmds[i].names.contains(target) {
        Some(i)
    } else {
        find_cmd(cmds, target, i + 1)
    }
}

/// The first argument position whose name already occurred earlier.
pub open spec fn dup_arg_at(args: Seq<ArgumentV>, i: int) -> Option<int>
    decreases args.len() - i,
{
    if i < 0 || i >= args.len() {
        None
    } else if exists|j: int| 0 <= j < i && args[j].name == args[i].name {
        Some(i)
    } else {
        dup_arg_at(args, i + 1)
    }
}

/// How many arguments are variadic.
pub open spec fn varargs_count(args: Seq<ArgumentV>) -> int {
    args.filter(|a: ArgumentV| a.is_varargs).len() as int
}

/// The position of the last variadic argument, if any.
pub open spec fn last_varargs(args: Seq<ArgumentV>) -> Option<int>
    decreases args.len(),
{
    if args.len() == 0 {
        None
    } else if args.last().is_varargs {
        Some(args.len() - 1)
    } else {
        last_varargs(args.drop_last())
    }
}

/// The first duplicate among the flags' keys, scanning each flag's long
/// name and then its short form, every key joining one shared set.
pub open spec fn flag_keys_err(flags: Seq<FlagV>, i: int, seen: Set<Seq<char>>) -> Option<
    ResolveErrorV,
>
    decreases flags.len() - i,
{
    if i < 0 || i >= flags.len() {
        None
    } else {
        let f = flags[i];
        if seen.contains(f.long) {
            Some(ResolveErrorV::DuplicateFlag { name: f.long })
        } else {
            let seen1 = seen.insert(f.long);
            match f.short {
                Some(c) => if seen1.contains(seq![c]) {
                    Some(ResolveErrorV::DuplicateShortFlag { short: c })
                } else {
                    flag_keys_err(flags, i + 1, seen1.insert(seq![c]))
                },
                None => flag_keys_err(flags, i + 1, seen1),
            }
        }
    }
}

/// The command's first violated invariant, in the order the resolver
/// checks them, or `None` when the command is valid.
pub open spec fn spec_validate(c: CommandV) -> Option<ResolveErrorV> {
    match dup_arg_at(c.args, 0) {
        Some(i) => Some(ResolveErrorV::DuplicateArgument { name: c.args[i].name }),
        None => if varargs_count(c.args) > 1 {
            Some(ResolveErrorV::MultipleVarargs)
        } else {
            match last_varargs(c.args) {
                Some(p) => if p != c.args.len() - 1 {
                    Some(ResolveErrorV::VarargsNotLast)
                } else {
                    spec_validate_flags(c)
                },
                None => spec_validate_flags(c),
            }
        },
    }
}

pub open spec fn spec_validate_flags(c: CommandV) -> Option<ResolveErrorV> {
    match flag_keys_err(c.flags, 0, Set::empty()) {
        Some(e) => Some(e),
        None => if trim(c.script).len() == 0 {
            Some(
                ResolveErrorV::EmptyScript {
                    name: if c.names.len() > 0 {
                        c.names[0]
                    } else {
                        "unknown"@
                    },
                },
            )
        } else {
            None
        },
    }
}

/// What resolving a name against a document yields: the first matching
/// command if it is valid, else the first violated invariant, else
/// `CommandNotFound`.
pub open spec fn spec_resolve(rf: RunfileV, target: Seq<char>) -> Result<
    CommandV,
    ResolveErrorV,
> {
    match find_cmd(rf.commands, target, 0) {
        None => Err(ResolveErrorV::CommandNotFound { name: target }),
        Some(i) => match spec_validate(rf.commands[i]) {
            Some(e) => Err(e),
            None => Ok(rf.commands[i]),
        },
    }
}

proof fn lemma_varargs_push(s: Seq<ArgumentV>, x: ArgumentV)
    ensures
        varargs_count(s.push(x)) == varargs_count(s) + if x.is_varargs {
            1int
        } else {
            0int
        },
        last_varargs(s.push(x)) == if x.is_varargs {
            Some(s.len() as int)
        } else {
            last_varargs(s)
        },
{
    reveal(Seq::filter);
    assert(s.push(x).drop_last() =~= s);
    assert(s.push(x).last() == x);
}

pub struct ResolvePhase;

impl ResolvePhase {
    pub fn new() -> (r: Self) {
        ResolvePhase
    }

    /// Check the command's structural invariants, in order: unique
    /// argument names, at most one variadic and only in last position,
    /// unique flag keys, a non-empty script body.
    #[verifier::rlimit(100)]
    fn validate_command(&self, command: &Command) -> (r: Result<(), ResolveError>)
        ensures
            match r {
                Ok(_) => spec_validate(command@) == None::<ResolveErrorV>,
                Err(e) => spec_validate(command@) == Some(e@),
            },
    {
        let args = &command.args;
        let ghost av = args.deep_view();
        proof {
            assert(forall|j: int| 0 <= j < args@.len() ==> av[j] == args@[j]@);
        }
        let mut i: usize = 0;
        while i < args.len()
            invariant
                i <= args@.len(),
                av == args.deep_view(),
                av == command@.args,
                av.len() == args@.len(),
                forall|j: int| 0 <= j < args@.len() ==> av[j] == args@[j]@,
                dup_arg_at(av, 0) == dup_arg_at(av, i as int),
            decreases args@.len() - i,
        {
            let mut j: usize = 0;
            let mut dup = false;
            while j < i && !dup
                invariant
                    j <= i < args@.len(),
                    av == args.deep_view(),
                    av == command@.args,
                    av.len() == args@.len(),
                    forall|k: int| 0 <= k < args@.len() ==> av[k] == args@[k]@,
                    !dup ==> forall|k: int| 0 <= k < j ==> av[k].name != av[i as int].name,
                    dup ==> j < i && av[j as int].name == av[i as int].name,
                decreases i - j + (if dup {
                    0int
                } else {
                    1int
                }),
            {
                if args[j].name == args[i].name {
                    dup = true;
                } else {
                    j += 1;
                }
            }
            if dup {
                proof {
                    assert(exists|k: int|
                        0 <= k < i && av[k].name == av[i as int].name);
                    assert(dup_arg_at(av, i as int) == Some(i as int));
                }
                return Err(ResolveError::DuplicateArgument { name: args[i].name.clone() });
            }
            proof {
                assert(dup_arg_at(av, i as int) == dup_arg_at(av, i + 1));
            }
            i += 1;
        }
        let mut count: usize = 0;
        let mut pos: Option<usize> = None;
        let mut i2: usize = 0;
        while i2 < args.len()
            invariant
                i2 <= args@.len(),
                av == args.deep_view(),
                av.len() == args@.len(),
                forall|j: int| 0 <= j < args@.len() ==> av[j] == args@[j]@,
                count <= i2,
                count == varargs_count(av.take(i2 as int)),
                match pos {
                    Some(p) => last_varargs(av.take(i2 as int)) == Some(p as int),
                    None => last_varargs(av.take(i2 as int)) == None::<int>,
                },
            decreases args@.len() - i2,
        {
            proof {
                lemma_varargs_push(av.take(i2 as int), av[i2 as int]);
                assert(av.take(i2 + 1) =~= av.take(i2 as int).push(av[i2 as int]));
            }
            if args[i2].is_varargs {
                count += 1;
                pos = Some(i2);
            }
            i2 += 1;
        }
        proof {
            assert(av.take(args@.len() as int) =~= av);
        }
        if count > 1 {
            return Err(ResolveError::MultipleVarargs);
        }
        match pos {
            Some(p) => if p != args.len() - 1 {
                return Err(ResolveError::VarargsNotLast);
            },
            None => {},
        }
        let flags = &command.flags;
        let ghost fv = flags.deep_view();
        proof {
            assert(forall|j: int| 0 <= j < flags@.len() ==> fv[j] == flags@[j]@);
        }
        let mut seen: Vec<String> = Vec::new();
        let ghost mut sset = Set::<Seq<char>>::empty();
        proof {
            assert(seen.deep_view().len() == 0);
            assert(forall|x: Seq<char>| !seen.deep_view().contains(x));
        }
        let mut i3: usize = 0;
        while i3 < flags.len()
            invariant
                i3 <= flags@.len(),
                fv == flags.deep_view(),
                fv == command@.flags,
                fv.len() == flags@.len(),
                forall|j: int| 0 <= j < flags@.len() ==> fv[j] == flags@[j]@,
                forall|x: Seq<char>| sset.contains(x) <==> seen.deep_view().contains(x),
                flag_keys_err(fv, 0, Set::empty()) == flag_keys_err(fv, i3 as int, sset),
                spec_validate(command@) == spec_validate_flags(command@),
            decreases flags@.len() - i3,
        {
            let f = &flags[i3];
            if contains_name(&seen, &f.long) {
                proof {
                    assert(sset.contains(fv[i3 as int].long));
                }
                return Err(ResolveError::DuplicateFlag { name: f.long.clone() });
            }
            let ghost seen0 = seen.deep_view();
            seen.push(f.long.clone());
            proof {
                assert(seen.deep_view() =~~= seen0.push(fv[i3 as int].long));
                sset = sset.insert(fv[i3 as int].long);
                assert forall|x: Seq<char>|
                    sset.contains(x) <==> seen.deep_view().contains(x) by {
                    if x == fv[i3 as int].long {
                        assert(seen.deep_view()[seen0.len() as int] == x);
                    } else {
                        assert(seen.deep_view().contains(x) ==> seen0.contains(x)) by {
                            if seen.deep_view().contains(x) {
                                let w = choose|w: int|
                                    0 <= w < seen.deep_view().len() && seen.deep_view()[w] == x;
                                if w < seen0.len() {
                                    assert(seen0[w] == x);
                                }
                            }
                        };
                        assert(seen0.contains(x) ==> seen.deep_view().contains(x)) by {
                            if seen0.contains(x) {
                                let w = choose|w: int|
                                    0 <= w < seen0.len() && seen0[w] == x;
                                assert(seen.deep_view()[w] == x);
                            }
                        };
                    }
                }
            }
            match f.short {
                Some(c) => {
                    let mut cs = String::new();
                    cs.push(c);
                    proof {
                        assert(cs@ =~= seq![c]);
                    }
                    if contains_name(&seen, &cs) {
                        proof {
                            assert(sset.contains(seq![c]));
                        }
                        return Err(ResolveError::DuplicateShortFlag { short: c });
                    }
                    let ghost seen1 = seen.deep_view();
                    seen.push(cs);
                    proof {
                        assert(seen.deep_view() =~~= seen1.push(seq![c]));
                        sset = sset.insert(seq![c]);
                        assert forall|x: Seq<char>|
                            sset.contains(x) <==> seen.deep_view().contains(x) by {
                            if x == seq![c] {
                                assert(seen.deep_view()[seen1.len() as int] == x);
                            } else {
                                assert(seen.deep_view().contains(x) ==> seen1.contains(x)) by {
                                    if seen.deep_view().contains(x) {
                                        let w = choose|w: int|
                                            0 <= w < seen.deep_view().len()
                                                && seen.deep_view()[w] == x;
                                        if w < seen1.len() {
                                            assert(seen1[w] == x);
                                        }
                                    }
                                };
                                assert(seen1.contains(x) ==> seen.deep_view().contains(x)) by {
                                    if seen1.contains(x) {
                                        let w = choose|w: int|
                                            0 <= w < seen1.len() && seen1[w] == x;
                                        assert(seen.deep_view()[w] == x);
                                    }
                                };
                            }
                        }
                    }
                },
                None => {},
            }
            i3 += 1;
        }
        let sc = chars_of(command.script.as_str());
        let tv = trim_vec(&sc);
        if tv.len() == 0 {
            let nm = if command.names.len() > 0 {
                proof {
                    assert(command.names.deep_view()[0] == command.names@[0]@);
                }
                command.names[0].clone()
            } else {
                "unknown".to_owned()
            };
            return Err(ResolveError::EmptyScript { name: nm });
        }
        Ok(())
    }

    /// Locate the command whose alias list holds the target name — the
    /// first such command in document order — and validate it.
    pub fn resolve(&self, runfile: Runfile, target_command: &str) -> (r: Result<
        Command,
        ResolveError,
    >)
        ensures
            match r {
                Ok(c) => spec_resolve(runfile@, target_command@) == Ok::<
                    CommandV,
                    ResolveErrorV,
                >(c@),
                Err(e) => spec_resolve(runfile@, target_command@) == Err::<
                    CommandV,
                    ResolveErrorV,
                >(e@),
            },
    {
        let ts = target_command.to_owned();
        let mut commands = runfile.commands;
        let ghost cv = commands.deep_view();
        proof {
            assert(cv == runfile@.commands);
            assert(forall|j: int| 0 <= j < commands@.len() ==> cv[j] == commands@[j]@);
        }
        let mut i: usize = 0;
        let mut found = false;
        while i < commands.len() && !found
            invariant
                i <= commands@.len(),
                ts@ == target_command@,
                cv == commands.deep_view(),
                cv.len() == commands@.len(),
                forall|j: int| 0 <= j < commands@.len() ==> cv[j] == commands@[j]@,
                !found ==> find_cmd(cv, target_command@, 0) == find_cmd(
                    cv,
                    target_command@,
                    i as int,
                ),
                found ==> find_cmd(cv, target_command@, 0) == Some(i as int),
                found ==> i < commands@.len(),
            decreases commands@.len() - i + (if found {
                0int
            } else {
                1int
            }),
        {
            if contains_name(&commands[i].names, &ts) {
                proof {
                    assert(find_cmd(cv, target_command@, i as int) == Some(i as int));
                }
                found = true;
            } else {
                proof {
                    assert(find_cmd(cv, target_command@, i as int) == find_cmd(
                        cv,
                        target_command@,
                        i + 1,
                    ));
                }
                i += 1;
            }
        }
        if !found {
            proof {
                assert(find_cmd(cv, target_command@, i as int) == None::<int>);
            }
            return Err(ResolveError::CommandNotFound { name: ts });
        }
        let command = commands.remove(i);
        proof {
            assert(command@ == cv[i as int]);
        }
        match self.validate_command(&command) {
            Ok(_) => Ok(command),
            Err(e) => Err(e),
        }
    }
}

} // verus!
