//! The parser: a token sequence folded into a document of groups and
//! commands.
//!
//! The parser keeps two pieces of running state: the current group name,
//! which each command attaches to until the next group header, and the
//! command under construction.  Declarations precede the script; once
//! script text begins, declaration-shaped lines are literal script text
//! and are rendered back verbatim.

use vstd::prelude::*;
use vstd::string::StringExecFns;
use crate::text::{starts_with, trim, trim_vec, starts_with_vec, string_of, chars_of, chars2,
    clone_strings, clone_opt_string};
use crate::tokenize::{InlineArgV, InlineFlagV, Token, TokenV};

verus! {

#[derive(Debug, Clone)]
pub struct Group {
    pub name: String,
}

#[derive(Debug, Clone)]
pub struct Argument {
    pub name: String,
    pub optional: bool,
    pub is_varargs: bool,
    pub description: Option<String>,
}

#[derive(Debug, Clone)]
pub struct Flag {
    pub short: Option<char>,
    pub long: String,
    pub takes_value: bool,
    pub type_hint: Option<String>,
    pub description: Option<String>,
}

#[derive(Debug, Clone)]
pub struct Command {
    pub names: Vec<String>,
    pub description: Option<String>,
    pub group: Option<String>,
    pub args: Vec<Argument>,
    pub flags: Vec<Flag>,
    pub script: String,
    pub shebang: String,
}

#[derive(Debug, Clone)]
pub struct Runfile {
    pub groups: Vec<Group>,
    pub commands: Vec<Command>,
}

pub ghost struct GroupV {
    pub name: Seq<char>,
}

pub ghost struct ArgumentV {
    pub name: Seq<char>,
    pub optional: bool,
    pub is_varargs: bool,
    pub description: Option<Seq<char>>,
}

pub ghost struct FlagV {
    pub short: Option<char>,
    pub long: Seq<char>,
    pub takes_value: bool,
    pub type_hint: Option<Seq<char>>,
    pub description: Option<Seq<char>>,
}

pub ghost struct CommandV {
    pub names: Seq<Seq<char>>,
    pub description: Option<Seq<char>>,
    pub group: Option<Seq<char>>,
    pub args: Seq<ArgumentV>,
    pub flags: Seq<FlagV>,
    pub script: Seq<char>,
    pub shebang: Seq<char>,
}

pub ghost struct RunfileV {
    pub groups: Seq<GroupV>,
    pub commands: Seq<CommandV>,
}

impl View for Group {
    type V = GroupV;

    open spec fn view(&self) -> GroupV {
        GroupV { name: self.name@ }
    }
}

impl DeepView for Group {
    type V = GroupV;

    open spec fn deep_view(&self) -> GroupV {
        self.view()
    }
}

impl View for Argument {
    type V = ArgumentV;

    open spec fn view(&self) -> ArgumentV {
        ArgumentV {
            name: self.name@,
            optional: self.optional,
            is_varargs: self.is_varargs,
            description: self.description.deep_view(),
        }
    }
}

impl DeepView for Argument {
    type V = ArgumentV;

    open spec fn deep_view(&self) -> ArgumentV {
        self.view()
    }
}

impl View for Flag {
    type V = FlagV;

    open spec fn view(&self) -> FlagV {
        FlagV {
            short: self.short,
            long: self.long@,
            takes_value: self.takes_value,
            type_hint: self.type_hint.deep_view(),
            description: self.description.deep_view(),
        }
    }
}

impl DeepView for Flag {
    type V = FlagV;

    open spec fn deep_view(&self) -> FlagV {
        self.view()
    }
}

impl View for Command {
    type V = CommandV;

    open spec fn view(&self) -> CommandV {
        CommandV {
            names: self.names.deep_view(),
            description: self.description.deep_view(),
            group: self.group.deep_view(),
            args: self.args.deep_view(),
            flags: self.flags.deep_view(),
            script: self.script@,
            shebang: self.shebang@,
        }
    }
}

impl DeepView for Command {
    type V = CommandV;

    open spec fn deep_view(&self) -> CommandV {
        self.view()
    }
}

impl View for Runfile {
    type V = RunfileV;

    open spec fn view(&self) -> RunfileV {
        RunfileV { groups: self.groups.deep_view(), commands: self.commands.deep_view() }
    }
}

impl DeepView for Runfile {
    type V = RunfileV;

    open spec fn deep_view(&self) -> RunfileV {
        self.view()
    }
}

/// An inline argument declaration as a parsed argument: no description.
pub open spec fn arg_of_inline(a: InlineArgV) -> ArgumentV {
    ArgumentV { name: a.0, optional: a.1, is_varargs: a.2, description: None }
}

/// An inline flag declaration as a parsed flag: no description.
pub open spec fn flag_of_inline(f: InlineFlagV) -> FlagV {
    FlagV { short: f.1, long: f.0, takes_value: f.2, type_hint: f.3, description: None }
}

/// A line appended to a script body: a newline between lines, none at
/// the edges.
pub open spec fn append_line(script: Seq<char>, line: Seq<char>) -> Seq<char> {
    if script.len() > 0 {
        script + seq!['\n'] + line
    } else {
        line
    }
}

/// How a flag-shaped line in script position is rendered back into the
/// script text.
pub open spec fn flag_render(short: Option<char>, long: Seq<char>) -> Seq<char> {
    seq![
        '-',
        match short {
            Some(c) => c,
            None => ' ',
        },
        ',',
        ' ',
        '-',
        '-',
    ] + long
}

/// The parser's running state.
pub ghost struct ParseStateV {
    pub groups: Seq<GroupV>,
    pub commands: Seq<CommandV>,
    pub current_group: Option<Seq<char>>,
    pub current: Option<CommandV>,
    pub in_script: bool,
}

pub open spec fn parse_init() -> ParseStateV {
    ParseStateV {
        groups: Seq::empty(),
        commands: Seq::empty(),
        current_group: None,
        current: None,
        in_script: false,
    }
}

/// One token folded into the parser state.
pub open spec fn parse_step(st: ParseStateV, tok: TokenV) -> ParseStateV {
    match tok {
        TokenV::GroupHeader { name } => ParseStateV {
            groups: st.groups.push(GroupV { name }),
            commands: match st.current {
                Some(c) => st.commands.push(c),
                None => st.commands,
            },
            current_group: Some(name),
            current: None,
            in_script: false,
        },
        TokenV::CommandName { name, inline_args, inline_flags, comment } => ParseStateV {
            groups: st.groups,
            commands: match st.current {
                Some(c) => st.commands.push(c),
                None => st.commands,
            },
            current_group: st.current_group,
            current: Some(
                CommandV {
                    names: name,
                    description: comment,
                    group: st.current_group,
                    args: inline_args.map_values(|a: InlineArgV| arg_of_inline(a)),
                    flags: inline_flags.map_values(|f: InlineFlagV| flag_of_inline(f)),
                    script: Seq::empty(),
                    shebang: "#!/bin/sh"@,
                },
            ),
            in_script: false,
        },
        TokenV::Argument { name, optional, is_varargs, comment } => match st.current {
            Some(c) => if !st.in_script {
                ParseStateV {
                    current: Some(
                        CommandV {
                            args: c.args.push(
                                ArgumentV { name, optional, is_varargs, description: comment },
                            ),
                            ..c
                        },
                    ),
                    ..st
                }
            } else {
                ParseStateV {
                    current: Some(CommandV { script: append_line(c.script, name), ..c }),
                    ..st
                }
            },
            None => st,
        },
        TokenV::Flag { long_name, short, takes_value, type_hint, comment } => match st.current {
            Some(c) => if !st.in_script {
                ParseStateV {
                    current: Some(
                        CommandV {
                            flags: c.flags.push(
                                FlagV {
                                    short,
                                    long: long_name,
                                    takes_value,
                                    type_hint,
                                    description: comment,
                                },
                            ),
                            ..c
                        },
                    ),
                    ..st
                }
            } else {
                ParseStateV {
                    current: Some(
                        CommandV {
                            script: append_line(c.script, flag_render(short, long_name)),
                            ..c
                        },
                    ),
                    ..st
                }
            },
            None => st,
        },
        TokenV::ScriptLine { content } => match st.current {
            Some(c) => {
                let shebang = if !st.in_script && starts_with(trim(content), seq!['#', '!']) {
                    trim(content)
                } else {
                    c.shebang
                };
                ParseStateV {
                    current: Some(
                        CommandV {
                            script: append_line(c.script, content),
                            shebang,
                            ..c
                        },
                    ),
                    in_script: true,
                    ..st
                }
            },
            None => st,
        },
        TokenV::Comment { content } => match st.current {
            Some(c) => ParseStateV {
                current: Some(CommandV { script: append_line(c.script, content), ..c }),
                in_script: true,
                ..st
            },
            None => st,
        },
    }
}

pub open spec fn parse_fold(st: ParseStateV, toks: Seq<TokenV>) -> ParseStateV
    decreases toks.len(),
{
    if toks.len() == 0 {
        st
    } else {
        parse_fold(parse_step(st, toks[0]), toks.drop_first())
    }
}

/// The groups whose names are non-empty, in order.
pub open spec fn nonempty_groups(gs: Seq<GroupV>) -> Seq<GroupV> {
    gs.filter(|g: GroupV| g.name.len() > 0)
}

/// The document a token sequence parses to: the fold of the tokens, the
/// last in-progress command finished, empty-named groups discarded.
pub open spec fn spec_parse(toks: Seq<TokenV>) -> RunfileV {
    let st = parse_fold(parse_init(), toks);
    RunfileV {
        groups: nonempty_groups(st.groups),
        commands: match st.current {
            Some(c) => st.commands.push(c),
            None => st.commands,
        },
    }
}

proof fn lemma_parse_fold_snoc(st: ParseStateV, s: Seq<TokenV>, x: TokenV)
    ensures
        parse_fold(st, s.push(x)) == parse_step(parse_fold(st, s), x),
    decreases s.len(),
{
    if s.len() == 0 {
        assert(s.push(x)[0] == x);
        assert(s.push(x).drop_first() =~= Seq::<TokenV>::empty());
        assert(parse_fold(st, s.push(x)) == parse_fold(parse_step(st, x), Seq::empty()));
        assert(parse_fold(parse_step(st, x), Seq::empty()) == parse_step(st, x));
        assert(parse_fold(st, s) == st);
    } else {
        let st1 = parse_step(st, s[0]);
        assert(s.push(x)[0] == s[0]);
        assert(s.push(x).drop_first() =~= s.drop_first().push(x));
        assert(parse_fold(st, s.push(x)) == parse_fold(st1, s.drop_first().push(x)));
        lemma_parse_fold_snoc(st1, s.drop_first(), x);
        assert(parse_fold(st, s) == parse_fold(st1, s.drop_first()));
    }
}

proof fn lemma_nonempty_groups_push(gs: Seq<GroupV>, g: GroupV)
    ensures
        nonempty_groups(gs.push(g)) == if g.name.len() > 0 {
            nonempty_groups(gs).push(g)
        } else {
            nonempty_groups(gs)
        },
{
    reveal(Seq::filter);
    assert(gs.push(g).drop_last() =~= gs);
    assert(gs.push(g).last() == g);
}


fn args_of_inline_vec(ia: &Vec<crate::tokenize::InlineArg>) -> (r: Vec<Argument>)
    ensures
        r.deep_view() == ia.deep_view().map_values(|a: InlineArgV| arg_of_inline(a)),
{
    let mut r: Vec<Argument> = Vec::new();
    let mut k: usize = 0;
    while k < ia.len()
        invariant
            k <= ia@.len(),
            r@.len() == k,
            forall|j: int| 0 <= j < k ==> r@[j]@ == arg_of_inline(ia@[j].deep_view()),
        decreases ia@.len() - k,
    {
        let a = &ia[k];
        let nm = a.0.clone();
        r.push(Argument { name: nm, optional: a.1, is_varargs: a.2, description: None });
        k += 1;
    }
    proof {
        let dv = ia.deep_view().map_values(|a: InlineArgV| arg_of_inline(a));
        assert forall|j: int| 0 <= j < ia@.len() implies r.deep_view()[j] == dv[j] by {
            assert(r.deep_view()[j] == r@[j]@);
            assert(dv[j] == arg_of_inline(ia@[j].deep_view()));
        }
        assert(r.deep_view() =~= dv);
    }
    r
}

fn flags_of_inline_vec(fl: &Vec<crate::tokenize::InlineFlag>) -> (r: Vec<Flag>)
    ensures
        r.deep_view() == fl.deep_view().map_values(|f: InlineFlagV| flag_of_inline(f)),
{
    let mut r: Vec<Flag> = Vec::new();
    let mut k: usize = 0;
    while k < fl.len()
        invariant
            k <= fl@.len(),
            r@.len() == k,
            forall|j: int| 0 <= j < k ==> r@[j]@ == flag_of_inline(fl@[j].deep_view()),
        decreases fl@.len() - k,
    {
        let f = &fl[k];
        let lg = f.0.clone();
        let th = clone_opt_string(&f.3);
        r.push(
            Flag { short: f.1, long: lg, takes_value: f.2, type_hint: th, description: None },
        );
        k += 1;
    }
    proof {
        let dv = fl.deep_view().map_values(|f: InlineFlagV| flag_of_inline(f));
        assert forall|j: int| 0 <= j < fl@.len() implies r.deep_view()[j] == dv[j] by {
            assert(r.deep_view()[j] == r@[j]@);
            assert(dv[j] == flag_of_inline(fl@[j].deep_view()));
        }
        assert(r.deep_view() =~= dv);
    }
    r
}

/// Append one line to a script body, separating lines by a newline.
fn push_script_line(script: &mut String, line: &str)
    ensures
        final(script)@ == append_line(old(script)@, line@),
{
    if !script.as_str().is_empty() {
        script.push('\n');
        proof {
            assert(old(script)@.push('\n') =~= old(script)@ + seq!['\n']);
        }
    }
    script.append(line);
}

fn render_flag_line(short: Option<char>, long: &str) -> (r: String)
    ensures
        r@ == flag_render(short, long@),
{
    let mut s = String::new();
    s.push('-');
    match short {
        Some(c) => s.push(c),
        None => s.push(' '),
    }
    s.push(',');
    s.push(' ');
    s.push('-');
    s.push('-');
    s.append(long);
    proof {
        assert(s@ =~= flag_render(short, long@));
    }
    s
}

pub struct ParsePhase;

impl ParsePhase {
    pub fn new() -> (r: Self) {
        ParsePhase
    }

    /// Fold the tokens into a document.  Parsing is total: the document
    /// is exactly what [`spec_parse`] describes.
    pub fn parse(&self, tokens: Vec<Token>) -> (r: Runfile)
        ensures
            r@ == spec_parse(tokens.deep_view()),
    {
        let ghost tv = tokens.deep_view();
        proof {
            assert(forall|j: int| 0 <= j < tokens@.len() ==> tv[j] == tokens@[j]@);
        }
        let mut groups: Vec<Group> = Vec::new();
        let mut commands: Vec<Command> = Vec::new();
        let mut current_group: Option<String> = None;
        let mut current: Option<Command> = None;
        let mut in_script = false;
        proof {
            assert(groups.deep_view() =~~= Seq::<GroupV>::empty());
            assert(commands.deep_view() =~~= Seq::<CommandV>::empty());
            assert(tv.take(0) =~= Seq::<TokenV>::empty());
        }
        let mut k: usize = 0;
        while k < tokens.len()
            invariant
                k <= tokens@.len(),
                tv == tokens.deep_view(),
                tv.len() == tokens@.len(),
                forall|j: int| 0 <= j < tokens@.len() ==> tv[j] == tokens@[j]@,
                parse_fold(parse_init(), tv.take(k as int)) == (ParseStateV {
                    groups: groups.deep_view(),
                    commands: commands.deep_view(),
                    current_group: current_group.deep_view(),
                    current: current.deep_view(),
                    in_script,
                }),
            decreases tokens@.len() - k,
        {
            let ghost st0 = ParseStateV {
                groups: groups.deep_view(),
                commands: commands.deep_view(),
                current_group: current_group.deep_view(),
                current: current.deep_view(),
                in_script,
            };
            proof {
                assert(tv.take(k + 1) =~= tv.take(k as int).push(tv[k as int]));
                lemma_parse_fold_snoc(parse_init(), tv.take(k as int), tv[k as int]);
            }
            match &tokens[k] {
                Token::GroupHeader { name } => {
                    match current {
                        Some(c) => {
                            let ghost c0 = commands.deep_view();
                            let ghost cv = c@;
                            commands.push(c);
                            proof {
                                assert(commands.deep_view() =~~= c0.push(cv));
                            }
                        },
                        None => {},
                    }
                    current = None;
                    current_group = Some(name.clone());
                    let ghost g0 = groups.deep_view();
                    groups.push(Group { name: name.clone() });
                    proof {
                        assert(groups.deep_view() =~~= g0.push(GroupV { name: name@ }));
                    }
                    in_script = false;
                },
                Token::CommandName { name, inline_args, inline_flags, comment } => {
                    match current {
                        Some(c) => {
                            let ghost c0 = commands.deep_view();
                            let ghost cv = c@;
                            commands.push(c);
                            proof {
                                assert(commands.deep_view() =~~= c0.push(cv));
                            }
                        },
                        None => {},
                    }
                    let args = args_of_inline_vec(inline_args);
                    let flags = flags_of_inline_vec(inline_flags);
                    current = Some(
                        Command {
                            names: clone_strings(name),
                            description: clone_opt_string(comment),
                            group: clone_opt_string(&current_group),
                            args,
                            flags,
                            script: String::new(),
                            shebang: String::from_str("#!/bin/sh"),
                        },
                    );
                    in_script = false;
                },
                Token::Argument { name, optional, is_varargs, comment } => {
                    current = match current {
                        Some(mut cmd) => {
                            if !in_script {
                                let ghost ad = cmd.args.deep_view();
                                cmd.args.push(
                                    Argument {
                                        name: name.clone(),
                                        optional: *optional,
                                        is_varargs: *is_varargs,
                                        description: clone_opt_string(comment),
                                    },
                                );
                                proof {
                                    assert(cmd.args.deep_view() =~~= ad.push(
                                        ArgumentV {
                                            name: name@,
                                            optional: *optional,
                                            is_varargs: *is_varargs,
                                            description: comment.deep_view(),
                                        },
                                    ));
                                }
                            } else {
                                push_script_line(&mut cmd.script, name.as_str());
                            }
                            Some(cmd)
                        },
                        None => None,
                    };
                },
                Token::Flag { long_name, short, takes_value, type_hint, comment } => {
                    current = match current {
                        Some(mut cmd) => {
                            if !in_script {
                                let ghost fd = cmd.flags.deep_view();
                                cmd.flags.push(
                                    Flag {
                                        short: *short,
                                        long: long_name.clone(),
                                        takes_value: *takes_value,
                                        type_hint: clone_opt_string(type_hint),
                                        description: clone_opt_string(comment),
                                    },
                                );
                                proof {
                                    assert(cmd.flags.deep_view() =~~= fd.push(
                                        FlagV {
                                            short: *short,
                                            long: long_name@,
                                            takes_value: *takes_value,
                                            type_hint: type_hint.deep_view(),
                                            description: comment.deep_view(),
                                        },
                                    ));
                                }
                            } else {
                                let rendered = render_flag_line(*short, long_name.as_str());
                                push_script_line(&mut cmd.script, rendered.as_str());
                            }
                            Some(cmd)
                        },
                        None => None,
                    };
                },
                Token::ScriptLine { content } => {
                    current = match current {
                        Some(mut cmd) => {
                            if !in_script {
                                let cv = chars_of(content.as_str());
                                let tl = trim_vec(&cv);
                                if starts_with_vec(&tl, &chars2('#', '!')) {
                                    cmd.shebang = string_of(&tl);
                                }
                                in_script = true;
                            }
                            push_script_line(&mut cmd.script, content.as_str());
                            Some(cmd)
                        },
                        None => None,
                    };
                },
                Token::Comment { content } => {
                    current = match current {
                        Some(mut cmd) => {
                            push_script_line(&mut cmd.script, content.as_str());
                            in_script = true;
                            Some(cmd)
                        },
                        None => None,
                    };
                },
            }
            proof {
                assert((ParseStateV {
                    groups: groups.deep_view(),
                    commands: commands.deep_view(),
                    current_group: current_group.deep_view(),
                    current: current.deep_view(),
                    in_script,
                }) == parse_step(st0, tv[k as int]));
            }
            k += 1;
        }
        proof {
            assert(tv.take(tokens@.len() as int) =~= tv);
        }
        match current {
            Some(c) => {
                let ghost c0 = commands.deep_view();
                let ghost cv = c@;
                commands.push(c);
                proof {
                    assert(commands.deep_view() =~~= c0.push(cv));
                }
            },
            None => {},
        }
        let mut kept: Vec<Group> = Vec::new();
        proof {
            assert(kept.deep_view() =~~= Seq::<GroupV>::empty());
            assert(groups.deep_view().take(0) =~= Seq::<GroupV>::empty());
            assert(nonempty_groups(Seq::<GroupV>::empty()) =~~= Seq::<GroupV>::empty()) by {
                reveal(Seq::filter);
            };
        }
        let ghost gdv = groups.deep_view();
        let mut k2: usize = 0;
        while k2 < groups.len()
            invariant
                k2 <= groups@.len(),
                gdv == groups.deep_view(),
                gdv.len() == groups@.len(),
                kept.deep_view() =~~= nonempty_groups(gdv.take(k2 as int)),
            decreases groups@.len() - k2,
        {
            let g = &groups[k2];
            proof {
                assert(gdv[k2 as int] == groups@[k2 as int]@);
                assert(gdv.take(k2 + 1) =~= gdv.take(k2 as int).push(gdv[k2 as int]));
                lemma_nonempty_groups_push(gdv.take(k2 as int), gdv[k2 as int]);
            }
            if !g.name.as_str().is_empty() {
                let ghost kd0 = kept.deep_view();
                kept.push(Group { name: g.name.clone() });
                proof {
                    assert(kept.deep_view() =~~= kd0.push(gdv[k2 as int]));
                }
            }
            k2 += 1;
        }
        proof {
            assert(gdv.take(groups@.len() as int) =~= gdv);
        }
        Runfile { groups: kept, commands }
    }
}

} // verus!
