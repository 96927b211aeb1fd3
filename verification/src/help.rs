//! Help rendering: the document formatted as aligned, optionally
//! coloured text.
//!
//! Ungrouped commands come first, then each group with its header and
//! its commands, a blank line after each group.  Descriptions align to
//! one column computed from the widest command or parameter display.
//! Widths are counted in characters.

use vstd::prelude::*;
use vstd::string::StrSliceExecFns;
use vstd::string::StringExecFns;
use crate::parse::{Argument, ArgumentV, Command, CommandV, Flag, FlagV, GroupV, Runfile,
    RunfileV};
use crate::text::join_with;
use crate::text::join_strings;

verus! {

/// The escape prefix for dim (256-colour foreground 8) text.
pub open spec fn sgr_dim() -> Seq<char> {
    seq!['\u{1b}', '[', '3', '8', ';', '5', ';', '8', 'm']
}

/// The escape prefix for bold white text.
pub open spec fn sgr_bold_white() -> Seq<char> {
    seq!['\u{1b}', '[', '1', ';', '3', '7', 'm']
}

/// The escape that resets all styles.
pub open spec fn sgr_reset() -> Seq<char> {
    seq!['\u{1b}', '[', '0', 'm']
}

/// Relies on `ansi_term::Colour::Fixed(8).paint`: the display form is
/// the 256-colour foreground escape for colour 8, the text, and the
/// reset code.
#[verifier::external_body]
fn paint_dim(s: &str) -> (r: String)
    ensures
        r@ == sgr_dim() + s@ + sgr_reset(),
{
    ansi_term::Colour::Fixed(8).paint(s).to_string()
}

/// Relies on `ansi_term::Colour::White.bold().paint`: the display form
/// is the bold-then-white escape, the text, and the reset code.
#[verifier::external_body]
fn paint_bold_white(s: &str) -> (r: String)
    ensures
        r@ == sgr_bold_white() + s@ + sgr_reset(),
{
    ansi_term::Colour::White.bold().paint(s).to_string()
}

pub open spec fn max2(a: int, b: int) -> int {
    if a >= b {
        a
    } else {
        b
    }
}

/// Clamp to what a `usize` holds, as the saturating operations do.
pub open spec fn sat(x: int) -> int {
    if x > usize::MAX as int {
        usize::MAX as int
    } else {
        x
    }
}

/// The group a command displays under: its group name, or `General`.
pub open spec fn group_of(c: CommandV) -> Seq<char> {
    match c.group {
        Some(g) => g,
        None => "General"@,
    }
}

/// How a command is listed: its aliases joined with commas.
pub open spec fn cmd_display(c: CommandV) -> Seq<char> {
    join_with(c.names, seq![',', ' '])
}

/// How an argument is listed: `...name` when variadic, `name?` when
/// optional, else the bare name.
pub open spec fn arg_display(a: ArgumentV) -> Seq<char> {
    if a.is_varargs {
        seq!['.', '.', '.'] + a.name
    } else if a.optional {
        a.name + seq!['?']
    } else {
        a.name
    }
}

/// How a flag is listed: `-c, --long` or `--long`.
pub open spec fn flag_display(f: FlagV) -> Seq<char> {
    (match f.short {
        Some(c) => seq!['-', c, ',', ' '],
        None => Seq::empty(),
    }) + seq!['-', '-'] + f.long
}

pub open spec fn max_cmd_len(cmds: Seq<CommandV>, i: int) -> int
    decreases cmds.len() - i,
{
    if i < 0 || i >= cmds.len() {
        0
    } else {
        max2(cmd_display(cmds[i]).len() as int, max_cmd_len(cmds, i + 1))
    }
}

pub open spec fn max_arg_len(args: Seq<ArgumentV>, i: int) -> int
    decreases args.len() - i,
{
    if i < 0 || i >= args.len() {
        0
    } else {
        max2(arg_display(args[i]).len() as int, max_arg_len(args, i + 1))
    }
}

pub open spec fn max_flag_len(flags: Seq<FlagV>, i: int) -> int
    decreases flags.len() - i,
{
    if i < 0 || i >= flags.len() {
        0
    } else {
        max2(flag_display(flags[i]).len() as int, max_flag_len(flags, i + 1))
    }
}

pub open spec fn max_param_len(cmds: Seq<CommandV>, i: int) -> int
    decreases cmds.len() - i,
{
    if i < 0 || i >= cmds.len() {
        0
    } else {
        max2(
            max2(max_arg_len(cmds[i].args, 0), max_flag_len(cmds[i].flags, 0)),
            max_param_len(cmds, i + 1),
        )
    }
}

/// The description column: the widest indented display, rounded up to
/// the next even width.
pub open spec fn align_of(rf: RunfileV) -> int {
    let mwi = max2(sat(2 + max_cmd_len(rf.commands, 0)), sat(4 + max_param_len(rf.commands, 0)));
    sat((sat(mwi + 1) / 2) * 2)
}

/// `n` spaces.
pub open spec fn spaces(n: int) -> Seq<char>
    decreases n,
{
    if n <= 0 {
        Seq::empty()
    } else {
        spaces(n - 1).push(' ')
    }
}

pub open spec fn desc_of(d: Option<Seq<char>>) -> Seq<char> {
    match d {
        Some(x) => x,
        None => Seq::empty(),
    }
}

/// A description suffix: ` # text`, dimmed when colours are on; empty
/// descriptions contribute nothing.
pub open spec fn fmt_desc(colors: bool, d: Seq<char>) -> Seq<char> {
    if d.len() == 0 {
        Seq::empty()
    } else if colors {
        sgr_dim() + (seq![' ', '#', ' '] + d) + sgr_reset()
    } else {
        seq![' ', '#', ' '] + d
    }
}

/// One listed line: the indent, the display, and — only when there is a
/// description — padding to the column and the description suffix.
pub open spec fn render_entry(
    indent: int,
    display: Seq<char>,
    d: Seq<char>,
    align: int,
    colors: bool,
) -> Seq<char> {
    if d.len() == 0 {
        spaces(indent) + display + seq!['\n']
    } else {
        spaces(indent) + display + spaces(max2(align - 1 - display.len(), 0)) + fmt_desc(
            colors,
            d,
        ) + seq!['\n']
    }
}

pub open spec fn render_args(
    args: Seq<ArgumentV>,
    i: int,
    indent: int,
    align: int,
    colors: bool,
) -> Seq<char>
    decreases args.len() - i,
{
    if i < 0 || i >= args.len() {
        Seq::empty()
    } else {
        render_entry(indent, arg_display(args[i]), desc_of(args[i].description), align, colors)
            + render_args(args, i + 1, indent, align, colors)
    }
}

pub open spec fn render_flags(
    flags: Seq<FlagV>,
    i: int,
    indent: int,
    align: int,
    colors: bool,
) -> Seq<char>
    decreases flags.len() - i,
{
    if i < 0 || i >= flags.len() {
        Seq::empty()
    } else {
        render_entry(indent, flag_display(flags[i]), desc_of(flags[i].description), align, colors)
            + render_flags(flags, i + 1, indent, align, colors)
    }
}

/// One command's block: its own line, then its arguments and flags,
/// indented two further spaces.
pub open spec fn render_command(c: CommandV, indent: int, align: int, colors: bool) -> Seq<
    char,
> {
    render_entry(indent, cmd_display(c), desc_of(c.description), align, colors) + render_args(
        c.args,
        0,
        indent + 2,
        align,
        colors,
    ) + render_flags(c.flags, 0, indent + 2, align, colors)
}

/// The commands of one group, in document order.
pub open spec fn render_members(
    cmds: Seq<CommandV>,
    i: int,
    g: Seq<char>,
    indent: int,
    align: int,
    colors: bool,
) -> Seq<char>
    decreases cmds.len() - i,
{
    if i < 0 || i >= cmds.len() {
        Seq::empty()
    } else {
        (if group_of(cmds[i]) == g {
            render_command(cmds[i], indent, align, colors)
        } else {
            Seq::empty()
        }) + render_members(cmds, i + 1, g, indent, align, colors)
    }
}

pub open spec fn has_member(cmds: Seq<CommandV>, g: Seq<char>) -> bool {
    exists|i: int| 0 <= i < cmds.len() && group_of(cmds[i]) == g
}

/// The group sections in declaration order: a header line, the group's
/// commands indented two spaces, and a closing blank line; groups with
/// no commands print nothing.
pub open spec fn render_groups(
    groups: Seq<GroupV>,
    cmds: Seq<CommandV>,
    i: int,
    align: int,
    colors: bool,
) -> Seq<char>
    decreases groups.len() - i,
{
    if i < 0 || i >= groups.len() {
        Seq::empty()
    } else {
        (if has_member(cmds, groups[i].name) {
            (if colors {
                sgr_bold_white() + groups[i].name + sgr_reset()
            } else {
                groups[i].name
            }) + seq!['\n'] + render_members(cmds, 0, groups[i].name, 2, align, colors)
                + seq!['\n']
        } else {
            Seq::empty()
        }) + render_groups(groups, cmds, i + 1, align, colors)
    }
}

/// The whole help text: a bare newline for an empty document, else the
/// ungrouped commands and then each group's section.
pub open spec fn spec_help(rf: RunfileV, colors: bool) -> Seq<char> {
    if rf.commands.len() == 0 {
        seq!['\n']
    } else {
        let align = align_of(rf);
        render_members(rf.commands, 0, "General"@, 0, align, colors) + render_groups(
            rf.groups,
            rf.commands,
            0,
            align,
            colors,
        )
    }
}

fn spaces_exec(n: usize) -> (r: String)
    ensures
        r@ == spaces(n as int),
{
    let mut r = String::new();
    let mut i: usize = 0;
    while i < n
        invariant
            i <= n,
            r@ == spaces(i as int),
        decreases n - i,
    {
        r.push(' ');
        i += 1;
    }
    r
}

fn cmd_display_exec(c: &Command) -> (r: String)
    ensures
        r@ == cmd_display(c@),
{
    let r = join_strings(&c.names, ", ");
    proof {
        reveal_strlit(", ");
        assert(", "@ =~= seq![',', ' ']);
    }
    r
}

fn arg_display_exec(a: &Argument) -> (r: String)
    ensures
        r@ == arg_display(a@),
{
    if a.is_varargs {
        let mut s = String::new();
        s.push('.');
        s.push('.');
        s.push('.');
        s.append(a.name.as_str());
        proof {
            assert(s@ =~= seq!['.', '.', '.'] + a.name@);
        }
        s
    } else if a.optional {
        let mut s = a.name.clone();
        s.push('?');
        proof {
            assert(s@ =~= a.name@ + seq!['?']);
        }
        s
    } else {
        a.name.clone()
    }
}

fn flag_display_exec(f: &Flag) -> (r: String)
    ensures
        r@ == flag_display(f@),
{
    let mut s = String::new();
    match f.short {
        Some(c) => {
            s.push('-');
            s.push(c);
            s.push(',');
            s.push(' ');
        },
        None => {},
    }
    s.push('-');
    s.push('-');
    s.append(f.long.as_str());
    proof {
        assert(s@ =~= flag_display(f@));
    }
    s
}

fn group_matches(c: &Command, g: &String) -> (r: bool)
    ensures
        r == (group_of(c@) == g@),
{
    match &c.group {
        Some(x) => *x == *g,
        None => {
            let general = "General".to_owned();
            general == *g
        },
    }
}

fn fmt_desc_exec(colors: bool, d: &String) -> (r: String)
    ensures
        r@ == fmt_desc(colors, d@),
{
    if d.as_str().is_empty() {
        String::new()
    } else {
        let mut t = String::new();
        t.push(' ');
        t.push('#');
        t.push(' ');
        t.append(d.as_str());
        proof {
            assert(t@ =~= seq![' ', '#', ' '] + d@);
        }
        if colors {
            paint_dim(t.as_str())
        } else {
            t
        }
    }
}

fn render_entry_exec(indent: usize, display: &String, d: &Option<String>, align: usize,
    colors: bool) -> (r: String)
    ensures
        r@ == render_entry(indent as int, display@, desc_of(d.deep_view()), align as int, colors),
{
    let dd: String = match d {
        Some(x) => x.clone(),
        None => String::new(),
    };
    let mut out = spaces_exec(indent);
    out.append(display.as_str());
    if !dd.as_str().is_empty() {
        let dl = display.as_str().unicode_len();
        let pad: usize = if align >= 1 && align - 1 >= dl {
            align - 1 - dl
        } else {
            0
        };
        proof {
            assert(pad as int == max2(align as int - 1 - display@.len(), 0));
        }
        let sp = spaces_exec(pad);
        out.append(sp.as_str());
        let fd = fmt_desc_exec(colors, &dd);
        out.append(fd.as_str());
    }
    out.push('\n');
    proof {
        assert(out@ =~= render_entry(
            indent as int,
            display@,
            desc_of(d.deep_view()),
            align as int,
            colors,
        ));
    }
    out
}

fn render_command_exec(c: &Command, indent: usize, align: usize, colors: bool) -> (r: String)
    requires
        indent + 2 <= usize::MAX,
    ensures
        r@ == render_command(c@, indent as int, align as int, colors),
{
    let disp = cmd_display_exec(c);
    let mut out = render_entry_exec(indent, &disp, &c.description, align, colors);
    let ghost head = out@;
    let inner = indent + 2;
    let ghost av = c.args.deep_view();
    let ghost fv = c.flags.deep_view();
    proof {
        assert(forall|j: int| 0 <= j < c.args@.len() ==> av[j] == c.args@[j]@);
        assert(forall|j: int| 0 <= j < c.flags@.len() ==> fv[j] == c.flags@[j]@);
    }
    let mut i: usize = 0;
    while i < c.args.len()
        invariant
            i <= c.args@.len(),
            av == c.args.deep_view(),
            av.len() == c.args@.len(),
            forall|j: int| 0 <= j < c.args@.len() ==> av[j] == c.args@[j]@,
            inner == indent + 2,
            out@ + render_args(av, i as int, inner as int, align as int, colors) =~= head
                + render_args(av, 0, inner as int, align as int, colors),
        decreases c.args@.len() - i,
    {
        let ad = arg_display_exec(&c.args[i]);
        let entry = render_entry_exec(inner, &ad, &c.args[i].description, align, colors);
        out.append(entry.as_str());
        i += 1;
    }
    proof {
        assert(render_args(av, c.args@.len() as int, inner as int, align as int, colors)
            =~= Seq::<char>::empty());
        assert(out@ =~= head + render_args(av, 0, inner as int, align as int, colors));
    }
    let ghost head2 = out@;
    let mut k: usize = 0;
    while k < c.flags.len()
        invariant
            k <= c.flags@.len(),
            fv == c.flags.deep_view(),
            fv.len() == c.flags@.len(),
            forall|j: int| 0 <= j < c.flags@.len() ==> fv[j] == c.flags@[j]@,
            inner == indent + 2,
            out@ + render_flags(fv, k as int, inner as int, align as int, colors) =~= head2
                + render_flags(fv, 0, inner as int, align as int, colors),
        decreases c.flags@.len() - k,
    {
        let fd = flag_display_exec(&c.flags[k]);
        let entry = render_entry_exec(inner, &fd, &c.flags[k].description, align, colors);
        out.append(entry.as_str());
        k += 1;
    }
    proof {
        assert(render_flags(fv, c.flags@.len() as int, inner as int, align as int, colors)
            =~= Seq::<char>::empty());
        assert(out@ =~= render_command(c@, indent as int, align as int, colors));
    }
    out
}

fn max_param_of_command(c: &Command) -> (r: usize)
    ensures
        r as int == max2(max_arg_len(c@.args, 0), max_flag_len(c@.flags, 0)),
{
    let ghost av = c.args.deep_view();
    let ghost fv = c.flags.deep_view();
    proof {
        assert(forall|j: int| 0 <= j < c.args@.len() ==> av[j] == c.args@[j]@);
        assert(forall|j: int| 0 <= j < c.flags@.len() ==> fv[j] == c.flags@[j]@);
    }
    let mut ma: usize = 0;
    let mut k: usize = 0;
    while k < c.args.len()
        invariant
            k <= c.args@.len(),
            av == c.args.deep_view(),
            av.len() == c.args@.len(),
            forall|j: int| 0 <= j < c.args@.len() ==> av[j] == c.args@[j]@,
            max2(ma as int, max_arg_len(av, k as int)) == max_arg_len(av, 0),
            ma as int <= max_arg_len(av, 0),
        decreases c.args@.len() - k,
    {
        let d = arg_display_exec(&c.args[k]);
        let l = d.as_str().unicode_len();
        if l > ma {
            ma = l;
        }
        k += 1;
    }
    let mut mf: usize = 0;
    let mut k2: usize = 0;
    while k2 < c.flags.len()
        invariant
            k2 <= c.flags@.len(),
            fv == c.flags.deep_view(),
            fv.len() == c.flags@.len(),
            forall|j: int| 0 <= j < c.flags@.len() ==> fv[j] == c.flags@[j]@,
            max2(mf as int, max_flag_len(fv, k2 as int)) == max_flag_len(fv, 0),
            mf as int <= max_flag_len(fv, 0),
        decreases c.flags@.len() - k2,
    {
        let d = flag_display_exec(&c.flags[k2]);
        let l = d.as_str().unicode_len();
        if l > mf {
            mf = l;
        }
        k2 += 1;
    }
    if ma >= mf {
        ma
    } else {
        mf
    }
}

fn any_member(cmds: &Vec<Command>, g: &String) -> (r: bool)
    ensures
        r == has_member(cmds.deep_view(), g@),
{
    let ghost cv = cmds.deep_view();
    proof {
        assert(forall|j: int| 0 <= j < cmds@.len() ==> cv[j] == cmds@[j]@);
    }
    let mut j: usize = 0;
    while j < cmds.len()
        invariant
            j <= cmds@.len(),
            cv == cmds.deep_view(),
            cv.len() == cmds@.len(),
            forall|k: int| 0 <= k < cmds@.len() ==> cv[k] == cmds@[k]@,
            forall|k: int| 0 <= k < j ==> group_of(cv[k]) != g@,
        decreases cmds@.len() - j,
    {
        if group_matches(&cmds[j], g) {
            proof {
                assert(group_of(cv[j as int]) == g@);
            }
            return true;
        }
        j += 1;
    }
    false
}

impl Runfile {
    /// Render the help text for this document, optionally coloured:
    /// exactly what [`spec_help`] describes.
    #[verifier::rlimit(100)]
    pub fn generate_help(&self, colors: bool) -> (r: String)
        ensures
            r@ == spec_help(self@, colors),
    {
        if self.commands.len() == 0 {
            let mut s = String::new();
            s.push('\n');
            proof {
                assert(s@ =~= seq!['\n']);
            }
            return s;
        }
        let ghost cv = self.commands.deep_view();
        let ghost gv = self.groups.deep_view();
        proof {
            assert(forall|j: int| 0 <= j < self.commands@.len() ==> cv[j]
                == self.commands@[j]@);
            assert(forall|j: int| 0 <= j < self.groups@.len() ==> gv[j] == self.groups@[j]@);
        }
        let mut maxc: usize = 0;
        let mut i: usize = 0;
        while i < self.commands.len()
            invariant
                i <= self.commands@.len(),
                cv == self.commands.deep_view(),
                cv.len() == self.commands@.len(),
                forall|j: int| 0 <= j < self.commands@.len() ==> cv[j] == self.commands@[j]@,
                max2(maxc as int, max_cmd_len(cv, i as int)) == max_cmd_len(cv, 0),
                maxc as int <= max_cmd_len(cv, 0),
            decreases self.commands@.len() - i,
        {
            let d = cmd_display_exec(&self.commands[i]);
            let l = d.as_str().unicode_len();
            if l > maxc {
                maxc = l;
            }
            i += 1;
        }
        proof {
            assert(maxc as int == max_cmd_len(cv, 0));
        }
        let mut maxp: usize = 0;
        let mut i2: usize = 0;
        while i2 < self.commands.len()
            invariant
                i2 <= self.commands@.len(),
                cv == self.commands.deep_view(),
                cv.len() == self.commands@.len(),
                forall|j: int| 0 <= j < self.commands@.len() ==> cv[j] == self.commands@[j]@,
                max2(maxp as int, max_param_len(cv, i2 as int)) == max_param_len(cv, 0),
                maxp as int <= max_param_len(cv, 0),
            decreases self.commands@.len() - i2,
        {
            let l = max_param_of_command(&self.commands[i2]);
            if l > maxp {
                maxp = l;
            }
            i2 += 1;
        }
        proof {
            assert(maxp as int == max_param_len(cv, 0));
        }
        let m1: usize = if maxc > usize::MAX - 2 {
            usize::MAX
        } else {
            2 + maxc
        };
        let m2: usize = if maxp > usize::MAX - 4 {
            usize::MAX
        } else {
            4 + maxp
        };
        let mwi: usize = if m1 >= m2 {
            m1
        } else {
            m2
        };
        let m3: usize = if mwi > usize::MAX - 1 {
            usize::MAX
        } else {
            mwi + 1
        };
        let h: usize = m3 / 2;
        let align: usize = if h > usize::MAX / 2 {
            usize::MAX
        } else {
            h * 2
        };
        proof {
            assert(m1 as int == sat(2 + max_cmd_len(cv, 0)));
            assert(m2 as int == sat(4 + max_param_len(cv, 0)));
            assert(m3 as int == sat(mwi as int + 1));
            assert(align as int == sat((m3 as int / 2) * 2));
            assert(align as int == align_of(self@));
        }
        let general = "General".to_owned();
        let mut out = String::new();
        let ghost target_general = render_members(cv, 0, "General"@, 0, align as int, colors);
        let mut k: usize = 0;
        while k < self.commands.len()
            invariant
                k <= self.commands@.len(),
                cv == self.commands.deep_view(),
                cv.len() == self.commands@.len(),
                forall|j: int| 0 <= j < self.commands@.len() ==> cv[j] == self.commands@[j]@,
                general@ == "General"@,
                target_general == render_members(cv, 0, "General"@, 0, align as int, colors),
                out@ + render_members(cv, k as int, "General"@, 0, align as int, colors)
                    =~= target_general,
            decreases self.commands@.len() - k,
        {
            if group_matches(&self.commands[k], &general) {
                let piece = render_command_exec(&self.commands[k], 0, align, colors);
                out.append(piece.as_str());
            }
            k += 1;
        }
        proof {
            assert(render_members(
                cv,
                self.commands@.len() as int,
                "General"@,
                0,
                align as int,
                colors,
            ) =~= Seq::<char>::empty());
            assert(out@ =~= target_general);
        }
        let ghost head = out@;
        let mut gi: usize = 0;
        while gi < self.groups.len()
            invariant
                gi <= self.groups@.len(),
                cv == self.commands.deep_view(),
                gv == self.groups.deep_view(),
                cv.len() == self.commands@.len(),
                gv.len() == self.groups@.len(),
                forall|j: int| 0 <= j < self.commands@.len() ==> cv[j] == self.commands@[j]@,
                forall|j: int| 0 <= j < self.groups@.len() ==> gv[j] == self.groups@[j]@,
                head == target_general,
                target_general == render_members(cv, 0, "General"@, 0, align as int, colors),
                out@ + render_groups(gv, cv, gi as int, align as int, colors) =~= head
                    + render_groups(gv, cv, 0, align as int, colors),
            decreases self.groups@.len() - gi,
        {
            let g = &self.groups[gi];
            if any_member(&self.commands, &g.name) {
                let header: String = if colors {
                    paint_bold_white(g.name.as_str())
                } else {
                    g.name.clone()
                };
                out.append(header.as_str());
                out.push('\n');
                let ghost mhead = out@;
                let ghost gname = gv[gi as int].name;
                let ghost target_members = render_members(cv, 0, gname, 2, align as int, colors);
                let mut k2: usize = 0;
                while k2 < self.commands.len()
                    invariant
                        k2 <= self.commands@.len(),
                        cv == self.commands.deep_view(),
                        cv.len() == self.commands@.len(),
                        forall|j: int| 0 <= j < self.commands@.len() ==> cv[j]
                            == self.commands@[j]@,
                        g.name@ == gname,
                        target_members == render_members(cv, 0, gname, 2, align as int, colors),
                        out@ + render_members(cv, k2 as int, gname, 2, align as int, colors)
                            =~= mhead + target_members,
                    decreases self.commands@.len() - k2,
                {
                    if group_matches(&self.commands[k2], &g.name) {
                        let piece = render_command_exec(&self.commands[k2], 2, align, colors);
                        out.append(piece.as_str());
                    }
                    k2 += 1;
                }
                proof {
                    assert(render_members(
                        cv,
                        self.commands@.len() as int,
                        gname,
                        2,
                        align as int,
                        colors,
                    ) =~= Seq::<char>::empty());
                }
                out.push('\n');
            }
            gi += 1;
            proof {
                assert(out@ + render_groups(gv, cv, gi as int, align as int, colors) =~= head
                    + render_groups(gv, cv, 0, align as int, colors));
            }
        }
        proof {
            assert(render_groups(gv, cv, self.groups@.len() as int, align as int, colors)
                =~= Seq::<char>::empty());
            assert(out@ =~= spec_help(self@, colors));
        }
        out
    }
}

} // verus!
