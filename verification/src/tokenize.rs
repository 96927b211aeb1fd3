//! The lexer: raw runfile text to an ordered token sequence.
//!
//! The grammar has no delimiters: a physical line is a group-header part,
//! a command header, an indented declaration, a comment or script text,
//! decided by local shape and limited look-ahead and look-behind.  The
//! specification functions in this module define that classification over
//! character sequences; the executable lexer is proved to produce exactly
//! the token sequence the specification describes.

use vstd::prelude::*;
use crate::text::{
    contains_char, ends_with, find_sub, join_with, split_lines, split_on, split_ws,
    starts_with, trim,
    chars1, chars2, chars3, chars4, chars_of, contains_char_vec, ends_with_vec,
    find_sub_vec, join_chars, lemma_find_sub_bounds, split_lines_vec, split_on_vec,
    split_ws_vec, starts_with_vec, string_of, string_opt, subvec, trim_vec,
};

verus! {

/// An inline argument declaration: name, optional, variadic.
pub type InlineArg = (String, bool, bool);

/// An inline flag declaration: long name, short form, takes a value,
/// type hint.
pub type InlineFlag = (String, Option<char>, bool, Option<String>);

/// Specification view of [`InlineArg`].
pub type InlineArgV = (Seq<char>, bool, bool);

/// Specification view of [`InlineFlag`].
pub type InlineFlagV = (Seq<char>, Option<char>, bool, Option<Seq<char>>);

#[derive(Debug, Clone, PartialEq)]
pub enum Token {
    GroupHeader { name: String },
    CommandName {
        name: Vec<String>,
        inline_args: Vec<InlineArg>,
        inline_flags: Vec<InlineFlag>,
        comment: Option<String>,
    },
    Argument { name: String, optional: bool, is_varargs: bool, comment: Option<String> },
    Flag {
        long_name: String,
        short: Option<char>,
        takes_value: bool,
        type_hint: Option<String>,
        comment: Option<String>,
    },
    ScriptLine { content: String },
    Comment { content: String },
}

/// The mathematical shape of a [`Token`]: every text field a character
/// sequence.
pub ghost enum TokenV {
    GroupHeader { name: Seq<char> },
    CommandName {
        name: Seq<Seq<char>>,
        inline_args: Seq<InlineArgV>,
        inline_flags: Seq<InlineFlagV>,
        comment: Option<Seq<char>>,
    },
    Argument { name: Seq<char>, optional: bool, is_varargs: bool, comment: Option<Seq<char>> },
    Flag {
        long_name: Seq<char>,
        short: Option<char>,
        takes_value: bool,
        type_hint: Option<Seq<char>>,
        comment: Option<Seq<char>>,
    },
    ScriptLine { content: Seq<char> },
    Comment { content: Seq<char> },
}

impl View for Token {
    type V = TokenV;

    open spec fn view(&self) -> TokenV {
        match self {
            Token::GroupHeader { name } => TokenV::GroupHeader { name: name@ },
            Token::CommandName { name, inline_args, inline_flags, comment } => TokenV::CommandName {
                name: name.deep_view(),
                inline_args: inline_args.deep_view(),
                inline_flags: inline_flags.deep_view(),
                comment: comment.deep_view(),
            },
            Token::Argument { name, optional, is_varargs, comment } => TokenV::Argument {
                name: name@,
                optional: *optional,
                is_varargs: *is_varargs,
                comment: comment.deep_view(),
            },
            Token::Flag { long_name, short, takes_value, type_hint, comment } => TokenV::Flag {
                long_name: long_name@,
                short: *short,
                takes_value: *takes_value,
                type_hint: type_hint.deep_view(),
                comment: comment.deep_view(),
            },
            Token::ScriptLine { content } => TokenV::ScriptLine { content: content@ },
            Token::Comment { content } => TokenV::Comment { content: content@ },
        }
    }
}

impl DeepView for Token {
    type V = TokenV;

    open spec fn deep_view(&self) -> TokenV {
        self.view()
    }
}

/// A failure of the lexer.  Lexing fails only on a malformed command
/// header.
#[derive(Debug, Clone, Copy, PartialEq, Eq, Structural)]
pub enum LexError {
    /// A `#` comment stood on the same physical line as a command header.
    CommentOnHeaderLine,
    /// A command header reduced to an empty alias list.
    EmptyCommandName,
}

impl LexError {
    pub open spec fn message_view(self) -> Seq<char> {
        match self {
            LexError::CommentOnHeaderLine =>
                "Command comments must be on the line above the command, not on the same line"@,
            LexError::EmptyCommandName => "Command must have at least one name"@,
        }
    }

    /// A human-readable description of the failure.
    pub fn message(&self) -> (r: String)
        ensures
            r@ == self.message_view(),
    {
        match self {
            LexError::CommentOnHeaderLine => (
                "Command comments must be on the line above the command, not on the same line"
            ).to_owned(),
            LexError::EmptyCommandName => "Command must have at least one name".to_owned(),
        }
    }
}

/// A group-header separator: after trimming, `# ` followed by one or
/// more dashes and nothing else.
pub open spec fn is_sep_line(line: Seq<char>) -> bool {
    let t = trim(line);
    starts_with(t, seq!['#', ' ']) && t.len() > 2 && (forall|i: int|
        2 <= i < t.len() ==> t[i] == '-')
}

/// `p` occurs somewhere in `s`.
pub open spec fn contains_sub(s: Seq<char>, p: Seq<char>) -> bool {
    find_sub(s, p, 0) is Some
}

/// How far the alias run of a command header extends: the scan state is
/// the next word index and whether the previous word carried a comma.
pub open spec fn alias_scan(parts: Seq<Seq<char>>, i: int, prev_comma: bool) -> int
    decreases parts.len() - i,
{
    if i < 0 || i >= parts.len() {
        i
    } else {
        let p = parts[i];
        if starts_with(p, seq!['-']) || contains_char(p, '?') || contains_sub(
            p,
            seq!['.', '.', '.'],
        ) || contains_char(p, '=') {
            i
        } else if contains_char(p, ',') {
            alias_scan(parts, i + 1, true)
        } else if prev_comma {
            alias_scan(parts, i + 1, false)
        } else if i == 0 {
            alias_scan(parts, 1, false)
        } else {
            i
        }
    }
}

/// Whether a physical line has the shape of a command header: not
/// indented, not a comment, not an `echo` script line, and opening with
/// a non-empty alias run (or reducing to a bare `:`, which is still
/// classified as a header so that the empty-name error is reported).
pub open spec fn is_command_line(line: Seq<char>) -> bool {
    let t = trim(line);
    if starts_with(t, seq!['#']) || starts_with(t, seq!['e', 'c', 'h', 'o']) {
        false
    } else if starts_with(line, seq![' ', ' ']) {
        false
    } else {
        let cl = if ends_with(t, seq![':']) {
            trim(t.drop_last())
        } else {
            t
        };
        if cl.len() == 0 {
            true
        } else {
            let parts = split_ws(cl);
            if parts.len() == 0 {
                false
            } else {
                alias_scan(parts, 0, false) > 0
            }
        }
    }
}

/// What `parse_flag_name` yields for one flag word: the long name, whether
/// the flag takes a value, and the `<hint>` if one is given.
pub open spec fn spec_parse_flag_name(flag: Seq<char>) -> (Seq<char>, bool, Option<Seq<char>>) {
    let f = if starts_with(flag, seq!['-', '-']) {
        flag.skip(2)
    } else {
        flag
    };
    if contains_char(f, '=') && split_on(f, '=').len() == 2 {
        let name = split_on(f, '=')[0];
        let rest = split_on(f, '=')[1];
        let hint = if starts_with(rest, seq!['<']) && ends_with(rest.skip(1), seq!['>']) {
            Some(rest.subrange(1, rest.len() - 1))
        } else {
            None
        };
        (name, true, hint)
    } else {
        (f, false, None)
    }
}

/// Every element trimmed.
pub open spec fn trim_all(ss: Seq<Seq<char>>) -> Seq<Seq<char>> {
    ss.map_values(|s: Seq<char>| trim(s))
}

/// The non-empty elements, in order.
pub open spec fn keep_nonempty(ss: Seq<Seq<char>>) -> Seq<Seq<char>> {
    ss.filter(|s: Seq<char>| s.len() > 0)
}

proof fn lemma_keep_nonempty_push(ss: Seq<Seq<char>>, x: Seq<char>)
    ensures
        keep_nonempty(ss.push(x)) == if x.len() > 0 {
            keep_nonempty(ss).push(x)
        } else {
            keep_nonempty(ss)
        },
{
    reveal(Seq::filter);
    assert(ss.push(x).drop_last() =~= ss);
    assert(ss.push(x).last() == x);
}

/// The aliases one comma-carrying header word contributes: its comma
/// segments, trimmed, the empty ones dropped.
pub open spec fn comma_aliases(p: Seq<char>) -> Seq<Seq<char>> {
    keep_nonempty(trim_all(split_on(p, ',')))
}

/// The alias run of a command header, collected: the scan returns the
/// aliases gathered so far and the index of the first non-alias word.
pub open spec fn alias_collect(
    parts: Seq<Seq<char>>,
    i: int,
    prev_comma: bool,
    acc: Seq<Seq<char>>,
) -> (Seq<Seq<char>>, int)
    decreases parts.len() - i,
{
    if i < 0 || i >= parts.len() {
        (acc, i)
    } else {
        let p = parts[i];
        if starts_with(p, seq!['-']) || contains_char(p, '?') || contains_sub(
            p,
            seq!['.', '.', '.'],
        ) || contains_char(p, '=') {
            (acc, i)
        } else if contains_char(p, ',') {
            alias_collect(parts, i + 1, true, acc + comma_aliases(p))
        } else if prev_comma {
            alias_collect(parts, i + 1, false, acc.push(p))
        } else if acc.len() == 0 {
            alias_collect(parts, i + 1, false, acc.push(p))
        } else {
            (acc, i)
        }
    }
}

/// A command header line split into its alias list and the words of its
/// inline parameter run; an empty alias list is the lexer's one
/// malformed-header failure.
pub open spec fn spec_parse_command_line(cl: Seq<char>) -> Result<
    (Seq<Seq<char>>, Seq<Seq<char>>),
    LexError,
> {
    let parts = split_ws(cl);
    let (aliases, stop) = alias_collect(parts, 0, false, Seq::empty());
    if aliases.len() == 0 {
        Err(LexError::EmptyCommandName)
    } else {
        Ok((aliases, parts.skip(stop)))
    }
}

/// The inline parameter run classified into argument and flag
/// declarations, mirroring the indented-line shapes.
pub open spec fn spec_args_flags(
    parts: Seq<Seq<char>>,
    i: int,
    args: Seq<InlineArgV>,
    flags: Seq<InlineFlagV>,
) -> (Seq<InlineArgV>, Seq<InlineFlagV>)
    decreases parts.len() - i,
{
    if i < 0 || i >= parts.len() {
        (args, flags)
    } else {
        let p = parts[i];
        if starts_with(p, seq!['.', '.', '.']) || ends_with(p, seq!['.', '.', '.']) {
            let nm = if starts_with(p, seq!['.', '.', '.']) {
                p.skip(3)
            } else {
                p.take(p.len() - 3)
            };
            spec_args_flags(parts, i + 1, args.push((nm, true, true)), flags)
        } else if starts_with(p, seq!['-']) {
            if ends_with(p, seq![',']) && i + 1 < parts.len() {
                let sp = p.drop_last();
                let short = if starts_with(sp, seq!['-']) && sp.len() >= 2 {
                    Some(sp[1])
                } else {
                    None
                };
                let (ln, tv, th) = spec_parse_flag_name(parts[i + 1]);
                spec_args_flags(parts, i + 2, args, flags.push((ln, short, tv, th)))
            } else if starts_with(p, seq!['-', '-']) {
                let (ln, tv, th) = spec_parse_flag_name(p);
                spec_args_flags(parts, i + 1, args, flags.push((ln, None, tv, th)))
            } else if p.len() == 2 {
                spec_args_flags(
                    parts,
                    i + 1,
                    args,
                    flags.push((seq![p[1]], Some(p[1]), false, None)),
                )
            } else {
                spec_args_flags(parts, i + 1, args, flags)
            }
        } else {
            let (nm, opt) = if ends_with(p, seq!['?']) {
                (p.drop_last(), true)
            } else {
                (p, false)
            };
            spec_args_flags(parts, i + 1, args.push((nm, opt, false)), flags)
        }
    }
}

/// An indented declaration line (two spaces, not three or more): a flag,
/// an argument, or a shebang script line; `None` when the line does not
/// match a declaration shape and falls back to plain classification.
pub open spec fn spec_indented_decl(line: Seq<char>) -> Option<TokenV> {
    let t = trim(line);
    if !(starts_with(line, seq![' ', ' ']) && !starts_with(line, seq![' ', ' ', ' ']) && (
    !starts_with(t, seq!['#']) || starts_with(t, seq!['#', '!', '/']))) {
        None
    } else {
        let found = find_sub(t, seq![' ', '#', ' '], 0);
        let content_part = match found {
            Some(ix) => trim(t.take(ix)),
            None => t,
        };
        let comment = match found {
            Some(ix) => {
                let at = trim(t.skip(ix));
                Some(
                    if starts_with(at, seq!['#']) {
                        trim(at.skip(1))
                    } else {
                        trim(at)
                    },
                )
            },
            None => None,
        };
        if starts_with(content_part, seq!['#', '!', '/']) {
            Some(TokenV::ScriptLine { content: line })
        } else if starts_with(content_part, seq!['-']) {
            let segs = trim_all(split_on(content_part, ','));
            if segs.len() == 2 {
                let s0 = segs[0];
                let short = if starts_with(s0, seq!['-']) && s0.len() >= 2 {
                    Some(s0[1])
                } else {
                    None
                };
                let long_part = segs[1];
                let clean = if ends_with(long_part, seq![':']) {
                    long_part.drop_last()
                } else {
                    long_part
                };
                let (ln, tv, th) = spec_parse_flag_name(clean);
                Some(
                    TokenV::Flag {
                        long_name: ln,
                        short,
                        takes_value: tv,
                        type_hint: th,
                        comment,
                    },
                )
            } else if starts_with(content_part, seq!['-', '-']) {
                let clean = if ends_with(content_part, seq![':']) {
                    content_part.drop_last()
                } else {
                    content_part
                };
                let (ln, tv, th) = spec_parse_flag_name(clean);
                Some(
                    TokenV::Flag {
                        long_name: ln,
                        short: None,
                        takes_value: tv,
                        type_hint: th,
                        comment,
                    },
                )
            } else if content_part.len() == 2 {
                Some(
                    TokenV::Flag {
                        long_name: seq![content_part[1]],
                        short: Some(content_part[1]),
                        takes_value: false,
                        type_hint: None,
                        comment,
                    },
                )
            } else {
                None
            }
        } else if !contains_char(content_part, ' ') && content_part.len() > 0 {
            let clean = if ends_with(content_part, seq![':']) {
                content_part.drop_last()
            } else {
                content_part
            };
            let (nm, opt, vr) = if starts_with(clean, seq!['.', '.', '.']) {
                (clean.skip(3), true, true)
            } else if ends_with(clean, seq!['.', '.', '.']) {
                (clean.take(clean.len() - 3), true, true)
            } else if ends_with(clean, seq!['?']) {
                (clean.drop_last(), true, false)
            } else {
                (clean, false, false)
            };
            Some(TokenV::Argument { name: nm, optional: opt, is_varargs: vr, comment })
        } else {
            None
        }
    }
}

/// The classification of a line that is neither a header nor an indented
/// declaration: shebangs and plain text are script lines, `#` lines are
/// comments.
pub open spec fn spec_plain_line(line: Seq<char>) -> TokenV {
    let t = trim(line);
    if starts_with(t, seq!['#']) {
        if starts_with(t, seq!['#', '!', '/']) {
            TokenV::ScriptLine { content: line }
        } else {
            TokenV::Comment { content: t }
        }
    } else {
        TokenV::ScriptLine { content: line }
    }
}

/// One line classified into at most one token, with the look-behind
/// description attached to a command header.  A `#` comment on the
/// header line itself is the other malformed-header failure.
pub open spec fn spec_classify(line: Seq<char>, comment: Option<Seq<char>>) -> Result<
    Option<TokenV>,
    LexError,
> {
    let t = trim(line);
    if t.len() == 0 {
        Ok(None)
    } else if is_command_line(line) {
        if contains_sub(t, seq![' ', '#', ' ']) {
            Err(LexError::CommentOnHeaderLine)
        } else {
            let cl = if ends_with(t, seq![':']) {
                trim(t.drop_last())
            } else {
                t
            };
            match spec_parse_command_line(cl) {
                Err(e) => Err(e),
                Ok((aliases, rest)) => {
                    let (ia, fl) = spec_args_flags(rest, 0, Seq::empty(), Seq::empty());
                    Ok(
                        Some(
                            TokenV::CommandName {
                                name: aliases,
                                inline_args: ia,
                                inline_flags: fl,
                                comment,
                            },
                        ),
                    )
                },
            }
        }
    } else {
        match spec_indented_decl(line) {
            Some(tk) => Ok(Some(tk)),
            None => Ok(Some(spec_plain_line(line))),
        }
    }
}

/// The contiguous comment lines above a command header, top to bottom,
/// group-header lines excluded: the text each contributes to the
/// header's description.
pub open spec fn lookbehind(lines: Seq<Seq<char>>, j: int) -> Seq<Seq<char>>
    decreases j + 1,
{
    if j < 0 || j >= lines.len() {
        Seq::empty()
    } else if !starts_with(trim(lines[j]), seq!['#']) {
        Seq::empty()
    } else {
        let rest = lookbehind(lines, j - 1);
        if is_sep_line(lines[j]) {
            rest
        } else if 0 < j && j + 1 < lines.len() && is_sep_line(lines[j - 1]) && is_sep_line(
            lines[j + 1],
        ) {
            rest
        } else {
            rest.push(trim(trim(lines[j]).skip(1)))
        }
    }
}

/// Whether a command header follows at or after line `j`, looking past
/// blank lines and plain comment lines.
pub open spec fn upcoming_command(lines: Seq<Seq<char>>, j: int) -> bool
    decreases lines.len() - j,
{
    if j < 0 || j >= lines.len() {
        false
    } else {
        let nt = trim(lines[j]);
        if nt.len() == 0 {
            upcoming_command(lines, j + 1)
        } else if starts_with(nt, seq!['#']) && !is_sep_line(lines[j]) {
            upcoming_command(lines, j + 1)
        } else {
            is_command_line(nt)
        }
    }
}

/// The description a command header at line `i` receives from the
/// comment lines above it, or `None` when there are none.
pub open spec fn lookbehind_comment(lines: Seq<Seq<char>>, i: int) -> Option<Seq<char>> {
    let cs = lookbehind(lines, i - 1);
    if cs.len() == 0 {
        None
    } else {
        Some(join_with(cs, seq![' ']))
    }
}

/// The token sequence the lines from `i` on produce, or the first
/// failure.
pub open spec fn spec_lex_from(lines: Seq<Seq<char>>, i: int) -> Result<Seq<TokenV>, LexError>
    decreases lines.len() - i,
{
    if i < 0 || i >= lines.len() {
        Ok(Seq::empty())
    } else if is_sep_line(lines[i]) && i + 2 < lines.len() && starts_with(
        trim(lines[i + 1]),
        seq!['#', ' '],
    ) && is_sep_line(lines[i + 2]) {
        let name = trim(trim(lines[i + 1]).skip(2));
        match spec_lex_from(lines, i + 3) {
            Ok(ts) => Ok(seq![TokenV::GroupHeader { name }] + ts),
            Err(e) => Err(e),
        }
    } else if is_command_line(lines[i]) {
        match spec_classify(lines[i], lookbehind_comment(lines, i)) {
            Err(e) => Err(e),
            Ok(opt) => match spec_lex_from(lines, i + 1) {
                Ok(ts) => Ok(
                    match opt {
                        Some(tk) => seq![tk] + ts,
                        None => ts,
                    },
                ),
                Err(e) => Err(e),
            },
        }
    } else if starts_with(trim(lines[i]), seq!['#']) && !is_sep_line(lines[i]) && !starts_with(
        trim(lines[i]),
        seq!['#', '!', '/'],
    ) && upcoming_command(lines, i + 1) {
        spec_lex_from(lines, i + 1)
    } else {
        match spec_classify(lines[i], None) {
            Err(e) => Err(e),
            Ok(opt) => match spec_lex_from(lines, i + 1) {
                Ok(ts) => Ok(
                    match opt {
                        Some(tk) => seq![tk] + ts,
                        None => ts,
                    },
                ),
                Err(e) => Err(e),
            },
        }
    }
}

/// The whole lexing pass: the text split into lines, each classified in
/// order.
pub open spec fn spec_tokenize(text: Seq<char>) -> Result<Seq<TokenV>, LexError> {
    spec_lex_from(split_lines(text), 0)
}

#[derive(Default)]
pub struct TokenizePhase;

impl TokenizePhase {
    pub fn new() -> (r: Self) {
        TokenizePhase
    }

    fn collect_lookbehind(&self, lines: &Vec<Vec<char>>, i: usize) -> (r: Option<String>)
        requires
            i <= lines@.len(),
        ensures
            r.deep_view() == lookbehind_comment(lines.deep_view(), i as int),
    {
        let ghost lv = lines.deep_view();
        proof {
            assert(forall|k: int| 0 <= k < lines@.len() ==> lv[k] =~= lines@[k]@);
        }
        let n = lines.len();
        let mut cl_texts: Vec<Vec<char>> = Vec::new();
        proof {
            assert(cl_texts.deep_view() =~~= Seq::<Seq<char>>::empty());
            assert(lookbehind(lv, i - 1) =~~= lookbehind(lv, i - 1) + cl_texts.deep_view());
        }
        let mut j = i;
        let mut broke = false;
        while j > 0 && !broke
            invariant
                j <= i <= n,
                n == lines@.len(),
                lv == lines.deep_view(),
                lv.len() == n,
                forall|k: int| 0 <= k < n ==> lv[k] == lines@[k]@,
                !broke ==> lookbehind(lv, i - 1) =~~= lookbehind(lv, j - 1)
                    + cl_texts.deep_view(),
                broke ==> lookbehind(lv, i - 1) =~~= cl_texts.deep_view(),
            decreases j + (if broke { 0int } else { 1int }),
        {
            let jj = j - 1;
            let pl = trim_vec(&lines[jj]);
            if starts_with_vec(&pl, &chars1('#')) {
                if !self.is_separator_line(&lines[jj]) {
                    let is_group_name = jj > 0 && jj + 1 < n && self.is_separator_line(
                        &lines[jj - 1],
                    ) && self.is_separator_line(&lines[jj + 1]);
                    if !is_group_name {
                        let u = subvec(&pl, 1, pl.len());
                        proof {
                            assert(u@ =~= trim(lv[jj as int]).skip(1));
                        }
                        let txt = trim_vec(&u);
                        let ghost c0 = cl_texts.deep_view();
                        cl_texts.insert(0, txt);
                        proof {
                            assert(cl_texts.deep_view() =~~= seq![
                                trim(trim(lv[jj as int]).skip(1)),
                            ] + c0);
                            assert(lookbehind(lv, jj as int) =~~= lookbehind(lv, jj - 1).push(
                                trim(trim(lv[jj as int]).skip(1)),
                            ));
                            assert(lookbehind(lv, jj - 1).push(trim(trim(lv[jj as int]).skip(1)))
                                + c0 =~~= lookbehind(lv, jj - 1) + (seq![
                                trim(trim(lv[jj as int]).skip(1)),
                            ] + c0));
                        }
                    }
                }
                j = jj;
            } else {
                proof {
                    assert(lookbehind(lv, jj as int) =~~= Seq::<Seq<char>>::empty());
                }
                broke = true;
            }
        }
        proof {
            if !broke {
                assert(j == 0);
                assert(lookbehind(lv, -1) =~~= Seq::<Seq<char>>::empty());
                assert(lookbehind(lv, i - 1) =~~= cl_texts.deep_view());
            }
        }
        if cl_texts.len() == 0 {
            None
        } else {
            let joined = join_chars(&cl_texts, &chars1(' '));
            Some(string_of(&joined))
        }
    }

    fn has_upcoming_command(&self, lines: &Vec<Vec<char>>, j0: usize) -> (r: bool)
        ensures
            r == upcoming_command(lines.deep_view(), j0 as int),
    {
        let ghost lv = lines.deep_view();
        proof {
            assert(forall|k: int| 0 <= k < lines@.len() ==> lv[k] =~= lines@[k]@);
        }
        let n = lines.len();
        let mut j = j0;
        let mut found = false;
        let mut done = false;
        while j < n && !done
            invariant
                j0 <= j <= n || (j0 > n && j == j0),
                n == lines@.len(),
                lv == lines.deep_view(),
                lv.len() == n,
                forall|k: int| 0 <= k < n ==> lv[k] == lines@[k]@,
                !done ==> upcoming_command(lv, j0 as int) == upcoming_command(lv, j as int),
                done ==> found == upcoming_command(lv, j0 as int),
                !done ==> !found,
            decreases n - j + (if done { 0int } else { 1int }),
        {
            let nl = trim_vec(&lines[j]);
            if nl.len() == 0 {
                j += 1;
            } else if starts_with_vec(&nl, &chars1('#')) && !self.is_separator_line(&lines[j]) {
                j += 1;
            } else {
                found = self.is_command_line(&nl);
                done = true;
            }
        }
        proof {
            if !done {
                assert(j >= n);
                assert(!upcoming_command(lv, j as int));
            }
        }
        found
    }

    /// Lex the whole text: every line classified in document order, the
    /// token sequence exactly as [`spec_tokenize`] describes, or the
    /// first malformed-header failure.
    #[verifier::rlimit(100)]
    pub fn tokenize(&self, content: &str) -> (r: Result<Vec<Token>, LexError>)
        ensures
            match r {
                Ok(ts) => spec_tokenize(content@) == Ok::<Seq<TokenV>, LexError>(ts.deep_view()),
                Err(e) => spec_tokenize(content@) == Err::<Seq<TokenV>, LexError>(e),
            },
    {
        let cs = chars_of(content);
        let lines = split_lines_vec(&cs);
        let ghost lv = lines.deep_view();
        proof {
            assert(lv == split_lines(content@));
            assert(forall|j: int| 0 <= j < lines@.len() ==> lv[j] =~= lines@[j]@);
        }
        let n = lines.len();
        let mut tokens: Vec<Token> = Vec::new();
        proof {
            assert(tokens.deep_view() =~~= Seq::<TokenV>::empty());
        }
        let mut i: usize = 0;
        while i < n
            invariant
                n == lines@.len(),
                lv == lines.deep_view(),
                lv == split_lines(content@),
                lv.len() == n,
                forall|j: int| 0 <= j < n ==> lv[j] == lines@[j]@,
                i <= n,
                spec_lex_from(lv, 0) == match spec_lex_from(lv, i as int) {
                    Ok(rest) => Ok::<Seq<TokenV>, LexError>(tokens.deep_view() + rest),
                    Err(e) => Err::<Seq<TokenV>, LexError>(e),
                },
            decreases n - i,
        {
            if self.is_separator_line(&lines[i]) && n - i > 2 {
                let nl = trim_vec(&lines[i + 1]);
                if starts_with_vec(&nl, &chars2('#', ' ')) && self.is_separator_line(
                    &lines[i + 2],
                ) {
                    let sub = subvec(&nl, 2, nl.len());
                    proof {
                        assert(sub@ =~= trim(lv[i as int + 1]).skip(2));
                    }
                    let namev = trim_vec(&sub);
                    let ghost gh = TokenV::GroupHeader {
                        name: trim(trim(lv[i as int + 1]).skip(2)),
                    };
                    let ghost t0 = tokens.deep_view();
                    tokens.push(Token::GroupHeader { name: string_of(&namev) });
                    proof {
                        assert(tokens.deep_view() =~~= t0.push(gh));
                        match spec_lex_from(lv, i as int + 3) {
                            Ok(ts) => {
                                assert(spec_lex_from(lv, i as int) == Ok::<
                                    Seq<TokenV>,
                                    LexError,
                                >(seq![gh] + ts));
                                assert(t0.push(gh) + ts =~~= t0 + (seq![gh] + ts));
                            },
                            Err(e) => {
                                assert(spec_lex_from(lv, i as int) == Err::<
                                    Seq<TokenV>,
                                    LexError,
                                >(e));
                            },
                        }
                    }
                    i += 3;
                    continue;
                }
            }
            if self.is_command_line(&lines[i]) {
                let comment = self.collect_lookbehind(&lines, i);
                match self.parse_line_with_comment(&lines[i], comment) {
                    Err(e) => {
                        proof {
                            assert(spec_lex_from(lv, i as int) == Err::<Seq<TokenV>, LexError>(e));
                        }
                        return Err(e);
                    },
                    Ok(opt) => {
                        let ghost t0 = tokens.deep_view();
                        let ghost ov = opt.deep_view();
                        match opt {
                            Some(tok) => {
                                let ghost tkv = tok@;
                                tokens.push(tok);
                                proof {
                                    assert(tokens.deep_view() =~~= t0.push(tkv));
                                }
                            },
                            None => {},
                        }
                        proof {
                            match spec_lex_from(lv, i as int + 1) {
                                Ok(ts) => {
                                    match ov {
                                        Some(tkv) => {
                                            assert(spec_lex_from(lv, i as int) == Ok::<
                                                Seq<TokenV>,
                                                LexError,
                                            >(seq![tkv] + ts));
                                            assert(t0.push(tkv) + ts =~~= t0 + (seq![tkv] + ts));
                                        },
                                        None => {
                                            assert(spec_lex_from(lv, i as int) == Ok::<
                                                Seq<TokenV>,
                                                LexError,
                                            >(ts));
                                        },
                                    }
                                },
                                Err(e) => {
                                    assert(spec_lex_from(lv, i as int) == Err::<
                                        Seq<TokenV>,
                                        LexError,
                                    >(e));
                                },
                            }
                        }
                        i += 1;
                    },
                }
                continue;
            }
            let t = trim_vec(&lines[i]);
            if starts_with_vec(&t, &chars1('#')) && !self.is_separator_line(&lines[i])
                && !starts_with_vec(&t, &chars3('#', '!', '/')) {
                let found = self.has_upcoming_command(&lines, i + 1);
                if found {
                    proof {
                        assert(spec_lex_from(lv, i as int) == spec_lex_from(lv, i as int + 1));
                    }
                    i += 1;
                    continue;
                }
            }
            match self.parse_line(&lines[i]) {
                Err(e) => {
                    proof {
                        assert(spec_lex_from(lv, i as int) == Err::<Seq<TokenV>, LexError>(e));
                    }
                    return Err(e);
                },
                Ok(opt) => {
                    let ghost t0 = tokens.deep_view();
                    let ghost ov = opt.deep_view();
                    match opt {
                        Some(tok) => {
                            let ghost tkv = tok@;
                            tokens.push(tok);
                            proof {
                                assert(tokens.deep_view() =~~= t0.push(tkv));
                            }
                        },
                        None => {},
                    }
                    proof {
                        match spec_lex_from(lv, i as int + 1) {
                            Ok(ts) => {
                                match ov {
                                    Some(tkv) => {
                                        assert(spec_lex_from(lv, i as int) == Ok::<
                                            Seq<TokenV>,
                                            LexError,
                                        >(seq![tkv] + ts));
                                        assert(t0.push(tkv) + ts =~~= t0 + (seq![tkv] + ts));
                                    },
                                    None => {
                                        assert(spec_lex_from(lv, i as int) == Ok::<
                                            Seq<TokenV>,
                                            LexError,
                                        >(ts));
                                    },
                                }
                            },
                            Err(e) => {
                                assert(spec_lex_from(lv, i as int) == Err::<
                                    Seq<TokenV>,
                                    LexError,
                                >(e));
                            },
                        }
                    }
                    i += 1;
                },
            }
        }
        proof {
            assert(spec_lex_from(lv, n as int) == Ok::<Seq<TokenV>, LexError>(Seq::empty()));
            assert(tokens.deep_view() + Seq::<TokenV>::empty() =~~= tokens.deep_view());
        }
        Ok(tokens)
    }

    fn is_separator_line(&self, line: &Vec<char>) -> (r: bool)
        ensures
            r == is_sep_line(line@),
    {
        let t = trim_vec(line);
        if !starts_with_vec(&t, &chars2('#', ' ')) {
            return false;
        }
        if t.len() <= 2 {
            return false;
        }
        let mut i: usize = 2;
        while i < t.len()
            invariant
                2 <= i <= t@.len(),
                t@ == trim(line@),
                forall|j: int| 2 <= j < i ==> t@[j] == '-',
            decreases t@.len() - i,
        {
            if t[i] != '-' {
                return false;
            }
            i += 1;
        }
        true
    }

    fn parse_flag_name(&self, flag: &Vec<char>) -> (r: (Vec<char>, bool, Option<Vec<char>>))
        ensures
            ({
                let (n, tv, th) = spec_parse_flag_name(flag@);
                r.0@ == n && r.1 == tv && r.2.deep_view() == th
            }),
    {
        let f = if starts_with_vec(flag, &chars2('-', '-')) {
            let v = subvec(flag, 2, flag.len());
            proof {
                assert(v@ =~= flag@.skip(2));
            }
            v
        } else {
            let v = subvec(flag, 0, flag.len());
            proof {
                assert(v@ =~= flag@);
            }
            v
        };
        let has_eq = contains_char_vec(&f, '=');
        let mut parts = split_on_vec(&f, '=');
        if has_eq && parts.len() == 2 {
            let ghost partsv = split_on(f@, '=');
            let ghost restv = partsv[1];
            proof {
                assert(parts.deep_view().len() == parts@.len());
            }
            let rest = parts.pop().unwrap();
            let name = parts.pop().unwrap();
            proof {
                assert(rest.deep_view() =~= rest@);
                assert(name.deep_view() =~= name@);
                assert(rest@ == restv);
                assert(name@ == partsv[0]);
            }
            let hint: Option<Vec<char>> = if starts_with_vec(&rest, &chars1('<')) && rest.len()
                >= 2 && rest[rest.len() - 1] == '>' {
                Some(subvec(&rest, 1, rest.len() - 1))
            } else {
                None
            };
            proof {
                let u = restv.skip(1);
                if starts_with(restv, seq!['<']) {
                    if restv.len() >= 2 {
                        assert(u.skip(u.len() - 1) =~= seq![restv[restv.len() - 1]]);
                        if restv[restv.len() - 1] == '>' {
                            assert(u.skip(u.len() - 1) =~= seq!['>']);
                            assert(ends_with(u, seq!['>']));
                        } else {
                            assert(u.skip(u.len() - 1)[0] == restv[restv.len() - 1]);
                            assert(!ends_with(u, seq!['>']));
                        }
                    } else {
                        assert(u.len() == 0);
                        assert(!ends_with(u, seq!['>']));
                    }
                }
                match &hint {
                    Some(h) => {
                        assert(h.deep_view() =~= restv.subrange(1, restv.len() - 1));
                    },
                    None => {},
                }
            }
            (name, true, hint)
        } else {
            (f, false, None)
        }
    }

    fn parse_command_line(&self, cl: &Vec<char>) -> (r: Result<
        (Vec<String>, Vec<Vec<char>>),
        LexError,
    >)
        ensures
            match r {
                Ok((a, rest)) => spec_parse_command_line(cl@) == Ok::<
                    (Seq<Seq<char>>, Seq<Seq<char>>),
                    LexError,
                >((a.deep_view(), rest.deep_view())),
                Err(e) => spec_parse_command_line(cl@) == Err::<
                    (Seq<Seq<char>>, Seq<Seq<char>>),
                    LexError,
                >(e),
            },
    {
        let mut parts = split_ws_vec(cl);
        let ghost dv = parts.deep_view();
        proof {
            assert(dv.len() == parts@.len());
            assert(forall|j: int| 0 <= j < parts@.len() ==> dv[j] =~= parts@[j]@);
        }
        let mut aliases: Vec<String> = Vec::new();
        proof {
            assert(aliases.deep_view() =~~= Seq::<Seq<char>>::empty());
        }
        let mut i: usize = 0;
        let mut prev_comma = false;
        let mut stopped = false;
        while i < parts.len() && !stopped
            invariant
                i <= parts@.len(),
                dv == parts.deep_view(),
                dv.len() == parts@.len(),
                forall|j: int| 0 <= j < parts@.len() ==> dv[j] == parts@[j]@,
                !stopped ==> alias_collect(dv, 0, false, Seq::empty()) == alias_collect(
                    dv,
                    i as int,
                    prev_comma,
                    aliases.deep_view(),
                ),
                stopped ==> alias_collect(dv, 0, false, Seq::empty()) == (
                    aliases.deep_view(),
                    i as int,
                ),
            decreases parts@.len() - i + (if stopped { 0int } else { 1int }),
        {
            let p = &parts[i];
            if starts_with_vec(p, &chars1('-')) || contains_char_vec(p, '?') || find_sub_vec(
                p,
                &chars3('.', '.', '.'),
            ).is_some() || contains_char_vec(p, '=') {
                stopped = true;
            } else {
                if contains_char_vec(p, ',') {
                    let segs = split_on_vec(p, ',');
                    let ghost segdv = segs.deep_view();
                    let ghost acc0 = aliases.deep_view();
                    proof {
                        assert(segdv == split_on(dv[i as int], ','));
                        assert(forall|j: int| 0 <= j < segs@.len() ==> segdv[j] =~= segs@[j]@);
                        assert(trim_all(segdv).take(0) =~= Seq::<Seq<char>>::empty());
                        assert(keep_nonempty(Seq::<Seq<char>>::empty()) =~~= Seq::<Seq<
                            char,
                        >>::empty());
                        assert(aliases.deep_view() =~~= acc0 + keep_nonempty(
                            trim_all(segdv).take(0),
                        ));
                    }
                    let mut k: usize = 0;
                    while k < segs.len()
                        invariant
                            k <= segs@.len(),
                            segdv == segs.deep_view(),
                            segdv.len() == segs@.len(),
                            forall|j: int| 0 <= j < segs@.len() ==> segdv[j] == segs@[j]@,
                            aliases.deep_view() =~~= acc0 + keep_nonempty(
                                trim_all(segdv).take(k as int),
                            ),
                        decreases segs@.len() - k,
                    {
                        let tseg = trim_vec(&segs[k]);
                        proof {
                            assert(trim_all(segdv)[k as int] == trim(segdv[k as int]));
                            assert(trim_all(segdv).take(k + 1) =~~= trim_all(segdv).take(
                                k as int,
                            ).push(tseg@));
                            lemma_keep_nonempty_push(trim_all(segdv).take(k as int), tseg@);
                        }
                        let ghost ad0 = aliases.deep_view();
                        if tseg.len() > 0 {
                            aliases.push(string_of(&tseg));
                            proof {
                                assert(aliases.deep_view() =~~= ad0.push(tseg@));
                                assert(keep_nonempty(trim_all(segdv).take(k + 1))
                                    == keep_nonempty(trim_all(segdv).take(k as int)).push(
                                    tseg@,
                                ));
                                assert(aliases.deep_view() =~~= acc0 + keep_nonempty(
                                    trim_all(segdv).take(k + 1),
                                ));
                            }
                        } else {
                            proof {
                                assert(keep_nonempty(trim_all(segdv).take(k + 1))
                                    == keep_nonempty(trim_all(segdv).take(k as int)));
                            }
                        }
                        k += 1;
                    }
                    proof {
                        assert(trim_all(segdv).take(segs@.len() as int) =~~= trim_all(segdv));
                        assert(aliases.deep_view() =~~= acc0 + comma_aliases(dv[i as int]));
                    }
                    prev_comma = true;
                } else if prev_comma {
                    let ghost ad0 = aliases.deep_view();
                    aliases.push(string_of(p));
                    prev_comma = false;
                    proof {
                        assert(aliases.deep_view() =~~= ad0.push(dv[i as int]));
                    }
                } else if aliases.len() == 0 {
                    let ghost ad0 = aliases.deep_view();
                    aliases.push(string_of(p));
                    proof {
                        assert(ad0.len() == 0);
                        assert(aliases.deep_view() =~~= ad0.push(dv[i as int]));
                    }
                } else {
                    stopped = true;
                }
                if !stopped {
                    i += 1;
                }
            }
        }
        proof {
            if !stopped {
                assert(alias_collect(dv, i as int, prev_comma, aliases.deep_view()) == (
                    aliases.deep_view(),
                    i as int,
                ));
            }
        }
        if aliases.len() == 0 {
            return Err(LexError::EmptyCommandName);
        }
        let rest = parts.split_off(i);
        proof {
            assert(rest.deep_view() =~~= dv.skip(i as int));
        }
        Ok((aliases, rest))
    }

    fn parse_args_and_flags(&self, parts: &Vec<Vec<char>>) -> (r: (
        Vec<InlineArg>,
        Vec<InlineFlag>,
    ))
        ensures
            ({
                let (sa, sf) = spec_args_flags(parts.deep_view(), 0, Seq::empty(), Seq::empty());
                r.0.deep_view() == sa && r.1.deep_view() == sf
            }),
    {
        let ghost dv = parts.deep_view();
        proof {
            assert(forall|j: int| 0 <= j < parts@.len() ==> dv[j] =~= parts@[j]@);
        }
        let mut args: Vec<InlineArg> = Vec::new();
        let mut flags: Vec<InlineFlag> = Vec::new();
        proof {
            assert(args.deep_view() =~~= Seq::<InlineArgV>::empty());
            assert(flags.deep_view() =~~= Seq::<InlineFlagV>::empty());
        }
        let mut i: usize = 0;
        while i < parts.len()
            invariant
                i <= parts@.len(),
                dv == parts.deep_view(),
                dv.len() == parts@.len(),
                forall|j: int| 0 <= j < parts@.len() ==> dv[j] == parts@[j]@,
                spec_args_flags(dv, 0, Seq::empty(), Seq::empty()) == spec_args_flags(
                    dv,
                    i as int,
                    args.deep_view(),
                    flags.deep_view(),
                ),
            decreases parts@.len() - i,
        {
            let p = &parts[i];
            let dots = chars3('.', '.', '.');
            if starts_with_vec(p, &dots) || ends_with_vec(p, &dots) {
                let nm = if starts_with_vec(p, &dots) {
                    let v = subvec(p, 3, p.len());
                    proof {
                        assert(v@ =~= p@.skip(3));
                    }
                    v
                } else {
                    let v = subvec(p, 0, p.len() - 3);
                    proof {
                        assert(v@ =~= p@.take(p@.len() - 3));
                    }
                    v
                };
                let ghost a0 = args.deep_view();
                args.push((string_of(&nm), true, true));
                proof {
                    assert(args.deep_view() =~~= a0.push((nm@, true, true)));
                }
                i += 1;
            } else if starts_with_vec(p, &chars1('-')) {
                if ends_with_vec(p, &chars1(',')) && i + 1 < parts.len() {
                    let sp = subvec(p, 0, p.len() - 1);
                    proof {
                        assert(sp@ =~= p@.drop_last());
                    }
                    let short: Option<char> = if starts_with_vec(&sp, &chars1('-'))
                        && sp.len() >= 2 {
                        Some(sp[1])
                    } else {
                        None
                    };
                    let (ln, tv, th) = self.parse_flag_name(&parts[i + 1]);
                    let hint: Option<String> = match th {
                        Some(h) => Some(string_of(&h)),
                        None => None,
                    };
                    let ghost f0 = flags.deep_view();
                    flags.push((string_of(&ln), short, tv, hint));
                    proof {
                        let (sln, stv, sth) = spec_parse_flag_name(dv[i + 1]);
                        assert(flags.deep_view() =~~= f0.push((sln, short, stv, sth)));
                    }
                    i += 2;
                } else if starts_with_vec(p, &chars2('-', '-')) {
                    let (ln, tv, th) = self.parse_flag_name(p);
                    let hint: Option<String> = match th {
                        Some(h) => Some(string_of(&h)),
                        None => None,
                    };
                    let ghost f0 = flags.deep_view();
                    flags.push((string_of(&ln), None, tv, hint));
                    proof {
                        let (sln, stv, sth) = spec_parse_flag_name(dv[i as int]);
                        assert(flags.deep_view() =~~= f0.push(
                            (sln, None::<char>, stv, sth),
                        ));
                    }
                    i += 1;
                } else if p.len() == 2 {
                    let c = p[1];
                    let ghost f0 = flags.deep_view();
                    flags.push((string_of(&chars1(c)), Some(c), false, None));
                    proof {
                        assert(flags.deep_view() =~~= f0.push(
                            (seq![c], Some(c), false, None::<Seq<char>>),
                        ));
                    }
                    i += 1;
                } else {
                    i += 1;
                }
            } else {
                let (nm, opt): (Vec<char>, bool) = if ends_with_vec(p, &chars1('?')) {
                    let v = subvec(p, 0, p.len() - 1);
                    proof {
                        assert(v@ =~= p@.drop_last());
                    }
                    (v, true)
                } else {
                    let v = subvec(p, 0, p.len());
                    proof {
                        assert(v@ =~= p@);
                    }
                    (v, false)
                };
                let ghost a0 = args.deep_view();
                args.push((string_of(&nm), opt, false));
                proof {
                    assert(args.deep_view() =~~= a0.push((nm@, opt, false)));
                }
                i += 1;
            }
        }
        (args, flags)
    }

    fn plain_line(&self, line: &Vec<char>) -> (r: Token)
        ensures
            r@ == spec_plain_line(line@),
    {
        let t = trim_vec(line);
        if starts_with_vec(&t, &chars1('#')) {
            if starts_with_vec(&t, &chars3('#', '!', '/')) {
                Token::ScriptLine { content: string_of(line) }
            } else {
                Token::Comment { content: string_of(&t) }
            }
        } else {
            Token::ScriptLine { content: string_of(line) }
        }
    }

    fn indented_decl(&self, line: &Vec<char>) -> (r: Option<Token>)
        ensures
            r.deep_view() == spec_indented_decl(line@),
    {
        let t = trim_vec(line);
        if !(starts_with_vec(line, &chars2(' ', ' ')) && !starts_with_vec(
            line,
            &chars3(' ', ' ', ' '),
        ) && (!starts_with_vec(&t, &chars1('#')) || starts_with_vec(
            &t,
            &chars3('#', '!', '/'),
        ))) {
            return None;
        }
        let found = find_sub_vec(&t, &chars3(' ', '#', ' '));
        proof {
            lemma_find_sub_bounds(t@, seq![' ', '#', ' '], 0);
        }
        let (content_part, comment): (Vec<char>, Option<String>) = match found {
            Some(ix) => {
                let before = subvec(&t, 0, ix);
                proof {
                    assert(before@ =~= t@.take(ix as int));
                }
                let after = subvec(&t, ix, t.len());
                proof {
                    assert(after@ =~= t@.skip(ix as int));
                }
                let at = trim_vec(&after);
                let ct = if starts_with_vec(&at, &chars1('#')) {
                    let u = subvec(&at, 1, at.len());
                    proof {
                        assert(u@ =~= at@.skip(1));
                    }
                    trim_vec(&u)
                } else {
                    trim_vec(&at)
                };
                (trim_vec(&before), Some(string_of(&ct)))
            },
            None => {
                let c = subvec(&t, 0, t.len());
                proof {
                    assert(c@ =~= t@);
                }
                (c, None)
            },
        };
        let ghost cps = match find_sub(t@, seq![' ', '#', ' '], 0) {
            Some(ix) => trim(t@.take(ix)),
            None => t@,
        };
        let ghost cms: Option<Seq<char>> = match find_sub(t@, seq![' ', '#', ' '], 0) {
            Some(ix) => {
                let at = trim(t@.skip(ix));
                Some(
                    if starts_with(at, seq!['#']) {
                        trim(at.skip(1))
                    } else {
                        trim(at)
                    },
                )
            },
            None => None,
        };
        proof {
            assert(content_part@ == cps);
            assert(comment.deep_view() == cms);
        }
        if starts_with_vec(&content_part, &chars3('#', '!', '/')) {
            return Some(Token::ScriptLine { content: string_of(line) });
        }
        if starts_with_vec(&content_part, &chars1('-')) {
            let segs = split_on_vec(&content_part, ',');
            proof {
                assert(segs.deep_view().len() == segs@.len());
                assert(trim_all(segs.deep_view()).len() == segs@.len());
                assert(forall|j: int| 0 <= j < segs@.len() ==> segs.deep_view()[j] =~= segs@[j]@);
            }
            if segs.len() == 2 {
                let s0 = trim_vec(&segs[0]);
                let s1 = trim_vec(&segs[1]);
                proof {
                    assert(trim_all(segs.deep_view())[0] == trim(segs.deep_view()[0]));
                    assert(trim_all(segs.deep_view())[1] == trim(segs.deep_view()[1]));
                    assert(s0@ == trim_all(split_on(cps, ','))[0]);
                    assert(s1@ == trim_all(split_on(cps, ','))[1]);
                }
                let short: Option<char> = if starts_with_vec(&s0, &chars1('-')) && s0.len()
                    >= 2 {
                    Some(s0[1])
                } else {
                    None
                };
                let clean = if ends_with_vec(&s1, &chars1(':')) {
                    let u = subvec(&s1, 0, s1.len() - 1);
                    proof {
                        assert(u@ =~= s1@.drop_last());
                    }
                    u
                } else {
                    s1
                };
                let (ln, tv, th) = self.parse_flag_name(&clean);
                let hint: Option<String> = string_opt(th);
                return Some(
                    Token::Flag {
                        long_name: string_of(&ln),
                        short,
                        takes_value: tv,
                        type_hint: hint,
                        comment,
                    },
                );
            }
            if starts_with_vec(&content_part, &chars2('-', '-')) {
                let clean = if ends_with_vec(&content_part, &chars1(':')) {
                    let u = subvec(&content_part, 0, content_part.len() - 1);
                    proof {
                        assert(u@ =~= content_part@.drop_last());
                    }
                    u
                } else {
                    let u = subvec(&content_part, 0, content_part.len());
                    proof {
                        assert(u@ =~= content_part@);
                    }
                    u
                };
                let (ln, tv, th) = self.parse_flag_name(&clean);
                let hint: Option<String> = string_opt(th);
                return Some(
                    Token::Flag {
                        long_name: string_of(&ln),
                        short: None,
                        takes_value: tv,
                        type_hint: hint,
                        comment,
                    },
                );
            }
            if content_part.len() == 2 {
                let c = content_part[1];
                return Some(
                    Token::Flag {
                        long_name: string_of(&chars1(c)),
                        short: Some(c),
                        takes_value: false,
                        type_hint: None,
                        comment,
                    },
                );
            }
            return None;
        }
        if !contains_char_vec(&content_part, ' ') && content_part.len() > 0 {
            let clean = if ends_with_vec(&content_part, &chars1(':')) {
                let u = subvec(&content_part, 0, content_part.len() - 1);
                proof {
                    assert(u@ =~= content_part@.drop_last());
                }
                u
            } else {
                content_part
            };
            let dots = chars3('.', '.', '.');
            let (nm, opt, vr): (Vec<char>, bool, bool) = if starts_with_vec(&clean, &dots) {
                let v = subvec(&clean, 3, clean.len());
                proof {
                    assert(v@ =~= clean@.skip(3));
                }
                (v, true, true)
            } else if ends_with_vec(&clean, &dots) {
                let v = subvec(&clean, 0, clean.len() - 3);
                proof {
                    assert(v@ =~= clean@.take(clean@.len() - 3));
                }
                (v, true, true)
            } else if ends_with_vec(&clean, &chars1('?')) {
                let v = subvec(&clean, 0, clean.len() - 1);
                proof {
                    assert(v@ =~= clean@.drop_last());
                }
                (v, true, false)
            } else {
                (clean, false, false)
            };
            return Some(
                Token::Argument {
                    name: string_of(&nm),
                    optional: opt,
                    is_varargs: vr,
                    comment,
                },
            );
        }
        None
    }

    fn parse_line_with_comment(&self, line: &Vec<char>, comment: Option<String>) -> (r: Result<
        Option<Token>,
        LexError,
    >)
        ensures
            match r {
                Ok(opt) => spec_classify(line@, comment.deep_view()) == Ok::<
                    Option<TokenV>,
                    LexError,
                >(opt.deep_view()),
                Err(e) => spec_classify(line@, comment.deep_view()) == Err::<
                    Option<TokenV>,
                    LexError,
                >(e),
            },
    {
        let t = trim_vec(line);
        if t.len() == 0 {
            return Ok(None);
        }
        if self.is_command_line(line) {
            if find_sub_vec(&t, &chars3(' ', '#', ' ')).is_some() {
                return Err(LexError::CommentOnHeaderLine);
            }
            let cl = if ends_with_vec(&t, &chars1(':')) {
                let u = subvec(&t, 0, t.len() - 1);
                proof {
                    assert(u@ =~= trim(line@).drop_last());
                }
                trim_vec(&u)
            } else {
                t
            };
            match self.parse_command_line(&cl) {
                Err(e) => Err(e),
                Ok((aliases, rest)) => {
                    let (ia, fl) = self.parse_args_and_flags(&rest);
                    Ok(
                        Some(
                            Token::CommandName {
                                name: aliases,
                                inline_args: ia,
                                inline_flags: fl,
                                comment,
                            },
                        ),
                    )
                },
            }
        } else {
            match self.indented_decl(line) {
                Some(tok) => Ok(Some(tok)),
                None => Ok(Some(self.plain_line(line))),
            }
        }
    }

    fn parse_line(&self, line: &Vec<char>) -> (r: Result<Option<Token>, LexError>)
        ensures
            match r {
                Ok(opt) => spec_classify(line@, None) == Ok::<Option<TokenV>, LexError>(
                    opt.deep_view(),
                ),
                Err(e) => spec_classify(line@, None) == Err::<Option<TokenV>, LexError>(e),
            },
    {
        self.parse_line_with_comment(line, None)
    }

    fn is_command_line(&self, line: &Vec<char>) -> (r: bool)
        ensures
            r == is_command_line(line@),
    {
        let t = trim_vec(line);
        if starts_with_vec(&t, &chars1('#')) || starts_with_vec(&t, &chars4('e', 'c', 'h', 'o')) {
            return false;
        }
        if starts_with_vec(line, &chars2(' ', ' ')) {
            return false;
        }
        let cl = if ends_with_vec(&t, &chars1(':')) {
            let u = subvec(&t, 0, t.len() - 1);
            proof {
                assert(u@ =~= trim(line@).drop_last());
            }
            trim_vec(&u)
        } else {
            t
        };
        if cl.len() == 0 {
            return true;
        }
        let parts = split_ws_vec(&cl);
        if parts.len() == 0 {
            return false;
        }
        let ghost dv = parts.deep_view();
        proof {
            assert(dv.len() == parts@.len());
            assert(forall|j: int| 0 <= j < parts@.len() ==> dv[j] =~= parts@[j]@);
        }
        let mut i: usize = 0;
        let mut prev_comma = false;
        let mut stopped = false;
        while i < parts.len() && !stopped
            invariant
                i <= parts@.len(),
                dv == parts.deep_view(),
                dv.len() == parts@.len(),
                forall|j: int| 0 <= j < parts@.len() ==> dv[j] == parts@[j]@,
                !stopped ==> alias_scan(dv, 0, false) == alias_scan(dv, i as int, prev_comma),
                stopped ==> alias_scan(dv, 0, false) == i,
            decreases parts@.len() - i + (if stopped { 0int } else { 1int }),
        {
            let p = &parts[i];
            if starts_with_vec(p, &chars1('-')) || contains_char_vec(p, '?') || find_sub_vec(
                p,
                &chars3('.', '.', '.'),
            ).is_some() || contains_char_vec(p, '=') {
                stopped = true;
            } else {
                if contains_char_vec(p, ',') {
                    prev_comma = true;
                } else if prev_comma {
                    prev_comma = false;
                } else if i == 0 {
                } else {
                    stopped = true;
                }
                if !stopped {
                    i += 1;
                }
            }
        }
        proof {
            if !stopped {
                assert(alias_scan(dv, i as int, prev_comma) == i);
            }
        }
        i > 0
    }
}

} // verus!
