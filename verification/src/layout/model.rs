//! The layout pass as a state machine over characters.
//!
//! The pass reads the source once, from left to right. What it has written
//! so far and the few facts it remembers about the text behind it make up a
//! [`LayoutState`]; [`step`] says how one more character changes it.

use vstd::prelude::*;
use crate::config::ConfigModel;
use crate::rules::IndentationRule;
use crate::rules::NewLineOnOpenBrace;
use crate::text::is_blank;
use crate::text::is_space;

verus! {

/// What the layout pass knows after reading a prefix of the source.
#[verifier::ext_equal]
pub struct LayoutState {
    /// The text written so far.
    pub out: Seq<char>,
    /// Number of scopes and brackets that are open.
    pub nesting: nat,
    /// Number of line breaks written since the last text.
    pub empty_lines: nat,
    /// No text has been met on the current line yet.
    pub on_new_line: bool,
    /// Blanks are being swallowed until text comes.
    pub skip_blanks: bool,
    /// The end of the line also ends the swallowing of blanks.
    pub skip_ends_at_eol: bool,
    /// Number of block comments that are open.
    pub block_depth: nat,
    /// The rest of the line is a line comment.
    pub in_line_comment: bool,
    /// The comment text gathered since the last `//`.
    pub comment_line: Seq<char>,
    /// The next line break opens one more level of nesting.
    pub nest_on_next_line: bool,
    /// The current line began with `#`.
    pub line_is_directive: bool,
    /// The last character that was not a space was a backslash.
    pub last_is_backslash: bool,
    /// The line before the current one ended in a backslash.
    pub prev_line_backslash: bool,
    /// The last three characters that were let through, oldest first.
    pub recent: (char, char, char),
    /// Text outside comments is copied as it is.
    pub no_format: bool,
}

/// Comment text that switches formatting off for the lines after it.
pub open spec fn no_format_begin() -> Seq<char> {
    " NOFORMATBEGIN"@
}

/// Comment text that switches formatting on again.
pub open spec fn no_format_end() -> Seq<char> {
    " NOFORMATEND"@
}

/// One level of indentation.
pub open spec fn indent_unit(rule: IndentationRule) -> Seq<char> {
    match rule {
        IndentationRule::Tab => seq!['\t'],
        IndentationRule::TwoSpaces => seq![' ', ' '],
        IndentationRule::FourSpaces => seq![' ', ' ', ' ', ' '],
    }
}

/// `n` levels of indentation.
pub open spec fn indent(rule: IndentationRule, n: nat) -> Seq<char>
    decreases n,
{
    if n == 0 {
        Seq::empty()
    } else {
        indent(rule, (n - 1) as nat) + indent_unit(rule)
    }
}

/// The characters that end a line in the output.
pub open spec fn line_ending(cfg: ConfigModel) -> Seq<char> {
    match cfg.force_line_ending {
        Some(ending) => ending,
        None => seq!['\n'],
    }
}

/// A line break followed by `n` levels of indentation.
pub open spec fn new_line(cfg: ConfigModel, n: nat) -> Seq<char> {
    line_ending(cfg) + indent(cfg.indentation, n)
}

/// `s` without the blanks at its end.
pub open spec fn strip_blank(s: Seq<char>) -> Seq<char>
    decreases s.len(),
{
    if s.len() > 0 && is_blank(s.last()) {
        strip_blank(s.drop_last())
    } else {
        s
    }
}

/// `s` without the blanks and line breaks at its end.
pub open spec fn strip_space(s: Seq<char>) -> Seq<char>
    decreases s.len(),
{
    if s.len() > 0 && is_space(s.last()) {
        strip_space(s.drop_last())
    } else {
        s
    }
}

/// `s` without its last `n` characters, or empty where it has fewer.
pub open spec fn drop_tail(s: Seq<char>, n: nat) -> Seq<char> {
    if s.len() <= n {
        Seq::empty()
    } else {
        s.take(s.len() - n)
    }
}

/// Index at which the last line of `s` starts.
pub open spec fn line_start(s: Seq<char>) -> int
    decreases s.len(),
{
    if s.len() == 0 || s.last() == '\n' {
        s.len() as int
    } else {
        line_start(s.drop_last())
    }
}

/// Index of the first character of `s` from `from` on that is not a blank,
/// or the length of `s`.
pub open spec fn skip_blank(s: Seq<char>, from: int) -> int
    decreases s.len() - from,
{
    if 0 <= from < s.len() && is_blank(s[from]) {
        skip_blank(s, from + 1)
    } else {
        from
    }
}

/// Whether the first two characters of `s` from `from` on that are not
/// blanks are `//`.
pub open spec fn starts_with_comment(s: Seq<char>, from: int) -> bool {
    let first = skip_blank(s, from);
    let second = skip_blank(s, first + 1);
    first < s.len() && second < s.len() && s[first] == '/' && s[second] == '/'
}

/// Index of the first `//` in `s` from `from` on, or the length of `s`.
pub open spec fn find_comment(s: Seq<char>, from: int) -> int
    decreases s.len() - from,
{
    if from < 0 || from + 1 >= s.len() {
        s.len() as int
    } else if s[from] == '/' && s[from + 1] == '/' {
        from
    } else {
        find_comment(s, from + 1)
    }
}

/// The state in which the pass starts.
pub open spec fn initial() -> LayoutState {
    LayoutState {
        out: Seq::empty(),
        nesting: 0,
        empty_lines: 0,
        on_new_line: true,
        skip_blanks: false,
        skip_ends_at_eol: false,
        block_depth: 0,
        in_line_comment: false,
        comment_line: Seq::empty(),
        nest_on_next_line: false,
        line_is_directive: false,
        last_is_backslash: false,
        prev_line_backslash: false,
        recent: (' ', ' ', ' '),
        no_format: false,
    }
}

/// Whether text outside comments is copied as it is once the line that `s`
/// stands on has ended: a line comment that consists of a marker switches
/// this on or off.
pub open spec fn no_format_after_line(s: LayoutState) -> bool {
    if s.in_line_comment && s.comment_line == no_format_begin() {
        true
    } else if s.in_line_comment && s.comment_line == no_format_end() {
        false
    } else {
        s.no_format
    }
}

/// A line break in the source. Where formatting is switched off for the
/// line that follows, the line ending is all that is written, and blank
/// lines are neither counted nor capped. Elsewhere the line ending is
/// followed by the indentation of the line, unless blanks are being
/// swallowed or the limit of blank lines is reached.
pub open spec fn on_line_break(s: LayoutState, cfg: ConfigModel) -> LayoutState {
    let nesting = if s.nest_on_next_line {
        s.nesting + 1
    } else {
        s.nesting
    };
    let s1 = LayoutState {
        on_new_line: true,
        nesting,
        nest_on_next_line: false,
        no_format: no_format_after_line(s),
        ..s
    };
    if s1.no_format {
        LayoutState { out: s.out + line_ending(cfg), ..s1 }
    } else if (!s.skip_blanks || s.skip_ends_at_eol) && s.empty_lines <= cfg.max_empty_lines {
        LayoutState {
            skip_blanks: false,
            skip_ends_at_eol: false,
            out: s.out + new_line(cfg, nesting),
            empty_lines: s.empty_lines + 1,
            ..s1
        }
    } else {
        s1
    }
}

/// The first text of a line, `c`, has come.
pub open spec fn on_line_start(s: LayoutState, c: char, cfg: ConfigModel) -> LayoutState {
    let out1 = if c == '#' {
        if cfg.indent_preprocessor {
            s.out
        } else {
            strip_blank(s.out)
        }
    } else if c == '=' {
        s.out + indent_unit(cfg.indentation)
    } else {
        s.out
    };
    let out2 = if s.block_depth > 0 && c == '*' {
        out1.push(' ')
    } else {
        out1
    };
    LayoutState {
        on_new_line: false,
        skip_blanks: false,
        skip_ends_at_eol: false,
        empty_lines: 0,
        line_is_directive: c == '#',
        out: out2,
        ..s
    }
}

/// Whether `recent` followed by `c` closes a conditional branch: `#end`,
/// `#eli` or `#els`.
pub open spec fn closes_branch(recent: (char, char, char), c: char) -> bool {
    recent.0 == '#' && recent.1 == 'e' && ((recent.2 == 'n' && c == 'd') || (recent.2 == 'l' && (c
        == 'i' || c == 's')))
}

/// Whether conditional directives open and close levels of nesting.
pub open spec fn directives_nest(cfg: ConfigModel) -> bool {
    cfg.preprocessor_if_creates_nesting && cfg.indent_preprocessor
}

/// One level of nesting less, or none where none is open.
pub open spec fn one_less(n: nat) -> nat {
    if n > 0 {
        (n - 1) as nat
    } else {
        0
    }
}

/// Number of open block comments once `c` has come after `recent`: `/**`
/// and `/*!` open one, and the character after `*/` closes one.
pub open spec fn block_depth_after(depth: nat, recent: (char, char, char), c: char) -> nat {
    if recent.1 == '/' && recent.2 == '*' && (c == '*' || c == '!') {
        depth + 1
    } else if recent.1 == '*' && recent.2 == '/' {
        one_less(depth)
    } else {
        depth
    }
}

/// The directive that `s.recent` has begun closes a conditional branch: it
/// moves one level out, whatever stood before it on its line.
pub open spec fn on_branch_end(s: LayoutState, cfg: ConfigModel) -> LayoutState {
    let nesting = one_less(s.nesting);
    LayoutState {
        nesting,
        out: strip_blank(drop_tail(s.out, 3)) + indent(cfg.indentation, nesting) + seq![
            s.recent.0,
            s.recent.1,
            s.recent.2,
        ],
        ..s
    }
}

/// What the three characters before `c` say about comments and directives.
/// Directives are looked for only where formatting is switched on.
pub open spec fn on_lookback(s: LayoutState, c: char, cfg: ConfigModel) -> LayoutState {
    let r = s.recent;
    let watch = directives_nest(cfg) && !s.in_line_comment && !s.no_format;
    let opens = watch && r.1 == '#' && r.2 == 'i' && c == 'f';
    let closes = watch && !opens && closes_branch(r, c);
    let comment_starts = r.1 == '/' && r.2 == '/';
    let s1 = if closes {
        on_branch_end(s, cfg)
    } else {
        s
    };
    LayoutState {
        block_depth: block_depth_after(s.block_depth, r, c),
        nest_on_next_line: s.nest_on_next_line || opens || (closes && (c == 'i' || c == 's')),
        in_line_comment: s.in_line_comment || comment_starts,
        comment_line: if comment_starts {
            Seq::empty()
        } else {
            s.comment_line
        },
        recent: (r.1, r.2, c),
        ..s1
    }
}

/// The text that `{` leaves behind `base` under the rule that puts the
/// line break after it: a space and the brace at the end of the line,
/// before a line comment if the line ends in one; on a line of its own,
/// behind `lead`, if the line is nothing but a comment.
pub open spec fn brace_after_text(base: Seq<char>, lead: Seq<char>) -> Seq<char> {
    let start = line_start(base);
    let at = find_comment(base, start);
    if starts_with_comment(base, start) {
        base + lead + seq!['{']
    } else if at < base.len() {
        strip_blank(base.take(at)) + seq![' ', '{', ' '] + base.skip(at)
    } else {
        base + seq![' ', '{']
    }
}

/// What is written once `{` has come behind `out`. `continued` says that
/// the line before ended in a backslash; `lead` is a line break at the
/// nesting that the brace is met at, `trail` one at the nesting that it
/// opens.
///
/// Under the rule that puts the line break after the brace, the brace joins
/// the text before it, and `trail` follows unless `continued`, where the
/// backslash that ended that text goes. Under the rule that puts it before,
/// the brace stands between `lead` and `trail`, and `continued` keeps a
/// backslash on both sides of the first line break.
pub open spec fn open_brace_text(
    out: Seq<char>,
    rule: NewLineOnOpenBrace,
    continued: bool,
    lead: Seq<char>,
    trail: Seq<char>,
) -> Seq<char> {
    let stripped = strip_space(out);
    match rule {
        NewLineOnOpenBrace::After => {
            if continued {
                if stripped.len() > 0 && stripped.last() == '\\' {
                    brace_after_text(strip_space(stripped.drop_last()), lead)
                } else {
                    brace_after_text(stripped, lead)
                }
            } else {
                brace_after_text(stripped, lead) + trail
            }
        },
        NewLineOnOpenBrace::Before => {
            if continued {
                if stripped.len() > 0 && stripped.last() != '\\' {
                    stripped.push('\\') + lead + seq!['{', '\\'] + trail
                } else {
                    stripped + lead + seq!['{', '\\'] + trail
                }
            } else {
                stripped + lead + seq!['{'] + trail
            }
        },
    }
}

/// Whether a line break follows an opening brace.
pub open spec fn brace_ends_line(rule: NewLineOnOpenBrace, continued: bool) -> bool {
    rule == NewLineOnOpenBrace::Before || !continued
}

/// An opening brace outside comments.
pub open spec fn on_open_brace(s: LayoutState, cfg: ConfigModel) -> LayoutState {
    let ends_line = brace_ends_line(cfg.new_line_around_braces, s.prev_line_backslash);
    LayoutState {
        out: open_brace_text(
            s.out,
            cfg.new_line_around_braces,
            s.prev_line_backslash,
            new_line(cfg, s.nesting),
            new_line(cfg, s.nesting + 1),
        ),
        nesting: s.nesting + 1,
        on_new_line: s.on_new_line || ends_line,
        empty_lines: if ends_line {
            s.empty_lines + 1
        } else {
            s.empty_lines
        },
        skip_blanks: true,
        ..s
    }
}

/// What is written once `}` has come behind `out`: the text so far without
/// the blanks and line breaks at its end, then `lead`, then the brace.
pub open spec fn close_brace_text(out: Seq<char>, lead: Seq<char>) -> Seq<char> {
    strip_space(out) + lead + seq!['}']
}

/// A closing brace outside comments. It stands on a line of its own, one
/// level out; on a line that began with `#` it stays on that line.
pub open spec fn on_close_brace(s: LayoutState, cfg: ConfigModel) -> LayoutState {
    let nesting = one_less(s.nesting);
    let lead = if s.line_is_directive {
        seq![' ']
    } else {
        new_line(cfg, nesting)
    };
    LayoutState { out: close_brace_text(s.out, lead), nesting, ..s }
}

/// What is written once the opening bracket `c` has come behind `out`.
pub open spec fn open_bracket_text(out: Seq<char>, c: char, spaced: bool) -> Seq<char> {
    if spaced {
        out.push(c).push(' ')
    } else {
        out.push(c)
    }
}

/// An opening round or square bracket `c` outside comments. Angle brackets
/// are no brackets to the pass: `<` and `>` also compare, and are copied
/// like any other character.
pub open spec fn on_open_bracket(s: LayoutState, c: char, cfg: ConfigModel) -> LayoutState {
    LayoutState {
        out: open_bracket_text(s.out, c, cfg.spaces_in_brackets),
        skip_blanks: true,
        skip_ends_at_eol: true,
        nesting: s.nesting + 1,
        ..s
    }
}

/// Whether `c` opens a bracket pair that a closing bracket may follow at
/// once. Here alone `<` counts as a bracket.
pub open spec fn is_opener(c: char) -> bool {
    c == '<' || c == '[' || c == '('
}

/// What is written once the closing bracket `c` has come behind `out`: the
/// text so far without the blanks and line breaks at its end, a space if
/// brackets are `spaced` and the pair is not empty, and the bracket.
pub open spec fn close_bracket_text(out: Seq<char>, c: char, spaced: bool) -> Seq<char> {
    let base = strip_space(out);
    if spaced && !(base.len() > 0 && is_opener(base.last())) {
        base.push(' ').push(c)
    } else {
        base.push(c)
    }
}

/// A closing round or square bracket `c` outside comments.
pub open spec fn on_close_bracket(s: LayoutState, c: char, cfg: ConfigModel) -> LayoutState {
    LayoutState {
        out: close_bracket_text(s.out, c, cfg.spaces_in_brackets),
        nesting: one_less(s.nesting),
        ..s
    }
}

/// A character `c` of the code: outside comments, with formatting
/// switched on.
pub open spec fn on_code(s: LayoutState, c: char, cfg: ConfigModel) -> LayoutState {
    let s1 = if c == ' ' {
        s
    } else {
        LayoutState { last_is_backslash: c == '\\', ..s }
    };
    if c == '{' {
        on_open_brace(s1, cfg)
    } else if c == '}' {
        on_close_brace(s1, cfg)
    } else if c == '[' || c == '(' {
        on_open_bracket(s1, c, cfg)
    } else if c == ']' || c == ')' {
        on_close_bracket(s1, c, cfg)
    } else {
        LayoutState { out: s1.out.push(c), ..s1 }
    }
}

/// A character `c` of the text proper: not a line break, not a swallowed
/// blank. Inside comments it is copied and remembered as comment text;
/// where formatting is switched off it is copied; elsewhere it is code.
pub open spec fn on_text(s: LayoutState, c: char, cfg: ConfigModel) -> LayoutState {
    let s1 = on_lookback(s, c, cfg);
    if s1.in_line_comment || s1.block_depth > 0 {
        LayoutState { out: s1.out.push(c), comment_line: s1.comment_line.push(c), ..s1 }
    } else if s1.no_format {
        LayoutState { out: s1.out.push(c), ..s1 }
    } else {
        on_code(s1, c, cfg)
    }
}

/// A character `c` other than a line break where formatting is switched
/// off: it is copied as it is, a blank at the start of a line too, and
/// only comments are still looked for, since a comment can switch
/// formatting on again.
pub open spec fn on_unformatted(s: LayoutState, c: char, cfg: ConfigModel) -> LayoutState {
    if s.on_new_line {
        on_text(
            LayoutState {
                on_new_line: false,
                in_line_comment: false,
                prev_line_backslash: s.last_is_backslash,
                ..s
            },
            c,
            cfg,
        )
    } else {
        on_text(s, c, cfg)
    }
}

/// The state after one more character, `c`. Carriage returns are dropped
/// everywhere, so that every line ends in the one ending of the rules.
pub open spec fn step(s: LayoutState, c: char, cfg: ConfigModel) -> LayoutState {
    if c == '\r' {
        s
    } else if c == '\n' {
        on_line_break(s, cfg)
    } else if s.no_format {
        on_unformatted(s, c, cfg)
    } else if s.on_new_line {
        let s1 = LayoutState {
            in_line_comment: false,
            prev_line_backslash: s.last_is_backslash,
            ..s
        };
        if is_blank(c) {
            s1
        } else {
            on_text(on_line_start(s1, c, cfg), c, cfg)
        }
    } else if s.skip_blanks {
        if is_blank(c) {
            s
        } else {
            on_text(LayoutState { skip_blanks: false, skip_ends_at_eol: false, ..s }, c, cfg)
        }
    } else {
        on_text(s, c, cfg)
    }
}

/// The state after the whole of `text`.
pub open spec fn run(text: Seq<char>, cfg: ConfigModel) -> LayoutState
    decreases text.len(),
{
    if text.len() == 0 {
        initial()
    } else {
        step(run(text.drop_last(), cfg), text.last(), cfg)
    }
}

/// What a source that leaves formatting switched off is told.
pub open spec fn unmatched_marker_message() -> Seq<char> {
    "NOFORMATBEGIN was found but no matching NOFORMATEND detected"@
}

/// The text that the layout pass makes of `text`, or the reason why it
/// makes none.
pub open spec fn layout(text: Seq<char>, cfg: ConfigModel) -> Result<Seq<char>, Seq<char>> {
    let last = run(text, cfg);
    if no_format_after_line(last) {
        Err(unmatched_marker_message())
    } else {
        Ok(last.out)
    }
}

} // verus!
