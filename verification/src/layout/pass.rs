//! The layout pass as it runs: the state machine of the model on vectors
//! and machine integers.

use vstd::prelude::*;
use crate::config::Config;
use crate::config::ConfigModel;
use crate::layout::model::LayoutState;
use crate::layout::model::block_depth_after;
use crate::layout::model::brace_after_text;
use crate::layout::model::close_brace_text;
use crate::layout::model::close_bracket_text;
use crate::layout::model::drop_tail;
use crate::layout::model::find_comment;
use crate::layout::model::indent;
use crate::layout::model::indent_unit;
use crate::layout::model::initial;
use crate::layout::model::is_opener;
use crate::layout::model::layout;
use crate::layout::model::line_ending;
use crate::layout::model::line_start;
use crate::layout::model::new_line;
use crate::layout::model::no_format_after_line;
use crate::layout::model::no_format_begin;
use crate::layout::model::no_format_end;
use crate::layout::model::on_branch_end;
use crate::layout::model::on_close_brace;
use crate::layout::model::on_close_bracket;
use crate::layout::model::on_code;
use crate::layout::model::on_line_break;
use crate::layout::model::on_line_start;
use crate::layout::model::on_lookback;
use crate::layout::model::on_open_brace;
use crate::layout::model::on_open_bracket;
use crate::layout::model::on_text;
use crate::layout::model::open_brace_text;
use crate::layout::model::run;
use crate::layout::model::skip_blank;
use crate::layout::model::starts_with_comment;
use crate::layout::model::step;
use crate::layout::model::strip_blank;
use crate::layout::model::strip_space;
use crate::rules::IndentationRule;
use crate::rules::NewLineOnOpenBrace;
use crate::text::chars_of;
use crate::text::is_blank;
use crate::text::is_space;
use crate::text::lemma_byte_len_is_encoded_len;
use crate::text::lemma_byte_offset_increasing;
use crate::text::push_all;
use crate::text::same_chars;

verus! {

/// The pieces of text that the pass writes again and again.
pub struct Stock {
    pub ending: Vec<char>,
    pub begin_marker: Vec<char>,
    pub end_marker: Vec<char>,
}

impl Stock {
    /// Whether the pieces are those that `cfg` asks for.
    pub open spec fn fits(&self, cfg: ConfigModel) -> bool {
        &&& self.ending@ == line_ending(cfg)
        &&& self.begin_marker@ == no_format_begin()
        &&& self.end_marker@ == no_format_end()
    }

    /// The pieces that `cfg` asks for.
    pub fn new(cfg: &Config) -> (stock: Stock)
        ensures
            stock.fits(cfg@),
    {
        let ending = match &cfg.force_line_ending {
            Some(ending) => chars_of(ending.as_str()),
            None => vec!['\n'],
        };
        assert(ending@ =~= line_ending(cfg@));
        Stock {
            ending,
            begin_marker: chars_of(" NOFORMATBEGIN"),
            end_marker: chars_of(" NOFORMATEND"),
        }
    }
}

/// Whether `c` is a space or a tab.
pub fn blank(c: char) -> (r: bool)
    ensures
        r == is_blank(c),
{
    c == ' ' || c == '\t'
}

/// Whether `c` is a blank or a line-break character.
pub fn space(c: char) -> (r: bool)
    ensures
        r == is_space(c),
{
    c == ' ' || c == '\t' || c == '\n' || c == '\r'
}

/// Appends one level of indentation to `out`.
pub fn push_indent_unit(out: &mut Vec<char>, rule: IndentationRule)
    ensures
        final(out)@ == old(out)@ + indent_unit(rule),
{
    match rule {
        IndentationRule::Tab => {
            out.push('\t');
        },
        IndentationRule::TwoSpaces => {
            out.push(' ');
            out.push(' ');
        },
        IndentationRule::FourSpaces => {
            out.push(' ');
            out.push(' ');
            out.push(' ');
            out.push(' ');
        },
    }
    assert(out@ =~= old(out)@ + indent_unit(rule));
}

/// Appends `n` levels of indentation to `out`.
pub fn push_indent(out: &mut Vec<char>, rule: IndentationRule, n: usize)
    ensures
        final(out)@ == old(out)@ + indent(rule, n as nat),
{
    let mut i: usize = 0;
    assert(out@ =~= old(out)@ + indent(rule, 0));
    while i < n
        invariant
            i <= n,
            out@ == old(out)@ + indent(rule, i as nat),
        decreases n - i,
    {
        push_indent_unit(out, rule);
        i += 1;
        assert(out@ =~= old(out)@ + indent(rule, i as nat));
    }
}

/// Appends a line break and `n` levels of indentation to `out`.
pub fn push_new_line(out: &mut Vec<char>, stock: &Stock, cfg: &Config, n: usize)
    requires
        stock.fits(cfg@),
    ensures
        final(out)@ == old(out)@ + new_line(cfg@, n as nat),
{
    push_all(out, &stock.ending);
    push_indent(out, cfg.indentation, n);
    assert(out@ =~= old(out)@ + new_line(cfg@, n as nat));
}

/// Removes the blanks at the end of `out`.
pub fn trim_blank(out: &mut Vec<char>)
    ensures
        final(out)@ == strip_blank(old(out)@),
{
    let mut n: usize = out.len();
    assert(out@.take(n as int) =~= out@);
    while n > 0 && blank(out[n - 1])
        invariant
            n <= out.len(),
            strip_blank(out@.take(n as int)) == strip_blank(out@),
        decreases n,
    {
        assert(out@.take(n as int).drop_last() =~= out@.take(n - 1));
        n -= 1;
    }
    out.truncate(n);
    assert(out@ =~= old(out)@.take(n as int));
}

/// Removes the blanks and line breaks at the end of `out`.
pub fn trim_space(out: &mut Vec<char>)
    ensures
        final(out)@ == strip_space(old(out)@),
{
    let mut n: usize = out.len();
    assert(out@.take(n as int) =~= out@);
    while n > 0 && space(out[n - 1])
        invariant
            n <= out.len(),
            strip_space(out@.take(n as int)) == strip_space(out@),
        decreases n,
    {
        assert(out@.take(n as int).drop_last() =~= out@.take(n - 1));
        n -= 1;
    }
    out.truncate(n);
    assert(out@ =~= old(out)@.take(n as int));
}

/// Removes the last `n` characters of `out`, or all where it has fewer.
pub fn trim_tail(out: &mut Vec<char>, n: usize)
    ensures
        final(out)@ == drop_tail(old(out)@, n as nat),
{
    if out.len() <= n {
        out.truncate(0);
        assert(out@ =~= Seq::<char>::empty());
    } else {
        out.truncate(out.len() - n);
        assert(out@ =~= old(out)@.take(old(out)@.len() - n));
    }
}

/// Index at which the last line of `out` starts.
pub fn last_line_start(out: &Vec<char>) -> (start: usize)
    ensures
        start == line_start(out@),
        start <= out.len(),
{
    let mut n: usize = out.len();
    assert(out@.take(n as int) =~= out@);
    while n > 0 && out[n - 1] != '\n'
        invariant
            n <= out.len(),
            line_start(out@.take(n as int)) == line_start(out@),
        decreases n,
    {
        assert(out@.take(n as int).drop_last() =~= out@.take(n - 1));
        n -= 1;
    }
    n
}

/// Index of the first character of `out` from `from` on that is not a
/// blank, or the length of `out`.
pub fn next_text(out: &Vec<char>, from: usize) -> (at: usize)
    requires
        from <= out.len(),
    ensures
        at == skip_blank(out@, from as int),
        from <= at <= out.len(),
{
    let mut i: usize = from;
    while i < out.len() && blank(out[i])
        invariant
            from <= i <= out.len(),
            skip_blank(out@, i as int) == skip_blank(out@, from as int),
        decreases out.len() - i,
    {
        i += 1;
    }
    i
}

/// Whether the first two characters of `out` from `from` on that are not
/// blanks are `//`.
pub fn line_is_comment(out: &Vec<char>, from: usize) -> (r: bool)
    requires
        from <= out.len(),
    ensures
        r == starts_with_comment(out@, from as int),
{
    let first = next_text(out, from);
    if first >= out.len() {
        return false;
    }
    let second = next_text(out, first + 1);
    second < out.len() && out[first] == '/' && out[second] == '/'
}

/// Index of the first `//` in `out` from `from` on, or the length of `out`.
pub fn comment_start(out: &Vec<char>, from: usize) -> (at: usize)
    requires
        from <= out.len(),
    ensures
        at == find_comment(out@, from as int),
        from <= at <= out.len(),
{
    let mut i: usize = from;
    while i < out.len() && i + 1 < out.len()
        invariant
            from <= i <= out.len(),
            find_comment(out@, i as int) == find_comment(out@, from as int),
        decreases out.len() - i,
    {
        if out[i] == '/' && out[i + 1] == '/' {
            return i;
        }
        i += 1;
    }
    out.len()
}

/// Number of open block comments once `c` has come after `recent`.
pub fn next_block_depth(depth: usize, recent: (char, char, char), c: char) -> (r: usize)
    requires
        depth < usize::MAX,
    ensures
        r == block_depth_after(depth as nat, recent, c),
{
    if recent.1 == '/' && recent.2 == '*' && (c == '*' || c == '!') {
        depth + 1
    } else if recent.1 == '*' && recent.2 == '/' && depth > 0 {
        depth - 1
    } else {
        depth
    }
}

/// Whether `out` ends in a character that opens a bracket pair.
pub fn ends_with_opener(out: &Vec<char>) -> (r: bool)
    ensures
        r == (out@.len() > 0 && is_opener(out@.last())),
{
    let n = out.len();
    if n == 0 {
        false
    } else {
        let last = out[n - 1];
        last == '<' || last == '[' || last == '('
    }
}

/// Takes the three characters `recent` from the end of `out`, with the
/// blanks before them, and writes them again behind `n` levels of
/// indentation.
pub fn move_directive(
    out: &mut Vec<char>,
    rule: IndentationRule,
    n: usize,
    recent: (char, char, char),
)
    ensures
        final(out)@ == strip_blank(drop_tail(old(out)@, 3)) + indent(rule, n as nat) + seq![
            recent.0,
            recent.1,
            recent.2,
        ],
{
    trim_tail(out, 3);
    trim_blank(out);
    push_indent(out, rule, n);
    let ghost indented = out@;
    out.push(recent.0);
    out.push(recent.1);
    out.push(recent.2);
    assert(out@ =~= indented + seq![recent.0, recent.1, recent.2]);
}

/// Appends `ending` and `n` levels of indentation to `out`.
pub fn push_break(out: &mut Vec<char>, ending: &Vec<char>, rule: IndentationRule, n: usize)
    ensures
        final(out)@ == old(out)@ + (ending@ + indent(rule, n as nat)),
{
    push_all(out, ending);
    push_indent(out, rule, n);
    assert(out@ =~= old(out)@ + (ending@ + indent(rule, n as nat)));
}

/// Writes an opening brace behind `out` under the rule that puts the line
/// break after it; `lead` is `ending` with `n` levels of indentation.
pub fn write_brace_after(out: &mut Vec<char>, ending: &Vec<char>, rule: IndentationRule, n: usize)
    ensures
        final(out)@ == brace_after_text(old(out)@, ending@ + indent(rule, n as nat)),
{
    let start = last_line_start(out);
    if line_is_comment(out, start) {
        push_break(out, ending, rule, n);
        out.push('{');
        assert(out@ =~= old(out)@ + (ending@ + indent(rule, n as nat)) + seq!['{']);
    } else {
        let at = comment_start(out, start);
        if at < out.len() {
            let mut comment: Vec<char> = Vec::new();
            let mut i: usize = at;
            while i < out.len()
                invariant
                    at <= i <= out.len(),
                    out@ == old(out)@,
                    comment@ =~= out@.subrange(at as int, i as int),
                decreases out.len() - i,
            {
                comment.push(out[i]);
                i += 1;
            }
            assert(comment@ =~= old(out)@.skip(at as int));
            out.truncate(at);
            trim_blank(out);
            let ghost kept = out@;
            out.push(' ');
            out.push('{');
            out.push(' ');
            push_all(out, &comment);
            assert(out@ =~= kept + seq![' ', '{', ' '] + old(out)@.skip(at as int));
        } else {
            out.push(' ');
            out.push('{');
            assert(out@ =~= old(out)@ + seq![' ', '{']);
        }
    }
}

/// Whether `out` ends in a backslash.
pub fn ends_with_backslash(out: &Vec<char>) -> (r: bool)
    ensures
        r == (out@.len() > 0 && out@.last() == '\\'),
{
    let n = out.len();
    n > 0 && out[n - 1] == '\\'
}

/// Writes what an opening brace behind `out` leaves: see
/// [`open_brace_text`], with `ending` and `n` levels of indentation for
/// `lead`, and one level more for `trail`.
pub fn write_open_brace(
    out: &mut Vec<char>,
    ending: &Vec<char>,
    indentation: IndentationRule,
    rule: NewLineOnOpenBrace,
    continued: bool,
    n: usize,
)
    requires
        n < usize::MAX,
    ensures
        final(out)@ == open_brace_text(
            old(out)@,
            rule,
            continued,
            ending@ + indent(indentation, n as nat),
            ending@ + indent(indentation, (n + 1) as nat),
        ),
{
    let ghost lead = ending@ + indent(indentation, n as nat);
    let ghost trail = ending@ + indent(indentation, (n + 1) as nat);
    trim_space(out);
    let ghost stripped = out@;
    match rule {
        NewLineOnOpenBrace::After => {
            if continued {
                if ends_with_backslash(out) {
                    out.truncate(out.len() - 1);
                    assert(out@ =~= stripped.drop_last());
                    trim_space(out);
                }
                write_brace_after(out, ending, indentation, n);
            } else {
                write_brace_after(out, ending, indentation, n);
                push_break(out, ending, indentation, n + 1);
            }
        },
        NewLineOnOpenBrace::Before => {
            if continued {
                if out.len() > 0 && !ends_with_backslash(out) {
                    out.push('\\');
                }
                let ghost base = out@;
                push_break(out, ending, indentation, n);
                out.push('{');
                out.push('\\');
                push_break(out, ending, indentation, n + 1);
                assert(out@ =~= base + lead + seq!['{', '\\'] + trail);
            } else {
                push_break(out, ending, indentation, n);
                out.push('{');
                push_break(out, ending, indentation, n + 1);
                assert(out@ =~= stripped + lead + seq!['{'] + trail);
            }
        },
    }
}

/// Writes what a closing brace behind `out` leaves; on a line that began
/// with `#` a space leads to it, elsewhere `ending` and `n` levels of
/// indentation.
pub fn write_close_brace(
    out: &mut Vec<char>,
    ending: &Vec<char>,
    rule: IndentationRule,
    on_directive: bool,
    n: usize,
)
    ensures
        final(out)@ == close_brace_text(
            old(out)@,
            if on_directive {
                seq![' ']
            } else {
                ending@ + indent(rule, n as nat)
            },
        ),
{
    trim_space(out);
    let ghost base = out@;
    if on_directive {
        out.push(' ');
        out.push('}');
        assert(out@ =~= base + seq![' '] + seq!['}']);
    } else {
        push_break(out, ending, rule, n);
        out.push('}');
        assert(out@ =~= base + (ending@ + indent(rule, n as nat)) + seq!['}']);
    }
}

/// Writes what the closing bracket `c` behind `out` leaves.
pub fn write_close_bracket(out: &mut Vec<char>, c: char, spaced: bool)
    ensures
        final(out)@ == close_bracket_text(old(out)@, c, spaced),
{
    trim_space(out);
    let empty_pair = ends_with_opener(out);
    if spaced && !empty_pair {
        out.push(' ');
    }
    out.push(c);
}

/// The state of the layout pass.
pub struct Pass {
    pub out: Vec<char>,
    pub nesting: usize,
    pub empty_lines: usize,
    pub on_new_line: bool,
    pub skip_blanks: bool,
    pub skip_ends_at_eol: bool,
    pub block_depth: usize,
    pub in_line_comment: bool,
    pub comment_line: Vec<char>,
    pub nest_on_next_line: bool,
    pub line_is_directive: bool,
    pub last_is_backslash: bool,
    pub prev_line_backslash: bool,
    pub recent: (char, char, char),
    pub no_format: bool,
}

impl View for Pass {
    type V = LayoutState;

    open spec fn view(&self) -> LayoutState {
        LayoutState {
            out: self.out@,
            nesting: self.nesting as nat,
            empty_lines: self.empty_lines as nat,
            on_new_line: self.on_new_line,
            skip_blanks: self.skip_blanks,
            skip_ends_at_eol: self.skip_ends_at_eol,
            block_depth: self.block_depth as nat,
            in_line_comment: self.in_line_comment,
            comment_line: self.comment_line@,
            nest_on_next_line: self.nest_on_next_line,
            line_is_directive: self.line_is_directive,
            last_is_backslash: self.last_is_backslash,
            prev_line_backslash: self.prev_line_backslash,
            recent: self.recent,
            no_format: self.no_format,
        }
    }
}

impl Pass {
    /// Whether every counter has room for one more.
    pub open spec fn has_room(&self) -> bool {
        &&& self.nesting < usize::MAX
        &&& self.empty_lines < usize::MAX
        &&& self.block_depth < usize::MAX
    }

    /// Whether no counter of `self` exceeds `bound`.
    pub open spec fn within(&self, bound: int) -> bool {
        &&& self.nesting <= bound
        &&& self.empty_lines <= bound
        &&& self.block_depth <= bound
    }

    /// Whether no counter of `self` is more than one above what it is in
    /// `before`.
    pub open spec fn one_more(&self, before: Pass) -> bool {
        &&& self.nesting <= before.nesting + 1
        &&& self.empty_lines <= before.empty_lines + 1
        &&& self.block_depth <= before.block_depth + 1
    }

    /// The pass before its first character.
    pub fn new() -> (pass: Pass)
        ensures
            pass@ == initial(),
            pass.within(0),
    {
        Pass {
            out: Vec::new(),
            nesting: 0,
            empty_lines: 0,
            on_new_line: true,
            skip_blanks: false,
            skip_ends_at_eol: false,
            block_depth: 0,
            in_line_comment: false,
            comment_line: Vec::new(),
            nest_on_next_line: false,
            line_is_directive: false,
            last_is_backslash: false,
            prev_line_backslash: false,
            recent: (' ', ' ', ' '),
            no_format: false,
        }
    }

    /// Whether text outside comments is copied as it is once the current
    /// line has ended.
    pub fn no_format_at_line_end(&self, stock: &Stock) -> (r: bool)
        requires
            stock.begin_marker@ == no_format_begin(),
            stock.end_marker@ == no_format_end(),
        ensures
            r == no_format_after_line(self@),
    {
        if self.in_line_comment && same_chars(&self.comment_line, &stock.begin_marker) {
            true
        } else if self.in_line_comment && same_chars(&self.comment_line, &stock.end_marker) {
            false
        } else {
            self.no_format
        }
    }

    /// Takes a line break of the source.
    pub fn line_break(&mut self, stock: &Stock, cfg: &Config)
        requires
            stock.fits(cfg@),
            old(self).has_room(),
        ensures
            final(self)@ == on_line_break(old(self)@, cfg@),
            final(self).one_more(*old(self)),
    {
        self.no_format = self.no_format_at_line_end(stock);
        self.on_new_line = true;
        if self.nest_on_next_line {
            self.nesting += 1;
            self.nest_on_next_line = false;
        }
        if self.no_format {
            push_all(&mut self.out, &stock.ending);
        } else if (!self.skip_blanks || self.skip_ends_at_eol) && self.empty_lines
            <= cfg.max_empty_lines {
            self.skip_blanks = false;
            self.skip_ends_at_eol = false;
            push_new_line(&mut self.out, stock, cfg, self.nesting);
            self.empty_lines += 1;
        }
    }

    /// Takes `c` as the first text of a line.
    pub fn line_start(&mut self, c: char, cfg: &Config)
        ensures
            final(self)@ == on_line_start(old(self)@, c, cfg@),
            final(self).one_more(*old(self)),
    {
        self.on_new_line = false;
        self.skip_blanks = false;
        self.skip_ends_at_eol = false;
        self.empty_lines = 0;
        self.line_is_directive = c == '#';
        if c == '#' {
            if !cfg.indent_preprocessor {
                trim_blank(&mut self.out);
            }
        } else if c == '=' {
            push_indent_unit(&mut self.out, cfg.indentation);
        }
        if self.block_depth > 0 && c == '*' {
            self.out.push(' ');
        }
    }

    /// Looks at the three characters before `c` for comments and
    /// directives.
    pub fn lookback(&mut self, c: char, cfg: &Config)
        requires
            old(self).has_room(),
        ensures
            final(self)@ == on_lookback(old(self)@, c, cfg@),
            final(self).one_more(*old(self)),
    {
        let r = self.recent;
        let watch = cfg.preprocessor_if_creates_nesting && cfg.indent_preprocessor
            && !self.in_line_comment && !self.no_format;
        let opens = watch && r.1 == '#' && r.2 == 'i' && c == 'f';
        let closes = watch && !opens && r.0 == '#' && r.1 == 'e' && ((r.2 == 'n' && c == 'd') || (
        r.2 == 'l' && (c == 'i' || c == 's')));
        let comment_starts = r.1 == '/' && r.2 == '/';
        if closes {
            self.branch_end(cfg);
        }
        self.block_depth = next_block_depth(self.block_depth, r, c);
        self.nest_on_next_line = self.nest_on_next_line || opens || (closes && (c == 'i' || c
            == 's'));
        if comment_starts {
            self.in_line_comment = true;
            self.comment_line.truncate(0);
            assert(self.comment_line@ =~= Seq::<char>::empty());
        }
        self.recent = (r.1, r.2, c);
    }

    /// Moves the directive that has just begun one level out.
    pub fn branch_end(&mut self, cfg: &Config)
        ensures
            final(self)@ == on_branch_end(old(self)@, cfg@),
            final(self).one_more(*old(self)),
            final(self).block_depth == old(self).block_depth,
    {
        if self.nesting > 0 {
            self.nesting -= 1;
        }
        move_directive(&mut self.out, cfg.indentation, self.nesting, self.recent);
    }

    /// Takes an opening brace outside comments.
    pub fn open_brace(&mut self, stock: &Stock, cfg: &Config)
        requires
            stock.fits(cfg@),
            old(self).has_room(),
        ensures
            final(self)@ == on_open_brace(old(self)@, cfg@),
            final(self).one_more(*old(self)),
    {
        let rule = cfg.new_line_around_braces;
        let continued = self.prev_line_backslash;
        write_open_brace(
            &mut self.out,
            &stock.ending,
            cfg.indentation,
            rule,
            continued,
            self.nesting,
        );
        self.nesting += 1;
        let ends_line = match rule {
            NewLineOnOpenBrace::Before => true,
            NewLineOnOpenBrace::After => !continued,
        };
        if ends_line {
            self.on_new_line = true;
            self.empty_lines += 1;
        }
        self.skip_blanks = true;
    }

    /// Takes a closing brace outside comments.
    pub fn close_brace(&mut self, stock: &Stock, cfg: &Config)
        requires
            stock.fits(cfg@),
        ensures
            final(self)@ == on_close_brace(old(self)@, cfg@),
            final(self).one_more(*old(self)),
    {
        if self.nesting > 0 {
            self.nesting -= 1;
        }
        write_close_brace(
            &mut self.out,
            &stock.ending,
            cfg.indentation,
            self.line_is_directive,
            self.nesting,
        );
    }

    /// Takes an opening round or square bracket `c` outside comments.
    pub fn open_bracket(&mut self, c: char, cfg: &Config)
        requires
            old(self).has_room(),
        ensures
            final(self)@ == on_open_bracket(old(self)@, c, cfg@),
            final(self).one_more(*old(self)),
    {
        self.out.push(c);
        if cfg.spaces_in_brackets {
            self.out.push(' ');
        }
        self.skip_blanks = true;
        self.skip_ends_at_eol = true;
        self.nesting += 1;
    }

    /// Takes a closing round or square bracket `c` outside comments.
    pub fn close_bracket(&mut self, c: char, cfg: &Config)
        ensures
            final(self)@ == on_close_bracket(old(self)@, c, cfg@),
            final(self).one_more(*old(self)),
    {
        if self.nesting > 0 {
            self.nesting -= 1;
        }
        write_close_bracket(&mut self.out, c, cfg.spaces_in_brackets);
    }

    /// Takes a character `c` of the code.
    pub fn code(&mut self, c: char, stock: &Stock, cfg: &Config)
        requires
            stock.fits(cfg@),
            old(self).has_room(),
        ensures
            final(self)@ == on_code(old(self)@, c, cfg@),
            final(self).one_more(*old(self)),
    {
        if c != ' ' {
            self.last_is_backslash = c == '\\';
        }
        if c == '{' {
            self.open_brace(stock, cfg);
        } else if c == '}' {
            self.close_brace(stock, cfg);
        } else if c == '[' || c == '(' {
            self.open_bracket(c, cfg);
        } else if c == ']' || c == ')' {
            self.close_bracket(c, cfg);
        } else {
            self.out.push(c);
        }
    }

    /// Takes a character `c` of the text proper.
    pub fn text(&mut self, c: char, stock: &Stock, cfg: &Config)
        requires
            stock.fits(cfg@),
            old(self).has_room(),
        ensures
            final(self)@ == on_text(old(self)@, c, cfg@),
            final(self).one_more(*old(self)),
    {
        self.lookback(c, cfg);
        if self.in_line_comment || self.block_depth > 0 {
            self.out.push(c);
            self.comment_line.push(c);
        } else if self.no_format {
            self.out.push(c);
        } else {
            self.code(c, stock, cfg);
        }
    }

    /// Takes one more character, `c`, of the source.
    pub fn step(&mut self, c: char, stock: &Stock, cfg: &Config)
        requires
            stock.fits(cfg@),
            old(self).has_room(),
        ensures
            final(self)@ == step(old(self)@, c, cfg@),
            final(self).one_more(*old(self)),
    {
        if c == '\r' {
        } else if c == '\n' {
            self.line_break(stock, cfg);
        } else if self.no_format {
            if self.on_new_line {
                self.on_new_line = false;
                self.in_line_comment = false;
                self.prev_line_backslash = self.last_is_backslash;
            }
            self.text(c, stock, cfg);
        } else if self.on_new_line {
            self.in_line_comment = false;
            self.prev_line_backslash = self.last_is_backslash;
            if !blank(c) {
                self.line_start(c, cfg);
                self.text(c, stock, cfg);
            }
        } else if self.skip_blanks {
            if !blank(c) {
                self.skip_blanks = false;
                self.skip_ends_at_eol = false;
                self.text(c, stock, cfg);
            }
        } else {
            self.text(c, stock, cfg);
        }
    }
}

/// The text that the layout pass makes of `content` under `cfg`, or the
/// reason why it makes none: a marker switched formatting off and none
/// switched it on again.
pub fn lay_out(content: &str, cfg: &Config) -> (r: Result<Vec<char>, String>)
    ensures
        match r {
            Ok(out) => layout(content@, cfg@) == Ok::<Seq<char>, Seq<char>>(out@),
            Err(msg) => layout(content@, cfg@) == Err::<Seq<char>, Seq<char>>(msg@),
        },
{
    let stock = Stock::new(cfg);
    let mut pass = Pass::new();
    let ghost text = content@;
    let bytes = content.as_bytes().len();
    proof {
        lemma_byte_len_is_encoded_len(text);
        lemma_byte_offset_increasing(text, 0, text.len() as int);
        assert(text.take(text.len() as int) =~= text);
        assert(text.take(0) =~= Seq::<char>::empty());
    }
    for c in it: content.chars()
        invariant
            it.seq() == text,
            text.len() <= usize::MAX,
            stock.fits(cfg@),
            pass@ == run(text.take(it.index() as int), cfg@),
            pass.within(it.index() as int),
    {
        proof {
            let i = it.index() as int;
            assert(text.take(i + 1).drop_last() =~= text.take(i));
        }
        pass.step(c, &stock, cfg);
    }
    if pass.no_format_at_line_end(&stock) {
        Err("NOFORMATBEGIN was found but no matching NOFORMATEND detected".to_owned())
    } else {
        Ok(pass.out)
    }
}

} // verus!
