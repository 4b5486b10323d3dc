//! What holds of every text that the layout pass writes.

use vstd::prelude::*;
use crate::config::ConfigModel;
use crate::layout::model::LayoutState;
use crate::layout::model::brace_after_text;
use crate::layout::model::close_brace_text;
use crate::layout::model::close_bracket_text;
use crate::layout::model::drop_tail;
use crate::layout::model::find_comment;
use crate::layout::model::indent;
use crate::layout::model::indent_unit;
use crate::layout::model::layout;
use crate::layout::model::line_ending;
use crate::layout::model::line_start;
use crate::layout::model::on_branch_end;
use crate::layout::model::on_code;
use crate::layout::model::on_line_break;
use crate::layout::model::on_line_start;
use crate::layout::model::on_lookback;
use crate::layout::model::on_text;
use crate::layout::model::open_brace_text;
use crate::layout::model::open_bracket_text;
use crate::layout::model::run;
use crate::layout::model::step;
use crate::layout::model::strip_blank;
use crate::layout::model::strip_space;
use crate::rules::IndentationRule;
use crate::rules::NewLineOnOpenBrace;
use crate::text::is_blank;
use crate::text::is_space;

verus! {

/// Number of line feeds at the end of `s` with nothing but blanks and
/// carriage returns between and behind them.
pub open spec fn trailing_breaks(s: Seq<char>) -> nat
    decreases s.len(),
{
    if s.len() == 0 {
        0
    } else if s.last() == '\n' {
        trailing_breaks(s.drop_last()) + 1
    } else if is_space(s.last()) {
        trailing_breaks(s.drop_last())
    } else {
        0
    }
}

/// The largest number of line feeds anywhere in `s` that have nothing but
/// blanks and carriage returns between them.
pub open spec fn longest_break_run(s: Seq<char>) -> nat
    decreases s.len(),
{
    if s.len() == 0 {
        0
    } else if longest_break_run(s.drop_last()) >= trailing_breaks(s) {
        longest_break_run(s.drop_last())
    } else {
        trailing_breaks(s)
    }
}

/// Whether `s` holds no line feed.
pub open spec fn has_no_break(s: Seq<char>) -> bool {
    forall|i: int| 0 <= i < s.len() ==> s[i] != '\n'
}

/// Whether `ending` is one of the two line endings in use: a line feed, or
/// a carriage return and a line feed.
pub open spec fn is_plain_ending(ending: Seq<char>) -> bool {
    ending == seq!['\n'] || ending == seq!['\r', '\n']
}

/// The breaks at the end of a text are among the breaks in it.
pub proof fn lemma_trailing_is_a_run(s: Seq<char>)
    ensures
        trailing_breaks(s) <= longest_break_run(s),
{
}

/// A text has no longer run of breaks than a text that it begins.
pub proof fn lemma_prefix_run(s: Seq<char>, k: int)
    requires
        0 <= k <= s.len(),
    ensures
        longest_break_run(s.take(k)) <= longest_break_run(s),
    decreases s.len() - k,
{
    if k < s.len() {
        lemma_prefix_run(s, k + 1);
        assert(s.take(k + 1).drop_last() =~= s.take(k));
    } else {
        assert(s.take(k) =~= s);
    }
}

/// One more character: a line feed adds a break, a blank or a carriage
/// return keeps the breaks, anything else ends them.
pub proof fn lemma_push(s: Seq<char>, c: char)
    ensures
        c == '\n' ==> trailing_breaks(s.push(c)) == trailing_breaks(s) + 1,
        c != '\n' && is_space(c) ==> trailing_breaks(s.push(c)) == trailing_breaks(s),
        !is_space(c) ==> trailing_breaks(s.push(c)) == 0,
        longest_break_run(s.push(c)) == if longest_break_run(s) >= trailing_breaks(s.push(c)) {
            longest_break_run(s)
        } else {
            trailing_breaks(s.push(c))
        },
        c != '\n' ==> longest_break_run(s.push(c)) == longest_break_run(s),
{
    assert(s.push(c).drop_last() =~= s);
    lemma_trailing_is_a_run(s);
}

/// Text without a line feed adds no break and lengthens no run.
pub proof fn lemma_append_no_break(s: Seq<char>, more: Seq<char>)
    requires
        has_no_break(more),
    ensures
        trailing_breaks(s + more) <= trailing_breaks(s),
        longest_break_run(s + more) == longest_break_run(s),
    decreases more.len(),
{
    if more.len() == 0 {
        assert(s + more =~= s);
    } else {
        let front = more.drop_last();
        assert(has_no_break(front));
        lemma_append_no_break(s, front);
        assert(s + more =~= (s + front).push(more.last()));
        lemma_push(s + front, more.last());
    }
}

/// Text that ends in something other than a blank or a line break ends
/// with no break.
pub proof fn lemma_ends_in_text(s: Seq<char>)
    requires
        s.len() > 0,
        !is_space(s.last()),
    ensures
        trailing_breaks(s) == 0,
{
}

/// Indentation holds no line feed.
pub proof fn lemma_indent_no_break(rule: IndentationRule, n: nat)
    ensures
        has_no_break(indent(rule, n)),
    decreases n,
{
    if n > 0 {
        lemma_indent_no_break(rule, (n - 1) as nat);
    }
}

/// Number of line feeds in `s`.
pub open spec fn count_breaks(s: Seq<char>) -> nat
    decreases s.len(),
{
    if s.len() == 0 {
        0
    } else if s.last() == '\n' {
        count_breaks(s.drop_last()) + 1
    } else {
        count_breaks(s.drop_last())
    }
}

/// Whether `ending` holds one line feed at most, so that a line ending is
/// one line break and no more.
pub open spec fn breaks_once(ending: Seq<char>) -> bool {
    count_breaks(ending) <= 1
}

/// Whether the rules end lines with one line feed at most.
pub open spec fn ends_lines_once(cfg: ConfigModel) -> bool {
    breaks_once(line_ending(cfg))
}

/// The two usual line endings hold one line feed.
pub proof fn lemma_plain_ending_breaks_once(cfg: ConfigModel)
    requires
        has_plain_ending(cfg),
    ensures
        ends_lines_once(cfg),
{
    let ending = line_ending(cfg);
    if ending == seq!['\n'] {
        assert(ending.drop_last() =~= Seq::<char>::empty());
    } else {
        assert(ending.drop_last() =~= seq!['\r']);
        assert(seq!['\r'].drop_last() =~= Seq::<char>::empty());
    }
    reveal_with_fuel(count_breaks, 3);
}

/// Text behind a text adds no more breaks than it has line feeds.
pub proof fn lemma_append_breaks(s: Seq<char>, more: Seq<char>)
    ensures
        trailing_breaks(s + more) <= trailing_breaks(s) + count_breaks(more),
        longest_break_run(s + more) <= larger(
            longest_break_run(s),
            trailing_breaks(s) + count_breaks(more),
        ),
    decreases more.len(),
{
    lemma_trailing_is_a_run(s);
    if more.len() == 0 {
        assert(s + more =~= s);
    } else {
        let front = more.drop_last();
        lemma_append_breaks(s, front);
        assert(s + more =~= (s + front).push(more.last()));
        lemma_push(s + front, more.last());
    }
}

/// A line ending and indentation behind a text add one break.
pub proof fn lemma_append_line(s: Seq<char>, ending: Seq<char>, rule: IndentationRule, n: nat)
    requires
        breaks_once(ending),
    ensures
        trailing_breaks(s + (ending + indent(rule, n))) <= trailing_breaks(s) + 1,
        longest_break_run(s + (ending + indent(rule, n))) <= if longest_break_run(s)
            >= trailing_breaks(s) + 1 {
            longest_break_run(s)
        } else {
            trailing_breaks(s) + 1
        },
{
    let broken = s + ending;
    lemma_append_breaks(s, ending);
    lemma_indent_no_break(rule, n);
    lemma_append_no_break(broken, indent(rule, n));
    assert(s + (ending + indent(rule, n)) =~= broken + indent(rule, n));
}

/// What is left when blanks are taken from the end of a text begins that
/// text.
pub proof fn lemma_strip_blank_is_prefix(s: Seq<char>)
    ensures
        strip_blank(s).len() <= s.len(),
        strip_blank(s) == s.take(strip_blank(s).len() as int),
    decreases s.len(),
{
    if s.len() > 0 && is_blank(s.last()) {
        lemma_strip_blank_is_prefix(s.drop_last());
        let k = strip_blank(s).len() as int;
        assert(s.drop_last().take(k) =~= s.take(k));
    } else {
        assert(s.take(s.len() as int) =~= s);
    }
}

/// What is left when blanks and line breaks are taken from the end of a
/// text begins that text, and is empty or ends in something else.
pub proof fn lemma_strip_space_is_prefix(s: Seq<char>)
    ensures
        strip_space(s).len() <= s.len(),
        strip_space(s) == s.take(strip_space(s).len() as int),
        strip_space(s).len() > 0 ==> !is_space(strip_space(s).last()),
        trailing_breaks(strip_space(s)) == 0,
    decreases s.len(),
{
    if s.len() > 0 && is_space(s.last()) {
        lemma_strip_space_is_prefix(s.drop_last());
        let k = strip_space(s).len() as int;
        assert(s.drop_last().take(k) =~= s.take(k));
    } else {
        assert(s.take(s.len() as int) =~= s);
    }
}

/// Taking blanks from the end of a text lengthens no run of breaks.
pub proof fn lemma_strip_blank_run(s: Seq<char>)
    ensures
        longest_break_run(strip_blank(s)) <= longest_break_run(s),
{
    lemma_strip_blank_is_prefix(s);
    lemma_prefix_run(s, strip_blank(s).len() as int);
}

/// Taking blanks and line breaks from the end of a text lengthens no run
/// of breaks and leaves no break at the end.
pub proof fn lemma_strip_space_run(s: Seq<char>)
    ensures
        longest_break_run(strip_space(s)) <= longest_break_run(s),
        trailing_breaks(strip_space(s)) == 0,
{
    lemma_strip_space_is_prefix(s);
    lemma_prefix_run(s, strip_space(s).len() as int);
}

/// No line feed stands in the last line of a text.
pub proof fn lemma_last_line_no_break(s: Seq<char>)
    ensures
        0 <= line_start(s) <= s.len(),
        forall|i: int| line_start(s) <= i < s.len() ==> s[i] != '\n',
    decreases s.len(),
{
    if s.len() > 0 && s.last() != '\n' {
        let front = s.drop_last();
        lemma_last_line_no_break(front);
        assert forall|i: int| line_start(s) <= i < s.len() implies s[i] != '\n' by {
            if i < front.len() {
                assert(front[i] == s[i]);
            }
        }
    }
}

/// A comment is found at or behind the place from which it is looked for.
pub proof fn lemma_find_comment_bounds(s: Seq<char>, from: int)
    requires
        0 <= from <= s.len(),
    ensures
        from <= find_comment(s, from) <= s.len(),
    decreases s.len() - from,
{
    if from + 1 < s.len() && !(s[from] == '/' && s[from + 1] == '/') {
        lemma_find_comment_bounds(s, from + 1);
    }
}

/// The larger of two counts.
pub open spec fn larger(a: nat, b: nat) -> nat {
    if a >= b {
        a
    } else {
        b
    }
}

/// An opening brace under the rule that puts the line break after it,
/// written behind text that ends in no blank: no run of breaks gets longer
/// than one, and none is left at the end.
pub proof fn lemma_brace_after_text(base: Seq<char>, ending: Seq<char>, rule: IndentationRule, n: nat)
    requires
        breaks_once(ending),
        base.len() > 0 ==> !is_space(base.last()),
    ensures
        longest_break_run(brace_after_text(base, ending + indent(rule, n))) <= larger(
            longest_break_run(base),
            1,
        ),
        trailing_breaks(brace_after_text(base, ending + indent(rule, n))) == 0,
{
    let lead = ending + indent(rule, n);
    let text = brace_after_text(base, lead);
    let start = line_start(base);
    lemma_last_line_no_break(base);
    lemma_find_comment_bounds(base, start);
    let at = find_comment(base, start);
    if crate::layout::model::starts_with_comment(base, start) {
        lemma_append_line(base, ending, rule, n);
        lemma_push(base + lead, '{');
        assert(text =~= (base + lead).push('{'));
        if base.len() > 0 {
            lemma_ends_in_text(base);
        }
    } else if at < base.len() {
        let kept = strip_blank(base.take(at));
        lemma_prefix_run(base, at);
        lemma_strip_blank_run(base.take(at));
        let opened = kept.push(' ').push('{').push(' ');
        lemma_push(kept, ' ');
        lemma_push(kept.push(' '), '{');
        lemma_push(kept.push(' ').push('{'), ' ');
        let rest = base.skip(at);
        assert(has_no_break(rest));
        lemma_append_no_break(opened, rest);
        assert(text =~= opened + rest);
        assert(text.last() == base.last());
        lemma_ends_in_text(text);
    } else {
        lemma_push(base, ' ');
        lemma_push(base.push(' '), '{');
        assert(text =~= base.push(' ').push('{'));
    }
}

/// An opening brace under the rule that puts the line break after it: no
/// run of breaks gets longer than one, and at most one break is left at
/// the end, none where no line break follows the brace.
pub proof fn lemma_open_brace_after(
    out: Seq<char>,
    continued: bool,
    ending: Seq<char>,
    rule: IndentationRule,
    n: nat,
)
    requires
        breaks_once(ending),
    ensures
        ({
            let text = open_brace_text(
                out,
                NewLineOnOpenBrace::After,
                continued,
                ending + indent(rule, n),
                ending + indent(rule, n + 1),
            );
            &&& longest_break_run(text) <= larger(longest_break_run(out), 1)
            &&& trailing_breaks(text) <= 1
            &&& continued ==> trailing_breaks(text) == 0
        }),
{
    let lead = ending + indent(rule, n);
    let stripped = strip_space(out);
    lemma_strip_space_run(out);
    lemma_strip_space_is_prefix(out);
    if continued {
        if stripped.len() > 0 && stripped.last() == '\\' {
            let front = stripped.drop_last();
            let base = strip_space(front);
            assert(stripped.take(stripped.len() - 1) =~= front);
            lemma_prefix_run(stripped, stripped.len() - 1);
            lemma_strip_space_run(front);
            lemma_strip_space_is_prefix(front);
            lemma_brace_after_text(base, ending, rule, n);
        } else {
            lemma_brace_after_text(stripped, ending, rule, n);
        }
    } else {
        lemma_brace_after_text(stripped, ending, rule, n);
        lemma_append_line(brace_after_text(stripped, lead), ending, rule, n + 1);
    }
}

/// An opening brace under the rule that puts the line break before it: no
/// run of breaks gets longer than one, and one break is left at the end.
pub proof fn lemma_open_brace_before(
    out: Seq<char>,
    continued: bool,
    ending: Seq<char>,
    rule: IndentationRule,
    n: nat,
)
    requires
        breaks_once(ending),
    ensures
        ({
            let text = open_brace_text(
                out,
                NewLineOnOpenBrace::Before,
                continued,
                ending + indent(rule, n),
                ending + indent(rule, n + 1),
            );
            &&& longest_break_run(text) <= larger(longest_break_run(out), 1)
            &&& trailing_breaks(text) <= 1
        }),
{
    let lead = ending + indent(rule, n);
    let trail = ending + indent(rule, n + 1);
    let stripped = strip_space(out);
    lemma_strip_space_run(out);
    lemma_strip_space_is_prefix(out);
    let base = if continued && stripped.len() > 0 && stripped.last() != '\\' {
        stripped.push('\\')
    } else {
        stripped
    };
    lemma_push(stripped, '\\');
    assert(trailing_breaks(base) == 0);
    assert(longest_break_run(base) <= longest_break_run(out));
    lemma_append_line(base, ending, rule, n);
    let led = base + lead;
    assert(longest_break_run(led) <= larger(longest_break_run(out), 1));
    lemma_push(led, '{');
    let opened = led.push('{');
    assert(trailing_breaks(opened) == 0);
    lemma_push(opened, '\\');
    let braced = if continued {
        opened.push('\\')
    } else {
        opened
    };
    assert(trailing_breaks(braced) == 0);
    assert(longest_break_run(braced) <= larger(longest_break_run(out), 1));
    lemma_append_line(braced, ending, rule, n + 1);
    let text = open_brace_text(out, NewLineOnOpenBrace::Before, continued, lead, trail);
    assert(text =~= braced + trail);
}

/// A closing brace: no run of breaks gets longer than one, and none is
/// left at the end.
pub proof fn lemma_close_brace_text(
    out: Seq<char>,
    on_directive: bool,
    ending: Seq<char>,
    rule: IndentationRule,
    n: nat,
)
    requires
        breaks_once(ending),
    ensures
        ({
            let text = close_brace_text(
                out,
                if on_directive {
                    seq![' ']
                } else {
                    ending + indent(rule, n)
                },
            );
            &&& longest_break_run(text) <= larger(longest_break_run(out), 1)
            &&& trailing_breaks(text) == 0
        }),
{
    let base = strip_space(out);
    lemma_strip_space_run(out);
    if on_directive {
        lemma_push(base, ' ');
        lemma_push(base.push(' '), '}');
        assert(close_brace_text(out, seq![' ']) =~= base.push(' ').push('}'));
    } else {
        let lead = ending + indent(rule, n);
        lemma_append_line(base, ending, rule, n);
        lemma_push(base + lead, '}');
        assert(close_brace_text(out, lead) =~= (base + lead).push('}'));
    }
}

/// A closing bracket lengthens no run of breaks and leaves none at the
/// end.
pub proof fn lemma_close_bracket_text(out: Seq<char>, c: char, spaced: bool)
    requires
        !is_space(c),
    ensures
        longest_break_run(close_bracket_text(out, c, spaced)) <= longest_break_run(out),
        trailing_breaks(close_bracket_text(out, c, spaced)) == 0,
{
    let base = strip_space(out);
    lemma_strip_space_run(out);
    lemma_push(base, ' ');
    lemma_push(base.push(' '), c);
    lemma_push(base, c);
}

/// An opening bracket lengthens no run of breaks and leaves none at the
/// end.
pub proof fn lemma_open_bracket_text(out: Seq<char>, c: char, spaced: bool)
    requires
        !is_space(c),
    ensures
        longest_break_run(open_bracket_text(out, c, spaced)) <= longest_break_run(out),
        trailing_breaks(open_bracket_text(out, c, spaced)) == 0,
{
    lemma_push(out, c);
    lemma_push(out.push(c), ' ');
}

/// Whether the configuration ends lines with a line feed, or with a
/// carriage return and a line feed.
pub open spec fn has_plain_ending(cfg: ConfigModel) -> bool {
    is_plain_ending(line_ending(cfg))
}

/// What the pass keeps true of blank lines from one character to the
/// next: no run of breaks is longer than the limit allows, the breaks at
/// the end have been counted, and the count starts anew with each text.
pub open spec fn keeps_blank_lines(s: LayoutState, limit: nat) -> bool {
    &&& longest_break_run(s.out) <= limit + 1
    &&& trailing_breaks(s.out) <= s.empty_lines
    &&& s.empty_lines <= limit + 1
    &&& !s.on_new_line ==> s.empty_lines == 0
}

/// Whether `s` is a state in which the character `c` can be taken as
/// text: `c` is no line break, a line is under way, and a blank comes only
/// behind text.
pub open spec fn takes_text(s: LayoutState, c: char, limit: nat) -> bool {
    &&& longest_break_run(s.out) <= limit + 1
    &&& s.empty_lines == 0
    &&& !s.on_new_line
    &&& c != '\n'
    &&& c != '\r'
    &&& is_blank(c) ==> trailing_breaks(s.out) == 0
}

/// Looking back moves a directive at most: it lengthens no run of breaks
/// and adds none at the end.
pub proof fn lemma_on_lookback(s: LayoutState, c: char, cfg: ConfigModel)
    ensures
        longest_break_run(on_lookback(s, c, cfg).out) <= longest_break_run(s.out),
        trailing_breaks(on_lookback(s, c, cfg).out) <= trailing_breaks(s.out),
        on_lookback(s, c, cfg).empty_lines == s.empty_lines,
        on_lookback(s, c, cfg).on_new_line == s.on_new_line,
{
    let after = on_lookback(s, c, cfg);
    if after.out != s.out {
        let moved = on_branch_end(s, cfg);
        assert(after.out == moved.out);
        let cut = drop_tail(s.out, 3);
        if s.out.len() > 3 {
            lemma_prefix_run(s.out, s.out.len() - 3);
        }
        lemma_strip_blank_run(cut);
        let kept = strip_blank(cut);
        lemma_indent_no_break(cfg.indentation, moved.nesting);
        lemma_append_no_break(kept, indent(cfg.indentation, moved.nesting));
        let indented = kept + indent(cfg.indentation, moved.nesting);
        let r = s.recent;
        lemma_push(indented, r.0);
        lemma_push(indented.push(r.0), r.1);
        lemma_push(indented.push(r.0).push(r.1), r.2);
        assert(moved.out =~= indented.push(r.0).push(r.1).push(r.2));
    }
}

/// Code keeps what the pass keeps true of blank lines.
pub proof fn lemma_on_code(s: LayoutState, c: char, cfg: ConfigModel)
    requires
        ends_lines_once(cfg),
        takes_text(s, c, cfg.max_empty_lines as nat),
    ensures
        keeps_blank_lines(on_code(s, c, cfg), cfg.max_empty_lines as nat),
{
    let ending = line_ending(cfg);
    let rule = cfg.indentation;
    if c == '{' {
        match cfg.new_line_around_braces {
            NewLineOnOpenBrace::After => {
                lemma_open_brace_after(s.out, s.prev_line_backslash, ending, rule, s.nesting);
            },
            NewLineOnOpenBrace::Before => {
                lemma_open_brace_before(s.out, s.prev_line_backslash, ending, rule, s.nesting);
            },
        }
    } else if c == '}' {
        lemma_close_brace_text(s.out, s.line_is_directive, ending, rule, if s.nesting > 0 {
            (s.nesting - 1) as nat
        } else {
            0
        });
    } else if c == '[' || c == '(' {
        lemma_open_bracket_text(s.out, c, cfg.spaces_in_brackets);
    } else if c == ']' || c == ')' {
        lemma_close_bracket_text(s.out, c, cfg.spaces_in_brackets);
    } else {
        lemma_push(s.out, c);
    }
}

/// Text keeps what the pass keeps true of blank lines.
pub proof fn lemma_on_text(s: LayoutState, c: char, cfg: ConfigModel)
    requires
        ends_lines_once(cfg),
        takes_text(s, c, cfg.max_empty_lines as nat),
    ensures
        keeps_blank_lines(on_text(s, c, cfg), cfg.max_empty_lines as nat),
{
    let s1 = on_lookback(s, c, cfg);
    lemma_on_lookback(s, c, cfg);
    if s1.in_line_comment || s1.block_depth > 0 || s1.no_format {
        lemma_push(s1.out, c);
    } else {
        lemma_on_code(s1, c, cfg);
    }
}

/// The first text of a line leaves a state that takes it as text.
pub proof fn lemma_on_line_start(s: LayoutState, c: char, cfg: ConfigModel)
    requires
        longest_break_run(s.out) <= cfg.max_empty_lines + 1,
        !is_space(c),
    ensures
        takes_text(on_line_start(s, c, cfg), c, cfg.max_empty_lines as nat),
{
    lemma_strip_blank_run(s.out);
    lemma_indent_no_break(cfg.indentation, 1);
    assert(indent(cfg.indentation, 1) =~= indent_unit(cfg.indentation)) by {
        assert(indent(cfg.indentation, 0) =~= Seq::<char>::empty());
    }
    lemma_append_no_break(s.out, indent_unit(cfg.indentation));
    lemma_push(s.out, ' ');
    lemma_push(strip_blank(s.out), ' ');
    lemma_push(s.out + indent_unit(cfg.indentation), ' ');
}

/// A line break behind which formatting is switched on keeps what the
/// pass keeps true of blank lines.
pub proof fn lemma_on_line_break(s: LayoutState, cfg: ConfigModel)
    requires
        ends_lines_once(cfg),
        keeps_blank_lines(s, cfg.max_empty_lines as nat),
        !on_line_break(s, cfg).no_format,
    ensures
        keeps_blank_lines(on_line_break(s, cfg), cfg.max_empty_lines as nat),
{
    let after = on_line_break(s, cfg);
    lemma_append_line(s.out, line_ending(cfg), cfg.indentation, after.nesting);
}

/// Every character before and behind which formatting is switched on
/// keeps what the pass keeps true of blank lines.
pub proof fn lemma_step(s: LayoutState, c: char, cfg: ConfigModel)
    requires
        ends_lines_once(cfg),
        keeps_blank_lines(s, cfg.max_empty_lines as nat),
        !s.no_format,
        !step(s, c, cfg).no_format,
    ensures
        keeps_blank_lines(step(s, c, cfg), cfg.max_empty_lines as nat),
{
    if c == '\r' {
    } else if c == '\n' {
        lemma_on_line_break(s, cfg);
    } else if s.on_new_line {
        let s1 = LayoutState {
            in_line_comment: false,
            prev_line_backslash: s.last_is_backslash,
            ..s
        };
        if !is_blank(c) {
            lemma_on_line_start(s1, c, cfg);
            lemma_on_text(on_line_start(s1, c, cfg), c, cfg);
        }
    } else if s.skip_blanks {
        if !is_blank(c) {
            lemma_on_text(
                LayoutState { skip_blanks: false, skip_ends_at_eol: false, ..s },
                c,
                cfg,
            );
        }
    } else {
        lemma_on_text(s, c, cfg);
    }
}

/// Whether formatting stays switched on all through `text`: no line
/// comment that consists of the marker for it switches it off.
pub open spec fn stays_formatted(text: Seq<char>, cfg: ConfigModel) -> bool {
    forall|k: int| 0 <= k <= text.len() ==> !(#[trigger] run(text.take(k), cfg)).no_format
}

/// If formatting stays switched on through a text, it does so through
/// what begins that text.
pub proof fn lemma_stays_formatted_prefix(text: Seq<char>, n: int, cfg: ConfigModel)
    requires
        stays_formatted(text, cfg),
        0 <= n <= text.len(),
    ensures
        stays_formatted(text.take(n), cfg),
        !run(text.take(n), cfg).no_format,
{
    assert forall|k: int| 0 <= k <= n implies !(#[trigger] run(text.take(n).take(k), cfg)).no_format by {
        assert(text.take(n).take(k) =~= text.take(k));
    }
}

/// Whatever the text, the pass keeps what it keeps true of blank lines as
/// long as formatting stays switched on.
pub proof fn lemma_run(text: Seq<char>, cfg: ConfigModel)
    requires
        ends_lines_once(cfg),
        stays_formatted(text, cfg),
    ensures
        keeps_blank_lines(run(text, cfg), cfg.max_empty_lines as nat),
    decreases text.len(),
{
    if text.len() > 0 {
        let front = text.drop_last();
        assert(front =~= text.take(text.len() - 1));
        assert(text =~= text.take(text.len() as int));
        lemma_stays_formatted_prefix(text, text.len() - 1, cfg);
        lemma_stays_formatted_prefix(text, text.len() as int, cfg);
        lemma_run(front, cfg);
        lemma_step(run(front, cfg), text.last(), cfg);
    }
}

/// Blank lines are capped: whatever the limit, whatever the line ending as
/// long as it holds one line feed at most, and whatever the source through
/// which formatting stays switched on, the text that the layout pass writes
/// never has more than the limit and one line feeds with nothing but blanks
/// and carriage returns between them. Where formatting is switched off, the
/// blank lines of the source are copied, however many.
pub proof fn lemma_blank_lines_are_capped(text: Seq<char>, cfg: ConfigModel)
    requires
        ends_lines_once(cfg),
        stays_formatted(text, cfg),
    ensures
        longest_break_run(run(text, cfg).out) <= cfg.max_empty_lines + 1,
        layout(text, cfg) matches Ok(out) ==> longest_break_run(out) <= cfg.max_empty_lines + 1,
{
    lemma_run(text, cfg);
}

/// Line feeds that stand side by side are breaks with nothing between
/// them.
pub proof fn lemma_adjacent_line_feeds(s: Seq<char>, from: int, count: nat)
    requires
        0 <= from,
        from + count <= s.len(),
        forall|i: int| from <= i < from + count ==> s[i] == '\n',
    ensures
        count <= longest_break_run(s),
    decreases count,
{
    if count > 0 {
        let upto = s.take(from + count);
        lemma_prefix_run(s, from + count);
        lemma_trailing_is_a_run(upto);
        lemma_line_feeds_at_end(upto, count);
    }
}

/// A text that ends in `count` line feeds ends in as many breaks at least.
pub proof fn lemma_line_feeds_at_end(s: Seq<char>, count: nat)
    requires
        count <= s.len(),
        forall|i: int| s.len() - count <= i < s.len() ==> s[i] == '\n',
    ensures
        count <= trailing_breaks(s),
    decreases count,
{
    if count > 0 {
        let front = s.drop_last();
        assert forall|i: int| front.len() - (count - 1) <= i < front.len() implies front[i]
            == '\n' by {
            assert(front[i] == s[i]);
        }
        lemma_line_feeds_at_end(front, (count - 1) as nat);
    }
}

/// Line feeds in a row are capped: the text that the layout pass writes
/// of a source through which formatting stays switched on never has more
/// than the limit and one line feeds side by side.
pub proof fn lemma_line_feeds_in_a_row_are_capped(
    text: Seq<char>,
    cfg: ConfigModel,
    from: int,
    count: nat,
)
    requires
        ends_lines_once(cfg),
        stays_formatted(text, cfg),
        0 <= from,
        from + count <= run(text, cfg).out.len(),
        forall|i: int| from <= i < from + count ==> run(text, cfg).out[i] == '\n',
    ensures
        count <= cfg.max_empty_lines + 1,
{
    lemma_run(text, cfg);
    lemma_adjacent_line_feeds(run(text, cfg).out, from, count);
}

} // verus!
