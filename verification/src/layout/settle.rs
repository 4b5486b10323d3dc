//! What a second layout pass makes of what a first one wrote.
//!
//! For code without comments and continued lines, and without directives
//! where the rules let directives nest, a second pass reads the text of the
//! first as the first would read it and so writes it again unchanged. The
//! proof follows the first pass character by character and keeps track of
//! what a pass would make of the text written so far.
//!
//! The law does not reach further. A brace behind a line that ends in a
//! comment is moved before that comment by the first pass and to a line of
//! its own by the second; a brace behind a continued line and a directive
//! that nests behave alike.

use vstd::prelude::*;
use crate::config::ConfigModel;
use crate::layout::braces::is_plain_code;
use crate::layout::braces::lemma_indent_is_filler;
use crate::layout::braces::lemma_line_start_bounds;
use crate::layout::braces::lemma_no_comment;
use crate::layout::braces::lemma_no_comment_start;
use crate::layout::braces::lemma_strip_blank_of_blanks;
use crate::layout::laws::has_plain_ending;
use crate::layout::laws::keeps_blank_lines;
use crate::layout::laws::lemma_plain_ending_breaks_once;
use crate::layout::laws::lemma_run;
use crate::layout::laws::stays_formatted;
use crate::layout::laws::lemma_step;
use crate::layout::laws::lemma_strip_blank_is_prefix;
use crate::layout::laws::lemma_strip_space_is_prefix;
use crate::layout::model::LayoutState;
use crate::layout::model::brace_after_text;
use crate::layout::model::close_brace_text;
use crate::layout::model::close_bracket_text;
use crate::layout::model::directives_nest;
use crate::layout::model::indent;
use crate::layout::model::indent_unit;
use crate::layout::model::initial;
use crate::layout::model::layout;
use crate::layout::model::line_ending;
use crate::layout::model::line_start;
use crate::layout::model::new_line;
use crate::layout::model::on_line_break;
use crate::layout::model::one_less;
use crate::layout::model::open_brace_text;
use crate::layout::model::open_bracket_text;
use crate::layout::model::run;
use crate::layout::model::step;
use crate::layout::model::strip_blank;
use crate::layout::model::strip_space;
use crate::rules::NewLineOnOpenBrace;
use crate::text::is_blank;
use crate::text::is_space;

verus! {

/// Whether the pass has met neither a comment nor a continued line nor a
/// directive that nests.
pub open spec fn is_quiet(s: LayoutState, cfg: ConfigModel) -> bool {
    &&& !s.in_line_comment
    &&& s.block_depth == 0
    &&& !s.no_format
    &&& !s.last_is_backslash
    &&& !s.prev_line_backslash
    &&& !s.nest_on_next_line
    &&& s.recent.0 != '/'
    &&& s.recent.1 != '/'
    &&& s.recent.2 != '/'
    &&& s.skip_ends_at_eol ==> s.skip_blanks
    &&& directives_nest(cfg) ==> s.recent.0 != '#' && s.recent.1 != '#' && s.recent.2 != '#'
}

/// Whether `c` starts neither a comment nor a continued line nor, where
/// directives nest, a directive.
pub open spec fn is_plain_char(c: char, cfg: ConfigModel) -> bool {
    c != '/' && c != '\\' && (directives_nest(cfg) ==> c != '#')
}

/// Whether `text` is code without comments and continued lines and, where
/// directives nest, without directives.
pub open spec fn is_plain_source(text: Seq<char>, cfg: ConfigModel) -> bool {
    &&& is_plain_code(text)
    &&& directives_nest(cfg) ==> forall|i: int| 0 <= i < text.len() ==> text[i] != '#'
}

/// A plain character leaves the pass quiet.
pub proof fn lemma_quiet_step(s: LayoutState, c: char, cfg: ConfigModel)
    requires
        is_quiet(s, cfg),
        is_plain_char(c, cfg),
    ensures
        is_quiet(step(s, c, cfg), cfg),
{
}

/// Plain code leaves the pass quiet.
pub proof fn lemma_quiet_run(text: Seq<char>, cfg: ConfigModel)
    requires
        is_plain_source(text, cfg),
    ensures
        is_quiet(run(text, cfg), cfg),
    decreases text.len(),
{
    if text.len() > 0 {
        let front = text.drop_last();
        assert(is_plain_source(front, cfg));
        lemma_quiet_run(front, cfg);
        lemma_quiet_step(run(front, cfg), text.last(), cfg);
    }
}

/// Formatting stays switched on all through plain code.
pub proof fn lemma_plain_stays_formatted(text: Seq<char>, cfg: ConfigModel)
    requires
        is_plain_source(text, cfg),
    ensures
        stays_formatted(text, cfg),
{
    assert forall|k: int| 0 <= k <= text.len() implies !(#[trigger] run(text.take(k), cfg)).no_format by {
        assert(is_plain_source(text.take(k), cfg));
        lemma_quiet_run(text.take(k), cfg);
    }
}

/// Whether a pass that is in state `again` goes on as one in state `first`
/// does: both have written the same and count the same, and where `first`
/// knows that its line began with `#`, so does `again`.
pub open spec fn follows(again: LayoutState, first: LayoutState) -> bool {
    &&& again.out == first.out
    &&& again.nesting == first.nesting
    &&& again.empty_lines == first.empty_lines
    &&& again.on_new_line == first.on_new_line
    &&& again.skip_blanks == first.skip_blanks
    &&& again.skip_ends_at_eol == first.skip_ends_at_eol
    &&& first.line_is_directive && !first.on_new_line ==> again.line_is_directive
}

/// A character other than a closing brace keeps two quiet passes together.
pub proof fn lemma_follows_step(again: LayoutState, first: LayoutState, c: char, cfg: ConfigModel)
    requires
        is_quiet(again, cfg),
        is_quiet(first, cfg),
        follows(again, first),
        is_plain_char(c, cfg),
        c != '}',
    ensures
        follows(step(again, c, cfg), step(first, c, cfg)),
{
}

/// The pass takes a text with one more character by taking the text and
/// then the character.
pub proof fn lemma_run_push(x: Seq<char>, c: char, cfg: ConfigModel)
    ensures
        run(x.push(c), cfg) == step(run(x, cfg), c, cfg),
{
    assert(x.push(c).drop_last() =~= x);
}

/// Blanks at the start of a line, or where blanks are swallowed, leave a
/// quiet pass as it is.
pub proof fn lemma_run_blanks(x: Seq<char>, blanks: Seq<char>, cfg: ConfigModel)
    requires
        is_quiet(run(x, cfg), cfg),
        run(x, cfg).on_new_line || run(x, cfg).skip_blanks,
        forall|i: int| 0 <= i < blanks.len() ==> is_blank(#[trigger] blanks[i]),
    ensures
        run(x + blanks, cfg) == run(x, cfg),
    decreases blanks.len(),
{
    if blanks.len() == 0 {
        assert(x + blanks =~= x);
    } else {
        let front = blanks.drop_last();
        lemma_run_blanks(x, front, cfg);
        assert(x + blanks =~= (x + front).push(blanks.last()));
        lemma_run_push(x + front, blanks.last(), cfg);
        assert(is_blank(blanks.last()));
        assert(step(run(x, cfg), blanks.last(), cfg) =~= run(x, cfg));
    }
}

/// A line ending is taken as one line break.
pub proof fn lemma_run_ending(x: Seq<char>, cfg: ConfigModel)
    requires
        has_plain_ending(cfg),
    ensures
        run(x + line_ending(cfg), cfg) == on_line_break(run(x, cfg), cfg),
{
    let ending = line_ending(cfg);
    if ending == seq!['\n'] {
        assert(x + ending =~= x.push('\n'));
        lemma_run_push(x, '\n', cfg);
    } else {
        assert(x + ending =~= x.push('\r').push('\n'));
        lemma_run_push(x, '\r', cfg);
        lemma_run_push(x.push('\r'), '\n', cfg);
    }
}

/// A line ending with indentation behind it is taken as one line break by
/// a quiet pass.
pub proof fn lemma_run_new_line(x: Seq<char>, n: nat, cfg: ConfigModel)
    requires
        has_plain_ending(cfg),
        is_quiet(run(x, cfg), cfg),
    ensures
        run(x + new_line(cfg, n), cfg) == on_line_break(run(x, cfg), cfg),
{
    let ended = x + line_ending(cfg);
    lemma_run_ending(x, cfg);
    crate::layout::braces::lemma_indent_is_filler(cfg.indentation, n);
    lemma_run_blanks(ended, indent(cfg.indentation, n), cfg);
    assert(x + new_line(cfg, n) =~= ended + indent(cfg.indentation, n));
}

/// What a quiet pass makes of a closing brace.
pub proof fn lemma_step_close_brace(q: LayoutState, cfg: ConfigModel)
    requires
        is_quiet(q, cfg),
    ensures
        ({
            let after = step(q, '}', cfg);
            let on_directive = !q.on_new_line && q.line_is_directive;
            &&& after.out == close_brace_text(
                q.out,
                if on_directive {
                    seq![' ']
                } else {
                    new_line(cfg, one_less(q.nesting))
                },
            )
            &&& after.nesting == one_less(q.nesting)
            &&& !after.on_new_line
            &&& !after.skip_blanks
            &&& !after.skip_ends_at_eol
            &&& after.empty_lines == if q.on_new_line {
                0
            } else {
                q.empty_lines
            }
            &&& after.line_is_directive == on_directive
        }),
{
}

/// What a quiet pass makes of a closing bracket.
pub proof fn lemma_step_close_bracket(q: LayoutState, c: char, cfg: ConfigModel)
    requires
        is_quiet(q, cfg),
        c == ')' || c == ']',
    ensures
        ({
            let after = step(q, c, cfg);
            &&& after.out == close_bracket_text(q.out, c, cfg.spaces_in_brackets)
            &&& after.nesting == one_less(q.nesting)
            &&& !after.on_new_line
            &&& !after.skip_blanks
            &&& !after.skip_ends_at_eol
            &&& after.empty_lines == if q.on_new_line {
                0
            } else {
                q.empty_lines
            }
            &&& after.line_is_directive == (!q.on_new_line && q.line_is_directive)
        }),
{
}

/// What a quiet pass makes of an opening brace.
pub proof fn lemma_step_open_brace(q: LayoutState, cfg: ConfigModel)
    requires
        is_quiet(q, cfg),
    ensures
        ({
            let after = step(q, '{', cfg);
            &&& after.out == open_brace_text(
                q.out,
                cfg.new_line_around_braces,
                false,
                new_line(cfg, q.nesting),
                new_line(cfg, q.nesting + 1),
            )
            &&& after.nesting == q.nesting + 1
            &&& after.on_new_line
            &&& after.skip_blanks
            &&& !after.skip_ends_at_eol
            &&& after.empty_lines == if q.on_new_line {
                1
            } else {
                q.empty_lines + 1
            }
            &&& after.line_is_directive == (!q.on_new_line && q.line_is_directive)
        }),
{
}

/// Whether `w` holds nothing but blanks and line breaks.
pub open spec fn is_white(w: Seq<char>) -> bool {
    forall|i: int| 0 <= i < w.len() ==> is_space(#[trigger] w[i])
}

/// Blanks and line breaks behind a text change nothing of what is left
/// when they are taken from its end.
pub proof fn lemma_strip_space_white(x: Seq<char>, w: Seq<char>)
    requires
        is_white(w),
    ensures
        strip_space(x + w) == strip_space(x),
    decreases w.len(),
{
    if w.len() == 0 {
        assert(x + w =~= x);
    } else {
        let front = w.drop_last();
        assert(is_white(front));
        lemma_strip_space_white(x, front);
        assert((x + w).drop_last() =~= x + front);
        assert(is_space(w.last()));
    }
}

/// A line break with its indentation is nothing but blanks and line
/// breaks.
pub proof fn lemma_new_line_is_white(cfg: ConfigModel, n: nat)
    requires
        has_plain_ending(cfg),
    ensures
        is_white(new_line(cfg, n)),
        is_plain_source(new_line(cfg, n), cfg),
{
    lemma_indent_is_filler(cfg.indentation, n);
}

/// What the first pass keeps true so that a second one changes nothing.
/// It is quiet and has written plain code. A pass over what it has written
/// goes on as it does, and so does one over that text without the blanks
/// at its end, where a line has just begun. A pass over that text without
/// the blanks and line breaks at its end has written that text, with
/// nothing but blanks and line breaks behind it, has the same nesting, and
/// is within a line where the first pass is.
pub open spec fn is_settled(s: LayoutState, cfg: ConfigModel) -> bool {
    let again = run(s.out, cfg);
    let base = strip_space(s.out);
    let rest = run(base, cfg);
    &&& is_quiet(s, cfg)
    &&& is_plain_source(s.out, cfg)
    &&& keeps_blank_lines(s, cfg.max_empty_lines as nat)
    &&& s.skip_blanks && !s.skip_ends_at_eol ==> s.on_new_line
    &&& follows(again, s)
    &&& s.on_new_line ==> follows(run(strip_blank(s.out), cfg), s)
    &&& strip_space(rest.out) == base
    &&& rest.nesting == s.nesting
    &&& !s.on_new_line ==> !rest.on_new_line && (s.line_is_directive ==> rest.line_is_directive)
}

/// What begins plain code is plain code.
pub proof fn lemma_plain_prefix(x: Seq<char>, k: int, cfg: ConfigModel)
    requires
        is_plain_source(x, cfg),
        0 <= k <= x.len(),
    ensures
        is_plain_source(x.take(k), cfg),
{
}

/// Plain code without the blanks and line breaks at its end is plain code.
pub proof fn lemma_plain_base(x: Seq<char>, cfg: ConfigModel)
    requires
        is_plain_source(x, cfg),
    ensures
        is_plain_source(strip_space(x), cfg),
        is_plain_source(strip_blank(x), cfg),
{
    lemma_strip_space_is_prefix(x);
    lemma_strip_blank_is_prefix(x);
    lemma_plain_prefix(x, strip_space(x).len() as int, cfg);
    lemma_plain_prefix(x, strip_blank(x).len() as int, cfg);
}

/// A line break in the source keeps the first pass settled.
pub proof fn lemma_settled_break(s: LayoutState, cfg: ConfigModel)
    requires
        has_plain_ending(cfg),
        is_settled(s, cfg),
    ensures
        is_settled(step(s, '\n', cfg), cfg),
{
    let after = step(s, '\n', cfg);
    let out = s.out;
    lemma_quiet_step(s, '\n', cfg);
    lemma_plain_ending_breaks_once(cfg);
    lemma_step(s, '\n', cfg);
    if after.out == out {
        assert(s.on_new_line);
        assert(after =~= s);
    } else {
        let n = s.nesting;
        let again = run(out, cfg);
        lemma_quiet_run(out, cfg);
        lemma_new_line_is_white(cfg, n);
        assert(after.out == out + new_line(cfg, n));
        assert(is_plain_source(after.out, cfg));
        lemma_run_new_line(out, n, cfg);
        lemma_follows_step(again, s, '\n', cfg);
        let ended = out + line_ending(cfg);
        lemma_indent_is_filler(cfg.indentation, n);
        assert(after.out =~= ended + indent(cfg.indentation, n));
        lemma_strip_blank_of_blanks(ended, indent(cfg.indentation, n));
        lemma_run_ending(out, cfg);
        lemma_strip_space_white(out, new_line(cfg, n));
    }
}

/// The pass is settled before its first character.
pub proof fn lemma_settled_at_first(cfg: ConfigModel)
    ensures
        is_settled(initial(), cfg),
{
    let none = Seq::<char>::empty();
    assert(initial().out =~= none);
    assert(strip_space(none) =~= none);
    assert(strip_blank(none) =~= none);
    assert(run(none, cfg) == initial());
    reveal_with_fuel(crate::layout::laws::trailing_breaks, 2);
    reveal_with_fuel(crate::layout::laws::longest_break_run, 2);
}

/// A blank keeps the first pass settled.
pub proof fn lemma_settled_blank(s: LayoutState, c: char, cfg: ConfigModel)
    requires
        has_plain_ending(cfg),
        is_settled(s, cfg),
        is_blank(c),
    ensures
        is_settled(step(s, c, cfg), cfg),
{
    let after = step(s, c, cfg);
    lemma_quiet_step(s, c, cfg);
    lemma_plain_ending_breaks_once(cfg);
    lemma_step(s, c, cfg);
    if s.on_new_line || s.skip_blanks {
        assert(after =~= s);
    } else {
        let out = s.out;
        assert(after.out == out.push(c));
        lemma_quiet_run(out, cfg);
        lemma_run_push(out, c, cfg);
        lemma_follows_step(run(out, cfg), s, c, cfg);
        assert(out.push(c).drop_last() =~= out);
        assert(strip_space(after.out) == strip_space(out));
    }
}

/// A character of text that is neither a brace nor a bracket keeps the
/// first pass settled.
pub proof fn lemma_settled_char(s: LayoutState, c: char, cfg: ConfigModel)
    requires
        has_plain_ending(cfg),
        is_settled(s, cfg),
        is_plain_char(c, cfg),
        !is_space(c),
        c != '{',
        c != '}',
        c != '(',
        c != ')',
        c != '[',
        c != ']',
    ensures
        is_settled(step(s, c, cfg), cfg),
{
    let after = step(s, c, cfg);
    let out = s.out;
    lemma_quiet_step(s, c, cfg);
    lemma_plain_ending_breaks_once(cfg);
    lemma_step(s, c, cfg);
    lemma_quiet_run(out, cfg);
    let again = run(out, cfg);
    if s.on_new_line && c == '=' {
        let unit = indent_unit(cfg.indentation);
        lemma_indent_is_filler(cfg.indentation, 1);
        assert(indent(cfg.indentation, 1) =~= unit) by {
            assert(indent(cfg.indentation, 0) =~= Seq::<char>::empty());
        }
        assert(after.out == (out + unit).push(c));
        lemma_run_blanks(out, unit, cfg);
        lemma_run_push(out + unit, c, cfg);
        lemma_follows_step(again, s, c, cfg);
    } else if s.on_new_line && c == '#' && !cfg.indent_preprocessor {
        let kept = strip_blank(out);
        lemma_plain_base(out, cfg);
        lemma_quiet_run(kept, cfg);
        assert(after.out == kept.push(c));
        lemma_run_push(kept, c, cfg);
        lemma_follows_step(run(kept, cfg), s, c, cfg);
    } else {
        assert(after.out == out.push(c));
        lemma_run_push(out, c, cfg);
        lemma_follows_step(again, s, c, cfg);
    }
    assert(after.out.len() > 0 && after.out.last() == c);
    assert(strip_space(after.out) == after.out);
}

/// An opening bracket keeps the first pass settled.
pub proof fn lemma_settled_open_bracket(s: LayoutState, c: char, cfg: ConfigModel)
    requires
        has_plain_ending(cfg),
        is_settled(s, cfg),
        c == '(' || c == '[',
    ensures
        is_settled(step(s, c, cfg), cfg),
{
    let after = step(s, c, cfg);
    let out = s.out;
    lemma_quiet_step(s, c, cfg);
    lemma_plain_ending_breaks_once(cfg);
    lemma_step(s, c, cfg);
    lemma_quiet_run(out, cfg);
    let again = run(out, cfg);
    let opened = out.push(c);
    assert(after.out == open_bracket_text(out, c, cfg.spaces_in_brackets));
    lemma_run_push(out, c, cfg);
    lemma_follows_step(again, s, c, cfg);
    let first = run(opened, cfg);
    assert(follows(first, after));
    assert(is_plain_source(opened, cfg));
    lemma_quiet_run(opened, cfg);
    assert(strip_space(opened) == opened);
    if cfg.spaces_in_brackets {
        lemma_run_push(opened, ' ', cfg);
        assert(step(first, ' ', cfg) =~= first);
        assert(opened.push(' ').drop_last() =~= opened);
        assert(strip_space(after.out) == opened);
    }
}

/// What a quiet pass makes of a space: it writes it or swallows it, and
/// stays where it is.
pub proof fn lemma_step_space(q: LayoutState, cfg: ConfigModel)
    requires
        is_quiet(q, cfg),
    ensures
        ({
            let after = step(q, ' ', cfg);
            &&& is_quiet(after, cfg)
            &&& strip_space(after.out) == strip_space(q.out)
            &&& after.nesting == q.nesting
            &&& after.on_new_line == q.on_new_line
            &&& after.line_is_directive == q.line_is_directive
        }),
{
    assert(q.out.push(' ').drop_last() =~= q.out);
}

/// What a quiet pass makes of a line break: it writes one or swallows it,
/// and stands at the start of a line.
pub proof fn lemma_step_break(q: LayoutState, cfg: ConfigModel)
    requires
        is_quiet(q, cfg),
        has_plain_ending(cfg),
    ensures
        ({
            let after = on_line_break(q, cfg);
            &&& is_quiet(after, cfg)
            &&& strip_space(after.out) == strip_space(q.out)
            &&& after.nesting == q.nesting
            &&& after.on_new_line
        }),
{
    lemma_new_line_is_white(cfg, q.nesting);
    lemma_strip_space_white(q.out, new_line(cfg, q.nesting));
}

/// A closing bracket keeps the first pass settled.
pub proof fn lemma_settled_close_bracket(s: LayoutState, c: char, cfg: ConfigModel)
    requires
        has_plain_ending(cfg),
        is_settled(s, cfg),
        c == ')' || c == ']',
    ensures
        is_settled(step(s, c, cfg), cfg),
{
    let after = step(s, c, cfg);
    let out = s.out;
    let base = strip_space(out);
    let rest = run(base, cfg);
    lemma_quiet_step(s, c, cfg);
    lemma_plain_ending_breaks_once(cfg);
    lemma_step(s, c, cfg);
    lemma_step_close_bracket(s, c, cfg);
    lemma_plain_base(out, cfg);
    lemma_quiet_run(base, cfg);
    let padded = after.out != base.push(c);
    let before = if padded {
        base.push(' ')
    } else {
        base
    };
    let q = run(before, cfg);
    if padded {
        assert(after.out == base.push(' ').push(c));
        lemma_run_push(base, ' ', cfg);
        lemma_step_space(rest, cfg);
    }
    assert(is_plain_source(before, cfg));
    lemma_plain_stays_formatted(before, cfg);
    lemma_plain_ending_breaks_once(cfg);
    lemma_run(before, cfg);
    lemma_run_push(before, c, cfg);
    lemma_step_close_bracket(q, c, cfg);
    assert(after.out == before.push(c));
    assert(strip_space(after.out) == after.out);
}

/// A closing brace keeps the first pass settled.
pub proof fn lemma_settled_close_brace(s: LayoutState, cfg: ConfigModel)
    requires
        has_plain_ending(cfg),
        is_settled(s, cfg),
    ensures
        is_settled(step(s, '}', cfg), cfg),
{
    let after = step(s, '}', cfg);
    let out = s.out;
    let base = strip_space(out);
    let rest = run(base, cfg);
    lemma_quiet_step(s, '}', cfg);
    lemma_plain_ending_breaks_once(cfg);
    lemma_step(s, '}', cfg);
    lemma_step_close_brace(s, cfg);
    lemma_plain_base(out, cfg);
    lemma_quiet_run(base, cfg);
    let level = one_less(s.nesting);
    let on_directive = !s.on_new_line && s.line_is_directive;
    let before = if on_directive {
        base.push(' ')
    } else {
        base + new_line(cfg, level)
    };
    let q = run(before, cfg);
    lemma_new_line_is_white(cfg, level);
    if on_directive {
        lemma_run_push(base, ' ', cfg);
        lemma_step_space(rest, cfg);
        assert(after.out =~= before.push('}'));
    } else {
        lemma_run_new_line(base, level, cfg);
        lemma_step_break(rest, cfg);
        assert(after.out =~= before.push('}'));
    }
    assert(is_plain_source(before, cfg));
    lemma_plain_stays_formatted(before, cfg);
    lemma_plain_ending_breaks_once(cfg);
    lemma_run(before, cfg);
    lemma_run_push(before, '}', cfg);
    lemma_step_close_brace(q, cfg);
    assert(strip_space(after.out) == after.out);
}

/// Behind plain code an opening brace joins the line, whatever the line
/// break that would lead to it.
pub proof fn lemma_brace_joins_plain_code(base: Seq<char>, lead: Seq<char>)
    requires
        is_plain_code(base),
    ensures
        brace_after_text(base, lead) == base + seq![' ', '{'],
{
    lemma_line_start_bounds(base);
    lemma_no_comment(base, line_start(base));
    lemma_no_comment_start(base, line_start(base));
}

/// The text up to and with an opening brace that is written behind `base`
/// at nesting `n`.
pub open spec fn braced_text(base: Seq<char>, cfg: ConfigModel, n: nat) -> Seq<char> {
    match cfg.new_line_around_braces {
        NewLineOnOpenBrace::After => base.push(' ').push('{'),
        NewLineOnOpenBrace::Before => (base + new_line(cfg, n)).push('{'),
    }
}

/// What an opening brace behind plain code leaves: the text up to and with
/// the brace, and a line break one level further in.
pub proof fn lemma_open_brace_on_plain_code(out: Seq<char>, cfg: ConfigModel, n: nat)
    requires
        is_plain_source(out, cfg),
    ensures
        open_brace_text(
            out,
            cfg.new_line_around_braces,
            false,
            new_line(cfg, n),
            new_line(cfg, n + 1),
        ) == braced_text(strip_space(out), cfg, n) + new_line(cfg, n + 1),
{
    let base = strip_space(out);
    lemma_plain_base(out, cfg);
    lemma_brace_joins_plain_code(base, new_line(cfg, n));
    let text = open_brace_text(
        out,
        cfg.new_line_around_braces,
        false,
        new_line(cfg, n),
        new_line(cfg, n + 1),
    );
    assert(text =~= braced_text(base, cfg, n) + new_line(cfg, n + 1));
}

/// Whether `z` is the state of a pass that has just written an opening
/// brace behind `base`, at nesting `n`.
pub open spec fn is_behind_brace(z: LayoutState, base: Seq<char>, cfg: ConfigModel, n: nat) -> bool {
    &&& is_quiet(z, cfg)
    &&& z.out == braced_text(base, cfg, n) + new_line(cfg, n + 1)
    &&& z.nesting == n + 1
    &&& z.on_new_line
    &&& z.skip_blanks
    &&& !z.skip_ends_at_eol
    &&& z.empty_lines == 1
}

/// A pass that stands behind `base`, with blanks and line breaks at most
/// behind it, and then reads what an opening brace leaves behind `base`,
/// writes that again.
pub proof fn lemma_brace_is_read_again(base: Seq<char>, cfg: ConfigModel)
    requires
        has_plain_ending(cfg),
        is_plain_source(base, cfg),
        strip_space(base) == base,
        strip_space(run(base, cfg).out) == base,
    ensures
        is_behind_brace(
            run(braced_text(base, cfg, run(base, cfg).nesting), cfg),
            base,
            cfg,
            run(base, cfg).nesting,
        ),
{
    let rest = run(base, cfg);
    let n = rest.nesting;
    lemma_quiet_run(base, cfg);
    lemma_new_line_is_white(cfg, n);
    let before = match cfg.new_line_around_braces {
        NewLineOnOpenBrace::After => base.push(' '),
        NewLineOnOpenBrace::Before => base + new_line(cfg, n),
    };
    let q = run(before, cfg);
    match cfg.new_line_around_braces {
        NewLineOnOpenBrace::After => {
            lemma_run_push(base, ' ', cfg);
            lemma_step_space(rest, cfg);
        },
        NewLineOnOpenBrace::Before => {
            lemma_run_new_line(base, n, cfg);
            lemma_step_break(rest, cfg);
        },
    }
    assert(is_plain_source(before, cfg));
    assert(is_quiet(q, cfg));
    assert(strip_space(q.out) == base);
    assert(q.nesting == n);
    lemma_plain_stays_formatted(before, cfg);
    lemma_plain_ending_breaks_once(cfg);
    lemma_run(before, cfg);
    lemma_run_push(before, '{', cfg);
    lemma_step_open_brace(q, cfg);
    lemma_quiet_step(q, '{', cfg);
    lemma_plain_text_of(q.out, base, cfg);
    lemma_open_brace_on_plain_code(q.out, cfg, n);
}

/// A text is plain code if what is left of it without the blanks and line
/// breaks at its end is.
pub proof fn lemma_plain_text_of(x: Seq<char>, base: Seq<char>, cfg: ConfigModel)
    requires
        strip_space(x) == base,
        is_plain_source(base, cfg),
    ensures
        is_plain_source(x, cfg),
    decreases x.len(),
{
    if x.len() > 0 && is_space(x.last()) {
        lemma_plain_text_of(x.drop_last(), base, cfg);
        assert forall|i: int| 0 <= i < x.len() implies x[i] != '/' && x[i] != '\\' && (
        directives_nest(cfg) ==> x[i] != '#') by {
            if i < x.len() - 1 {
                assert(x.drop_last()[i] == x[i]);
            }
        }
    }
}

/// A pass that has just written an opening brace swallows the line break
/// behind it.
pub proof fn lemma_behind_brace(x: Seq<char>, base: Seq<char>, cfg: ConfigModel, n: nat)
    requires
        has_plain_ending(cfg),
        is_behind_brace(run(x, cfg), base, cfg, n),
    ensures
        run(x + new_line(cfg, n + 1), cfg) == run(x, cfg),
        run(x + line_ending(cfg), cfg) == run(x, cfg),
{
    let z = run(x, cfg);
    assert(on_line_break(z, cfg) =~= z);
    lemma_run_new_line(x, n + 1, cfg);
    lemma_run_ending(x, cfg);
}

/// What the text that an opening brace leaves is to a pass that reads it:
/// with or without the indentation at its end, with or without the line
/// break before that, it is read as far as the brace.
pub proof fn lemma_brace_text_is_read_again(base: Seq<char>, cfg: ConfigModel)
    requires
        has_plain_ending(cfg),
        is_plain_source(base, cfg),
        strip_space(base) == base,
        strip_space(run(base, cfg).out) == base,
    ensures
        ({
            let n = run(base, cfg).nesting;
            let braced = braced_text(base, cfg, n);
            let written = braced + new_line(cfg, n + 1);
            &&& is_behind_brace(run(braced, cfg), base, cfg, n)
            &&& run(written, cfg) == run(braced, cfg)
            &&& run(strip_blank(written), cfg) == run(braced, cfg)
            &&& strip_space(written) == braced
            &&& is_plain_source(written, cfg)
        }),
{
    let n = run(base, cfg).nesting;
    let braced = braced_text(base, cfg, n);
    let trail = new_line(cfg, n + 1);
    lemma_brace_is_read_again(base, cfg);
    lemma_behind_brace(braced, base, cfg, n);
    lemma_new_line_is_white(cfg, n);
    lemma_new_line_is_white(cfg, n + 1);
    lemma_braced_text_ends_in_brace(base, cfg, n);
    lemma_strip_space_white(braced, trail);
    let ended = braced + line_ending(cfg);
    lemma_indent_is_filler(cfg.indentation, n + 1);
    assert(braced + trail =~= ended + indent(cfg.indentation, n + 1));
    lemma_strip_blank_of_blanks(ended, indent(cfg.indentation, n + 1));
    assert(is_plain_source(braced, cfg));
}

/// An opening brace keeps the first pass settled.
pub proof fn lemma_settled_open_brace(s: LayoutState, cfg: ConfigModel)
    requires
        has_plain_ending(cfg),
        is_settled(s, cfg),
    ensures
        is_settled(step(s, '{', cfg), cfg),
{
    let base = strip_space(s.out);
    lemma_quiet_step(s, '{', cfg);
    lemma_plain_ending_breaks_once(cfg);
    lemma_step(s, '{', cfg);
    lemma_step_open_brace(s, cfg);
    lemma_open_brace_on_plain_code(s.out, cfg, s.nesting);
    lemma_plain_base(s.out, cfg);
    lemma_strip_space_is_prefix(s.out);
    lemma_brace_text_is_read_again(base, cfg);
}

/// The text up to and with an opening brace ends in the brace.
pub proof fn lemma_braced_text_ends_in_brace(base: Seq<char>, cfg: ConfigModel, n: nat)
    ensures
        strip_space(braced_text(base, cfg, n)) == braced_text(base, cfg, n),
        braced_text(base, cfg, n).len() > 0,
        braced_text(base, cfg, n).last() == '{',
{
}

/// Every plain character keeps the first pass settled.
pub proof fn lemma_settled_step(s: LayoutState, c: char, cfg: ConfigModel)
    requires
        has_plain_ending(cfg),
        is_settled(s, cfg),
        is_plain_char(c, cfg),
    ensures
        is_settled(step(s, c, cfg), cfg),
{
    if c == '\r' {
    } else if c == '\n' {
        lemma_settled_break(s, cfg);
    } else if is_blank(c) {
        lemma_settled_blank(s, c, cfg);
    } else if c == '{' {
        lemma_settled_open_brace(s, cfg);
    } else if c == '}' {
        lemma_settled_close_brace(s, cfg);
    } else if c == '(' || c == '[' {
        lemma_settled_open_bracket(s, c, cfg);
    } else if c == ')' || c == ']' {
        lemma_settled_close_bracket(s, c, cfg);
    } else {
        lemma_settled_char(s, c, cfg);
    }
}

/// Whatever plain code the first pass reads, it stays settled.
pub proof fn lemma_settled_run(text: Seq<char>, cfg: ConfigModel)
    requires
        has_plain_ending(cfg),
        is_plain_source(text, cfg),
    ensures
        is_settled(run(text, cfg), cfg),
    decreases text.len(),
{
    if text.len() == 0 {
        lemma_settled_at_first(cfg);
    } else {
        let front = text.drop_last();
        assert(is_plain_source(front, cfg));
        lemma_settled_run(front, cfg);
        lemma_settled_step(run(front, cfg), text.last(), cfg);
    }
}

/// A second pass changes nothing: under rules that end lines in one of the
/// two usual ways, the layout pass makes of code without comments and
/// continued lines, and without directives where directives nest, a text
/// of which it makes that same text again.
pub proof fn lemma_second_pass_changes_nothing(text: Seq<char>, cfg: ConfigModel)
    requires
        has_plain_ending(cfg),
        is_plain_source(text, cfg),
    ensures
        layout(text, cfg) == Ok::<Seq<char>, Seq<char>>(run(text, cfg).out),
        layout(run(text, cfg).out, cfg) == layout(text, cfg),
{
    lemma_settled_run(text, cfg);
    lemma_quiet_run(text, cfg);
    lemma_quiet_run(run(text, cfg).out, cfg);
}

} // verus!
