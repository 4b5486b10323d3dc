//! Where the layout pass puts opening braces.

use vstd::prelude::*;
use crate::config::ConfigModel;
use crate::layout::laws::has_plain_ending;
use crate::layout::laws::lemma_strip_blank_is_prefix;
use crate::layout::laws::lemma_strip_space_is_prefix;
use crate::layout::model::LayoutState;
use crate::layout::model::closes_branch;
use crate::layout::model::drop_tail;
use crate::layout::model::find_comment;
use crate::layout::model::indent;
use crate::layout::model::indent_unit;
use crate::layout::model::line_ending;
use crate::layout::model::line_start;
use crate::layout::model::new_line;
use crate::layout::model::on_branch_end;
use crate::layout::model::on_close_brace;
use crate::layout::model::on_code;
use crate::layout::model::on_line_break;
use crate::layout::model::on_line_start;
use crate::layout::model::on_lookback;
use crate::layout::model::on_text;
use crate::layout::model::open_brace_text;
use crate::layout::model::run;
use crate::layout::model::starts_with_comment;
use crate::layout::model::step;
use crate::layout::model::strip_blank;
use crate::layout::model::strip_space;
use crate::rules::IndentationRule;
use crate::rules::NewLineOnOpenBrace;
use crate::text::is_blank;
use crate::text::is_space;

verus! {

/// Whether the last line of `base` holds a line comment.
pub open spec fn last_line_has_comment(base: Seq<char>) -> bool {
    starts_with_comment(base, line_start(base)) || find_comment(base, line_start(base))
        < base.len()
}

/// Under the rule that puts the line break after the brace, an opening
/// brace in code joins the text before it with one space between them, and
/// a line break follows, indented one level more; provided that the line
/// before did not end in a backslash and the text before the brace ends in
/// no line comment.
pub proof fn lemma_brace_after_joins_the_line(s: LayoutState, cfg: ConfigModel)
    requires
        cfg.new_line_around_braces == NewLineOnOpenBrace::After,
        !s.prev_line_backslash,
        !last_line_has_comment(strip_space(s.out)),
    ensures
        on_code(s, '{', cfg).out == strip_space(s.out) + seq![' ', '{'] + new_line(
            cfg,
            s.nesting + 1,
        ),
        strip_space(s.out).len() > 0 ==> !is_space(strip_space(s.out).last()),
{
    lemma_strip_space_is_prefix(s.out);
}

/// Under the rule that puts the line break before the brace, an opening
/// brace in code stands behind a line break at the indentation of the text
/// before it, and a line break follows, indented one level more; provided
/// that the line before did not end in a backslash.
pub proof fn lemma_brace_before_opens_a_line(s: LayoutState, cfg: ConfigModel)
    requires
        cfg.new_line_around_braces == NewLineOnOpenBrace::Before,
        !s.prev_line_backslash,
    ensures
        on_code(s, '{', cfg).out == strip_space(s.out) + new_line(cfg, s.nesting) + seq!['{']
            + new_line(cfg, s.nesting + 1),
{
}

/// Whether `text` is code without comments and without continued lines:
/// it holds neither `/` nor a backslash.
pub open spec fn is_plain_code(text: Seq<char>) -> bool {
    forall|i: int| 0 <= i < text.len() ==> text[i] != '/' && text[i] != '\\'
}

/// Whether `s` ends in `tail`.
pub open spec fn ends_with(s: Seq<char>, tail: Seq<char>) -> bool {
    tail.len() <= s.len() && s.skip(s.len() - tail.len()) == tail
}

/// Whether the brace at index `i` of `out` stands where the rule of `cfg`
/// puts it. Under the rule that puts the line break after the brace, one
/// space and no more stands before it. Under the rule that puts it before,
/// nothing but blanks stands between a line ending and the brace.
pub open spec fn is_placed(out: Seq<char>, i: int, cfg: ConfigModel) -> bool {
    match cfg.new_line_around_braces {
        NewLineOnOpenBrace::After => i >= 1 && out[i - 1] == ' ' && (i >= 2 ==> !is_space(
            out[i - 2],
        )),
        NewLineOnOpenBrace::Before => ends_with(strip_blank(out.take(i)), line_ending(cfg)),
    }
}

/// Whether every opening brace of `out` stands where the rule of `cfg`
/// puts it.
pub open spec fn braces_are_placed(out: Seq<char>, cfg: ConfigModel) -> bool {
    forall|i: int| 0 <= i < out.len() && out[i] == '{' ==> is_placed(out, i, cfg)
}

/// Whether `s` holds neither an opening brace nor `/`.
pub open spec fn is_filler(s: Seq<char>) -> bool {
    forall|i: int| 0 <= i < s.len() ==> s[i] != '{' && s[i] != '/'
}

/// Whether `out` holds no `/` and every opening brace of it stands where
/// the rule of `cfg` puts it.
pub open spec fn is_tidy(out: Seq<char>, cfg: ConfigModel) -> bool {
    &&& forall|i: int| 0 <= i < out.len() ==> out[i] != '/'
    &&& braces_are_placed(out, cfg)
}

/// Where a brace stands depends on the text before it alone.
pub proof fn lemma_placed_by_prefix(a: Seq<char>, b: Seq<char>, i: int, cfg: ConfigModel)
    requires
        0 <= i < a.len(),
        i < b.len(),
        a.take(i + 1) == b.take(i + 1),
    ensures
        a[i] == b[i],
        is_placed(a, i, cfg) == is_placed(b, i, cfg),
{
    assert(a[i] == a.take(i + 1)[i]);
    assert(b[i] == b.take(i + 1)[i]);
    assert(a.take(i) =~= a.take(i + 1).take(i));
    assert(b.take(i) =~= b.take(i + 1).take(i));
    if i >= 1 {
        assert(a[i - 1] == a.take(i + 1)[i - 1]);
        assert(b[i - 1] == b.take(i + 1)[i - 1]);
    }
    if i >= 2 {
        assert(a[i - 2] == a.take(i + 1)[i - 2]);
        assert(b[i - 2] == b.take(i + 1)[i - 2]);
    }
}

/// A text that begins a tidy text and goes on with filler is tidy.
pub proof fn lemma_tidy_regrown(out: Seq<char>, k: int, more: Seq<char>, cfg: ConfigModel)
    requires
        is_tidy(out, cfg),
        0 <= k <= out.len(),
        is_filler(more),
    ensures
        is_tidy(out.take(k) + more, cfg),
{
    let new = out.take(k) + more;
    assert forall|i: int| 0 <= i < new.len() && new[i] == '{' implies is_placed(new, i, cfg) by {
        if i < k {
            assert(new.take(i + 1) =~= out.take(i + 1));
            lemma_placed_by_prefix(new, out, i, cfg);
        } else {
            assert(new[i] == more[i - k]);
        }
    }
    assert forall|i: int| 0 <= i < new.len() implies new[i] != '/' by {
        if i < k {
            assert(new[i] == out[i]);
        } else {
            assert(new[i] == more[i - k]);
        }
    }
}

/// A tidy text that goes on with filler is tidy.
pub proof fn lemma_tidy_append(out: Seq<char>, more: Seq<char>, cfg: ConfigModel)
    requires
        is_tidy(out, cfg),
        is_filler(more),
    ensures
        is_tidy(out + more, cfg),
{
    lemma_tidy_regrown(out, out.len() as int, more, cfg);
    assert(out.take(out.len() as int) =~= out);
}

/// A tidy text with one more character that is neither `{` nor `/` is
/// tidy.
pub proof fn lemma_tidy_push(out: Seq<char>, c: char, cfg: ConfigModel)
    requires
        is_tidy(out, cfg),
        c != '{',
        c != '/',
    ensures
        is_tidy(out.push(c), cfg),
{
    lemma_tidy_append(out, seq![c], cfg);
    assert(out + seq![c] =~= out.push(c));
}

/// What begins a tidy text is tidy.
pub proof fn lemma_tidy_prefix(out: Seq<char>, k: int, cfg: ConfigModel)
    requires
        is_tidy(out, cfg),
        0 <= k <= out.len(),
    ensures
        is_tidy(out.take(k), cfg),
{
    lemma_tidy_regrown(out, k, Seq::empty(), cfg);
    assert(out.take(k) + Seq::<char>::empty() =~= out.take(k));
}

/// A tidy text without the blanks at its end is tidy.
pub proof fn lemma_tidy_strip_blank(out: Seq<char>, cfg: ConfigModel)
    requires
        is_tidy(out, cfg),
    ensures
        is_tidy(strip_blank(out), cfg),
{
    lemma_strip_blank_is_prefix(out);
    lemma_tidy_prefix(out, strip_blank(out).len() as int, cfg);
}

/// A tidy text without the blanks and line breaks at its end is tidy.
pub proof fn lemma_tidy_strip_space(out: Seq<char>, cfg: ConfigModel)
    requires
        is_tidy(out, cfg),
    ensures
        is_tidy(strip_space(out), cfg),
        strip_space(out).len() > 0 ==> !is_space(strip_space(out).last()),
{
    lemma_strip_space_is_prefix(out);
    lemma_tidy_prefix(out, strip_space(out).len() as int, cfg);
}

/// Indentation is filler.
pub proof fn lemma_indent_is_filler(rule: IndentationRule, n: nat)
    ensures
        is_filler(indent(rule, n)),
        forall|i: int| 0 <= i < indent(rule, n).len() ==> is_blank(#[trigger] indent(rule, n)[i]),
    decreases n,
{
    if n > 0 {
        lemma_indent_is_filler(rule, (n - 1) as nat);
    }
}

/// A line break with its indentation is filler.
pub proof fn lemma_new_line_is_filler(cfg: ConfigModel, n: nat)
    requires
        has_plain_ending(cfg),
    ensures
        is_filler(new_line(cfg, n)),
{
    lemma_indent_is_filler(cfg.indentation, n);
}

/// Blanks behind a text that ends in no blank are all that is taken when
/// blanks are taken from its end.
pub proof fn lemma_strip_blank_of_blanks(s: Seq<char>, blanks: Seq<char>)
    requires
        s.len() > 0,
        !is_blank(s.last()),
        forall|i: int| 0 <= i < blanks.len() ==> is_blank(#[trigger] blanks[i]),
    ensures
        strip_blank(s + blanks) == s,
    decreases blanks.len(),
{
    if blanks.len() == 0 {
        assert(s + blanks =~= s);
    } else {
        let front = blanks.drop_last();
        lemma_strip_blank_of_blanks(s, front);
        assert((s + blanks).drop_last() =~= s + front);
    }
}

/// An opening brace written by the rule of `cfg` behind tidy text that
/// ends in no blank, with `trail` behind it, leaves tidy text.
pub proof fn lemma_tidy_open_brace(base: Seq<char>, cfg: ConfigModel, n: nat)
    requires
        has_plain_ending(cfg),
        is_tidy(base, cfg),
        base.len() > 0 ==> !is_space(base.last()),
    ensures
        is_tidy(
            open_brace_text(
                base,
                cfg.new_line_around_braces,
                false,
                new_line(cfg, n),
                new_line(cfg, n + 1),
            ),
            cfg,
        ),
{
    let lead = new_line(cfg, n);
    let trail = new_line(cfg, n + 1);
    let text = open_brace_text(base, cfg.new_line_around_braces, false, lead, trail);
    lemma_new_line_is_filler(cfg, n);
    lemma_new_line_is_filler(cfg, n + 1);
    lemma_stripped_stays(base);
    match cfg.new_line_around_braces {
        NewLineOnOpenBrace::After => {
            lemma_no_comment(base, line_start(base));
            lemma_line_start_bounds(base);
            lemma_no_comment_start(base, line_start(base));
            let spaced = base.push(' ');
            lemma_tidy_push(base, ' ', cfg);
            let braced = spaced.push('{');
            assert(is_tidy(braced, cfg)) by {
                assert forall|i: int| 0 <= i < braced.len() && braced[i] == '{' implies is_placed(
                    braced,
                    i,
                    cfg,
                ) by {
                    if i < spaced.len() {
                        assert(braced.take(i + 1) =~= spaced.take(i + 1));
                        lemma_placed_by_prefix(braced, spaced, i, cfg);
                    }
                }
            }
            lemma_tidy_append(braced, trail, cfg);
            assert(text =~= braced + trail);
        },
        NewLineOnOpenBrace::Before => {
            let led = base + lead;
            lemma_tidy_append(base, lead, cfg);
            let braced = led.push('{');
            assert(is_tidy(braced, cfg)) by {
                assert forall|i: int| 0 <= i < braced.len() && braced[i] == '{' implies is_placed(
                    braced,
                    i,
                    cfg,
                ) by {
                    if i < led.len() {
                        assert(braced.take(i + 1) =~= led.take(i + 1));
                        lemma_placed_by_prefix(braced, led, i, cfg);
                    } else {
                        let ending = line_ending(cfg);
                        let ended = base + ending;
                        lemma_indent_is_filler(cfg.indentation, n);
                        assert(braced.take(i) =~= ended + indent(cfg.indentation, n));
                        lemma_strip_blank_of_blanks(ended, indent(cfg.indentation, n));
                        assert(ended.skip(ended.len() - ending.len()) =~= ending);
                    }
                }
            }
            lemma_tidy_append(braced, trail, cfg);
            assert(text =~= braced + trail);
        },
    }
}

/// Text that ends in no blank or line break is what is left of it when
/// those are taken from its end.
pub proof fn lemma_stripped_stays(base: Seq<char>)
    requires
        base.len() > 0 ==> !is_space(base.last()),
    ensures
        strip_space(base) == base,
{
}

/// The last line of a text starts within the text.
pub proof fn lemma_line_start_bounds(s: Seq<char>)
    ensures
        0 <= line_start(s) <= s.len(),
    decreases s.len(),
{
    if s.len() > 0 && s.last() != '\n' {
        lemma_line_start_bounds(s.drop_last());
    }
}

/// No comment is found in a text without `/`.
pub proof fn lemma_no_comment(s: Seq<char>, from: int)
    requires
        forall|i: int| 0 <= i < s.len() ==> s[i] != '/',
    ensures
        find_comment(s, from) == s.len(),
    decreases s.len() - from,
{
    if 0 <= from && from + 1 < s.len() {
        lemma_no_comment(s, from + 1);
    }
}

/// No line of a text without `/` starts with a comment.
pub proof fn lemma_no_comment_start(s: Seq<char>, from: int)
    requires
        forall|i: int| 0 <= i < s.len() ==> s[i] != '/',
        0 <= from <= s.len(),
    ensures
        !starts_with_comment(s, from),
{
    lemma_skip_blank_bounds(s, from);
}

/// Blanks are skipped forwards, and not beyond the end of the text.
pub proof fn lemma_skip_blank_bounds(s: Seq<char>, from: int)
    requires
        0 <= from <= s.len(),
    ensures
        from <= crate::layout::model::skip_blank(s, from) <= s.len(),
    decreases s.len() - from,
{
    if from < s.len() && is_blank(s[from]) {
        lemma_skip_blank_bounds(s, from + 1);
    }
}

/// What the pass keeps true while it reads plain code: what it has
/// written is tidy, and it has met neither a comment nor a continued line.
pub open spec fn reads_plain_code(s: LayoutState, cfg: ConfigModel) -> bool {
    &&& is_tidy(s.out, cfg)
    &&& s.recent.0 != '/'
    &&& s.recent.1 != '/'
    &&& s.recent.2 != '/'
    &&& !s.in_line_comment
    &&& s.block_depth == 0
    &&& !s.no_format
    &&& !s.last_is_backslash
    &&& !s.prev_line_backslash
}

/// A directive that moves one level out leaves tidy text.
pub proof fn lemma_tidy_branch_end(s: LayoutState, c: char, cfg: ConfigModel)
    requires
        is_tidy(s.out, cfg),
        closes_branch(s.recent, c),
    ensures
        is_tidy(on_branch_end(s, cfg).out, cfg),
{
    let cut = drop_tail(s.out, 3);
    if s.out.len() > 3 {
        lemma_tidy_prefix(s.out, s.out.len() - 3, cfg);
    } else {
        lemma_tidy_prefix(s.out, 0, cfg);
        assert(s.out.take(0) =~= cut);
    }
    lemma_tidy_strip_blank(cut, cfg);
    let after = on_branch_end(s, cfg);
    lemma_indent_is_filler(cfg.indentation, after.nesting);
    let r = s.recent;
    let more = indent(cfg.indentation, after.nesting) + seq![r.0, r.1, r.2];
    assert(is_filler(more));
    lemma_tidy_append(strip_blank(cut), more, cfg);
    assert(after.out =~= strip_blank(cut) + more);
}

/// A character of plain code keeps what the pass keeps true while it reads
/// plain code.
pub proof fn lemma_plain_text(s: LayoutState, c: char, cfg: ConfigModel)
    requires
        has_plain_ending(cfg),
        reads_plain_code(s, cfg),
        c != '/',
        c != '\\',
        c != '\n',
        c != '\r',
    ensures
        reads_plain_code(on_text(s, c, cfg), cfg),
{
    let s1 = on_lookback(s, c, cfg);
    if s1.out != s.out {
        lemma_tidy_branch_end(s, c, cfg);
    }
    assert(reads_plain_code(s1, cfg));
    let s2 = if c == ' ' {
        s1
    } else {
        LayoutState { last_is_backslash: false, ..s1 }
    };
    if c == '{' {
        lemma_tidy_strip_space(s1.out, cfg);
        lemma_strip_space_is_prefix(s1.out);
        let base = strip_space(s1.out);
        lemma_stripped_stays(base);
        lemma_tidy_open_brace(base, cfg, s1.nesting);
    } else if c == '}' {
        lemma_tidy_strip_space(s1.out, cfg);
        let nesting = on_close_brace(s2, cfg).nesting;
        lemma_new_line_is_filler(cfg, nesting);
        let lead = if s1.line_is_directive {
            seq![' ']
        } else {
            new_line(cfg, nesting)
        };
        lemma_tidy_append(strip_space(s1.out), lead + seq!['}'], cfg);
        assert(on_close_brace(s2, cfg).out =~= strip_space(s1.out) + (lead + seq!['}']));
    } else if c == '[' || c == '(' {
        lemma_tidy_push(s1.out, c, cfg);
        lemma_tidy_push(s1.out.push(c), ' ', cfg);
    } else if c == ']' || c == ')' {
        lemma_tidy_strip_space(s1.out, cfg);
        let base = strip_space(s1.out);
        lemma_tidy_push(base, ' ', cfg);
        lemma_tidy_push(base.push(' '), c, cfg);
        lemma_tidy_push(base, c, cfg);
    } else {
        lemma_tidy_push(s1.out, c, cfg);
    }
}

/// Every character of plain code keeps what the pass keeps true while it
/// reads plain code.
pub proof fn lemma_plain_step(s: LayoutState, c: char, cfg: ConfigModel)
    requires
        has_plain_ending(cfg),
        reads_plain_code(s, cfg),
        c != '/',
        c != '\\',
    ensures
        reads_plain_code(step(s, c, cfg), cfg),
{
    if c == '\r' {
    } else if c == '\n' {
        let after = on_line_break(s, cfg);
        lemma_new_line_is_filler(cfg, after.nesting);
        lemma_tidy_append(s.out, new_line(cfg, after.nesting), cfg);
    } else if s.on_new_line {
        let s1 = LayoutState {
            in_line_comment: false,
            prev_line_backslash: s.last_is_backslash,
            ..s
        };
        if !is_blank(c) {
            let s2 = on_line_start(s1, c, cfg);
            lemma_tidy_strip_blank(s.out, cfg);
            lemma_indent_is_filler(cfg.indentation, 1);
            assert(indent(cfg.indentation, 1) =~= indent_unit(cfg.indentation)) by {
                assert(indent(cfg.indentation, 0) =~= Seq::<char>::empty());
            }
            lemma_tidy_append(s.out, indent_unit(cfg.indentation), cfg);
            assert(reads_plain_code(s2, cfg));
            lemma_plain_text(s2, c, cfg);
        }
    } else if s.skip_blanks {
        if !is_blank(c) {
            lemma_plain_text(
                LayoutState { skip_blanks: false, skip_ends_at_eol: false, ..s },
                c,
                cfg,
            );
        }
    } else {
        lemma_plain_text(s, c, cfg);
    }
}

/// Whatever plain code the pass reads, it keeps what it keeps true while
/// it reads plain code.
pub proof fn lemma_plain_run(text: Seq<char>, cfg: ConfigModel)
    requires
        has_plain_ending(cfg),
        is_plain_code(text),
    ensures
        reads_plain_code(run(text, cfg), cfg),
    decreases text.len(),
{
    if text.len() > 0 {
        let front = text.drop_last();
        assert(is_plain_code(front));
        lemma_plain_run(front, cfg);
        lemma_plain_step(run(front, cfg), text.last(), cfg);
    }
}

/// Braces are placed: in what the layout pass makes of code without
/// comments and continued lines, every opening brace stands where the rule
/// puts it. Under the rule that puts the line break after the brace, one
/// space and no more stands before it; under the rule that puts it before,
/// nothing but indentation stands between a line ending and the brace.
pub proof fn lemma_braces_are_placed(text: Seq<char>, cfg: ConfigModel)
    requires
        has_plain_ending(cfg),
        is_plain_code(text),
    ensures
        braces_are_placed(run(text, cfg).out, cfg),
        crate::layout::model::layout(text, cfg) == Ok::<Seq<char>, Seq<char>>(run(text, cfg).out),
{
    lemma_plain_run(text, cfg);
}

} // verus!
