//! What formatting would change, line by line.

use vstd::prelude::*;
use crate::text::byte_len;
use crate::text::lemma_byte_len_is_encoded_len;

verus! {

/// One line of a comparison of two texts.
#[derive(Clone, Debug, PartialEq, Eq)]
pub enum LineChange {
    /// A line that the first text alone has.
    Left(String),
    /// A line that both texts have, as each of them has it.
    Both(String, String),
    /// A line that the second text alone has.
    Right(String),
}

/// A [`LineChange`] as a mathematical value.
pub enum LineChangeModel {
    Left(Seq<char>),
    Both(Seq<char>, Seq<char>),
    Right(Seq<char>),
}

impl View for LineChange {
    type V = LineChangeModel;

    open spec fn view(&self) -> LineChangeModel {
        match self {
            LineChange::Left(line) => LineChangeModel::Left(line@),
            LineChange::Both(left, right) => LineChangeModel::Both(left@, right@),
            LineChange::Right(line) => LineChangeModel::Right(line@),
        }
    }
}

/// The changes `changes` as mathematical values.
pub open spec fn change_models(changes: Seq<LineChange>) -> Seq<LineChangeModel> {
    changes.map_values(|change: LineChange| change@)
}

/// The lines of `left` and of `right`, in order, each marked as standing in
/// the first text alone, in both or in the second alone, as the line
/// comparison finds them.
pub uninterp spec fn line_changes(left: Seq<char>, right: Seq<char>) -> Seq<LineChangeModel>;

/// Whether two texts are small enough to be compared line by line: the
/// comparison keeps a table with a cell for every pair of lines.
pub open spec fn is_comparable(left: Seq<char>, right: Seq<char>) -> bool {
    (byte_len(left) + 2) * (byte_len(right) + 2) <= usize::MAX
}

/// `diff::lines`: the line-by-line comparison of `left` and `right`, each
/// line as a string of its own. Texts whose table of line pairs would not
/// fit in memory are left out.
#[verifier::external_body]
fn diff_lines(left: &str, right: &str) -> (changes: Vec<LineChange>)
    requires
        is_comparable(left@, right@),
    ensures
        change_models(changes@) == line_changes(left@, right@),
{
    diff::lines(left, right).into_iter().map(|change| match change {
        diff::Result::Left(line) => LineChange::Left(line.to_owned()),
        diff::Result::Both(l, r) => LineChange::Both(l.to_owned(), r.to_owned()),
        diff::Result::Right(line) => LineChange::Right(line.to_owned()),
    }).collect()
}

/// Whether `left` and `right` are small enough to be compared line by
/// line.
pub fn comparable(left: &str, right: &str) -> (r: bool)
    ensures
        r == is_comparable(left@, right@),
{
    let a = left.as_bytes().len();
    let b = right.as_bytes().len();
    proof {
        lemma_byte_len_is_encoded_len(left@);
        lemma_byte_len_is_encoded_len(right@);
    }
    if a > usize::MAX - 2 || b > usize::MAX - 2 {
        assert((a + 2) * (b + 2) > usize::MAX) by (nonlinear_arith)
            requires
                a + 2 > usize::MAX || b + 2 > usize::MAX,
                a >= 0,
                b >= 0,
        ;
        return false;
    }
    (a + 2).checked_mul(b + 2).is_some()
}

/// Whether `change` is a line that one of the texts alone has.
pub open spec fn is_difference(change: LineChangeModel) -> bool {
    !(change is Both)
}

/// Whether one of `changes` is a line that one of the texts alone has.
pub open spec fn has_difference(changes: Seq<LineChangeModel>) -> bool {
    exists|i: int| 0 <= i < changes.len() && is_difference(#[trigger] changes[i])
}

/// The line that shows `change`: `-` before a line of the first text
/// alone, `+` before a line of the second alone, a space before a line of
/// both.
pub open spec fn shown(change: LineChangeModel) -> Seq<char> {
    match change {
        LineChangeModel::Left(line) => "-"@ + line,
        LineChangeModel::Both(line, _) => " "@ + line,
        LineChangeModel::Right(line) => "+"@ + line,
    }
}

/// The lines that show `changes`, in order.
pub open spec fn all_shown(changes: Seq<LineChangeModel>) -> Seq<Seq<char>> {
    changes.map_values(|change: LineChangeModel| shown(change))
}

/// What is reported of a comparison that found `changes`: nothing where
/// the texts have the same lines, else the lines that show the changes.
pub open spec fn reported(changes: Seq<LineChangeModel>) -> Option<Seq<Seq<char>>> {
    if has_difference(changes) {
        Some(all_shown(changes))
    } else {
        None
    }
}

/// The texts that `lines` holds.
pub open spec fn line_texts(lines: Seq<String>) -> Seq<Seq<char>> {
    lines.map_values(|line: String| line@)
}

/// A report as a mathematical value.
pub open spec fn report_view(report: Option<Vec<String>>) -> Option<Seq<Seq<char>>> {
    match report {
        Some(lines) => Some(line_texts(lines@)),
        None => None,
    }
}

/// Whether one of `changes` is a line that one of the texts alone has.
pub fn formatting_needed(changes: &Vec<LineChange>) -> (r: bool)
    ensures
        r == has_difference(change_models(changes@)),
{
    let mut i: usize = 0;
    while i < changes.len()
        invariant
            i <= changes.len(),
            forall|j: int| 0 <= j < i ==> !is_difference(#[trigger] change_models(changes@)[j]),
        decreases changes.len() - i,
    {
        match &changes[i] {
            LineChange::Both(_, _) => {},
            _ => {
                assert(is_difference(change_models(changes@)[i as int]));
                return true;
            },
        }
        i += 1;
    }
    false
}

/// The line that shows `change`.
pub fn show(change: &LineChange) -> (line: String)
    ensures
        line@ == shown(change@),
{
    match change {
        LineChange::Left(text) => "-".to_owned().concat(text.as_str()),
        LineChange::Both(text, _) => " ".to_owned().concat(text.as_str()),
        LineChange::Right(text) => "+".to_owned().concat(text.as_str()),
    }
}

/// What is reported of a comparison that found `changes`.
pub fn report(changes: &Vec<LineChange>) -> (r: Option<Vec<String>>)
    ensures
        report_view(r) == reported(change_models(changes@)),
{
    if !formatting_needed(changes) {
        return None;
    }
    let ghost all = change_models(changes@);
    let mut lines: Vec<String> = Vec::new();
    let mut i: usize = 0;
    while i < changes.len()
        invariant
            i <= changes.len(),
            all == change_models(changes@),
            line_texts(lines@) =~= all_shown(all.take(i as int)),
        decreases changes.len() - i,
    {
        let ghost before = line_texts(lines@);
        let line = show(&changes[i]);
        lines.push(line);
        proof {
            assert(line_texts(lines@) =~= before.push(line@));
            assert(all.take(i + 1) =~= all.take(i as int).push(all[i as int]));
            assert(all_shown(all.take(i + 1)) =~= all_shown(all.take(i as int)).push(
                shown(all[i as int]),
            ));
        }
        i += 1;
    }
    assert(all.take(changes.len() as int) =~= all);
    Some(lines)
}

/// What formatting would change of `original` if `formatted` is what it
/// makes of it: nothing where the two have the same lines, else every line
/// of either, marked as staying, going or coming.
pub fn scan(original: &str, formatted: &str) -> (r: Option<Vec<String>>)
    requires
        is_comparable(original@, formatted@),
    ensures
        report_view(r) == reported(line_changes(original@, formatted@)),
{
    let changes = diff_lines(original, formatted);
    report(&changes)
}

} // verus!
