//! The changeset classifier: raw changeset text to tagged lines for highlighting.
use vstd::prelude::*;

use crate::text::{chars_of, has_prefix, lines_of, split_lines, starts_with, string_of};

verus! {

/// The highlighting class of one changeset line.
#[derive(Clone, Copy, Debug, PartialEq, Eq, Structural)]
pub enum LineKind {
    Added,
    Removed,
    HunkHeader,
    FileHeader,
    Plain,
}

/// One line of changeset output together with its class.
#[derive(Debug)]
pub struct ClassifiedLine {
    pub text: String,
    pub kind: LineKind,
}

/// The class of a line. The checks go in this order, so that `+++` and `---`
/// file lines are never taken for added or removed lines.
pub open spec fn kind_of(line: Seq<char>) -> LineKind {
    if starts_with(line, seq!['d', 'i', 'f', 'f', ' ']) || starts_with(
        line,
        seq!['i', 'n', 'd', 'e', 'x', ' '],
    ) {
        LineKind::FileHeader
    } else if starts_with(line, seq!['+', '+', '+']) || starts_with(line, seq!['-', '-', '-']) {
        LineKind::FileHeader
    } else if starts_with(line, seq!['@', '@']) {
        LineKind::HunkHeader
    } else if starts_with(line, seq!['+']) {
        LineKind::Added
    } else if starts_with(line, seq!['-']) {
        LineKind::Removed
    } else {
        LineKind::Plain
    }
}

/// `lines` is the classification of the changeset text `text`.
pub open spec fn classifies(lines: Seq<ClassifiedLine>, text: Seq<char>) -> bool {
    &&& lines.len() == lines_of(text).len()
    &&& forall|k: int|
        0 <= k < lines.len() ==> {
            &&& (#[trigger] lines[k]).text@ == lines_of(text)[k]
            &&& lines[k].kind == kind_of(lines_of(text)[k])
        }
}

/// The text shown in place of a changeset that could not be fetched.
pub open spec fn fetch_failure_text() -> Seq<char> {
    seq!['F', 'a', 'i', 'l', 'e', 'd', ' ', 't', 'o', ' ', 'g', 'e', 't', ' ', 'd', 'i', 'f', 'f']
}

fn kind_of_chars(line: &Vec<char>) -> (r: LineKind)
    ensures
        r == kind_of(line@),
{
    let diff = ['d', 'i', 'f', 'f', ' '];
    let index = ['i', 'n', 'd', 'e', 'x', ' '];
    let plus3 = ['+', '+', '+'];
    let minus3 = ['-', '-', '-'];
    let hunk = ['@', '@'];
    let plus = ['+'];
    let minus = ['-'];
    proof {
        assert(diff@ =~= seq!['d', 'i', 'f', 'f', ' ']);
        assert(index@ =~= seq!['i', 'n', 'd', 'e', 'x', ' ']);
        assert(plus3@ =~= seq!['+', '+', '+']);
        assert(minus3@ =~= seq!['-', '-', '-']);
        assert(hunk@ =~= seq!['@', '@']);
        assert(plus@ =~= seq!['+']);
        assert(minus@ =~= seq!['-']);
    }
    if has_prefix(line, diff.as_slice()) || has_prefix(line, index.as_slice()) {
        LineKind::FileHeader
    } else if has_prefix(line, plus3.as_slice()) || has_prefix(line, minus3.as_slice()) {
        LineKind::FileHeader
    } else if has_prefix(line, hunk.as_slice()) {
        LineKind::HunkHeader
    } else if has_prefix(line, plus.as_slice()) {
        LineKind::Added
    } else if has_prefix(line, minus.as_slice()) {
        LineKind::Removed
    } else {
        LineKind::Plain
    }
}

/// The class of a single line of changeset output.
pub fn classify_line(line: &str) -> (r: LineKind)
    ensures
        r == kind_of(line@),
{
    let cs = chars_of(line);
    kind_of_chars(&cs)
}

/// Classifies every line of a changeset text, in order.
pub fn classify_changeset(text: &str) -> (r: Vec<ClassifiedLine>)
    ensures
        classifies(r@, text@),
{
    let cs = chars_of(text);
    let lines = split_lines(&cs);
    let mut out: Vec<ClassifiedLine> = Vec::new();
    let mut i: usize = 0;
    while i < lines.len()
        invariant
            i <= lines@.len(),
            lines@.len() == lines_of(text@).len(),
            forall|k: int| 0 <= k < lines@.len() ==> lines@[k]@ == lines_of(text@)[k],
            out@.len() == i,
            forall|k: int|
                0 <= k < i ==> {
                    &&& (#[trigger] out@[k]).text@ == lines_of(text@)[k]
                    &&& out@[k].kind == kind_of(lines_of(text@)[k])
                },
        decreases lines.len() - i,
    {
        let kind = kind_of_chars(&lines[i]);
        let line_text = string_of(&lines[i]);
        out.push(ClassifiedLine { text: line_text, kind });
        i += 1;
    }
    out
}

/// `lines` is what the changeset pane shows for a fetch: the classified text
/// when the fetch gave `Some(text)`, else one plain line that says it failed.
pub open spec fn shows_changeset(lines: Seq<ClassifiedLine>, fetched: Option<Seq<char>>) -> bool {
    match fetched {
        Some(t) => classifies(lines, t),
        None => lines.len() == 1 && lines[0].text@ == fetch_failure_text() && lines[0].kind
            == LineKind::Plain,
    }
}

/// The view of a fetch result.
pub open spec fn fetched_view(fetched: Option<&str>) -> Option<Seq<char>> {
    match fetched {
        Some(t) => Some(t@),
        None => None,
    }
}

/// The lines shown for a changeset fetch: the classified text when the fetch
/// succeeded, else one plain line that says it failed.
pub fn changeset_lines(fetched: Option<&str>) -> (r: Vec<ClassifiedLine>)
    ensures
        shows_changeset(r@, fetched_view(fetched)),
{
    match fetched {
        Some(t) => classify_changeset(t),
        None => {
            let failure = "Failed to get diff";
            proof {
                reveal_strlit("Failed to get diff");
            }
            let text = String::from_str(failure);
            let mut out: Vec<ClassifiedLine> = Vec::new();
            out.push(ClassifiedLine { text, kind: LineKind::Plain });
            proof {
                assert(text@ =~= fetch_failure_text());
            }
            out
        },
    }
}

/// Classification is a function of the text: two classifications of one text
/// agree line by line.
pub proof fn lemma_classification_unique(a: Seq<ClassifiedLine>, b: Seq<ClassifiedLine>, text: Seq<char>)
    requires
        classifies(a, text),
        classifies(b, text),
    ensures
        a.len() == b.len(),
        forall|k: int| 0 <= k < a.len() ==> (#[trigger] a[k]).text@ == b[k].text@ && a[k].kind == b[k].kind,
{
    assert forall|k: int| 0 <= k < a.len() implies (#[trigger] a[k]).text@ == b[k].text@ && a[k].kind == b[k].kind by {
        assert(a[k].text@ == lines_of(text)[k]);
        assert(b[k].text@ == lines_of(text)[k]);
    }
}

} // verus!
