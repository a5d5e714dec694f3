//! The scanner as a state machine over `Seq<char>`.
//!
//! A [`Cursor`] is a position together with a [`Mode`]. [`step`] says where
//! the cursor goes next and whether a formula span is emitted on the way;
//! [`spans_from`] collects the spans emitted until the end of the text.

use crate::formula::{formula_record, DelimiterType, FormulaView};
use crate::search::{index_of, lemma_index_of_is_first};
use crate::text::is_ascii_digit;
use vstd::prelude::*;

verus! {

/// What kind of region the cursor is in.
#[derive(Debug, Clone, Copy, PartialEq, Eq, Structural)]
pub enum Mode {
    /// Ordinary text: delimiters are recognized.
    Text,
    /// Inside a block fenced by triple backticks.
    Fenced,
    /// Inside a run of inline code opened by a single backtick.
    InlineCode,
}

/// A scanner state.
pub struct Cursor {
    /// Index of the character that the scanner looks at next.
    pub pos: int,
    /// The region that this character lies in.
    pub mode: Mode,
}

/// A recognized formula: `[start, end)` covers the delimiters and the math.
pub struct Span {
    /// The convention that brackets the formula.
    pub kind: DelimiterType,
    /// Index of the first character of the opening delimiter.
    pub start: int,
    /// Index just past the last character of the closing delimiter.
    pub end: int,
}

/// The effect of one scanner step.
pub struct Step {
    /// The state after the step.
    pub next: Cursor,
    /// The formula that the step recognized, if it recognized one.
    pub emitted: Option<Span>,
}

/// The state in which every scan begins.
pub open spec fn start_cursor() -> Cursor {
    Cursor { pos: 0, mode: Mode::Text }
}

/// Whether three backticks stand at `i`.
pub open spec fn fence_at(text: Seq<char>, i: int) -> bool {
    &&& 0 <= i
    &&& i + 3 <= text.len()
    &&& text[i] == '`'
    &&& text[i + 1] == '`'
    &&& text[i + 2] == '`'
}

/// Whether the character at `j` is a dollar sign that can close an inline
/// formula: one that no backslash immediately precedes.
pub open spec fn closes_dollar(text: Seq<char>, j: int) -> bool {
    &&& 0 <= j < text.len()
    &&& text[j] == '$'
    &&& (j == 0 || text[j - 1] != '\\')
}

/// Index of the first closing dollar sign at or after `from`.
pub open spec fn next_closing_dollar(text: Seq<char>, from: int) -> Option<int>
    decreases text.len() - from,
{
    if from < 0 || from >= text.len() {
        None
    } else if closes_dollar(text, from) {
        Some(from)
    } else {
        next_closing_dollar(text, from + 1)
    }
}

/// A step that emits nothing.
pub open spec fn move_to(pos: int, mode: Mode) -> Step {
    Step { next: Cursor { pos, mode }, emitted: None }
}

/// A step that emits `span` and resumes in text right after it.
pub open spec fn emit(span: Span) -> Step {
    Step { next: Cursor { pos: span.end, mode: Mode::Text }, emitted: Some(span) }
}

/// The span of `kind` that opens at `i` with a two-character delimiter and
/// closes at the first occurrence of the matching closer after it, if there
/// is one.
pub open spec fn closed_span(text: Seq<char>, i: int, kind: DelimiterType) -> Option<Span> {
    match index_of(text, i + 2, kind.closing()) {
        Some(k) => Some(Span { kind, start: i, end: k + 2 }),
        None => None,
    }
}

/// The `\[...\]` or `\(...\)` formula that the backslash at `i` opens.
pub open spec fn escaped_formula_at(text: Seq<char>, i: int) -> Option<Span> {
    if text[i + 1] == '[' {
        closed_span(text, i, DelimiterType::BlockBracket)
    } else if text[i + 1] == '(' {
        closed_span(text, i, DelimiterType::InlineParen)
    } else {
        None
    }
}

/// The `$$...$$` formula that starts at `i`.
pub open spec fn block_dollar_at(text: Seq<char>, i: int) -> Option<Span> {
    if text[i] == '$' && i + 1 < text.len() && text[i + 1] == '$' {
        closed_span(text, i, DelimiterType::BlockDollar)
    } else {
        None
    }
}

/// The step taken at a dollar sign at `i` that starts no `$$...$$` formula.
///
/// With no closing dollar ahead the sign is ordinary text. Otherwise the
/// cursor moves past the closing dollar, and a formula is emitted unless the
/// content is empty or begins with an ASCII digit.
pub open spec fn single_dollar_step(text: Seq<char>, i: int) -> Step {
    match next_closing_dollar(text, i + 1) {
        Some(j) => if j > i + 1 && !is_ascii_digit(text[i + 1]) {
            emit(Span { kind: DelimiterType::InlineDollar, start: i, end: j + 1 })
        } else {
            move_to(j + 1, Mode::Text)
        },
        None => move_to(i + 1, Mode::Text),
    }
}

/// The step taken in text mode at a character that is no backtick.
pub open spec fn text_step(text: Seq<char>, i: int) -> Step {
    if text[i] == '\\' && i + 1 < text.len() {
        match escaped_formula_at(text, i) {
            Some(span) => emit(span),
            None => move_to(i + 2, Mode::Text),
        }
    } else {
        match block_dollar_at(text, i) {
            Some(span) => emit(span),
            None => if text[i] == '$' {
                single_dollar_step(text, i)
            } else {
                move_to(i + 1, Mode::Text)
            },
        }
    }
}

/// One scanner step from `c`, for `0 <= c.pos < text.len()`.
///
/// The rules apply in this order: a fence toggles the fenced mode unless
/// inline code is open; fenced text is skipped; a backtick that begins no
/// fence toggles inline code; inline code is skipped; everything else is
/// ordinary text and handled by [`text_step`].
pub open spec fn step(text: Seq<char>, c: Cursor) -> Step
    recommends
        0 <= c.pos < text.len(),
{
    let i = c.pos;
    if fence_at(text, i) && c.mode != Mode::InlineCode {
        move_to(
            i + 3,
            if c.mode == Mode::Fenced {
                Mode::Text
            } else {
                Mode::Fenced
            },
        )
    } else if c.mode == Mode::Fenced {
        move_to(i + 1, Mode::Fenced)
    } else if text[i] == '`' && !fence_at(text, i) {
        move_to(
            i + 1,
            if c.mode == Mode::InlineCode {
                Mode::Text
            } else {
                Mode::InlineCode
            },
        )
    } else if c.mode == Mode::InlineCode {
        move_to(i + 1, Mode::InlineCode)
    } else {
        text_step(text, i)
    }
}

/// The spans emitted by scanning `text` from `c` to the end.
pub open spec fn spans_from(text: Seq<char>, c: Cursor) -> Seq<Span>
    decreases text.len() - c.pos,
    via spans_from_terminates
{
    if c.pos < 0 || c.pos >= text.len() {
        Seq::empty()
    } else {
        let s = step(text, c);
        let rest = spans_from(text, s.next);
        match s.emitted {
            Some(span) => seq![span] + rest,
            None => rest,
        }
    }
}

#[via_fn]
proof fn spans_from_terminates(text: Seq<char>, c: Cursor) {
    if 0 <= c.pos < text.len() {
        lemma_step_advances(text, c);
    }
}

/// Whether a scan in state `from` is, now or later, in state `to`.
pub open spec fn reaches(text: Seq<char>, from: Cursor, to: Cursor) -> bool
    decreases text.len() - from.pos,
    via reaches_terminates
{
    from == to || (0 <= from.pos < text.len() && reaches(text, step(text, from).next, to))
}

#[via_fn]
proof fn reaches_terminates(text: Seq<char>, from: Cursor, to: Cursor) {
    if 0 <= from.pos < text.len() {
        lemma_step_advances(text, from);
    }
}

/// Whether a scan in state `from` gets to state `to` without emitting a
/// span on the way.
pub open spec fn reaches_quietly(text: Seq<char>, from: Cursor, to: Cursor) -> bool
    decreases text.len() - from.pos,
    via reaches_quietly_terminates
{
    from == to || (0 <= from.pos < text.len() && step(text, from).emitted is None
        && reaches_quietly(text, step(text, from).next, to))
}

#[via_fn]
proof fn reaches_quietly_terminates(text: Seq<char>, from: Cursor, to: Cursor) {
    if 0 <= from.pos < text.len() {
        lemma_step_advances(text, from);
    }
}

/// Whether the scan of `text` passes through state `c`.
pub open spec fn visited(text: Seq<char>, c: Cursor) -> bool {
    reaches(text, start_cursor(), c)
}

/// The spans of all formulas in `text`, in the order of emission.
pub open spec fn spans_of(text: Seq<char>) -> Seq<Span> {
    spans_from(text, start_cursor())
}

/// The record of the `index`-th emitted span.
pub open spec fn span_record(text: Seq<char>, index: nat, span: Span) -> FormulaView {
    formula_record(
        index,
        text,
        span.start + span.kind.opening().len(),
        span.end - span.kind.closing().len(),
        span.start,
        span.end,
        span.kind,
    )
}

/// The formulas of `text`: one record per emitted span, numbered from zero.
pub open spec fn formulas_of(text: Seq<char>) -> Seq<FormulaView> {
    Seq::new(spans_of(text).len(), |n: int| span_record(text, n as nat, spans_of(text)[n]))
}

/// A closing dollar found from `from` lies at or after `from`, is a closing
/// dollar, and is the first such.
pub proof fn lemma_next_closing_dollar(text: Seq<char>, from: int)
    ensures
        match next_closing_dollar(text, from) {
            Some(j) => {
                &&& from <= j < text.len()
                &&& closes_dollar(text, j)
                &&& forall|k: int| from <= k < j ==> !closes_dollar(text, k)
            },
            None => forall|k: int| 0 <= from <= k ==> !closes_dollar(text, k),
        },
    decreases text.len() - from,
{
    if 0 <= from < text.len() && !closes_dollar(text, from) {
        lemma_next_closing_dollar(text, from + 1);
    }
}

/// A span closed by a two-character closer starts at `i`, holds its two
/// delimiters, and ends within the text.
pub proof fn lemma_closed_span(text: Seq<char>, i: int, kind: DelimiterType)
    requires
        0 <= i,
        kind != DelimiterType::InlineDollar,
    ensures
        match closed_span(text, i, kind) {
            Some(span) => span.kind == kind && span.start == i && i + 4 <= span.end <= text.len(),
            None => true,
        },
{
    lemma_index_of_is_first(text, i + 2, kind.closing());
}

/// Every step moves the cursor forward and keeps it within the text. A step
/// that emits a span starts and ends in text mode, and the span reaches from
/// the old cursor position to the new one with room for its delimiters.
pub proof fn lemma_step_advances(text: Seq<char>, c: Cursor)
    requires
        0 <= c.pos < text.len(),
    ensures
        c.pos < step(text, c).next.pos <= text.len(),
        match step(text, c).emitted {
            Some(span) => {
                &&& c.mode == Mode::Text
                &&& step(text, c).next.mode == Mode::Text
                &&& span.start == c.pos
                &&& span.end == step(text, c).next.pos
                &&& span.start + span.kind.opening().len() <= span.end
                    - span.kind.closing().len()
            },
            None => true,
        },
{
    let i = c.pos;
    lemma_closed_span(text, i, DelimiterType::BlockBracket);
    lemma_closed_span(text, i, DelimiterType::InlineParen);
    lemma_closed_span(text, i, DelimiterType::BlockDollar);
    lemma_next_closing_dollar(text, i + 1);
}

} // verus!
