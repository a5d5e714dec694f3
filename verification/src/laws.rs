//! What holds of every scan.

use crate::formula::{formula_id, DelimiterType, FormulaView};
use crate::scan::{
    closes_dollar, fence_at, formulas_of, lemma_next_closing_dollar, lemma_step_advances, reaches,
    reaches_quietly, spans_from, spans_of, start_cursor, step, visited, Cursor, Mode, Span,
};
use crate::search::{lemma_index_of_is_first, occurs_at};
use crate::text::{
    decimal, is_ascii_digit, lemma_decimal_reads_back, lemma_trim_leaves_no_margin,
    line_number_at, trim, white_space,
};
use vstd::prelude::*;

verus! {

/// Whether `span` ends at the first closer behind its opening delimiter. For
/// `$...$` the closer is a dollar sign that no backslash precedes, and the
/// content is neither empty nor led by an ASCII digit.
pub open spec fn closes_at_first_closer(text: Seq<char>, span: Span) -> bool {
    if span.kind == DelimiterType::InlineDollar {
        &&& span.start + 1 < span.end - 1
        &&& !is_ascii_digit(text[span.start + 1])
        &&& closes_dollar(text, span.end - 1)
        &&& forall|j: int| span.start + 1 <= j < span.end - 1 ==> !closes_dollar(text, j)
    } else {
        forall|j: int|
            span.start + 2 <= j < span.end - 2 ==> !occurs_at(text, j, span.kind.closing())
    }
}

/// A span that lies within `[lower, upper)`, is bracketed by the delimiters
/// of its kind, leaves room between them, and ends at the first closer.
pub open spec fn span_fits(text: Seq<char>, span: Span, lower: int, upper: int) -> bool {
    &&& lower <= span.start
    &&& span.end <= upper
    &&& span.start + span.kind.opening().len() <= span.end - span.kind.closing().len()
    &&& occurs_at(text, span.start, span.kind.opening())
    &&& occurs_at(text, span.end - span.kind.closing().len(), span.kind.closing())
    &&& closes_at_first_closer(text, span)
}

/// The span that a record claims.
pub open spec fn span_of(f: FormulaView) -> Span {
    Span { kind: f.delimiter_type, start: f.start_offset as int, end: f.end_offset as int }
}

/// Spans in increasing order, each ending before the next begins.
pub open spec fn spans_in_order(spans: Seq<Span>) -> bool {
    forall|a: int, b: int| 0 <= a < b < spans.len() ==> spans[a].end <= spans[b].start
}

/// `whole` without the delimiters of `kind` at its two ends.
pub open spec fn strip_delimiters(whole: Seq<char>, kind: DelimiterType) -> Seq<char> {
    whole.subrange(kind.opening().len() as int, whole.len() - kind.closing().len())
}

/// What a single record owes to the text it was taken from: its offsets
/// delimit its source text, the source text begins and ends with the
/// delimiters of its kind, the math is the source text without them,
/// trimmed, and the line number counts the line feeds before it.
pub open spec fn faithful(text: Seq<char>, f: FormulaView) -> bool {
    &&& f.start_offset < f.end_offset <= text.len()
    &&& f.raw_with_delimiters == text.subrange(f.start_offset as int, f.end_offset as int)
    &&& f.delimiter_type.opening().len() + f.delimiter_type.closing().len()
        <= f.raw_with_delimiters.len()
    &&& occurs_at(f.raw_with_delimiters, 0, f.delimiter_type.opening())
    &&& occurs_at(
        f.raw_with_delimiters,
        f.raw_with_delimiters.len() - f.delimiter_type.closing().len(),
        f.delimiter_type.closing(),
    )
    &&& f.raw == trim(strip_delimiters(f.raw_with_delimiters, f.delimiter_type))
    &&& f.line_number == line_number_at(text, f.start_offset as int)
    &&& f.is_valid
    &&& f.error_message is None
}

/// Records sorted by start offset, no two of them overlapping.
pub open spec fn sorted_and_disjoint(formulas: Seq<FormulaView>) -> bool {
    forall|a: int, b: int|
        0 <= a < b < formulas.len() ==> formulas[a].start_offset < formulas[b].start_offset
            && formulas[a].end_offset <= formulas[b].start_offset
}

/// A step that emits a span emits one that fits between the old and the new
/// cursor position.
pub proof fn lemma_emitted_span_fits(text: Seq<char>, c: Cursor)
    requires
        0 <= c.pos < text.len(),
    ensures
        match step(text, c).emitted {
            Some(span) => span_fits(text, span, c.pos, step(text, c).next.pos),
            None => true,
        },
{
    let i = c.pos;
    lemma_step_advances(text, c);
    lemma_index_of_is_first(text, i + 2, DelimiterType::BlockBracket.closing());
    lemma_index_of_is_first(text, i + 2, DelimiterType::InlineParen.closing());
    lemma_index_of_is_first(text, i + 2, DelimiterType::BlockDollar.closing());
    lemma_next_closing_dollar(text, i + 1);
}

/// The spans emitted from `c` on lie at or after `c.pos`, within the text,
/// and in order.
pub proof fn lemma_spans_from_ordered(text: Seq<char>, c: Cursor)
    requires
        0 <= c.pos,
    ensures
        forall|n: int|
            0 <= n < spans_from(text, c).len() ==> span_fits(
                text,
                #[trigger] spans_from(text, c)[n],
                c.pos,
                text.len() as int,
            ),
        spans_in_order(spans_from(text, c)),
    decreases text.len() - c.pos,
{
    if c.pos < text.len() {
        let s = step(text, c);
        lemma_step_advances(text, c);
        lemma_emitted_span_fits(text, c);
        lemma_spans_from_ordered(text, s.next);
        let rest = spans_from(text, s.next);
        match s.emitted {
            Some(span) => {
                let all = seq![span] + rest;
                assert(all == spans_from(text, c));
                assert forall|n: int| 0 <= n < all.len() implies span_fits(
                    text,
                    #[trigger] all[n],
                    c.pos,
                    text.len() as int,
                ) by {
                    if n > 0 {
                        assert(all[n] == rest[n - 1]);
                    }
                }
                assert forall|a: int, b: int| 0 <= a < b < all.len() implies all[a].end
                    <= all[b].start by {
                    assert(all[b] == rest[b - 1]);
                    if a > 0 {
                        assert(all[a] == rest[a - 1]);
                    }
                }
            },
            None => {},
        }
    }
}

/// Formulas come out sorted by start offset and never overlap.
pub proof fn lemma_formulas_sorted_and_disjoint(text: Seq<char>)
    ensures
        sorted_and_disjoint(formulas_of(text)),
{
    lemma_spans_from_ordered(text, start_cursor());
}

/// Every record is faithful to the text: slicing the text at the record's
/// offsets gives back `raw_with_delimiters`, stripping the delimiters from
/// that and trimming gives `raw`, and the line number is one more than the
/// number of line feeds before the start offset.
pub proof fn lemma_formulas_faithful(text: Seq<char>)
    ensures
        forall|n: int|
            0 <= n < formulas_of(text).len() ==> faithful(text, #[trigger] formulas_of(text)[n]),
{
    lemma_spans_from_ordered(text, start_cursor());
    assert forall|n: int| 0 <= n < formulas_of(text).len() implies faithful(
        text,
        #[trigger] formulas_of(text)[n],
    ) by {
        let span = spans_of(text)[n];
        let f = formulas_of(text)[n];
        assert(span_fits(text, span, 0, text.len() as int));
        let open = span.kind.opening().len() as int;
        let close = span.kind.closing().len() as int;
        let whole = text.subrange(span.start, span.end);
        assert(f.raw_with_delimiters == whole);
        assert(strip_delimiters(whole, span.kind) =~= text.subrange(
            span.start + open,
            span.end - close,
        ));
        assert(whole.subrange(0, open) =~= text.subrange(span.start, span.start + open));
        assert(whole.subrange(whole.len() - close, whole.len() as int) =~= text.subrange(
            span.end - close,
            span.end,
        ));
    }
}

/// Every formula ends at the first closer behind its opening delimiter, and
/// a `$...$` formula has content that no ASCII digit leads.
pub proof fn lemma_formulas_close_at_first_closer(text: Seq<char>)
    ensures
        forall|n: int|
            0 <= n < formulas_of(text).len() ==> closes_at_first_closer(
                text,
                span_of(#[trigger] formulas_of(text)[n]),
            ),
{
    lemma_spans_from_ordered(text, start_cursor());
    assert forall|n: int| 0 <= n < formulas_of(text).len() implies closes_at_first_closer(
        text,
        span_of(#[trigger] formulas_of(text)[n]),
    ) by {
        let span = spans_of(text)[n];
        assert(span_fits(text, span, 0, text.len() as int));
        assert(span_of(formulas_of(text)[n]) == span);
    }
}

/// The math of a record carries no whitespace at either end.
pub proof fn lemma_raw_has_no_margin(text: Seq<char>)
    ensures
        forall|n: int|
            0 <= n < formulas_of(text).len() && (#[trigger] formulas_of(text)[n]).raw.len() > 0
                ==> !white_space(formulas_of(text)[n].raw.first()) && !white_space(
                formulas_of(text)[n].raw.last(),
            ),
{
    assert forall|n: int|
        0 <= n < formulas_of(text).len() && (#[trigger] formulas_of(text)[n]).raw.len()
            > 0 implies !white_space(formulas_of(text)[n].raw.first()) && !white_space(
        formulas_of(text)[n].raw.last(),
    ) by {
        let span = spans_of(text)[n];
        lemma_trim_leaves_no_margin(
            text.subrange(
                span.start + span.kind.opening().len(),
                span.end - span.kind.closing().len(),
            ),
        );
    }
}

/// The `n`-th formula is called `formula-<n>`: identifiers count the
/// emitted formulas and nothing else, and no two formulas of a text share
/// one.
pub proof fn lemma_formula_ids(text: Seq<char>)
    ensures
        forall|n: int|
            0 <= n < formulas_of(text).len() ==> (#[trigger] formulas_of(text)[n]).id
                == formula_id(n as nat),
        forall|a: int, b: int|
            0 <= a < b < formulas_of(text).len() ==> (#[trigger] formulas_of(text)[a]).id != (
            #[trigger] formulas_of(text)[b]).id,
{
    assert forall|a: int, b: int| 0 <= a < b < formulas_of(text).len() implies (
    #[trigger] formulas_of(text)[a]).id != (#[trigger] formulas_of(text)[b]).id by {
        lemma_formula_id_injective(a as nat, b as nat);
    }
}

/// Different counts give different identifiers.
pub proof fn lemma_formula_id_injective(a: nat, b: nat)
    requires
        a != b,
    ensures
        formula_id(a) != formula_id(b),
{
    lemma_decimal_reads_back(a);
    lemma_decimal_reads_back(b);
    let prefix = "formula-"@;
    if formula_id(a) == formula_id(b) {
        let whole = formula_id(a);
        assert(whole.subrange(prefix.len() as int, whole.len() as int) =~= decimal(a));
        assert(whole.subrange(prefix.len() as int, whole.len() as int) =~= decimal(b));
    }
}

/// Scanning is a function of the text: two scans of the same text give the
/// same records.
pub proof fn lemma_rescan_identical(
    text: Seq<char>,
    first: Seq<FormulaView>,
    second: Seq<FormulaView>,
)
    requires
        first == formulas_of(text),
        second == formulas_of(text),
    ensures
        first == second,
{
}

/// The scan begins in its start state.
pub proof fn lemma_start_visited(text: Seq<char>)
    ensures
        visited(text, start_cursor()),
{
}

/// Reaching a state never moves the cursor backwards.
pub proof fn lemma_reaches_forward(text: Seq<char>, from: Cursor, to: Cursor)
    requires
        reaches(text, from, to),
    ensures
        from.pos <= to.pos,
    decreases text.len() - from.pos,
{
    if from != to {
        lemma_step_advances(text, from);
        lemma_reaches_forward(text, step(text, from).next, to);
    }
}

/// From a state that is reached, the state after one more step is reached
/// as well.
pub proof fn lemma_reaches_step(text: Seq<char>, from: Cursor, to: Cursor)
    requires
        reaches(text, from, to),
        0 <= to.pos < text.len(),
    ensures
        reaches(text, from, step(text, to).next),
    decreases text.len() - from.pos,
{
    if from == to {
        let next = step(text, to).next;
        assert(reaches(text, next, next));
    } else {
        lemma_step_advances(text, from);
        lemma_reaches_step(text, step(text, from).next, to);
    }
}

/// Reaching joins.
pub proof fn lemma_reaches_transitive(text: Seq<char>, a: Cursor, b: Cursor, c: Cursor)
    requires
        reaches(text, a, b),
        reaches(text, b, c),
    ensures
        reaches(text, a, c),
    decreases text.len() - a.pos,
{
    if a != b {
        lemma_step_advances(text, a);
        lemma_reaches_transitive(text, step(text, a).next, b, c);
    }
}

/// A state reached quietly is reached, and the scan emits the same spans
/// from either state.
pub proof fn lemma_quiet_reach(text: Seq<char>, from: Cursor, to: Cursor)
    requires
        reaches_quietly(text, from, to),
    ensures
        reaches(text, from, to),
        spans_from(text, from) == spans_from(text, to),
    decreases text.len() - from.pos,
{
    if from != to {
        lemma_step_advances(text, from);
        lemma_quiet_reach(text, step(text, from).next, to);
    }
}

/// Quiet stretches join.
pub proof fn lemma_quiet_transitive(text: Seq<char>, a: Cursor, b: Cursor, c: Cursor)
    requires
        reaches_quietly(text, a, b),
        reaches_quietly(text, b, c),
    ensures
        reaches_quietly(text, a, c),
    decreases text.len() - a.pos,
{
    if a != b {
        lemma_step_advances(text, a);
        lemma_quiet_transitive(text, step(text, a).next, b, c);
    }
}

/// A span emitted from `from` on either ends before a later state `to` is
/// reached, or is emitted from `to` on.
pub proof fn lemma_spans_split(text: Seq<char>, from: Cursor, to: Cursor, span: Span)
    requires
        reaches(text, from, to),
        spans_from(text, from).contains(span),
    ensures
        span.end <= to.pos || spans_from(text, to).contains(span),
    decreases text.len() - from.pos,
{
    if from != to {
        let s = step(text, from);
        let all = spans_from(text, from);
        let rest = spans_from(text, s.next);
        lemma_step_advances(text, from);
        lemma_reaches_forward(text, s.next, to);
        let n = choose|n: int| 0 <= n < all.len() && all[n] == span;
        match s.emitted {
            Some(_) => {
                if n > 0 {
                    assert(rest[n - 1] == span);
                    lemma_spans_split(text, s.next, to, span);
                }
            },
            None => {
                lemma_spans_split(text, s.next, to, span);
            },
        }
    }
}

/// No formula overlaps a stretch of text that the scan crosses without
/// emitting anything.
pub proof fn lemma_quiet_stretch_is_empty(text: Seq<char>, from: Cursor, to: Cursor)
    requires
        visited(text, from),
        reaches_quietly(text, from, to),
    ensures
        visited(text, to),
        forall|n: int|
            0 <= n < formulas_of(text).len() ==> (#[trigger] formulas_of(text)[n]).end_offset
                <= from.pos || to.pos <= formulas_of(text)[n].start_offset,
{
    lemma_quiet_reach(text, from, to);
    lemma_reaches_forward(text, start_cursor(), from);
    lemma_reaches_forward(text, from, to);
    lemma_reaches_transitive(text, start_cursor(), from, to);
    lemma_spans_from_ordered(text, start_cursor());
    lemma_spans_from_ordered(text, to);
    assert forall|n: int| 0 <= n < formulas_of(text).len() implies (#[trigger] formulas_of(
        text,
    )[n]).end_offset <= from.pos || to.pos <= formulas_of(text)[n].start_offset by {
        let span = spans_of(text)[n];
        assert(spans_of(text).contains(span));
        assert(span_fits(text, span, 0, text.len() as int));
        lemma_spans_split(text, start_cursor(), from, span);
        if span.end > from.pos {
            let m = choose|m: int|
                0 <= m < spans_from(text, to).len() && spans_from(text, to)[m] == span;
            assert(span_fits(text, spans_from(text, to)[m], to.pos, text.len() as int));
        }
    }
}

/// Every formula lies outside code: what the scan steps over in fenced or
/// inline-code mode belongs to no formula.
pub proof fn lemma_code_is_skipped(text: Seq<char>, c: Cursor)
    requires
        visited(text, c),
        0 <= c.pos < text.len(),
        c.mode != Mode::Text,
    ensures
        step(text, c).emitted is None,
        visited(text, step(text, c).next),
        forall|n: int|
            0 <= n < formulas_of(text).len() ==> (#[trigger] formulas_of(text)[n]).end_offset
                <= c.pos || step(text, c).next.pos <= formulas_of(text)[n].start_offset,
{
    let next = step(text, c).next;
    lemma_step_advances(text, c);
    assert(reaches_quietly(text, next, next));
    assert(reaches_quietly(text, c, next));
    lemma_quiet_stretch_is_empty(text, c, next);
}

/// Inside a fenced block the scan walks quietly up to the next fence.
pub proof fn lemma_fenced_run(text: Seq<char>, from: int, to: int)
    requires
        0 <= from <= to <= text.len(),
        forall|k: int| from <= k < to ==> !fence_at(text, k),
    ensures
        reaches_quietly(
            text,
            Cursor { pos: from, mode: Mode::Fenced },
            Cursor { pos: to, mode: Mode::Fenced },
        ),
    decreases to - from,
{
    if from < to {
        lemma_fenced_run(text, from + 1, to);
    }
}

/// Inside inline code the scan walks quietly up to the next backtick that
/// begins no run of three.
pub proof fn lemma_inline_code_run(text: Seq<char>, from: int, to: int)
    requires
        0 <= from <= to <= text.len(),
        forall|k: int| from <= k < to ==> text[k] != '`' || fence_at(text, k),
    ensures
        reaches_quietly(
            text,
            Cursor { pos: from, mode: Mode::InlineCode },
            Cursor { pos: to, mode: Mode::InlineCode },
        ),
    decreases to - from,
{
    if from < to {
        lemma_inline_code_run(text, from + 1, to);
    }
}

/// A fenced code block yields no formula, whatever it contains.
///
/// When the scan arrives in text mode at a fence at `open` and no fence
/// begins in `[open + 3, close)`, the scan is still inside the block at
/// `close` and no formula overlaps `[open, close)`. If a fence stands at
/// `close`, it ends the block: no formula overlaps it either, and the scan
/// resumes in text mode behind it.
pub proof fn lemma_fenced_code_yields_no_formula(text: Seq<char>, open: int, close: int)
    requires
        visited(text, Cursor { pos: open, mode: Mode::Text }),
        fence_at(text, open),
        open + 3 <= close <= text.len(),
        forall|k: int| open + 3 <= k < close ==> !fence_at(text, k),
    ensures
        visited(text, Cursor { pos: close, mode: Mode::Fenced }),
        forall|n: int|
            0 <= n < formulas_of(text).len() ==> (#[trigger] formulas_of(text)[n]).end_offset
                <= open || close <= formulas_of(text)[n].start_offset,
        fence_at(text, close) ==> visited(text, Cursor { pos: close + 3, mode: Mode::Text }),
        fence_at(text, close) ==> forall|n: int|
            0 <= n < formulas_of(text).len() ==> (#[trigger] formulas_of(text)[n]).end_offset
                <= open || close + 3 <= formulas_of(text)[n].start_offset,
{
    let before = Cursor { pos: open, mode: Mode::Text };
    let inside = Cursor { pos: open + 3, mode: Mode::Fenced };
    let end = Cursor { pos: close, mode: Mode::Fenced };
    lemma_fenced_run(text, open + 3, close);
    assert(step(text, before).next == inside);
    assert(reaches_quietly(text, before, end));
    lemma_quiet_stretch_is_empty(text, before, end);
    if fence_at(text, close) {
        let after = Cursor { pos: close + 3, mode: Mode::Text };
        assert(step(text, end).next == after);
        assert(reaches_quietly(text, after, after));
        assert(reaches_quietly(text, end, after));
        lemma_quiet_transitive(text, before, end, after);
        lemma_quiet_stretch_is_empty(text, before, after);
    }
}

/// Inline code yields no formula, whatever it contains.
///
/// When the scan arrives in text mode at a backtick at `open` that begins
/// no fence, and every backtick in `[open + 1, close)` begins a run of
/// three, the scan is still inside the inline code at `close` and no formula
/// overlaps `[open, close)`. If a backtick that begins no run of three
/// stands at `close`, it ends the inline code: no formula overlaps it
/// either, and the scan resumes in text mode behind it.
pub proof fn lemma_inline_code_yields_no_formula(text: Seq<char>, open: int, close: int)
    requires
        visited(text, Cursor { pos: open, mode: Mode::Text }),
        0 <= open < text.len(),
        text[open] == '`',
        !fence_at(text, open),
        open + 1 <= close <= text.len(),
        forall|k: int| open + 1 <= k < close ==> text[k] != '`' || fence_at(text, k),
    ensures
        visited(text, Cursor { pos: close, mode: Mode::InlineCode }),
        forall|n: int|
            0 <= n < formulas_of(text).len() ==> (#[trigger] formulas_of(text)[n]).end_offset
                <= open || close <= formulas_of(text)[n].start_offset,
        close < text.len() && text[close] == '`' && !fence_at(text, close) ==> visited(
            text,
            Cursor { pos: close + 1, mode: Mode::Text },
        ),
        close < text.len() && text[close] == '`' && !fence_at(text, close) ==> forall|n: int|
            0 <= n < formulas_of(text).len() ==> (#[trigger] formulas_of(text)[n]).end_offset
                <= open || close + 1 <= formulas_of(text)[n].start_offset,
{
    let before = Cursor { pos: open, mode: Mode::Text };
    let inside = Cursor { pos: open + 1, mode: Mode::InlineCode };
    let end = Cursor { pos: close, mode: Mode::InlineCode };
    lemma_inline_code_run(text, open + 1, close);
    assert(step(text, before).next == inside);
    assert(reaches_quietly(text, before, end));
    lemma_quiet_stretch_is_empty(text, before, end);
    if close < text.len() && text[close] == '`' && !fence_at(text, close) {
        let after = Cursor { pos: close + 1, mode: Mode::Text };
        assert(step(text, end).next == after);
        assert(reaches_quietly(text, after, after));
        assert(reaches_quietly(text, end, after));
        lemma_quiet_transitive(text, before, end, after);
        lemma_quiet_stretch_is_empty(text, before, after);
    }
}

/// An escaped dollar sign opens no formula.
///
/// When the scan arrives in text mode at a backslash that a dollar sign
/// follows, it steps over both: no formula begins at the dollar sign, nor
/// overlaps the pair at all.
pub proof fn lemma_escaped_dollar_opens_nothing(text: Seq<char>, at: int)
    requires
        visited(text, Cursor { pos: at, mode: Mode::Text }),
        0 <= at,
        at + 1 < text.len(),
        text[at] == '\\',
        text[at + 1] == '$',
    ensures
        visited(text, Cursor { pos: at + 2, mode: Mode::Text }),
        forall|n: int|
            0 <= n < formulas_of(text).len() ==> (#[trigger] formulas_of(text)[n]).start_offset
                != at + 1,
        forall|n: int|
            0 <= n < formulas_of(text).len() ==> (#[trigger] formulas_of(text)[n]).end_offset
                <= at || at + 2 <= formulas_of(text)[n].start_offset,
{
    let before = Cursor { pos: at, mode: Mode::Text };
    let after = Cursor { pos: at + 2, mode: Mode::Text };
    assert(step(text, before).next == after);
    assert(reaches_quietly(text, after, after));
    assert(reaches_quietly(text, before, after));
    lemma_quiet_stretch_is_empty(text, before, after);
    lemma_formulas_faithful(text);
}

} // verus!
