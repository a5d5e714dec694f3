//! The executable scanner, with the record type and the helpers that it is
//! built from.

pub use crate::formula::{create_formula, DelimiterType, Formula};
pub use crate::search::chars_index_of;

use crate::laws::{
    faithful, lemma_formulas_faithful, lemma_formulas_sorted_and_disjoint, sorted_and_disjoint,
};
use crate::scan::{
    formulas_of, lemma_step_advances, next_closing_dollar, span_record, spans_from, spans_of,
    step, Cursor, Mode, Span, Step,
};
use crate::search::index_of;
use crate::text::{is_digit, to_chars};
use vstd::prelude::*;

verus! {

/// The outcome of one executable scanner step: where the cursor goes, the
/// mode it is then in, and the kind of the formula that the step recognized
/// between the old and the new cursor position, if it recognized one.
#[derive(Debug, Clone, Copy)]
pub struct Advance {
    /// The cursor position after the step.
    pub next: usize,
    /// The mode after the step.
    pub mode: Mode,
    /// The kind of the formula that the step stepped over, if it was one.
    pub emitted: Option<DelimiterType>,
}

impl Advance {
    /// The step of the state machine that this outcome stands for when the
    /// cursor was at `from`.
    pub open spec fn as_step(self, from: usize) -> Step {
        Step {
            next: Cursor { pos: self.next as int, mode: self.mode },
            emitted: match self.emitted {
                Some(kind) => Some(Span { kind, start: from as int, end: self.next as int }),
                None => None,
            },
        }
    }
}

/// Searches for the two-character closer of `kind` at or after `from`.
fn find_closer(chars: &[char], from: usize, kind: DelimiterType) -> (found: Option<usize>)
    requires
        kind != DelimiterType::InlineDollar,
    ensures
        match found {
            Some(k) => index_of(chars@, from as int, kind.closing()) == Some(k as int) && k + 2
                <= chars@.len(),
            None => index_of(chars@, from as int, kind.closing()) is None,
        },
{
    let closer: [char; 2] = match kind {
        DelimiterType::BlockBracket => ['\\', ']'],
        DelimiterType::InlineParen => ['\\', ')'],
        _ => ['$', '$'],
    };
    assert(closer@ =~= kind.closing());
    chars_index_of(chars, from, closer.as_slice())
}

/// Searches for the first dollar sign at or after `from` that no backslash
/// immediately precedes.
fn find_closing_dollar(chars: &[char], from: usize) -> (found: Option<usize>)
    ensures
        match found {
            Some(j) => next_closing_dollar(chars@, from as int) == Some(j as int) && from <= j
                < chars@.len(),
            None => next_closing_dollar(chars@, from as int) is None,
        },
{
    let len = chars.len();
    let mut j: usize = from;
    while j < len
        invariant
            len == chars@.len(),
            from <= j,
            next_closing_dollar(chars@, from as int) == next_closing_dollar(chars@, j as int),
        decreases len - j,
    {
        if chars[j] == '$' && (j == 0 || chars[j - 1] != '\\') {
            return Some(j);
        }
        j += 1;
    }
    None
}

/// Takes one scanner step at `pos` in the given mode.
pub fn scan_step(chars: &[char], pos: usize, mode: Mode) -> (advance: Advance)
    requires
        pos < chars@.len(),
    ensures
        advance.as_step(pos) == step(chars@, Cursor { pos: pos as int, mode }),
{
    let len = chars.len();
    let is_fence = len - pos >= 3 && chars[pos] == '`' && chars[pos + 1] == '`' && chars[pos + 2]
        == '`';
    if is_fence {
        match mode {
            Mode::Fenced => {
                return Advance { next: pos + 3, mode: Mode::Text, emitted: None };
            },
            Mode::Text => {
                return Advance { next: pos + 3, mode: Mode::Fenced, emitted: None };
            },
            Mode::InlineCode => {},
        }
    }
    match mode {
        Mode::Fenced => {
            return Advance { next: pos + 1, mode: Mode::Fenced, emitted: None };
        },
        Mode::InlineCode => {
            let closes = chars[pos] == '`' && !is_fence;
            return Advance {
                next: pos + 1,
                mode: if closes {
                    Mode::Text
                } else {
                    Mode::InlineCode
                },
                emitted: None,
            };
        },
        Mode::Text => {},
    }
    let current = chars[pos];
    if current == '`' {
        return Advance { next: pos + 1, mode: Mode::InlineCode, emitted: None };
    }
    if current == '\\' && pos + 1 < len {
        let next = chars[pos + 1];
        if next == '[' {
            if let Some(k) = find_closer(chars, pos + 2, DelimiterType::BlockBracket) {
                return Advance {
                    next: k + 2,
                    mode: Mode::Text,
                    emitted: Some(DelimiterType::BlockBracket),
                };
            }
        } else if next == '(' {
            if let Some(k) = find_closer(chars, pos + 2, DelimiterType::InlineParen) {
                return Advance {
                    next: k + 2,
                    mode: Mode::Text,
                    emitted: Some(DelimiterType::InlineParen),
                };
            }
        }
        return Advance { next: pos + 2, mode: Mode::Text, emitted: None };
    }
    if current == '$' {
        if pos + 1 < len && chars[pos + 1] == '$' {
            if let Some(k) = find_closer(chars, pos + 2, DelimiterType::BlockDollar) {
                return Advance {
                    next: k + 2,
                    mode: Mode::Text,
                    emitted: Some(DelimiterType::BlockDollar),
                };
            }
        }
        if let Some(j) = find_closing_dollar(chars, pos + 1) {
            let accepted = j > pos + 1 && !is_digit(chars[pos + 1]);
            return Advance {
                next: j + 1,
                mode: Mode::Text,
                emitted: if accepted {
                    Some(DelimiterType::InlineDollar)
                } else {
                    None
                },
            };
        }
    }
    Advance { next: pos + 1, mode: Mode::Text, emitted: None }
}

/// Number of characters in the opening and in the closing delimiter.
fn delimiter_lengths(kind: DelimiterType) -> (lengths: (usize, usize))
    ensures
        lengths.0 == kind.opening().len(),
        lengths.1 == kind.closing().len(),
{
    match kind {
        DelimiterType::InlineDollar => (1, 1),
        _ => (2, 2),
    }
}

/// Scans `markdown` and returns its formulas in the order of their position.
///
/// The result is exactly [`formulas_of`] the text. Stated besides, because
/// callers lean on them: the records are sorted and disjoint, and each is
/// [`faithful`] to the text.
pub fn extract_formulas_impl(markdown: &str) -> (formulas: Vec<Formula>)
    ensures
        formulas.deep_view() == formulas_of(markdown@),
        formulas@.len() == formulas_of(markdown@).len(),
        forall|n: int|
            0 <= n < formulas@.len() ==> (#[trigger] formulas@[n])@ == formulas_of(markdown@)[n],
        sorted_and_disjoint(formulas.deep_view()),
        forall|n: int|
            0 <= n < formulas@.len() ==> faithful(markdown@, (#[trigger] formulas@[n])@),
{
    let chars = to_chars(markdown);
    let len = chars.len();
    let mut formulas: Vec<Formula> = Vec::new();
    let mut i: usize = 0;
    let mut formula_index: usize = 0;
    let mut mode = Mode::Text;
    let ghost text = markdown@;
    let ghost mut done: Seq<Span> = Seq::empty();
    while i < len
        invariant
            chars@ == text,
            len == text.len(),
            i <= len,
            formula_index == formulas@.len(),
            formula_index <= i,
            done.len() == formulas@.len(),
            forall|n: int|
                0 <= n < done.len() ==> (#[trigger] formulas@[n])@ == span_record(
                    text,
                    n as nat,
                    done[n],
                ),
            done + spans_from(text, Cursor { pos: i as int, mode }) == spans_of(text),
        decreases len - i,
    {
        let advance = scan_step(chars.as_slice(), i, mode);
        proof {
            lemma_step_advances(text, Cursor { pos: i as int, mode });
        }
        if let Some(kind) = advance.emitted {
            let (opening, closing) = delimiter_lengths(kind);
            let formula = create_formula(
                formula_index,
                chars.as_slice(),
                i + opening,
                advance.next - closing,
                i,
                advance.next,
                kind,
            );
            formulas.push(formula);
            formula_index += 1;
            proof {
                let span = Span { kind, start: i as int, end: advance.next as int };
                assert((done.push(span)) + spans_from(
                    text,
                    Cursor { pos: advance.next as int, mode: advance.mode },
                ) =~= done + (seq![span] + spans_from(
                    text,
                    Cursor { pos: advance.next as int, mode: advance.mode },
                )));
                done = done.push(span);
            }
        }
        i = advance.next;
        mode = advance.mode;
    }
    proof {
        assert(done =~= spans_of(text));
        assert(formulas.deep_view() =~= formulas_of(text));
        lemma_formulas_sorted_and_disjoint(text);
        lemma_formulas_faithful(text);
        assert forall|n: int| 0 <= n < formulas@.len() implies faithful(
            text,
            (#[trigger] formulas@[n])@,
        ) by {
            assert(formulas@[n]@ == formulas_of(text)[n]);
        }
    }
    formulas
}

/// Scans `markdown` and returns its formulas in the order of their position;
/// [`extract_formulas_impl`] for a caller that owns the text.
pub fn extract_formulas(markdown: String) -> (formulas: Vec<Formula>)
    ensures
        formulas.deep_view() == formulas_of(markdown@),
        formulas@.len() == formulas_of(markdown@).len(),
        forall|n: int|
            0 <= n < formulas@.len() ==> (#[trigger] formulas@[n])@ == formulas_of(markdown@)[n],
        sorted_and_disjoint(formulas.deep_view()),
        forall|n: int|
            0 <= n < formulas@.len() ==> faithful(markdown@, (#[trigger] formulas@[n])@),
{
    extract_formulas_impl(markdown.as_str())
}

} // verus!
