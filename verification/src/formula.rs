//! The formula record and its construction from a located span.

use crate::text::{
    count_newlines, decimal, line_number_at, push_chars, push_decimal, trim, trimmed_bounds,
};
use vstd::prelude::*;
use vstd::string::StringExecFns;

verus! {

/// The bracketing convention that marks a formula.
#[derive(Debug, Clone, Copy, PartialEq, Eq, Structural)]
pub enum DelimiterType {
    /// `$...$`
    InlineDollar,
    /// `$$...$$`
    BlockDollar,
    /// `\(...\)`
    InlineParen,
    /// `\[...\]`
    BlockBracket,
}

impl DelimiterType {
    /// The characters that open a formula of this kind.
    pub open spec fn opening(self) -> Seq<char> {
        match self {
            DelimiterType::InlineDollar => seq!['$'],
            DelimiterType::BlockDollar => seq!['$', '$'],
            DelimiterType::InlineParen => seq!['\\', '('],
            DelimiterType::BlockBracket => seq!['\\', '['],
        }
    }

    /// The characters that close a formula of this kind.
    pub open spec fn closing(self) -> Seq<char> {
        match self {
            DelimiterType::InlineDollar => seq!['$'],
            DelimiterType::BlockDollar => seq!['$', '$'],
            DelimiterType::InlineParen => seq!['\\', ')'],
            DelimiterType::BlockBracket => seq!['\\', ']'],
        }
    }
}

/// One recognized formula.
#[derive(Debug, Clone)]
pub struct Formula {
    /// `formula-<n>`, where `n` counts the formulas emitted before this one.
    pub id: String,
    /// The math between the delimiters, trimmed.
    pub raw: String,
    /// The exact source text of the span, delimiters included.
    pub raw_with_delimiters: String,
    /// The convention that brackets the span.
    pub delimiter_type: DelimiterType,
    /// Character index of the first delimiter character.
    pub start_offset: usize,
    /// Character index just past the last delimiter character.
    pub end_offset: usize,
    /// One-based line of `start_offset`.
    pub line_number: usize,
    /// Whether the formula is held to be well formed. The scanner does not
    /// judge the math and always answers yes.
    pub is_valid: bool,
    /// Room for a later stage to say what is wrong with the formula. The
    /// scanner leaves it empty.
    pub error_message: Option<String>,
}

/// The mathematical content of a [`Formula`].
pub struct FormulaView {
    pub id: Seq<char>,
    pub raw: Seq<char>,
    pub raw_with_delimiters: Seq<char>,
    pub delimiter_type: DelimiterType,
    pub start_offset: nat,
    pub end_offset: nat,
    pub line_number: nat,
    pub is_valid: bool,
    pub error_message: Option<Seq<char>>,
}

impl View for Formula {
    type V = FormulaView;

    open spec fn view(&self) -> FormulaView {
        FormulaView {
            id: self.id@,
            raw: self.raw@,
            raw_with_delimiters: self.raw_with_delimiters@,
            delimiter_type: self.delimiter_type,
            start_offset: self.start_offset as nat,
            end_offset: self.end_offset as nat,
            line_number: self.line_number as nat,
            is_valid: self.is_valid,
            error_message: match self.error_message {
                Some(message) => Some(message@),
                None => None,
            },
        }
    }
}

impl DeepView for Formula {
    type V = FormulaView;

    open spec fn deep_view(&self) -> FormulaView {
        self@
    }
}

/// The identifier of the formula emitted after `index` others.
pub open spec fn formula_id(index: nat) -> Seq<char> {
    "formula-"@ + decimal(index)
}

/// The record for a span of `text`: the math lies in `[raw_start, raw_end)`
/// and the whole span, delimiters included, in `[delim_start, delim_end)`.
pub open spec fn formula_record(
    index: nat,
    text: Seq<char>,
    raw_start: int,
    raw_end: int,
    delim_start: int,
    delim_end: int,
    delimiter_type: DelimiterType,
) -> FormulaView {
    FormulaView {
        id: formula_id(index),
        raw: trim(text.subrange(raw_start, raw_end)),
        raw_with_delimiters: text.subrange(delim_start, delim_end),
        delimiter_type,
        start_offset: delim_start as nat,
        end_offset: delim_end as nat,
        line_number: line_number_at(text, delim_start),
        is_valid: true,
        error_message: None,
    }
}

/// Builds the record of the `index`-th formula from its position in `chars`.
///
/// `delim_start` has to lie below `usize::MAX`, so that the line number,
/// which can exceed it by one, fits in `usize`.
pub fn create_formula(
    index: usize,
    chars: &[char],
    raw_start: usize,
    raw_end: usize,
    delim_start: usize,
    delim_end: usize,
    delimiter_type: DelimiterType,
) -> (formula: Formula)
    requires
        raw_start <= raw_end <= chars@.len(),
        delim_start <= delim_end <= chars@.len(),
        delim_start < usize::MAX,
    ensures
        formula@ == formula_record(
            index as nat,
            chars@,
            raw_start as int,
            raw_end as int,
            delim_start as int,
            delim_end as int,
            delimiter_type,
        ),
{
    let (lo, hi) = trimmed_bounds(chars, raw_start, raw_end);
    let mut raw = String::new();
    push_chars(&mut raw, chars, lo, hi);
    let mut raw_with_delimiters = String::new();
    push_chars(&mut raw_with_delimiters, chars, delim_start, delim_end);
    let line_number = count_newlines(chars, delim_start) + 1;
    let mut id = String::from_str("formula-");
    push_decimal(&mut id, index as u64);
    Formula {
        id,
        raw,
        raw_with_delimiters,
        delimiter_type,
        start_offset: delim_start,
        end_offset: delim_end,
        line_number,
        is_valid: true,
        error_message: None,
    }
}

} // verus!
