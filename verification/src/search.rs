//! Forward search for a literal pattern in a character buffer.

use vstd::prelude::*;

verus! {

/// Whether `pattern` stands in `text` at index `at`.
pub open spec fn occurs_at(text: Seq<char>, at: int, pattern: Seq<char>) -> bool {
    &&& 0 <= at
    &&& at + pattern.len() <= text.len()
    &&& text.subrange(at, at + pattern.len()) =~= pattern
}

/// Index of the first occurrence of `pattern` in `text` at or after `from`.
///
/// The empty pattern is found at `from` itself, wherever `from` lies.
pub open spec fn index_of(text: Seq<char>, from: int, pattern: Seq<char>) -> Option<int>
    decreases text.len() - from,
{
    if pattern.len() == 0 {
        Some(from)
    } else if from + pattern.len() > text.len() {
        None
    } else if occurs_at(text, from, pattern) {
        Some(from)
    } else {
        index_of(text, from + 1, pattern)
    }
}

/// `index_of` reports the leftmost occurrence at or after `from`, and
/// reports `None` only when there is none.
pub proof fn lemma_index_of_is_first(text: Seq<char>, from: int, pattern: Seq<char>)
    requires
        0 <= from,
        pattern.len() > 0,
    ensures
        match index_of(text, from, pattern) {
            Some(k) => {
                &&& from <= k
                &&& occurs_at(text, k, pattern)
                &&& forall|j: int| from <= j < k ==> !occurs_at(text, j, pattern)
            },
            None => forall|j: int| from <= j ==> !occurs_at(text, j, pattern),
        },
    decreases text.len() - from,
{
    if from + pattern.len() <= text.len() && !occurs_at(text, from, pattern) {
        lemma_index_of_is_first(text, from + 1, pattern);
    }
}

/// Compares `pattern` against the characters of `chars` starting at `at`.
fn occurs_here(chars: &[char], at: usize, pattern: &[char]) -> (b: bool)
    requires
        at + pattern@.len() <= chars@.len(),
    ensures
        b == occurs_at(chars@, at as int, pattern@),
{
    let n = pattern.len();
    let len = chars.len();
    let mut k: usize = 0;
    while k < n
        invariant
            n == pattern@.len(),
            len == chars@.len(),
            at + n <= len,
            k <= n,
            forall|m: int| 0 <= m < k ==> chars@[at + m] == pattern@[m],
        decreases n - k,
    {
        if chars[at + k] != pattern[k] {
            assert(chars@.subrange(at as int, at + n)[k as int] != pattern@[k as int]);
            return false;
        }
        k += 1;
    }
    true
}

/// Returns the index of the first occurrence of `pattern` within `chars` at
/// or after `from`, or `None` if there is none. An empty pattern is found at
/// `from`.
pub fn chars_index_of(chars: &[char], from: usize, pattern: &[char]) -> (found: Option<usize>)
    ensures
        match found {
            Some(k) => index_of(chars@, from as int, pattern@) == Some(k as int),
            None => index_of(chars@, from as int, pattern@) is None,
        },
        pattern@.len() == 0 ==> found == Some(from),
        pattern@.len() > 0 ==> match found {
            Some(k) => {
                &&& from <= k
                &&& occurs_at(chars@, k as int, pattern@)
                &&& forall|j: int| from <= j < k ==> !occurs_at(chars@, j, pattern@)
            },
            None => forall|j: int| from <= j ==> !occurs_at(chars@, j, pattern@),
        },
{
    let pat_len = pattern.len();
    if pat_len == 0 {
        return Some(from);
    }
    proof {
        lemma_index_of_is_first(chars@, from as int, pattern@);
    }
    let len = chars.len();
    if pat_len > len {
        return None;
    }
    let limit = len - pat_len;
    let mut i: usize = from;
    while i <= limit
        invariant
            pat_len == pattern@.len(),
            pat_len > 0,
            len == chars@.len(),
            limit + pat_len == len,
            from <= i,
            index_of(chars@, from as int, pattern@) == index_of(chars@, i as int, pattern@),
        decreases limit + 1 - i,
    {
        if occurs_here(chars, i, pattern) {
            proof {
                lemma_index_of_is_first(chars@, from as int, pattern@);
            }
            return Some(i);
        }
        i += 1;
    }
    proof {
        lemma_index_of_is_first(chars@, from as int, pattern@);
    }
    None
}

} // verus!
