//! Character-level building blocks: whitespace trimming, newline counting,
//! decimal rendering, and conversions between strings and character vectors.

use vstd::prelude::*;

verus! {

/// Whether `c` carries the Unicode `White_Space` property: the twenty-five
/// characters that the Unicode Character Database lists under that name.
pub open spec fn white_space(c: char) -> bool {
    ||| '\u{9}' <= c <= '\u{d}'
    ||| c == '\u{20}'
    ||| c == '\u{85}'
    ||| c == '\u{a0}'
    ||| c == '\u{1680}'
    ||| '\u{2000}' <= c <= '\u{200a}'
    ||| c == '\u{2028}'
    ||| c == '\u{2029}'
    ||| c == '\u{202f}'
    ||| c == '\u{205f}'
    ||| c == '\u{3000}'
}

/// Trusted: calls `char::is_whitespace`, which std documents as telling
/// whether the character has the `White_Space` property. The contract
/// states that property as the table of [`white_space`].
#[verifier::external_body]
fn is_white_space(c: char) -> (b: bool)
    ensures
        b == white_space(c),
{
    c.is_whitespace()
}

/// Trusted: `String::push` appends exactly one character to the end of the
/// string and leaves the existing characters untouched.
pub assume_specification[ String::push ](s: &mut String, ch: char)
    ensures
        final(s)@ == old(s)@.push(ch),
;

/// `s` without its longest prefix of whitespace characters.
pub open spec fn trim_start(s: Seq<char>) -> Seq<char>
    decreases s.len(),
{
    if s.len() > 0 && white_space(s.first()) {
        trim_start(s.drop_first())
    } else {
        s
    }
}

/// `s` without its longest suffix of whitespace characters.
pub open spec fn trim_end(s: Seq<char>) -> Seq<char>
    decreases s.len(),
{
    if s.len() > 0 && white_space(s.last()) {
        trim_end(s.drop_last())
    } else {
        s
    }
}

/// `s` with leading and trailing whitespace removed.
pub open spec fn trim(s: Seq<char>) -> Seq<char> {
    trim_end(trim_start(s))
}

/// The predicate selecting line feeds.
pub open spec fn is_newline() -> spec_fn(char) -> bool {
    |c: char| c == '\n'
}

/// Number of line feeds in `s`.
pub open spec fn newline_count(s: Seq<char>) -> nat {
    s.filter(is_newline()).len()
}

/// One-based line on which the character at `offset` of `text` stands.
pub open spec fn line_number_at(text: Seq<char>, offset: int) -> nat {
    newline_count(text.subrange(0, offset)) + 1
}

/// Whether `c` is one of the ASCII digits `0` to `9`.
pub open spec fn is_ascii_digit(c: char) -> bool {
    '0' <= c <= '9'
}

/// The character that writes the digit `d`.
pub open spec fn digit_char(d: nat) -> char
    recommends
        d < 10,
{
    (('0' as nat) + d) as char
}

/// Decimal rendering of `n`, most significant digit first, without padding.
pub open spec fn decimal(n: nat) -> Seq<char>
    decreases n,
{
    if n < 10 {
        seq![digit_char(n)]
    } else {
        decimal(n / 10).push(digit_char(n % 10))
    }
}

/// The number that a sequence of ASCII digits writes in base ten.
pub open spec fn decimal_value(digits: Seq<char>) -> nat
    decreases digits.len(),
{
    if digits.len() == 0 {
        0
    } else {
        (decimal_value(digits.drop_last()) * 10 + (digits.last() as nat - '0' as nat)) as nat
    }
}

/// Whether `[lo, hi)` is the stretch of `s` that trimming keeps: only
/// whitespace lies before and after it and none at its own two ends. When
/// nothing is kept, the stretch is the empty one at the end of `s`.
pub open spec fn is_trimmed_stretch(s: Seq<char>, lo: int, hi: int) -> bool {
    &&& 0 <= lo <= hi <= s.len()
    &&& forall|k: int| 0 <= k < lo ==> white_space(#[trigger] s[k])
    &&& forall|k: int| hi <= k < s.len() ==> white_space(#[trigger] s[k])
    &&& lo < hi ==> !white_space(s[lo]) && !white_space(s[hi - 1])
    &&& lo == hi ==> hi == s.len()
}

/// Skipping whitespace at the front does not change what `trim_start` keeps.
proof fn lemma_trim_start_skips(s: Seq<char>, lo: int)
    requires
        0 <= lo <= s.len(),
        forall|k: int| 0 <= k < lo ==> white_space(#[trigger] s[k]),
    ensures
        trim_start(s) == trim_start(s.subrange(lo, s.len() as int)),
    decreases lo,
{
    if lo == 0 {
        assert(s.subrange(0, s.len() as int) =~= s);
    } else {
        let rest = s.drop_first();
        assert forall|k: int| 0 <= k < lo - 1 implies white_space(#[trigger] rest[k]) by {
            assert(rest[k] == s[k + 1]);
        }
        lemma_trim_start_skips(rest, lo - 1);
        assert(rest.subrange(lo - 1, rest.len() as int) =~= s.subrange(lo, s.len() as int));
        assert(white_space(s[0]));
    }
}

/// Dropping whitespace at the back does not change what `trim_end` keeps.
proof fn lemma_trim_end_drops(s: Seq<char>, hi: int)
    requires
        0 <= hi <= s.len(),
        forall|k: int| hi <= k < s.len() ==> white_space(#[trigger] s[k]),
    ensures
        trim_end(s) == trim_end(s.subrange(0, hi)),
    decreases s.len() - hi,
{
    if hi == s.len() {
        assert(s.subrange(0, hi) =~= s);
    } else {
        let rest = s.drop_last();
        assert forall|k: int| hi <= k < rest.len() implies white_space(#[trigger] rest[k]) by {
            assert(rest[k] == s[k]);
        }
        lemma_trim_end_drops(rest, hi);
        assert(rest.subrange(0, hi) =~= s.subrange(0, hi));
        assert(white_space(s[s.len() - 1]));
    }
}

/// Trimming keeps exactly the trimmed stretch.
pub proof fn lemma_trim_keeps_stretch(s: Seq<char>, lo: int, hi: int)
    requires
        is_trimmed_stretch(s, lo, hi),
    ensures
        trim(s) == s.subrange(lo, hi),
{
    let tail = s.subrange(lo, s.len() as int);
    lemma_trim_start_skips(s, lo);
    assert(trim_start(tail) == tail) by {
        if tail.len() > 0 {
            assert(tail.first() == s[lo]);
        }
    }
    assert forall|k: int| hi - lo <= k < tail.len() implies white_space(#[trigger] tail[k]) by {
        assert(tail[k] == s[k + lo]);
    }
    lemma_trim_end_drops(tail, hi - lo);
    let kept = tail.subrange(0, hi - lo);
    assert(kept =~= s.subrange(lo, hi));
    assert(trim_end(kept) == kept) by {
        if kept.len() > 0 {
            assert(kept.last() == s[hi - 1]);
        }
    }
}

/// Every sequence has a trimmed stretch.
pub proof fn lemma_trimmed_stretch_exists(s: Seq<char>) -> (bounds: (int, int))
    ensures
        is_trimmed_stretch(s, bounds.0, bounds.1),
    decreases s.len(),
{
    if s.len() == 0 {
        (0, 0)
    } else if white_space(s.first()) {
        let rest = s.drop_first();
        let (lo, hi) = lemma_trimmed_stretch_exists(rest);
        assert forall|k: int| 0 <= k < lo + 1 implies white_space(#[trigger] s[k]) by {
            if k > 0 {
                assert(rest[k - 1] == s[k]);
            }
        }
        assert forall|k: int| hi + 1 <= k < s.len() implies white_space(#[trigger] s[k]) by {
            assert(rest[k - 1] == s[k]);
        }
        if lo < hi {
            assert(rest[lo] == s[lo + 1]);
            assert(rest[hi - 1] == s[hi]);
        }
        (lo + 1, hi + 1)
    } else if white_space(s.last()) {
        let rest = s.drop_last();
        let (lo, hi) = lemma_trimmed_stretch_exists(rest);
        assert(rest[0] == s[0]);
        assert(lo == 0);
        assert forall|k: int| hi <= k < s.len() implies white_space(#[trigger] s[k]) by {
            if k < rest.len() {
                assert(rest[k] == s[k]);
            }
        }
        assert(rest[hi - 1] == s[hi - 1]);
        (lo, hi)
    } else {
        (0, s.len() as int)
    }
}

/// What trimming keeps neither begins nor ends with whitespace, so trimming
/// it again changes nothing.
pub proof fn lemma_trim_leaves_no_margin(s: Seq<char>)
    ensures
        trim(s).len() > 0 ==> !white_space(trim(s).first()) && !white_space(trim(s).last()),
        trim(trim(s)) == trim(s),
{
    let (lo, hi) = lemma_trimmed_stretch_exists(s);
    lemma_trim_keeps_stretch(s, lo, hi);
    let kept = s.subrange(lo, hi);
    if lo < hi {
        assert(kept.first() == s[lo]);
        assert(kept.last() == s[hi - 1]);
    }
}

/// `decimal` writes a number the usual way: in ASCII digits, with no zero in
/// front of a positive number, so that reading the digits gives the number
/// back. Different numbers are therefore written differently.
pub proof fn lemma_decimal_reads_back(n: nat)
    ensures
        decimal(n).len() >= 1,
        forall|k: int| 0 <= k < decimal(n).len() ==> is_ascii_digit(#[trigger] decimal(n)[k]),
        n > 0 ==> decimal(n)[0] != '0',
        decimal_value(decimal(n)) == n,
    decreases n,
{
    if n < 10 {
        assert(decimal(n).drop_last() =~= Seq::<char>::empty());
        assert(decimal_value(decimal(n).drop_last()) == 0);
    } else {
        lemma_decimal_reads_back(n / 10);
        assert(decimal(n).drop_last() =~= decimal(n / 10));
    }
}

/// Extending a prefix by one character adds one to the count exactly when
/// that character is a line feed.
pub proof fn lemma_newline_count_step(s: Seq<char>, k: int)
    requires
        0 <= k < s.len(),
    ensures
        newline_count(s.subrange(0, k + 1)) == newline_count(s.subrange(0, k)) + if s[k]
            == '\n' {
            1nat
        } else {
            0nat
        },
        newline_count(s.subrange(0, 0)) == 0,
{
    reveal(Seq::filter);
    assert(s.subrange(0, k + 1).drop_last() =~= s.subrange(0, k));
}

/// Tests for an ASCII digit.
pub fn is_digit(c: char) -> (b: bool)
    ensures
        b == is_ascii_digit(c),
{
    c >= '0' && c <= '9'
}

/// Collects the characters of `s` in order.
pub fn to_chars(s: &str) -> (chars: Vec<char>)
    ensures
        chars@ == s@,
{
    let mut chars: Vec<char> = Vec::new();
    for c in it: s.chars()
        invariant
            chars@ == it.seq().take(it.index() as int),
    {
        chars.push(c);
    }
    chars
}

/// Appends `chars[start..end]` to `out`.
pub fn push_chars(out: &mut String, chars: &[char], start: usize, end: usize)
    requires
        start <= end <= chars@.len(),
    ensures
        final(out)@ == old(out)@ + chars@.subrange(start as int, end as int),
{
    let mut i: usize = start;
    while i < end
        invariant
            start <= i <= end <= chars@.len(),
            out@ == old(out)@ + chars@.subrange(start as int, i as int),
        decreases end - i,
    {
        out.push(chars[i]);
        i += 1;
    }
}

/// Appends the decimal rendering of `n` to `out`.
pub fn push_decimal(out: &mut String, n: u64)
    ensures
        final(out)@ == old(out)@ + decimal(n as nat),
    decreases n,
{
    if n >= 10 {
        push_decimal(out, n / 10);
    }
    let d: u8 = (n % 10) as u8;
    // 48 is the code of the digit zero.
    out.push((48u8 + d) as char);
}

/// Finds the stretch of `chars[start..end]` that trimming keeps.
pub fn trimmed_bounds(chars: &[char], start: usize, end: usize) -> (bounds: (usize, usize))
    requires
        start <= end <= chars@.len(),
    ensures
        start <= bounds.0 <= bounds.1 <= end,
        is_trimmed_stretch(
            chars@.subrange(start as int, end as int),
            bounds.0 - start,
            bounds.1 - start,
        ),
        chars@.subrange(bounds.0 as int, bounds.1 as int) == trim(
            chars@.subrange(start as int, end as int),
        ),
{
    let ghost range = chars@.subrange(start as int, end as int);
    let mut lo: usize = start;
    while lo < end && is_white_space(chars[lo])
        invariant
            start <= lo <= end <= chars@.len(),
            range == chars@.subrange(start as int, end as int),
            forall|k: int| 0 <= k < lo - start ==> white_space(#[trigger] range[k]),
        decreases end - lo,
    {
        assert(range[lo - start] == chars@[lo as int]);
        lo += 1;
    }
    let mut hi: usize = end;
    while hi > lo && is_white_space(chars[hi - 1])
        invariant
            start <= lo <= hi <= end <= chars@.len(),
            range == chars@.subrange(start as int, end as int),
            lo == end || !white_space(chars@[lo as int]),
            forall|k: int| hi - start <= k < range.len() ==> white_space(#[trigger] range[k]),
        decreases hi - lo,
    {
        assert(range[hi - 1 - start] == chars@[hi - 1]);
        hi -= 1;
    }
    proof {
        if lo < end {
            assert(range[lo - start] == chars@[lo as int]);
        }
        if lo < hi {
            assert(range[hi - 1 - start] == chars@[hi - 1]);
        }
        lemma_trim_keeps_stretch(range, lo - start, hi - start);
        assert(range.subrange(lo - start, hi - start) =~= chars@.subrange(lo as int, hi as int));
    }
    (lo, hi)
}

/// Counts the line feeds among the first `end` characters.
pub fn count_newlines(chars: &[char], end: usize) -> (count: usize)
    requires
        end <= chars@.len(),
    ensures
        count == newline_count(chars@.subrange(0, end as int)),
        count <= end,
{
    let mut count: usize = 0;
    let mut i: usize = 0;
    while i < end
        invariant
            i <= end <= chars@.len(),
            count <= i,
            count == newline_count(chars@.subrange(0, i as int)),
        decreases end - i,
    {
        proof {
            lemma_newline_count_step(chars@, i as int);
        }
        if chars[i] == '\n' {
            count += 1;
        }
        i += 1;
    }
    count
}

} // verus!
