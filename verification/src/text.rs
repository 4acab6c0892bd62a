//! Line-oriented UTF-8 text as bytes: splitting on `\n` the way `str::split`
//! does, newline-terminating lines again, stripping a line's `\r`, parsing an
//! unsigned decimal the way `usize::from_str` does, and turning valid UTF-8
//! bytes back into a `String`.
//!
//! Every delimiter here is an ASCII byte, and no ASCII byte occurs inside the
//! UTF-8 encoding of a multi-byte character, so cutting UTF-8 text at an ASCII
//! byte leaves valid UTF-8 on both sides.
use vstd::prelude::*;

use crate::json::spec_decimal;
use vstd::utf8::{
    is_leading_byte_width_1, length_of_first_scalar, partial_valid_utf8, partial_valid_utf8_extend_ascii_block,
    pop_first_scalar, valid_first_scalar, valid_utf8,
};

verus! {

/// Calls `String::from_utf8`. Claims, as std documents, that it succeeds
/// exactly when the bytes are valid UTF-8, and that the string it returns is
/// encoded by exactly those bytes.
#[verifier::external_body]
pub(crate) fn string_from_utf8(bytes: Vec<u8>) -> (r: Option<String>)
    ensures
        r is Some <==> valid_utf8(bytes@),
        r matches Some(s) ==> vstd::utf8::encode_utf8(s@) == bytes@,
{
    String::from_utf8(bytes).ok()
}

/// Every byte is ASCII.
pub open spec fn is_ascii_bytes(s: Seq<u8>) -> bool {
    forall|i: int| 0 <= i < s.len() ==> #[trigger] s[i] < 0x80
}

/// ASCII bytes are valid UTF-8.
pub proof fn lemma_ascii_valid_utf8(s: Seq<u8>)
    requires
        is_ascii_bytes(s),
    ensures
        valid_utf8(s),
{
    assert forall|i: int| 0 <= 0 <= i < s.len() <= s.len() implies #[trigger] is_leading_byte_width_1(s[i]) by {}
    partial_valid_utf8_extend_ascii_block(s, 0, s.len() as int);
    assert(s.subrange(0, s.len() as int) =~= s);
}

/// Cutting valid UTF-8 just before an ASCII byte leaves valid UTF-8 on both
/// sides.
pub proof fn lemma_utf8_split_at_ascii(b: Seq<u8>, k: int)
    requires
        valid_utf8(b),
        0 <= k < b.len(),
        b[k] < 0x80,
    ensures
        valid_utf8(b.subrange(0, k)),
        valid_utf8(b.subrange(k, b.len() as int)),
    decreases b.len(),
{
    if k == 0 {
        assert(b.subrange(0, 0) =~= Seq::<u8>::empty());
        assert(b.subrange(0, b.len() as int) =~= b);
    } else {
        let l = length_of_first_scalar(b);
        let pop = pop_first_scalar(b);
        lemma_utf8_split_at_ascii(pop, k - l);
        let head = b.subrange(0, k);
        assert(pop_first_scalar(head) =~= pop.subrange(0, k - l));
        assert(b.subrange(k, b.len() as int) =~= pop.subrange(k - l, pop.len() as int));
    }
}

/// Cutting valid UTF-8 just after an ASCII byte leaves a valid UTF-8 prefix.
pub proof fn lemma_utf8_prefix_through_ascii(b: Seq<u8>, k: int)
    requires
        valid_utf8(b),
        0 <= k < b.len(),
        b[k] < 0x80,
    ensures
        valid_utf8(b.subrange(0, k + 1)),
{
    lemma_utf8_split_at_ascii(b, k);
    lemma_ascii_valid_utf8(seq![b[k]]);
    vstd::utf8::valid_utf8_concat(b.subrange(0, k), seq![b[k]]);
    assert(b.subrange(0, k) + seq![b[k]] =~= b.subrange(0, k + 1));
}

// ---------------------------------------------------------------------------
// Lines
// ---------------------------------------------------------------------------

/// The lines of `text` from `start` on, the line begun at `start` having been
/// scanned up to `i`: each piece between newlines, and the piece after the
/// last newline unless it is empty.
pub open spec fn split_lines_from(text: Seq<u8>, start: int, i: int) -> Seq<Seq<u8>>
    decreases text.len() - i,
{
    if i >= text.len() {
        if start >= text.len() {
            Seq::empty()
        } else {
            seq![text.subrange(start, text.len() as int)]
        }
    } else if text[i] == 10 {
        seq![text.subrange(start, i)] + split_lines_from(text, i + 1, i + 1)
    } else {
        split_lines_from(text, start, i + 1)
    }
}

/// The lines of `text`, as `str::split('\n')` yields them, without the empty
/// piece that follows a final newline.
pub open spec fn spec_lines(text: Seq<u8>) -> Seq<Seq<u8>> {
    split_lines_from(text, 0, 0)
}

/// The lines concatenated, each followed by a newline.
pub open spec fn terminated(lines: Seq<Seq<u8>>) -> Seq<u8>
    decreases lines.len(),
{
    if lines.len() == 0 {
        Seq::empty()
    } else {
        terminated(lines.drop_last()) + lines.last() + seq![10u8]
    }
}

/// The bytes of `text` that each range `(start, end)` covers.
pub open spec fn ranges_view(text: Seq<u8>, ranges: Seq<(usize, usize)>) -> Seq<Seq<u8>> {
    Seq::new(ranges.len(), |m: int| text.subrange(ranges[m].0 as int, ranges[m].1 as int))
}

/// The ranges are the lines of `text` in order: the first starts at 0, each
/// but the last ends at a newline and the next starts right after it.
pub open spec fn line_ranges_of(text: Seq<u8>, ranges: Seq<(usize, usize)>) -> bool {
    &&& ranges_view(text, ranges) == spec_lines(text)
    &&& forall|m: int| #![trigger ranges[m]] 0 <= m < ranges.len() ==> ranges[m].0 <= ranges[m].1 <= text.len()
    &&& forall|m: int| #![trigger ranges[m]] 0 <= m < ranges.len() ==> (ranges[m].1 < text.len() ==> text[ranges[m].1 as int] == 10)
    &&& forall|m: int| #![trigger ranges[m]] 0 <= m < ranges.len() - 1 ==> ranges[m].1 < text.len() && ranges[m + 1].0 == ranges[m].1 + 1
    &&& ranges.len() > 0 ==> ranges[0].0 == 0
}

/// Split `text` into lines, as ranges of byte positions.
pub(crate) fn line_ranges(text: &[u8]) -> (r: Vec<(usize, usize)>)
    ensures
        line_ranges_of(text@, r@),
{
    let mut ranges: Vec<(usize, usize)> = Vec::new();
    let mut start: usize = 0;
    let mut i: usize = 0;
    while i < text.len()
        invariant
            start <= i <= text@.len(),
            ranges_view(text@, ranges@) + split_lines_from(text@, start as int, i as int) == spec_lines(text@),
            forall|m: int| #![trigger ranges@[m]] 0 <= m < ranges@.len() ==> ranges@[m].0 <= ranges@[m].1 < text@.len()
                && text@[ranges@[m].1 as int] == 10,
            forall|m: int| #![trigger ranges@[m]] 0 <= m < ranges@.len() - 1 ==> ranges@[m + 1].0 == ranges@[m].1 + 1,
            ranges@.len() > 0 ==> start == ranges@.last().1 + 1,
            ranges@.len() > 0 ==> ranges@[0].0 == 0,
            ranges@.len() == 0 ==> start == 0,
        decreases text@.len() - i,
    {
        if text[i] == 10 {
            let ghost before = ranges@;
            ranges.push((start, i));
            proof {
                assert(ranges_view(text@, ranges@) =~= ranges_view(text@, before) + seq![
                    text@.subrange(start as int, i as int),
                ]);
            }
            start = i + 1;
        }
        i = i + 1;
    }
    let ghost before = ranges@;
    if start < text.len() {
        ranges.push((start, text.len()));
        assert(ranges_view(text@, ranges@) =~= ranges_view(text@, before) + seq![
            text@.subrange(start as int, text@.len() as int),
        ]);
    } else {
    }
    assert forall|m: int| #![trigger ranges@[m]] 0 <= m < ranges@.len() implies ranges@[m].0 <= ranges@[m].1 <= text@.len()
        && (ranges@[m].1 < text@.len() ==> text@[ranges@[m].1 as int] == 10)
        && (m < ranges@.len() - 1 ==> ranges@[m].1 < text@.len() && ranges@[m + 1].0 == ranges@[m].1 + 1) by {}
    ranges
}

/// The first `k` lines, newline-terminated, are exactly the text before line
/// `k`.
pub proof fn lemma_terminated_prefix(text: Seq<u8>, ranges: Seq<(usize, usize)>, k: int)
    requires
        line_ranges_of(text, ranges),
        0 <= k < ranges.len(),
    ensures
        terminated(spec_lines(text).subrange(0, k)) == text.subrange(0, ranges[k].0 as int),
    decreases k,
{
    let lines = spec_lines(text);
    if k == 0 {
    } else {
        lemma_terminated_prefix(text, ranges, k - 1);
        assert(lines.subrange(0, k).drop_last() =~= lines.subrange(0, k - 1));
        assert(text.subrange(0, ranges[k].0 as int) =~= text.subrange(0, ranges[k - 1].0 as int)
            + text.subrange(ranges[k - 1].0 as int, ranges[k - 1].1 as int) + seq![10u8]);
    }
}

/// No newline in `s`.
pub open spec fn no_newline(s: Seq<u8>) -> bool {
    forall|i: int| 0 <= i < s.len() ==> #[trigger] s[i] != 10
}

proof fn lemma_lines_shift(a: Seq<u8>, b: Seq<u8>, start: int, i: int)
    requires
        0 <= start <= i <= b.len(),
    ensures
        split_lines_from(a + b, a.len() + start, a.len() + i) == split_lines_from(b, start, i),
    decreases b.len() - i,
{
    let t = a + b;
    if i < b.len() {
        if b[i] == 10 {
            lemma_lines_shift(a, b, i + 1, i + 1);
            assert(t.subrange(a.len() + start, a.len() + i) =~= b.subrange(start, i));
        } else {
            lemma_lines_shift(a, b, start, i + 1);
        }
    } else if start < b.len() {
        assert(t.subrange(a.len() + start, t.len() as int) =~= b.subrange(start, b.len() as int));
    }
}

proof fn lemma_lines_concat_from(a: Seq<u8>, b: Seq<u8>, start: int, i: int)
    requires
        0 <= start <= i <= a.len(),
        i < a.len() || start == i,
        a.len() > 0 ==> a.last() == 10,
    ensures
        split_lines_from(a + b, start, i) == split_lines_from(a, start, i) + spec_lines(b),
    decreases a.len() - i,
{
    let t = a + b;
    if i == a.len() {
        lemma_lines_shift(a, b, 0, 0);
    } else {
        if a[i] == 10 {
            lemma_lines_concat_from(a, b, i + 1, i + 1);
            assert(t.subrange(start, i) =~= a.subrange(start, i));
            assert(seq![a.subrange(start, i)] + (split_lines_from(a, i + 1, i + 1) + spec_lines(b))
                =~= seq![a.subrange(start, i)] + split_lines_from(a, i + 1, i + 1) + spec_lines(b));
        } else {
            lemma_lines_concat_from(a, b, start, i + 1);
        }
    }
}

/// The lines of newline-terminated text followed by more text are the lines
/// of each, in order.
pub proof fn lemma_lines_concat(a: Seq<u8>, b: Seq<u8>)
    requires
        a.len() > 0 ==> a.last() == 10,
    ensures
        spec_lines(a + b) == spec_lines(a) + spec_lines(b),
{
    lemma_lines_concat_from(a, b, 0, 0);
}

proof fn lemma_single_line_from(l: Seq<u8>, i: int)
    requires
        no_newline(l),
        0 <= i <= l.len(),
    ensures
        split_lines_from(l + seq![10u8], 0, i) == seq![l],
    decreases l.len() - i,
{
    let t = l + seq![10u8];
    if i < l.len() {
        lemma_single_line_from(l, i + 1);
    } else {
        assert(t.subrange(0, i) =~= l);
        assert(split_lines_from(t, i + 1, i + 1) =~= Seq::<Seq<u8>>::empty());
    }
}

/// A newline-terminated line without other newlines is one line.
pub proof fn lemma_single_line(l: Seq<u8>)
    requires
        no_newline(l),
    ensures
        spec_lines(l + seq![10u8]) == seq![l],
{
    lemma_single_line_from(l, 0);
}

/// A line without its final carriage return, as `str::lines` yields a line
/// that ended in `\r\n`.
pub open spec fn strip_cr(line: Seq<u8>) -> Seq<u8> {
    if line.len() > 0 && line.last() == 13 {
        line.drop_last()
    } else {
        line
    }
}

// ---------------------------------------------------------------------------
// Unsigned decimals
// ---------------------------------------------------------------------------

/// An ASCII decimal digit.
pub open spec fn is_digit(b: u8) -> bool {
    48 <= b <= 57
}

/// Every byte is an ASCII decimal digit.
pub open spec fn all_digits(s: Seq<u8>) -> bool {
    forall|i: int| 0 <= i < s.len() ==> is_digit(#[trigger] s[i])
}

/// The number the decimal digits `s` denote.
pub open spec fn digits_value(s: Seq<u8>) -> nat
    decreases s.len(),
{
    if s.len() == 0 {
        0
    } else {
        digits_value(s.drop_last()) * 10 + (s.last() - 48) as nat
    }
}

/// What `usize::from_str` gives for the text `s`: an optional `+` followed by
/// at least one decimal digit and nothing else, whose value fits in a `usize`.
pub open spec fn spec_parse_usize(s: Seq<u8>) -> Option<usize> {
    let digits = if s.len() > 0 && s[0] == 43 {
        s.drop_first()
    } else {
        s
    };
    if digits.len() > 0 && all_digits(digits) && digits_value(digits) <= usize::MAX {
        Some(digits_value(digits) as usize)
    } else {
        None
    }
}

proof fn lemma_digits_value_monotone(s: Seq<u8>, i: int)
    requires
        all_digits(s),
        0 <= i <= s.len(),
    ensures
        digits_value(s.subrange(0, i)) <= digits_value(s),
    decreases s.len() - i,
{
    if i < s.len() {
        lemma_digits_value_monotone(s, i + 1);
        let pre = s.subrange(0, i + 1);
        assert(pre.drop_last() =~= s.subrange(0, i));
    } else {
        assert(s.subrange(0, i) =~= s);
    }
}

/// Parse the text `s` as `usize::from_str` does.
pub(crate) fn parse_usize(s: &[u8]) -> (r: Option<usize>)
    ensures
        r == spec_parse_usize(s@),
{
    let start: usize = if s.len() > 0 && s[0] == 43 {
        1
    } else {
        0
    };
    let ghost digits = s@.subrange(start as int, s@.len() as int);
    assert(digits =~= (if s@.len() > 0 && s@[0] == 43 { s@.drop_first() } else { s@ }));
    if start == s.len() {
        return None;
    }
    let mut acc: usize = 0;
    let mut i: usize = start;
    while i < s.len()
        invariant
            start <= i <= s@.len(),
            digits == s@.subrange(start as int, s@.len() as int),
            all_digits(s@.subrange(start as int, i as int)),
            acc == digits_value(s@.subrange(start as int, i as int)),
            spec_parse_usize(s@) == (if digits.len() > 0 && all_digits(digits) && digits_value(digits) <= usize::MAX {
                Some(digits_value(digits) as usize)
            } else {
                None
            }),
        decreases s@.len() - i,
    {
        let b = s[i];
        let ghost pre = s@.subrange(start as int, i + 1);
        proof {
            assert(pre.drop_last() =~= s@.subrange(start as int, i as int));
        }
        if b < 48 || b > 57 {
            assert(digits[i - start] == b);
            return None;
        }
        let next = match acc.checked_mul(10) {
            Some(m) => m.checked_add((b - 48) as usize),
            None => None,
        };
        match next {
            Some(v) => {
                acc = v;
            },
            None => {
                proof {
                    if all_digits(digits) {
                        assert(digits.subrange(0, i + 1 - start) =~= pre);
                        lemma_digits_value_monotone(digits, i + 1 - start);
                    }
                }
                return None;
            },
        }
        i = i + 1;
    }
    Some(acc)
}

/// The digits of a number parse back to it.
pub proof fn lemma_parse_decimal(n: usize)
    ensures
        spec_parse_usize(spec_decimal(n as nat)) == Some(n),
{
    lemma_decimal_digits(n as nat);
}

/// The decimal digits of a number: at least one, all digits, no sign, and
/// denoting the number.
pub proof fn lemma_decimal_digits(n: nat)
    ensures
        spec_decimal(n).len() > 0,
        all_digits(spec_decimal(n)),
        digits_value(spec_decimal(n)) == n,
        spec_decimal(n)[0] != 43,
    decreases n,
{
    if n < 10 {
        let d = spec_decimal(n);
        assert(digits_value(d.drop_last()) == 0);
    } else {
        lemma_decimal_digits(n / 10);
        let d = spec_decimal(n);
        assert(d.drop_last() =~= spec_decimal(n / 10));
        vstd::arithmetic::div_mod::lemma_fundamental_div_mod(n as int, 10);
    }
}

} // verus!
