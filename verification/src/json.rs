//! Compact JSON text written byte by byte: unsigned decimal numbers, arrays of
//! byte values and escaped strings, in the exact form of the canonical
//! encodings that receipts and attestations are committed under (no
//! whitespace, integers without leading zeros, `"` and `\` and control bytes
//! escaped, every other byte as it is).
use vstd::prelude::*;

verus! {

/// The ASCII decimal digits of `n`, without leading zeros (`0` is `"0"`).
pub open spec fn spec_decimal(n: nat) -> Seq<u8>
    decreases n,
{
    if n < 10 {
        seq![(48 + n) as u8]
    } else {
        spec_decimal(n / 10) + seq![(48 + n % 10) as u8]
    }
}

/// The comma-separated decimal list of the byte values in `s`.
pub open spec fn spec_json_items(s: Seq<u8>) -> Seq<u8>
    decreases s.len(),
{
    if s.len() == 0 {
        Seq::empty()
    } else if s.len() == 1 {
        spec_decimal(s[0] as nat)
    } else {
        spec_json_items(s.drop_last()) + seq![44u8] + spec_decimal(s.last() as nat)
    }
}

/// The compact JSON array of the numbers in `s`: `[n,n,…]`.
pub open spec fn spec_json_array(s: Seq<u8>) -> Seq<u8> {
    seq![91u8] + spec_json_items(s) + seq![93u8]
}

/// A lowercase hexadecimal digit.
pub open spec fn spec_hex_digit(d: u8) -> u8 {
    if d < 10 {
        (48 + d) as u8
    } else {
        (87 + d) as u8
    }
}

/// The JSON form of one byte of a UTF-8 string: `"` and `\` are escaped with a
/// backslash, backspace, tab, line feed, form feed and carriage return with
/// their one-letter escapes, the other control bytes as `\u00xx` (lowercase
/// hex), and every other byte stands as it is.
pub open spec fn spec_escape_byte(b: u8) -> Seq<u8> {
    if b == 0x22 {
        seq![0x5cu8, 0x22u8]
    } else if b == 0x5c {
        seq![0x5cu8, 0x5cu8]
    } else if b == 0x08 {
        seq![0x5cu8, 0x62u8]
    } else if b == 0x09 {
        seq![0x5cu8, 0x74u8]
    } else if b == 0x0a {
        seq![0x5cu8, 0x6eu8]
    } else if b == 0x0c {
        seq![0x5cu8, 0x66u8]
    } else if b == 0x0d {
        seq![0x5cu8, 0x72u8]
    } else if b < 0x20 {
        seq![0x5cu8, 0x75u8, 0x30u8, 0x30u8, spec_hex_digit(b / 16), spec_hex_digit(b % 16)]
    } else {
        seq![b]
    }
}

/// The escaped form of every byte of `s`, in order.
pub open spec fn spec_escape(s: Seq<u8>) -> Seq<u8>
    decreases s.len(),
{
    if s.len() == 0 {
        Seq::empty()
    } else {
        spec_escape(s.drop_last()) + spec_escape_byte(s.last())
    }
}

/// The JSON string literal of the UTF-8 bytes `s`.
pub open spec fn spec_json_string(s: Seq<u8>) -> Seq<u8> {
    seq![0x22u8] + spec_escape(s) + seq![0x22u8]
}

/// Append the decimal digits of `n`.
pub(crate) fn push_decimal(out: &mut Vec<u8>, n: u64)
    ensures
        final(out)@ == old(out)@ + spec_decimal(n as nat),
    decreases n,
{
    if n >= 10 {
        push_decimal(out, n / 10);
    }
    let d: u64 = n % 10;
    out.push((48 + d) as u8);
}

/// Append the compact JSON array of the byte values in `s`.
pub(crate) fn push_json_array(out: &mut Vec<u8>, s: &[u8])
    ensures
        final(out)@ == old(out)@ + spec_json_array(s@),
{
    out.push(91);
    let mut i: usize = 0;
    while i < s.len()
        invariant
            i <= s@.len(),
            out@ == old(out)@ + seq![91u8] + spec_json_items(s@.subrange(0, i as int)),
        decreases s@.len() - i,
    {
        if i > 0 {
            out.push(44);
        }
        push_decimal(out, s[i] as u64);
        i = i + 1;
        proof {
            let pre = s@.subrange(0, i as int);
            assert(pre.drop_last() =~= s@.subrange(0, i - 1));
        }
    }
    out.push(93);
    assert(s@.subrange(0, s@.len() as int) =~= s@);
}

fn hex_digit(d: u8) -> (r: u8)
    requires
        d < 16,
    ensures
        r == spec_hex_digit(d),
{
    if d < 10 {
        48 + d
    } else {
        87 + d
    }
}

fn push_escaped_byte(out: &mut Vec<u8>, b: u8)
    ensures
        final(out)@ == old(out)@ + spec_escape_byte(b),
{
    if b == 0x22 || b == 0x5c {
        out.push(0x5c);
        out.push(b);
    } else if b == 0x08 {
        out.push(0x5c);
        out.push(0x62);
    } else if b == 0x09 {
        out.push(0x5c);
        out.push(0x74);
    } else if b == 0x0a {
        out.push(0x5c);
        out.push(0x6e);
    } else if b == 0x0c {
        out.push(0x5c);
        out.push(0x66);
    } else if b == 0x0d {
        out.push(0x5c);
        out.push(0x72);
    } else if b < 0x20 {
        out.push(0x5c);
        out.push(0x75);
        out.push(0x30);
        out.push(0x30);
        out.push(hex_digit(b / 16));
        out.push(hex_digit(b % 16));
    } else {
        out.push(b);
    }
}

/// Append the JSON string literal of the UTF-8 bytes `s`.
pub(crate) fn push_json_string(out: &mut Vec<u8>, s: &[u8])
    ensures
        final(out)@ == old(out)@ + spec_json_string(s@),
{
    out.push(0x22);
    let mut i: usize = 0;
    while i < s.len()
        invariant
            i <= s@.len(),
            out@ == old(out)@ + seq![0x22u8] + spec_escape(s@.subrange(0, i as int)),
        decreases s@.len() - i,
    {
        push_escaped_byte(out, s[i]);
        i = i + 1;
        proof {
            let pre = s@.subrange(0, i as int);
            assert(pre.drop_last() =~= s@.subrange(0, i - 1));
        }
    }
    out.push(0x22);
    assert(s@.subrange(0, s@.len() as int) =~= s@);
}

} // verus!
