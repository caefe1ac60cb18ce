//! Text helpers shared by the codecs: byte-to-string decoding, hex digits,
//! and splitting byte strings on a separator.

use vstd::prelude::*;
use vstd::slice::slice_subrange;
use vstd::string::StringSliceAdditionalSpecFns;
use vstd::utf8::{decode_utf8, valid_utf8};

verus! {

/// The character sequence that lossy UTF-8 decoding yields for a byte
/// sequence; on valid UTF-8 it equals `decode_utf8`.
pub uninterp spec fn lossy_decode(b: Seq<u8>) -> Seq<char>;

/// Relies on `String::from_utf8_lossy`: the result depends on the bytes
/// alone, and valid UTF-8 decodes to exactly its own characters.
#[verifier::external_body]
pub(crate) fn lossy_string(b: &[u8]) -> (r: String)
    ensures
        r@ == lossy_decode(b@),
        valid_utf8(b@) ==> r@ == decode_utf8(b@),
{
    String::from_utf8_lossy(b).into_owned()
}

/// Whether a byte is an ASCII hexadecimal digit.
pub open spec fn is_hex_digit(b: u8) -> bool {
    (48 <= b <= 57) || (97 <= b <= 102) || (65 <= b <= 70)
}

/// The numeric value of an ASCII hexadecimal digit.
pub open spec fn hex_digit_value(b: u8) -> u8
    recommends
        is_hex_digit(b),
{
    if 48 <= b <= 57 {
        (b - 48) as u8
    } else if 97 <= b <= 102 {
        (b - 87) as u8
    } else {
        (b - 55) as u8
    }
}

/// The value of a big-endian string of hexadecimal digits.
pub open spec fn hex_value(digits: Seq<u8>) -> nat
    decreases digits.len(),
{
    if digits.len() == 0 {
        0
    } else {
        (hex_value(digits.drop_last()) * 16 + hex_digit_value(digits.last())) as nat
    }
}

pub proof fn lemma_hex_value_monotone(digits: Seq<u8>, i: int)
    requires
        0 <= i <= digits.len(),
    ensures
        hex_value(digits.take(i)) <= hex_value(digits),
    decreases digits.len() - i,
{
    if i < digits.len() {
        assert(digits.take(i + 1).drop_last() =~= digits.take(i));
        assert(hex_value(digits.take(i)) <= hex_value(digits.take(i + 1)));
        lemma_hex_value_monotone(digits, i + 1);
    } else {
        assert(digits.take(i) =~= digits);
    }
}

/// The lowercase hexadecimal character for a value below 16.
pub open spec fn hex_char(n: u8) -> char
    recommends
        n < 16,
{
    if n == 0 { '0' }
    else if n == 1 { '1' }
    else if n == 2 { '2' }
    else if n == 3 { '3' }
    else if n == 4 { '4' }
    else if n == 5 { '5' }
    else if n == 6 { '6' }
    else if n == 7 { '7' }
    else if n == 8 { '8' }
    else if n == 9 { '9' }
    else if n == 10 { 'a' }
    else if n == 11 { 'b' }
    else if n == 12 { 'c' }
    else if n == 13 { 'd' }
    else if n == 14 { 'e' }
    else { 'f' }
}

/// Appends the lowercase hexadecimal character for `n` to `s`.
pub fn push_hex_char(s: &mut String, n: u8)
    requires
        n < 16,
    ensures
        final(s)@ == old(s)@.push(hex_char(n)),
{
    let d = match n {
        0 => "0",
        1 => "1",
        2 => "2",
        3 => "3",
        4 => "4",
        5 => "5",
        6 => "6",
        7 => "7",
        8 => "8",
        9 => "9",
        10 => "a",
        11 => "b",
        12 => "c",
        13 => "d",
        14 => "e",
        _ => "f",
    };
    proof {
        reveal_strlit("0");
        reveal_strlit("1");
        reveal_strlit("2");
        reveal_strlit("3");
        reveal_strlit("4");
        reveal_strlit("5");
        reveal_strlit("6");
        reveal_strlit("7");
        reveal_strlit("8");
        reveal_strlit("9");
        reveal_strlit("a");
        reveal_strlit("b");
        reveal_strlit("c");
        reveal_strlit("d");
        reveal_strlit("e");
        reveal_strlit("f");
    }
    s.append(d);
    assert(final(s)@ =~= old(s)@.push(hex_char(n)));
}

/// The pieces of `b` between occurrences of the separator `sep`, in order.
pub open spec fn split_on(b: Seq<u8>, sep: u8) -> Seq<Seq<u8>>
    decreases b.len() via split_on_decreases
{
    if !b.contains(sep) {
        seq![b]
    } else {
        let i = first_index_of(b, sep);
        seq![b.take(i)] + split_on(b.skip(i + 1), sep)
    }
}

#[via_fn]
proof fn split_on_decreases(b: Seq<u8>, sep: u8) {
    if b.contains(sep) {
        lemma_first_index_of(b, sep);
    }
}

/// The first index at which `x` occurs in `b`.
pub open spec fn first_index_of(b: Seq<u8>, x: u8) -> int
    recommends
        b.contains(x),
    decreases b.len(),
{
    if b.len() == 0 {
        0
    } else if b[0] == x {
        0
    } else {
        1 + first_index_of(b.skip(1), x)
    }
}

pub proof fn lemma_first_index_of(b: Seq<u8>, x: u8)
    requires
        b.contains(x),
    ensures
        0 <= first_index_of(b, x) < b.len(),
        b[first_index_of(b, x)] == x,
        forall|j: int| 0 <= j < first_index_of(b, x) ==> b[j] != x,
    decreases b.len(),
{
    if b[0] != x {
        assert(b.skip(1).contains(x)) by {
            let w = choose|w: int| 0 <= w < b.len() && b[w] == x;
            assert(b.skip(1)[w - 1] == x);
        }
        lemma_first_index_of(b.skip(1), x);
        let i = first_index_of(b, x);
        assert(b[i] == b.skip(1)[i - 1]);
        assert forall|j: int| 0 < j < i implies b[j] != x by {
            assert(b.skip(1)[j - 1] != x);
        }
    }
}

/// Finds the first occurrence of `x` in `b` at or after `from`.
pub fn find_byte(b: &[u8], from: usize, x: u8) -> (r: Option<usize>)
    requires
        from <= b@.len(),
    ensures
        match r {
            Some(i) => from <= i < b@.len() && b@[i as int] == x && b@.skip(from as int).contains(
                x,
            ) && i - from == first_index_of(b@.skip(from as int), x),
            None => !b@.skip(from as int).contains(x),
        },
{
    let ghost tail = b@.skip(from as int);
    let mut i = from;
    while i < b.len()
        invariant
            from <= i <= b@.len(),
            tail == b@.skip(from as int),
            forall|j: int| from <= j < i ==> b@[j] != x,
        decreases b@.len() - i,
    {
        if b[i] == x {
            proof {
                assert(tail[i - from] == x);
                lemma_first_index_of(tail, x);
                let f = first_index_of(tail, x);
                assert(tail[f] == x);
                assert(b@[f + from] == x);
                if f < i - from {
                    assert(b@[f + from] != x);
                }
                if f > i - from {
                    assert(tail[i - from] != x);
                }
            }
            return Some(i);
        }
        i += 1;
    }
    proof {
        if tail.contains(x) {
            let w = choose|w: int| 0 <= w < tail.len() && tail[w] == x;
            assert(b@[w + from] == x);
        }
    }
    None
}

/// Whether two byte slices hold the same bytes.
pub fn bytes_eq(a: &[u8], b: &[u8]) -> (r: bool)
    ensures
        r == (a@ == b@),
{
    if a.len() != b.len() {
        return false;
    }
    let n = a.len();
    let mut i: usize = 0;
    while i < n
        invariant
            n == a@.len(),
            n == b@.len(),
            i <= n,
            forall|j: int| 0 <= j < i ==> a@[j] == b@[j],
        decreases n - i,
    {
        if a[i] != b[i] {
            return false;
        }
        i += 1;
    }
    proof {
        assert(a@ =~= b@);
    }
    true
}

/// Whether two strings hold the same characters.
pub fn str_eq(a: &str, b: &str) -> (r: bool)
    ensures
        r == (a@ == b@),
{
    let r = bytes_eq(a.as_bytes(), b.as_bytes());
    proof {
        if a.spec_bytes() == b.spec_bytes() {
            vstd::utf8::encode_utf8_decode_utf8(a@);
            vstd::utf8::encode_utf8_decode_utf8(b@);
        }
    }
    r
}

/// Splits `b` into the pieces between occurrences of `sep`.
pub fn split_bytes<'a>(b: &'a [u8], sep: u8) -> (parts: Vec<&'a [u8]>)
    ensures
        parts@.map_values(|p: &[u8]| p@) == split_on(b@, sep),
{
    let mut parts: Vec<&[u8]> = Vec::new();
    let mut start: usize = 0;
    let n = b.len();
    proof {
        assert(b@.skip(0) =~= b@);
        assert(parts@.map_values(|p: &[u8]| p@) =~= Seq::<Seq<u8>>::empty());
    }
    loop
        invariant
            n == b@.len(),
            start <= n,
            split_on(b@, sep) == parts@.map_values(|p: &[u8]| p@) + split_on(
                b@.skip(start as int),
                sep,
            ),
        decreases b@.len() - start,
    {
        match find_byte(b, start, sep) {
            Some(i) => {
                let part = slice_subrange(b, start, i);
                proof {
                    let tail = b@.skip(start as int);
                    lemma_first_index_of(tail, sep);
                    assert(tail.take(i - start) =~= b@.subrange(start as int, i as int));
                    assert(tail.skip(i - start + 1) =~= b@.skip(i + 1));
                    assert(split_on(tail, sep) == seq![tail.take(i - start)] + split_on(
                        b@.skip(i + 1),
                        sep,
                    ));
                    assert((parts@ + seq![part]).map_values(|p: &[u8]| p@) =~= parts@.map_values(
                        |p: &[u8]| p@,
                    ) + seq![part@]);
                }
                parts.push(part);
                proof {
                    assert(split_on(b@, sep) =~= parts@.map_values(|p: &[u8]| p@) + split_on(
                        b@.skip(i + 1),
                        sep,
                    ));
                }
                start = i + 1;
            },
            None => {
                let part = slice_subrange(b, start, b.len());
                proof {
                    let tail = b@.skip(start as int);
                    assert(part@ =~= tail);
                    assert(split_on(tail, sep) == seq![tail]);
                    assert((parts@ + seq![part]).map_values(|p: &[u8]| p@) =~= parts@.map_values(
                        |p: &[u8]| p@,
                    ) + seq![part@]);
                }
                parts.push(part);
                proof {
                    assert(parts@.map_values(|p: &[u8]| p@) =~= split_on(b@, sep));
                }
                return parts;
            },
        }
    }
}

} // verus!
