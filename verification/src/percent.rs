//! Percent escaping of arbitrary bytes: every byte that is not an ASCII
//! letter or digit is written `%XX` with uppercase hex digits, and decoding
//! maps every `%` followed by two hex digits back to the denoted byte.

use vstd::prelude::*;

verus! {

/// ASCII letter or digit.
pub open spec fn is_alnum(b: u8) -> bool {
    (48 <= b <= 57) || (65 <= b <= 90) || (97 <= b <= 122)
}

/// Uppercase hex digit for a nibble.
pub open spec fn upper_hex_digit(n: u8) -> u8 {
    if n < 10 {
        (48 + n) as u8
    } else {
        (55 + n) as u8
    }
}

/// The escape of one byte: itself when alphanumeric, else `%XX`.
pub open spec fn pe_unit(b: u8) -> Seq<u8> {
    if is_alnum(b) {
        seq![b]
    } else {
        seq![37u8, upper_hex_digit((b / 16) as u8), upper_hex_digit((b % 16) as u8)]
    }
}

/// Percent escaping of a byte string, alphanumeric bytes kept.
pub open spec fn percent_encode_spec(s: Seq<u8>) -> Seq<u8>
    decreases s.len(),
{
    if s.len() == 0 {
        Seq::empty()
    } else {
        pe_unit(s[0]) + percent_encode_spec(s.skip(1))
    }
}

/// Hex digit of either case.
pub open spec fn is_hex_digit_any(c: u8) -> bool {
    (48 <= c <= 57) || (65 <= c <= 70) || (97 <= c <= 102)
}

pub open spec fn hex_val(c: u8) -> u8 {
    if 48 <= c <= 57 {
        (c - 48) as u8
    } else if 65 <= c <= 70 {
        (c - 55) as u8
    } else {
        (c - 87) as u8
    }
}

/// Percent decoding: each `%` followed by two hex digits becomes the denoted
/// byte; any other byte (a stray `%` included) passes through unchanged.
pub open spec fn percent_decode_spec(s: Seq<u8>) -> Seq<u8>
    decreases s.len(),
{
    if s.len() == 0 {
        Seq::empty()
    } else if s[0] == 37 && s.len() >= 3 && is_hex_digit_any(s[1]) && is_hex_digit_any(s[2]) {
        seq![(hex_val(s[1]) * 16 + hex_val(s[2])) as u8] + percent_decode_spec(s.skip(3))
    } else {
        seq![s[0]] + percent_decode_spec(s.skip(1))
    }
}

/// Relies on `percent_encoding::percent_encode` with `NON_ALPHANUMERIC`:
/// every byte that is not an ASCII letter or digit becomes `%XX` with
/// uppercase hex digits, and the rest are copied.
#[verifier::external_body]
pub(crate) fn percent_encode_bytes(data: &[u8]) -> (r: Vec<u8>)
    ensures
        r@ == percent_encode_spec(data@),
{
    percent_encoding::percent_encode(data, percent_encoding::NON_ALPHANUMERIC)
        .to_string()
        .into_bytes()
}

/// Relies on `percent_encoding::percent_decode`: each `%` followed by two
/// hex digits becomes the denoted byte; anything else passes through.
#[verifier::external_body]
pub(crate) fn percent_decode_bytes(data: &[u8]) -> (r: Vec<u8>)
    ensures
        r@ == percent_decode_spec(data@),
{
    percent_encoding::percent_decode(data).collect()
}

/// Every byte of an escaped string is alphanumeric or `%`.
pub proof fn lemma_percent_encode_chars(s: Seq<u8>)
    ensures
        forall|i: int|
            0 <= i < percent_encode_spec(s).len() ==> (is_alnum(#[trigger] percent_encode_spec(s)[i])
                || percent_encode_spec(s)[i] == 37),
    decreases s.len(),
{
    if s.len() > 0 {
        lemma_percent_encode_chars(s.skip(1));
        let u = pe_unit(s[0]);
        assert forall|i: int|
            0 <= i < percent_encode_spec(s).len() implies (is_alnum(
            #[trigger] percent_encode_spec(s)[i],
        ) || percent_encode_spec(s)[i] == 37) by {
            if i < u.len() {
                assert(percent_encode_spec(s)[i] == u[i]);
            } else {
                assert(percent_encode_spec(s)[i] == percent_encode_spec(s.skip(1))[i - u.len()]);
            }
        }
    }
}

/// Decoding undoes escaping.
pub proof fn lemma_percent_round_trip(s: Seq<u8>)
    ensures
        percent_decode_spec(percent_encode_spec(s)) == s,
    decreases s.len(),
{
    if s.len() == 0 {
        assert(percent_decode_spec(percent_encode_spec(s)) =~= s);
    } else {
        lemma_percent_round_trip(s.skip(1));
        let b = s[0];
        let e = percent_encode_spec(s);
        let rest = percent_encode_spec(s.skip(1));
        if is_alnum(b) {
            assert(e == seq![b] + rest);
            assert(e[0] == b);
            assert(e[0] != 37);
            assert(e.skip(1) =~= rest);
            if e.len() >= 3 {
                assert(!(e[0] == 37 && e.len() >= 3 && is_hex_digit_any(e[1]) && is_hex_digit_any(
                    e[2],
                )));
            }
            assert(percent_decode_spec(e) =~= s);
        } else {
            let h1 = upper_hex_digit((b / 16) as u8);
            let h2 = upper_hex_digit((b % 16) as u8);
            assert(e == seq![37u8, h1, h2] + rest);
            assert(e[0] == 37 && e[1] == h1 && e[2] == h2);
            assert(is_hex_digit_any(h1) && is_hex_digit_any(h2));
            assert(hex_val(h1) == b / 16 && hex_val(h2) == b % 16);
            assert((hex_val(h1) * 16 + hex_val(h2)) as u8 == b);
            assert(e.skip(3) =~= rest);
            assert(percent_decode_spec(e) =~= s);
        }
    }
}

} // verus!
