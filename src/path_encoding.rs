//! Percent-encoding of raw filesystem path bytes into URL-safe text.
use crate::text::push_char;
use vstd::prelude::*;

verus! {

/// Bytes that pass through unchanged: ASCII letters, digits and `- . _ ~ /`.
pub open spec fn is_unreserved(b: u8) -> bool {
    (0x41 <= b <= 0x5A) || (0x61 <= b <= 0x7A) || (0x30 <= b <= 0x39) || b == 0x2D || b == 0x2E
        || b == 0x5F || b == 0x7E || b == 0x2F
}

/// Uppercase hexadecimal digit for a value below 16.
pub open spec fn hex_digit(n: u8) -> char {
    if n < 10 {
        (0x30 + n) as char
    } else {
        (0x41 + n - 10) as char
    }
}

/// The text one byte becomes: itself, or `%` followed by two uppercase hex digits.
pub open spec fn encode_byte(b: u8) -> Seq<char> {
    if is_unreserved(b) {
        seq![b as char]
    } else {
        seq!['%', hex_digit(b / 16), hex_digit(b % 16)]
    }
}

/// The encoding of a byte string: each byte encoded in turn.
pub open spec fn encode_path(bytes: Seq<u8>) -> Seq<char>
    decreases bytes.len(),
{
    if bytes.len() == 0 {
        Seq::empty()
    } else {
        encode_path(bytes.drop_last()) + encode_byte(bytes.last())
    }
}

/// Characters that an encoded path may contain: `A-Z a-z 0-9 - . _ ~ / %`.
pub open spec fn is_encoded_char(c: char) -> bool {
    ('A' <= c <= 'Z') || ('a' <= c <= 'z') || ('0' <= c <= '9') || c == '-' || c == '.' || c
        == '_' || c == '~' || c == '/' || c == '%'
}

fn is_unreserved_byte(b: u8) -> (r: bool)
    ensures
        r == is_unreserved(b),
{
    (0x41 <= b && b <= 0x5A) || (0x61 <= b && b <= 0x7A) || (0x30 <= b && b <= 0x39) || b == 0x2D
        || b == 0x2E || b == 0x5F || b == 0x7E || b == 0x2F
}

fn hex_digit_char(n: u8) -> (c: char)
    requires
        n < 16,
    ensures
        c == hex_digit(n),
{
    if n < 10 {
        (0x30 + n) as char
    } else {
        (0x41 + n - 10) as char
    }
}

/// Percent-encodes raw path bytes: unreserved bytes are kept as ASCII, every
/// other byte becomes `%XX` with uppercase hex digits.
pub fn urlencode_path(path_bytes: &[u8]) -> (encoded: String)
    ensures
        encoded@ == encode_path(path_bytes@),
{
    let mut encoded = String::new();
    let mut i: usize = 0;
    while i < path_bytes.len()
        invariant
            i <= path_bytes@.len(),
            encoded@ == encode_path(path_bytes@.subrange(0, i as int)),
        decreases path_bytes@.len() - i,
    {
        let b = path_bytes[i];
        proof {
            let prefix = path_bytes@.subrange(0, i as int + 1);
            assert(prefix.drop_last() =~= path_bytes@.subrange(0, i as int));
            assert(prefix.last() == b);
        }
        if is_unreserved_byte(b) {
            push_char(&mut encoded, b as char);
        } else {
            push_char(&mut encoded, '%');
            push_char(&mut encoded, hex_digit_char(b / 16));
            push_char(&mut encoded, hex_digit_char(b % 16));
        }
        i = i + 1;
    }
    proof {
        assert(path_bytes@.subrange(0, i as int) =~= path_bytes@);
    }
    encoded
}

/// The value of an uppercase hexadecimal digit.
pub open spec fn hex_value(c: char) -> int {
    if c <= '9' {
        c as int - 0x30
    } else {
        c as int - 0x41 + 10
    }
}

/// Reads an encoded path back into bytes, from its end: a trailing `%XX`
/// is one escaped byte, any other trailing character one plain byte.
pub open spec fn decode_path(text: Seq<char>) -> Seq<u8>
    decreases text.len(),
{
    if text.len() >= 3 && text[text.len() - 3] == '%' {
        decode_path(text.subrange(0, text.len() - 3)).push(
            (hex_value(text[text.len() - 2]) * 16 + hex_value(text[text.len() - 1])) as u8,
        )
    } else if text.len() >= 1 {
        decode_path(text.drop_last()).push(text.last() as u8)
    } else {
        Seq::empty()
    }
}

proof fn lemma_percent_not_at_end(bytes: Seq<u8>)
    ensures
        forall|p: int|
            0 <= p < encode_path(bytes).len() && #[trigger] encode_path(bytes)[p] == '%' ==> p + 2
                < encode_path(bytes).len(),
    decreases bytes.len(),
{
    if bytes.len() > 0 {
        lemma_percent_not_at_end(bytes.drop_last());
        let prefix = encode_path(bytes.drop_last());
        let code = encode_byte(bytes.last());
        let text = encode_path(bytes);
        assert forall|p: int| 0 <= p < text.len() && #[trigger] text[p] == '%' implies p + 2 < text.len() by {
            if p >= prefix.len() {
                assert(text[p] == code[p - prefix.len()]);
                if is_unreserved(bytes.last()) {
                    assert(code[0] != '%');
                } else {
                    let b = bytes.last();
                    assert(b / 16 < 16 && b % 16 < 16) by (bit_vector);
                    assert(code[1] != '%' && code[2] != '%');
                }
            } else {
                assert(text[p] == prefix[p]);
            }
        }
    }
}

/// Every character of an encoded path is an ASCII letter or digit, or one of
/// `- . _ ~ / %`.
pub proof fn lemma_encoded_chars(bytes: Seq<u8>)
    ensures
        forall|i: int| 0 <= i < encode_path(bytes).len() ==> is_encoded_char(#[trigger] encode_path(bytes)[i]),
    decreases bytes.len(),
{
    if bytes.len() > 0 {
        lemma_encoded_chars(bytes.drop_last());
        let prefix = encode_path(bytes.drop_last());
        let code = encode_byte(bytes.last());
        assert forall|i: int| 0 <= i < encode_path(bytes).len() implies is_encoded_char(
            #[trigger] encode_path(bytes)[i],
        ) by {
            if i >= prefix.len() {
                let b = bytes.last();
                if !is_unreserved(b) {
                    assert(b / 16 < 16 && b % 16 < 16) by (bit_vector);
                }
                assert(encode_path(bytes)[i] == code[i - prefix.len()]);
            } else {
                assert(encode_path(bytes)[i] == prefix[i]);
            }
        }
    }
}

/// Decoding an encoded path gives back its bytes.
pub proof fn lemma_decode_encode(bytes: Seq<u8>)
    ensures
        decode_path(encode_path(bytes)) == bytes,
    decreases bytes.len(),
{
    if bytes.len() > 0 {
        let a = bytes.drop_last();
        let b = bytes.last();
        lemma_decode_encode(a);
        lemma_percent_not_at_end(a);
        let prefix = encode_path(a);
        let text = encode_path(bytes);
        if is_unreserved(b) {
            assert(text.drop_last() =~= prefix);
            if text.len() >= 3 {
                assert(text[text.len() - 3] == prefix[prefix.len() - 2]);
            }
        } else {
            let hi = b / 16;
            let lo = b % 16;
            assert(hi < 16 && lo < 16 && hi * 16 + lo == b) by (bit_vector)
                requires
                    hi == b / 16,
                    lo == b % 16,
            ;
            assert(text.subrange(0, text.len() - 3) =~= prefix);
            assert(hex_value(hex_digit(hi)) == hi);
            assert(hex_value(hex_digit(lo)) == lo);
        }
        assert(bytes =~= a.push(b));
    }
}

/// Distinct byte strings have distinct encodings.
pub proof fn lemma_encode_injective(a: Seq<u8>, b: Seq<u8>)
    requires
        encode_path(a) == encode_path(b),
    ensures
        a == b,
{
    lemma_decode_encode(a);
    lemma_decode_encode(b);
}

} // verus!
