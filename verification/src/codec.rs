//! Binary-to-text codecs, from the `hex` and `base64` crates.

use vstd::prelude::*;

use base64::Engine;

use crate::text::{digit, digit_value};

verus! {

/// Bytes as lower-case hexadecimal, two digits each, high nibble first.
pub open spec fn hex_text(data: Seq<u8>) -> Seq<char> {
    Seq::new(
        2 * data.len(),
        |i: int|
            if i % 2 == 0 {
                digit((data[i / 2] / 16) as nat, false)
            } else {
                digit((data[i / 2] % 16) as nat, false)
            },
    )
}

/// Whether a text is an even number of hexadecimal digits of either case.
pub open spec fn is_hex(s: Seq<char>) -> bool {
    &&& s.len() % 2 == 0
    &&& forall|i: int| 0 <= i < s.len() ==> digit_value(#[trigger] s[i], 16) is Some
}

/// The bytes that hexadecimal text stands for.
pub open spec fn hex_bytes(s: Seq<char>) -> Seq<u8> {
    Seq::new(
        s.len() / 2,
        |i: int| (16 * digit_value(s[2 * i], 16)->0 + digit_value(s[2 * i + 1], 16)->0) as u8,
    )
}

/// The message of `hex::decode`'s error on a text.
pub uninterp spec fn hex_error_text(s: Seq<char>) -> Seq<char>;

/// What `base64`'s standard engine decodes a text to: its bytes, or the message
/// of its error.
pub uninterp spec fn base64_decoded(s: Seq<char>) -> Result<Seq<u8>, Seq<char>>;

/// `hex::encode`: each byte becomes two lower-case hexadecimal digits.
#[verifier::external_body]
pub(crate) fn hex_encode(data: &[u8]) -> (out: String)
    ensures
        out@ == hex_text(data@),
{
    hex::encode(data)
}

/// `hex::decode`: succeeds exactly on an even number of hexadecimal digits, and
/// gives one byte for each pair of them.
#[verifier::external_body]
pub(crate) fn hex_decode(s: &str) -> (r: Result<Vec<u8>, String>)
    ensures
        match r {
            Ok(data) => is_hex(s@) && data@ == hex_bytes(s@),
            Err(e) => !is_hex(s@) && e@ == hex_error_text(s@),
        },
{
    hex::decode(s).map_err(|e| e.to_string())
}

/// `base64::engine::general_purpose::STANDARD.decode`: padded base64 in the
/// standard alphabet, a function of the text alone. Four characters of input
/// give at most three bytes of output.
#[verifier::external_body]
pub(crate) fn base64_decode(s: &str) -> (r: Result<Vec<u8>, String>)
    ensures
        match r {
            Ok(data) => {
                &&& base64_decoded(s@) == Ok::<_, Seq<char>>(data@)
                &&& data@.len() <= vstd::utf8::encode_utf8(s@).len() / 4 * 3
            },
            Err(e) => base64_decoded(s@) == Err::<Seq<u8>, _>(e@),
        },
{
    base64::engine::general_purpose::STANDARD.decode(s).map_err(|e| e.to_string())
}

/// Hexadecimal text of bytes reads back as the bytes.
pub proof fn hex_text_reads_back(data: Seq<u8>)
    ensures
        hex_text(data).len() == 2 * data.len(),
        is_hex(hex_text(data)),
        hex_bytes(hex_text(data)) == data,
{
    let t = hex_text(data);
    assert forall|i: int| 0 <= i < t.len() implies digit_value(#[trigger] t[i], 16) == Some(
        if i % 2 == 0 {
            (data[i / 2] / 16) as nat
        } else {
            (data[i / 2] % 16) as nat
        },
    ) by {
        crate::text::digits_and_values_agree(t[i], (data[i / 2] / 16) as nat, 16);
        crate::text::digits_and_values_agree(t[i], (data[i / 2] % 16) as nat, 16);
    }
    assert forall|i: int| 0 <= i < data.len() implies hex_bytes(t)[i] == data[i] by {
        assert(digit_value(t[2 * i], 16) == Some((data[i] / 16) as nat));
        assert(digit_value(t[2 * i + 1], 16) == Some((data[i] % 16) as nat));
    }
    assert(hex_bytes(t) =~= data);
}

} // verus!
