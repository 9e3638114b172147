//! Protocol strings: a length of four hexadecimal digits, then that many bytes.

use vstd::prelude::*;
use vstd::utf8::{decode_utf8, encode_utf8, valid_utf8};
use crate::number::{digit, digits, number, parse_number, to_padded_digits, value_of, all_digits,
    digit_value, unsigned_part, zero_padded};

verus! {

/// Why a protocol string could not be read.
#[derive(Debug, Clone, Copy, PartialEq, Eq)]
pub enum ProtocolError {
    /// The input ended within the length or the data.
    UnexpectedEof,
    /// The length is not UTF-8.
    LengthNotUtf8,
    /// The length is not a hexadecimal number.
    Length,
    /// The data is not UTF-8.
    DataNotUtf8,
}

/// The length as it stands in front of the data.
pub open spec fn length_prefix(len: int) -> Seq<u8> {
    encode_utf8(zero_padded(digits(len, 16), 4))
}

/// A protocol string that holds `data`.
pub open spec fn framed(data: Seq<u8>) -> Seq<u8> {
    length_prefix(data.len() as int) + data
}

/// The length that a prefix announces.
pub open spec fn announced_length(prefix: Seq<u8>) -> Result<int, ProtocolError> {
    if !valid_utf8(prefix) {
        Err(ProtocolError::LengthNotUtf8)
    } else {
        match number(decode_utf8(prefix), 16) {
            Some(n) => Ok(n),
            None => Err(ProtocolError::Length),
        }
    }
}

/// The text at the start of `input`, and how many bytes it took.
pub open spec fn read_text(input: Seq<u8>) -> Result<(Seq<char>, int), ProtocolError> {
    if input.len() < 4 {
        Err(ProtocolError::UnexpectedEof)
    } else {
        match announced_length(input.take(4)) {
            Err(e) => Err(e),
            Ok(n) => if input.len() < 4 + n {
                Err(ProtocolError::UnexpectedEof)
            } else if !valid_utf8(input.subrange(4, 4 + n)) {
                Err(ProtocolError::DataNotUtf8)
            } else {
                Ok((decode_utf8(input.subrange(4, 4 + n)), 4 + n))
            },
        }
    }
}

proof fn lemma_decoded_len(bytes: Seq<u8>)
    requires
        valid_utf8(bytes),
    ensures
        decode_utf8(bytes).len() <= bytes.len(),
    decreases bytes.len(),
{
    if bytes.len() > 0 {
        let rest = vstd::utf8::pop_first_scalar(bytes);
        assert(rest.len() < bytes.len());
        lemma_decoded_len(rest);
    }
}

proof fn lemma_hex_bound(s: Seq<char>)
    requires
        all_digits(s, 16),
        s.len() <= 4,
    ensures
        0 <= value_of(s, 16) <= 0xffff,
{
    reveal_with_fuel(value_of, 5);
    assert forall|i: int| 0 <= i < s.len() implies 0 <= digit_value(#[trigger] s[i], 16) < 16 by {
        assert(digit_value(s[i], 16) >= 0);
    }
}

proof fn lemma_announced_small(prefix: Seq<u8>)
    requires
        prefix.len() == 4,
    ensures
        announced_length(prefix) matches Ok(n) ==> 0 <= n <= 0xffff,
{
    if valid_utf8(prefix) {
        lemma_decoded_len(prefix);
        let body = unsigned_part(decode_utf8(prefix));
        if all_digits(body, 16) {
            lemma_hex_bound(body);
        }
    }
}

/// The length as it stands in front of the data: four hexadecimal digits, or
/// more where it needs more.
pub fn write_length(len: usize) -> (prefix: Vec<u8>)
    ensures
        prefix@ == length_prefix(len as int),
{
    to_padded_digits(len as u64, 16, 4).as_str().as_bytes_vec()
}

/// `data` as a protocol string.
pub fn write_protocol_string(data: &[u8]) -> (out: Vec<u8>)
    ensures
        out@ == framed(data@),
{
    let mut out = write_length(data.len());
    out.extend_from_slice(data);
    assert(out@ =~= framed(data@));
    out
}

/// The number of bytes that follow the four bytes of `prefix`.
pub fn read_length(prefix: &[u8; 4]) -> (len: Result<usize, ProtocolError>)
    ensures
        match len {
            Ok(n) => announced_length(prefix@) == Ok::<int, ProtocolError>(n as int),
            Err(e) => announced_length(prefix@) == Err::<int, ProtocolError>(e),
        },
        len matches Ok(n) ==> n <= 0xffff,
{
    proof {
        lemma_announced_small(prefix@);
    }
    let bytes = vstd::slice::slice_to_vec(prefix.as_slice());
    assert(bytes@ =~= prefix@);
    match String::from_utf8(bytes) {
        Err(_) => Err(ProtocolError::LengthNotUtf8),
        Ok(text) => match parse_number(text.as_str(), 16, 0xffff) {
            Some(n) => Ok(n as usize),
            None => Err(ProtocolError::Length),
        },
    }
}

/// The text that the bytes after the length hold.
pub fn read_data(data: Vec<u8>) -> (text: Result<String, ProtocolError>)
    ensures
        match text {
            Ok(s) => valid_utf8(data@) && s@ == decode_utf8(data@),
            Err(e) => !valid_utf8(data@) && e == ProtocolError::DataNotUtf8,
        },
{
    match String::from_utf8(data) {
        Ok(s) => Ok(s),
        Err(_) => Err(ProtocolError::DataNotUtf8),
    }
}

/// Reads the protocol string at the start of `input`: the text, and the number
/// of bytes that it took.
pub fn read_protocol_string(input: &[u8]) -> (res: Result<(String, usize), ProtocolError>)
    ensures
        match res {
            Ok((s, n)) => read_text(input@) == Ok::<(Seq<char>, int), ProtocolError>(
                (s@, n as int),
            ),
            Err(e) => read_text(input@) == Err::<(Seq<char>, int), ProtocolError>(e),
        },
{
    if input.len() < 4 {
        return Err(ProtocolError::UnexpectedEof);
    }
    let prefix: [u8; 4] = [input[0], input[1], input[2], input[3]];
    assert(prefix@ =~= input@.take(4));
    let n = match read_length(&prefix) {
        Ok(n) => n,
        Err(e) => {
            return Err(e);
        },
    };
    if input.len() - 4 < n {
        return Err(ProtocolError::UnexpectedEof);
    }
    let data = vstd::slice::slice_to_vec(vstd::slice::slice_subrange(input, 4, 4 + n));
    assert(data@ =~= input@.subrange(4, 4 + n));
    match read_data(data) {
        Ok(s) => Ok((s, 4 + n)),
        Err(e) => Err(e),
    }
}

/// Reading gives back what was written, and leaves what follows it: for every
/// text of at most 65535 bytes, the most that four hexadecimal digits announce.
pub proof fn law_read_back(text: Seq<char>, rest: Seq<u8>)
    requires
        encode_utf8(text).len() <= 0xffff,
    ensures
        read_text(framed(encode_utf8(text)) + rest) == Ok::<(Seq<char>, int), ProtocolError>(
            (text, framed(encode_utf8(text)).len() as int),
        ),
{
    let data = encode_utf8(text);
    let n = data.len() as int;
    let hex = zero_padded(digits(n, 16), 4);
    lemma_prefix_is_four_bytes(n);
    let prefix = length_prefix(n);
    let input = framed(data) + rest;
    vstd::utf8::encode_utf8_valid_utf8(hex);
    vstd::utf8::encode_utf8_decode_utf8(hex);
    vstd::utf8::encode_utf8_valid_utf8(text);
    vstd::utf8::encode_utf8_decode_utf8(text);
    assert(input.take(4) =~= prefix);
    assert(input.subrange(4, 4 + n) =~= data);
}

proof fn lemma_prefix_is_four_bytes(n: int)
    requires
        0 <= n <= 0xffff,
    ensures
        length_prefix(n).len() == 4,
        number(zero_padded(digits(n, 16), 4), 16) == Some(n),
{
    let plain = digits(n, 16);
    let hex = zero_padded(plain, 4);
    crate::number::lemma_digits_read_back(n, 16);
    reveal_with_fuel(vstd::arithmetic::power::pow, 5);
    assert(vstd::arithmetic::power::pow(16, 4) == 0x10000);
    crate::number::lemma_digits_len(n, 16, 4);
    crate::number::lemma_padding_keeps_value(plain, 4, 16);
    assert(vstd::utf8::is_ascii_chars(hex)) by {
        assert forall|i: int| 0 <= i < hex.len() implies '\0' <= #[trigger] hex[i]
            <= '\u{7f}' by {
            assert(digit_value(hex[i], 16) >= 0);
        }
    }
    vstd::utf8::is_ascii_chars_encode_utf8(hex);
}

/// A protocol string that is cut short anywhere is not read: more has to come.
pub proof fn law_a_cut_string_is_incomplete(text: Seq<char>, k: int)
    requires
        encode_utf8(text).len() <= 0xffff,
        0 <= k < framed(encode_utf8(text)).len(),
    ensures
        read_text(framed(encode_utf8(text)).take(k)) == Err::<(Seq<char>, int), _>(
            ProtocolError::UnexpectedEof,
        ),
{
    let data = encode_utf8(text);
    let n = data.len() as int;
    let hex = zero_padded(digits(n, 16), 4);
    lemma_prefix_is_four_bytes(n);
    vstd::utf8::encode_utf8_valid_utf8(hex);
    vstd::utf8::encode_utf8_decode_utf8(hex);
    if k >= 4 {
        assert(framed(data).take(k).take(4) =~= length_prefix(n));
    }
}

/// What is read is what stands behind the length, as many bytes as the length
/// says; it is read exactly if they are all there and are a text.
pub proof fn law_reading_takes_what_is_announced(
    input: &[u8],
    res: Result<(String, usize), ProtocolError>,
    prefix: &[u8; 4],
    announced: Result<usize, ProtocolError>,
)
    requires
        call_ensures(read_protocol_string, (input,), res),
        input@.len() >= 4 ==> prefix@ == input@.take(4),
        call_ensures(read_length, (prefix,), announced),
    ensures
        input@.len() < 4 ==> res == Err::<(String, usize), _>(ProtocolError::UnexpectedEof),
        input@.len() >= 4 ==> match announced {
            Err(e) => res == Err::<(String, usize), _>(e),
            Ok(n) => if input@.len() < 4 + n {
                res == Err::<(String, usize), _>(ProtocolError::UnexpectedEof)
            } else {
                match res {
                    Ok((s, taken)) => taken == 4 + n && encode_utf8(s@) == input@.subrange(
                        4,
                        4 + n,
                    ),
                    Err(e) => e == ProtocolError::DataNotUtf8 && !valid_utf8(
                        input@.subrange(4, 4 + n),
                    ),
                }
            },
        },
{
    if let Ok(n) = announced {
        if input@.len() >= 4 + n && valid_utf8(input@.subrange(4, 4 + n)) {
            vstd::utf8::decode_utf8_encode_utf8(input@.subrange(4, 4 + n));
        }
    }
}

/// A length that four hexadecimal digits can tell is written with four of them,
/// and reads back.
pub proof fn law_lengths_read_back(
    len: usize,
    written: Vec<u8>,
    prefix: &[u8; 4],
    read: Result<usize, ProtocolError>,
)
    requires
        len <= 0xffff,
        call_ensures(write_length, (len,), written),
        written@.len() == 4 ==> prefix@ == written@,
        call_ensures(read_length, (prefix,), read),
    ensures
        written@.len() == 4,
        read == Ok::<usize, ProtocolError>(len),
        forall|i: int|
            0 <= i < 4 ==> '0' as u8 <= #[trigger] written@[i] <= '9' as u8 || 'a' as u8
                <= written@[i] <= 'f' as u8,
{
    let n = len as int;
    let hex = zero_padded(digits(n, 16), 4);
    lemma_prefix_is_four_bytes(n);
    vstd::utf8::encode_utf8_valid_utf8(hex);
    vstd::utf8::encode_utf8_decode_utf8(hex);
    lemma_lower_case(n, 4);
    assert(vstd::utf8::is_ascii_chars(hex));
    vstd::utf8::is_ascii_chars_encode_utf8(hex);
    assert forall|i: int| 0 <= i < 4 implies '0' as u8 <= #[trigger] written@[i] <= '9' as u8
        || 'a' as u8 <= written@[i] <= 'f' as u8 by {
        assert(hex_digit(hex[i]));
    }
}

spec fn hex_digit(c: char) -> bool {
    '0' <= c <= '9' || 'a' <= c <= 'f'
}

proof fn lemma_lower_case(n: int, width: int)
    requires
        0 <= n,
    ensures
        forall|i: int|
            0 <= i < zero_padded(digits(n, 16), width).len() ==> hex_digit(
                #[trigger] zero_padded(digits(n, 16), width)[i],
            ),
{
    lemma_lower_case_digits(n);
    lemma_lower_case_padding(digits(n, 16), width);
}

proof fn lemma_lower_case_digits(n: int)
    requires
        0 <= n,
    ensures
        forall|i: int| 0 <= i < digits(n, 16).len() ==> hex_digit(#[trigger] digits(n, 16)[i]),
    decreases n,
{
    if n >= 16 {
        lemma_lower_case_digits(n / 16);
        let s = digits(n, 16);
        assert forall|i: int| 0 <= i < s.len() implies hex_digit(#[trigger] s[i]) by {
            if i < s.len() - 1 {
                assert(s[i] == digits(n / 16, 16)[i]);
            }
        }
    }
}

proof fn lemma_lower_case_padding(s: Seq<char>, width: int)
    requires
        forall|i: int| 0 <= i < s.len() ==> hex_digit(#[trigger] s[i]),
    ensures
        forall|i: int|
            0 <= i < zero_padded(s, width).len() ==> hex_digit(#[trigger] zero_padded(s, width)[i]),
    decreases width - s.len(),
{
    if s.len() < width {
        let t = seq!['0'] + s;
        assert forall|i: int| 0 <= i < t.len() implies hex_digit(#[trigger] t[i]) by {
            if i > 0 {
                assert(t[i] == s[i - 1]);
            }
        }
        lemma_lower_case_padding(t, width);
        assert(zero_padded(s, width) == zero_padded(t, width));
    }
}

/// What is written is read: the length first, and then the text; bytes that are
/// no text are told.
pub proof fn law_written_strings_are_read(
    data: &[u8],
    out: Vec<u8>,
    rest: Vec<u8>,
    text: Result<String, ProtocolError>,
)
    requires
        data@.len() <= 0xffff,
        call_ensures(write_protocol_string, (data,), out),
        rest@ == out@.skip(4),
        call_ensures(read_data, (rest,), text),
    ensures
        out@.len() == 4 + data@.len(),
        rest@ == data@,
        text is Ok <==> valid_utf8(data@),
        text matches Ok(s) ==> s@ == decode_utf8(data@),
        text matches Err(e) ==> e == ProtocolError::DataNotUtf8,
{
    lemma_prefix_is_four_bytes(data@.len() as int);
    assert(out@.skip(4) =~= data@);
}

/// A length that needs more than four digits is written with as many as it needs:
/// those of its sixteenth, and one more. The data stands behind its length,
/// however long it is.
pub proof fn law_long_lengths_have_more_digits(
    data: &[u8],
    out: Vec<u8>,
    len: usize,
    written: Vec<u8>,
    sixteenth: Vec<u8>,
)
    requires
        len == data@.len(),
        call_ensures(write_protocol_string, (data,), out),
        call_ensures(write_length, (len,), written),
        call_ensures(write_length, ((len / 16) as usize,), sixteenth),
    ensures
        out@ == written@ + data@,
        len > 0xffff ==> {
            &&& written@.len() == sixteenth@.len() + 1
            &&& written@.drop_last() == sixteenth@
            &&& written@.last() == if len % 16 < 10 {
                48 + len % 16
            } else {
                87 + len % 16
            }
        },
{
    let n = len as int;
    if len > 0xffff {
        let high = n / 16;
        let s = digits(n, 16);
        let t = digits(high, 16);
        assert(s == t.push(digit(n % 16)));
        assert(t.len() >= 4) by {
            reveal_with_fuel(digits, 5);
        }
        assert(zero_padded(s, 4) == s);
        assert(zero_padded(t, 4) == t);
        lemma_lower_case(n, 4);
        lemma_lower_case(high, 4);
        assert(vstd::utf8::is_ascii_chars(s)) by {
            assert(forall|i: int| 0 <= i < s.len() ==> hex_digit(#[trigger] s[i]));
        }
        assert(vstd::utf8::is_ascii_chars(t)) by {
            assert(forall|i: int| 0 <= i < t.len() ==> hex_digit(#[trigger] t[i]));
        }
        vstd::utf8::is_ascii_chars_encode_utf8(s);
        vstd::utf8::is_ascii_chars_encode_utf8(t);
        assert forall|i: int| 0 <= i < t.len() implies written@.drop_last()[i]
            == #[trigger] sixteenth@[i] by {
            assert(s[i] == t[i]);
            assert(s[i] as u8 == written@[i]);
            assert(t[i] as u8 == sixteenth@[i]);
        }
        assert(written@.drop_last() =~= sixteenth@);
        assert(s[t.len() as int] as u8 == written@[t.len() as int]);
    }
}

} // verus!
