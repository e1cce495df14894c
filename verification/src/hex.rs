//! Fixed-width binary identifiers written as hexadecimal text.
//!
//! A value of `n` bytes is accepted in two spellings: unpadded, `2 * n`
//! contiguous hex digits, and padded, `n` two-digit groups with one separator
//! character between neighbouring groups. Lengths are counted in bytes of the
//! UTF-8 text, positions in characters.

use vstd::prelude::*;
use vstd::string::*;
use vstd::utf8::*;

verus! {

/// Why a text was refused as a fixed-width hexadecimal value.
#[derive(Clone, Copy, Debug, PartialEq, Eq, Structural)]
pub enum ParseError {
    /// The text, once stripped of its padding, is not twice as long as the value.
    LengthMismatch,
    /// A character that should be a hexadecimal digit is none.
    InvalidDigit,
    /// The separators of a padded text are not all the same character.
    InconsistentPadding,
}

/// Whether `c` is one of `0-9`, `a-f`, `A-F`.
pub open spec fn is_hex_digit(c: char) -> bool {
    ||| 0x30 <= c as int <= 0x39
    ||| 0x61 <= c as int <= 0x66
    ||| 0x41 <= c as int <= 0x46
}

/// The number that the hexadecimal digit `c` stands for.
pub open spec fn hex_value(c: char) -> int {
    if 0x30 <= c as int <= 0x39 {
        c as int - 0x30
    } else if 0x61 <= c as int <= 0x66 {
        c as int - 0x61 + 10
    } else {
        c as int - 0x41 + 10
    }
}

/// Whether every character of `s` is a hexadecimal digit.
pub open spec fn all_hex(s: Seq<char>) -> bool {
    forall|i: int| 0 <= i < s.len() ==> is_hex_digit(#[trigger] s[i])
}

/// The bytes that the digits of `s` spell, two digits to a byte, high digit first.
pub open spec fn decode_hex(s: Seq<char>) -> Seq<u8> {
    Seq::new(s.len() / 2, |i: int| (16 * hex_value(s[2 * i]) + hex_value(s[2 * i + 1])) as u8)
}

/// The length of `s` in bytes of UTF-8, which is what `str::len` counts.
pub open spec fn byte_len(s: Seq<char>) -> nat {
    encode_utf8(s).len()
}

/// What an unpadded text of `n` bytes parses to.
pub open spec fn parse_unpadded(s: Seq<char>, n: int) -> Result<Seq<u8>, ParseError> {
    if byte_len(s) != 2 * n {
        Err(ParseError::LengthMismatch)
    } else if !all_hex(s) {
        Err(ParseError::InvalidDigit)
    } else {
        Ok(decode_hex(s))
    }
}

/// Whether the executable result `r` is the value `model`.
pub open spec fn parsed_as(r: Result<Vec<u8>, ParseError>, model: Result<Seq<u8>, ParseError>) -> bool {
    match model {
        Ok(bytes) => r is Ok && r->Ok_0@ == bytes,
        Err(e) => r == Err::<Vec<u8>, ParseError>(e),
    }
}

/// Whether position `i` of a padded text holds a separator: every third character.
pub open spec fn is_separator_position(i: int) -> bool {
    (i + 1) % 3 == 0
}

/// The separator of the padded text `s`: the one that is `known` beforehand,
/// else the character at the first separator position, if there is one.
pub open spec fn separator_of(s: Seq<char>, known: Option<char>) -> Option<char> {
    match known {
        Some(c) => Some(c),
        None => if s.len() >= 3 {
            Some(s[2])
        } else {
            None
        },
    }
}

/// Whether every separator position of `s` holds the separator of `s`.
pub open spec fn padding_consistent(s: Seq<char>, known: Option<char>) -> bool {
    forall|i: int|
        0 <= i < s.len() && is_separator_position(i) ==> Some(#[trigger] s[i]) == separator_of(
            s,
            known,
        )
}

/// The characters of `s` outside the separator positions, in their order.
pub open spec fn strip_padding(s: Seq<char>) -> Seq<char> {
    Seq::new((s.len() - s.len() / 3) as nat, |j: int| s[j + j / 2])
}

/// What a text parses to as a value of `n` bytes, padded or not, where the
/// separator may be `known` beforehand.
pub open spec fn parse_fixed_hex(s: Seq<char>, n: int, known: Option<char>) -> Result<
    Seq<u8>,
    ParseError,
> {
    if byte_len(s) == 3 * n - 1 {
        if !padding_consistent(s, known) {
            Err(ParseError::InconsistentPadding)
        } else {
            parse_unpadded(strip_padding(s), n)
        }
    } else {
        parse_unpadded(s, n)
    }
}

/// The value of one hexadecimal digit given as an ASCII byte, if it is one.
fn digit_value(b: u8) -> (r: Option<u8>)
    ensures
        match r {
            Some(v) => is_hex_digit(b as char) && v == hex_value(b as char),
            None => !is_hex_digit(b as char),
        },
{
    if 0x30 <= b && b <= 0x39 {
        Some(b - 0x30)
    } else if 0x61 <= b && b <= 0x66 {
        Some(b - 0x61 + 10)
    } else if 0x41 <= b && b <= 0x46 {
        Some(b - 0x41 + 10)
    } else {
        None
    }
}

/// A text with a character outside ASCII holds a character that is no digit.
proof fn lemma_hex_is_ascii(s: Seq<char>)
    requires
        all_hex(s),
    ensures
        is_ascii_chars(s),
        byte_len(s) == s.len(),
{
    assert forall|i: int| 0 <= i < s.len() implies '\0' <= #[trigger] s[i] <= '\u{7f}' by {
        assert(is_hex_digit(s[i]));
    }
    is_ascii_chars_encode_utf8(s);
}

/// A text that parses gives as many bytes as were asked for.
pub proof fn lemma_parsed_len(s: Seq<char>, n: int, known: Option<char>)
    requires
        parse_fixed_hex(s, n, known) is Ok,
    ensures
        parse_fixed_hex(s, n, known)->Ok_0.len() == n,
{
    if byte_len(s) == 3 * n - 1 {
        lemma_hex_is_ascii(strip_padding(s));
    } else {
        lemma_hex_is_ascii(s);
    }
}

/// Parses `2 * output_length` contiguous hexadecimal digits into
/// `output_length` bytes.
pub fn string_unpadded_to_vec_u8(input: &str, output_length: usize) -> (r: Result<
    Vec<u8>,
    ParseError,
>)
    ensures
        parsed_as(r, parse_unpadded(input@, output_length as int)),
{
    let len: usize = input.as_bytes().len();
    if output_length > usize::MAX / 2 || len != output_length * 2 {
        return Err(ParseError::LengthMismatch);
    }
    if !input.is_ascii() {
        proof {
            if all_hex(input@) {
                lemma_hex_is_ascii(input@);
            }
        }
        return Err(ParseError::InvalidDigit);
    }
    proof {
        is_ascii_chars_encode_utf8(input@);
    }
    let mut output: Vec<u8> = Vec::new();
    let mut i: usize = 0;
    while i < len
        invariant
            is_ascii(input),
            input@.len() == len,
            byte_len(input@) == len,
            len == 2 * output_length,
            i % 2 == 0,
            i <= len,
            output@.len() == i / 2,
            forall|k: int| 0 <= k < i ==> is_hex_digit(#[trigger] input@[k]),
            forall|j: int|
                0 <= j < i / 2 ==> #[trigger] output@[j] == decode_hex(input@)[j],
        decreases len - i,
    {
        let hi = input.get_ascii(i);
        let lo = input.get_ascii(i + 1);
        proof {
            is_ascii_chars_nat_bound(input@);
            assert((input@[i as int] as nat) < 128);
            assert((input@[i + 1] as nat) < 128);
            assert(hi as char == input@[i as int]);
            assert(lo as char == input@[i + 1]);
        }
        match (digit_value(hi), digit_value(lo)) {
            (Some(h), Some(l)) => {
                output.push(h * 16 + l);
            },
            _ => {
                assert(!is_hex_digit(input@[i as int]) || !is_hex_digit(input@[i + 1]));
                return Err(ParseError::InvalidDigit);
            },
        }
        i = i + 2;
    }
    assert(output@ =~= decode_hex(input@));
    Ok(output)
}

/// `String::push` appends one character to the end of the string.
pub assume_specification[ String::push ](s: &mut String, c: char)
    ensures
        final(s)@ == old(s)@.push(c),
;

/// Taking one more character of `s` adds it to the stripped text unless it
/// stands at a separator position.
proof fn lemma_strip_step(s: Seq<char>, i: int)
    requires
        0 <= i < s.len(),
    ensures
        strip_padding(s.take(i + 1)) == if is_separator_position(i) {
            strip_padding(s.take(i))
        } else {
            strip_padding(s.take(i)).push(s[i])
        },
{
    let before = strip_padding(s.take(i));
    let after = strip_padding(s.take(i + 1));
    if is_separator_position(i) {
        assert(after =~= before);
    } else {
        assert(after =~= before.push(s[i]));
    }
}

/// Parses a text as a value of `output_length` bytes.
///
/// A text of `3 * output_length - 1` bytes is taken as padded: every third
/// character is a separator, which must be `padding_character` where that is
/// given and the first separator of the text where it is not. Any other text
/// is taken as unpadded.
pub fn string_to_vec_u8(input: &str, output_length: usize, padding_character: Option<char>) -> (r:
    Result<Vec<u8>, ParseError>)
    ensures
        parsed_as(r, parse_fixed_hex(input@, output_length as int, padding_character)),
        r is Ok ==> r->Ok_0@.len() == output_length,
{
    proof {
        if parse_fixed_hex(input@, output_length as int, padding_character) is Ok {
            lemma_parsed_len(input@, output_length as int, padding_character);
        }
    }
    let len: usize = input.as_bytes().len();
    if output_length == 0 || output_length > usize::MAX / 3 || len != output_length * 3 - 1 {
        return string_unpadded_to_vec_u8(input, output_length);
    }
    let mut padding_char = padding_character;
    let mut input_unpadded = String::new();
    let mut phase: u8 = 1;
    assert(input@.take(0) =~= Seq::<char>::empty());
    assert(strip_padding(Seq::<char>::empty()) =~= Seq::<char>::empty());
    for c in it: input.chars()
        invariant
            it.seq() == input@,
            byte_len(input@) == 3 * output_length - 1,
            phase == (it.index() + 1) % 3,
            padding_char == separator_of(input@.take(it.index() as int), padding_character),
            padding_consistent(input@.take(it.index() as int), padding_character),
            input_unpadded@ == strip_padding(input@.take(it.index() as int)),
    {
        let ghost i = it.index() as int;
        proof {
            lemma_strip_step(input@, i);
        }
        if phase == 0 {
            match padding_char {
                Some(pc) => {
                    if c != pc {
                        assert(Some(input@[i]) != separator_of(input@, padding_character));
                        return Err(ParseError::InconsistentPadding);
                    }
                },
                None => {
                    padding_char = Some(c);
                },
            }
            phase = 1;
        } else {
            input_unpadded.push(c);
            phase = if phase == 1 {
                2
            } else {
                0
            };
        }
        assert(padding_consistent(input@.take(i + 1), padding_character)) by {
            assert forall|k: int|
                0 <= k < i + 1 && is_separator_position(k) implies Some(
                #[trigger] input@.take(i + 1)[k],
            ) == separator_of(input@.take(i + 1), padding_character) by {
                if k < i {
                    assert(input@.take(i)[k] == input@[k]);
                }
            }
        }
    }
    assert(input@.take(input@.len() as int) =~= input@);
    string_unpadded_to_vec_u8(input_unpadded.as_str(), output_length)
}

/// The lowercase hexadecimal digit for a number below sixteen.
pub open spec fn hex_char(v: int) -> char {
    if v < 10 {
        (0x30 + v) as char
    } else {
        (0x61 + v - 10) as char
    }
}

/// The digit that stands at place `k` of a byte's two digits, high digit first.
pub open spec fn digit_of(byte: u8, k: int) -> char {
    if k == 0 {
        hex_char(byte as int / 16)
    } else {
        hex_char(byte as int % 16)
    }
}

/// `bytes` as contiguous lowercase hexadecimal digits, two to a byte.
pub open spec fn format_unpadded(bytes: Seq<u8>) -> Seq<char> {
    Seq::new(2 * bytes.len(), |k: int| digit_of(bytes[k / 2], k % 2))
}

/// `bytes` as two-digit lowercase groups with `sep` between neighbouring groups.
pub open spec fn format_padded(bytes: Seq<u8>, sep: char) -> Seq<char> {
    Seq::new(
        if bytes.len() == 0 {
            0
        } else {
            (3 * bytes.len() - 1) as nat
        },
        |k: int|
            if k % 3 == 2 {
                sep
            } else {
                digit_of(bytes[k / 3], k % 3)
            },
    )
}

/// `bytes` as hexadecimal text, padded with `separator` where one is given.
pub open spec fn format_hex(bytes: Seq<u8>, separator: Option<char>) -> Seq<char> {
    match separator {
        Some(sep) => format_padded(bytes, sep),
        None => format_unpadded(bytes),
    }
}

/// The lowercase hexadecimal digit for `v`.
fn nibble_char(v: u8) -> (c: char)
    requires
        v < 16,
    ensures
        c == hex_char(v as int),
{
    if v < 10 {
        (0x30 + v) as char
    } else {
        (0x61 + v - 10) as char
    }
}

/// Writes `bytes` as lowercase hexadecimal text: two digits to a byte, and
/// `separator`, where one is given, between neighbouring bytes.
pub fn encode_hex(bytes: &[u8], separator: Option<char>) -> (text: String)
    ensures
        text@ == format_hex(bytes@, separator),
{
    let mut text = String::new();
    let mut i: usize = 0;
    assert(text@ =~= format_hex(bytes@.take(0), separator));
    while i < bytes.len()
        invariant
            i <= bytes@.len(),
            text@ == format_hex(bytes@.take(i as int), separator),
        decreases bytes@.len() - i,
    {
        let ghost before = text@;
        if i > 0 {
            match separator {
                Some(sep) => {
                    text.push(sep);
                },
                None => {},
            }
        }
        let byte = bytes[i];
        text.push(nibble_char(byte / 16));
        text.push(nibble_char(byte % 16));
        i = i + 1;
        assert(text@ =~= format_hex(bytes@.take(i as int), separator));
    }
    assert(bytes@.take(i as int) =~= bytes@);
    text
}

/// A number below sixteen is read back from its digit.
proof fn lemma_hex_char(v: int)
    requires
        0 <= v < 16,
    ensures
        is_hex_digit(hex_char(v)),
        hex_value(hex_char(v)) == v,
        (hex_char(v) as int) < 128,
{
}

/// Contiguous digits written from `bytes` parse back to `bytes`.
proof fn lemma_round_trip_unpadded(bytes: Seq<u8>)
    ensures
        byte_len(format_unpadded(bytes)) == 2 * bytes.len(),
        all_hex(format_unpadded(bytes)),
        decode_hex(format_unpadded(bytes)) == bytes,
        parse_unpadded(format_unpadded(bytes), bytes.len() as int) == Ok::<Seq<u8>, ParseError>(
            bytes,
        ),
{
    let text = format_unpadded(bytes);
    assert forall|k: int| 0 <= k < text.len() implies is_hex_digit(#[trigger] text[k]) by {
        lemma_hex_char(bytes[k / 2] as int / 16);
        lemma_hex_char(bytes[k / 2] as int % 16);
    }
    lemma_hex_is_ascii(text);
    assert forall|i: int| 0 <= i < bytes.len() implies #[trigger] decode_hex(text)[i]
        == bytes[i] by {
        lemma_hex_char(bytes[i] as int / 16);
        lemma_hex_char(bytes[i] as int % 16);
        assert(text[2 * i] == digit_of(bytes[(2 * i) / 2], (2 * i) % 2));
        assert(text[2 * i + 1] == digit_of(bytes[(2 * i + 1) / 2], (2 * i + 1) % 2));
    }
    assert(decode_hex(text) =~= bytes);
}

/// A padded text of ASCII separators is as many bytes long as characters.
proof fn lemma_padded_byte_len(bytes: Seq<u8>, sep: char)
    requires
        (sep as int) < 128,
    ensures
        byte_len(format_padded(bytes, sep)) == format_padded(bytes, sep).len(),
{
    let text = format_padded(bytes, sep);
    assert forall|k: int| 0 <= k < text.len() implies '\0' <= #[trigger] text[k] <= '\u{7f}' by {
        lemma_hex_char(bytes[k / 3] as int / 16);
        lemma_hex_char(bytes[k / 3] as int % 16);
    }
    is_ascii_chars_encode_utf8(text);
}

/// A padded text without its separators is the contiguous text.
proof fn lemma_strip_padded(bytes: Seq<u8>, sep: char)
    ensures
        strip_padding(format_padded(bytes, sep)) == format_unpadded(bytes),
{
    let text = format_padded(bytes, sep);
    let stripped = strip_padding(text);
    let plain = format_unpadded(bytes);
    assert(stripped.len() == plain.len());
    assert forall|j: int| 0 <= j < plain.len() implies #[trigger] stripped[j] == plain[j] by {
        let k = j + j / 2;
        assert(k / 3 == j / 2 && k % 3 == j % 2);
    }
    assert(stripped =~= plain);
}

/// Every separator position of a padded text holds its separator.
proof fn lemma_padded_consistent(bytes: Seq<u8>, sep: char, known: Option<char>)
    requires
        known is None || known == Some(sep),
    ensures
        padding_consistent(format_padded(bytes, sep), known),
{
    let text = format_padded(bytes, sep);
    assert forall|i: int| 0 <= i < text.len() && is_separator_position(i) implies Some(
        #[trigger] text[i],
    ) == separator_of(text, known) by {
        assert(i % 3 == 2);
        assert(text.len() >= 3);
        assert(text[2] == sep);
    }
}

/// A padded text parses back to the bytes that it was written from.
proof fn lemma_round_trip_padded(bytes: Seq<u8>, sep: char, known: Option<char>)
    requires
        (sep as int) < 128,
        known is None || known == Some(sep),
    ensures
        parse_fixed_hex(format_padded(bytes, sep), bytes.len() as int, known) == Ok::<
            Seq<u8>,
            ParseError,
        >(bytes),
{
    let n = bytes.len() as int;
    let text = format_padded(bytes, sep);
    lemma_round_trip_unpadded(bytes);
    lemma_padded_byte_len(bytes, sep);
    if n == 0 {
        assert(text =~= format_unpadded(bytes));
    } else {
        assert(byte_len(text) == 3 * n - 1);
        lemma_strip_padded(bytes, sep);
        lemma_padded_consistent(bytes, sep, known);
    }
}

/// A text of two characters holds no separator.
proof fn lemma_single_group(s: Seq<char>, known: Option<char>)
    requires
        s.len() == 2,
    ensures
        strip_padding(s) == s,
        padding_consistent(s, known),
{
    let stripped = strip_padding(s);
    assert(stripped.len() == 2);
    assert(stripped[0] == s[0int + 0int / 2]);
    assert(stripped[1] == s[1int + 1int / 2]);
    assert(stripped =~= s);
    assert forall|i: int| 0 <= i < s.len() && is_separator_position(i) implies Some(
        #[trigger] s[i],
    ) == separator_of(s, known) by {
        assert(i == 0 || i == 1);
    }
}

/// A contiguous text parses back to the bytes that it was written from,
/// whatever separator the parser is told to expect.
proof fn lemma_round_trip_contiguous(bytes: Seq<u8>, known: Option<char>)
    ensures
        parse_fixed_hex(format_unpadded(bytes), bytes.len() as int, known) == Ok::<
            Seq<u8>,
            ParseError,
        >(bytes),
{
    let n = bytes.len() as int;
    let text = format_unpadded(bytes);
    lemma_round_trip_unpadded(bytes);
    if n == 1 {
        lemma_single_group(text, known);
    }
}

/// Round trip: the text that `encode_hex` writes for `bytes` parses back to
/// `bytes`, written contiguously or with a separator of one byte, whether the
/// parser is told that separator or learns it from the text.
pub proof fn lemma_round_trip(bytes: Seq<u8>, separator: Option<char>, known: Option<char>)
    requires
        separator is Some ==> (separator->0 as int) < 128 && (known is None || known == separator),
    ensures
        parse_fixed_hex(format_hex(bytes, separator), bytes.len() as int, known) == Ok::<
            Seq<u8>,
            ParseError,
        >(bytes),
{
    match separator {
        Some(sep) => {
            lemma_round_trip_padded(bytes, sep, known);
        },
        None => {
            lemma_round_trip_contiguous(bytes, known);
        },
    }
}

} // verus!
