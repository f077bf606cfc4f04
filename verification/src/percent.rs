//! Percent-encoding, as a path segment wants it.
//!
//! The bytes of the UTF-8 text that are letters, digits, `-`, `.`, `_` or `~`
//! stand for themselves; every other byte, `/` among them, is `%` and two
//! capital hexadecimal digits. Read back, an escape is its byte whichever case
//! its digits have, and a `%` that starts no escape stands for itself.

use vstd::prelude::*;
use vstd::utf8;

use crate::text;

verus! {

/// Whether `byte` stands for itself.
pub open spec fn kept(byte: u8) -> bool {
    let c = byte as char;
    ||| 'A' <= c <= 'Z'
    ||| 'a' <= c <= 'z'
    ||| '0' <= c <= '9'
    ||| c == '-'
    ||| c == '.'
    ||| c == '_'
    ||| c == '~'
}

/// The capital hexadecimal digit for `n`, below sixteen.
pub open spec fn digit(n: int) -> char {
    if n < 10 {
        ('0' as int + n) as char
    } else {
        ('A' as int + n - 10) as char
    }
}

/// The value of a hexadecimal digit.
pub open spec fn digit_value(byte: u8) -> Option<int> {
    let c = byte as char;
    if '0' <= c <= '9' {
        Some(c as int - '0' as int)
    } else if 'A' <= c <= 'F' {
        Some(c as int - 'A' as int + 10)
    } else if 'a' <= c <= 'f' {
        Some(c as int - 'a' as int + 10)
    } else {
        None
    }
}

/// `byte` as it is written.
pub open spec fn escape(byte: u8) -> Seq<char> {
    if kept(byte) {
        seq![byte as char]
    } else {
        seq!['%', digit(byte as int / 16), digit(byte as int % 16)]
    }
}

/// `bytes` as they are written, one after the other.
pub open spec fn escapes(bytes: Seq<u8>) -> Seq<char>
    decreases bytes.len(),
{
    if bytes.len() == 0 {
        seq![]
    } else {
        escape(bytes[0]) + escapes(bytes.drop_first())
    }
}

/// Whether `bytes` start with an escape.
pub open spec fn starts_escape(bytes: Seq<u8>) -> bool {
    &&& bytes.len() >= 3
    &&& bytes[0] as char == '%'
    &&& digit_value(bytes[1]) is Some
    &&& digit_value(bytes[2]) is Some
}

/// `bytes` with each escape read.
pub open spec fn unescaped(bytes: Seq<u8>) -> Seq<u8>
    decreases bytes.len(),
{
    if bytes.len() == 0 {
        seq![]
    } else if starts_escape(bytes) {
        seq![(digit_value(bytes[1])->0 * 16 + digit_value(bytes[2])->0) as u8] + unescaped(
            bytes.skip(3),
        )
    } else {
        seq![bytes[0]] + unescaped(bytes.skip(1))
    }
}

/// `text` percent-encoded.
pub open spec fn encoded(text: Seq<char>) -> Seq<char> {
    escapes(utf8::encode_utf8(text))
}

/// `text` with its escapes read.
pub open spec fn decoded(text: Seq<char>) -> Seq<char> {
    text::as_text(unescaped(utf8::encode_utf8(text)))
}

fn hex(n: u8) -> (c: char)
    requires
        n < 16,
    ensures
        c == digit(n as int),
{
    let byte: u8 = if n < 10 {
        '0' as u8 + n
    } else {
        'A' as u8 + (n - 10)
    };
    byte as char
}

fn hex_value(byte: u8) -> (n: Option<u8>)
    ensures
        match n {
            Some(n) => digit_value(byte) == Some(n as int) && n < 16,
            None => digit_value(byte) is None,
        },
{
    let c = byte as char;
    if '0' <= c && c <= '9' {
        Some(byte - '0' as u8)
    } else if 'A' <= c && c <= 'F' {
        Some(byte - 'A' as u8 + 10)
    } else if 'a' <= c && c <= 'f' {
        Some(byte - 'a' as u8 + 10)
    } else {
        None
    }
}

/// Percent-encode `text`.
pub fn encode(text: &str) -> (result: String)
    ensures
        result@ == encoded(text@),
{
    let bytes = text.as_bytes();
    let mut result = String::new();
    let mut at: usize = 0;
    assert(bytes@.skip(0) == bytes@);
    while at < bytes.len()
        invariant
            at <= bytes@.len(),
            result@ + escapes(bytes@.skip(at as int)) == escapes(bytes@),
        decreases bytes@.len() - at,
    {
        let byte = bytes[at];
        let c = byte as char;
        let ghost rest = bytes@.skip(at as int);
        let ghost before = result@;
        if ('A' <= c && c <= 'Z') || ('a' <= c && c <= 'z') || ('0' <= c && c <= '9') || c == '-'
            || c == '.' || c == '_' || c == '~' {
            result.push(c);
        } else {
            result.push('%');
            result.push(hex(byte / 16));
            result.push(hex(byte % 16));
        }
        at = at + 1;
        assert(result@ == before + escape(byte));
        assert(bytes@.skip(at as int) == rest.drop_first());
        assert(result@ + escapes(bytes@.skip(at as int)) == before + escapes(rest));
    }
    assert(result@ + escapes(bytes@.skip(at as int)) == result@);
    result
}

/// Read the escapes in `text`.
pub fn decode(text: &str) -> (result: String)
    ensures
        result@ == decoded(text@),
{
    let bytes = text.as_bytes();
    let mut read: Vec<u8> = Vec::new();
    let mut at: usize = 0;
    assert(bytes@.skip(0) == bytes@);
    while at < bytes.len()
        invariant
            at <= bytes@.len(),
            read@ + unescaped(bytes@.skip(at as int)) == unescaped(bytes@),
        decreases bytes@.len() - at,
    {
        let ghost rest = bytes@.skip(at as int);
        let ghost before = read@;
        let mut escape: Option<u8> = None;
        if bytes.len() - at >= 3 && bytes[at] as char == '%' {
            if let Some(high) = hex_value(bytes[at + 1]) {
                if let Some(low) = hex_value(bytes[at + 2]) {
                    escape = Some(high * 16 + low);
                }
            }
        }
        match escape {
            Some(byte) => {
                assert(starts_escape(rest));
                read.push(byte);
                at = at + 3;
                assert(bytes@.skip(at as int) == rest.skip(3));
            },
            None => {
                assert(!starts_escape(rest));
                read.push(bytes[at]);
                at = at + 1;
                assert(bytes@.skip(at as int) == rest.skip(1));
            },
        }
        assert(read@ + unescaped(bytes@.skip(at as int)) == before + unescaped(rest));
    }
    assert(read@ + unescaped(bytes@.skip(at as int)) == read@);
    text::lossy(read.as_slice())
}

proof fn lemma_escapes_are_ascii(bytes: Seq<u8>)
    ensures
        utf8::is_ascii_chars(escapes(bytes)),
        forall|i: int| 0 <= i < escapes(bytes).len() ==> escapes(bytes)[i] != '/',
    decreases bytes.len(),
{
    if bytes.len() > 0 {
        lemma_escapes_are_ascii(bytes.drop_first());
    }
}

proof fn lemma_unescaped_escapes(bytes: Seq<u8>)
    ensures
        unescaped(escapes(bytes).map_values(|c: char| c as u8)) == bytes,
    decreases bytes.len(),
{
    let narrow = |c: char| c as u8;
    let written = escapes(bytes).map_values(narrow);
    if bytes.len() > 0 {
        let rest = escapes(bytes.drop_first()).map_values(narrow);
        lemma_unescaped_escapes(bytes.drop_first());
        if kept(bytes[0]) {
            assert(written.skip(1) == rest);
            assert(written[0] == bytes[0]);
        } else {
            assert(written.skip(3) == rest);
            assert(starts_escape(written));
        }
        assert(unescaped(written) == seq![bytes[0]] + bytes.drop_first());
    } else {
        assert(written == Seq::<u8>::empty());
    }
}

/// What was encoded decodes to itself, whatever the text.
pub proof fn decoding_undoes_encoding(text: Seq<char>)
    ensures
        decoded(encoded(text)) == text,
{
    let bytes = utf8::encode_utf8(text);
    lemma_escapes_are_ascii(bytes);
    utf8::is_ascii_chars_encode_utf8(encoded(text));
    assert(utf8::encode_utf8(encoded(text)) == encoded(text).map_values(|c: char| c as u8));
    lemma_unescaped_escapes(bytes);
    utf8::encode_utf8_valid_utf8(text);
    utf8::encode_utf8_decode_utf8(text);
}

/// An encoded text holds no slash, so it is one segment of a path.
pub proof fn encoding_is_one_segment(text: Seq<char>)
    ensures
        forall|i: int| 0 <= i < encoded(text).len() ==> encoded(text)[i] != '/',
{
    lemma_escapes_are_ascii(utf8::encode_utf8(text));
}

proof fn lemma_escapes_concat(left: Seq<u8>, right: Seq<u8>)
    ensures
        escapes(left + right) == escapes(left) + escapes(right),
    decreases left.len(),
{
    if left.len() > 0 {
        lemma_escapes_concat(left.drop_first(), right);
        assert((left + right).drop_first() == left.drop_first() + right);
        assert(escapes(left + right) == escapes(left) + escapes(right));
    } else {
        assert(left + right == right);
        assert(escapes(left) + escapes(right) == escapes(right));
    }
}

/// A text is encoded piece by piece.
pub proof fn encoding_is_piecewise(left: Seq<char>, right: Seq<char>)
    ensures
        encoded(left + right) == encoded(left) + encoded(right),
{
    text::lemma_encode_concat(left, right);
    lemma_escapes_concat(utf8::encode_utf8(left), utf8::encode_utf8(right));
}

/// Letters, digits and the marks `-._~` stand for themselves, one or many.
pub proof fn encoding_keeps_plain_text(text: Seq<char>)
    requires
        forall|i: int|
            0 <= i < text.len() ==> {
                let c = #[trigger] text[i];
                'A' <= c <= 'Z' || 'a' <= c <= 'z' || '0' <= c <= '9' || c == '-' || c == '.' || c
                    == '_' || c == '~'
            },
    ensures
        encoded(text) == text,
    decreases text.len(),
{
    if text.len() > 0 {
        let first = seq![text[0]];
        let rest = text.drop_first();
        let c = text[0];
        assert forall|i: int| 0 <= i < rest.len() implies {
            let c = #[trigger] rest[i];
            'A' <= c <= 'Z' || 'a' <= c <= 'z' || '0' <= c <= '9' || c == '-' || c == '.' || c
                == '_' || c == '~'
        } by {
            assert(rest[i] == text[i + 1]);
        }
        encoding_keeps_plain_text(rest);
        encoding_is_piecewise(first, rest);
        assert(first + rest == text);
        text::lemma_bytes_of(c);
        let byte = c as u8;
        assert(byte as char == c);
        reveal_with_fuel(escapes, 2);
        assert(utf8::encode_utf8(first) == seq![byte]);
        assert(seq![byte].drop_first() == Seq::<u8>::empty());
        assert(escapes(seq![byte]) == first);
    }
}

/// Every other character is, for each of its bytes, a percent sign and the two
/// capital digits of the byte.
pub proof fn encoding_escapes_the_rest(c: char)
    requires
        !('A' <= c <= 'Z' || 'a' <= c <= 'z' || '0' <= c <= '9' || c == '-' || c == '.' || c == '_'
            || c == '~'),
    ensures
        ({
            let bytes = utf8::encode_utf8(seq![c]);
            let written = encoded(seq![c]);
            let digits = "0123456789ABCDEF"@;
            &&& written.len() == 3 * bytes.len()
            &&& forall|i: int|
                #![trigger bytes[i]]
                0 <= i < bytes.len() ==> {
                    &&& written[3 * i] == '%'
                    &&& written[3 * i + 1] == digits[bytes[i] as int / 16]
                    &&& written[3 * i + 2] == digits[bytes[i] as int % 16]
                }
        }),
{
    let bytes = utf8::encode_utf8(seq![c]);
    text::lemma_bytes_of(c);
    assert forall|i: int| 0 <= i < bytes.len() implies !kept(#[trigger] bytes[i]) by {
        if (c as u32) < 0x80 {
            assert(bytes[i] == c as u8);
            assert(bytes[i] as char == c);
        }
    }
    lemma_escape_at(bytes, 0);
    assert forall|i: int|
        #![trigger bytes[i]]
        0 <= i < bytes.len() implies {
        &&& encoded(seq![c])[3 * i] == '%'
        &&& encoded(seq![c])[3 * i + 1] == "0123456789ABCDEF"@[bytes[i] as int / 16]
        &&& encoded(seq![c])[3 * i + 2] == "0123456789ABCDEF"@[bytes[i] as int % 16]
    } by {
        lemma_escape_at(bytes, i);
    }
}

proof fn lemma_digit_table(n: int)
    requires
        0 <= n < 16,
    ensures
        digit(n) == "0123456789ABCDEF"@[n],
{
    reveal_strlit("0123456789ABCDEF");
}

proof fn lemma_escape_at(bytes: Seq<u8>, i: int)
    requires
        forall|i: int| 0 <= i < bytes.len() ==> !kept(#[trigger] bytes[i]),
        0 <= i <= bytes.len(),
    ensures
        escapes(bytes).len() == 3 * bytes.len(),
        i < bytes.len() ==> {
            &&& escapes(bytes)[3 * i] == '%'
            &&& escapes(bytes)[3 * i + 1] == "0123456789ABCDEF"@[bytes[i] as int / 16]
            &&& escapes(bytes)[3 * i + 2] == "0123456789ABCDEF"@[bytes[i] as int % 16]
        },
    decreases bytes.len(),
{
    if bytes.len() > 0 {
        let first = bytes[0];
        let rest = bytes.drop_first();
        assert forall|i: int| 0 <= i < rest.len() implies !kept(#[trigger] rest[i]) by {
            assert(rest[i] == bytes[i + 1]);
        }
        assert(!kept(first));
        if i > 0 {
            lemma_escape_at(rest, i - 1);
            if i < bytes.len() {
                assert(escapes(bytes)[3 * i] == escapes(rest)[3 * (i - 1)]);
                assert(escapes(bytes)[3 * i + 1] == escapes(rest)[3 * (i - 1) + 1]);
                assert(escapes(bytes)[3 * i + 2] == escapes(rest)[3 * (i - 1) + 2]);
            }
        } else {
            lemma_escape_at(rest, 0);
            lemma_digit_table(first as int / 16);
            lemma_digit_table(first as int % 16);
            assert(escapes(bytes) == escape(first) + escapes(rest));
        }
    }
}

/// A text without a percent sign decodes to itself.
pub proof fn decoding_keeps_text_without_escapes(text: Seq<char>)
    requires
        !text.contains('%'),
    ensures
        decoded(text) == text,
{
    lemma_no_percent_byte(text);
    lemma_unescaped_keeps(utf8::encode_utf8(text));
    text::encoded_text_is_read_back(text);
}

proof fn lemma_no_percent_byte(text: Seq<char>)
    requires
        !text.contains('%'),
    ensures
        forall|i: int|
            0 <= i < utf8::encode_utf8(text).len() ==> #[trigger] utf8::encode_utf8(text)[i]
                != '%' as u8,
    decreases text.len(),
{
    if text.len() > 0 {
        let first = seq![text[0]];
        let rest = text.drop_first();
        assert(text.contains(text[0]));
        assert(!rest.contains('%')) by {
            if rest.contains('%') {
                let i = choose|i: int| 0 <= i < rest.len() && rest[i] == '%';
                assert(text[i + 1] == '%');
            }
        }
        lemma_no_percent_byte(rest);
        text::lemma_bytes_of(text[0]);
        text::lemma_encode_concat(first, rest);
        assert(first + rest == text);
        let bytes = utf8::encode_utf8(text);
        let head = utf8::encode_utf8(first);
        assert forall|i: int| 0 <= i < bytes.len() implies #[trigger] bytes[i] != '%' as u8 by {
            if i < head.len() {
                assert(bytes[i] == head[i]);
                if (text[0] as u32) < 0x80 {
                    assert((text[0] as u8) as char == text[0]);
                }
            } else {
                assert(bytes[i] == utf8::encode_utf8(rest)[i - head.len()]);
            }
        }
    }
}

proof fn lemma_unescaped_keeps(bytes: Seq<u8>)
    requires
        forall|i: int| 0 <= i < bytes.len() ==> #[trigger] bytes[i] != '%' as u8,
    ensures
        unescaped(bytes) == bytes,
    decreases bytes.len(),
{
    if bytes.len() > 0 {
        let rest = bytes.skip(1);
        assert forall|i: int| 0 <= i < rest.len() implies #[trigger] rest[i] != '%' as u8 by {
            assert(rest[i] == bytes[i + 1]);
        }
        lemma_unescaped_keeps(rest);
        assert(bytes[0] as char != '%');
        assert(seq![bytes[0]] + rest == bytes);
    }
}

/// A percent sign and two hexadecimal digits, of either case each, are the
/// byte that the digits say.
pub proof fn an_escape_is_its_byte(bytes: Seq<u8>, high: int, low: int)
    requires
        0 <= high < 16,
        0 <= low < 16,
        bytes.len() >= 3,
        bytes[0] as char == '%',
        bytes[1] as char == "0123456789ABCDEF"@[high] || bytes[1] as char
            == "0123456789abcdef"@[high],
        bytes[2] as char == "0123456789ABCDEF"@[low] || bytes[2] as char
            == "0123456789abcdef"@[low],
    ensures
        unescaped(bytes) == seq![(16 * high + low) as u8] + unescaped(bytes.skip(3)),
{
    reveal_strlit("0123456789ABCDEF");
    reveal_strlit("0123456789abcdef");
    assert(digit_value(bytes[1]) == Some(high));
    assert(digit_value(bytes[2]) == Some(low));
}

/// A byte that starts no escape stands for itself, a percent sign too.
pub proof fn what_is_no_escape_stands_for_itself(bytes: Seq<u8>)
    requires
        bytes.len() > 0,
        bytes[0] as char != '%' || bytes.len() < 3 || !"0123456789ABCDEFabcdef"@.contains(
            bytes[1] as char,
        ) || !"0123456789ABCDEFabcdef"@.contains(bytes[2] as char),
    ensures
        unescaped(bytes) == seq![bytes[0]] + unescaped(bytes.skip(1)),
{
    if starts_escape(bytes) {
        lemma_digit_stands(bytes[1]);
        lemma_digit_stands(bytes[2]);
    }
}

proof fn lemma_digit_stands(byte: u8)
    requires
        digit_value(byte) is Some,
    ensures
        "0123456789ABCDEFabcdef"@.contains(byte as char),
{
    let all = "0123456789ABCDEFabcdef"@;
    reveal_strlit("0123456789ABCDEFabcdef");
    let c = byte as char;
    let at = if '0' <= c <= '9' {
        c as int - '0' as int
    } else if 'A' <= c <= 'F' {
        c as int - 'A' as int + 10
    } else {
        c as int - 'a' as int + 16
    };
    assert(all[at] == c);
}

/// A text decodes to the text whose bytes its own come to, escapes read; no
/// bytes come to none.
pub proof fn a_text_decodes_to_what_its_bytes_say(text: Seq<char>, meant: Seq<char>)
    requires
        unescaped(utf8::encode_utf8(text)) == utf8::encode_utf8(meant),
    ensures
        decoded(text) == meant,
        unescaped(seq![]).len() == 0,
{
    text::encoded_text_is_read_back(meant);
}

} // verus!
