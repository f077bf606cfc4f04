//! Text: cutting it, comparing it, writing numbers in it.
//!
//! A string is the sequence of its characters. The cuts are made by the
//! standard library, whose contracts stand here; the order is proved.

use vstd::prelude::*;
use vstd::std_specs::iter;
use vstd::utf8;

verus! {

/// Where `mark` first occurs in `text`, counted in characters.
pub open spec fn find(text: Seq<char>, mark: Seq<char>) -> Option<nat>
    decreases text.len(),
{
    if mark.is_prefix_of(text) {
        Some(0)
    } else if text.len() == 0 {
        None
    } else {
        match find(text.drop_first(), mark) {
            Some(at) => Some(at + 1),
            None => None,
        }
    }
}

/// What stands before and behind the first `mark` in `text`.
pub open spec fn split(text: Seq<char>, mark: Seq<char>) -> Option<(Seq<char>, Seq<char>)> {
    match find(text, mark) {
        Some(at) => Some((text.take(at as int), text.skip((at + mark.len()) as int))),
        None => None,
    }
}

/// What follows `prefix` in `text`.
pub open spec fn after(text: Seq<char>, prefix: Seq<char>) -> Option<Seq<char>> {
    if prefix.is_prefix_of(text) {
        Some(text.skip(prefix.len() as int))
    } else {
        None
    }
}

/// `n` in decimal digits.
pub open spec fn decimal(n: nat) -> Seq<char>
    decreases n,
{
    let digit = (('0' as u32) + n % 10) as char;
    if n < 10 {
        seq![digit]
    } else {
        decimal(n / 10).push(digit)
    }
}

/// `text` with its ASCII capitals made small.
pub open spec fn lowered(text: Seq<char>) -> Seq<char> {
    text.map_values(
        |c: char|
            if 'A' <= c <= 'Z' {
                ((c as u32) + 32) as char
            } else {
                c
            },
    )
}

/// Whether `left` is `right` or comes before it, character by character.
pub open spec fn at_most(left: Seq<char>, right: Seq<char>) -> bool
    decreases left.len(),
{
    if left.len() == 0 {
        true
    } else if right.len() == 0 {
        false
    } else if left[0] == right[0] {
        at_most(left.drop_first(), right.drop_first())
    } else {
        left[0] < right[0]
    }
}

/// What `String::from_utf8_lossy` makes of bytes that are not UTF-8.
pub uninterp spec fn repaired(bytes: Seq<u8>) -> Seq<char>;

/// Bytes read as text.
pub open spec fn as_text(bytes: Seq<u8>) -> Seq<char> {
    if utf8::valid_utf8(bytes) {
        utf8::decode_utf8(bytes)
    } else {
        repaired(bytes)
    }
}

/// `str::strip_prefix`: what follows `prefix`, where `text` starts with it.
#[verifier::external_body]
pub(crate) fn strip_prefix<'a>(text: &'a str, prefix: &str) -> (rest: Option<&'a str>)
    ensures
        match rest {
            Some(rest) => after(text@, prefix@) == Some(rest@),
            None => after(text@, prefix@) is None,
        },
{
    text.strip_prefix(prefix)
}

/// `str::split_once`: what stands before and behind the first `mark`.
#[verifier::external_body]
pub(crate) fn split_once<'a>(text: &'a str, mark: &str) -> (parts: Option<(&'a str, &'a str)>)
    ensures
        match parts {
            Some((before, behind)) => split(text@, mark@) == Some((before@, behind@)),
            None => split(text@, mark@) is None,
        },
{
    text.split_once(mark)
}

/// `usize::to_string`: the number in decimal digits, without sign or padding.
#[verifier::external_body]
pub(crate) fn number(n: usize) -> (text: String)
    ensures
        text@ == decimal(n as nat),
{
    n.to_string()
}

/// `String::from_utf8_lossy`: UTF-8 as the text it encodes. What it makes of
/// bytes that are not UTF-8 has a name and is otherwise left unsaid.
#[verifier::external_body]
pub(crate) fn lossy(bytes: &[u8]) -> (text: String)
    ensures
        utf8::valid_utf8(bytes@) ==> text@ == utf8::decode_utf8(bytes@),
        !utf8::valid_utf8(bytes@) ==> text@ == repaired(bytes@),
{
    String::from_utf8_lossy(bytes).into_owned()
}

/// `str::eq_ignore_ascii_case`: equal once ASCII capitals are made small.
pub assume_specification[ str::eq_ignore_ascii_case ](left: &str, right: &str) -> (same: bool)
    ensures
        same == (lowered(left@) == lowered(right@)),
;

/// `String::push`: the text with one character more at its end.
pub assume_specification[ String::push ](string: &mut String, c: char)
    ensures
        final(string)@ == old(string)@.push(c),
;

/// Whether two texts are the same.
pub(crate) fn same(left: &str, right: &str) -> (same: bool)
    ensures
        same == (left@ == right@),
{
    match strip_prefix(left, right) {
        Some(rest) => {
            assert(rest@.len() == 0 ==> left@ == right@);
            rest.is_empty()
        },
        None => false,
    }
}

/// The texts one after the other.
pub(crate) fn join(left: &str, right: &str) -> (text: String)
    ensures
        text@ == left@ + right@,
{
    left.to_string().concat(right)
}

/// Whether `left` is `right` or comes before it.
pub(crate) fn not_after(left: &str, right: &str) -> (result: bool)
    ensures
        result == at_most(left@, right@),
{
    let mut lefts = left.chars();
    let mut rights = right.chars();
    loop
        invariant
            at_most(left@, right@) == at_most(
                iter::IteratorSpec::remaining(&lefts),
                iter::IteratorSpec::remaining(&rights),
            ),
            iter::IteratorSpec::decrease(&lefts) is Some,
        decreases iter::IteratorSpec::decrease(&lefts)->0,
    {
        match (lefts.next(), rights.next()) {
            (None, _) => {
                return true;
            },
            (Some(_), None) => {
                return false;
            },
            (Some(l), Some(r)) => {
                if l != r {
                    return l < r;
                }
            },
        }
    }
}

/// The order of texts, as a relation.
pub open spec fn order() -> spec_fn(Seq<char>, Seq<char>) -> bool {
    |left: Seq<char>, right: Seq<char>| at_most(left, right)
}

/// Whether each text comes before the next, so that none stands twice.
pub open spec fn increasing(texts: Seq<Seq<char>>) -> bool {
    forall|i: int, j: int|
        #![trigger texts[i], texts[j]]
        0 <= i < j < texts.len() ==> at_most(texts[i], texts[j]) && texts[i] != texts[j]
}

proof fn lemma_at_most_reflexive(text: Seq<char>)
    ensures
        at_most(text, text),
    decreases text.len(),
{
    if text.len() > 0 {
        lemma_at_most_reflexive(text.drop_first());
    }
}

proof fn lemma_at_most_antisymmetric(left: Seq<char>, right: Seq<char>)
    requires
        at_most(left, right),
        at_most(right, left),
    ensures
        left == right,
    decreases left.len(),
{
    if left.len() > 0 {
        lemma_at_most_antisymmetric(left.drop_first(), right.drop_first());
        assert(left == seq![left[0]] + left.drop_first());
        assert(right == seq![right[0]] + right.drop_first());
    } else {
        assert(left == right);
    }
}

proof fn lemma_at_most_transitive(left: Seq<char>, middle: Seq<char>, right: Seq<char>)
    requires
        at_most(left, middle),
        at_most(middle, right),
    ensures
        at_most(left, right),
    decreases left.len(),
{
    if left.len() > 0 && middle.len() > 0 && right.len() > 0 && left[0] == middle[0] && middle[0]
        == right[0] {
        lemma_at_most_transitive(left.drop_first(), middle.drop_first(), right.drop_first());
    }
}

proof fn lemma_at_most_connected(left: Seq<char>, right: Seq<char>)
    ensures
        at_most(left, right) || at_most(right, left),
    decreases left.len(),
{
    if left.len() > 0 && right.len() > 0 && left[0] == right[0] {
        lemma_at_most_connected(left.drop_first(), right.drop_first());
    }
}

/// The order of texts is a total one.
pub proof fn order_is_total()
    ensures
        vstd::relations::total_ordering(order()),
{
    assert forall|x: Seq<char>| #[trigger] order()(x, x) by {
        lemma_at_most_reflexive(x);
    }
    assert forall|x: Seq<char>, y: Seq<char>| #[trigger] order()(x, y) && #[trigger] order()(y, x)
        implies x == y by {
        lemma_at_most_antisymmetric(x, y);
    }
    assert forall|x: Seq<char>, y: Seq<char>, z: Seq<char>| #[trigger]
        order()(x, y) && #[trigger] order()(y, z) implies order()(x, z) by {
        lemma_at_most_transitive(x, y, z);
    }
    assert forall|x: Seq<char>, y: Seq<char>| #[trigger] order()(x, y) || #[trigger] order()(y, x) by {
        lemma_at_most_connected(x, y);
    }
}

/// What two texts start with alike does not decide their order.
pub(crate) proof fn lemma_at_most_behind(start: Seq<char>, left: Seq<char>, right: Seq<char>)
    ensures
        at_most(start + left, start + right) == at_most(left, right),
    decreases start.len(),
{
    if start.len() > 0 {
        lemma_at_most_behind(start.drop_first(), left, right);
        assert((start + left).drop_first() == start.drop_first() + left);
        assert((start + right).drop_first() == start.drop_first() + right);
    } else {
        assert(start + left == left);
        assert(start + right == right);
    }
}

/// The texts in `texts`, each once, in order.
pub open spec fn in_order(texts: Set<Seq<char>>) -> Seq<Seq<char>> {
    texts.to_sorted_seq(order())
}

proof fn lemma_to_seq_distinct(texts: Set<Seq<char>>)
    requires
        texts.finite(),
    ensures
        texts.to_seq().no_duplicates(),
        forall|t: Seq<char>| #[trigger] texts.to_seq().contains(t) <==> texts.contains(t),
    decreases texts.len(),
{
    if texts.len() > 0 {
        let first = texts.choose();
        let rest = texts.remove(first);
        lemma_to_seq_distinct(rest);
        let all = texts.to_seq();
        assert(all == Seq::<Seq<char>>::empty().push(first) + rest.to_seq());
        assert(all[0] == first);
        assert forall|t: Seq<char>| #[trigger] all.contains(t) <==> texts.contains(t) by {
            if all.contains(t) {
                let i = choose|i: int| 0 <= i < all.len() && all[i] == t;
                if i > 0 {
                    assert(rest.to_seq()[i - 1] == t);
                    assert(rest.to_seq().contains(t));
                }
            }
            if texts.contains(t) && t != first {
                assert(rest.to_seq().contains(t));
                let i = choose|i: int| 0 <= i < rest.to_seq().len() && rest.to_seq()[i] == t;
                assert(all[i + 1] == t);
            }
        }
        assert forall|i: int, j: int| 0 <= i < all.len() && 0 <= j < all.len() && i != j implies all[i]
            != all[j] by {
            if i > 0 {
                assert(rest.to_seq().contains(rest.to_seq()[i - 1]));
            }
            if j > 0 {
                assert(rest.to_seq().contains(rest.to_seq()[j - 1]));
            }
        }
    }
}

/// Put in order, finitely many texts each stand once, and no others do.
pub proof fn in_order_holds_each_once(texts: Set<Seq<char>>)
    requires
        texts.finite(),
    ensures
        increasing(in_order(texts)),
        forall|t: Seq<char>| #[trigger] in_order(texts).contains(t) <==> texts.contains(t),
{
    broadcast use vstd::seq_lib::group_to_multiset_ensures;

    let some = texts.to_seq();
    let sorted = in_order(texts);
    order_is_total();
    lemma_to_seq_distinct(texts);
    some.lemma_sort_by_ensures(order());
    some.lemma_multiset_has_no_duplicates();
    sorted.lemma_multiset_has_no_duplicates_conv();
    assert forall|t: Seq<char>| #[trigger] sorted.contains(t) <==> texts.contains(t) by {
        assert(some.to_multiset().count(t) == sorted.to_multiset().count(t));
        assert(some.contains(t) <==> texts.contains(t));
    }
    assert forall|i: int, j: int|
        #![trigger sorted[i], sorted[j]]
        0 <= i < j < sorted.len() implies at_most(sorted[i], sorted[j]) && sorted[i] != sorted[j] by {
        assert(order()(sorted[i], sorted[j]));
    }
}

/// There is one way to put texts in order.
pub proof fn in_order_is_unique(texts: Set<Seq<char>>, listed: Seq<Seq<char>>)
    requires
        increasing(listed),
        forall|t: Seq<char>| #[trigger] listed.contains(t) <==> texts.contains(t),
    ensures
        texts.finite(),
        listed == in_order(texts),
{
    broadcast use vstd::seq_lib::group_to_multiset_ensures;

    assert(listed.to_set() == texts);
    let sorted = in_order(texts);
    order_is_total();
    in_order_holds_each_once(texts);
    listed.lemma_multiset_has_no_duplicates();
    sorted.lemma_multiset_has_no_duplicates();
    assert forall|t: Seq<char>| #[trigger]
        listed.to_multiset().count(t) == sorted.to_multiset().count(t) by {
        assert(listed.contains(t) <==> texts.contains(t));
        assert(sorted.contains(t) <==> texts.contains(t));
        if texts.contains(t) {
            assert(listed.to_multiset().contains(t));
            assert(sorted.to_multiset().contains(t));
        }
    }
    assert(listed.to_multiset() =~= sorted.to_multiset());
    assert(vstd::relations::sorted_by(listed, order()));
    assert(vstd::relations::sorted_by(sorted, order()));
    vstd::seq_lib::lemma_sorted_unique(listed, sorted, order());
}

/// A mark is found behind a text without the character that it starts with.
pub(crate) proof fn lemma_find_behind(before: Seq<char>, mark: Seq<char>, behind: Seq<char>)
    requires
        mark.len() > 0,
        !before.contains(mark[0]),
    ensures
        split(before + mark + behind, mark) == Some((before, behind)),
{
    let whole = before + mark + behind;
    lemma_find_at(whole, before, mark);
    assert(whole.take(before.len() as int) == before);
    assert(whole.skip((before.len() + mark.len()) as int) == behind);
}

proof fn lemma_find_at(whole: Seq<char>, before: Seq<char>, mark: Seq<char>)
    requires
        mark.len() > 0,
        !before.contains(mark[0]),
        (before + mark).is_prefix_of(whole),
    ensures
        find(whole, mark) == Some(before.len()),
    decreases before.len(),
{
    if before.len() == 0 {
        assert(before + mark == mark);
    } else {
        let rest = before.drop_first();
        assert(before.contains(before[0]));
        assert(whole[0] == (before + mark)[0]);
        assert(!mark.is_prefix_of(whole)) by {
            if mark.is_prefix_of(whole) {
                assert(mark[0] == whole[0]);
            }
        }
        assert forall|c: char| rest.contains(c) implies before.contains(c) by {
            let i = choose|i: int| 0 <= i < rest.len() && rest[i] == c;
            assert(before[i + 1] == c);
        }
        assert(rest + mark == (before + mark).drop_first());
        assert(whole.drop_first().take((rest + mark).len() as int) == rest + mark);
        lemma_find_at(whole.drop_first(), rest, mark);
    }
}

/// What follows a text in a text that starts with it.
pub(crate) proof fn lemma_after(prefix: Seq<char>, rest: Seq<char>)
    ensures
        after(prefix + rest, prefix) == Some(rest),
{
    assert((prefix + rest).skip(prefix.len() as int) == rest);
}

/// Whether `left` is `right` or comes before it, byte by byte.
pub open spec fn bytes_at_most(left: Seq<u8>, right: Seq<u8>) -> bool
    decreases left.len(),
{
    if left.len() == 0 {
        true
    } else if right.len() == 0 {
        false
    } else if left[0] == right[0] {
        bytes_at_most(left.drop_first(), right.drop_first())
    } else {
        left[0] < right[0]
    }
}

/// Whether `left` and `right` first differ at `at`, and `left` is smaller there.
spec fn smaller_at(left: Seq<u8>, right: Seq<u8>, at: int) -> bool {
    &&& 0 <= at < left.len()
    &&& at < right.len()
    &&& left[at] < right[at]
    &&& forall|i: int| 0 <= i < at ==> #[trigger] left[i] == right[i]
}

proof fn lemma_leading_bytes(c: u32)
    by (bit_vector)
    ensures
        c <= 0x7F ==> utf8::leading_byte_width_1(c) < 0x80,
        c <= 0x7FF ==> 0xC0 <= utf8::leading_byte_width_2(c) < 0xE0,
        c <= 0xFFFF ==> 0xE0 <= utf8::leading_byte_width_3(c) < 0xF0,
        c <= 0x10FFFF ==> 0xF0 <= utf8::leading_byte_width_4(c),
{
}

proof fn lemma_smaller_width_1(c: u32, d: u32)
    by (bit_vector)
    requires
        c < d <= 0x7F,
    ensures
        utf8::leading_byte_width_1(c) < utf8::leading_byte_width_1(d),
{
}

proof fn lemma_smaller_width_2(c: u32, d: u32)
    by (bit_vector)
    requires
        c < d <= 0x7FF,
    ensures
        utf8::leading_byte_width_2(c) < utf8::leading_byte_width_2(d) || (
        utf8::leading_byte_width_2(c) == utf8::leading_byte_width_2(d)
            && utf8::last_continuation_byte(c) < utf8::last_continuation_byte(d)),
{
}

proof fn lemma_smaller_width_3(c: u32, d: u32)
    by (bit_vector)
    requires
        c < d <= 0xFFFF,
    ensures
        utf8::leading_byte_width_3(c) < utf8::leading_byte_width_3(d) || (
        utf8::leading_byte_width_3(c) == utf8::leading_byte_width_3(d) && (
        utf8::second_last_continuation_byte(c) < utf8::second_last_continuation_byte(d) || (
        utf8::second_last_continuation_byte(c) == utf8::second_last_continuation_byte(d)
            && utf8::last_continuation_byte(c) < utf8::last_continuation_byte(d)))),
{
}

proof fn lemma_smaller_width_4(c: u32, d: u32)
    by (bit_vector)
    requires
        c < d <= 0x10FFFF,
    ensures
        utf8::leading_byte_width_4(c) < utf8::leading_byte_width_4(d) || (
        utf8::leading_byte_width_4(c) == utf8::leading_byte_width_4(d) && (
        utf8::third_last_continuation_byte(c) < utf8::third_last_continuation_byte(d) || (
        utf8::third_last_continuation_byte(c) == utf8::third_last_continuation_byte(d) && (
        utf8::second_last_continuation_byte(c) < utf8::second_last_continuation_byte(d) || (
        utf8::second_last_continuation_byte(c) == utf8::second_last_continuation_byte(d)
            && utf8::last_continuation_byte(c) < utf8::last_continuation_byte(d)))))),
{
}

/// Of two characters the smaller has the smaller encoding, and neither
/// encoding starts the other.
proof fn lemma_smaller_scalar(c: u32, d: u32) -> (at: int)
    requires
        utf8::is_scalar(c),
        utf8::is_scalar(d),
        c < d,
    ensures
        smaller_at(utf8::encode_scalar(c), utf8::encode_scalar(d), at),
{
    let left = utf8::encode_scalar(c);
    let right = utf8::encode_scalar(d);
    lemma_leading_bytes(c);
    lemma_leading_bytes(d);
    if utf8::has_width_1_encoding(d) {
        lemma_smaller_width_1(c, d);
    } else if utf8::has_width_2_encoding(c) && utf8::has_width_2_encoding(d) {
        lemma_smaller_width_2(c, d);
    } else if utf8::has_width_3_encoding(c) && utf8::has_width_3_encoding(d) {
        lemma_smaller_width_3(c, d);
    } else if utf8::has_width_4_encoding(c) {
        lemma_smaller_width_4(c, d);
    }
    if left[0] != right[0] {
        0
    } else if left[1] != right[1] {
        1
    } else if left[2] != right[2] {
        2
    } else {
        3
    }
}

proof fn lemma_bytes_decided(left: Seq<u8>, right: Seq<u8>, at: int)
    requires
        smaller_at(left, right, at),
    ensures
        bytes_at_most(left, right),
        !bytes_at_most(right, left),
    decreases at,
{
    if at > 0 {
        assert(left[0] == right[0]);
        assert forall|i: int| 0 <= i < at - 1 implies #[trigger] left.drop_first()[i]
            == right.drop_first()[i] by {
            assert(left[i + 1] == right[i + 1]);
        }
        lemma_bytes_decided(left.drop_first(), right.drop_first(), at - 1);
    }
}

proof fn lemma_bytes_behind(start: Seq<u8>, left: Seq<u8>, right: Seq<u8>)
    ensures
        bytes_at_most(start + left, start + right) == bytes_at_most(left, right),
    decreases start.len(),
{
    if start.len() > 0 {
        lemma_bytes_behind(start.drop_first(), left, right);
        assert((start + left).drop_first() == start.drop_first() + left);
        assert((start + right).drop_first() == start.drop_first() + right);
    } else {
        assert(start + left == left);
        assert(start + right == right);
    }
}

/// The order of texts is the order of the bytes that encode them.
pub proof fn order_is_that_of_the_bytes(left: Seq<char>, right: Seq<char>)
    ensures
        at_most(left, right) == bytes_at_most(utf8::encode_utf8(left), utf8::encode_utf8(right)),
    decreases left.len(),
{
    if left.len() > 0 && right.len() > 0 {
        let c = left[0] as u32;
        let d = right[0] as u32;
        let rest = utf8::encode_utf8(left.drop_first());
        let others = utf8::encode_utf8(right.drop_first());
        utf8::char_is_scalar(left[0]);
        utf8::char_is_scalar(right[0]);
        utf8::char_u32_cast(left[0], c);
        utf8::char_u32_cast(right[0], d);
        if c == d {
            order_is_that_of_the_bytes(left.drop_first(), right.drop_first());
            lemma_bytes_behind(utf8::encode_scalar(c), rest, others);
        } else if c < d {
            let at = lemma_smaller_scalar(c, d);
            assert(smaller_at(utf8::encode_utf8(left), utf8::encode_utf8(right), at));
            lemma_bytes_decided(utf8::encode_utf8(left), utf8::encode_utf8(right), at);
        } else {
            let at = lemma_smaller_scalar(d, c);
            assert(smaller_at(utf8::encode_utf8(right), utf8::encode_utf8(left), at));
            lemma_bytes_decided(utf8::encode_utf8(right), utf8::encode_utf8(left), at);
        }
    } else if left.len() > 0 {
        assert(utf8::encode_scalar(left[0] as u32).len() > 0);
    }
}

/// What decimal digits say.
pub open spec fn number_read(digits: Seq<char>) -> int
    decreases digits.len(),
{
    if digits.len() == 0 {
        0
    } else {
        number_read(digits.drop_last()) * 10 + (digits.last() as int - '0' as int)
    }
}

/// A number in decimal is one or more digits, without a leading zero but for
/// zero itself, and reads back as the number.
pub proof fn decimal_reads_back(n: nat)
    ensures
        number_read(decimal(n)) == n,
        decimal(n).len() > 0,
        decimal(n)[0] == '0' ==> n == 0,
        forall|i: int| 0 <= i < decimal(n).len() ==> '0' <= #[trigger] decimal(n)[i] <= '9',
    decreases n,
{
    let digits = decimal(n);
    let digit = (('0' as u32) + n % 10) as char;
    assert(digit as int == '0' as int + n % 10);
    assert(digits.last() == digit);
    if n >= 10 {
        decimal_reads_back(n / 10);
        assert(digits.drop_last() == decimal(n / 10));
        assert(digits[0] == decimal(n / 10)[0]);
    } else {
        assert(digits.drop_last() == Seq::<char>::empty());
        assert(number_read(digits.drop_last()) == 0);
    }
}

/// Two numbers are written alike only where they are one.
pub proof fn decimal_tells_numbers_apart(m: nat, n: nat)
    requires
        decimal(m) == decimal(n),
    ensures
        m == n,
{
    decimal_reads_back(m);
    decimal_reads_back(n);
}

/// Bytes that encode a text are read as that text.
pub proof fn encoded_text_is_read_back(text: Seq<char>)
    ensures
        as_text(utf8::encode_utf8(text)) == text,
{
    utf8::encode_utf8_valid_utf8(text);
    utf8::encode_utf8_decode_utf8(text);
}

/// A mark is found where it stands with none before it.
pub proof fn a_mark_is_found_where_it_first_stands(text: Seq<char>, mark: Seq<char>, at: nat)
    requires
        at <= text.len(),
        mark.is_prefix_of(text.skip(at as int)),
        forall|i: int| 0 <= i < at ==> !mark.is_prefix_of(#[trigger] text.skip(i)),
    ensures
        split(text, mark) == Some((text.take(at as int), text.skip((at + mark.len()) as int))),
{
    lemma_find_first(text, mark, at);
}

proof fn lemma_find_first(text: Seq<char>, mark: Seq<char>, at: nat)
    requires
        at <= text.len(),
        mark.is_prefix_of(text.skip(at as int)),
        forall|i: int| 0 <= i < at ==> !mark.is_prefix_of(#[trigger] text.skip(i)),
    ensures
        find(text, mark) == Some(at),
    decreases at,
{
    assert(text.skip(0) == text);
    if at > 0 {
        let rest = text.drop_first();
        assert(rest.skip(at - 1) == text.skip(at as int));
        assert forall|i: int| 0 <= i < at - 1 implies !mark.is_prefix_of(
            #[trigger] rest.skip(i),
        ) by {
            assert(rest.skip(i) == text.skip(i + 1));
        }
        lemma_find_first(rest, mark, (at - 1) as nat);
    }
}

/// A mark that stands nowhere is not found.
pub proof fn a_mark_that_stands_nowhere_is_not_found(text: Seq<char>, mark: Seq<char>)
    requires
        forall|i: int| 0 <= i <= text.len() ==> !mark.is_prefix_of(#[trigger] text.skip(i)),
    ensures
        split(text, mark) is None,
    decreases text.len(),
{
    assert(text.skip(0) == text);
    if text.len() > 0 {
        let rest = text.drop_first();
        assert forall|i: int| 0 <= i <= rest.len() implies !mark.is_prefix_of(
            #[trigger] rest.skip(i),
        ) by {
            assert(rest.skip(i) == text.skip(i + 1));
        }
        a_mark_that_stands_nowhere_is_not_found(rest, mark);
    }
}

proof fn lemma_high_bytes(c: u32)
    by (bit_vector)
    ensures
        utf8::leading_byte_width_2(c) >= 0x80,
        utf8::leading_byte_width_3(c) >= 0x80,
        utf8::leading_byte_width_4(c) >= 0x80,
        utf8::third_last_continuation_byte(c) >= 0x80,
        utf8::second_last_continuation_byte(c) >= 0x80,
        utf8::last_continuation_byte(c) >= 0x80,
        c < 0x80 ==> utf8::leading_byte_width_1(c) == c,
{
}

/// An ASCII character is its own byte; any other has bytes above ASCII.
pub(crate) proof fn lemma_bytes_of(c: char)
    ensures
        (c as u32) < 0x80 ==> utf8::encode_utf8(seq![c]) == seq![c as u8] && (c as u8) as char == c,
        (c as u32) >= 0x80 ==> forall|i: int|
            0 <= i < utf8::encode_utf8(seq![c]).len() ==> #[trigger] utf8::encode_utf8(seq![c])[i]
                >= 0x80,
        utf8::encode_utf8(seq![c]) == utf8::encode_scalar(c as u32),
        utf8::encode_utf8(seq![c]).len() > 0,
{
    lemma_high_bytes(c as u32);
    utf8::char_is_scalar(c);
    reveal_with_fuel(utf8::encode_utf8, 2);
    assert(seq![c].drop_first() == Seq::<char>::empty());
    assert(utf8::encode_utf8(seq![c]) == utf8::encode_scalar(c as u32));
}

/// The encoding of two texts is that of the one behind the other.
pub(crate) proof fn lemma_encode_concat(left: Seq<char>, right: Seq<char>)
    ensures
        utf8::encode_utf8(left + right) == utf8::encode_utf8(left) + utf8::encode_utf8(right),
    decreases left.len(),
{
    if left.len() > 0 {
        lemma_encode_concat(left.drop_first(), right);
        assert((left + right).drop_first() == left.drop_first() + right);
        assert(utf8::encode_utf8(left + right) == utf8::encode_utf8(left) + utf8::encode_utf8(
            right,
        ));
    } else {
        assert(left + right == right);
        assert(utf8::encode_utf8(left) + utf8::encode_utf8(right) == utf8::encode_utf8(right));
    }
}

/// What a text starts with, it has at every place of it.
pub(crate) proof fn lemma_prefix_at(prefix: Seq<char>, text: Seq<char>, i: int)
    requires
        prefix.is_prefix_of(text),
        0 <= i < prefix.len(),
    ensures
        i < text.len(),
        text[i] == prefix[i],
{
    assert(text.subrange(0, prefix.len() as int)[i] == prefix[i]);
}

/// Lowering makes each ASCII capital the small letter and leaves every other
/// character as it is, where it is.
pub proof fn lowering_touches_capitals_alone(text: Seq<char>)
    ensures
        lowered(text).len() == text.len(),
        forall|i: int|
            #![trigger lowered(text)[i]]
            0 <= i < text.len() ==> lowered(text)[i] as int == if 'A' <= text[i] <= 'Z' {
                text[i] as int - 'A' as int + 'a' as int
            } else {
                text[i] as int
            },
{
}

} // verus!
