//! Order and search on text. Both are stated on the characters and run on
//! the UTF-8 encoding, as `str` does.

use vstd::prelude::*;
use vstd::utf8::char_is_scalar;
use vstd::utf8::decode_utf8;
use vstd::utf8::decode_utf8_split;
use vstd::utf8::encode_scalar;
use vstd::utf8::encode_utf8;
use vstd::utf8::encode_utf8_decode_utf8;
use vstd::utf8::encode_utf8_valid_utf8;
use vstd::utf8::has_width_1_encoding;
use vstd::utf8::has_width_2_encoding;
use vstd::utf8::has_width_3_encoding;
use vstd::utf8::has_width_4_encoding;
use vstd::utf8::is_char_boundary;
use vstd::utf8::is_char_boundary_iff_not_is_continuation_byte;
use vstd::utf8::is_scalar;
use vstd::utf8::last_continuation_byte;
use vstd::utf8::leading_byte_width_1;
use vstd::utf8::leading_byte_width_2;
use vstd::utf8::leading_byte_width_3;
use vstd::utf8::leading_byte_width_4;
use vstd::utf8::length_of_first_scalar;
use vstd::utf8::pop_first_scalar;
use vstd::utf8::second_last_continuation_byte;
use vstd::utf8::third_last_continuation_byte;
use vstd::utf8::valid_utf8;
use vstd::utf8::valid_utf8_split;

verus! {

/// The outcome of comparing two values.
#[derive(Clone, Copy, Debug, PartialEq, Eq, Structural)]
pub enum Order {
    Less,
    Equal,
    Greater,
}

/// Lexicographic comparison of `a` and `b` from position `from` on.
pub open spec fn lex_from(a: Seq<u8>, b: Seq<u8>, from: int) -> Order
    decreases a.len() - from,
{
    if from >= a.len() {
        if from >= b.len() {
            Order::Equal
        } else {
            Order::Less
        }
    } else if from >= b.len() {
        Order::Greater
    } else if a[from] < b[from] {
        Order::Less
    } else if a[from] > b[from] {
        Order::Greater
    } else {
        lex_from(a, b, from + 1)
    }
}

/// Lexicographic comparison of two byte strings: the first differing byte
/// decides, and a proper prefix comes before what it is a prefix of.
pub open spec fn lex_order(a: Seq<u8>, b: Seq<u8>) -> Order {
    lex_from(a, b, 0)
}

/// Lexicographic comparison of the texts `a` and `b` from the character
/// `from` on.
pub open spec fn text_from(a: Seq<char>, b: Seq<char>, from: int) -> Order
    decreases a.len() - from,
{
    if from >= a.len() {
        if from >= b.len() {
            Order::Equal
        } else {
            Order::Less
        }
    } else if from >= b.len() {
        Order::Greater
    } else if a[from] < b[from] {
        Order::Less
    } else if a[from] > b[from] {
        Order::Greater
    } else {
        text_from(a, b, from + 1)
    }
}

/// The order of two texts: the first differing character decides, by its
/// code point, and a proper prefix comes before what it is a prefix of.
pub open spec fn text_order(a: Seq<char>, b: Seq<char>) -> Order {
    text_from(a, b, 0)
}

/// `needle` stands in `hay` at position `at`.
pub open spec fn occurs_at(hay: Seq<u8>, needle: Seq<u8>, at: int) -> bool {
    &&& 0 <= at
    &&& at + needle.len() <= hay.len()
    &&& hay.subrange(at, at + needle.len()) == needle
}

/// `needle` stands somewhere in `hay`.
pub open spec fn occurs_in(hay: Seq<u8>, needle: Seq<u8>) -> bool {
    exists|at: int| occurs_at(hay, needle, at)
}

/// The text `needle` stands in the text `hay` at the character `at`.
pub open spec fn text_occurs_at(hay: Seq<char>, needle: Seq<char>, at: int) -> bool {
    &&& 0 <= at
    &&& at + needle.len() <= hay.len()
    &&& hay.subrange(at, at + needle.len()) == needle
}

/// `needle` is a substring of `hay`.
pub open spec fn text_contains(hay: Seq<char>, needle: Seq<char>) -> bool {
    exists|at: int| text_occurs_at(hay, needle, at)
}

/// The encoding of two texts one after the other is the encoding of the
/// first and then that of the second.
pub proof fn lemma_encode_concat(a: Seq<char>, b: Seq<char>)
    ensures
        encode_utf8(a + b) == encode_utf8(a) + encode_utf8(b),
    decreases a.len(),
{
    if a.len() == 0 {
        assert(a + b =~= b);
        assert(encode_utf8(a) + encode_utf8(b) =~= encode_utf8(b));
    } else {
        assert((a + b).drop_first() =~= a.drop_first() + b);
        assert((a + b)[0] == a[0]);
        lemma_encode_concat(a.drop_first(), b);
        assert(encode_utf8(a + b) =~= encode_utf8(a) + encode_utf8(b));
    }
}

/// Where one encoding starts with another, the other ends where a character
/// of the first ends.
proof fn lemma_prefix_boundary(whole: Seq<u8>, part: Seq<u8>)
    requires
        valid_utf8(whole),
        valid_utf8(part),
        part.len() <= whole.len(),
        whole.subrange(0, part.len() as int) == part,
    ensures
        is_char_boundary(whole, part.len() as int),
    decreases part.len(),
{
    if part.len() > 0 {
        assert(whole.subrange(0, part.len() as int)[0] == whole[0]);
        assert(whole[0] == part[0]);
        let width = length_of_first_scalar(part);
        assert(length_of_first_scalar(whole) == width);
        assert(width <= part.len());
        let whole_rest = pop_first_scalar(whole);
        let part_rest = pop_first_scalar(part);
        assert forall|i: int| 0 <= i < part_rest.len() implies whole_rest.subrange(
            0,
            part_rest.len() as int,
        )[i] == part_rest[i] by {
            assert(whole.subrange(0, part.len() as int)[width + i] == whole[width + i]);
        }
        assert(whole_rest.subrange(0, part_rest.len() as int) =~= part_rest);
        lemma_prefix_boundary(whole_rest, part_rest);
    }
}

/// A text whose encoding stands in the encoding of another stands in the
/// other.
proof fn lemma_occurrence_in_texts(hay: Seq<char>, needle: Seq<char>, at: int)
    requires
        occurs_at(encode_utf8(hay), encode_utf8(needle), at),
    ensures
        text_contains(hay, needle),
{
    let h = encode_utf8(hay);
    let n = encode_utf8(needle);
    encode_utf8_valid_utf8(hay);
    encode_utf8_valid_utf8(needle);
    encode_utf8_decode_utf8(hay);
    encode_utf8_decode_utf8(needle);
    if n.len() == 0 {
        assert(needle =~= Seq::<char>::empty());
        assert(hay.subrange(0, 0) =~= needle);
        assert(text_occurs_at(hay, needle, 0));
    } else {
        assert(h.subrange(at, at + n.len())[0] == h[at]);
        is_char_boundary_iff_not_is_continuation_byte(n, 0);
        is_char_boundary_iff_not_is_continuation_byte(h, at);
        assert(is_char_boundary(h, at));
        valid_utf8_split(h, at);
        let before = h.subrange(0, at);
        let from = h.subrange(at, h.len() as int);
        assert(from.subrange(0, n.len() as int) =~= n);
        lemma_prefix_boundary(from, n);
        valid_utf8_split(from, n.len() as int);
        decode_utf8_split(h, at);
        decode_utf8_split(from, n.len() as int);
        let lead = decode_utf8(before);
        let rest = decode_utf8(from.subrange(n.len() as int, from.len() as int));
        assert(hay =~= lead + (needle + rest));
        assert(hay.subrange(lead.len() as int, (lead.len() + needle.len()) as int) =~= needle);
        assert(text_occurs_at(hay, needle, lead.len() as int));
    }
}

/// The encoding of a text that stands in another stands in the encoding of
/// the other.
proof fn lemma_occurrence_in_bytes(hay: Seq<char>, needle: Seq<char>, at: int)
    requires
        text_occurs_at(hay, needle, at),
    ensures
        occurs_in(encode_utf8(hay), encode_utf8(needle)),
{
    let lead = hay.subrange(0, at);
    let rest = hay.subrange(at + needle.len(), hay.len() as int);
    assert(hay =~= (lead + needle) + rest);
    lemma_encode_concat(lead + needle, rest);
    lemma_encode_concat(lead, needle);
    let k = encode_utf8(lead).len() as int;
    let h = encode_utf8(hay);
    let n = encode_utf8(needle);
    assert(h.subrange(k, k + n.len()) =~= n);
    assert(occurs_at(h, n, k));
}

/// A text is a substring of another exactly when its encoding stands in the
/// encoding of the other.
pub proof fn lemma_text_contains(hay: Seq<char>, needle: Seq<char>)
    ensures
        text_contains(hay, needle) <==> occurs_in(encode_utf8(hay), encode_utf8(needle)),
{
    if text_contains(hay, needle) {
        let at = choose|at: int| text_occurs_at(hay, needle, at);
        lemma_occurrence_in_bytes(hay, needle, at);
    }
    if occurs_in(encode_utf8(hay), encode_utf8(needle)) {
        let at = choose|at: int| occurs_at(encode_utf8(hay), encode_utf8(needle), at);
        lemma_occurrence_in_texts(hay, needle, at);
    }
}

/// From a position inside both strings on, the comparison is `Equal`
/// exactly when the two have the same length and the same bytes from there.
pub proof fn lemma_lex_from_equal(a: Seq<u8>, b: Seq<u8>, from: int)
    requires
        0 <= from <= a.len(),
        from <= b.len(),
    ensures
        lex_from(a, b, from) == Order::Equal <==> {
            &&& a.len() == b.len()
            &&& forall|j: int| from <= j < a.len() ==> a[j] == b[j]
        },
    decreases a.len() - from,
{
    if from < a.len() && from < b.len() {
        if a[from] == b[from] {
            lemma_lex_from_equal(a, b, from + 1);
            if a.len() == b.len() && (forall|j: int| from + 1 <= j < a.len() ==> a[j] == b[j]) {
                assert forall|j: int| from <= j < a.len() implies a[j] == b[j] by {
                    if j == from {
                    }
                }
            }
        } else {
            assert(!(forall|j: int| from <= j < a.len() ==> a[j] == b[j])) by {
                assert(a[from] != b[from]);
            }
        }
    }
}

/// Two byte strings compare `Equal` exactly when they are the same.
pub proof fn lemma_lex_equal(a: Seq<u8>, b: Seq<u8>)
    ensures
        lex_order(a, b) == Order::Equal <==> a == b,
{
    lemma_lex_from_equal(a, b, 0);
    if lex_order(a, b) == Order::Equal {
        assert(a =~= b);
    }
}

/// Swapping the arguments swaps `Less` and `Greater`.
pub proof fn lemma_lex_from_flip(a: Seq<u8>, b: Seq<u8>, from: int)
    ensures
        lex_from(a, b, from) == Order::Less <==> lex_from(b, a, from) == Order::Greater,
        lex_from(a, b, from) == Order::Greater <==> lex_from(b, a, from) == Order::Less,
        lex_from(a, b, from) == Order::Equal <==> lex_from(b, a, from) == Order::Equal,
    decreases a.len() - from,
{
    if from < a.len() && from < b.len() && a[from] == b[from] {
        lemma_lex_from_flip(a, b, from + 1);
    }
}

/// `Less` is transitive, from any position on.
pub proof fn lemma_lex_from_transitive(a: Seq<u8>, b: Seq<u8>, c: Seq<u8>, from: int)
    requires
        lex_from(a, b, from) == Order::Less,
        lex_from(b, c, from) == Order::Less,
    ensures
        lex_from(a, c, from) == Order::Less,
    decreases a.len() - from,
{
    if from < a.len() && from < b.len() && from < c.len() && a[from] == b[from] && b[from]
        == c[from] {
        lemma_lex_from_transitive(a, b, c, from + 1);
    }
}

/// The order of texts is a strict total order: `Equal` means the same text,
/// swapping the arguments swaps `Less` and `Greater`, and `Less` is
/// transitive.
pub proof fn lemma_text_order_total(a: Seq<char>, b: Seq<char>, c: Seq<char>)
    ensures
        text_order(a, b) == Order::Equal <==> a == b,
        text_order(a, b) == Order::Less <==> text_order(b, a) == Order::Greater,
        text_order(a, b) == Order::Less && text_order(b, c) == Order::Less ==> text_order(a, c)
            == Order::Less,
{
    lemma_text_order_bytes(a, b);
    lemma_text_order_bytes(b, a);
    lemma_text_order_bytes(b, c);
    lemma_text_order_bytes(a, c);
    lemma_lex_equal(encode_utf8(a), encode_utf8(b));
    encode_utf8_decode_utf8(a);
    encode_utf8_decode_utf8(b);
    lemma_lex_from_flip(encode_utf8(a), encode_utf8(b), 0);
    if text_order(a, b) == Order::Less && text_order(b, c) == Order::Less {
        lemma_lex_from_transitive(encode_utf8(a), encode_utf8(b), encode_utf8(c), 0);
    }
}

/// Where two byte strings agree from `from` up to a place `at` and the first
/// has the lesser byte there, the first is `Less` from `from` on.
pub proof fn lemma_lex_first_difference(a: Seq<u8>, b: Seq<u8>, from: int, at: int)
    requires
        0 <= from <= at,
        at < a.len(),
        at < b.len(),
        a[at] < b[at],
        forall|j: int| from <= j < at ==> a[j] == b[j],
    ensures
        lex_from(a, b, from) == Order::Less,
    decreases at - from,
{
    if from < at {
        lemma_lex_first_difference(a, b, from + 1, at);
    }
}

/// Behind a common start of `width` bytes, two byte strings compare as what
/// follows the start.
proof fn lemma_lex_behind_prefix(start: Seq<u8>, a: Seq<u8>, b: Seq<u8>, from: int)
    requires
        0 <= from,
    ensures
        lex_from(start + a, start + b, start.len() + from) == lex_from(a, b, from),
    decreases a.len() - from,
{
    let x = start + a;
    let y = start + b;
    if from < a.len() && from < b.len() {
        assert(x[start.len() + from] == a[from]);
        assert(y[start.len() + from] == b[from]);
        if a[from] == b[from] {
            lemma_lex_behind_prefix(start, a, b, from + 1);
        }
    }
}

/// A common start does not change how two byte strings compare.
proof fn lemma_lex_common_prefix(start: Seq<u8>, a: Seq<u8>, b: Seq<u8>, from: int)
    requires
        0 <= from <= start.len(),
    ensures
        lex_from(start + a, start + b, from) == lex_order(a, b),
    decreases start.len() - from,
{
    if from < start.len() {
        assert((start + a)[from] == start[from]);
        assert((start + b)[from] == start[from]);
        lemma_lex_common_prefix(start, a, b, from + 1);
    } else {
        lemma_lex_behind_prefix(start, a, b, 0);
    }
}

/// The first byte of an encoding tells its width, and a wider one is the
/// greater.
proof fn lemma_leading_bytes(c: u32)
    by (bit_vector)
    ensures
        has_width_1_encoding(c) ==> leading_byte_width_1(c) <= 0x7F,
        has_width_2_encoding(c) ==> 0xC0 <= leading_byte_width_2(c) <= 0xDF,
        has_width_3_encoding(c) ==> 0xE0 <= leading_byte_width_3(c) <= 0xEF,
        has_width_4_encoding(c) ==> 0xF0 <= leading_byte_width_4(c) <= 0xF7,
{
}

/// Of two scalars of one byte, the lesser has the lesser byte.
proof fn lemma_bytes_of_width_1(x: u32, y: u32)
    by (bit_vector)
    requires
        has_width_1_encoding(x),
        has_width_1_encoding(y),
        x < y,
    ensures
        leading_byte_width_1(x) < leading_byte_width_1(y),
{
}

/// Of two scalars of two bytes, the lesser has the lesser bytes.
proof fn lemma_bytes_of_width_2(x: u32, y: u32)
    by (bit_vector)
    requires
        has_width_2_encoding(x),
        has_width_2_encoding(y),
        x < y,
    ensures
        ({
            let a1 = leading_byte_width_2(x);
            let a2 = last_continuation_byte(x);
            let b1 = leading_byte_width_2(y);
            let b2 = last_continuation_byte(y);
            a1 < b1 || (a1 == b1 && a2 < b2)
        }),
{
}

/// Of two scalars of three bytes, the lesser has the lesser bytes.
proof fn lemma_bytes_of_width_3(x: u32, y: u32)
    by (bit_vector)
    requires
        has_width_3_encoding(x),
        has_width_3_encoding(y),
        x < y,
    ensures
        ({
            let a1 = leading_byte_width_3(x);
            let a2 = second_last_continuation_byte(x);
            let a3 = last_continuation_byte(x);
            let b1 = leading_byte_width_3(y);
            let b2 = second_last_continuation_byte(y);
            let b3 = last_continuation_byte(y);
            a1 < b1 || (a1 == b1 && (a2 < b2 || (a2 == b2 && a3 < b3)))
        }),
{
}

/// Of two scalars of four bytes, the lesser has the lesser bytes.
proof fn lemma_bytes_of_width_4(x: u32, y: u32)
    by (bit_vector)
    requires
        has_width_4_encoding(x),
        has_width_4_encoding(y),
        x < y,
    ensures
        ({
            let a1 = leading_byte_width_4(x);
            let a2 = third_last_continuation_byte(x);
            let a3 = second_last_continuation_byte(x);
            let a4 = last_continuation_byte(x);
            let b1 = leading_byte_width_4(y);
            let b2 = third_last_continuation_byte(y);
            let b3 = second_last_continuation_byte(y);
            let b4 = last_continuation_byte(y);
            a1 < b1 || (a1 == b1 && (a2 < b2 || (a2 == b2 && (a3 < b3 || (a3 == b3 && a4
                < b4)))))
        }),
{
}

/// `a` and `b` differ at a place inside both, and `a` has the lesser byte
/// at the first such place.
spec fn first_less(a: Seq<u8>, b: Seq<u8>) -> bool {
    exists|at: int|
        {
            &&& 0 <= at < a.len()
            &&& at < b.len()
            &&& a[at] < b[at]
            &&& forall|j: int| 0 <= j < at ==> a[j] == b[j]
        }
}

/// The encoding of the lesser of two scalars has the lesser byte where the
/// two encodings first differ.
proof fn lemma_scalar_order(x: u32, y: u32)
    requires
        is_scalar(x),
        is_scalar(y),
        x < y,
    ensures
        first_less(encode_scalar(x), encode_scalar(y)),
{
    let a = encode_scalar(x);
    let b = encode_scalar(y);
    lemma_leading_bytes(x);
    lemma_leading_bytes(y);
    let at: int = if has_width_1_encoding(y) {
        lemma_bytes_of_width_1(x, y);
        0
    } else if has_width_2_encoding(y) {
        if has_width_2_encoding(x) {
            lemma_bytes_of_width_2(x, y);
            if a[0] < b[0] {
                0
            } else {
                1
            }
        } else {
            0
        }
    } else if has_width_3_encoding(y) {
        if has_width_3_encoding(x) {
            lemma_bytes_of_width_3(x, y);
            if a[0] < b[0] {
                0
            } else if a[1] < b[1] {
                1
            } else {
                2
            }
        } else {
            0
        }
    } else {
        if has_width_4_encoding(x) {
            lemma_bytes_of_width_4(x, y);
            if a[0] < b[0] {
                0
            } else if a[1] < b[1] {
                1
            } else if a[2] < b[2] {
                2
            } else {
                3
            }
        } else {
            0
        }
    };
    assert(0 <= at < a.len() && at < b.len() && a[at] < b[at]);
    assert(forall|j: int| 0 <= j < at ==> a[j] == b[j]);
}

/// What starts with the lesser of two differing starts is `Less`.
proof fn lemma_lex_first_less(a: Seq<u8>, b: Seq<u8>, x: Seq<u8>, y: Seq<u8>)
    requires
        first_less(a, b),
    ensures
        lex_order(a + x, b + y) == Order::Less,
        lex_order(b + y, a + x) == Order::Greater,
{
    let at = choose|at: int|
        {
            &&& 0 <= at < a.len()
            &&& at < b.len()
            &&& a[at] < b[at]
            &&& forall|j: int| 0 <= j < at ==> a[j] == b[j]
        };
    assert((a + x)[at] == a[at] && (b + y)[at] == b[at]);
    assert forall|j: int| 0 <= j < at implies (a + x)[j] == (b + y)[j] by {
        assert((a + x)[j] == a[j] && (b + y)[j] == b[j]);
    }
    lemma_lex_first_difference(a + x, b + y, 0, at);
    lemma_lex_from_flip(a + x, b + y, 0);
}

/// Characters compare as their code points.
proof fn lemma_char_order(c: char, d: char)
    ensures
        c < d <==> (c as u32) < (d as u32),
        c == d <==> (c as u32) == (d as u32),
{
}

/// From any character on, two texts compare as the encodings of what is
/// left of them.
proof fn lemma_text_from_bytes(a: Seq<char>, b: Seq<char>, from: int)
    requires
        0 <= from <= a.len(),
        from <= b.len(),
    ensures
        text_from(a, b, from) == lex_order(encode_utf8(a.skip(from)), encode_utf8(b.skip(from))),
    decreases a.len() - from,
{
    let x = a.skip(from);
    let y = b.skip(from);
    if from < a.len() {
        assert(x[0] == a[from]);
        assert(x.drop_first() =~= a.skip(from + 1));
        assert(encode_scalar(a[from] as u32).len() > 0);
    }
    if from < b.len() {
        assert(y[0] == b[from]);
        assert(y.drop_first() =~= b.skip(from + 1));
        assert(encode_scalar(b[from] as u32).len() > 0);
    }
    if from < a.len() && from < b.len() {
        let rest_a = encode_utf8(a.skip(from + 1));
        let rest_b = encode_utf8(b.skip(from + 1));
        char_is_scalar(a[from]);
        char_is_scalar(b[from]);
        lemma_char_order(a[from], b[from]);
        if a[from] == b[from] {
            lemma_text_from_bytes(a, b, from + 1);
            lemma_lex_common_prefix(encode_scalar(a[from] as u32), rest_a, rest_b, 0);
        } else if a[from] < b[from] {
            lemma_scalar_order(a[from] as u32, b[from] as u32);
            lemma_lex_first_less(
                encode_scalar(a[from] as u32),
                encode_scalar(b[from] as u32),
                rest_a,
                rest_b,
            );
        } else {
            lemma_scalar_order(b[from] as u32, a[from] as u32);
            lemma_lex_first_less(
                encode_scalar(b[from] as u32),
                encode_scalar(a[from] as u32),
                rest_b,
                rest_a,
            );
        }
    }
}

/// Two texts compare as their UTF-8 encodings compare byte by byte.
pub proof fn lemma_text_order_bytes(a: Seq<char>, b: Seq<char>)
    ensures
        text_order(a, b) == lex_order(encode_utf8(a), encode_utf8(b)),
{
    lemma_text_from_bytes(a, b, 0);
    assert(a.skip(0) =~= a);
    assert(b.skip(0) =~= b);
}

/// Compares two byte strings lexicographically.
pub fn bytes_order(a: &[u8], b: &[u8]) -> (r: Order)
    ensures
        r == lex_order(a@, b@),
{
    let mut i: usize = 0;
    while i < a.len() && i < b.len()
        invariant
            i <= a.len(),
            i <= b.len(),
            lex_from(a@, b@, 0) == lex_from(a@, b@, i as int),
        decreases a.len() - i,
    {
        if a[i] < b[i] {
            return Order::Less;
        } else if a[i] > b[i] {
            return Order::Greater;
        }
        i += 1;
    }
    if i < b.len() {
        Order::Less
    } else if i < a.len() {
        Order::Greater
    } else {
        Order::Equal
    }
}

/// Compares two texts as `str` orders them.
pub fn str_order(a: &str, b: &str) -> (r: Order)
    ensures
        r == text_order(a@, b@),
{
    proof {
        lemma_text_order_bytes(a@, b@);
    }
    bytes_order(a.as_bytes(), b.as_bytes())
}

/// Whether two texts are the same.
pub fn str_equal(a: &str, b: &str) -> (r: bool)
    ensures
        r == (a@ == b@),
{
    proof {
        lemma_text_order_total(a@, b@, b@);
    }
    match str_order(a, b) {
        Order::Equal => true,
        _ => false,
    }
}

/// Whether `needle` stands in `hay` at position `at`.
fn bytes_match_at(hay: &[u8], needle: &[u8], at: usize) -> (r: bool)
    requires
        at + needle.len() <= hay.len(),
    ensures
        r == occurs_at(hay@, needle@, at as int),
{
    let mut j: usize = 0;
    while j < needle.len()
        invariant
            j <= needle.len(),
            at + needle.len() <= hay.len(),
            forall|k: int| 0 <= k < j ==> hay@[at + k] == needle@[k],
        decreases needle.len() - j,
    {
        if hay[at + j] != needle[j] {
            assert(hay@.subrange(at as int, at + needle.len())[j as int] == hay@[at + j]);
            return false;
        }
        j += 1;
    }
    assert(hay@.subrange(at as int, at + needle.len()) =~= needle@);
    true
}

/// Whether `needle` stands somewhere in `hay`.
pub fn bytes_contain(hay: &[u8], needle: &[u8]) -> (r: bool)
    ensures
        r == occurs_in(hay@, needle@),
{
    if needle.len() > hay.len() {
        return false;
    }
    if needle.len() == 0 {
        assert(hay@.subrange(0, 0) =~= needle@);
        assert(occurs_at(hay@, needle@, 0));
        return true;
    }
    let last: usize = hay.len() - needle.len();
    let mut at: usize = 0;
    while at <= last
        invariant
            at <= last + 1,
            last == hay.len() - needle.len(),
            needle.len() > 0,
            forall|k: int| 0 <= k < at ==> !occurs_at(hay@, needle@, k),
        decreases last + 1 - at,
    {
        if bytes_match_at(hay, needle, at) {
            return true;
        }
        at += 1;
    }
    false
}

/// Whether `needle` is a substring of `hay`.
pub fn str_contains(hay: &str, needle: &str) -> (r: bool)
    ensures
        r == text_contains(hay@, needle@),
{
    proof {
        lemma_text_contains(hay@, needle@);
    }
    bytes_contain(hay.as_bytes(), needle.as_bytes())
}

} // verus!
