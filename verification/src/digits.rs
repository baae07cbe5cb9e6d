//! Decimal digit strings: what they denote, how they are written, and the
//! order that a fixed width of leading zeros gives them.

use crate::text::lemma_lex_first_difference;
use crate::text::lemma_text_order_bytes;
use crate::text::lex_from;
use crate::text::text_order;
use crate::text::Order;
use vstd::prelude::*;
use vstd::string::StringExecFns;
use vstd::utf8::encode_utf8;
use vstd::utf8::is_ascii_chars;
use vstd::utf8::is_ascii_chars_encode_utf8;

verus! {

/// The width to which digit strings are padded before they are compared:
/// more than the decimal digits of any 256-bit integer.
pub const PAD_WIDTH: usize = 79;

/// `c` is one of the ASCII digits `0` to `9`.
pub open spec fn is_digit(c: char) -> bool {
    '0' <= c && c <= '9'
}

/// `s` is a non-empty string of ASCII digits.
pub open spec fn is_decimal(s: Seq<char>) -> bool {
    &&& s.len() > 0
    &&& forall|i: int| 0 <= i < s.len() ==> is_digit(#[trigger] s[i])
}

/// `s` is a decimal string without leading zeros: `0` itself, or one that
/// starts with another digit.
pub open spec fn is_canonical(s: Seq<char>) -> bool {
    &&& is_decimal(s)
    &&& (s.len() == 1 || s[0] != '0')
}

/// The number that the digit `c` stands for.
pub open spec fn digit_value(c: char) -> nat {
    (c as int - '0' as int) as nat
}

/// The number that the digit string `s` denotes.
pub open spec fn decimal_value(s: Seq<char>) -> nat
    decreases s.len(),
{
    if s.len() == 0 {
        0
    } else {
        decimal_value(s.drop_last()) * 10 + digit_value(s.last())
    }
}

/// The digit that stands for `d`, for `d` below ten.
pub open spec fn digit_char(d: nat) -> char {
    if d == 0 {
        '0'
    } else if d == 1 {
        '1'
    } else if d == 2 {
        '2'
    } else if d == 3 {
        '3'
    } else if d == 4 {
        '4'
    } else if d == 5 {
        '5'
    } else if d == 6 {
        '6'
    } else if d == 7 {
        '7'
    } else if d == 8 {
        '8'
    } else {
        '9'
    }
}

/// The decimal notation of `n`, without leading zeros.
pub open spec fn decimal_text(n: nat) -> Seq<char>
    decreases n,
{
    if n < 10 {
        seq![digit_char(n)]
    } else {
        decimal_text(n / 10).push(digit_char(n % 10))
    }
}

/// `s` with zeros in front up to `PAD_WIDTH` characters; a longer `s` stays
/// as it is.
pub open spec fn padded(s: Seq<char>) -> Seq<char> {
    if s.len() >= PAD_WIDTH {
        s
    } else {
        Seq::new((PAD_WIDTH - s.len()) as nat, |i: int| '0') + s
    }
}

/// The order of two digit strings: that of their padded forms as texts.
pub open spec fn chain_order(a: Seq<char>, b: Seq<char>) -> Order {
    text_order(padded(a), padded(b))
}

/// The padded order is that of a total preorder: two digit strings are
/// `Equal` exactly when their padded forms are the same, swapping them swaps
/// `Less` and `Greater`, and `Less` is transitive.
pub proof fn lemma_chain_order_total(a: Seq<char>, b: Seq<char>, c: Seq<char>)
    ensures
        chain_order(a, a) == Order::Equal,
        chain_order(a, b) == Order::Equal <==> padded(a) == padded(b),
        chain_order(a, b) == Order::Less <==> chain_order(b, a) == Order::Greater,
        chain_order(a, b) == Order::Less && chain_order(b, c) == Order::Less ==> chain_order(a, c)
            == Order::Less,
{
    crate::text::lemma_text_order_total(padded(a), padded(b), padded(c));
    crate::text::lemma_text_order_total(padded(a), padded(a), padded(a));
}

/// Two digit strings without leading zeros are `Equal` in the padded order
/// exactly when they are the same digits.
pub proof fn lemma_canonical_equal(a: Seq<char>, b: Seq<char>)
    requires
        is_canonical(a),
        is_canonical(b),
    ensures
        chain_order(a, b) == Order::Equal <==> a == b,
{
    lemma_chain_order_total(a, b, b);
    if padded(a) == padded(b) {
        let width = padded(a).len();
        if a.len() == b.len() {
            assert forall|i: int| 0 <= i < a.len() implies a[i] == b[i] by {
                assert(padded(a)[width - a.len() + i] == a[i]);
                assert(padded(b)[width - b.len() + i] == b[i]);
            }
            assert(a =~= b);
        } else if a.len() < b.len() {
            assert(padded(b)[width - b.len()] == b[0]);
            assert(padded(a)[width - b.len()] == '0');
        } else {
            assert(padded(a)[width - a.len()] == a[0]);
            assert(padded(b)[width - a.len()] == '0');
        }
    }
}

/// Ten to the power `n`.
pub open spec fn pow10(n: nat) -> nat
    decreases n,
{
    if n == 0 {
        1
    } else {
        10 * pow10((n - 1) as nat)
    }
}

/// The decimal notation of a number is canonical and denotes that number.
pub proof fn lemma_decimal_text(n: nat)
    ensures
        is_canonical(decimal_text(n)),
        decimal_value(decimal_text(n)) == n,
    decreases n,
{
    if n < 10 {
        let s = decimal_text(n);
        assert(s.drop_last() =~= Seq::<char>::empty());
        assert(decimal_value(s.drop_last()) == 0);
    } else {
        lemma_decimal_text(n / 10);
        let head = decimal_text(n / 10);
        let s = decimal_text(n);
        assert(s.drop_last() =~= head);
        assert(s.last() == digit_char(n % 10));
        assert(s[0] == head[0]);
        assert(head.len() == 1 ==> head[0] != '0') by {
            if head.len() == 1 {
                assert(decimal_value(head) == digit_value(head[0])) by {
                    assert(head.drop_last() =~= Seq::<char>::empty());
                    assert(decimal_value(head.drop_last()) == 0);
                }
            }
        }
        assert forall|i: int| 0 <= i < s.len() implies is_digit(#[trigger] s[i]) by {
            if i < head.len() {
                assert(s[i] == head[i]);
            }
        }
    }
}

/// A string of `n` digits denotes a number below ten to the `n`.
pub proof fn lemma_value_below_pow10(s: Seq<char>)
    requires
        forall|i: int| 0 <= i < s.len() ==> is_digit(#[trigger] s[i]),
    ensures
        decimal_value(s) < pow10(s.len()),
    decreases s.len(),
{
    if s.len() > 0 {
        let head = s.drop_last();
        assert forall|i: int| 0 <= i < head.len() implies is_digit(#[trigger] head[i]) by {
            assert(head[i] == s[i]);
        }
        lemma_value_below_pow10(head);
        assert(is_digit(s[s.len() - 1]));
    }
}

/// A digit string that does not start with zero denotes at least ten to the
/// power of one less than its length.
pub proof fn lemma_value_at_least_pow10(s: Seq<char>)
    requires
        is_decimal(s),
        s[0] != '0',
    ensures
        decimal_value(s) >= pow10((s.len() - 1) as nat),
    decreases s.len(),
{
    assert(is_digit(s[0]));
    if s.len() == 1 {
        assert(s.drop_last() =~= Seq::<char>::empty());
        assert(decimal_value(s.drop_last()) == 0);
    } else {
        let head = s.drop_last();
        assert forall|i: int| 0 <= i < head.len() implies is_digit(#[trigger] head[i]) by {
            assert(head[i] == s[i]);
        }
        assert(head[0] == s[0]);
        lemma_value_at_least_pow10(head);
        assert(is_digit(s[s.len() - 1]));
    }
}

/// Powers of ten grow with the exponent.
pub proof fn lemma_pow10_monotonic(m: nat, n: nat)
    requires
        m <= n,
    ensures
        pow10(m) <= pow10(n),
        pow10(m) >= 1,
    decreases n,
{
    if n > 0 {
        if m < n {
            lemma_pow10_monotonic(m, (n - 1) as nat);
        } else {
            lemma_pow10_monotonic((m - 1) as nat, (n - 1) as nat);
        }
    }
}

/// Of two canonical digit strings, the one that denotes the lesser number is
/// not the longer one.
pub proof fn lemma_lesser_is_not_longer(a: Seq<char>, b: Seq<char>)
    requires
        is_canonical(a),
        is_canonical(b),
        decimal_value(a) < decimal_value(b),
    ensures
        a.len() <= b.len(),
{
    if a.len() > b.len() {
        lemma_value_at_least_pow10(a);
        lemma_value_below_pow10(b);
        lemma_pow10_monotonic(b.len(), (a.len() - 1) as nat);
    }
}

/// Two digit strings of one length: if the first denotes the lesser number,
/// then at the first place where they differ the first has the lesser digit;
/// and if they denote the same number, they are the same.
pub proof fn lemma_same_length_values(a: Seq<char>, b: Seq<char>)
    requires
        a.len() == b.len(),
        forall|i: int| 0 <= i < a.len() ==> is_digit(#[trigger] a[i]),
        forall|i: int| 0 <= i < b.len() ==> is_digit(#[trigger] b[i]),
    ensures
        decimal_value(a) == decimal_value(b) ==> a == b,
        decimal_value(a) < decimal_value(b) ==> exists|k: int|
            {
                &&& 0 <= k < a.len()
                &&& a[k] < b[k]
                &&& forall|j: int| 0 <= j < k ==> a[j] == b[j]
            },
    decreases a.len(),
{
    if a.len() == 0 {
        assert(a =~= b);
    } else {
        let n = a.len() - 1;
        let a0 = a.drop_last();
        let b0 = b.drop_last();
        assert forall|i: int| 0 <= i < a0.len() implies is_digit(#[trigger] a0[i]) by {
            assert(a0[i] == a[i]);
        }
        assert forall|i: int| 0 <= i < b0.len() implies is_digit(#[trigger] b0[i]) by {
            assert(b0[i] == b[i]);
        }
        lemma_same_length_values(a0, b0);
        lemma_same_length_values(b0, a0);
        assert(is_digit(a[n]));
        assert(is_digit(b[n]));
        if decimal_value(a) == decimal_value(b) {
            assert(decimal_value(a0) == decimal_value(b0));
            assert(a[n] == b[n]);
            assert(a =~= a0.push(a[n]));
            assert(b =~= b0.push(b[n]));
        } else if decimal_value(a) < decimal_value(b) {
            if decimal_value(a0) < decimal_value(b0) {
                let k = choose|k: int|
                    {
                        &&& 0 <= k < a0.len()
                        &&& a0[k] < b0[k]
                        &&& forall|j: int| 0 <= j < k ==> a0[j] == b0[j]
                    };
                assert(a[k] == a0[k] && b[k] == b0[k]);
                assert forall|j: int| 0 <= j < k implies a[j] == b[j] by {
                    assert(a[j] == a0[j] && b[j] == b0[j]);
                }
            } else {
                assert(decimal_value(a0) == decimal_value(b0));
                assert(a[n] < b[n]);
                assert forall|j: int| 0 <= j < n implies a[j] == b[j] by {
                    assert(a[j] == a0[j] && b[j] == b0[j]);
                }
            }
        }
    }
}

/// The padded form of a digit string is ASCII, and so is encoded one byte to
/// a character.
pub proof fn lemma_padded_bytes(s: Seq<char>)
    requires
        is_decimal(s),
    ensures
        is_decimal(padded(s)),
        encode_utf8(padded(s)).len() == padded(s).len(),
        forall|i: int|
            0 <= i < padded(s).len() ==> #[trigger] encode_utf8(padded(s))[i] == padded(s)[i] as u8,
{
    let p = padded(s);
    assert forall|i: int| 0 <= i < p.len() implies is_digit(#[trigger] p[i]) by {
        if s.len() < PAD_WIDTH && i >= PAD_WIDTH - s.len() {
            assert(p[i] == s[i - (PAD_WIDTH - s.len())]);
        }
    }
    assert(is_ascii_chars(p));
    is_ascii_chars_encode_utf8(p);
}

/// The padded order agrees with the order of the numbers: of two canonical
/// digit strings of which the one with the greater number has at most
/// `PAD_WIDTH` digits, or the other fewer than that, the one that denotes
/// the lesser number is `Less`.
pub proof fn lemma_chain_order_numeric(a: Seq<char>, b: Seq<char>)
    requires
        is_canonical(a),
        is_canonical(b),
        decimal_value(a) < decimal_value(b),
        a.len() < PAD_WIDTH || b.len() <= PAD_WIDTH,
    ensures
        chain_order(a, b) == Order::Less,
{
    lemma_lesser_is_not_longer(a, b);
    lemma_padded_bytes(a);
    lemma_padded_bytes(b);
    lemma_text_order_bytes(padded(a), padded(b));
    let pa = padded(a);
    let pb = padded(b);
    let ea = encode_utf8(pa);
    let eb = encode_utf8(pb);
    if a.len() == b.len() {
        lemma_same_length_values(a, b);
        let k = choose|k: int|
            {
                &&& 0 <= k < a.len()
                &&& a[k] < b[k]
                &&& forall|j: int| 0 <= j < k ==> a[j] == b[j]
            };
        let lead = pa.len() - a.len();
        assert(pa[lead + k] == a[k] && pb[lead + k] == b[k]);
        assert(is_digit(a[k]) && is_digit(b[k]));
        assert forall|j: int| 0 <= j < lead + k implies ea[j] == eb[j] by {
            if j >= lead {
                assert(pa[j] == a[j - lead] && pb[j] == b[j - lead]);
            } else {
                assert(pa[j] == '0' && pb[j] == '0');
            }
        }
        lemma_lex_first_difference(ea, eb, 0, lead + k);
    } else {
        // `b` is the longer one, so it does not start with zero.
        assert(is_digit(b[0]));
        let at = pb.len() - b.len();
        assert(pb[at] == b[0]);
        assert(pa[at] == '0');
        assert forall|j: int| 0 <= j < at implies ea[j] == eb[j] by {
            assert(pa[j] == '0' && pb[j] == '0');
        }
        lemma_lex_first_difference(ea, eb, 0, at);
    }
}

/// The decimal notations of two numbers that a `u128` holds are in the
/// padded order in the order of the numbers.
pub proof fn lemma_integer_order(a: u128, b: u128)
    requires
        a < b,
    ensures
        chain_order(decimal_text(a as nat), decimal_text(b as nat)) == Order::Less,
{
    let x = decimal_text(a as nat);
    let y = decimal_text(b as nat);
    lemma_decimal_text(a as nat);
    lemma_decimal_text(b as nat);
    if y.len() > PAD_WIDTH {
        assert(is_digit(y[0]));
        lemma_value_at_least_pow10(y);
        lemma_pow10_monotonic(39, (y.len() - 1) as nat);
        assert(pow10(39) == 1_000_000_000_000_000_000_000_000_000_000_000_000_000) by {
            reveal_with_fuel(pow10, 40);
        }
    }
    lemma_chain_order_numeric(x, y);
}

/// Whether `s` is a non-empty string of ASCII digits.
pub fn is_decimal_str(s: &str) -> (r: bool)
    ensures
        r == is_decimal(s@),
{
    if !s.is_ascii() {
        assert(!is_decimal(s@)) by {
            if is_decimal(s@) {
                assert forall|i: int| 0 <= i < s@.len() implies '\0' <= #[trigger] s@[i]
                    <= '\u{7f}' by {
                    assert(is_digit(s@[i]));
                }
            }
        }
        return false;
    }
    let bytes = s.as_bytes();
    proof {
        is_ascii_chars_encode_utf8(s@);
    }
    if bytes.len() == 0 {
        return false;
    }
    let mut i: usize = 0;
    while i < bytes.len()
        invariant
            i <= bytes.len(),
            bytes@ == encode_utf8(s@),
            bytes@.len() == s@.len(),
            forall|j: int| 0 <= j < s@.len() ==> s@[j] as u8 == #[trigger] bytes@[j],
            forall|j: int| 0 <= j < s@.len() ==> '\0' <= #[trigger] s@[j] <= '\u{7f}',
            forall|j: int| 0 <= j < i ==> is_digit(#[trigger] s@[j]),
        decreases bytes.len() - i,
    {
        let b: u8 = bytes[i];
        assert(b == s@[i as int] as u8);
        if b < 48 || b > 57 {
            assert(!is_digit(s@[i as int]));
            return false;
        }
        assert(is_digit(s@[i as int]));
        i += 1;
    }
    true
}

/// The one-character text of the digit `d`.
fn digit_str(d: u8) -> (r: &'static str)
    requires
        d < 10,
    ensures
        r@ == seq![digit_char(d as nat)],
{
    proof {
        reveal_strlit("0");
        reveal_strlit("1");
        reveal_strlit("2");
        reveal_strlit("3");
        reveal_strlit("4");
        reveal_strlit("5");
        reveal_strlit("6");
        reveal_strlit("7");
        reveal_strlit("8");
        reveal_strlit("9");
    }
    let r = if d == 0 {
        "0"
    } else if d == 1 {
        "1"
    } else if d == 2 {
        "2"
    } else if d == 3 {
        "3"
    } else if d == 4 {
        "4"
    } else if d == 5 {
        "5"
    } else if d == 6 {
        "6"
    } else if d == 7 {
        "7"
    } else if d == 8 {
        "8"
    } else {
        "9"
    };
    assert(r@ =~= seq![digit_char(d as nat)]);
    r
}

/// Appends the decimal notation of `n` to `out`.
fn push_decimal(n: u128, out: &mut String)
    ensures
        final(out)@ == old(out)@ + decimal_text(n as nat),
    decreases n,
{
    if n >= 10 {
        push_decimal(n / 10, out);
    }
    let d: u8 = (n % 10) as u8;
    out.append(digit_str(d));
    assert(final(out)@ =~= old(out)@ + decimal_text(n as nat));
}

/// The decimal notation of `n`.
pub fn decimal_string(n: u128) -> (r: String)
    ensures
        r@ == decimal_text(n as nat),
{
    let mut out = String::new();
    push_decimal(n, &mut out);
    assert(out@ =~= decimal_text(n as nat));
    out
}

/// The byte at place `i` of the padded form of the digits in `s`.
fn padded_byte(s: &[u8], i: usize) -> (r: u8)
    requires
        i < s.len() || i < PAD_WIDTH,
    ensures
        s.len() >= PAD_WIDTH ==> r == s@[i as int],
        s.len() < PAD_WIDTH && i < PAD_WIDTH - s.len() ==> r == 48,
        s.len() < PAD_WIDTH && i >= PAD_WIDTH - s.len() ==> r == s@[i - (PAD_WIDTH - s.len())],
{
    if s.len() >= PAD_WIDTH {
        s[i]
    } else {
        let lead: usize = PAD_WIDTH - s.len();
        if i < lead {
            48
        } else {
            s[i - lead]
        }
    }
}

/// The length of the padded form of a string of `len` digits.
fn padded_len(len: usize) -> (r: usize)
    ensures
        r == if len >= PAD_WIDTH {
            len
        } else {
            PAD_WIDTH
        },
{
    if len >= PAD_WIDTH {
        len
    } else {
        PAD_WIDTH
    }
}

/// Compares two digit strings by their padded forms, without building them.
pub(crate) fn padded_order(a: &str, b: &str) -> (r: Order)
    requires
        is_decimal(a@),
        is_decimal(b@),
    ensures
        r == chain_order(a@, b@),
{
    let x = a.as_bytes();
    let y = b.as_bytes();
    let ghost pa = encode_utf8(padded(a@));
    let ghost pb = encode_utf8(padded(b@));
    proof {
        lemma_padded_bytes(a@);
        lemma_padded_bytes(b@);
        lemma_text_order_bytes(padded(a@), padded(b@));
        assert(is_ascii_chars(a@)) by {
            assert forall|i: int| 0 <= i < a@.len() implies '\0' <= #[trigger] a@[i]
                <= '\u{7f}' by {
                assert(is_digit(a@[i]));
            }
        }
        assert(is_ascii_chars(b@)) by {
            assert forall|i: int| 0 <= i < b@.len() implies '\0' <= #[trigger] b@[i]
                <= '\u{7f}' by {
                assert(is_digit(b@[i]));
            }
        }
        is_ascii_chars_encode_utf8(a@);
        is_ascii_chars_encode_utf8(b@);
    }
    let n = padded_len(x.len());
    let m = padded_len(y.len());
    let mut i: usize = 0;
    while i < n && i < m
        invariant
            i <= n,
            i <= m,
            pa == encode_utf8(padded(a@)),
            pb == encode_utf8(padded(b@)),
            chain_order(a@, b@) == lex_from(pa, pb, 0),
            n == pa.len(),
            m == pb.len(),
            n == padded(a@).len(),
            m == padded(b@).len(),
            x@.len() == a@.len(),
            y@.len() == b@.len(),
            n == if x.len() >= PAD_WIDTH { x.len() } else { PAD_WIDTH },
            m == if y.len() >= PAD_WIDTH { y.len() } else { PAD_WIDTH },
            forall|j: int| 0 <= j < a@.len() ==> a@[j] as u8 == #[trigger] x@[j],
            forall|j: int| 0 <= j < b@.len() ==> b@[j] as u8 == #[trigger] y@[j],
            forall|j: int| 0 <= j < n ==> #[trigger] pa[j] == padded(a@)[j] as u8,
            forall|j: int| 0 <= j < m ==> #[trigger] pb[j] == padded(b@)[j] as u8,
            lex_from(pa, pb, 0) == lex_from(pa, pb, i as int),
        decreases n - i,
    {
        let p = padded_byte(x, i);
        let q = padded_byte(y, i);
        assert(p == pa[i as int]);
        assert(q == pb[i as int]);
        if p < q {
            return Order::Less;
        } else if p > q {
            return Order::Greater;
        }
        i += 1;
    }
    if i < m {
        Order::Less
    } else if i < n {
        Order::Greater
    } else {
        Order::Equal
    }
}

} // verus!
