//! Chain ids: decimal digit strings of any length, ordered as numbers.

use crate::digits::chain_order;
use crate::digits::decimal_string;
use crate::digits::decimal_text;
use crate::digits::decimal_value;
use crate::digits::is_canonical;
use crate::digits::is_decimal;
use crate::digits::is_decimal_str;
use crate::digits::lemma_chain_order_numeric;
use crate::digits::lemma_decimal_text;
use crate::digits::padded_order;
use crate::digits::PAD_WIDTH;
use crate::error::MescError;
use crate::text::str_equal;
use crate::text::Order;
use std::cmp::Ordering;
use vstd::prelude::*;
use vstd::std_specs::cmp::PartialEqSpecImpl;
use vstd::std_specs::cmp::PartialOrdSpecImpl;
use vstd::std_specs::convert::FromSpecImpl;
use vstd::string::StringExecFns;

verus! {

/// A chain id: a non-empty string of decimal digits, which stands for a
/// non-negative integer of any size.
#[derive(Debug, Hash)]
pub struct ChainId(String);

impl View for ChainId {
    type V = Seq<char>;

    closed spec fn view(&self) -> Seq<char> {
        self.0@
    }
}

/// What `std` calls the outcome `o`.
pub open spec fn ordering_of(o: Order) -> Ordering {
    match o {
        Order::Less => Ordering::Less,
        Order::Equal => Ordering::Equal,
        Order::Greater => Ordering::Greater,
    }
}

impl ChainId {
    #[verifier::type_invariant]
    closed spec fn well_formed(self) -> bool {
        is_decimal(self.0@)
    }

    /// The chain id that stands for "no chain": zero.
    pub fn null_chain_id() -> (r: ChainId)
        ensures
            r@ == seq!['0'],
    {
        proof {
            reveal_strlit("0");
        }
        let digits = String::from_str("0");
        assert(digits@ =~= seq!['0']);
        ChainId(digits)
    }

    /// The chain id written as `text`, if `text` is a non-empty string of
    /// decimal digits.
    pub fn parse(text: &str) -> (r: Option<ChainId>)
        ensures
            match r {
                Some(c) => is_decimal(text@) && c@ == text@,
                None => !is_decimal(text@),
            },
    {
        if is_decimal_str(text) {
            Some(ChainId(String::from_str(text)))
        } else {
            None
        }
    }

    /// The chain id of the number `value`.
    pub fn from_u128(value: u128) -> (r: ChainId)
        ensures
            r@ == decimal_text(value as nat),
    {
        proof {
            lemma_decimal_text(value as nat);
        }
        ChainId(decimal_string(value))
    }

    /// The digits, as they were given.
    pub fn as_str(&self) -> (r: &str)
        ensures
            r@ == self@,
            is_decimal(r@),
    {
        proof {
            use_type_invariant(self);
        }
        self.0.as_str()
    }

    /// The digits, without padding.
    pub fn to_string(&self) -> (r: String)
        ensures
            r@ == self@,
            is_decimal(r@),
    {
        proof {
            use_type_invariant(self);
        }
        self.0.clone()
    }

    /// Compares two chain ids by their digits padded with zeros to a common
    /// width.
    pub fn order(&self, other: &ChainId) -> (r: Order)
        ensures
            r == chain_order(self@, other@),
    {
        padded_order(self.as_str(), other.as_str())
    }

    /// Compares two chain ids as `order` does, in the terms of `std`.
    pub fn cmp(&self, other: &ChainId) -> (r: Ordering)
        ensures
            r == ordering_of(chain_order(self@, other@)),
    {
        match self.order(other) {
            Order::Less => Ordering::Less,
            Order::Equal => Ordering::Equal,
            Order::Greater => Ordering::Greater,
        }
    }
}

impl Clone for ChainId {
    fn clone(&self) -> (r: Self)
        ensures
            r == *self,
    {
        proof {
            use_type_invariant(self);
        }
        ChainId(self.0.clone())
    }
}

impl PartialEq for ChainId {
    fn eq(&self, other: &Self) -> (r: bool) {
        str_equal(self.0.as_str(), other.0.as_str())
    }
}

impl PartialEqSpecImpl for ChainId {
    open spec fn obeys_eq_spec() -> bool {
        true
    }

    open spec fn eq_spec(&self, other: &Self) -> bool {
        self@ == other@
    }
}

impl Eq for ChainId {

}

impl PartialOrd for ChainId {
    fn partial_cmp(&self, other: &Self) -> (r: Option<Ordering>) {
        Some(self.cmp(other))
    }
}

impl PartialOrdSpecImpl for ChainId {
    open spec fn obeys_partial_cmp_spec() -> bool {
        true
    }

    open spec fn partial_cmp_spec(&self, other: &Self) -> Option<Ordering> {
        Some(ordering_of(chain_order(self@, other@)))
    }
}

/// Of two chain ids without leading zeros, of which the one with the
/// greater number has at most `PAD_WIDTH` digits, or the other fewer than
/// that, the one with the lesser number is the lesser: `<` holds of them.
pub proof fn lemma_lesser_number_is_less(a: ChainId, b: ChainId)
    requires
        is_canonical(a@),
        is_canonical(b@),
        decimal_value(a@) < decimal_value(b@),
        a@.len() < PAD_WIDTH || b@.len() <= PAD_WIDTH,
    ensures
        chain_order(a@, b@) == Order::Less,
        vstd::std_specs::cmp::PartialOrdSpec::partial_cmp_spec(&a, &b) == Some(Ordering::Less),
{
    lemma_chain_order_numeric(a@, b@);
}

/// What a conversion to a chain id owes for what was offered: for a text,
/// the chain id with those digits, or `InvalidChainId` with the text as it
/// came where it is not a non-empty string of decimal digits; for a form that
/// is not supported, `NotImplemented`.
pub open spec fn chain_id_outcome(offered: Option<Seq<char>>, r: Result<ChainId, MescError>) -> bool {
    match offered {
        Some(text) => if is_decimal(text) {
            r matches Ok(c) && c@ == text
        } else {
            r matches Err(MescError::InvalidChainId(raw)) && raw@ == text
        },
        None => r matches Err(MescError::NotImplemented(what)) && what@ == "binary chain_id"@,
    }
}

/// Conversion to a chain id, with one error type for every input form.
pub trait TryIntoChainId: Sized {
    /// The text that the value offers as a chain id; `None` for a form that
    /// is not supported.
    spec fn offered(&self) -> Option<Seq<char>>;

    fn try_into_chain_id(self) -> (r: Result<ChainId, MescError>)
        ensures
            chain_id_outcome(self.offered(), r),
    ;
}

impl TryIntoChainId for ChainId {
    open spec fn offered(&self) -> Option<Seq<char>> {
        Some(self@)
    }

    fn try_into_chain_id(self) -> (r: Result<ChainId, MescError>) {
        proof {
            use_type_invariant(&self);
        }
        Ok(self)
    }
}

impl TryIntoChainId for String {
    open spec fn offered(&self) -> Option<Seq<char>> {
        Some(self@)
    }

    fn try_into_chain_id(self) -> (r: Result<ChainId, MescError>) {
        if is_decimal_str(self.as_str()) {
            Ok(ChainId(self))
        } else {
            Err(MescError::InvalidChainId(self))
        }
    }
}

impl TryIntoChainId for &str {
    open spec fn offered(&self) -> Option<Seq<char>> {
        Some(self@)
    }

    fn try_into_chain_id(self) -> (r: Result<ChainId, MescError>) {
        if is_decimal_str(self) {
            Ok(ChainId(String::from_str(self)))
        } else {
            Err(MescError::InvalidChainId(String::from_str(self)))
        }
    }
}

impl TryIntoChainId for u8 {
    open spec fn offered(&self) -> Option<Seq<char>> {
        Some(decimal_text(*self as nat))
    }

    fn try_into_chain_id(self) -> (r: Result<ChainId, MescError>) {
        proof {
            lemma_decimal_text(self as nat);
        }
        Ok(ChainId::from_u128(self as u128))
    }
}

impl TryIntoChainId for u16 {
    open spec fn offered(&self) -> Option<Seq<char>> {
        Some(decimal_text(*self as nat))
    }

    fn try_into_chain_id(self) -> (r: Result<ChainId, MescError>) {
        proof {
            lemma_decimal_text(self as nat);
        }
        Ok(ChainId::from_u128(self as u128))
    }
}

impl TryIntoChainId for u32 {
    open spec fn offered(&self) -> Option<Seq<char>> {
        Some(decimal_text(*self as nat))
    }

    fn try_into_chain_id(self) -> (r: Result<ChainId, MescError>) {
        proof {
            lemma_decimal_text(self as nat);
        }
        Ok(ChainId::from_u128(self as u128))
    }
}

impl TryIntoChainId for u64 {
    open spec fn offered(&self) -> Option<Seq<char>> {
        Some(decimal_text(*self as nat))
    }

    fn try_into_chain_id(self) -> (r: Result<ChainId, MescError>) {
        proof {
            lemma_decimal_text(self as nat);
        }
        Ok(ChainId::from_u128(self as u128))
    }
}

impl TryIntoChainId for u128 {
    open spec fn offered(&self) -> Option<Seq<char>> {
        Some(decimal_text(*self as nat))
    }

    fn try_into_chain_id(self) -> (r: Result<ChainId, MescError>) {
        proof {
            lemma_decimal_text(self as nat);
        }
        Ok(ChainId::from_u128(self))
    }
}

impl TryIntoChainId for usize {
    open spec fn offered(&self) -> Option<Seq<char>> {
        Some(decimal_text(*self as nat))
    }

    fn try_into_chain_id(self) -> (r: Result<ChainId, MescError>) {
        proof {
            lemma_decimal_text(self as nat);
        }
        Ok(ChainId::from_u128(self as u128))
    }
}

impl TryIntoChainId for &[u8] {
    open spec fn offered(&self) -> Option<Seq<char>> {
        None
    }

    fn try_into_chain_id(self) -> (r: Result<ChainId, MescError>) {
        Err(MescError::NotImplemented(String::from_str("binary chain_id")))
    }
}

impl From<u8> for ChainId {
    /// The chain id of the number `value`.
    fn from(value: u8) -> (r: ChainId)
        ensures
            r@ == decimal_text(value as nat),
    {
        ChainId::from_u128(value as u128)
    }
}

/// The generic statement of `From` is left open: what `from` gives is
/// stated on `from` itself, by the digits of the result.
impl FromSpecImpl<u8> for ChainId {
    open spec fn obeys_from_spec() -> bool {
        false
    }

    open spec fn from_spec(value: u8) -> ChainId {
        arbitrary()
    }
}

impl From<u16> for ChainId {
    /// The chain id of the number `value`.
    fn from(value: u16) -> (r: ChainId)
        ensures
            r@ == decimal_text(value as nat),
    {
        ChainId::from_u128(value as u128)
    }
}

/// The generic statement of `From` is left open: what `from` gives is
/// stated on `from` itself, by the digits of the result.
impl FromSpecImpl<u16> for ChainId {
    open spec fn obeys_from_spec() -> bool {
        false
    }

    open spec fn from_spec(value: u16) -> ChainId {
        arbitrary()
    }
}

impl From<u32> for ChainId {
    /// The chain id of the number `value`.
    fn from(value: u32) -> (r: ChainId)
        ensures
            r@ == decimal_text(value as nat),
    {
        ChainId::from_u128(value as u128)
    }
}

/// The generic statement of `From` is left open: what `from` gives is
/// stated on `from` itself, by the digits of the result.
impl FromSpecImpl<u32> for ChainId {
    open spec fn obeys_from_spec() -> bool {
        false
    }

    open spec fn from_spec(value: u32) -> ChainId {
        arbitrary()
    }
}

impl From<u64> for ChainId {
    /// The chain id of the number `value`.
    fn from(value: u64) -> (r: ChainId)
        ensures
            r@ == decimal_text(value as nat),
    {
        ChainId::from_u128(value as u128)
    }
}

/// The generic statement of `From` is left open: what `from` gives is
/// stated on `from` itself, by the digits of the result.
impl FromSpecImpl<u64> for ChainId {
    open spec fn obeys_from_spec() -> bool {
        false
    }

    open spec fn from_spec(value: u64) -> ChainId {
        arbitrary()
    }
}

impl From<u128> for ChainId {
    /// The chain id of the number `value`.
    fn from(value: u128) -> (r: ChainId)
        ensures
            r@ == decimal_text(value as nat),
    {
        ChainId::from_u128(value)
    }
}

/// The generic statement of `From` is left open: what `from` gives is
/// stated on `from` itself, by the digits of the result.
impl FromSpecImpl<u128> for ChainId {
    open spec fn obeys_from_spec() -> bool {
        false
    }

    open spec fn from_spec(value: u128) -> ChainId {
        arbitrary()
    }
}

impl From<usize> for ChainId {
    /// The chain id of the number `value`.
    fn from(value: usize) -> (r: ChainId)
        ensures
            r@ == decimal_text(value as nat),
    {
        ChainId::from_u128(value as u128)
    }
}

/// The generic statement of `From` is left open: what `from` gives is
/// stated on `from` itself, by the digits of the result.
impl FromSpecImpl<usize> for ChainId {
    open spec fn obeys_from_spec() -> bool {
        false
    }

    open spec fn from_spec(value: usize) -> ChainId {
        arbitrary()
    }
}

} // verus!
