//! The 4-byte IPv4 address value and its reserved ranges.

use crate::ip::{
    be_value, lemma_be_value_injective, lemma_lex_lt_is_numeric, lex_less, lex_lt, same_bytes,
    IPAddress,
};
use crate::text::{dotted_quad, render_dotted_quad};
use core::cmp::Ordering;
use vstd::prelude::*;
use vstd::std_specs::cmp::{PartialEqSpec, PartialOrdSpec};

verus! {

pub const ADDR_SIZE: usize = 4;

#[derive(Debug, Eq, Ord, Clone, Copy, Hash)]
pub struct Address(pub [u8; ADDR_SIZE]);

impl View for Address {
    type V = Seq<u8>;

    open spec fn view(&self) -> Seq<u8> {
        self.0@
    }
}

impl Address {
    /// Builds the address `a0.a1.a2.a3`.
    pub fn new(a0: u8, a1: u8, a2: u8, a3: u8) -> (r: Address)
        ensures
            r@ == seq![a0, a1, a2, a3],
    {
        let r = Address([a0, a1, a2, a3]);
        assert(r@ =~= seq![a0, a1, a2, a3]);
        r
    }
}

impl IPAddress for Address {
    const VERSION: u8 = 4;

    open spec fn size() -> nat {
        4
    }

    open spec fn bytes(&self) -> Seq<u8> {
        self@
    }

    /// The first byte lies in 224..=239: its high nibble is `1110`.
    open spec fn spec_is_multicast(&self) -> bool {
        224 <= self@[0] <= 239
    }

    /// The address is 255.255.255.255.
    open spec fn spec_is_broadcast(&self) -> bool {
        self@ == seq![255u8, 255u8, 255u8, 255u8]
    }

    /// The first byte is 127.
    open spec fn spec_is_loopback(&self) -> bool {
        self@[0] == 127
    }

    /// The first two bytes are 169.254.
    open spec fn spec_is_link_local(&self) -> bool {
        self@[0] == 169 && self@[1] == 254
    }

    /// 0.0.0.0
    fn unspecified() -> (r: Address)
        ensures
            r@ == seq![0u8, 0u8, 0u8, 0u8],
    {
        Address::new(0, 0, 0, 0)
    }

    /// 255.255.255.255
    fn broadcast() -> (r: Address)
        ensures
            r@ == seq![255u8, 255u8, 255u8, 255u8],
    {
        Address::new(255, 255, 255, 255)
    }

    /// 224.0.0.1
    fn multicast_all_systems() -> (r: Address)
        ensures
            r@ == seq![224u8, 0u8, 0u8, 1u8],
    {
        Address::new(224, 0, 0, 1)
    }

    /// 224.0.0.2
    fn multicast_all_routers() -> (r: Address)
        ensures
            r@ == seq![224u8, 0u8, 0u8, 2u8],
    {
        Address::new(224, 0, 0, 2)
    }

    fn from_bytes(data: &[u8]) -> (r: Address) {
        let r = Address([data[0], data[1], data[2], data[3]]);
        assert(r@ =~= data@);
        r
    }

    fn as_bytes(&self) -> (r: &[u8]) {
        self.0.as_slice()
    }

    fn is_unicast(&self) -> (r: bool) {
        !(self.is_broadcast() || self.is_multicast() || self.is_unspecified())
    }

    fn is_multicast(&self) -> (r: bool) {
        let first = self.0[0];
        assert((first & 0xf0 == 224) <==> (224 <= first <= 239)) by (bit_vector);
        first & 0xf0 == 224
    }

    fn is_broadcast(&self) -> (r: bool) {
        let r = self.0[0] == 255 && self.0[1] == 255 && self.0[2] == 255 && self.0[3] == 255;
        assert(r ==> self@ =~= seq![255u8, 255u8, 255u8, 255u8]);
        r
    }

    fn is_unspecified(&self) -> (r: bool) {
        self.0[0] == 0 && self.0[1] == 0 && self.0[2] == 0 && self.0[3] == 0
    }

    fn is_loopback(&self) -> (r: bool) {
        self.0[0] == 127
    }

    fn is_link_local(&self) -> (r: bool) {
        self.0[0] == 169 && self.0[1] == 254
    }
}

impl Address {
    /// The address read as one 32-bit big-endian number.
    pub open spec fn value(&self) -> int {
        be_value(self@)
    }

    /// The address in dotted-decimal notation, such as `192.168.0.1`.
    pub fn to_string(&self) -> (r: String)
        ensures
            r@ == dotted_quad(self@),
    {
        render_dotted_quad(&self.0)
    }

    /// An address is nothing but its four bytes: two addresses that hold the
    /// same bytes are one and the same, so building an address from the bytes
    /// of another gives that other address back.
    pub proof fn lemma_bytes_determine_address(a: Address, b: Address)
        requires
            a@ == b@,
        ensures
            a == b,
    {
        assert(a.0 =~= b.0);
    }

    /// Every address belongs to exactly one of the four classes unicast,
    /// broadcast, multicast and unspecified.
    pub proof fn lemma_classes_partition(a: Address)
        ensures
            a.spec_is_unicast() || a.spec_is_broadcast() || a.spec_is_multicast()
                || a.spec_is_unspecified(),
            !(a.spec_is_unicast() && a.spec_is_broadcast()),
            !(a.spec_is_unicast() && a.spec_is_multicast()),
            !(a.spec_is_unicast() && a.spec_is_unspecified()),
            !(a.spec_is_broadcast() && a.spec_is_multicast()),
            !(a.spec_is_broadcast() && a.spec_is_unspecified()),
            !(a.spec_is_multicast() && a.spec_is_unspecified()),
    {
        if a.spec_is_unspecified() {
            assert(a@[0] == 0);
        }
    }

    /// The order of addresses is the order of the numbers they spell.
    pub proof fn lemma_order_is_numeric(a: Address, b: Address)
        ensures
            a.partial_cmp_spec(&b) == Some(Ordering::Less) <==> a.value() < b.value(),
            a.partial_cmp_spec(&b) == Some(Ordering::Equal) <==> a.value() == b.value(),
            a.partial_cmp_spec(&b) == Some(Ordering::Greater) <==> a.value() > b.value(),
            a.eq_spec(&b) <==> a.value() == b.value(),
    {
        lemma_lex_lt_is_numeric(a@, b@);
        lemma_lex_lt_is_numeric(b@, a@);
        if a.value() == b.value() {
            lemma_be_value_injective(a@, b@);
        }
    }

    /// The order of addresses is total: any two compare, exactly one of
    /// before, equal and after holds, equal means the same address, and
    /// before is transitive.
    pub proof fn lemma_order_is_total(a: Address, b: Address, c: Address)
        ensures
            a.partial_cmp_spec(&b) is Some,
            a.partial_cmp_spec(&b) == Some(Ordering::Equal) <==> a == b,
            a.partial_cmp_spec(&b) == Some(Ordering::Less) <==> b.partial_cmp_spec(&a) == Some(
                Ordering::Greater,
            ),
            a.partial_cmp_spec(&b) == Some(Ordering::Less) && b.partial_cmp_spec(&c) == Some(
                Ordering::Less,
            ) ==> a.partial_cmp_spec(&c) == Some(Ordering::Less),
    {
        Self::lemma_order_is_numeric(a, b);
        Self::lemma_order_is_numeric(b, a);
        Self::lemma_order_is_numeric(b, c);
        Self::lemma_order_is_numeric(a, c);
        if a.value() == b.value() {
            lemma_be_value_injective(a@, b@);
            Self::lemma_bytes_determine_address(a, b);
        }
    }
}

impl PartialEq for Address {
    /// Two addresses are equal when they hold the same four bytes.
    fn eq(&self, other: &Address) -> (r: bool) {
        same_bytes(self.0.as_slice(), other.0.as_slice())
    }
}

impl vstd::std_specs::cmp::PartialEqSpecImpl for Address {
    open spec fn obeys_eq_spec() -> bool {
        true
    }

    open spec fn eq_spec(&self, other: &Address) -> bool {
        self@ == other@
    }
}

impl PartialOrd for Address {
    /// Compares the two addresses byte by byte, most significant first.
    fn partial_cmp(&self, other: &Address) -> (r: Option<Ordering>) {
        if lex_less(self.0.as_slice(), other.0.as_slice()) {
            Some(Ordering::Less)
        } else if lex_less(other.0.as_slice(), self.0.as_slice()) {
            Some(Ordering::Greater)
        } else {
            Some(Ordering::Equal)
        }
    }
}

impl vstd::std_specs::cmp::PartialOrdSpecImpl for Address {
    open spec fn obeys_partial_cmp_spec() -> bool {
        true
    }

    /// Dictionary order on the four bytes.
    open spec fn partial_cmp_spec(&self, other: &Address) -> Option<Ordering> {
        if lex_lt(self@, other@) {
            Some(Ordering::Less)
        } else if lex_lt(other@, self@) {
            Some(Ordering::Greater)
        } else {
            Some(Ordering::Equal)
        }
    }
}

} // verus!
