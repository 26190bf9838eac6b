//! The 16-byte IPv6 address value.

use crate::ip::{
    be_value, lemma_be_value_injective, lemma_lex_lt_is_numeric, lex_less, lex_lt, same_bytes,
};
use core::cmp::Ordering;
use vstd::prelude::*;
use vstd::std_specs::cmp::{PartialEqSpec, PartialOrdSpec};

verus! {

pub const ADDR_SIZE: usize = 16;

/// The more significant half of a 16-bit group.
pub open spec fn high_byte(group: u16) -> u8 {
    (group / 256) as u8
}

/// The less significant half of a 16-bit group.
pub open spec fn low_byte(group: u16) -> u8 {
    (group % 256) as u8
}

/// The bytes that a run of groups spells out: each group gives its high byte
/// and then its low byte, in group order.
pub open spec fn group_bytes(groups: Seq<u16>) -> Seq<u8> {
    Seq::new(
        2 * groups.len(),
        |i: int|
            if i % 2 == 0 {
                high_byte(groups[i / 2])
            } else {
                low_byte(groups[i / 2])
            },
    )
}

#[derive(Debug, Hash, Eq, Ord, Clone, Copy)]
pub struct Address(pub [u8; ADDR_SIZE]);

impl View for Address {
    type V = Seq<u8>;

    open spec fn view(&self) -> Seq<u8> {
        self.0@
    }
}

impl Address {
    /// Builds an address from its eight 16-bit groups, written in the order
    /// of the colon-separated notation.
    pub fn new(a0: u16, a1: u16, a2: u16, a3: u16, a4: u16, a5: u16, a6: u16, a7: u16) -> (r:
        Address)
        ensures
            r@ == group_bytes(seq![a0, a1, a2, a3, a4, a5, a6, a7]),
    {
        let r = Address(
            [
                hi(a0),
                lo(a0),
                hi(a1),
                lo(a1),
                hi(a2),
                lo(a2),
                hi(a3),
                lo(a3),
                hi(a4),
                lo(a4),
                hi(a5),
                lo(a5),
                hi(a6),
                lo(a6),
                hi(a7),
                lo(a7),
            ],
        );
        assert(r@ =~= group_bytes(seq![a0, a1, a2, a3, a4, a5, a6, a7]));
        r
    }
}

impl Address {
    /// The address read as one 128-bit big-endian number.
    pub open spec fn value(&self) -> int {
        be_value(self@)
    }

    /// An address is nothing but its sixteen bytes: two addresses that hold
    /// the same bytes are one and the same.
    pub proof fn lemma_bytes_determine_address(a: Address, b: Address)
        requires
            a@ == b@,
        ensures
            a == b,
    {
        assert(a.0 =~= b.0);
    }

    /// The order of addresses is the order of the numbers they spell.
    pub proof fn lemma_order_is_numeric(a: Address, b: Address)
        ensures
            a.partial_cmp_spec(&b) == Some(Ordering::Less) <==> a.value() < b.value(),
            a.partial_cmp_spec(&b) == Some(Ordering::Equal) <==> a.value() == b.value(),
            a.partial_cmp_spec(&b) == Some(Ordering::Greater) <==> a.value() > b.value(),
            a.eq_spec(&b) <==> a.value() == b.value(),
    {
        lemma_lex_lt_is_numeric(a@, b@);
        lemma_lex_lt_is_numeric(b@, a@);
        if a.value() == b.value() {
            lemma_be_value_injective(a@, b@);
        }
    }
}

impl PartialEq for Address {
    /// Two addresses are equal when they hold the same sixteen bytes.
    fn eq(&self, other: &Address) -> (r: bool) {
        same_bytes(self.0.as_slice(), other.0.as_slice())
    }
}

impl vstd::std_specs::cmp::PartialEqSpecImpl for Address {
    open spec fn obeys_eq_spec() -> bool {
        true
    }

    open spec fn eq_spec(&self, other: &Address) -> bool {
        self@ == other@
    }
}

impl PartialOrd for Address {
    /// Compares the two addresses byte by byte, most significant first.
    fn partial_cmp(&self, other: &Address) -> (r: Option<Ordering>) {
        if lex_less(self.0.as_slice(), other.0.as_slice()) {
            Some(Ordering::Less)
        } else if lex_less(other.0.as_slice(), self.0.as_slice()) {
            Some(Ordering::Greater)
        } else {
            Some(Ordering::Equal)
        }
    }
}

impl vstd::std_specs::cmp::PartialOrdSpecImpl for Address {
    open spec fn obeys_partial_cmp_spec() -> bool {
        true
    }

    /// Dictionary order on the sixteen bytes.
    open spec fn partial_cmp_spec(&self, other: &Address) -> Option<Ordering> {
        if lex_lt(self@, other@) {
            Some(Ordering::Less)
        } else if lex_lt(other@, self@) {
            Some(Ordering::Greater)
        } else {
            Some(Ordering::Equal)
        }
    }
}

fn hi(group: u16) -> (b: u8)
    ensures
        b == high_byte(group),
{
    assert((group >> 8) == group / 256 && (group >> 8) < 256) by (bit_vector);
    (group >> 8) as u8
}

fn lo(group: u16) -> (b: u8)
    ensures
        b == low_byte(group),
{
    assert((group & 0xff) == group % 256 && (group & 0xff) < 256) by (bit_vector);
    (group & 0xff) as u8
}

} // verus!
