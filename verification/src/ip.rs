//! The version-independent view of an address: a fixed run of bytes in network
//! order, and the bit-pattern logic shared by every address width.

use vstd::prelude::*;

verus! {

/// Bit `i` of `bytes`, counted from the most significant bit of the first byte.
pub open spec fn bit_at(bytes: Seq<u8>, i: int) -> bool {
    bytes[i / 8] & (0x80u8 >> ((i % 8) as u8)) != 0
}

/// Number of bits that `bytes` holds.
pub open spec fn bit_count(bytes: Seq<u8>) -> nat {
    8 * bytes.len()
}

/// `bytes` is exactly `n` set bits followed by clear bits only.
pub open spec fn is_mask_of(bytes: Seq<u8>, n: int) -> bool {
    &&& 0 <= n <= bit_count(bytes)
    &&& forall|i: int| 0 <= i < bit_count(bytes) ==> (#[trigger] bit_at(bytes, i) <==> i < n)
}

/// Somewhere in `bytes` a set bit comes after a clear bit.
pub open spec fn has_one_after_zero(bytes: Seq<u8>) -> bool {
    exists|i: int, j: int|
        0 <= i < j < bit_count(bytes) && !#[trigger] bit_at(bytes, i) && #[trigger] bit_at(bytes, j)
}

/// The number that `bytes` spells when read as one big-endian numeral.
pub open spec fn be_value(bytes: Seq<u8>) -> int
    decreases bytes.len(),
{
    if bytes.len() == 0 {
        0
    } else {
        256 * be_value(bytes.drop_last()) + bytes.last()
    }
}

/// `a` comes before `b` in byte-wise dictionary order: they agree up to some
/// position, and there `a` holds the smaller byte.
pub open spec fn lex_lt(a: Seq<u8>, b: Seq<u8>) -> bool {
    exists|k: int|
        0 <= k < a.len() && k < b.len() && #[trigger] a[k] < b[k] && a.take(k) == b.take(k)
}

/// What every address representation offers, whatever its width.
pub trait IPAddress:
    core::fmt::Debug + core::hash::Hash + PartialEq + Eq + PartialOrd + Ord + Clone + Copy
{
    /// Protocol version of the address family.
    const VERSION: u8;

    /// Number of bytes in an address of this family.
    spec fn size() -> nat;

    /// The bytes of the address, most significant first.
    spec fn bytes(&self) -> Seq<u8>;

    /// The address falls in the family's multicast range.
    spec fn spec_is_multicast(&self) -> bool;

    /// The address is the family's broadcast address.
    spec fn spec_is_broadcast(&self) -> bool;

    /// The address falls in the family's loopback range.
    spec fn spec_is_loopback(&self) -> bool;

    /// The address falls in the family's link-local range.
    spec fn spec_is_link_local(&self) -> bool;

    /// The address is the all-zero address.
    open spec fn spec_is_unspecified(&self) -> bool {
        all_zero(self.bytes())
    }

    /// The address is none of broadcast, multicast and unspecified.
    open spec fn spec_is_unicast(&self) -> bool {
        !(self.spec_is_broadcast() || self.spec_is_multicast() || self.spec_is_unspecified())
    }

    /// The all-zero address.
    fn unspecified() -> (r: Self)
        ensures
            r.bytes().len() == Self::size(),
            r.spec_is_unspecified(),
    ;

    /// The broadcast address.
    fn broadcast() -> (r: Self)
        ensures
            r.bytes().len() == Self::size(),
            r.spec_is_broadcast(),
    ;

    /// The group of all multicast-capable nodes.
    fn multicast_all_systems() -> (r: Self)
        ensures
            r.bytes().len() == Self::size(),
            r.spec_is_multicast(),
    ;

    /// The group of all multicast-capable routers.
    fn multicast_all_routers() -> (r: Self)
        ensures
            r.bytes().len() == Self::size(),
            r.spec_is_multicast(),
    ;

    /// Builds the address that holds exactly the bytes of `data`.
    fn from_bytes(data: &[u8]) -> (r: Self)
        requires
            data@.len() == Self::size(),
        ensures
            r.bytes() == data@,
    ;

    /// The bytes of the address, most significant first.
    fn as_bytes(&self) -> (r: &[u8])
        ensures
            r@ == self.bytes(),
            r@.len() == Self::size(),
    ;

    /// True iff the address is none of broadcast, multicast and unspecified.
    fn is_unicast(&self) -> (r: bool)
        ensures
            r == self.spec_is_unicast(),
    ;

    /// True iff the address falls in the family's multicast range.
    fn is_multicast(&self) -> (r: bool)
        ensures
            r == self.spec_is_multicast(),
    ;

    /// True iff the address is the family's broadcast address.
    fn is_broadcast(&self) -> (r: bool)
        ensures
            r == self.spec_is_broadcast(),
    ;

    /// True iff every byte of the address is zero.
    fn is_unspecified(&self) -> (r: bool)
        ensures
            r == self.spec_is_unspecified(),
    ;

    /// True iff the address falls in the family's loopback range.
    fn is_loopback(&self) -> (r: bool)
        ensures
            r == self.spec_is_loopback(),
    ;

    /// True iff the address falls in the family's link-local range.
    fn is_link_local(&self) -> (r: bool)
        ensures
            r == self.spec_is_link_local(),
    ;

    /// The length of the leading run of set bits, when the address has the
    /// shape of a netmask: set bits first, clear bits after, nothing else.
    fn prefix_len(&self) -> (r: Option<u8>)
        requires
            8 * Self::size() <= u8::MAX,
        ensures
            r is None <==> has_one_after_zero(self.bytes()),
            r matches Some(n) ==> is_mask_of(self.bytes(), n as int),
    {
        mask_prefix_len(self.as_bytes())
    }
}

/// Every byte of `bytes` is zero.
pub open spec fn all_zero(bytes: Seq<u8>) -> bool {
    forall|i: int| 0 <= i < bytes.len() ==> bytes[i] == 0
}

/// Scans `bytes` from the most significant bit of the first byte to the least
/// significant bit of the last and returns the length of the leading run of
/// set bits, provided no set bit follows a clear one.
pub fn mask_prefix_len(bytes: &[u8]) -> (r: Option<u8>)
    requires
        bit_count(bytes@) <= u8::MAX,
    ensures
        r is None <==> has_one_after_zero(bytes@),
        r matches Some(n) ==> is_mask_of(bytes@, n as int),
{
    let mut ones = true;
    let mut prefix_len: u8 = 0;
    let mut idx: usize = 0;
    while idx < bytes.len()
        invariant
            idx <= bytes.len(),
            bit_count(bytes@) <= u8::MAX,
            prefix_len <= 8 * idx,
            ones <==> prefix_len == 8 * idx,
            forall|i: int| 0 <= i < 8 * idx ==> (#[trigger] bit_at(bytes@, i) <==> i < prefix_len),
        decreases bytes.len() - idx,
    {
        let byte = bytes[idx];
        let mut mask: u8 = 0x80;
        let mut k: u8 = 0;
        assert(0x80u8 == 0x80u8 >> 0u8) by (bit_vector);
        while k < 8
            invariant
                idx < bytes.len(),
                byte == bytes@[idx as int],
                bit_count(bytes@) <= u8::MAX,
                k <= 8,
                mask == 0x80u8 >> k,
                prefix_len <= 8 * idx + k,
                ones <==> prefix_len == 8 * idx + k,
                forall|i: int|
                    0 <= i < 8 * idx + k ==> (#[trigger] bit_at(bytes@, i) <==> i < prefix_len),
            decreases 8 - k,
        {
            let ghost pos: int = 8 * idx + k;
            let one = byte & mask != 0;
            assert(one == bit_at(bytes@, pos));
            if ones {
                if one {
                    prefix_len += 1;
                } else {
                    ones = false;
                }
            } else if one {
                assert(!bit_at(bytes@, prefix_len as int) && bit_at(bytes@, pos));
                return None;
            }
            assert((0x80u8 >> k) >> 1 == 0x80u8 >> ((k + 1) as u8)) by (bit_vector)
                requires
                    k < 8,
            ;
            mask >>= 1;
            k += 1;
        }
        idx += 1;
    }
    proof {
        lemma_mask_has_no_one_after_zero(bytes@, prefix_len as int);
    }
    Some(prefix_len)
}

/// Sequences of one length that spell the same number are the same sequence.
pub proof fn lemma_be_value_injective(a: Seq<u8>, b: Seq<u8>)
    requires
        a.len() == b.len(),
        be_value(a) == be_value(b),
    ensures
        a == b,
    decreases a.len(),
{
    if a.len() > 0 {
        lemma_be_value_injective(a.drop_last(), b.drop_last());
        assert(a =~= a.drop_last().push(a.last()));
        assert(b =~= b.drop_last().push(b.last()));
    } else {
        assert(a =~= b);
    }
}

/// Dictionary order on sequences of one length is the order of the numbers
/// they spell.
pub proof fn lemma_lex_lt_is_numeric(a: Seq<u8>, b: Seq<u8>)
    requires
        a.len() == b.len(),
    ensures
        lex_lt(a, b) <==> be_value(a) < be_value(b),
    decreases a.len(),
{
    if a.len() > 0 {
        let a0 = a.drop_last();
        let b0 = b.drop_last();
        lemma_lex_lt_is_numeric(a0, b0);
        if lex_lt(a, b) {
            let k = choose|k: int|
                0 <= k < a.len() && k < b.len() && #[trigger] a[k] < b[k] && a.take(k) == b.take(k);
            if k < a.len() - 1 {
                assert(a0.take(k) =~= a.take(k));
                assert(b0.take(k) =~= b.take(k));
                assert(a0[k] < b0[k]);
                assert(lex_lt(a0, b0));
            } else {
                assert(a0 =~= a.take(k));
                assert(b0 =~= b.take(k));
            }
        }
        if be_value(a) < be_value(b) {
            if be_value(a0) < be_value(b0) {
                let k = choose|k: int|
                    0 <= k < a0.len() && k < b0.len() && #[trigger] a0[k] < b0[k] && a0.take(k)
                        == b0.take(k);
                assert(a.take(k) =~= a0.take(k));
                assert(b.take(k) =~= b0.take(k));
                assert(a[k] < b[k]);
            } else {
                assert(be_value(a0) == be_value(b0));
                lemma_be_value_injective(a0, b0);
                let k = a.len() - 1;
                assert(a.take(k) =~= a0);
                assert(b.take(k) =~= b0);
                assert(a[k] < b[k]);
            }
        }
    }
}

/// Decides whether `a` and `b` hold the same bytes.
pub fn same_bytes(a: &[u8], b: &[u8]) -> (r: bool)
    requires
        a@.len() == b@.len(),
    ensures
        r == (a@ == b@),
{
    let mut i: usize = 0;
    while i < a.len()
        invariant
            i <= a@.len() == b@.len(),
            a@.take(i as int) == b@.take(i as int),
        decreases a.len() - i,
    {
        if a[i] != b[i] {
            return false;
        }
        assert(a@.take(i + 1) =~= a@.take(i as int).push(a@[i as int]));
        assert(b@.take(i + 1) =~= b@.take(i as int).push(b@[i as int]));
        i += 1;
    }
    assert(a@ =~= a@.take(i as int));
    assert(b@ =~= b@.take(i as int));
    true
}

/// Decides whether `a` comes before `b` in byte-wise dictionary order.
pub fn lex_less(a: &[u8], b: &[u8]) -> (r: bool)
    requires
        a@.len() == b@.len(),
    ensures
        r == lex_lt(a@, b@),
{
    let mut i: usize = 0;
    while i < a.len()
        invariant
            i <= a@.len() == b@.len(),
            a@.take(i as int) == b@.take(i as int),
        decreases a.len() - i,
    {
        if a[i] < b[i] {
            return true;
        }
        if a[i] > b[i] {
            proof {
                assert(lex_lt(b@, a@));
                lemma_lex_lt_asymmetric(b@, a@);
            }
            return false;
        }
        assert(a@.take(i + 1) =~= a@.take(i as int).push(a@[i as int]));
        assert(b@.take(i + 1) =~= b@.take(i as int).push(b@[i as int]));
        i += 1;
    }
    proof {
        assert(a@ =~= a@.take(i as int));
        assert(b@ =~= b@.take(i as int));
        lemma_lex_lt_irreflexive(a@);
    }
    false
}

/// No sequence comes before itself.
pub proof fn lemma_lex_lt_irreflexive(a: Seq<u8>)
    ensures
        !lex_lt(a, a),
{
}

/// Of two sequences at most one comes before the other.
pub proof fn lemma_lex_lt_asymmetric(a: Seq<u8>, b: Seq<u8>)
    requires
        lex_lt(a, b),
    ensures
        !lex_lt(b, a),
{
    let k = choose|k: int|
        0 <= k < a.len() && k < b.len() && #[trigger] a[k] < b[k] && a.take(k) == b.take(k);
    if lex_lt(b, a) {
        let m = choose|m: int|
            0 <= m < b.len() && m < a.len() && #[trigger] b[m] < a[m] && b.take(m) == a.take(m);
        if m < k {
            assert(a.take(k)[m] == b.take(k)[m]);
        } else if k < m {
            assert(a.take(m)[k] == b.take(m)[k]);
        }
    }
}

/// Every byte of `bytes` is 255.
pub open spec fn all_ones(bytes: Seq<u8>) -> bool {
    forall|i: int| 0 <= i < bytes.len() ==> bytes[i] == 255
}

/// A sequence has at most one prefix length.
pub proof fn lemma_mask_len_unique(bytes: Seq<u8>, n: int, m: int)
    requires
        is_mask_of(bytes, n),
        is_mask_of(bytes, m),
    ensures
        n == m,
{
    if n < m {
        assert(bit_at(bytes, n) <==> n < n);
        assert(bit_at(bytes, n) <==> n < m);
    } else if m < n {
        assert(bit_at(bytes, m) <==> m < m);
        assert(bit_at(bytes, m) <==> m < n);
    }
}

/// The all-zero sequence has prefix length 0.
pub proof fn lemma_all_zero_is_mask(bytes: Seq<u8>)
    requires
        all_zero(bytes),
    ensures
        is_mask_of(bytes, 0),
        !has_one_after_zero(bytes),
{
    assert forall|i: int| 0 <= i < bit_count(bytes) implies !#[trigger] bit_at(bytes, i) by {
        let byte = bytes[i / 8];
        let k = (i % 8) as u8;
        assert(byte == 0 ==> byte & (0x80u8 >> k) == 0) by (bit_vector);
    }
}

/// The all-ones sequence has its whole bit count as prefix length.
pub proof fn lemma_all_ones_is_mask(bytes: Seq<u8>)
    requires
        all_ones(bytes),
    ensures
        is_mask_of(bytes, bit_count(bytes) as int),
        !has_one_after_zero(bytes),
{
    assert forall|i: int| 0 <= i < bit_count(bytes) implies #[trigger] bit_at(bytes, i) by {
        let byte = bytes[i / 8];
        let k = (i % 8) as u8;
        assert(byte == 255 && k < 8 ==> byte & (0x80u8 >> k) != 0) by (bit_vector);
    }
}

/// A run of set bits followed by clear bits never has a set bit after a clear one.
pub proof fn lemma_mask_has_no_one_after_zero(bytes: Seq<u8>, n: int)
    requires
        is_mask_of(bytes, n),
    ensures
        !has_one_after_zero(bytes),
{
}

} // verus!
