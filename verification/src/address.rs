//! The address value itself, its classification bits and its conversions
//! to and from octet arrays and 64-bit integers.

use vstd::arithmetic::div_mod::{lemma_div_denominator, lemma_fundamental_div_mod_converse};
use vstd::prelude::*;
use vstd::std_specs::convert::FromSpec;

verus! {

/// An IEEE 802 hardware address: six octets, the first transmitted at index 0.
#[derive(Clone, Copy, Debug)]
pub struct MacAddress {
    pub bytes: [u8; 6],
}

impl View for MacAddress {
    type V = Seq<u8>;

    /// The six octets in transmission order.
    open spec fn view(&self) -> Seq<u8> {
        self.bytes@
    }
}

/// An address for a single recipient: the Individual/Group bit, bit 0 of the
/// first octet, is clear.
pub open spec fn is_unicast(octets: Seq<u8>) -> bool {
    octets[0] % 2 == 0
}

/// An address for a group of recipients: the Individual/Group bit, bit 0 of
/// the first octet, is set.
pub open spec fn is_multicast(octets: Seq<u8>) -> bool {
    octets[0] % 2 == 1
}

/// A locally administered address: the Universal/Local bit, bit 1 of the
/// first octet, is set.
pub open spec fn is_local(octets: Seq<u8>) -> bool {
    (octets[0] / 2) % 2 == 1
}

/// The address that holds the first six items of `octets`.
pub open spec fn from_octets(octets: Seq<u8>) -> MacAddress {
    MacAddress { bytes: [octets[0], octets[1], octets[2], octets[3], octets[4], octets[5]] }
}

/// The integer whose six low-order bytes are the octets, the first octet in
/// bits 0 to 7 and the sixth in bits 40 to 47, and whose two high-order bytes
/// are zero.
pub open spec fn octets_to_u64(octets: Seq<u8>) -> u64 {
    (octets[0] as int + octets[1] as int * 0x100 + octets[2] as int * 0x1_0000 + octets[3] as int
        * 0x100_0000 + octets[4] as int * 0x1_0000_0000 + octets[5] as int
        * 0x100_0000_0000) as u64
}

/// The six low-order bytes of `value`, lowest first. The two high-order bytes
/// play no part.
pub open spec fn u64_to_octets(value: u64) -> Seq<u8> {
    seq![
        (value as int % 0x100) as u8,
        (value as int / 0x100 % 0x100) as u8,
        (value as int / 0x1_0000 % 0x100) as u8,
        (value as int / 0x100_0000 % 0x100) as u8,
        (value as int / 0x1_0000_0000 % 0x100) as u8,
        (value as int / 0x100_0000_0000 % 0x100) as u8,
    ]
}

impl From<MacAddress> for u64 {
    /// The address as an integer, its first octet lowest.
    fn from(val: MacAddress) -> (r: u64)
        ensures
            r == octets_to_u64(val@),
            r < 0x1_0000_0000_0000,
    {
        let b = val.bytes;
        (b[0] as u64) + (b[1] as u64) * 0x100 + (b[2] as u64) * 0x1_0000 + (b[3] as u64)
            * 0x100_0000 + (b[4] as u64) * 0x1_0000_0000 + (b[5] as u64) * 0x100_0000_0000
    }
}

impl vstd::std_specs::convert::FromSpecImpl<MacAddress> for u64 {
    open spec fn obeys_from_spec() -> bool {
        true
    }

    open spec fn from_spec(val: MacAddress) -> u64 {
        octets_to_u64(val@)
    }
}

impl From<u64> for MacAddress {
    /// The address held in the six low-order bytes of `value`. The two
    /// high-order bytes are dropped, whatever they hold.
    fn from(value: u64) -> (r: MacAddress)
        ensures
            r@ == u64_to_octets(value),
    {
        let bytes: [u8; 6] = [
            (value % 0x100) as u8,
            (value / 0x100 % 0x100) as u8,
            (value / 0x1_0000 % 0x100) as u8,
            (value / 0x100_0000 % 0x100) as u8,
            (value / 0x1_0000_0000 % 0x100) as u8,
            (value / 0x100_0000_0000 % 0x100) as u8,
        ];
        assert(bytes@ =~= u64_to_octets(value));
        MacAddress { bytes }
    }
}

impl vstd::std_specs::convert::FromSpecImpl<u64> for MacAddress {
    open spec fn obeys_from_spec() -> bool {
        true
    }

    open spec fn from_spec(value: u64) -> MacAddress {
        from_octets(u64_to_octets(value))
    }
}

impl From<[u8; 6]> for MacAddress {
    /// The address with the given octets.
    fn from(value: [u8; 6]) -> (r: MacAddress)
        ensures
            r.bytes == value,
            r@ == value@,
    {
        MacAddress { bytes: value }
    }
}

impl vstd::std_specs::convert::FromSpecImpl<[u8; 6]> for MacAddress {
    open spec fn obeys_from_spec() -> bool {
        true
    }

    open spec fn from_spec(value: [u8; 6]) -> MacAddress {
        MacAddress { bytes: value }
    }
}

impl From<MacAddress> for [u8; 6] {
    /// The octets of the address.
    fn from(value: MacAddress) -> (r: [u8; 6])
        ensures
            r == value.bytes,
            r@ == value@,
    {
        value.bytes
    }
}

impl vstd::std_specs::convert::FromSpecImpl<MacAddress> for [u8; 6] {
    open spec fn obeys_from_spec() -> bool {
        true
    }

    open spec fn from_spec(value: MacAddress) -> [u8; 6] {
        value.bytes
    }
}

impl MacAddress {
    /// True iff the address designates a single recipient.
    pub fn unicast(self) -> (r: bool)
        ensures
            r == is_unicast(self@),
            r == (self.bytes[0] & 1 == 0),
    {
        let first: u8 = self.bytes[0];
        assert((first & 1 == 0) == (first % 2 == 0)) by (bit_vector);
        first & 1 == 0
    }

    /// True iff the address designates a group of recipients.
    pub fn multicast(self) -> (r: bool)
        ensures
            r == is_multicast(self@),
            r == !is_unicast(self@),
            r == (self.bytes[0] & 1 != 0),
    {
        !self.unicast()
    }

    /// True iff the address is locally administered.
    pub fn local(self) -> (r: bool)
        ensures
            r == is_local(self@),
            r == (self.bytes[0] & 2 != 0),
    {
        let first: u8 = self.bytes[0];
        assert((first & 2 != 0) == ((first / 2) % 2 == 1)) by (bit_vector);
        first & 2 != 0
    }
}

/// Every address has exactly six octets.
pub proof fn lemma_six_octets(m: MacAddress)
    ensures
        m@.len() == 6,
{
}

/// An address is a multicast address exactly when it is no unicast address.
pub proof fn lemma_multicast_is_not_unicast(m: MacAddress)
    ensures
        is_multicast(m@) == !is_unicast(m@),
{
}

/// The address made of six octets holds exactly these octets.
pub proof fn lemma_from_octets_view(octets: Seq<u8>)
    requires
        octets.len() == 6,
    ensures
        from_octets(octets)@ == octets,
{
    assert(from_octets(octets)@ =~= octets);
}

/// An array of six octets made into an address and back is the same array.
pub proof fn lemma_bytes_round_trip(b: [u8; 6])
    ensures
        <[u8; 6] as FromSpec<MacAddress>>::from_spec(<MacAddress as FromSpec<[u8; 6]>>::from_spec(b))
            == b,
        <MacAddress as FromSpec<[u8; 6]>>::from_spec(b)@ == b@,
{
}

/// The weighted sum of six base-256 digits, lowest first.
spec fn packed(b0: int, b1: int, b2: int, b3: int, b4: int, b5: int) -> int {
    b0 + b1 * 0x100 + b2 * 0x1_0000 + b3 * 0x100_0000 + b4 * 0x1_0000_0000 + b5 * 0x100_0000_0000
}

/// Six base-256 digits are found again in their weighted sum, which lies
/// below 2^48.
proof fn lemma_packed_digits(b0: int, b1: int, b2: int, b3: int, b4: int, b5: int)
    requires
        0 <= b0 < 0x100,
        0 <= b1 < 0x100,
        0 <= b2 < 0x100,
        0 <= b3 < 0x100,
        0 <= b4 < 0x100,
        0 <= b5 < 0x100,
    ensures
        0 <= packed(b0, b1, b2, b3, b4, b5) < 0x1_0000_0000_0000,
        packed(b0, b1, b2, b3, b4, b5) % 0x100 == b0,
        packed(b0, b1, b2, b3, b4, b5) / 0x100 % 0x100 == b1,
        packed(b0, b1, b2, b3, b4, b5) / 0x1_0000 % 0x100 == b2,
        packed(b0, b1, b2, b3, b4, b5) / 0x100_0000 % 0x100 == b3,
        packed(b0, b1, b2, b3, b4, b5) / 0x1_0000_0000 % 0x100 == b4,
        packed(b0, b1, b2, b3, b4, b5) / 0x100_0000_0000 % 0x100 == b5,
{
    let v = packed(b0, b1, b2, b3, b4, b5);
    let q1 = b1 + b2 * 0x100 + b3 * 0x1_0000 + b4 * 0x100_0000 + b5 * 0x1_0000_0000;
    let q2 = b2 + b3 * 0x100 + b4 * 0x1_0000 + b5 * 0x100_0000;
    let q3 = b3 + b4 * 0x100 + b5 * 0x1_0000;
    let q4 = b4 + b5 * 0x100;
    lemma_fundamental_div_mod_converse(v, 0x100, q1, b0);
    lemma_fundamental_div_mod_converse(v, 0x1_0000, q2, b0 + b1 * 0x100);
    lemma_fundamental_div_mod_converse(v, 0x100_0000, q3, b0 + b1 * 0x100 + b2 * 0x1_0000);
    lemma_fundamental_div_mod_converse(
        v,
        0x1_0000_0000,
        q4,
        b0 + b1 * 0x100 + b2 * 0x1_0000 + b3 * 0x100_0000,
    );
    lemma_fundamental_div_mod_converse(
        v,
        0x100_0000_0000,
        b5,
        b0 + b1 * 0x100 + b2 * 0x1_0000 + b3 * 0x100_0000 + b4 * 0x1_0000_0000,
    );
    lemma_fundamental_div_mod_converse(q1, 0x100, q2, b1);
    lemma_fundamental_div_mod_converse(q2, 0x100, q3, b2);
    lemma_fundamental_div_mod_converse(q3, 0x100, q4, b3);
    lemma_fundamental_div_mod_converse(q4, 0x100, b5, b4);
    lemma_fundamental_div_mod_converse(b5, 0x100, 0, b5);
}

/// The six low-order base-256 digits of a number add up, each with its
/// weight, to the number modulo 2^48.
proof fn lemma_digits_packed(v: int)
    requires
        0 <= v,
    ensures
        packed(
            v % 0x100,
            v / 0x100 % 0x100,
            v / 0x1_0000 % 0x100,
            v / 0x100_0000 % 0x100,
            v / 0x1_0000_0000 % 0x100,
            v / 0x100_0000_0000 % 0x100,
        ) == v % 0x1_0000_0000_0000,
{
    let q1 = v / 0x100;
    let q2 = v / 0x1_0000;
    let q3 = v / 0x100_0000;
    let q4 = v / 0x1_0000_0000;
    let q5 = v / 0x100_0000_0000;
    let q6 = v / 0x1_0000_0000_0000;
    lemma_div_denominator(v, 0x100, 0x100);
    lemma_div_denominator(v, 0x1_0000, 0x100);
    lemma_div_denominator(v, 0x100_0000, 0x100);
    lemma_div_denominator(v, 0x1_0000_0000, 0x100);
    lemma_div_denominator(v, 0x100_0000_0000, 0x100);
    assert(q2 == q1 / 0x100);
    assert(q3 == q2 / 0x100);
    assert(q4 == q3 / 0x100);
    assert(q5 == q4 / 0x100);
    assert(q6 == q5 / 0x100);
    let low = packed(v % 0x100, q1 % 0x100, q2 % 0x100, q3 % 0x100, q4 % 0x100, q5 % 0x100);
    assert(v == q6 * 0x1_0000_0000_0000 + low);
    lemma_fundamental_div_mod_converse(v, 0x1_0000_0000_0000, q6, low);
}

/// An address made into an integer and back is the same address.
pub proof fn lemma_u64_round_trip(m: MacAddress)
    ensures
        u64_to_octets(octets_to_u64(m@)) == m@,
        <MacAddress as FromSpec<u64>>::from_spec(<u64 as FromSpec<MacAddress>>::from_spec(m)) == m,
{
    let o = m@;
    lemma_packed_digits(
        o[0] as int,
        o[1] as int,
        o[2] as int,
        o[3] as int,
        o[4] as int,
        o[5] as int,
    );
    assert(octets_to_u64(o) as int == packed(
        o[0] as int,
        o[1] as int,
        o[2] as int,
        o[3] as int,
        o[4] as int,
        o[5] as int,
    ));
    assert(u64_to_octets(octets_to_u64(o)) =~= o);
    lemma_from_octets_view(o);
    assert(from_octets(o).bytes =~= m.bytes);
}

/// An integer made into an address and back has lost its two high-order
/// bytes, and nothing else.
pub proof fn lemma_u64_truncates(value: u64)
    ensures
        octets_to_u64(u64_to_octets(value)) == value % 0x1_0000_0000_0000,
        value < 0x1_0000_0000_0000 ==> octets_to_u64(u64_to_octets(value)) == value,
{
    lemma_digits_packed(value as int);
}

/// The octets of an integer are its bits 0 to 7, 8 to 15 and so on up to
/// bits 40 to 47.
pub proof fn lemma_octets_are_bit_fields(value: u64)
    ensures
        u64_to_octets(value) == seq![
            (value & 0xff) as u8,
            ((value >> 8) & 0xff) as u8,
            ((value >> 16) & 0xff) as u8,
            ((value >> 24) & 0xff) as u8,
            ((value >> 32) & 0xff) as u8,
            ((value >> 40) & 0xff) as u8,
        ],
{
    assert(value & 0xff == value % 0x100) by (bit_vector);
    assert((value >> 8) & 0xff == value / 0x100 % 0x100) by (bit_vector);
    assert((value >> 16) & 0xff == value / 0x1_0000 % 0x100) by (bit_vector);
    assert((value >> 24) & 0xff == value / 0x100_0000 % 0x100) by (bit_vector);
    assert((value >> 32) & 0xff == value / 0x1_0000_0000 % 0x100) by (bit_vector);
    assert((value >> 40) & 0xff == value / 0x100_0000_0000 % 0x100) by (bit_vector);
    assert(u64_to_octets(value) =~= seq![
        (value & 0xff) as u8,
        ((value >> 8) & 0xff) as u8,
        ((value >> 16) & 0xff) as u8,
        ((value >> 24) & 0xff) as u8,
        ((value >> 32) & 0xff) as u8,
        ((value >> 40) & 0xff) as u8,
    ]);
}

/// The integer of an address holds the first octet in its bits 0 to 7 and
/// the sixth in its bits 40 to 47, and nothing above them.
pub proof fn lemma_u64_bit_fields(m: MacAddress)
    ensures
        (octets_to_u64(m@) & 0xff) as u8 == m@[0],
        ((octets_to_u64(m@) >> 8) & 0xff) as u8 == m@[1],
        ((octets_to_u64(m@) >> 16) & 0xff) as u8 == m@[2],
        ((octets_to_u64(m@) >> 24) & 0xff) as u8 == m@[3],
        ((octets_to_u64(m@) >> 32) & 0xff) as u8 == m@[4],
        ((octets_to_u64(m@) >> 40) & 0xff) as u8 == m@[5],
        octets_to_u64(m@) >> 48 == 0,
{
    let v = octets_to_u64(m@);
    lemma_u64_round_trip(m);
    lemma_octets_are_bit_fields(v);
    lemma_u64_injective(m, m);
    assert(v >> 48 == 0) by (bit_vector)
        requires
            v < 0x1_0000_0000_0000,
    ;
}

/// The integer of an address lies below 2^48, and no two addresses share one.
pub proof fn lemma_u64_injective(a: MacAddress, b: MacAddress)
    ensures
        octets_to_u64(a@) < 0x1_0000_0000_0000,
        octets_to_u64(a@) == octets_to_u64(b@) ==> a@ == b@,
{
    lemma_u64_round_trip(a);
    lemma_u64_round_trip(b);
}

} // verus!
