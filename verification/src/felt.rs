//! Field elements of the Stark curve's base field, held in their canonical
//! binary form: 32 bytes, most significant first, denoting a number below the
//! field's prime. Account addresses, contract addresses, keys, hashes and
//! signature scalars are all values of this type.

use vstd::prelude::*;

verus! {

/// The number that a byte string denotes when read most significant byte first.
pub open spec fn be_value(bytes: Seq<u8>) -> nat
    decreases bytes.len(),
{
    if bytes.len() == 0 {
        0
    } else {
        be_value(bytes.drop_last()) * 256 + bytes.last() as nat
    }
}

/// The prime of the field: 2^251 + 17 * 2^192 + 1.
pub open spec fn field_prime() -> nat {
    0x0800000000000011000000000000000000000000000000000000000000000001nat
}

/// The bound below which a hash can be signed: 2^251.
pub open spec fn signing_bound() -> nat {
    0x0800000000000000000000000000000000000000000000000000000000000000nat
}

/// The order of the curve's group of points. A private key is a number
/// above zero and below the order.
pub open spec fn curve_order() -> nat {
    0x0800000000000010ffffffffffffffffb781126dcae7b2321e66a241adc64d2fnat
}

/// The prime, as 32 bytes.
pub open spec fn prime_seq() -> Seq<u8> {
    seq![
        0x08u8, 0, 0, 0, 0, 0, 0, 0x11,
        0, 0, 0, 0, 0, 0, 0, 0,
        0, 0, 0, 0, 0, 0, 0, 0,
        0, 0, 0, 0, 0, 0, 0, 0x01,
    ]
}

/// The signing bound, as 32 bytes.
pub open spec fn signing_bound_seq() -> Seq<u8> {
    seq![
        0x08u8, 0, 0, 0, 0, 0, 0, 0,
        0, 0, 0, 0, 0, 0, 0, 0,
        0, 0, 0, 0, 0, 0, 0, 0,
        0, 0, 0, 0, 0, 0, 0, 0,
    ]
}

/// The order of the curve, as 32 bytes.
pub open spec fn curve_order_seq() -> Seq<u8> {
    seq![
        0x08u8, 0x00, 0x00, 0x00, 0x00, 0x00, 0x00, 0x10,
        0xff, 0xff, 0xff, 0xff, 0xff, 0xff, 0xff, 0xff,
        0xb7, 0x81, 0x12, 0x6d, 0xca, 0xe7, 0xb2, 0x32,
        0x1e, 0x66, 0xa2, 0x41, 0xad, 0xc6, 0x4d, 0x2f,
    ]
}

/// The `len` bytes, most significant first, that denote `x` (its low `len`
/// bytes, where `x` needs more).
pub open spec fn be_bytes(x: nat, len: nat) -> Seq<u8>
    decreases len,
{
    if len == 0 {
        Seq::empty()
    } else {
        be_bytes(x / 256, (len - 1) as nat).push((x % 256) as u8)
    }
}

/// A byte string is the bytes of the number that it denotes.
pub proof fn lemma_bytes_of_value(s: Seq<u8>)
    ensures
        be_bytes(be_value(s), s.len()) == s,
    decreases s.len(),
{
    if s.len() > 0 {
        lemma_bytes_of_value(s.drop_last());
        assert(be_value(s) / 256 == be_value(s.drop_last()));
        assert(be_value(s) % 256 == s.last() as nat);
        assert(s =~= s.drop_last().push(s.last()));
    } else {
        assert(s =~= Seq::<u8>::empty());
    }
}

/// 256 to the power `k`.
pub open spec fn pow256(k: nat) -> nat
    decreases k,
{
    if k == 0 {
        1
    } else {
        256 * pow256((k - 1) as nat)
    }
}

/// The bytes of a number that fits in them denote that number.
pub proof fn lemma_value_of_bytes(x: nat, len: nat)
    requires
        x < pow256(len),
    ensures
        be_value(be_bytes(x, len)) == x,
    decreases len,
{
    if len > 0 {
        lemma_value_of_bytes(x / 256, (len - 1) as nat);
        assert(be_bytes(x, len).drop_last() =~= be_bytes(x / 256, (len - 1) as nat));
    }
}

/// Two numbers below 2^64 with the same 32 bytes are the same number.
pub proof fn lemma_word_bytes_injective(x: u64, y: u64)
    requires
        be_bytes(x as nat, 32) == be_bytes(y as nat, 32),
    ensures
        x == y,
{
    assert(pow256(8) == 0x1_0000_0000_0000_0000nat) by {
        reveal_with_fuel(pow256, 9);
    }
    lemma_pow256_grows(8, 32);
    lemma_value_of_bytes(x as nat, 32);
    lemma_value_of_bytes(y as nat, 32);
}

/// A larger power of 256 is a larger number.
pub proof fn lemma_pow256_grows(low: nat, high: nat)
    requires
        low <= high,
    ensures
        1 <= pow256(low) <= pow256(high),
    decreases high,
{
    if low < high {
        lemma_pow256_grows(low, (high - 1) as nat);
    } else if low > 0 {
        lemma_pow256_grows((low - 1) as nat, (high - 1) as nat);
    }
}

/// Appending one byte multiplies the value by 256 and adds the byte.
pub proof fn lemma_take_step(s: Seq<u8>, k: int)
    requires
        0 <= k < s.len(),
    ensures
        be_value(s.take(k + 1)) == be_value(s.take(k)) * 256 + s[k] as nat,
{
    assert(s.take(k + 1).drop_last() =~= s.take(k));
}

/// A byte string of zero bytes denotes zero, and only such a string does.
pub proof fn lemma_zero_value(s: Seq<u8>)
    ensures
        be_value(s) == 0 <==> (forall|i: int| 0 <= i < s.len() ==> s[i] == 0),
    decreases s.len(),
{
    if s.len() > 0 {
        lemma_zero_value(s.drop_last());
        if be_value(s) == 0 {
            assert forall|i: int| 0 <= i < s.len() implies s[i] == 0 by {
                if i < s.len() - 1 {
                    assert(s.drop_last()[i] == s[i]);
                }
            }
        }
        if forall|i: int| 0 <= i < s.len() ==> s[i] == 0 {
            assert forall|i: int| 0 <= i < s.drop_last().len() implies s.drop_last()[i] == 0 by {
                assert(s.drop_last()[i] == s[i]);
            }
        }
    }
}

/// Byte strings of one length that denote the same number are the same.
pub proof fn lemma_value_injective(a: Seq<u8>, b: Seq<u8>)
    requires
        a.len() == b.len(),
        be_value(a) == be_value(b),
    ensures
        a == b,
    decreases a.len(),
{
    if a.len() > 0 {
        lemma_value_injective(a.drop_last(), b.drop_last());
        assert(a =~= a.drop_last().push(a.last()));
        assert(b =~= b.drop_last().push(b.last()));
    } else {
        assert(a =~= b);
    }
}

/// Where two byte strings agree before position `i` and differ at `i`, the
/// one with the smaller byte there has the smaller prefix of every length
/// beyond `i`.
proof fn lemma_prefix_order(a: Seq<u8>, b: Seq<u8>, i: int, k: int)
    requires
        a.len() == b.len(),
        0 <= i < k <= a.len(),
        a.take(i) == b.take(i),
        a[i] < b[i],
    ensures
        be_value(a.take(k)) < be_value(b.take(k)),
    decreases k,
{
    lemma_take_step(a, k - 1);
    lemma_take_step(b, k - 1);
    if k > i + 1 {
        lemma_prefix_order(a, b, i, k - 1);
    }
}

/// The order of two byte strings of one length is decided at the first
/// position where they differ.
pub proof fn lemma_value_order(a: Seq<u8>, b: Seq<u8>, i: int)
    requires
        a.len() == b.len(),
        0 <= i < a.len(),
        a.take(i) == b.take(i),
        a[i] < b[i],
    ensures
        be_value(a) < be_value(b),
{
    lemma_prefix_order(a, b, i, a.len() as int);
    assert(a.take(a.len() as int) =~= a);
    assert(b.take(b.len() as int) =~= b);
}

/// Appending eight bytes multiplies the value by 2^64 and adds the number
/// that the eight denote.
pub proof fn lemma_take_eight(s: Seq<u8>, k: int)
    requires
        0 <= k,
        k + 8 <= s.len(),
    ensures
        be_value(s.take(k + 8)) == be_value(s.take(k)) * 0x1_0000_0000_0000_0000 + (((((((s[k]
            * 256 + s[k + 1]) * 256 + s[k + 2]) * 256 + s[k + 3]) * 256 + s[k + 4]) * 256 + s[k
            + 5]) * 256 + s[k + 6]) * 256 + s[k + 7]),
{
    lemma_take_step(s, k);
    lemma_take_step(s, k + 1);
    lemma_take_step(s, k + 2);
    lemma_take_step(s, k + 3);
    lemma_take_step(s, k + 4);
    lemma_take_step(s, k + 5);
    lemma_take_step(s, k + 6);
    lemma_take_step(s, k + 7);
}

/// The value of 32 bytes, eight bytes at a time.
proof fn lemma_take_all(s: Seq<u8>)
    requires
        s.len() == 32,
    ensures
        be_value(s.take(0)) == 0,
        s.take(32) == s,
{
    assert(s.take(32) =~= s);
}

/// The bytes of `prime_seq` denote the field's prime.
pub proof fn lemma_prime_value()
    ensures
        be_value(prime_seq()) == field_prime(),
{
    let s = prime_seq();
    lemma_take_all(s);
    lemma_take_eight(s, 0);
    lemma_take_eight(s, 8);
    lemma_take_eight(s, 16);
    lemma_take_eight(s, 24);
}

/// The bytes of `signing_bound_seq` denote the signing bound.
pub proof fn lemma_signing_bound_value()
    ensures
        be_value(signing_bound_seq()) == signing_bound(),
{
    let s = signing_bound_seq();
    lemma_take_all(s);
    lemma_take_eight(s, 0);
    lemma_take_eight(s, 8);
    lemma_take_eight(s, 16);
    lemma_take_eight(s, 24);
}

/// The bytes of `curve_order_seq` denote the order of the curve.
pub proof fn lemma_curve_order_value()
    ensures
        be_value(curve_order_seq()) == curve_order(),
{
    let s = curve_order_seq();
    lemma_take_all(s);
    lemma_take_eight(s, 0);
    lemma_take_eight(s, 8);
    lemma_take_eight(s, 16);
    lemma_take_eight(s, 24);
}

/// Whether the first of two 32-byte numbers is the smaller.
pub fn bytes_less(a: &[u8; 32], b: &[u8; 32]) -> (less: bool)
    ensures
        less == (be_value(a@) < be_value(b@)),
{
    let mut i: usize = 0;
    while i < 32
        invariant
            i <= 32,
            a@.take(i as int) == b@.take(i as int),
        decreases 32 - i,
    {
        if a[i] != b[i] {
            proof {
                if a@[i as int] < b@[i as int] {
                    lemma_value_order(a@, b@, i as int);
                } else {
                    lemma_value_order(b@, a@, i as int);
                }
            }
            return a[i] < b[i];
        }
        assert(a@.take(i + 1) =~= a@.take(i as int).push(a@[i as int]));
        assert(b@.take(i + 1) =~= b@.take(i as int).push(b@[i as int]));
        i += 1;
    }
    assert(a@.take(32) =~= a@);
    assert(b@.take(32) =~= b@);
    false
}

/// The field's prime as an array.
fn prime_bytes() -> (p: [u8; 32])
    ensures
        p@ == prime_seq(),
{
    let p: [u8; 32] = [
        0x08, 0, 0, 0, 0, 0, 0, 0x11,
        0, 0, 0, 0, 0, 0, 0, 0,
        0, 0, 0, 0, 0, 0, 0, 0,
        0, 0, 0, 0, 0, 0, 0, 0x01,
    ];
    assert(p@ =~= prime_seq());
    p
}

/// The signing bound as an array.
fn signing_bound_bytes() -> (p: [u8; 32])
    ensures
        p@ == signing_bound_seq(),
{
    let p: [u8; 32] = [
        0x08, 0, 0, 0, 0, 0, 0, 0,
        0, 0, 0, 0, 0, 0, 0, 0,
        0, 0, 0, 0, 0, 0, 0, 0,
        0, 0, 0, 0, 0, 0, 0, 0,
    ];
    assert(p@ =~= signing_bound_seq());
    p
}

/// The order of the curve as an array.
fn curve_order_bytes() -> (p: [u8; 32])
    ensures
        p@ == curve_order_seq(),
{
    let p: [u8; 32] = [
        0x08, 0x00, 0x00, 0x00, 0x00, 0x00, 0x00, 0x10,
        0xff, 0xff, 0xff, 0xff, 0xff, 0xff, 0xff, 0xff,
        0xb7, 0x81, 0x12, 0x6d, 0xca, 0xe7, 0xb2, 0x32,
        0x1e, 0x66, 0xa2, 0x41, 0xad, 0xc6, 0x4d, 0x2f,
    ];
    assert(p@ =~= curve_order_seq());
    p
}

/// A field element in canonical form.
#[derive(Clone, Copy, Debug)]
pub struct Felt {
    pub(crate) bytes: [u8; 32],
}

impl View for Felt {
    type V = Seq<u8>;

    closed spec fn view(&self) -> Seq<u8> {
        self.bytes@
    }
}

impl Felt {
    /// The number that the element denotes.
    pub open spec fn value(self) -> nat {
        be_value(self@)
    }

    /// What holds of every element that a program can hold: 32 bytes that
    /// denote a number below the prime.
    #[verifier::type_invariant]
    pub open spec fn is_canonical(self) -> bool {
        &&& self@.len() == 32
        &&& self.value() < field_prime()
    }

    /// Two elements with the same bytes are the same element.
    pub proof fn lemma_same_view(self, other: Felt)
        requires
            self@ == other@,
        ensures
            self == other,
    {
        assert(self.bytes =~= other.bytes);
    }

    /// Two elements that denote the same number are the same element.
    pub proof fn lemma_same_value(self, other: Felt)
        requires
            self.value() == other.value(),
        ensures
            self == other,
    {
        lemma_value_injective(self.bytes@, other.bytes@);
        assert(self.bytes =~= other.bytes);
    }

    /// The element that 32 bytes denote, if they denote a number below the
    /// prime.
    pub fn from_bytes_be(bytes: [u8; 32]) -> (r: Option<Felt>)
        ensures
            r is Some <==> be_value(bytes@) < field_prime(),
            r matches Some(f) ==> f@ == bytes@ && f.is_canonical(),
    {
        let p = prime_bytes();
        proof {
            lemma_prime_value();
        }
        if bytes_less(&bytes, &p) {
            Some(Felt { bytes })
        } else {
            None
        }
    }

    /// The element's 32 bytes.
    pub fn to_bytes_be(&self) -> (bytes: [u8; 32])
        ensures
            bytes@ == self@,
            self.is_canonical(),
    {
        proof {
            use_type_invariant(self);
        }
        self.bytes
    }

    /// The element zero.
    pub fn zero() -> (r: Felt)
        ensures
            r.value() == 0,
            r@ == be_bytes(0, 32),
            r.is_canonical(),
    {
        Felt::from_u64(0)
    }

    /// The element that denotes `x`.
    pub fn from_u64(x: u64) -> (r: Felt)
        ensures
            r.value() == x,
            r@ == be_bytes(x as nat, 32),
            r.is_canonical(),
    {
        let b7: u8 = (x % 256) as u8;
        let x1: u64 = x / 256;
        let b6: u8 = (x1 % 256) as u8;
        let x2: u64 = x1 / 256;
        let b5: u8 = (x2 % 256) as u8;
        let x3: u64 = x2 / 256;
        let b4: u8 = (x3 % 256) as u8;
        let x4: u64 = x3 / 256;
        let b3: u8 = (x4 % 256) as u8;
        let x5: u64 = x4 / 256;
        let b2: u8 = (x5 % 256) as u8;
        let x6: u64 = x5 / 256;
        let b1: u8 = (x6 % 256) as u8;
        let x7: u64 = x6 / 256;
        let b0: u8 = (x7 % 256) as u8;
        let bytes: [u8; 32] = [
            0, 0, 0, 0, 0, 0, 0, 0,
            0, 0, 0, 0, 0, 0, 0, 0,
            0, 0, 0, 0, 0, 0, 0, 0,
            b0, b1, b2, b3, b4, b5, b6, b7,
        ];
        proof {
            let s = bytes@;
            lemma_zero_value(s.take(24));
            lemma_take_step(s, 24);
            lemma_take_step(s, 25);
            lemma_take_step(s, 26);
            lemma_take_step(s, 27);
            lemma_take_step(s, 28);
            lemma_take_step(s, 29);
            lemma_take_step(s, 30);
            lemma_take_step(s, 31);
            assert(s.take(32) =~= s);
            assert(be_value(s) == x);
            lemma_bytes_of_value(s);
        }
        Felt { bytes }
    }

    /// The element that denotes `x`.
    pub fn from_u32(x: u32) -> (r: Felt)
        ensures
            r.value() == x,
            r@ == be_bytes(x as nat, 32),
            r.is_canonical(),
    {
        Felt::from_u64(x as u64)
    }

    /// Whether the element is zero.
    pub fn is_zero(&self) -> (zero: bool)
        ensures
            zero == (self.value() == 0),
    {
        let mut i: usize = 0;
        while i < 32
            invariant
                i <= 32,
                forall|j: int| 0 <= j < i ==> self.bytes@[j] == 0,
            decreases 32 - i,
        {
            if self.bytes[i] != 0 {
                proof {
                    lemma_zero_value(self.bytes@);
                }
                return false;
            }
            i += 1;
        }
        proof {
            lemma_zero_value(self.bytes@);
        }
        true
    }

    /// Whether the element can be a private key: above zero and below the
    /// order of the curve.
    pub fn is_private_key(&self) -> (valid: bool)
        ensures
            valid == (0 < self.value() < curve_order()),
    {
        let order = curve_order_bytes();
        proof {
            lemma_curve_order_value();
        }
        !self.is_zero() && bytes_less(&self.bytes, &order)
    }

    /// Whether the element is below 2^251, the bound on what can be signed.
    pub fn is_signable(&self) -> (below: bool)
        ensures
            below == (self.value() < signing_bound()),
    {
        let bound = signing_bound_bytes();
        proof {
            lemma_signing_bound_value();
        }
        bytes_less(&self.bytes, &bound)
    }
}

impl PartialEq for Felt {
    fn eq(&self, other: &Felt) -> (same: bool) {
        let mut i: usize = 0;
        while i < 32
            invariant
                i <= 32,
                forall|j: int| 0 <= j < i ==> self.bytes@[j] == other.bytes@[j],
            decreases 32 - i,
        {
            if self.bytes[i] != other.bytes[i] {
                return false;
            }
            i += 1;
        }
        assert(self.bytes@ =~= other.bytes@);
        true
    }
}

impl Eq for Felt {

}

impl vstd::std_specs::cmp::PartialEqSpecImpl for Felt {
    open spec fn obeys_eq_spec() -> bool {
        true
    }

    open spec fn eq_spec(&self, other: &Felt) -> bool {
        self@ == other@
    }
}

} // verus!
