//! The two fixed-width byte strings of the ledger: the digest that names an
//! output and the principal that owns one.

use vstd::prelude::*;
use vstd::std_specs::cmp::PartialEqSpecImpl;

verus! {

/// Whether two 32-byte arrays hold the same bytes.
pub fn bytes32_eq(a: &[u8; 32], b: &[u8; 32]) -> (same: bool)
    ensures
        same == (a@ == b@),
        same == (*a == *b),
{
    let mut i: usize = 0;
    while i < 32
        invariant
            i <= 32,
            forall|k: int| 0 <= k < i ==> a@[k] == b@[k],
        decreases 32 - i,
    {
        if a[i] != b[i] {
            return false;
        }
        i += 1;
    }
    assert(*a =~= *b);
    true
}

/// The bytes of a 32-byte array as a vector.
pub fn bytes32_to_vec(a: &[u8; 32]) -> (v: Vec<u8>)
    ensures
        v@ == a@,
{
    let mut v: Vec<u8> = Vec::with_capacity(32);
    let mut i: usize = 0;
    while i < 32
        invariant
            i <= 32,
            v@ == a@.take(i as int),
        decreases 32 - i,
    {
        v.push(a[i]);
        i += 1;
    }
    v
}

/// A 256-bit digest: the identifier under which an unspent output is stored.
/// Its view is the sequence of its 32 bytes.
#[derive(Clone, Copy, Debug)]
pub struct H256(pub [u8; 32]);

impl View for H256 {
    type V = Seq<u8>;

    open spec fn view(&self) -> Seq<u8> {
        self.0@
    }
}

impl PartialEq for H256 {
    fn eq(&self, other: &H256) -> (same: bool) {
        bytes32_eq(&self.0, &other.0)
    }
}

impl Eq for H256 {

}

impl PartialEqSpecImpl for H256 {
    open spec fn obeys_eq_spec() -> bool {
        true
    }

    open spec fn eq_spec(&self, other: &H256) -> bool {
        *self == *other
    }
}

impl H256 {
    /// The view of the all-zero digest.
    pub open spec fn spec_zero() -> Seq<u8> {
        Seq::new(32, |i: int| 0u8)
    }

    /// The digest whose 32 bytes are all zero.
    pub fn zero() -> (h: H256)
        ensures
            h@ == Self::spec_zero(),
    {
        H256([0u8; 32])
    }

    /// The 32 bytes of the digest as a vector, the form in which a digest
    /// serves as a dependency tag.
    pub fn to_vec(&self) -> (v: Vec<u8>)
        ensures
            v@ == self@,
    {
        bytes32_to_vec(&self.0)
    }

    /// A digest has 32 bytes, and two digests with the same bytes are the
    /// same digest.
    pub proof fn lemma_view(a: H256, b: H256)
        ensures
            a@.len() == 32,
            (a@ == b@) == (a == b),
    {
        if a@ == b@ {
            assert(a.0 =~= b.0);
        }
    }
}

/// An opaque principal: the 32-byte identity of an account that can own
/// outputs and submit transactions.
#[derive(Clone, Copy, Debug)]
pub struct AccountId32(pub [u8; 32]);

impl View for AccountId32 {
    type V = Seq<u8>;

    open spec fn view(&self) -> Seq<u8> {
        self.0@
    }
}

impl PartialEq for AccountId32 {
    fn eq(&self, other: &AccountId32) -> (same: bool) {
        bytes32_eq(&self.0, &other.0)
    }
}

impl Eq for AccountId32 {

}

impl PartialEqSpecImpl for AccountId32 {
    open spec fn obeys_eq_spec() -> bool {
        true
    }

    open spec fn eq_spec(&self, other: &AccountId32) -> bool {
        *self == *other
    }
}

impl AccountId32 {
    /// The principal with the given bytes.
    pub fn new(bytes: [u8; 32]) -> (account: AccountId32)
        ensures
            account == AccountId32(bytes),
    {
        AccountId32(bytes)
    }

    /// A principal has 32 bytes, and two principals with the same bytes are
    /// the same principal.
    pub proof fn lemma_view(a: AccountId32, b: AccountId32)
        ensures
            a@.len() == 32,
            (a@ == b@) == (a == b),
    {
        if a@ == b@ {
            assert(a.0 =~= b.0);
        }
    }
}

} // verus!
