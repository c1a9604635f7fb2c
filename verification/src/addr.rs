//! Validator identities and addresses: 32-byte public keys, compared by
//! their bytes, together with a simple set of addresses used for denylists
//! and allowlists.

use vstd::prelude::*;

verus! {

/// Number of bytes in a validator identity / account address.
pub const ADDRESS_BYTES: usize = 32;

/// A 32-byte account address (also used as a validator identity).
#[derive(Debug)]
pub struct Address {
    bytes: Vec<u8>,
}

impl View for Address {
    type V = Seq<u8>;

    closed spec fn view(&self) -> Seq<u8> {
        self.bytes@
    }
}

impl Address {
    /// A well-formed address holds exactly 32 bytes.
    pub open spec fn wf(&self) -> bool {
        self@.len() == ADDRESS_BYTES
    }

    /// Builds an address from raw bytes; rejects any length other than 32.
    pub fn from_bytes(bytes: Vec<u8>) -> (r: Option<Address>)
        ensures
            match r {
                Some(a) => a.wf() && a@ == bytes@,
                None => bytes@.len() != ADDRESS_BYTES,
            },
    {
        if bytes.len() == ADDRESS_BYTES {
            Some(Address { bytes })
        } else {
            None
        }
    }

    /// The raw bytes of the address.
    pub fn as_bytes(&self) -> (r: &Vec<u8>)
        ensures
            r@ == self@,
    {
        &self.bytes
    }

    /// Byte-for-byte equality of two addresses.
    pub fn same_as(&self, other: &Address) -> (r: bool)
        ensures
            r == (self@ == other@),
    {
        let r = self.bytes == other.bytes;
        proof {
            if r {
                assert(self.bytes@ =~= other.bytes@);
            }
        }
        r
    }
}

impl Clone for Address {
    fn clone(&self) -> (r: Self)
        ensures
            r@ == self@,
    {
        let bytes = clone_bytes(&self.bytes);
        Address { bytes }
    }
}

/// Clones a byte vector, keeping its contents.
pub fn clone_bytes(v: &Vec<u8>) -> (r: Vec<u8>)
    ensures
        r@ == v@,
{
    let mut r: Vec<u8> = Vec::new();
    let mut i: usize = 0;
    while i < v.len()
        invariant
            i <= v.len(),
            r@ == v@.take(i as int),
        decreases v.len() - i,
    {
        r.push(v[i]);
        i = i + 1;
        proof {
            assert(v@.take(i as int) =~= v@.take(i - 1).push(v@[i - 1]));
        }
    }
    proof {
        assert(v@.take(v@.len() as int) =~= v@);
    }
    r
}

/// A set of addresses, used for the packet denylist and for validator
/// allowlists.  Membership is decided by byte equality.
#[derive(Debug)]
pub struct AddressSet {
    items: Vec<Address>,
}

impl View for AddressSet {
    type V = Set<Seq<u8>>;

    closed spec fn view(&self) -> Set<Seq<u8>> {
        Set::new(|a: Seq<u8>| exists|i: int| 0 <= i < self.items@.len() && self.items@[i]@ == a)
    }
}

impl AddressSet {
    /// The empty set.
    pub fn new() -> (r: AddressSet)
        ensures
            r@ =~= Set::<Seq<u8>>::empty(),
    {
        AddressSet { items: Vec::new() }
    }

    /// Builds a set from a list of addresses.
    pub fn from_items(items: Vec<Address>) -> (r: AddressSet)
        ensures
            forall|a: Seq<u8>|
                r@.contains(a) <==> exists|i: int| 0 <= i < items@.len() && items@[i]@ == a,
    {
        AddressSet { items }
    }

    /// True iff the set holds no address.
    pub fn is_empty(&self) -> (r: bool)
        ensures
            r == (self@ =~= Set::<Seq<u8>>::empty()),
    {
        let r = self.items.len() == 0;
        proof {
            if r {
                assert(self@ =~= Set::<Seq<u8>>::empty());
            } else {
                assert(self@.contains(self.items@[0]@));
            }
        }
        r
    }

    /// True iff `a` is in the set.
    pub fn contains(&self, a: &Address) -> (r: bool)
        ensures
            r == self@.contains(a@),
    {
        let mut i: usize = 0;
        while i < self.items.len()
            invariant
                i <= self.items@.len(),
                forall|j: int| 0 <= j < i ==> self.items@[j]@ != a@,
            decreases self.items@.len() - i,
        {
            if self.items[i].same_as(a) {
                return true;
            }
            i = i + 1;
        }
        false
    }

    /// Number of stored addresses (duplicates counted).
    pub closed spec fn spec_len(&self) -> nat {
        self.items@.len()
    }

    /// Number of stored addresses (duplicates counted).
    pub fn len(&self) -> (r: usize)
        ensures
            r == self.spec_len(),
    {
        self.items.len()
    }
}

} // verus!
