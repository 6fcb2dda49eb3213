//! Fixed-size identities: account public keys and transaction hashes.
use vstd::prelude::*;

verus! {

/// Number of bytes in a public key and in a hash.
pub const KEY_BYTES: usize = 32;

/// Compares two 32-byte strings byte by byte.
fn bytes_equal(a: &[u8; 32], b: &[u8; 32]) -> (r: bool)
    ensures
        r == (a@ == b@),
{
    let mut i: usize = 0;
    while i < KEY_BYTES
        invariant
            0 <= i <= KEY_BYTES,
            a@.len() == KEY_BYTES,
            b@.len() == KEY_BYTES,
            forall|j: int| 0 <= j < i ==> a@[j] == b@[j],
        decreases KEY_BYTES - i,
    {
        if a[i] != b[i] {
            assert(a@[i as int] != b@[i as int]);
            return false;
        }
        i += 1;
    }
    assert(a@ =~= b@);
    true
}

/// The public key that identifies an account and authors transactions.
#[derive(Clone, Copy, Debug)]
pub struct PublicKey {
    pub bytes: [u8; 32],
}

impl View for PublicKey {
    type V = Seq<u8>;

    open spec fn view(&self) -> Seq<u8> {
        self.bytes@
    }
}

impl PublicKey {
    pub fn new(bytes: [u8; 32]) -> (r: PublicKey)
        ensures
            r@ == bytes@,
    {
        PublicKey { bytes }
    }
}

impl PartialEq for PublicKey {
    fn eq(&self, o: &PublicKey) -> (r: bool) {
        bytes_equal(&self.bytes, &o.bytes)
    }
}

impl vstd::std_specs::cmp::PartialEqSpecImpl for PublicKey {
    open spec fn obeys_eq_spec() -> bool {
        true
    }

    open spec fn eq_spec(&self, o: &PublicKey) -> bool {
        self@ == o@
    }
}

/// The view of the all-zero digest.
pub open spec fn zero_digest() -> Seq<u8> {
    Seq::new(32, |i: int| 0u8)
}

/// A 32-byte hash: it identifies a transaction, or digests a history.
#[derive(Clone, Copy, Debug)]
pub struct Digest {
    pub bytes: [u8; 32],
}

impl View for Digest {
    type V = Seq<u8>;

    open spec fn view(&self) -> Seq<u8> {
        self.bytes@
    }
}

impl Digest {
    pub fn new(bytes: [u8; 32]) -> (r: Digest)
        ensures
            r@ == bytes@,
    {
        Digest { bytes }
    }

    /// The hash made of zero bytes only.
    pub fn zero() -> (r: Digest)
        ensures
            r@ == zero_digest(),
    {
        let r = Digest { bytes: [0u8; 32] };
        assert(r@ =~= zero_digest());
        r
    }
}

impl PartialEq for Digest {
    fn eq(&self, o: &Digest) -> (r: bool) {
        bytes_equal(&self.bytes, &o.bytes)
    }
}

impl vstd::std_specs::cmp::PartialEqSpecImpl for Digest {
    open spec fn obeys_eq_spec() -> bool {
        true
    }

    open spec fn eq_spec(&self, o: &Digest) -> bool {
        self@ == o@
    }
}

} // verus!
