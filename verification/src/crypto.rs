use vstd::prelude::*;

verus! {

/// A 32-byte hash value.
#[derive(Clone, Copy, Debug, PartialEq, Eq)]
pub struct HashVal(pub [u8; 32]);

impl View for HashVal {
    type V = Seq<u8>;

    open spec fn view(&self) -> Seq<u8> {
        self.0@
    }
}

/// The all-zero 32-byte sequence, used as the hash of "nothing": the parent
/// of a genesis header and the root of an empty state.
pub open spec fn zero_hash_seq() -> Seq<u8> {
    Seq::new(32, |i: int| 0u8)
}

impl HashVal {
    /// The all-zero hash value.
    pub fn zero() -> (h: HashVal)
        ensures
            h@ == zero_hash_seq(),
    {
        let h = HashVal([0u8; 32]);
        proof {
            assert(h@ =~= zero_hash_seq());
        }
        h
    }
}

/// Byte-wise equality of two hash values.
pub fn eq_hash(a: &HashVal, b: &HashVal) -> (r: bool)
    ensures
        r == (a@ == b@),
{
    let mut i: usize = 0;
    while i < 32
        invariant
            i <= 32,
            a@.len() == 32,
            b@.len() == 32,
            forall|j: int| 0 <= j < i ==> a@[j] == b@[j],
        decreases 32 - i,
    {
        if a.0[i] != b.0[i] {
            return false;
        }
        i = i + 1;
    }
    proof {
        assert(a@ =~= b@);
    }
    true
}

/// The digest of the fixed 32-byte hash primitive on the given bytes.
pub uninterp spec fn blake3_of(b: Seq<u8>) -> Seq<u8>;

/// Relies on tmelcrypt::hash_single (BLAKE3): the 32-byte digest depends on
/// the input bytes alone.
#[verifier::external_body]
pub(crate) fn hash_bytes(b: &[u8]) -> (r: HashVal)
    ensures
        r@ == blake3_of(b@),
{
    HashVal(tmelcrypt::hash_single(b).0)
}

/// Whether `sig` is a valid Ed25519 signature on `msg` under public key `pk`.
pub uninterp spec fn ed25519_verify(pk: Seq<u8>, msg: Seq<u8>, sig: Seq<u8>) -> bool;

/// Relies on tmelcrypt::Ed25519PK::verify (ed25519-consensus): acceptance is
/// a deterministic function of key, message and signature.
#[verifier::external_body]
pub(crate) fn ed25519_check(pk: &[u8; 32], msg: &[u8], sig: &[u8]) -> (r: bool)
    ensures
        r == ed25519_verify(pk@, msg@, sig@),
{
    tmelcrypt::Ed25519PK(*pk).verify(msg, sig)
}

} // verus!
