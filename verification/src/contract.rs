use vstd::prelude::*;

use vstd::bytes::spec_u64_to_le_bytes;

use crate::codec::{enc_bytes, push_bytes, put_u64, put_var_bytes};
use crate::crypto::{blake3_of, ed25519_check, ed25519_verify, hash_bytes, HashVal};
use crate::smt::{smt_contents, SmtTree};
use crate::state::Header;
use crate::transaction::{spec_signing_hash, TokenId, Transaction};

verus! {

/// A contract address: 32 opaque bytes.
#[derive(Clone, Copy, Debug, PartialEq, Eq)]
pub struct Address(pub [u8; 32]);

impl View for Address {
    type V = Seq<u8>;

    open spec fn view(&self) -> Seq<u8> {
        self.0@
    }
}

/// Byte-wise equality of two addresses.
pub fn eq_addr(a: &Address, b: &Address) -> (r: bool)
    ensures
        r == (a@ == b@),
{
    let mut i: usize = 0;
    while i < 32
        invariant
            i <= 32,
            a@.len() == 32,
            b@.len() == 32,
            forall|j: int| 0 <= j < i ==> a@[j] == b@[j],
        decreases 32 - i,
    {
        if a.0[i] != b.0[i] {
            return false;
        }
        i = i + 1;
    }
    proof {
        assert(a@ =~= b@);
    }
    true
}

impl Address {
    /// The zero address, used for special-purpose transactions.
    pub fn zero() -> (a: Address)
        ensures
            a@ == crate::crypto::zero_hash_seq(),
    {
        let a = Address([0u8; 32]);
        proof {
            assert(a@ =~= crate::crypto::zero_hash_seq());
        }
        a
    }
}

/// The canonical bytes hashed to derive a per-address, per-token state key:
/// the raw address, a length-prefixed tag naming the key space, and the
/// token id.
pub open spec fn key_tuple_enc(addr: Seq<u8>, tag: Seq<u8>, tok: u64) -> Seq<u8> {
    addr + enc_bytes(tag) + spec_u64_to_le_bytes(tok)
}

/// The tag of the balance key space: the bytes of "token".
pub open spec fn token_tag() -> Seq<u8> {
    seq![116u8, 111u8, 107u8, 101u8, 110u8]
}

/// The tag of the blob key space: the bytes of "blob".
pub open spec fn blob_tag() -> Seq<u8> {
    seq![98u8, 108u8, 111u8, 98u8]
}

/// The state key holding `addr`'s balance in token `tok`.
pub open spec fn token_key(addr: Seq<u8>, tok: u64) -> Seq<u8> {
    blake3_of(key_tuple_enc(addr, token_tag(), tok))
}

/// The state key holding `addr`'s blob in token `tok`.
pub open spec fn blob_key(addr: Seq<u8>, tok: u64) -> Seq<u8> {
    blake3_of(key_tuple_enc(addr, blob_tag(), tok))
}

impl Address {
    /// The state key where a token balance is held.
    pub fn token_state_key(&self, token: TokenId) -> (k: HashVal)
        ensures
            k@ == token_key(self@, token.0),
    {
        let mut buf: Vec<u8> = Vec::new();
        push_bytes(&mut buf, self.0.as_slice());
        let mut tag: Vec<u8> = Vec::new();
        tag.push(116u8);
        tag.push(111u8);
        tag.push(107u8);
        tag.push(101u8);
        tag.push(110u8);
        proof {
            assert(tag@ =~= token_tag());
        }
        put_var_bytes(&mut buf, tag.as_slice());
        put_u64(&mut buf, token.0);
        proof {
            assert(buf@ =~= key_tuple_enc(self@, token_tag(), token.0));
        }
        hash_bytes(buf.as_slice())
    }

    /// The state key where a blob is held.
    pub fn blob_state_key(&self, token: TokenId) -> (k: HashVal)
        ensures
            k@ == blob_key(self@, token.0),
    {
        let mut buf: Vec<u8> = Vec::new();
        push_bytes(&mut buf, self.0.as_slice());
        let mut tag: Vec<u8> = Vec::new();
        tag.push(98u8);
        tag.push(108u8);
        tag.push(111u8);
        tag.push(98u8);
        proof {
            assert(tag@ =~= blob_tag());
        }
        put_var_bytes(&mut buf, tag.as_slice());
        put_u64(&mut buf, token.0);
        proof {
            assert(buf@ =~= key_tuple_enc(self@, blob_tag(), token.0));
        }
        hash_bytes(buf.as_slice())
    }
}

/// Executable policy bound to an address. Currently a single variant: an
/// externally-owned account authorized by an Ed25519 public key.
#[derive(Clone, Copy, Debug, PartialEq, Eq)]
pub enum ContractCode {
    Ed25519PK([u8; 32]),
}

impl ContractCode {
    /// The public-key bytes of the contract.
    pub open spec fn pk_bytes(self) -> Seq<u8> {
        match self {
            ContractCode::Ed25519PK(pk) => pk@,
        }
    }
}

/// What one contract run yields: `None` when the gas counter cannot pay the
/// 10_000-gas charge; otherwise the verdict and the remaining gas. Entry 0
/// (from-side authorization) accepts exactly when `data` is a valid
/// signature over `txhash`; every other entry (to-side acceptance) rejects.
pub open spec fn spec_execute(
    pk: Seq<u8>,
    txhash: Seq<u8>,
    entry: u64,
    data: Seq<u8>,
    gas: u64,
) -> Option<(bool, u64)> {
    if gas < 10000 {
        None
    } else {
        Some(((entry == 0 && ed25519_verify(pk, txhash, data)), (gas - 10000) as u64))
    }
}

/// The hash handed to a contract run: the calling transaction's signing
/// hash, or the zero hash when there is no calling transaction.
pub open spec fn spec_call_hash(calling_tx: Option<&Transaction>) -> Seq<u8> {
    match calling_tx {
        Some(t) => spec_signing_hash(*t),
        None => crate::crypto::zero_hash_seq(),
    }
}

impl ContractCode {
    /// Executes a contract in its proper context, debiting `gas`. The state
    /// view is passed so richer contract variants could read it; the
    /// Ed25519 variant leaves it untouched.
    pub fn execute(
        &self,
        last_header: &Header,
        state: &mut SmtTree,
        calling_tx: Option<&Transaction>,
        entry: u64,
        data: &[u8],
        gas: &mut u64,
    ) -> (r: Option<bool>)
        ensures
            smt_contents(*final(state)) == smt_contents(*old(state)),
            match r {
                Some(b) => spec_execute(self.pk_bytes(), spec_call_hash(calling_tx), entry, data@, *old(gas))
                    == Some((b, *final(gas))),
                None => spec_execute(self.pk_bytes(), spec_call_hash(calling_tx), entry, data@, *old(gas))
                    is None && *final(gas) == *old(gas),
            },
    {
        let txhash: HashVal = match calling_tx {
            Some(tx) => tx.signing_hash(),
            None => HashVal::zero(),
        };
        match self {
            ContractCode::Ed25519PK(pk) => {
                if *gas < 10000 {
                    return None;
                }
                *gas = *gas - 10000;
                if entry == 0 {
                    Some(ed25519_check(pk, txhash.0.as_slice(), data))
                } else {
                    Some(false)
                }
            },
        }
    }
}

} // verus!
