use vstd::prelude::*;
use vstd::string::StringExecFns;

use crate::codec::enc_tx_signing;
use crate::codec::encode_tx_for_signing;
use crate::contract::Address;
use crate::crypto::{blake3_of, hash_bytes, HashVal};

verus! {

/// Number of micro-units in one whole unit of a token.
pub const MICRO_CONVERTER: u128 = 1_000_000;

/// The chain id of the betanet network.
pub const BETANET_ID: u16 = 0x0814;

/// The chain id of the testnet network.
pub const TESTNET_ID: u16 = 0xffff;

/// Network ID.
#[derive(Clone, Copy, Debug, PartialEq, Eq, Structural)]
pub struct NetId(pub u16);

/// Identifier of a token. MEL, the fee token, is token 0.
#[derive(Clone, Copy, Debug, PartialEq, Eq, Structural)]
pub struct TokenId(pub u64);

/// The token id of MEL, the distinguished fee token.
pub const MEL_TOKEN: u64 = 0;

/// A monetary value in micro-units.
#[derive(Clone, Copy, Debug, PartialEq, Eq, Structural)]
pub struct Quantity(pub u128);

/// The character of one decimal digit.
pub open spec fn spec_digit(d: int) -> char {
    if d == 0 {
        '0'
    } else if d == 1 {
        '1'
    } else if d == 2 {
        '2'
    } else if d == 3 {
        '3'
    } else if d == 4 {
        '4'
    } else if d == 5 {
        '5'
    } else if d == 6 {
        '6'
    } else if d == 7 {
        '7'
    } else if d == 8 {
        '8'
    } else {
        '9'
    }
}

/// The decimal digits of `n`, most significant first.
pub open spec fn dec_chars(n: int) -> Seq<char>
    decreases n,
{
    if n < 10 {
        seq![spec_digit(n)]
    } else {
        dec_chars(n / 10).push(spec_digit(n % 10))
    }
}

/// The six digits of a micro-unit fraction, zero-padded.
pub open spec fn frac_chars(n: int) -> Seq<char> {
    seq![
        spec_digit((n / 100_000) % 10),
        spec_digit((n / 10_000) % 10),
        spec_digit((n / 1_000) % 10),
        spec_digit((n / 100) % 10),
        spec_digit((n / 10) % 10),
        spec_digit(n % 10),
    ]
}

/// The display form of a quantity: whole units, a dot, and the six
/// micro-unit digits.
pub open spec fn display_chars(q: u128) -> Seq<char> {
    dec_chars((q / MICRO_CONVERTER) as int) + seq!['.'] + frac_chars((q % MICRO_CONVERTER) as int)
}

fn push_digit(out: &mut String, d: u128)
    requires
        d < 10,
    ensures
        final(out)@ == old(out)@ + seq![spec_digit(d as int)],
{
    proof {
        reveal_strlit("0");
        reveal_strlit("1");
        reveal_strlit("2");
        reveal_strlit("3");
        reveal_strlit("4");
        reveal_strlit("5");
        reveal_strlit("6");
        reveal_strlit("7");
        reveal_strlit("8");
        reveal_strlit("9");
    }
    if d == 0 {
        out.append("0");
    } else if d == 1 {
        out.append("1");
    } else if d == 2 {
        out.append("2");
    } else if d == 3 {
        out.append("3");
    } else if d == 4 {
        out.append("4");
    } else if d == 5 {
        out.append("5");
    } else if d == 6 {
        out.append("6");
    } else if d == 7 {
        out.append("7");
    } else if d == 8 {
        out.append("8");
    } else {
        out.append("9");
    }
    proof {
        assert(out@ =~= old(out)@ + seq![spec_digit(d as int)]);
    }
}

fn push_dec(out: &mut String, n: u128)
    ensures
        final(out)@ == old(out)@ + dec_chars(n as int),
    decreases n,
{
    if n < 10 {
        push_digit(out, n);
    } else {
        push_dec(out, n / 10);
        push_digit(out, n % 10);
        proof {
            assert(out@ =~= old(out)@ + dec_chars(n as int));
        }
    }
}

impl Quantity {
    /// The display form: whole units, a dot, and the six micro-unit digits.
    pub fn display(&self) -> (r: String)
        ensures
            r@ == display_chars(self.0),
    {
        let mut out = String::new();
        push_dec(&mut out, self.0 / MICRO_CONVERTER);
        proof {
            reveal_strlit(".");
        }
        out.append(".");
        let frac = self.0 % MICRO_CONVERTER;
        push_digit(&mut out, (frac / 100_000) % 10);
        push_digit(&mut out, (frac / 10_000) % 10);
        push_digit(&mut out, (frac / 1_000) % 10);
        push_digit(&mut out, (frac / 100) % 10);
        push_digit(&mut out, (frac / 10) % 10);
        push_digit(&mut out, frac % 10);
        proof {
            assert(out@ =~= display_chars(self.0));
        }
        out
    }
}

/// A transaction in a block. Moves assets from one address to another.
///
/// `assets` plays the role of an ordered map from token id to quantity:
/// entries are strictly ascending by token id (see [`Transaction::wf`]).
#[derive(Clone, Debug)]
pub struct Transaction {
    pub chain_id: NetId,
    pub nonce: u64,
    pub from: Address,
    pub to: Address,
    pub fee: Quantity,
    pub assets: Vec<(TokenId, Quantity)>,
    pub auth_data: Vec<u8>,
    pub call_data: Vec<u8>,
}

/// The hash a sender signs: the digest of the transaction's canonical bytes
/// with the authorization field empty, so the signature can be computed
/// before it is placed into `auth_data`.
pub open spec fn spec_signing_hash(t: Transaction) -> Seq<u8> {
    blake3_of(enc_tx_signing(t))
}

impl Transaction {
    /// The asset list represents an ordered map: token ids strictly ascend.
    pub open spec fn wf(self) -> bool {
        forall|i: int, j: int|
            0 <= i < j < self.assets@.len() ==> self.assets@[i].0.0 < self.assets@[j].0.0
    }

    /// The hash that an Ed25519 authorization signs.
    pub fn signing_hash(&self) -> (h: HashVal)
        ensures
            h@ == spec_signing_hash(*self),
    {
        let bytes = encode_tx_for_signing(self);
        hash_bytes(bytes.as_slice())
    }

    /// A copy holding the same fields.
    pub fn duplicate(&self) -> (r: Transaction)
        ensures
            tx_eqv(r, *self),
    {
        Transaction {
            chain_id: self.chain_id,
            nonce: self.nonce,
            from: self.from,
            to: self.to,
            fee: self.fee,
            assets: copy_assets(&self.assets),
            auth_data: copy_bytes(&self.auth_data),
            call_data: copy_bytes(&self.call_data),
        }
    }
}

/// Two transactions carrying the same committed fields. Every rule of the
/// engine, and the canonical encoding, depends on the fields alone.
pub open spec fn tx_eqv(a: Transaction, b: Transaction) -> bool {
    &&& a.chain_id == b.chain_id
    &&& a.nonce == b.nonce
    &&& a.from == b.from
    &&& a.to == b.to
    &&& a.fee == b.fee
    &&& a.assets@ == b.assets@
    &&& a.auth_data@ == b.auth_data@
    &&& a.call_data@ == b.call_data@
}

/// Element-wise [`tx_eqv`] over two transaction sequences.
pub open spec fn txs_eqv(s1: Seq<Transaction>, s2: Seq<Transaction>) -> bool {
    s1.len() == s2.len() && forall|i: int| 0 <= i < s1.len() ==> tx_eqv(s1[i], s2[i])
}

fn copy_bytes(v: &Vec<u8>) -> (r: Vec<u8>)
    ensures
        r@ == v@,
{
    let mut out: Vec<u8> = Vec::new();
    let mut i: usize = 0;
    while i < v.len()
        invariant
            i <= v@.len(),
            out@ == v@.take(i as int),
        decreases v@.len() - i,
    {
        out.push(v[i]);
        proof {
            assert(v@.take(i + 1) =~= v@.take(i as int).push(v@[i as int]));
        }
        i = i + 1;
    }
    proof {
        assert(v@.take(v@.len() as int) =~= v@);
    }
    out
}

fn copy_assets(v: &Vec<(TokenId, Quantity)>) -> (r: Vec<(TokenId, Quantity)>)
    ensures
        r@ == v@,
{
    let mut out: Vec<(TokenId, Quantity)> = Vec::new();
    let mut i: usize = 0;
    while i < v.len()
        invariant
            i <= v@.len(),
            out@ == v@.take(i as int),
        decreases v@.len() - i,
    {
        out.push(v[i]);
        proof {
            assert(v@.take(i + 1) =~= v@.take(i as int).push(v@[i as int]));
        }
        i = i + 1;
    }
    proof {
        assert(v@.take(v@.len() as int) =~= v@);
    }
    out
}

} // verus!
