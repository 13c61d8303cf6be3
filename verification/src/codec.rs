use vstd::prelude::*;

use vstd::bytes::{
    lemma_auto_spec_u128_to_from_le_bytes, lemma_auto_spec_u16_to_from_le_bytes,
    lemma_auto_spec_u64_to_from_le_bytes, spec_u128_from_le_bytes, spec_u128_to_le_bytes,
    spec_u16_from_le_bytes, spec_u16_to_le_bytes, spec_u64_from_le_bytes, spec_u64_to_le_bytes,
    u128_from_le_bytes, u128_to_le_bytes, u16_from_le_bytes, u16_to_le_bytes, u64_from_le_bytes,
    u64_to_le_bytes,
};
use vstd::slice::{slice_subrange, slice_to_vec};

use crate::block::{Block, SealingInfo};
use crate::contract::{Address, ContractCode};
use crate::crypto::HashVal;
use crate::state::Header;
use crate::transaction::{tx_eqv, txs_eqv, NetId, Quantity, TokenId, Transaction};

verus! {

// ---------------------------------------------------------------------------
// The canonical encoding, as a mathematical function.
//
// Integers are fixed-width little-endian; 32-byte values are raw; byte
// strings carry a 64-bit length prefix; the asset map and the transaction
// sequence carry a 64-bit count prefix followed by their entries in order;
// the discriminated union carries a one-byte tag. Every value has exactly
// one encoding.
// ---------------------------------------------------------------------------

pub open spec fn enc_quantity(q: u128) -> Seq<u8> {
    spec_u128_to_le_bytes(q)
}

pub open spec fn enc_contract(c: ContractCode) -> Seq<u8> {
    seq![0u8] + c.pk_bytes()
}

pub open spec fn enc_bytes(b: Seq<u8>) -> Seq<u8> {
    spec_u64_to_le_bytes(b.len() as u64) + b
}

pub open spec fn enc_asset(a: (TokenId, Quantity)) -> Seq<u8> {
    spec_u64_to_le_bytes(a.0.0) + spec_u128_to_le_bytes(a.1.0)
}

pub open spec fn enc_asset_list(a: Seq<(TokenId, Quantity)>) -> Seq<u8>
    decreases a.len(),
{
    if a.len() == 0 {
        Seq::empty()
    } else {
        enc_asset(a[0]) + enc_asset_list(a.skip(1))
    }
}

pub open spec fn enc_assets(a: Seq<(TokenId, Quantity)>) -> Seq<u8> {
    spec_u64_to_le_bytes(a.len() as u64) + enc_asset_list(a)
}

/// The transaction encoding, with the authorization field replaceable: the
/// hash a sender signs covers the transaction with `auth` empty.
pub open spec fn enc_tx_payload(t: Transaction, auth: Seq<u8>) -> Seq<u8> {
    spec_u16_to_le_bytes(t.chain_id.0) + spec_u64_to_le_bytes(t.nonce) + t.from@ + t.to@
        + spec_u128_to_le_bytes(t.fee.0) + enc_assets(t.assets@) + enc_bytes(auth) + enc_bytes(
        t.call_data@,
    )
}

pub open spec fn enc_tx(t: Transaction) -> Seq<u8> {
    enc_tx_payload(t, t.auth_data@)
}

pub open spec fn enc_tx_signing(t: Transaction) -> Seq<u8> {
    enc_tx_payload(t, Seq::empty())
}

pub open spec fn enc_tx_list(ts: Seq<Transaction>) -> Seq<u8>
    decreases ts.len(),
{
    if ts.len() == 0 {
        Seq::empty()
    } else {
        enc_tx(ts[0]) + enc_tx_list(ts.skip(1))
    }
}

pub open spec fn enc_txs(ts: Seq<Transaction>) -> Seq<u8> {
    spec_u64_to_le_bytes(ts.len() as u64) + enc_tx_list(ts)
}

pub open spec fn enc_header(h: Header) -> Seq<u8> {
    spec_u16_to_le_bytes(h.chain_id.0) + h.prev@ + spec_u64_to_le_bytes(h.height)
        + spec_u128_to_le_bytes(h.gas_price.0) + h.state@
}

pub open spec fn enc_sealing(s: SealingInfo) -> Seq<u8> {
    s.proposer@ + spec_u128_to_le_bytes(s.new_gas_price.0)
}

pub open spec fn enc_block(b: Block) -> Seq<u8> {
    enc_header(b.header) + enc_txs(b.transactions@) + enc_sealing(b.seal_info)
}

// ---------------------------------------------------------------------------
// Whole-value decoding of the two kinds of state values. These are the
// decoders the apply engine applies to bytes read from the state tree.
// ---------------------------------------------------------------------------

/// Decode a stored balance: exactly the 16 little-endian bytes of a
/// quantity.
pub open spec fn dec_quantity(s: Seq<u8>) -> Option<u128> {
    if s.len() == 16 {
        Some(vstd::bytes::spec_u128_from_le_bytes(s))
    } else {
        None
    }
}

/// Decode stored contract code: a zero tag byte, then the 32 public-key
/// bytes. Yields the public-key bytes.
pub open spec fn dec_contract(s: Seq<u8>) -> Option<Seq<u8>> {
    if s.len() == 33 && s[0] == 0u8 {
        Some(s.skip(1))
    } else {
        None
    }
}

pub proof fn lemma_quantity_round_trip(q: u128)
    ensures
        enc_quantity(q).len() == 16,
        dec_quantity(enc_quantity(q)) == Some(q),
{
    lemma_auto_spec_u128_to_from_le_bytes();
}

pub proof fn lemma_contract_round_trip(c: ContractCode)
    ensures
        enc_contract(c).len() == 33,
        dec_contract(enc_contract(c)) == Some(c.pk_bytes()),
{
    assert(enc_contract(c).skip(1) =~= c.pk_bytes());
}

// ---------------------------------------------------------------------------
// Executable encoders.
// ---------------------------------------------------------------------------

/// Append all of `b` to `out`.
pub(crate) fn push_bytes(out: &mut Vec<u8>, b: &[u8])
    ensures
        final(out)@ == old(out)@ + b@,
{
    let mut i: usize = 0;
    while i < b.len()
        invariant
            i <= b@.len(),
            out@ == old(out)@ + b@.take(i as int),
        decreases b@.len() - i,
    {
        let x = b[i];
        out.push(x);
        proof {
            assert(b@.take(i + 1) =~= b@.take(i as int).push(b@[i as int]));
        }
        i = i + 1;
    }
    proof {
        assert(b@.take(b@.len() as int) =~= b@);
    }
}

pub(crate) fn put_u16(out: &mut Vec<u8>, x: u16)
    ensures
        final(out)@ == old(out)@ + spec_u16_to_le_bytes(x),
{
    let b = u16_to_le_bytes(x);
    push_bytes(out, b.as_slice());
}

pub(crate) fn put_u64(out: &mut Vec<u8>, x: u64)
    ensures
        final(out)@ == old(out)@ + spec_u64_to_le_bytes(x),
{
    let b = u64_to_le_bytes(x);
    push_bytes(out, b.as_slice());
}

pub(crate) fn put_u128(out: &mut Vec<u8>, x: u128)
    ensures
        final(out)@ == old(out)@ + spec_u128_to_le_bytes(x),
{
    let b = u128_to_le_bytes(x);
    push_bytes(out, b.as_slice());
}

/// Append a length-prefixed byte string.
pub(crate) fn put_var_bytes(out: &mut Vec<u8>, b: &[u8])
    ensures
        final(out)@ == old(out)@ + enc_bytes(b@),
{
    put_u64(out, b.len() as u64);
    push_bytes(out, b);
    proof {
        assert(out@ =~= old(out)@ + enc_bytes(b@));
    }
}

pub fn encode_quantity(q: Quantity) -> (r: Vec<u8>)
    ensures
        r@ == enc_quantity(q.0),
{
    u128_to_le_bytes(q.0)
}

pub fn encode_contract(c: &ContractCode) -> (r: Vec<u8>)
    ensures
        r@ == enc_contract(*c),
{
    let mut out: Vec<u8> = Vec::new();
    out.push(0u8);
    match c {
        ContractCode::Ed25519PK(pk) => {
            push_bytes(&mut out, pk.as_slice());
        },
    }
    proof {
        assert(out@ =~= enc_contract(*c));
    }
    out
}

pub fn encode_header(h: &Header) -> (r: Vec<u8>)
    ensures
        r@ == enc_header(*h),
{
    let mut out: Vec<u8> = Vec::new();
    put_u16(&mut out, h.chain_id.0);
    push_bytes(&mut out, h.prev.0.as_slice());
    put_u64(&mut out, h.height);
    put_u128(&mut out, h.gas_price.0);
    push_bytes(&mut out, h.state.0.as_slice());
    proof {
        assert(out@ =~= enc_header(*h));
    }
    out
}

pub fn encode_sealing(s: &SealingInfo) -> (r: Vec<u8>)
    ensures
        r@ == enc_sealing(*s),
{
    let mut out: Vec<u8> = Vec::new();
    push_bytes(&mut out, s.proposer.0.as_slice());
    put_u128(&mut out, s.new_gas_price.0);
    proof {
        assert(out@ =~= enc_sealing(*s));
    }
    out
}

proof fn lemma_enc_asset_list_push(a: Seq<(TokenId, Quantity)>, x: (TokenId, Quantity))
    ensures
        enc_asset_list(a.push(x)) == enc_asset_list(a) + enc_asset(x),
    decreases a.len(),
{
    if a.len() == 0 {
        assert(a.push(x).len() == 1);
        assert(a.push(x)[0] == x);
        assert(a.push(x).skip(1) =~= Seq::<(TokenId, Quantity)>::empty());
        assert(enc_asset_list(a.push(x)) == enc_asset(x) + enc_asset_list(
            a.push(x).skip(1),
        ));
        assert(enc_asset_list(a.push(x).skip(1)) == Seq::<u8>::empty());
        assert(enc_asset_list(a) == Seq::<u8>::empty());
        assert(enc_asset_list(a.push(x)) =~= enc_asset_list(a) + enc_asset(x));
    } else {
        assert(a.push(x)[0] == a[0]);
        assert(a.push(x).skip(1) =~= a.skip(1).push(x));
        lemma_enc_asset_list_push(a.skip(1), x);
        assert(enc_asset_list(a.push(x)) == enc_asset(a[0]) + enc_asset_list(a.skip(1).push(x)));
        assert(enc_asset_list(a.push(x)) =~= enc_asset_list(a) + enc_asset(x));
    }
}

proof fn lemma_enc_tx_list_push(ts: Seq<Transaction>, x: Transaction)
    ensures
        enc_tx_list(ts.push(x)) == enc_tx_list(ts) + enc_tx(x),
    decreases ts.len(),
{
    if ts.len() == 0 {
        assert(ts.push(x).len() == 1);
        assert(ts.push(x)[0] == x);
        assert(ts.push(x).skip(1) =~= Seq::<Transaction>::empty());
        assert(enc_tx_list(ts.push(x)) == enc_tx(x) + enc_tx_list(ts.push(x).skip(1)));
        assert(enc_tx_list(ts.push(x).skip(1)) == Seq::<u8>::empty());
        assert(enc_tx_list(ts) == Seq::<u8>::empty());
        assert(enc_tx_list(ts.push(x)) =~= enc_tx_list(ts) + enc_tx(x));
    } else {
        assert(ts.push(x)[0] == ts[0]);
        assert(ts.push(x).skip(1) =~= ts.skip(1).push(x));
        lemma_enc_tx_list_push(ts.skip(1), x);
        assert(enc_tx_list(ts.push(x)) == enc_tx(ts[0]) + enc_tx_list(ts.skip(1).push(x)));
        assert(enc_tx_list(ts.push(x)) =~= enc_tx_list(ts) + enc_tx(x));
    }
}

/// Append a transaction's canonical bytes, with `auth` standing in for the
/// authorization field.
fn put_tx_payload(out: &mut Vec<u8>, t: &Transaction, auth: &[u8])
    ensures
        final(out)@ == old(out)@ + enc_tx_payload(*t, auth@),
{
    put_u16(out, t.chain_id.0);
    put_u64(out, t.nonce);
    push_bytes(out, t.from.0.as_slice());
    push_bytes(out, t.to.0.as_slice());
    put_u128(out, t.fee.0);
    put_u64(out, t.assets.len() as u64);
    let ghost mid = out@;
    let mut i: usize = 0;
    while i < t.assets.len()
        invariant
            i <= t.assets@.len(),
            out@ == mid + enc_asset_list(t.assets@.take(i as int)),
        decreases t.assets@.len() - i,
    {
        let (tok, qty) = t.assets[i];
        put_u64(out, tok.0);
        put_u128(out, qty.0);
        proof {
            assert(t.assets@.take(i + 1) =~= t.assets@.take(i as int).push(t.assets@[i as int]));
            lemma_enc_asset_list_push(t.assets@.take(i as int), t.assets@[i as int]);
            assert(out@ =~= mid + enc_asset_list(t.assets@.take(i + 1)));
        }
        i = i + 1;
    }
    proof {
        assert(t.assets@.take(t.assets@.len() as int) =~= t.assets@);
    }
    put_var_bytes(out, auth);
    put_var_bytes(out, t.call_data.as_slice());
    proof {
        assert(out@ =~= old(out)@ + enc_tx_payload(*t, auth@));
    }
}

pub fn encode_transaction(t: &Transaction) -> (r: Vec<u8>)
    ensures
        r@ == enc_tx(*t),
{
    let mut out: Vec<u8> = Vec::new();
    put_tx_payload(&mut out, t, t.auth_data.as_slice());
    proof {
        assert(out@ =~= enc_tx(*t));
    }
    out
}

/// The canonical bytes a sender signs: the transaction with its
/// authorization field empty.
pub fn encode_tx_for_signing(t: &Transaction) -> (r: Vec<u8>)
    ensures
        r@ == enc_tx_signing(*t),
{
    let mut out: Vec<u8> = Vec::new();
    let empty: Vec<u8> = Vec::new();
    put_tx_payload(&mut out, t, empty.as_slice());
    proof {
        assert(out@ =~= enc_tx_signing(*t));
    }
    out
}

pub fn encode_block(b: &Block) -> (r: Vec<u8>)
    ensures
        r@ == enc_block(*b),
{
    let mut out: Vec<u8> = Vec::new();
    let hdr = encode_header(&b.header);
    push_bytes(&mut out, hdr.as_slice());
    put_u64(&mut out, b.transactions.len() as u64);
    let ghost mid = out@;
    let mut i: usize = 0;
    while i < b.transactions.len()
        invariant
            i <= b.transactions@.len(),
            out@ == mid + enc_tx_list(b.transactions@.take(i as int)),
        decreases b.transactions@.len() - i,
    {
        let txe = encode_transaction(&b.transactions[i]);
        push_bytes(&mut out, txe.as_slice());
        proof {
            assert(b.transactions@.take(i + 1) =~= b.transactions@.take(i as int).push(
                b.transactions@[i as int],
            ));
            lemma_enc_tx_list_push(b.transactions@.take(i as int), b.transactions@[i as int]);
            assert(out@ =~= mid + enc_tx_list(b.transactions@.take(i + 1)));
        }
        i = i + 1;
    }
    proof {
        assert(b.transactions@.take(b.transactions@.len() as int) =~= b.transactions@);
    }
    let seal = encode_sealing(&b.seal_info);
    push_bytes(&mut out, seal.as_slice());
    proof {
        assert(out@ =~= enc_block(*b));
    }
    out
}

// ---------------------------------------------------------------------------
// Executable decoders for whole state values.
// ---------------------------------------------------------------------------

pub fn decode_quantity(b: &[u8]) -> (r: Option<Quantity>)
    ensures
        match r {
            Some(q) => dec_quantity(b@) == Some(q.0),
            None => dec_quantity(b@) is None,
        },
{
    if b.len() == 16 {
        Some(Quantity(u128_from_le_bytes(b)))
    } else {
        None
    }
}

/// Relies on core's slice-to-array conversion: the 32 bytes are copied
/// unchanged.
#[verifier::external_body]
fn bytes32_of_slice(s: &[u8]) -> (r: [u8; 32])
    requires
        s@.len() == 32,
    ensures
        r@ == s@,
{
    s.try_into().expect("length was checked")
}

pub fn decode_contract(b: &[u8]) -> (r: Option<ContractCode>)
    ensures
        match r {
            Some(c) => dec_contract(b@) == Some(c.pk_bytes()),
            None => dec_contract(b@) is None,
        },
{
    if b.len() == 33 && b[0] == 0u8 {
        let pk = bytes32_of_slice(slice_subrange(b, 1, 33));
        proof {
            assert(b@.subrange(1, 33) =~= b@.skip(1));
        }
        Some(ContractCode::Ed25519PK(pk))
    } else {
        None
    }
}


// ---------------------------------------------------------------------------
// Decoders for the wire forms. Each decoder accepts exactly the canonical
// encodings: it yields the encoded value on them and nothing on any other
// byte string.
// ---------------------------------------------------------------------------

broadcast use vstd::array::axiom_array_ext_equal;

/// Two adjacent subranges concatenate to the enclosing one.
proof fn lemma_subrange_concat(s: Seq<u8>, a: int, b: int, c: int)
    requires
        0 <= a <= b <= c <= s.len(),
    ensures
        s.subrange(a, c) == s.subrange(a, b) + s.subrange(b, c),
{
    assert(s.subrange(a, c) =~= s.subrange(a, b) + s.subrange(b, c));
}

pub fn decode_netid(b: &[u8]) -> (r: Option<NetId>)
    ensures
        r matches Some(n) ==> b@ == spec_u16_to_le_bytes(n.0),
        forall|n: NetId| b@ == spec_u16_to_le_bytes(n.0) ==> r == Some(n),
{
    proof {
        lemma_auto_spec_u16_to_from_le_bytes();
    }
    if b.len() == 2 {
        Some(NetId(u16_from_le_bytes(b)))
    } else {
        None
    }
}

pub fn decode_tokenid(b: &[u8]) -> (r: Option<TokenId>)
    ensures
        r matches Some(t) ==> b@ == spec_u64_to_le_bytes(t.0),
        forall|t: TokenId| b@ == spec_u64_to_le_bytes(t.0) ==> r == Some(t),
{
    proof {
        lemma_auto_spec_u64_to_from_le_bytes();
    }
    if b.len() == 8 {
        Some(TokenId(u64_from_le_bytes(b)))
    } else {
        None
    }
}

pub fn decode_address(b: &[u8]) -> (r: Option<Address>)
    ensures
        r matches Some(a) ==> b@ == a@,
        forall|a: Address| b@ == a@ ==> (r matches Some(a2) && a2 == a),
{
    if b.len() == 32 {
        let a = Address(bytes32_of_slice(b));
        proof {
            assert forall|x: Address| b@ == x@ implies a == x by {
                assert(a.0 =~= x.0);
            }
        }
        Some(a)
    } else {
        None
    }
}

pub fn decode_hashval(b: &[u8]) -> (r: Option<HashVal>)
    ensures
        r matches Some(h) ==> b@ == h@,
        forall|h: HashVal| b@ == h@ ==> (r matches Some(h2) && h2 == h),
{
    if b.len() == 32 {
        let h = HashVal(bytes32_of_slice(b));
        proof {
            assert forall|x: HashVal| b@ == x@ implies h == x by {
                assert(h.0 =~= x.0);
            }
        }
        Some(h)
    } else {
        None
    }
}

/// Decode a header from exactly its 90 canonical bytes.
pub fn decode_header(b: &[u8]) -> (r: Option<Header>)
    ensures
        r matches Some(h) ==> b@ == enc_header(h),
        forall|h: Header| b@ == enc_header(h) ==> (r matches Some(h2) && h2 == h),
{
    proof {
        lemma_auto_spec_u16_to_from_le_bytes();
        lemma_auto_spec_u64_to_from_le_bytes();
        lemma_auto_spec_u128_to_from_le_bytes();
    }
    if b.len() != 90 {
        proof {
            assert forall|h: Header| b@ != enc_header(h) by {
                assert(enc_header(h).len() == 90);
            }
        }
        return None;
    }
    let chain_id = NetId(u16_from_le_bytes(slice_subrange(b, 0, 2)));
    let prev = HashVal(bytes32_of_slice(slice_subrange(b, 2, 34)));
    let height = u64_from_le_bytes(slice_subrange(b, 34, 42));
    let gas_price = Quantity(u128_from_le_bytes(slice_subrange(b, 42, 58)));
    let state = HashVal(bytes32_of_slice(slice_subrange(b, 58, 90)));
    let h = Header { chain_id, prev, height, gas_price, state };
    proof {
        assert(enc_header(h) =~= b@);
        assert forall|x: Header| b@ == enc_header(x) implies h == x by {
            assert(enc_header(x).subrange(0, 2) =~= spec_u16_to_le_bytes(x.chain_id.0));
            assert(enc_header(x).subrange(2, 34) =~= x.prev@);
            assert(enc_header(x).subrange(34, 42) =~= spec_u64_to_le_bytes(x.height));
            assert(enc_header(x).subrange(42, 58) =~= spec_u128_to_le_bytes(x.gas_price.0));
            assert(enc_header(x).subrange(58, 90) =~= x.state@);
            assert(h.prev.0 =~= x.prev.0);
            assert(h.state.0 =~= x.state.0);
        }
    }
    Some(h)
}

/// Decode sealing info from exactly its 48 canonical bytes.
pub fn decode_sealing(b: &[u8]) -> (r: Option<SealingInfo>)
    ensures
        r matches Some(s) ==> b@ == enc_sealing(s),
        forall|s: SealingInfo| b@ == enc_sealing(s) ==> (r matches Some(s2) && s2 == s),
{
    proof {
        lemma_auto_spec_u128_to_from_le_bytes();
    }
    if b.len() != 48 {
        proof {
            assert forall|s: SealingInfo| b@ != enc_sealing(s) by {
                assert(enc_sealing(s).len() == 48);
            }
        }
        return None;
    }
    let proposer = Address(bytes32_of_slice(slice_subrange(b, 0, 32)));
    let new_gas_price = Quantity(u128_from_le_bytes(slice_subrange(b, 32, 48)));
    let si = SealingInfo { proposer, new_gas_price };
    proof {
        assert(enc_sealing(si) =~= b@);
        assert forall|x: SealingInfo| b@ == enc_sealing(x) implies si == x by {
            assert(enc_sealing(x).subrange(0, 32) =~= x.proposer@);
            assert(enc_sealing(x).subrange(32, 48) =~= spec_u128_to_le_bytes(x.new_gas_price.0));
            assert(si.proposer.0 =~= x.proposer.0);
        }
    }
    Some(si)
}

/// Round trip: decoding any value's canonical bytes yields the value back,
/// for the fixed-width wire forms.
pub proof fn lemma_header_enc_injective(a: Header, b: Header)
    requires
        enc_header(a) == enc_header(b),
    ensures
        a == b,
{
    lemma_auto_spec_u16_to_from_le_bytes();
    lemma_auto_spec_u64_to_from_le_bytes();
    lemma_auto_spec_u128_to_from_le_bytes();
    assert(enc_header(a).subrange(0, 2) =~= spec_u16_to_le_bytes(a.chain_id.0));
    assert(enc_header(b).subrange(0, 2) =~= spec_u16_to_le_bytes(b.chain_id.0));
    assert(enc_header(a).subrange(2, 34) =~= a.prev@);
    assert(enc_header(b).subrange(2, 34) =~= b.prev@);
    assert(enc_header(a).subrange(34, 42) =~= spec_u64_to_le_bytes(a.height));
    assert(enc_header(b).subrange(34, 42) =~= spec_u64_to_le_bytes(b.height));
    assert(enc_header(a).subrange(42, 58) =~= spec_u128_to_le_bytes(a.gas_price.0));
    assert(enc_header(b).subrange(42, 58) =~= spec_u128_to_le_bytes(b.gas_price.0));
    assert(enc_header(a).subrange(58, 90) =~= a.state@);
    assert(enc_header(b).subrange(58, 90) =~= b.state@);
    assert(spec_u16_from_le_bytes(spec_u16_to_le_bytes(a.chain_id.0)) == a.chain_id.0);
    assert(spec_u16_from_le_bytes(spec_u16_to_le_bytes(b.chain_id.0)) == b.chain_id.0);
    assert(a.prev.0 =~= b.prev.0);
    assert(a.state.0 =~= b.state.0);
}


// ---------------------------------------------------------------------------
// Streaming decoders: a cursor over the buffer, one take per wire field.
// ---------------------------------------------------------------------------

/// The token ids of an asset list strictly ascend.
pub open spec fn sorted_assets(s: Seq<(TokenId, Quantity)>) -> bool {
    forall|i: int, j: int| 0 <= i < j < s.len() ==> s[i].0.0 < s[j].0.0
}

/// A canonical asset map sits at `pos` in `b` and fits.
pub open spec fn assets_hyp(b: Seq<u8>, pos: int, s: Seq<(TokenId, Quantity)>) -> bool {
    &&& sorted_assets(s)
    &&& pos + enc_assets(s).len() <= b.len()
    &&& b.subrange(pos, pos + enc_assets(s).len()) == enc_assets(s)
}

/// A canonical transaction sits at `pos` in `b` and fits.
pub open spec fn tx_hyp(b: Seq<u8>, pos: int, t: Transaction) -> bool {
    &&& t.wf()
    &&& pos + enc_tx(t).len() <= b.len()
    &&& b.subrange(pos, pos + enc_tx(t).len()) == enc_tx(t)
}

proof fn lemma_enc_asset_list_concat(a: Seq<(TokenId, Quantity)>, b: Seq<(TokenId, Quantity)>)
    ensures
        enc_asset_list(a + b) == enc_asset_list(a) + enc_asset_list(b),
    decreases a.len(),
{
    if a.len() == 0 {
        assert(a + b =~= b);
        assert(enc_asset_list(a) == Seq::<u8>::empty());
        assert(enc_asset_list(a + b) =~= enc_asset_list(a) + enc_asset_list(b));
    } else {
        assert((a + b)[0] == a[0]);
        assert((a + b).skip(1) =~= a.skip(1) + b);
        lemma_enc_asset_list_concat(a.skip(1), b);
        assert(enc_asset_list(a + b) =~= enc_asset_list(a) + enc_asset_list(b));
    }
}

proof fn lemma_enc_asset_list_len(s: Seq<(TokenId, Quantity)>)
    ensures
        enc_asset_list(s).len() == 24 * s.len(),
    decreases s.len(),
{
    lemma_auto_spec_u64_to_from_le_bytes();
    lemma_auto_spec_u128_to_from_le_bytes();
    if s.len() > 0 {
        lemma_enc_asset_list_len(s.skip(1));
    }
}

/// A subrange of a subrange, re-based on the outer sequence.
proof fn lemma_sub_sub(s: Seq<u8>, p: int, q: int, a: int, b: int)
    requires
        0 <= p <= q <= s.len(),
        0 <= a <= b <= q - p,
    ensures
        s.subrange(p + a, p + b) == s.subrange(p, q).subrange(a, b),
{
    assert(s.subrange(p + a, p + b) =~= s.subrange(p, q).subrange(a, b));
}

proof fn lemma_enc_tx_list_concat(a: Seq<Transaction>, b: Seq<Transaction>)
    ensures
        enc_tx_list(a + b) == enc_tx_list(a) + enc_tx_list(b),
    decreases a.len(),
{
    if a.len() == 0 {
        assert(a + b =~= b);
        assert(enc_tx_list(a) == Seq::<u8>::empty());
        assert(enc_tx_list(a + b) =~= enc_tx_list(a) + enc_tx_list(b));
    } else {
        assert((a + b)[0] == a[0]);
        assert((a + b).skip(1) =~= a.skip(1) + b);
        lemma_enc_tx_list_concat(a.skip(1), b);
        assert(enc_tx_list(a + b) =~= enc_tx_list(a) + enc_tx_list(b));
    }
}

/// Decode a count-prefixed asset map at `pos`; accept only strictly
/// ascending token ids, so each map has exactly one accepted encoding.
fn take_assets(b: &[u8], pos: usize) -> (r: Option<(Vec<(TokenId, Quantity)>, usize)>)
    requires
        pos <= b@.len(),
    ensures
        r matches Some((v, end)) ==> pos <= end <= b@.len() && sorted_assets(v@) && end as int
            == pos + enc_assets(v@).len() && b@.subrange(pos as int, end as int) == enc_assets(
            v@,
        ),
        forall|s: Seq<(TokenId, Quantity)>| #[trigger]
            assets_hyp(b@, pos as int, s) ==> match r {
                Some((v, end)) => v@ == s && end as int == pos + enc_assets(s).len(),
                None => false,
            },
{
    proof {
        lemma_auto_spec_u64_to_from_le_bytes();
        lemma_auto_spec_u128_to_from_le_bytes();
        assert forall|s: Seq<(TokenId, Quantity)>| #[trigger]
            assets_hyp(b@, pos as int, s) implies {
            &&& enc_assets(s).len() == 8 + 24 * s.len()
            &&& b@.subrange(pos as int, pos + 8) == spec_u64_to_le_bytes(s.len() as u64)
        } by {
            lemma_enc_asset_list_len(s);
            let ls = enc_assets(s).len() as int;
            lemma_sub_sub(b@, pos as int, pos + ls, 0, 8);
            assert(enc_assets(s).subrange(0, 8) =~= spec_u64_to_le_bytes(s.len() as u64));
        }
    }
    if b.len() - pos < 8 {
        return None;
    }
    let n = u64_from_le_bytes(slice_subrange(b, pos, pos + 8));
    let p1 = pos + 8;
    if n > ((b.len() - p1) / 24) as u64 {
        proof {
            assert forall|s: Seq<(TokenId, Quantity)>| !assets_hyp(b@, pos as int, s) by {
                if assets_hyp(b@, pos as int, s) {
                    lemma_enc_asset_list_len(s);
                    assert(s.len() as u64 == n);
                }
            }
        }
        return None;
    }
    let count = n as usize;
    proof {
        vstd::arithmetic::div_mod::lemma_fundamental_div_mod((b@.len() - p1) as int, 24);
    }
    let mut v: Vec<(TokenId, Quantity)> = Vec::new();
    let mut cur = p1;
    let mut last: u64 = 0;
    let mut i: usize = 0;
    while i < count
        invariant
            pos + 8 == p1,
            b@.len() <= usize::MAX,
            p1 + 24 * count <= b@.len(),
            count == n,
            i <= count,
            cur == p1 + 24 * i,
            v@.len() == i,
            sorted_assets(v@),
            i > 0 ==> v@[i - 1].0.0 == last,
            b@.subrange(p1 as int, cur as int) == enc_asset_list(v@),
            b@.subrange(pos as int, pos + 8) == spec_u64_to_le_bytes(n),
            forall|s: Seq<(TokenId, Quantity)>| #[trigger]
                assets_hyp(b@, pos as int, s) ==> s.len() == n && v@ == s.take(i as int),
        decreases count - i,
    {
        let tok = u64_from_le_bytes(slice_subrange(b, cur, cur + 8));
        let qty = u128_from_le_bytes(slice_subrange(b, cur + 8, cur + 24));
        proof {
            lemma_auto_spec_u64_to_from_le_bytes();
            lemma_auto_spec_u128_to_from_le_bytes();
            assert forall|s: Seq<(TokenId, Quantity)>| #[trigger]
                assets_hyp(b@, pos as int, s) implies s[i as int].0.0 == tok && s[i as int].1.0
                == qty by {
                lemma_enc_asset_list_len(s);
                lemma_enc_asset_list_len(s.take(i as int));
                assert(s =~= s.take(i as int) + s.skip(i as int));
                lemma_enc_asset_list_concat(s.take(i as int), s.skip(i as int));
                assert(s.skip(i as int)[0] == s[i as int]);
                let ls = enc_assets(s).len() as int;
                // the list bytes are the encoding minus its count prefix
                lemma_sub_sub(b@, pos as int, pos + ls, 8, ls);
                assert(enc_assets(s).subrange(8, ls) =~= enc_asset_list(s));
                assert(b@.subrange(p1 as int, pos + ls) == enc_asset_list(s));
                // the bytes of entry i sit at cur .. cur + 24
                assert(enc_asset_list(s).subrange(24 * i, 24 * i + 8) =~= spec_u64_to_le_bytes(
                    s[i as int].0.0,
                ));
                assert(enc_asset_list(s).subrange(24 * i + 8, 24 * i + 24)
                    =~= spec_u128_to_le_bytes(s[i as int].1.0));
                lemma_sub_sub(b@, p1 as int, pos + ls, 24 * i, 24 * i + 8);
                lemma_sub_sub(b@, p1 as int, pos + ls, 24 * i + 8, 24 * i + 24);
                assert(b@.subrange(cur as int, cur + 8) == enc_asset_list(s).subrange(
                    24 * i,
                    24 * i + 8,
                ));
                assert(b@.subrange(cur + 8, cur + 24) == enc_asset_list(s).subrange(
                    24 * i + 8,
                    24 * i + 24,
                ));
            }
        }
        if i > 0 && last >= tok {
            proof {
                assert forall|s: Seq<(TokenId, Quantity)>| !assets_hyp(b@, pos as int, s) by {
                    if assets_hyp(b@, pos as int, s) {
                        assert(s.take(i as int)[i - 1] == s[i - 1]);
                        assert(s[i - 1].0.0 < s[i as int].0.0);
                    }
                }
            }
            return None;
        }
        let ghost v_old = v@;
        v.push((TokenId(tok), Quantity(qty)));
        proof {
            lemma_enc_asset_list_push(v_old, (TokenId(tok), Quantity(qty)));
            lemma_subrange_concat(b@, p1 as int, cur as int, cur + 24);
            lemma_subrange_concat(b@, cur as int, cur + 8, cur + 24);
            assert(b@.subrange(cur as int, cur + 24) =~= spec_u64_to_le_bytes(tok)
                + spec_u128_to_le_bytes(qty));
            assert(b@.subrange(p1 as int, cur + 24) == enc_asset_list(v@));
            assert forall|s: Seq<(TokenId, Quantity)>| #[trigger]
                assets_hyp(b@, pos as int, s) implies v@ == s.take(i + 1) by {
                assert(s.take(i + 1) =~= s.take(i as int).push(s[i as int]));
            }
            assert(sorted_assets(v@)) by {
                assert(forall|k: int| 0 <= k < v_old.len() ==> v@[k] == v_old[k]);
                assert(v@[v@.len() - 1].0.0 == tok);
            }
        }
        last = tok;
        cur = cur + 24;
        i = i + 1;
    }
    proof {
        assert(v@.len() as u64 == n);
        lemma_subrange_concat(b@, pos as int, p1 as int, cur as int);
        assert(b@.subrange(pos as int, cur as int) =~= spec_u64_to_le_bytes(v@.len() as u64)
            + enc_asset_list(v@));
        lemma_enc_asset_list_len(v@);
        assert forall|s: Seq<(TokenId, Quantity)>| #[trigger]
            assets_hyp(b@, pos as int, s) implies v@ == s && cur as int == pos + enc_assets(
            s,
        ).len() by {
            assert(s.take(s.len() as int) =~= s);
            lemma_enc_asset_list_len(s);
        }
    }
    Some((v, cur))
}


/// Two transactions with the same fields have the same canonical bytes.
proof fn lemma_enc_tx_eqv(a: Transaction, b: Transaction)
    requires
        tx_eqv(a, b),
    ensures
        enc_tx(a) == enc_tx(b),
{
}

/// Decode a length-prefixed byte string at `pos`.
fn take_var(b: &[u8], pos: usize) -> (r: Option<(Vec<u8>, usize)>)
    requires
        pos <= b@.len(),
    ensures
        r matches Some((v, end)) ==> pos <= end <= b@.len() && end as int == pos + 8 + v@.len()
            && b@.subrange(pos as int, end as int) == enc_bytes(v@) && v@ == b@.subrange(
            pos + 8,
            end as int,
        ),
        r is None ==> (b@.len() < pos + 8 || pos + 8 + spec_u64_from_le_bytes(
            b@.subrange(pos as int, pos + 8),
        ) > b@.len()),
{
    proof {
        lemma_auto_spec_u64_to_from_le_bytes();
    }
    if b.len() - pos < 8 {
        return None;
    }
    let n = u64_from_le_bytes(slice_subrange(b, pos, pos + 8));
    let p1 = pos + 8;
    if n > (b.len() - p1) as u64 {
        return None;
    }
    let end = p1 + (n as usize);
    let v = slice_to_vec(slice_subrange(b, p1, end));
    proof {
        lemma_subrange_concat(b@, pos as int, p1 as int, end as int);
        assert(b@.subrange(pos as int, end as int) =~= enc_bytes(v@));
    }
    Some((v, end))
}

proof fn lemma_enc_tx_min_len(t: Transaction)
    ensures
        enc_tx(t).len() >= 114,
        enc_tx(t).len() == 90 + enc_assets(t.assets@).len() + enc_bytes(t.auth_data@).len()
            + enc_bytes(t.call_data@).len(),
{
    lemma_auto_spec_u16_to_from_le_bytes();
    lemma_auto_spec_u64_to_from_le_bytes();
    lemma_auto_spec_u128_to_from_le_bytes();
    lemma_enc_asset_list_len(t.assets@);
}

/// Decode one transaction at `pos`.
fn take_tx(b: &[u8], pos: usize) -> (r: Option<(Transaction, usize)>)
    requires
        pos <= b@.len(),
    ensures
        r matches Some((t, end)) ==> pos <= end <= b@.len() && t.wf() && end as int == pos
            + enc_tx(t).len() && b@.subrange(pos as int, end as int) == enc_tx(t),
        forall|x: Transaction| #[trigger]
            tx_hyp(b@, pos as int, x) ==> match r {
                Some((t, end)) => tx_eqv(t, x) && end as int == pos + enc_tx(x).len(),
                None => false,
            },
{
    proof {
        lemma_auto_spec_u16_to_from_le_bytes();
        lemma_auto_spec_u64_to_from_le_bytes();
        lemma_auto_spec_u128_to_from_le_bytes();
        assert forall|x: Transaction| #[trigger]
            tx_hyp(b@, pos as int, x) implies {
            let lx = enc_tx(x).len() as int;
            &&& lx >= 114
            &&& b@.subrange(pos as int, pos + 2) == spec_u16_to_le_bytes(x.chain_id.0)
            &&& b@.subrange(pos + 2, pos + 10) == spec_u64_to_le_bytes(x.nonce)
            &&& b@.subrange(pos + 10, pos + 42) == x.from@
            &&& b@.subrange(pos + 42, pos + 74) == x.to@
            &&& b@.subrange(pos + 74, pos + 90) == spec_u128_to_le_bytes(x.fee.0)
            &&& assets_hyp(b@, pos + 90, x.assets@)
        } by {
            let lx = enc_tx(x).len() as int;
            let la = enc_assets(x.assets@).len() as int;
            lemma_enc_tx_min_len(x);
            lemma_sub_sub(b@, pos as int, pos + lx, 0, 2);
            lemma_sub_sub(b@, pos as int, pos + lx, 2, 10);
            lemma_sub_sub(b@, pos as int, pos + lx, 10, 42);
            lemma_sub_sub(b@, pos as int, pos + lx, 42, 74);
            lemma_sub_sub(b@, pos as int, pos + lx, 74, 90);
            lemma_sub_sub(b@, pos as int, pos + lx, 90, 90 + la);
            assert(enc_tx(x).subrange(0, 2) =~= spec_u16_to_le_bytes(x.chain_id.0));
            assert(enc_tx(x).subrange(2, 10) =~= spec_u64_to_le_bytes(x.nonce));
            assert(enc_tx(x).subrange(10, 42) =~= x.from@);
            assert(enc_tx(x).subrange(42, 74) =~= x.to@);
            assert(enc_tx(x).subrange(74, 90) =~= spec_u128_to_le_bytes(x.fee.0));
            assert(enc_tx(x).subrange(90, 90 + la) =~= enc_assets(x.assets@));
        }
    }
    if b.len() - pos < 90 {
        return None;
    }
    let chain_id = NetId(u16_from_le_bytes(slice_subrange(b, pos, pos + 2)));
    let nonce = u64_from_le_bytes(slice_subrange(b, pos + 2, pos + 10));
    let from = Address(bytes32_of_slice(slice_subrange(b, pos + 10, pos + 42)));
    let to = Address(bytes32_of_slice(slice_subrange(b, pos + 42, pos + 74)));
    let fee = Quantity(u128_from_le_bytes(slice_subrange(b, pos + 74, pos + 90)));
    let (assets, a1) = match take_assets(b, pos + 90) {
        Some(x) => x,
        None => {
            return None;
        },
    };
    proof {
        assert forall|x: Transaction| #[trigger]
            tx_hyp(b@, pos as int, x) implies {
            let la = enc_assets(x.assets@).len() as int;
            let lu = enc_bytes(x.auth_data@).len() as int;
            &&& a1 as int == pos + 90 + la
            &&& b@.subrange(a1 as int, a1 + lu) == enc_bytes(x.auth_data@)
            &&& a1 + lu + enc_bytes(x.call_data@).len() <= b@.len()
            &&& b@.subrange(a1 + lu, a1 + lu + enc_bytes(x.call_data@).len() as int) == enc_bytes(
                x.call_data@,
            )
        } by {
            let lx = enc_tx(x).len() as int;
            let la = enc_assets(x.assets@).len() as int;
            let lu = enc_bytes(x.auth_data@).len() as int;
            let lc = enc_bytes(x.call_data@).len() as int;
            lemma_enc_tx_min_len(x);
            lemma_sub_sub(b@, pos as int, pos + lx, 90 + la, 90 + la + lu);
            lemma_sub_sub(b@, pos as int, pos + lx, 90 + la + lu, 90 + la + lu + lc);
            assert(enc_tx(x).subrange(90 + la, 90 + la + lu) =~= enc_bytes(x.auth_data@));
            assert(enc_tx(x).subrange(90 + la + lu, 90 + la + lu + lc) =~= enc_bytes(
                x.call_data@,
            ));
        }
    }
    let (auth_data, a2) = match take_var(b, a1) {
        Some(x) => x,
        None => {
            proof {
                assert forall|x: Transaction| !tx_hyp(b@, pos as int, x) by {
                    if tx_hyp(b@, pos as int, x) {
                        let lu = enc_bytes(x.auth_data@).len() as int;
                        lemma_sub_sub(b@, a1 as int, a1 + lu, 0, 8);
                        assert(enc_bytes(x.auth_data@).subrange(0, 8) =~= spec_u64_to_le_bytes(
                            x.auth_data@.len() as u64,
                        ));
                    }
                }
            }
            return None;
        },
    };
    proof {
        // the authorization bytes taken are exactly the hypothetical field,
        // so the call-data field starts where the next take reads
        assert forall|x: Transaction| #[trigger]
            tx_hyp(b@, pos as int, x) implies {
            let lc = enc_bytes(x.call_data@).len() as int;
            &&& auth_data@ == x.auth_data@
            &&& a2 as int == a1 + enc_bytes(x.auth_data@).len()
            &&& b@.subrange(a2 as int, a2 + lc) == enc_bytes(x.call_data@)
            &&& a2 + lc <= b@.len()
        } by {
            let lu = enc_bytes(x.auth_data@).len() as int;
            let lc = enc_bytes(x.call_data@).len() as int;
            lemma_sub_sub(b@, a1 as int, a1 + lu, 0, 8);
            assert(enc_bytes(x.auth_data@).subrange(0, 8) =~= spec_u64_to_le_bytes(
                x.auth_data@.len() as u64,
            ));
            assert(b@.subrange(a1 as int, a1 + 8) == spec_u64_to_le_bytes(
                x.auth_data@.len() as u64,
            ));
            assert(b@.subrange(a1 as int, a1 + 8) == spec_u64_to_le_bytes(
                auth_data@.len() as u64,
            )) by {
                lemma_sub_sub(b@, a1 as int, a2 as int, 0, 8);
                assert(enc_bytes(auth_data@).subrange(0, 8) =~= spec_u64_to_le_bytes(
                    auth_data@.len() as u64,
                ));
            }
            assert(auth_data@.len() == x.auth_data@.len());
            lemma_sub_sub(b@, a1 as int, a1 + lu, 8, lu);
            assert(enc_bytes(x.auth_data@).subrange(8, lu) =~= x.auth_data@);
            assert(auth_data@ == b@.subrange(a1 + 8, a2 as int));
        }
    }
    let (call_data, a3) = match take_var(b, a2) {
        Some(x) => x,
        None => {
            proof {
                assert forall|x: Transaction| !tx_hyp(b@, pos as int, x) by {
                    if tx_hyp(b@, pos as int, x) {
                        let lc = enc_bytes(x.call_data@).len() as int;
                        lemma_sub_sub(b@, a2 as int, a2 + lc, 0, 8);
                        assert(enc_bytes(x.call_data@).subrange(0, 8) =~= spec_u64_to_le_bytes(
                            x.call_data@.len() as u64,
                        ));
                    }
                }
            }
            return None;
        },
    };
    let t = Transaction { chain_id, nonce, from, to, fee, assets, auth_data, call_data };
    proof {
        lemma_enc_tx_min_len(t);
        assert(b@.subrange(pos as int, a3 as int) =~= enc_tx(t));
        assert forall|x: Transaction| #[trigger]
            tx_hyp(b@, pos as int, x) implies tx_eqv(t, x) && a3 as int == pos + enc_tx(
            x,
        ).len() by {
            let lc = enc_bytes(x.call_data@).len() as int;
            assert(t.from.0 =~= x.from.0);
            assert(t.to.0 =~= x.to.0);
            lemma_sub_sub(b@, a2 as int, a2 + lc, 8, lc);
            assert(enc_bytes(x.call_data@).subrange(8, lc) =~= x.call_data@);
            assert(b@.subrange(a2 as int, a2 + lc) == enc_bytes(x.call_data@));
            assert(b@.subrange(a2 as int, a2 + lc).subrange(8, lc) == x.call_data@);
            assert(b@.subrange(a2 as int, a3 as int).subrange(8, a3 - a2) =~= call_data@) by {
                lemma_sub_sub(b@, a2 as int, a3 as int, 8, a3 - a2);
            }
            assert(b@.subrange(a2 as int, a2 + 8) == spec_u64_to_le_bytes(
                x.call_data@.len() as u64,
            )) by {
                lemma_sub_sub(b@, a2 as int, a2 + lc, 0, 8);
                assert(enc_bytes(x.call_data@).subrange(0, 8) =~= spec_u64_to_le_bytes(
                    x.call_data@.len() as u64,
                ));
            }
            assert(b@.subrange(a2 as int, a2 + 8) == spec_u64_to_le_bytes(
                call_data@.len() as u64,
            )) by {
                lemma_sub_sub(b@, a2 as int, a3 as int, 0, 8);
                assert(enc_bytes(call_data@).subrange(0, 8) =~= spec_u64_to_le_bytes(
                    call_data@.len() as u64,
                ));
            }
            assert(call_data@.len() == x.call_data@.len());
            assert(call_data@ == b@.subrange(a2 + 8, a3 as int));
            assert(x.call_data@ == b@.subrange(a2 + 8, a2 + lc));
            lemma_enc_tx_min_len(x);
        }
    }
    Some((t, a3))
}

/// A canonical transaction sequence, count-prefixed, sits at `pos` in `b`.
pub open spec fn txs_hyp(b: Seq<u8>, pos: int, s: Seq<Transaction>) -> bool {
    &&& forall|i: int| 0 <= i < s.len() ==> (#[trigger] s[i]).wf()
    &&& pos + enc_txs(s).len() <= b.len()
    &&& b.subrange(pos, pos + enc_txs(s).len()) == enc_txs(s)
}

proof fn lemma_enc_tx_list_min_len(s: Seq<Transaction>)
    ensures
        enc_tx_list(s).len() >= s.len(),
    decreases s.len(),
{
    if s.len() > 0 {
        lemma_enc_tx_min_len(s[0]);
        lemma_enc_tx_list_min_len(s.skip(1));
    }
}

/// Decode a count-prefixed transaction sequence at `pos`.
fn take_txs(b: &[u8], pos: usize) -> (r: Option<(Vec<Transaction>, usize)>)
    requires
        pos <= b@.len(),
    ensures
        r matches Some((v, end)) ==> pos <= end <= b@.len() && end as int == pos + enc_txs(
            v@,
        ).len() && b@.subrange(pos as int, end as int) == enc_txs(v@) && forall|i: int|
            0 <= i < v@.len() ==> (#[trigger] v@[i]).wf(),
        forall|s: Seq<Transaction>| #[trigger]
            txs_hyp(b@, pos as int, s) ==> match r {
                Some((v, end)) => txs_eqv(v@, s) && end as int == pos + enc_txs(s).len(),
                None => false,
            },
{
    proof {
        lemma_auto_spec_u64_to_from_le_bytes();
        assert forall|s: Seq<Transaction>| #[trigger]
            txs_hyp(b@, pos as int, s) implies {
            &&& enc_txs(s).len() == 8 + enc_tx_list(s).len()
            &&& enc_tx_list(s).len() >= s.len()
            &&& b@.subrange(pos as int, pos + 8) == spec_u64_to_le_bytes(s.len() as u64)
        } by {
            lemma_enc_tx_list_min_len(s);
            let ls = enc_txs(s).len() as int;
            lemma_sub_sub(b@, pos as int, pos + ls, 0, 8);
            assert(enc_txs(s).subrange(0, 8) =~= spec_u64_to_le_bytes(s.len() as u64));
        }
    }
    if b.len() - pos < 8 {
        return None;
    }
    let n = u64_from_le_bytes(slice_subrange(b, pos, pos + 8));
    let p1 = pos + 8;
    if n > (b.len() - p1) as u64 {
        return None;
    }
    let count = n as usize;
    let mut v: Vec<Transaction> = Vec::new();
    let mut cur = p1;
    let mut i: usize = 0;
    while i < count
        invariant
            pos + 8 == p1,
            p1 <= cur <= b@.len(),
            b@.len() <= usize::MAX,
            count == n,
            i <= count,
            v@.len() == i,
            forall|j: int| 0 <= j < v@.len() ==> (#[trigger] v@[j]).wf(),
            cur as int == p1 + enc_tx_list(v@).len(),
            b@.subrange(p1 as int, cur as int) == enc_tx_list(v@),
            b@.subrange(pos as int, pos + 8) == spec_u64_to_le_bytes(n),
            forall|s: Seq<Transaction>| #[trigger]
                txs_hyp(b@, pos as int, s) ==> s.len() == n && txs_eqv(v@, s.take(i as int))
                    && enc_tx_list(v@) == enc_tx_list(s.take(i as int)),
        decreases count - i,
    {
        proof {
            assert forall|s: Seq<Transaction>| #[trigger]
                txs_hyp(b@, pos as int, s) implies tx_hyp(b@, cur as int, s[i as int]) by {
                let ls = enc_txs(s).len() as int;
                let lpre = enc_tx_list(s.take(i as int)).len() as int;
                let lt = enc_tx(s[i as int]).len() as int;
                assert(s =~= s.take(i as int) + s.skip(i as int));
                lemma_enc_tx_list_concat(s.take(i as int), s.skip(i as int));
                assert(s.skip(i as int)[0] == s[i as int]);
                assert(enc_tx_list(s.skip(i as int)) == enc_tx(s[i as int]) + enc_tx_list(
                    s.skip(i as int).skip(1),
                ));
                lemma_sub_sub(b@, pos as int, pos + ls, 8 + lpre, 8 + lpre + lt);
                assert(enc_txs(s).subrange(8 + lpre, 8 + lpre + lt) =~= enc_tx(s[i as int]));
                assert(cur as int == pos + 8 + lpre);
            }
        }
        let txn = match take_tx(b, cur) {
            Some(x) => x,
            None => {
                proof {
                    assert forall|s: Seq<Transaction>| !txs_hyp(b@, pos as int, s) by {
                        if txs_hyp(b@, pos as int, s) {
                            assert(tx_hyp(b@, cur as int, s[i as int]));
                        }
                    }
                }
                return None;
            },
        };
        let (t, end) = txn;
        let ghost v_old = v@;
        v.push(t);
        proof {
            lemma_enc_tx_list_push(v_old, t);
            lemma_subrange_concat(b@, p1 as int, cur as int, end as int);
            assert(b@.subrange(p1 as int, end as int) == enc_tx_list(v@));
            assert forall|s: Seq<Transaction>| #[trigger]
                txs_hyp(b@, pos as int, s) implies txs_eqv(v@, s.take(i + 1)) && enc_tx_list(v@)
                == enc_tx_list(s.take(i + 1)) by {
                assert(tx_hyp(b@, cur as int, s[i as int]));
                assert(tx_eqv(t, s[i as int]));
                lemma_enc_tx_eqv(t, s[i as int]);
                assert(s.take(i + 1) =~= s.take(i as int).push(s[i as int]));
                lemma_enc_tx_list_push(s.take(i as int), s[i as int]);
                assert forall|j: int| 0 <= j < v@.len() implies tx_eqv(
                    v@[j],
                    s.take(i + 1)[j],
                ) by {
                    if j < v_old.len() {
                        assert(tx_eqv(v_old[j], s.take(i as int)[j]));
                        assert(s.take(i + 1)[j] == s.take(i as int)[j]);
                    }
                }
            }
        }
        cur = end;
        i = i + 1;
    }
    proof {
        assert(v@.len() as u64 == n);
        lemma_subrange_concat(b@, pos as int, p1 as int, cur as int);
        assert(b@.subrange(pos as int, cur as int) =~= spec_u64_to_le_bytes(v@.len() as u64)
            + enc_tx_list(v@));
        assert forall|s: Seq<Transaction>| #[trigger]
            txs_hyp(b@, pos as int, s) implies txs_eqv(v@, s) && cur as int == pos + enc_txs(
            s,
        ).len() by {
            assert(s.take(s.len() as int) =~= s);
        }
    }
    Some((v, cur))
}

/// Decode a transaction from exactly its canonical bytes.
pub fn decode_transaction(b: &[u8]) -> (r: Option<Transaction>)
    ensures
        r matches Some(t) ==> t.wf() && b@ == enc_tx(t),
        forall|x: Transaction|
            x.wf() && b@ == enc_tx(x) ==> (r matches Some(t) && tx_eqv(t, x)),
{
    proof {
        assert forall|x: Transaction| x.wf() && b@ == enc_tx(x) implies tx_hyp(b@, 0, x) by {
            assert(b@.subrange(0, enc_tx(x).len() as int) =~= enc_tx(x));
        }
    }
    match take_tx(b, 0) {
        Some((t, end)) => {
            if end == b.len() {
                proof {
                    assert(b@.subrange(0, b@.len() as int) =~= b@);
                }
                Some(t)
            } else {
                proof {
                    assert forall|x: Transaction| !(x.wf() && b@ == enc_tx(x)) by {
                        if x.wf() && b@ == enc_tx(x) {
                            assert(tx_hyp(b@, 0, x));
                        }
                    }
                }
                None
            }
        },
        None => None,
    }
}

/// Decode a block from exactly its canonical bytes.
pub fn decode_block(b: &[u8]) -> (r: Option<Block>)
    ensures
        r matches Some(bl) ==> bl.wf() && b@ == enc_block(bl),
        forall|x: Block|
            x.wf() && b@ == enc_block(x) ==> (r matches Some(y) && y.header == x.header
                && txs_eqv(y.transactions@, x.transactions@) && y.seal_info == x.seal_info),
{
    proof {
        lemma_auto_spec_u16_to_from_le_bytes();
        lemma_auto_spec_u64_to_from_le_bytes();
        lemma_auto_spec_u128_to_from_le_bytes();
        assert forall|x: Block| x.wf() && b@ == enc_block(x) implies {
            &&& b@.len() >= 90 + 8 + 48
            &&& b@.subrange(0, 90) == enc_header(x.header)
            &&& txs_hyp(b@, 90, x.transactions@)
            &&& b@.subrange(90 + enc_txs(x.transactions@).len() as int, b@.len() as int)
                == enc_sealing(x.seal_info)
            &&& b@.len() == 90 + enc_txs(x.transactions@).len() + 48
        } by {
            let lt = enc_txs(x.transactions@).len() as int;
            lemma_enc_tx_list_min_len(x.transactions@);
            assert(enc_block(x).subrange(0, 90) =~= enc_header(x.header));
            assert(enc_block(x).subrange(90, 90 + lt) =~= enc_txs(x.transactions@));
            assert(enc_block(x).subrange(90 + lt, enc_block(x).len() as int) =~= enc_sealing(
                x.seal_info,
            ));
            assert(b@.subrange(0, b@.len() as int) =~= b@);
        }
    }
    if b.len() < 146 {
        return None;
    }
    let header = match decode_header(slice_subrange(b, 0, 90)) {
        Some(h) => h,
        None => {
            return None;
        },
    };
    let (transactions, end) = match take_txs(b, 90) {
        Some(x) => x,
        None => {
            return None;
        },
    };
    if b.len() - end != 48 {
        proof {
            assert forall|x: Block| !(x.wf() && b@ == enc_block(x)) by {
                if x.wf() && b@ == enc_block(x) {
                    assert(txs_hyp(b@, 90, x.transactions@));
                }
            }
        }
        return None;
    }
    let seal_info = match decode_sealing(slice_subrange(b, end, b.len())) {
        Some(s) => s,
        None => {
            return None;
        },
    };
    let bl = Block { header, transactions, seal_info };
    proof {
        assert(b@ =~= enc_block(bl));
        assert forall|x: Block| x.wf() && b@ == enc_block(x) implies bl.header == x.header
            && txs_eqv(bl.transactions@, x.transactions@) && bl.seal_info == x.seal_info by {
            assert(txs_hyp(b@, 90, x.transactions@));
            assert(b@.subrange(0, 90) == enc_header(x.header));
            assert(b@.subrange(end as int, b@.len() as int) == enc_sealing(x.seal_info));
        }
    }
    Some(bl)
}

} // verus!
