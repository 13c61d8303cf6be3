use vstd::prelude::*;

use vstd::arithmetic::div_mod::lemma_div_is_ordered;
use vstd::arithmetic::mul::lemma_mul_inequality;

use crate::block::{header_matches, spec_seal_map, spec_validate, ApplyBlockError, Block, SealingInfo};
use crate::codec::{dec_quantity, enc_header, lemma_quantity_round_trip};
use crate::contract::token_key;
use crate::crypto::blake3_of;
use crate::math::drift_ok;
use crate::smt::{smt_lookup, smt_root_of};
use crate::state::{
    spec_apply_assets, spec_apply_tx, spec_coinbase_base, spec_fee_to_gas, ApplyTxError, Header,
};
use crate::transaction::{Quantity, TokenId, Transaction, MEL_TOKEN};

verus! {

// ---------------------------------------------------------------------------
// Fee conversion is monotone.
// ---------------------------------------------------------------------------

/// A larger fee never buys less gas: `fee_to_gas` is monotone in the fee.
pub proof fn lemma_fee_to_gas_monotonic(price: u128, fee1: u128, fee2: u128)
    requires
        price >= 1,
        fee1 <= fee2,
    ensures
        spec_fee_to_gas(price, fee1) <= spec_fee_to_gas(price, fee2),
{
    lemma_mul_inequality(fee1 as int, fee2 as int, 1_000_000);
    lemma_div_is_ordered(fee1 as int * 1_000_000, fee2 as int * 1_000_000, price as int);
}

// ---------------------------------------------------------------------------
// Determinism: the sealed header is a function of the parent header, the
// state bindings, and the sealing info; two producers that agree on those
// agree on the header, byte for byte.
// ---------------------------------------------------------------------------

/// What the sealing rules dictate of a produced header, given the parent
/// header, the replayed state bindings, and the sealing info.
pub open spec fn seals_to(parent: Header, m1: Map<Seq<u8>, Seq<u8>>, si: SealingInfo, h: Header) -> bool {
    &&& h.chain_id.0 == parent.chain_id.0
    &&& h.prev@ == blake3_of(enc_header(parent))
    &&& h.height == parent.height + 1
    &&& h.gas_price.0 == si.new_gas_price.0
    &&& h.state@ == smt_root_of(spec_seal_map(m1, si.proposer@))
}

/// Two headers sealed from the same parent, the same bindings and the same
/// sealing info agree field for field, and their canonical bytes are equal:
/// the sealed header does not depend on the store backend, the platform or
/// timing.
pub proof fn lemma_seal_deterministic(
    parent: Header,
    m1: Map<Seq<u8>, Seq<u8>>,
    si: SealingInfo,
    h1: Header,
    h2: Header,
)
    requires
        seals_to(parent, m1, si, h1),
        seals_to(parent, m1, si, h2),
    ensures
        header_matches(h1, h2),
        enc_header(h1) == enc_header(h2),
{
}

// ---------------------------------------------------------------------------
// Validation agrees with production: a block a producer seals from a state
// validates against that same state.
// ---------------------------------------------------------------------------

/// Any block whose transactions replay successfully from `m0` under
/// `parent`, and whose header carries exactly what the sealing rules
/// dictate, passes validation against `(parent, m0)`.
pub proof fn lemma_validation_agrees(
    parent: Header,
    m0: Map<Seq<u8>, Seq<u8>>,
    m1: Map<Seq<u8>, Seq<u8>>,
    b: Block,
)
    requires
        crate::block::spec_replay(parent, m0, b.transactions@) == Ok::<
            Map<Seq<u8>, Seq<u8>>,
            ApplyTxError,
        >(m1),
        drift_ok(parent.gas_price.0, b.seal_info.new_gas_price.0),
        crate::block::spec_coinbase_fits(m1, b.seal_info.proposer@),
        seals_to(parent, m1, b.seal_info, b.header),
    ensures
        spec_validate(parent, m0, b) == Ok::<(), ApplyBlockError>(()),
{
}

// ---------------------------------------------------------------------------
// Conservation: a successful apply moves value, it never mints or burns it,
// except that the fee leaves the sender in MEL.
// ---------------------------------------------------------------------------

/// The balance a state nominally holds for an address in a token: the
/// stored quantity when present and well-formed, zero otherwise.
pub open spec fn nominal_bal(m: Map<Seq<u8>, Seq<u8>>, addr: Seq<u8>, tok: u64) -> int {
    match dec_quantity(smt_lookup(m, token_key(addr, tok))) {
        Some(q) => q as int,
        None => 0,
    }
}

/// The combined holdings of sender and receiver in one token. A
/// self-transfer counts its one balance once.
pub open spec fn held(m: Map<Seq<u8>, Seq<u8>>, from: Seq<u8>, to: Seq<u8>, tok: u64) -> int {
    if from == to {
        nominal_bal(m, from, tok)
    } else {
        nominal_bal(m, from, tok) + nominal_bal(m, to, tok)
    }
}

/// Distinct (address, token) pairs over the two parties derive distinct
/// state keys. The keys are digests of injective encodings, so a violation
/// is a hash collision, which the state model assumes away.
pub open spec fn token_keys_injective(from: Seq<u8>, to: Seq<u8>) -> bool {
    forall|a1: Seq<u8>, t1: u64, a2: Seq<u8>, t2: u64|
        (a1 == from || a1 == to) && (a2 == from || a2 == to) && #[trigger] token_key(a1, t1)
            == #[trigger] token_key(a2, t2) ==> a1 == a2 && t1 == t2
}

proof fn lemma_assets_conserve(
    m: Map<Seq<u8>, Seq<u8>>,
    from: Seq<u8>,
    to: Seq<u8>,
    assets: Seq<(TokenId, Quantity)>,
    gas: u64,
    m2: Map<Seq<u8>, Seq<u8>>,
    tok: u64,
)
    requires
        spec_apply_assets(m, from, to, assets, gas) == Ok::<Map<Seq<u8>, Seq<u8>>, ApplyTxError>(
            m2,
        ),
        token_keys_injective(from, to),
    ensures
        held(m2, from, to, tok) == held(m, from, to, tok),
    decreases assets.len(),
{
    if assets.len() == 0 {
    } else {
        let tk = assets[0].0.0;
        let qty = assets[0].1.0;
        let g2 = (gas - 200) as u64;
        let fb = crate::state::spec_get_balance(m, from, tk)->Ok_0;
        let tb0 = crate::state::spec_balance_or_zero(m, to, tk)->Ok_0;
        let tb = if from == to {
            (fb - qty) as u128
        } else {
            tb0
        };
        let ma = crate::state::spec_set_balance(m, from, tk, (fb - qty) as u128);
        let mb = crate::state::spec_set_balance(ma, to, tk, (tb + qty) as u128);
        lemma_quantity_round_trip((fb - qty) as u128);
        lemma_quantity_round_trip((tb + qty) as u128);
        assert(nominal_bal(m, from, tk) == fb as int);
        assert(nominal_bal(m, to, tk) == tb0 as int);
        if from == to {
            assert(nominal_bal(mb, from, tk) == fb as int);
        } else {
            assert(token_key(from, tk) != token_key(to, tk));
            assert(nominal_bal(mb, from, tk) == fb as int - qty as int);
            assert(nominal_bal(mb, to, tk) == tb0 as int + qty as int);
        }
        if tk != tok {
            assert(token_key(from, tok) != token_key(from, tk));
            assert(token_key(from, tok) != token_key(to, tk));
            assert(token_key(to, tok) != token_key(from, tk));
            assert(token_key(to, tok) != token_key(to, tk));
            assert(nominal_bal(mb, from, tok) == nominal_bal(m, from, tok));
            assert(nominal_bal(mb, to, tok) == nominal_bal(m, to, tok));
        }
        assert(held(mb, from, to, tok) == held(m, from, to, tok));
        lemma_assets_conserve(mb, from, to, assets.skip(1), g2, m2, tok);
    }
}

proof fn lemma_assets_frame(
    m: Map<Seq<u8>, Seq<u8>>,
    from: Seq<u8>,
    to: Seq<u8>,
    assets: Seq<(TokenId, Quantity)>,
    gas: u64,
    m2: Map<Seq<u8>, Seq<u8>>,
    k: Seq<u8>,
)
    requires
        spec_apply_assets(m, from, to, assets, gas) == Ok::<Map<Seq<u8>, Seq<u8>>, ApplyTxError>(
            m2,
        ),
        forall|j: int|
            0 <= j < assets.len() ==> k != token_key(from, (#[trigger] assets[j]).0.0) && k
                != token_key(to, assets[j].0.0),
    ensures
        smt_lookup(m2, k) == smt_lookup(m, k),
    decreases assets.len(),
{
    if assets.len() == 0 {
    } else {
        let tk = assets[0].0.0;
        let qty = assets[0].1.0;
        let g2 = (gas - 200) as u64;
        let fb = crate::state::spec_get_balance(m, from, tk)->Ok_0;
        let tb0 = crate::state::spec_balance_or_zero(m, to, tk)->Ok_0;
        let tb = if from == to {
            (fb - qty) as u128
        } else {
            tb0
        };
        let ma = crate::state::spec_set_balance(m, from, tk, (fb - qty) as u128);
        let mb = crate::state::spec_set_balance(ma, to, tk, (tb + qty) as u128);
        assert(assets[0] == assets[0]);
        assert(smt_lookup(mb, k) == smt_lookup(m, k));
        assert(forall|j: int|
            0 <= j < assets.skip(1).len() ==> assets.skip(1)[j] == assets[j + 1]);
        lemma_assets_frame(mb, from, to, assets.skip(1), g2, m2, k);
    }
}

/// Conservation. For any successful apply of a transaction: the combined
/// sender-and-receiver holdings of every token other than MEL are unchanged;
/// their MEL holdings decrease by exactly the fee (the fee is burned here;
/// sealing's coinbase reintroduces MEL); and every state key other than the
/// parties' balance keys is untouched.
pub proof fn lemma_apply_tx_conserves(
    h: Header,
    m: Map<Seq<u8>, Seq<u8>>,
    t: Transaction,
    m2: Map<Seq<u8>, Seq<u8>>,
    tok: u64,
)
    requires
        spec_apply_tx(h, m, t) == Ok::<Map<Seq<u8>, Seq<u8>>, ApplyTxError>(m2),
        token_keys_injective(t.from@, t.to@),
    ensures
        tok != MEL_TOKEN ==> held(m2, t.from@, t.to@, tok) == held(m, t.from@, t.to@, tok),
        held(m2, t.from@, t.to@, MEL_TOKEN) == held(m, t.from@, t.to@, MEL_TOKEN) - t.fee.0,
{
    let from = t.from@;
    let to = t.to@;
    let mel = crate::state::spec_get_balance(m, from, MEL_TOKEN)->Ok_0;
    let m_fee = crate::state::spec_set_balance(m, from, MEL_TOKEN, (mel - t.fee.0) as u128);
    let gas2 = spec_apply_tx_gas_after_contracts(h, m, t);
    lemma_quantity_round_trip((mel - t.fee.0) as u128);
    assert(nominal_bal(m, from, MEL_TOKEN) == mel as int);
    assert(nominal_bal(m_fee, from, MEL_TOKEN) == mel as int - t.fee.0 as int);
    if from != to {
        assert(token_key(from, MEL_TOKEN) != token_key(to, MEL_TOKEN));
        assert(nominal_bal(m_fee, to, MEL_TOKEN) == nominal_bal(m, to, MEL_TOKEN));
    }
    if tok != MEL_TOKEN {
        assert(token_key(from, tok) != token_key(from, MEL_TOKEN));
        assert(token_key(to, tok) != token_key(from, MEL_TOKEN));
        assert(nominal_bal(m_fee, from, tok) == nominal_bal(m, from, tok));
        assert(nominal_bal(m_fee, to, tok) == nominal_bal(m, to, tok));
        lemma_assets_conserve(m_fee, from, to, t.assets@, gas2, m2, tok);
    }
    lemma_assets_conserve(m_fee, from, to, t.assets@, gas2, m2, MEL_TOKEN);
}

/// The gas counter as it stands when the asset loop starts, for a
/// transaction whose apply reaches it.
pub open spec fn spec_apply_tx_gas_after_contracts(
    h: Header,
    m: Map<Seq<u8>, Seq<u8>>,
    t: Transaction,
) -> u64 {
    (spec_fee_to_gas(h.gas_price.0, t.fee.0) - 20000) as u64
}

/// Frame: a successful apply changes no state binding outside the two
/// parties' balance keys.
pub proof fn lemma_apply_tx_frame(
    h: Header,
    m: Map<Seq<u8>, Seq<u8>>,
    t: Transaction,
    m2: Map<Seq<u8>, Seq<u8>>,
    k: Seq<u8>,
)
    requires
        spec_apply_tx(h, m, t) == Ok::<Map<Seq<u8>, Seq<u8>>, ApplyTxError>(m2),
        k != token_key(t.from@, MEL_TOKEN),
        forall|j: int|
            0 <= j < t.assets@.len() ==> k != token_key(t.from@, (#[trigger] t.assets@[j]).0.0)
                && k != token_key(t.to@, t.assets@[j].0.0),
    ensures
        smt_lookup(m2, k) == smt_lookup(m, k),
{
    let from = t.from@;
    let mel = crate::state::spec_get_balance(m, from, MEL_TOKEN)->Ok_0;
    let m_fee = crate::state::spec_set_balance(m, from, MEL_TOKEN, (mel - t.fee.0) as u128);
    let gas2 = spec_apply_tx_gas_after_contracts(h, m, t);
    assert(smt_lookup(m_fee, k) == smt_lookup(m, k));
    lemma_assets_frame(m_fee, from, t.to@, t.assets@, gas2, m2, k);
}

} // verus!
