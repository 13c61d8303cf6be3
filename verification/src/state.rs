use vstd::prelude::*;

use vstd::arithmetic::div_mod::{lemma_fundamental_div_mod, lemma_hoist_over_denominator};
use vstd::arithmetic::mul::lemma_mul_inequality;

use crate::codec::{dec_contract, dec_quantity, decode_contract, decode_quantity, enc_quantity, encode_quantity};
use crate::contract::{eq_addr, spec_execute, token_key, Address, ContractCode};
use crate::crypto::HashVal;
use crate::math::mul_mil_div;
use crate::smt::{smt_contents, smt_lookup, SmtTree};
use crate::transaction::{
    spec_signing_hash, tx_eqv, NetId, Quantity, TokenId, Transaction, MEL_TOKEN, MICRO_CONVERTER,
};

verus! {

/// The committed summary of a block: chain id, parent hash, height, gas
/// price and state root.
#[derive(Clone, Copy, Debug, PartialEq, Eq)]
pub struct Header {
    pub chain_id: NetId,
    pub prev: HashVal,
    pub height: u64,
    pub gas_price: Quantity,
    pub state: HashVal,
}

/// The gas a fee buys at a given price: the exact floor of
/// `fee * 1_000_000 / price`, saturated to the largest 64-bit value.
pub open spec fn spec_fee_to_gas(price: u128, fee: u128) -> u64
    recommends
        price >= 1,
{
    let g = (fee as int * 1_000_000) / (price as int);
    if g > u64::MAX as int {
        u64::MAX
    } else {
        g as u64
    }
}

impl Header {
    /// A valid header prices gas at one micro-unit or more.
    pub open spec fn wf(self) -> bool {
        self.gas_price.0 >= 1
    }

    /// Given the gas price in this header, the exact amount of gas available
    /// to a transaction paying the given fee.
    pub fn fee_to_gas(&self, fee: Quantity) -> (g: u64)
        requires
            self.wf(),
        ensures
            g == spec_fee_to_gas(self.gas_price.0, fee.0),
    {
        let price = self.gas_price.0;
        let whole = fee.0 / price;
        let rem = fee.0 % price;
        let lo = mul_mil_div(rem, price);
        proof {
            // fee * 1M / price == whole * 1M + rem * 1M / price
            lemma_fundamental_div_mod(fee.0 as int, price as int);
            assert(fee.0 as int * 1_000_000 == rem as int * 1_000_000 + (whole as int * 1_000_000)
                * price as int) by (nonlinear_arith)
                requires
                    fee.0 as int == price as int * whole as int + rem as int,
            ;
            lemma_hoist_over_denominator(
                rem as int * 1_000_000,
                whole as int * 1_000_000,
                price as nat,
            );
            assert((fee.0 as int * 1_000_000) / (price as int) == whole as int * 1_000_000
                + lo as int);
            // the bound used by both saturation branches
            lemma_fundamental_div_mod(u64::MAX as int, 1_000_000);
        }
        let cap: u64 = u64::MAX / 1_000_000;
        if whole > cap as u128 {
            proof {
                lemma_mul_inequality(cap as int + 1, whole as int, 1_000_000);
            }
            return u64::MAX;
        }
        proof {
            lemma_mul_inequality(whole as int, cap as int, 1_000_000);
        }
        let hi: u64 = (whole as u64) * 1_000_000;
        if hi > u64::MAX - lo {
            u64::MAX
        } else {
            hi + lo
        }
    }
}

/// Why applying a transaction failed.
#[derive(Clone, Copy, Debug, PartialEq, Eq, Structural)]
pub enum ApplyTxError {
    /// Insufficient balance of the given token, for the fee or an asset
    /// movement.
    OutOfMoney(TokenId),
    /// The gas bought by the fee ran out.
    OutOfGas,
    /// The transaction names a different network than the parent header.
    WrongNetId,
    /// The sending contract rejected the transaction.
    FromFailed,
    /// The receiving contract rejected the transaction.
    ToFailed,
    /// The backing store reported a problem.
    SmtCorruption,
    /// A value read from state failed to decode.
    StateCorruption,
}

/// Loading the contract stored at an address: absence or a decode failure
/// is state corruption. Yields the contract's public-key bytes.
pub open spec fn spec_load_contract(m: Map<Seq<u8>, Seq<u8>>, addr: Seq<u8>) -> Result<
    Seq<u8>,
    ApplyTxError,
> {
    match dec_contract(smt_lookup(m, addr)) {
        Some(pk) => Ok(pk),
        None => Err(ApplyTxError::StateCorruption),
    }
}

/// Reading a balance for the debit side: an absent entry is an
/// out-of-money failure, a malformed entry is corruption.
pub open spec fn spec_get_balance(m: Map<Seq<u8>, Seq<u8>>, addr: Seq<u8>, tok: u64) -> Result<
    u128,
    ApplyTxError,
> {
    let raw = smt_lookup(m, token_key(addr, tok));
    if raw.len() == 0 {
        Err(ApplyTxError::OutOfMoney(TokenId(tok)))
    } else {
        match dec_quantity(raw) {
            Some(q) => Ok(q),
            None => Err(ApplyTxError::StateCorruption),
        }
    }
}

/// Reading a balance for the credit side: an absent entry reads as zero.
pub open spec fn spec_balance_or_zero(m: Map<Seq<u8>, Seq<u8>>, addr: Seq<u8>, tok: u64) -> Result<
    u128,
    ApplyTxError,
> {
    let raw = smt_lookup(m, token_key(addr, tok));
    if raw.len() == 0 {
        Ok(0)
    } else {
        match dec_quantity(raw) {
            Some(q) => Ok(q),
            None => Err(ApplyTxError::StateCorruption),
        }
    }
}

/// Writing a balance binds the canonical 16 bytes of the quantity at the
/// address's token key.
pub open spec fn spec_set_balance(
    m: Map<Seq<u8>, Seq<u8>>,
    addr: Seq<u8>,
    tok: u64,
    q: u128,
) -> Map<Seq<u8>, Seq<u8>> {
    m.insert(token_key(addr, tok), enc_quantity(q))
}

/// One asset movement per entry, in the order the list gives: charge 200
/// gas, debit the sender, credit the receiver. A self-transfer nets to
/// zero. A credit overflowing 128 bits is only reachable from a corrupt
/// state and is reported as such.
pub open spec fn spec_apply_assets(
    m: Map<Seq<u8>, Seq<u8>>,
    from: Seq<u8>,
    to: Seq<u8>,
    assets: Seq<(TokenId, Quantity)>,
    gas: u64,
) -> Result<Map<Seq<u8>, Seq<u8>>, ApplyTxError>
    decreases assets.len(),
{
    if assets.len() == 0 {
        Ok(m)
    } else {
        let tok = assets[0].0.0;
        let qty = assets[0].1.0;
        if gas < 200 {
            Err(ApplyTxError::OutOfGas)
        } else {
            let g2 = (gas - 200) as u64;
            match spec_get_balance(m, from, tok) {
                Err(e) => Err(e),
                Ok(fb) => match spec_balance_or_zero(m, to, tok) {
                    Err(e) => Err(e),
                    Ok(tb0) => if qty > fb {
                        Err(ApplyTxError::OutOfMoney(TokenId(tok)))
                    } else {
                        let tb = if from == to {
                            (fb - qty) as u128
                        } else {
                            tb0
                        };
                        if qty > u128::MAX - tb {
                            Err(ApplyTxError::StateCorruption)
                        } else {
                            let m2 = spec_set_balance(
                                spec_set_balance(m, from, tok, (fb - qty) as u128),
                                to,
                                tok,
                                (tb + qty) as u128,
                            );
                            spec_apply_assets(m2, from, to, assets.skip(1), g2)
                        }
                    },
                },
            }
        }
    }
}

/// The whole transactional apply rule, step by step: buy gas with the fee;
/// reject a foreign chain id; load both contracts; run the from-side
/// authorization, then the to-side acceptance; pay the fee in MEL; move the
/// assets in list order.
pub open spec fn spec_apply_tx(h: Header, m: Map<Seq<u8>, Seq<u8>>, t: Transaction) -> Result<
    Map<Seq<u8>, Seq<u8>>,
    ApplyTxError,
> {
    let gas0 = spec_fee_to_gas(h.gas_price.0, t.fee.0);
    if t.chain_id.0 != h.chain_id.0 {
        Err(ApplyTxError::WrongNetId)
    } else {
        match spec_load_contract(m, t.from@) {
            Err(e) => Err(e),
            Ok(from_pk) => match spec_load_contract(m, t.to@) {
                Err(e) => Err(e),
                Ok(to_pk) => {
                    let sighash = spec_signing_hash(t);
                    match spec_execute(from_pk, sighash, 0, t.auth_data@, gas0) {
                        None => Err(ApplyTxError::OutOfGas),
                        Some((ok1, gas1)) => if !ok1 {
                            Err(ApplyTxError::FromFailed)
                        } else {
                            match spec_execute(to_pk, sighash, 1, t.call_data@, gas1) {
                                None => Err(ApplyTxError::OutOfGas),
                                Some((ok2, gas2)) => if !ok2 {
                                    Err(ApplyTxError::ToFailed)
                                } else {
                                    match spec_get_balance(m, t.from@, MEL_TOKEN) {
                                        Err(e) => Err(e),
                                        Ok(mel) => if t.fee.0 > mel {
                                            Err(ApplyTxError::OutOfMoney(TokenId(MEL_TOKEN)))
                                        } else {
                                            spec_apply_assets(
                                                spec_set_balance(
                                                    m,
                                                    t.from@,
                                                    MEL_TOKEN,
                                                    (mel - t.fee.0) as u128,
                                                ),
                                                t.from@,
                                                t.to@,
                                                t.assets@,
                                                gas2,
                                            )
                                        },
                                    }
                                },
                            }
                        },
                    }
                },
            },
        }
    }
}

/// What the coinbase credit starts from: the proposer's stored MEL balance
/// when it is present and well-formed, and zero otherwise.
pub open spec fn spec_coinbase_base(m: Map<Seq<u8>, Seq<u8>>, prop: Seq<u8>) -> u128 {
    match dec_quantity(smt_lookup(m, token_key(prop, MEL_TOKEN))) {
        Some(q) => q,
        None => 0,
    }
}

/// Two transactions with the same fields move through the apply rule
/// identically.
pub proof fn lemma_apply_tx_eqv(h: Header, m: Map<Seq<u8>, Seq<u8>>, a: Transaction, b: Transaction)
    requires
        tx_eqv(a, b),
    ensures
        spec_apply_tx(h, m, a) == spec_apply_tx(h, m, b),
{
    assert(crate::codec::enc_tx_signing(a) == crate::codec::enc_tx_signing(b));
    assert(spec_signing_hash(a) == spec_signing_hash(b));
}

/// The mutable working view over the state during one block: the parent
/// header and a tree opened at its state root.
pub struct StateHandle {
    last_header: Header,
    state: SmtTree,
}

impl StateHandle {
    /// The parent header this handle works under.
    pub closed spec fn header(self) -> Header {
        self.last_header
    }

    /// The state bindings this handle currently sees.
    pub closed spec fn contents(self) -> Map<Seq<u8>, Seq<u8>> {
        smt_contents(self.state)
    }

    pub(crate) fn new(h: Header, t: SmtTree) -> (s: StateHandle)
        ensures
            s.header() == h,
            s.contents() == smt_contents(t),
    {
        StateHandle { last_header: h, state: t }
    }

    /// The parent header, as a value.
    pub(crate) fn header_val(&self) -> (h: Header)
        ensures
            h == self.header(),
    {
        self.last_header
    }

    /// The balance the coinbase credit starts from: the proposer's stored
    /// MEL balance, or zero when it is absent or malformed.
    pub(crate) fn balance_for_coinbase(&self, addr: &Address) -> (r: Result<Quantity, ApplyTxError>)
        ensures
            match r {
                Ok(q) => q.0 == spec_coinbase_base(self.contents(), addr@),
                Err(e) => e == ApplyTxError::SmtCorruption,
            },
    {
        let key = addr.token_state_key(TokenId(MEL_TOKEN));
        match self.state.get(&key) {
            Err(_) => Err(ApplyTxError::SmtCorruption),
            Ok(raw) => match decode_quantity(raw.as_slice()) {
                Some(q) => Ok(q),
                None => Ok(Quantity(0)),
            },
        }
    }

    pub(crate) fn dup(&self) -> (s: StateHandle)
        ensures
            s.header() == self.header(),
            s.contents() == self.contents(),
    {
        StateHandle { last_header: self.last_header, state: self.state.duplicate() }
    }

    pub(crate) fn root_hash(&self) -> (r: HashVal)
        ensures
            r@ == crate::smt::smt_root_of(self.contents()),
            crate::smt::smt_committed(r@) == self.contents(),
    {
        self.state.root_hash()
    }

    fn load_contract(&self, addr: &Address) -> (r: Result<ContractCode, ApplyTxError>)
        ensures
            match r {
                Ok(c) => spec_load_contract(self.contents(), addr@) == Ok::<Seq<u8>, ApplyTxError>(
                    c.pk_bytes(),
                ),
                Err(e) => e == ApplyTxError::SmtCorruption || spec_load_contract(
                    self.contents(),
                    addr@,
                ) == Err::<Seq<u8>, ApplyTxError>(e),
            },
    {
        let key = HashVal(addr.0);
        match self.state.get(&key) {
            Err(_) => Err(ApplyTxError::SmtCorruption),
            Ok(raw) => match decode_contract(raw.as_slice()) {
                Some(c) => Ok(c),
                None => Err(ApplyTxError::StateCorruption),
            },
        }
    }

    pub(crate) fn get_balance(&self, addr: &Address, tok: TokenId) -> (r: Result<
        Quantity,
        ApplyTxError,
    >)
        ensures
            match r {
                Ok(q) => spec_get_balance(self.contents(), addr@, tok.0) == Ok::<
                    u128,
                    ApplyTxError,
                >(q.0),
                Err(e) => e == ApplyTxError::SmtCorruption || spec_get_balance(
                    self.contents(),
                    addr@,
                    tok.0,
                ) == Err::<u128, ApplyTxError>(e),
            },
    {
        let key = addr.token_state_key(tok);
        match self.state.get(&key) {
            Err(_) => Err(ApplyTxError::SmtCorruption),
            Ok(raw) => {
                if raw.len() == 0 {
                    Err(ApplyTxError::OutOfMoney(tok))
                } else {
                    match decode_quantity(raw.as_slice()) {
                        Some(q) => Ok(q),
                        None => Err(ApplyTxError::StateCorruption),
                    }
                }
            },
        }
    }

    fn get_balance_or_zero(&self, addr: &Address, tok: TokenId) -> (r: Result<
        Quantity,
        ApplyTxError,
    >)
        ensures
            match r {
                Ok(q) => spec_balance_or_zero(self.contents(), addr@, tok.0) == Ok::<
                    u128,
                    ApplyTxError,
                >(q.0),
                Err(e) => e == ApplyTxError::SmtCorruption || spec_balance_or_zero(
                    self.contents(),
                    addr@,
                    tok.0,
                ) == Err::<u128, ApplyTxError>(e),
            },
    {
        let key = addr.token_state_key(tok);
        match self.state.get(&key) {
            Err(_) => Err(ApplyTxError::SmtCorruption),
            Ok(raw) => {
                if raw.len() == 0 {
                    Ok(Quantity(0))
                } else {
                    match decode_quantity(raw.as_slice()) {
                        Some(q) => Ok(q),
                        None => Err(ApplyTxError::StateCorruption),
                    }
                }
            },
        }
    }

    pub(crate) fn set_balance(&mut self, addr: &Address, tok: TokenId, q: Quantity) -> (r: Result<
        (),
        ApplyTxError,
    >)
        ensures
            final(self).header() == old(self).header(),
            match r {
                Ok(()) => final(self).contents() == spec_set_balance(
                    old(self).contents(),
                    addr@,
                    tok.0,
                    q.0,
                ),
                Err(e) => e == ApplyTxError::SmtCorruption && final(self).contents() == old(
                    self,
                ).contents(),
            },
    {
        let key = addr.token_state_key(tok);
        let val = encode_quantity(q);
        proof {
            crate::codec::lemma_quantity_round_trip(q.0);
        }
        match self.state.with(&key, val.as_slice()) {
            Ok(t2) => {
                self.state = t2;
                Ok(())
            },
            Err(_) => Err(ApplyTxError::SmtCorruption),
        }
    }

    /// Applies the transaction, returning the new state handle. The result
    /// is exactly what the apply rule dictates; only a store fault may
    /// surface instead, and it changes no state a caller can keep. A
    /// transaction naming a foreign chain is rejected before any state is
    /// consulted, so there a store fault cannot stand in.
    pub fn apply_tx(self, txn: &Transaction) -> (r: Result<StateHandle, ApplyTxError>)
        requires
            self.header().wf(),
        ensures
            match r {
                Ok(h2) => h2.header() == self.header() && spec_apply_tx(
                    self.header(),
                    self.contents(),
                    *txn,
                ) == Ok::<Map<Seq<u8>, Seq<u8>>, ApplyTxError>(h2.contents()),
                Err(e) => e == ApplyTxError::SmtCorruption || spec_apply_tx(
                    self.header(),
                    self.contents(),
                    *txn,
                ) == Err::<Map<Seq<u8>, Seq<u8>>, ApplyTxError>(e),
            },
            txn.chain_id.0 != self.header().chain_id.0 ==> r == Err::<
                StateHandle,
                ApplyTxError,
            >(ApplyTxError::WrongNetId),
    {
        let ghost h0 = self.header();
        let ghost m0 = self.contents();
        let mut cur = self;
        let mut gas_left = cur.last_header.fee_to_gas(txn.fee);
        let ghost gas0 = gas_left;
        if txn.chain_id.0 != cur.last_header.chain_id.0 {
            return Err(ApplyTxError::WrongNetId);
        }
        let from_contract = match cur.load_contract(&txn.from) {
            Ok(c) => c,
            Err(e) => {
                return Err(e);
            },
        };
        let to_contract = match cur.load_contract(&txn.to) {
            Ok(c) => c,
            Err(e) => {
                return Err(e);
            },
        };
        proof {
            assert(spec_load_contract(m0, txn.from@) == Ok::<Seq<u8>, ApplyTxError>(
                from_contract.pk_bytes(),
            ));
            assert(spec_load_contract(m0, txn.to@) == Ok::<Seq<u8>, ApplyTxError>(
                to_contract.pk_bytes(),
            ));
        }
        let r1 = from_contract.execute(
            &cur.last_header,
            &mut cur.state,
            Some(txn),
            0,
            txn.auth_data.as_slice(),
            &mut gas_left,
        );
        let ghost gas1 = gas_left;
        proof {
            assert(cur.contents() == m0);
        }
        match r1 {
            None => {
                return Err(ApplyTxError::OutOfGas);
            },
            Some(ok1) => {
                if !ok1 {
                    return Err(ApplyTxError::FromFailed);
                }
            },
        }
        proof {
            assert(spec_execute(from_contract.pk_bytes(), spec_signing_hash(*txn), 0, txn.auth_data@, gas0)
                == Some((true, gas1)));
        }
        let r2 = to_contract.execute(
            &cur.last_header,
            &mut cur.state,
            Some(txn),
            1,
            txn.call_data.as_slice(),
            &mut gas_left,
        );
        let ghost gas2 = gas_left;
        proof {
            assert(cur.contents() == m0);
        }
        match r2 {
            None => {
                return Err(ApplyTxError::OutOfGas);
            },
            Some(ok2) => {
                if !ok2 {
                    return Err(ApplyTxError::ToFailed);
                }
            },
        }
        // pay the fee in MEL
        let mel = match cur.get_balance(&txn.from, TokenId(MEL_TOKEN)) {
            Ok(q) => q,
            Err(e) => {
                return Err(e);
            },
        };
        if txn.fee.0 > mel.0 {
            return Err(ApplyTxError::OutOfMoney(TokenId(MEL_TOKEN)));
        }
        match cur.set_balance(&txn.from, TokenId(MEL_TOKEN), Quantity(mel.0 - txn.fee.0)) {
            Ok(()) => (),
            Err(e) => {
                return Err(e);
            },
        }
        proof {
            assert(spec_execute(to_contract.pk_bytes(), spec_signing_hash(*txn), 1, txn.call_data@, gas1)
                == Some((true, gas2)));
        }
        // move the assets, in list order
        let ghost m_fee = cur.contents();
        let ghost gas_assets = gas_left;
        proof {
            assert(gas_assets == gas2);
            assert(spec_get_balance(m0, txn.from@, MEL_TOKEN) == Ok::<u128, ApplyTxError>(mel.0));
            assert(m_fee == spec_set_balance(m0, txn.from@, MEL_TOKEN, (mel.0 - txn.fee.0) as u128));
            assert(spec_apply_tx(h0, m0, *txn) == spec_apply_assets(
                m_fee,
                txn.from@,
                txn.to@,
                txn.assets@,
                gas_assets,
            ));
        }
        let mut i: usize = 0;
        while i < txn.assets.len()
            invariant
                i <= txn.assets@.len(),
                self.header() == h0,
                self.contents() == m0,
                txn.chain_id.0 == h0.chain_id.0,
                cur.header() == h0,
                spec_apply_assets(m_fee, txn.from@, txn.to@, txn.assets@, gas_assets)
                    == spec_apply_assets(
                    cur.contents(),
                    txn.from@,
                    txn.to@,
                    txn.assets@.skip(i as int),
                    gas_left,
                ),
                spec_apply_tx(h0, m0, *txn) == spec_apply_assets(
                    m_fee,
                    txn.from@,
                    txn.to@,
                    txn.assets@,
                    gas_assets,
                ),
            decreases txn.assets@.len() - i,
        {
            let ghost m_iter = cur.contents();
            let ghost gas_iter = gas_left;
            let ghost rest = txn.assets@.skip(i as int);
            proof {
                assert(rest.len() > 0);
                assert(rest[0] == txn.assets@[i as int]);
                assert(rest.skip(1) =~= txn.assets@.skip(i as int + 1));
            }
            let (tok, qty) = txn.assets[i];
            proof {
                assert((tok, qty) == rest[0]);
            }
            if gas_left < 200 {
                proof {
                    assert(spec_apply_assets(m_iter, txn.from@, txn.to@, rest, gas_iter)
                        == Err::<Map<Seq<u8>, Seq<u8>>, ApplyTxError>(ApplyTxError::OutOfGas));
                    assert(spec_apply_tx(h0, m0, *txn) == Err::<
                        Map<Seq<u8>, Seq<u8>>,
                        ApplyTxError,
                    >(ApplyTxError::OutOfGas));
                }
                return Err(ApplyTxError::OutOfGas);
            }
            gas_left = gas_left - 200;
            let fb = match cur.get_balance(&txn.from, tok) {
                Ok(q) => q,
                Err(e) => {
                    return Err(e);
                },
            };
            let tb0 = match cur.get_balance_or_zero(&txn.to, tok) {
                Ok(q) => q,
                Err(e) => {
                    return Err(e);
                },
            };
            if qty.0 > fb.0 {
                return Err(ApplyTxError::OutOfMoney(tok));
            }
            let tb = if eq_addr(&txn.from, &txn.to) {
                Quantity(fb.0 - qty.0)
            } else {
                tb0
            };
            if qty.0 > u128::MAX - tb.0 {
                return Err(ApplyTxError::StateCorruption);
            }
            match cur.set_balance(&txn.from, tok, Quantity(fb.0 - qty.0)) {
                Ok(()) => (),
                Err(e) => {
                    return Err(e);
                },
            }
            match cur.set_balance(&txn.to, tok, Quantity(tb.0 + qty.0)) {
                Ok(()) => (),
                Err(e) => {
                    return Err(e);
                },
            }
            proof {
                assert(spec_apply_assets(m_iter, txn.from@, txn.to@, rest, gas_iter)
                    == spec_apply_assets(
                    cur.contents(),
                    txn.from@,
                    txn.to@,
                    txn.assets@.skip(i as int + 1),
                    gas_left,
                ));
            }
            i = i + 1;
        }
        proof {
            assert(txn.assets@.skip(txn.assets@.len() as int) =~= Seq::<(TokenId, Quantity)>::empty());
        }
        Ok(cur)
    }
}

} // verus!
