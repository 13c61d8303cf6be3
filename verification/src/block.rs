use vstd::prelude::*;

use crate::codec::{enc_header, encode_header};
use crate::contract::Address;
use crate::crypto::{blake3_of, eq_hash, hash_bytes, zero_hash_seq, HashVal};
use crate::math::{drift_ok, gas_price_in_range};
use crate::smt::{smt_committed, smt_root_of, SmtStore, SmtTree};
use crate::state::{
    spec_apply_tx, spec_coinbase_base, spec_set_balance, ApplyTxError, Header, StateHandle,
};
use crate::transaction::{
    tx_eqv, txs_eqv, NetId, Quantity, TokenId, Transaction, BETANET_ID, MEL_TOKEN, MICRO_CONVERTER,
    TESTNET_ID,
};

verus! {

/// The discretionary choices a block producer makes when sealing a block.
#[derive(Clone, Copy, Debug, PartialEq, Eq)]
pub struct SealingInfo {
    pub proposer: Address,
    pub new_gas_price: Quantity,
}

/// A sealed block: a header committing to a state, the transactions applied
/// since the parent block, and the sealing choices.
#[derive(Clone, Debug)]
pub struct Block {
    pub header: Header,
    pub transactions: Vec<Transaction>,
    pub seal_info: SealingInfo,
}

/// Why sealing an in-progress block failed.
#[derive(Clone, Copy, Debug, PartialEq, Eq, Structural)]
pub enum SealBlockError {
    /// The chosen gas price drifts outside the allowed band around the
    /// parent's.
    GasPriceOutOfRange,
    /// Crediting the proposer failed.
    CoinbaseFailed(ApplyTxError),
}

/// Why validating a candidate block failed.
#[derive(Clone, Copy, Debug, PartialEq, Eq, Structural)]
pub enum ApplyBlockError {
    /// Replaying one of the candidate's transactions failed.
    ApplyTxFailed(ApplyTxError),
    /// Sealing the replayed state failed.
    SealFailed(SealBlockError),
    /// The sealed header differs from the candidate's.
    HeaderMismatch,
}

/// The errors through which a fault of the backing store surfaces during
/// validation. Every other error is dictated by the validation rule alone.
pub open spec fn is_store_fault(e: ApplyBlockError) -> bool {
    ||| e == ApplyBlockError::ApplyTxFailed(ApplyTxError::SmtCorruption)
    ||| e == ApplyBlockError::SealFailed(SealBlockError::CoinbaseFailed(ApplyTxError::SmtCorruption))
}

/// Structural agreement of two headers, field for field.
pub open spec fn header_matches(a: Header, b: Header) -> bool {
    &&& a.chain_id.0 == b.chain_id.0
    &&& a.prev@ == b.prev@
    &&& a.height == b.height
    &&& a.gas_price.0 == b.gas_price.0
    &&& a.state@ == b.state@
}

/// Structural header comparison.
pub fn eq_header(a: &Header, b: &Header) -> (r: bool)
    ensures
        r == header_matches(*a, *b),
{
    a.chain_id.0 == b.chain_id.0 && eq_hash(&a.prev, &b.prev) && a.height == b.height
        && a.gas_price.0 == b.gas_price.0 && eq_hash(&a.state, &b.state)
}

/// The state bindings after the coinbase credit: one million micro-MEL added
/// to what the proposer held.
pub open spec fn spec_seal_map(m: Map<Seq<u8>, Seq<u8>>, prop: Seq<u8>) -> Map<Seq<u8>, Seq<u8>> {
    spec_set_balance(m, prop, MEL_TOKEN, (spec_coinbase_base(m, prop) + MICRO_CONVERTER) as u128)
}

/// Whether the coinbase credit stays within 128 bits. A balance this close
/// to the maximum is only reachable from a corrupt state.
pub open spec fn spec_coinbase_fits(m: Map<Seq<u8>, Seq<u8>>, prop: Seq<u8>) -> bool {
    spec_coinbase_base(m, prop) + MICRO_CONVERTER <= u128::MAX
}

/// Replaying a sequence of transactions in order, from a state.
pub open spec fn spec_replay(
    h: Header,
    m: Map<Seq<u8>, Seq<u8>>,
    txs: Seq<Transaction>,
) -> Result<Map<Seq<u8>, Seq<u8>>, ApplyTxError>
    decreases txs.len(),
{
    if txs.len() == 0 {
        Ok(m)
    } else {
        match spec_apply_tx(h, m, txs[0]) {
            Err(e) => Err(e),
            Ok(m2) => spec_replay(h, m2, txs.skip(1)),
        }
    }
}

/// The whole validation rule: replay the candidate's transactions from the
/// parent state, apply the sealing rules with the candidate's sealing info,
/// and demand that the header so produced agrees with the candidate's.
pub open spec fn spec_validate(parent: Header, m0: Map<Seq<u8>, Seq<u8>>, cand: Block) -> Result<
    (),
    ApplyBlockError,
> {
    match spec_replay(parent, m0, cand.transactions@) {
        Err(e) => Err(ApplyBlockError::ApplyTxFailed(e)),
        Ok(m1) => {
            if !drift_ok(parent.gas_price.0, cand.seal_info.new_gas_price.0) {
                Err(ApplyBlockError::SealFailed(SealBlockError::GasPriceOutOfRange))
            } else if !spec_coinbase_fits(m1, cand.seal_info.proposer@) {
                Err(
                    ApplyBlockError::SealFailed(
                        SealBlockError::CoinbaseFailed(ApplyTxError::StateCorruption),
                    ),
                )
            } else {
                let m2 = spec_seal_map(m1, cand.seal_info.proposer@);
                if cand.header.chain_id.0 == parent.chain_id.0 && cand.header.prev@ == blake3_of(
                    enc_header(parent),
                ) && cand.header.height == parent.height + 1 && cand.header.gas_price.0
                    == cand.seal_info.new_gas_price.0 && cand.header.state@ == smt_root_of(m2) {
                    Ok(())
                } else {
                    Err(ApplyBlockError::HeaderMismatch)
                }
            }
        },
    }
}

/// A block being built: a state handle over the parent's committed state,
/// and the transactions applied so far.
pub struct InProgressBlock {
    handle: StateHandle,
    transactions: Vec<Transaction>,
}

impl InProgressBlock {
    /// The parent header this block builds on.
    pub closed spec fn header(self) -> Header {
        self.handle.header()
    }

    /// The state bindings as applied so far.
    pub closed spec fn contents(self) -> Map<Seq<u8>, Seq<u8>> {
        self.handle.contents()
    }

    /// The transactions applied so far, in order.
    pub closed spec fn txs(self) -> Seq<Transaction> {
        self.transactions@
    }

    /// Applies the transaction to this in-progress block, atomically: on
    /// failure neither the state nor the transaction list changes. A
    /// transaction naming a foreign chain is rejected before any state is
    /// consulted.
    pub fn apply_tx(&mut self, txn: Transaction) -> (r: Result<(), ApplyTxError>)
        requires
            old(self).header().wf(),
        ensures
            txn.chain_id.0 != old(self).header().chain_id.0 ==> r == Err::<(), ApplyTxError>(
                ApplyTxError::WrongNetId,
            ),
            final(self).header() == old(self).header(),
            match r {
                Ok(()) => spec_apply_tx(old(self).header(), old(self).contents(), txn) == Ok::<
                    Map<Seq<u8>, Seq<u8>>,
                    ApplyTxError,
                >(final(self).contents()) && final(self).txs() == old(self).txs().push(txn),
                Err(e) => final(self).contents() == old(self).contents() && final(self).txs()
                    == old(self).txs() && (e == ApplyTxError::SmtCorruption || spec_apply_tx(
                    old(self).header(),
                    old(self).contents(),
                    txn,
                ) == Err::<Map<Seq<u8>, Seq<u8>>, ApplyTxError>(e)),
            },
    {
        let speculative = self.handle.dup();
        match speculative.apply_tx(&txn) {
            Ok(new_handle) => {
                self.handle = new_handle;
                self.transactions.push(txn);
                Ok(())
            },
            Err(e) => Err(e),
        }
    }

    /// Seals this block into a proper block: check the gas-price drift,
    /// credit the proposer one million micro-MEL, and commit to the
    /// resulting state root in a header chained to the parent.
    pub fn sealed(self, seal_info: SealingInfo) -> (r: Result<Block, SealBlockError>)
        requires
            self.header().height < u64::MAX,
        ensures
            match r {
                Ok(b) => {
                    &&& drift_ok(self.header().gas_price.0, seal_info.new_gas_price.0)
                    &&& spec_coinbase_fits(self.contents(), seal_info.proposer@)
                    &&& b.header.chain_id == self.header().chain_id
                    &&& b.header.prev@ == blake3_of(enc_header(self.header()))
                    &&& b.header.height == self.header().height + 1
                    &&& b.header.gas_price == seal_info.new_gas_price
                    &&& b.header.state@ == smt_root_of(
                        spec_seal_map(self.contents(), seal_info.proposer@),
                    )
                    &&& smt_committed(b.header.state@) == spec_seal_map(
                        self.contents(),
                        seal_info.proposer@,
                    )
                    &&& b.transactions@ == self.txs()
                    &&& b.seal_info == seal_info
                },
                Err(SealBlockError::GasPriceOutOfRange) => !drift_ok(
                    self.header().gas_price.0,
                    seal_info.new_gas_price.0,
                ),
                Err(SealBlockError::CoinbaseFailed(e)) => drift_ok(
                    self.header().gas_price.0,
                    seal_info.new_gas_price.0,
                ) && (e == ApplyTxError::SmtCorruption || (e == ApplyTxError::StateCorruption
                    && !spec_coinbase_fits(self.contents(), seal_info.proposer@))),
            },
    {
        let mut ip = self;
        let parent = ip.handle.header_val();
        if !gas_price_in_range(parent.gas_price.0, seal_info.new_gas_price.0) {
            return Err(SealBlockError::GasPriceOutOfRange);
        }
        let base = match ip.handle.balance_for_coinbase(&seal_info.proposer) {
            Ok(q) => q,
            Err(_) => {
                return Err(SealBlockError::CoinbaseFailed(ApplyTxError::SmtCorruption));
            },
        };
        if base.0 > u128::MAX - MICRO_CONVERTER {
            return Err(SealBlockError::CoinbaseFailed(ApplyTxError::StateCorruption));
        }
        match ip.handle.set_balance(
            &seal_info.proposer,
            TokenId(MEL_TOKEN),
            Quantity(base.0 + MICRO_CONVERTER),
        ) {
            Ok(()) => (),
            Err(e) => {
                return Err(SealBlockError::CoinbaseFailed(e));
            },
        }
        let parent_bytes = encode_header(&parent);
        let prev = hash_bytes(parent_bytes.as_slice());
        let root = ip.handle.root_hash();
        let header = Header {
            chain_id: parent.chain_id,
            prev,
            height: parent.height + 1,
            gas_price: seal_info.new_gas_price,
            state: root,
        };
        Ok(Block { header, transactions: ip.transactions, seal_info })
    }

    /// Replays a candidate block's transactions over this fresh in-progress
    /// block, seals with the candidate's sealing info, and demands that the
    /// header produced equal the candidate's. On success the block handed
    /// back carries the candidate's own fields.
    pub fn replay_and_check(self, candidate: &Block) -> (r: Result<Block, ApplyBlockError>)
        requires
            self.header().wf(),
            self.header().height < u64::MAX,
            self.txs() == Seq::<Transaction>::empty(),
            candidate.wf(),
        ensures
            candidate.transactions@.len() > 0 && candidate.transactions@[0].chain_id.0
                != self.header().chain_id.0 ==> r == Err::<Block, ApplyBlockError>(
                ApplyBlockError::ApplyTxFailed(ApplyTxError::WrongNetId),
            ),
            match r {
                Ok(b) => spec_validate(self.header(), self.contents(), *candidate) == Ok::<
                    (),
                    ApplyBlockError,
                >(()) && header_matches(b.header, candidate.header) && txs_eqv(
                    b.transactions@,
                    candidate.transactions@,
                ) && b.seal_info == candidate.seal_info,
                Err(e) => is_store_fault(e) || spec_validate(self.header(), self.contents(), *candidate)
                    == Err::<(), ApplyBlockError>(e),
            },
    {
        let ghost parent = self.header();
        let ghost m0 = self.contents();
        let mut next = self;
        let mut i: usize = 0;
        while i < candidate.transactions.len()
            invariant
                i <= candidate.transactions@.len(),
                self.header() == parent,
                self.contents() == m0,
                parent.wf(),
                parent.height < u64::MAX,
                candidate.wf(),
                next.header() == parent,
                i > 0 ==> candidate.transactions@[0].chain_id.0 == parent.chain_id.0,
                txs_eqv(next.txs(), candidate.transactions@.take(i as int)),
                spec_replay(parent, m0, candidate.transactions@) == spec_replay(
                    parent,
                    next.contents(),
                    candidate.transactions@.skip(i as int),
                ),
            decreases candidate.transactions@.len() - i,
        {
            let ghost rest = candidate.transactions@.skip(i as int);
            let ghost m_iter = next.contents();
            proof {
                assert(rest.len() > 0);
                assert(rest[0] == candidate.transactions@[i as int]);
                assert(rest.skip(1) =~= candidate.transactions@.skip(i as int + 1));
            }
            let txn = candidate.transactions[i].duplicate();
            proof {
                crate::state::lemma_apply_tx_eqv(
                    parent,
                    m_iter,
                    txn,
                    candidate.transactions@[i as int],
                );
            }
            match next.apply_tx(txn) {
                Ok(()) => (),
                Err(e) => {
                    proof {
                        if e != ApplyTxError::SmtCorruption {
                            assert(spec_replay(parent, m_iter, rest) == Err::<
                                Map<Seq<u8>, Seq<u8>>,
                                ApplyTxError,
                            >(e));
                        }
                    }
                    return Err(ApplyBlockError::ApplyTxFailed(e));
                },
            }
            proof {
                assert(candidate.transactions@.take(i as int + 1) =~= candidate.transactions@.take(
                    i as int,
                ).push(candidate.transactions@[i as int]));
            }
            i = i + 1;
        }
        proof {
            assert(candidate.transactions@.skip(candidate.transactions@.len() as int) =~= Seq::<
                Transaction,
            >::empty());
            assert(candidate.transactions@.take(candidate.transactions@.len() as int)
                =~= candidate.transactions@);
        }
        let ghost m1 = next.contents();
        let sealed_block = match next.sealed(candidate.seal_info) {
            Ok(b) => b,
            Err(e) => {
                return Err(ApplyBlockError::SealFailed(e));
            },
        };
        if !eq_header(&sealed_block.header, &candidate.header) {
            return Err(ApplyBlockError::HeaderMismatch);
        }
        Ok(sealed_block)
    }
}

impl Block {
    /// Every transaction carries a well-formed (strictly ascending) asset
    /// list.
    pub open spec fn wf(self) -> bool {
        forall|i: int| 0 <= i < self.transactions@.len() ==> (#[trigger] self.transactions@[i]).wf()
    }

    /// The betanet genesis block: height zero, no parent, empty state, gas
    /// priced at one million micro-MEL.
    pub fn betanet_genesis() -> (b: Block)
        ensures
            b.header.chain_id.0 == BETANET_ID,
            b.header.prev@ == zero_hash_seq(),
            b.header.height == 0,
            b.header.gas_price.0 == MICRO_CONVERTER,
            b.header.state@ == zero_hash_seq(),
            b.transactions@ == Seq::<Transaction>::empty(),
            b.seal_info.proposer@ == zero_hash_seq(),
            b.seal_info.new_gas_price.0 == MICRO_CONVERTER,
            b.header.wf(),
            b.wf(),
    {
        Block {
            header: Header {
                chain_id: NetId(BETANET_ID),
                prev: HashVal::zero(),
                height: 0,
                gas_price: Quantity(MICRO_CONVERTER),
                state: HashVal::zero(),
            },
            transactions: Vec::new(),
            seal_info: SealingInfo {
                proposer: Address::zero(),
                new_gas_price: Quantity(MICRO_CONVERTER),
            },
        }
    }

    /// The testnet genesis block: as betanet's, under the testnet chain id.
    pub fn testnet_genesis() -> (b: Block)
        ensures
            b.header.chain_id.0 == TESTNET_ID,
            b.header.prev@ == zero_hash_seq(),
            b.header.height == 0,
            b.header.gas_price.0 == MICRO_CONVERTER,
            b.header.state@ == zero_hash_seq(),
            b.transactions@ == Seq::<Transaction>::empty(),
            b.seal_info.proposer@ == zero_hash_seq(),
            b.seal_info.new_gas_price.0 == MICRO_CONVERTER,
            b.header.wf(),
            b.wf(),
    {
        let mut b = Self::betanet_genesis();
        b.header.chain_id = NetId(TESTNET_ID);
        b
    }

    /// Given this block and a node store, an in-progress structure for the
    /// next block, rooted at this block's state.
    pub fn next_block(&self, store: &SmtStore) -> (ip: InProgressBlock)
        ensures
            ip.header() == self.header,
            ip.txs() == Seq::<Transaction>::empty(),
            ip.contents() == smt_committed(self.header.state@),
            self.header.state@ == zero_hash_seq() ==> ip.contents() === Map::empty(),
    {
        let zero = HashVal::zero();
        let tree = if eq_hash(&self.header.state, &zero) {
            SmtTree::open_empty(store)
        } else {
            SmtTree::open(store, &self.header.state)
        };
        InProgressBlock { handle: StateHandle::new(self.header, tree), transactions: Vec::new() }
    }

    /// Applies and validates a candidate next block: replay its
    /// transactions from this block's state, seal with its sealing info,
    /// and accept exactly when the produced header matches field for field.
    pub fn apply_and_validate(&self, block: &Block, store: &SmtStore) -> (r: Result<
        Block,
        ApplyBlockError,
    >)
        requires
            self.header.wf(),
            self.header.height < u64::MAX,
            block.wf(),
        ensures
            r matches Ok(b) ==> header_matches(b.header, block.header) && txs_eqv(
                b.transactions@,
                block.transactions@,
            ) && b.seal_info == block.seal_info,
            match r {
                Ok(_) => spec_validate(self.header, smt_committed(self.header.state@), *block)
                    == Ok::<(), ApplyBlockError>(()),
                Err(e) => is_store_fault(e) || spec_validate(
                    self.header,
                    smt_committed(self.header.state@),
                    *block,
                ) == Err::<(), ApplyBlockError>(e),
            },
            r is Ok ==> drift_ok(self.header.gas_price.0, block.seal_info.new_gas_price.0)
                && block.header.chain_id.0 == self.header.chain_id.0 && block.header.height
                == self.header.height + 1 && block.header.prev@ == blake3_of(
                enc_header(self.header),
            ),
            block.transactions@.len() > 0 && block.transactions@[0].chain_id.0
                != self.header.chain_id.0 ==> r == Err::<Block, ApplyBlockError>(
                ApplyBlockError::ApplyTxFailed(ApplyTxError::WrongNetId),
            ),
            self.header.state@ == zero_hash_seq() ==> match r {
                Ok(_) => spec_validate(self.header, Map::empty(), *block) == Ok::<
                    (),
                    ApplyBlockError,
                >(()),
                Err(e) => is_store_fault(e) || spec_validate(self.header, Map::empty(), *block)
                    == Err::<(), ApplyBlockError>(e),
            },
    {
        let next = self.next_block(store);
        let r = next.replay_and_check(block);
        proof {
            let m0c = smt_committed(self.header.state@);
            if self.header.state@ == zero_hash_seq() {
                assert(m0c === Map::<Seq<u8>, Seq<u8>>::empty());
            }
        }
        r
    }
}

} // verus!
