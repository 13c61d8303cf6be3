use melcore::{
    Address, ApplyTxError, Block, ContractCode, HashVal, Header, NetId, Quantity, SealingInfo,
    SmtStore, SmtTree, TokenId, Transaction,
};

fn plain_tx(chain: u16, from: Address, to: Address, fee: u128) -> Transaction {
    Transaction {
        chain_id: NetId(chain),
        nonce: 0,
        from,
        to,
        fee: Quantity(fee),
        assets: Vec::new(),
        auth_data: Vec::new(),
        call_data: Vec::new(),
    }
}

/// A parent block whose state holds Ed25519 contracts for `from` and `to`,
/// and `from_mel` micro-MEL for `from`.
fn seeded_parent(
    store: &SmtStore,
    from: Address,
    from_pk: [u8; 32],
    to: Address,
    to_pk: [u8; 32],
    from_mel: u128,
) -> Block {
    let mut genesis = Block::testnet_genesis();
    let tree = SmtTree::open_empty(store);
    let tree = tree
        .with(
            &HashVal(from.0),
            melcore::encode_contract(&ContractCode::Ed25519PK(from_pk)).as_slice(),
        )
        .unwrap();
    let tree = tree
        .with(
            &HashVal(to.0),
            melcore::encode_contract(&ContractCode::Ed25519PK(to_pk)).as_slice(),
        )
        .unwrap();
    let tree = tree
        .with(
            &from.token_state_key(TokenId(0)),
            melcore::encode_quantity(Quantity(from_mel)).as_slice(),
        )
        .unwrap();
    genesis.header.state = tree.root_hash();
    genesis
}

#[test]
fn wrong_network_rejected() {
    let store = SmtStore::new();
    let g = Block::testnet_genesis();
    let mut next = g.next_block(&store);
    let txn = plain_tx(0x0814, Address::zero(), Address::zero(), 0);
    let r = next.apply_tx(txn);
    assert!(matches!(r, Err(ApplyTxError::WrongNetId)));
    // the failed transaction left the in-progress block untouched: sealing
    // still yields the empty block
    let sealed = next
        .sealed(SealingInfo { proposer: Address::zero(), new_gas_price: Quantity(1_000_000) })
        .unwrap();
    assert!(sealed.transactions.is_empty());
}

#[test]
fn missing_contract_is_state_corruption() {
    let store = SmtStore::new();
    let g = Block::testnet_genesis();
    let mut next = g.next_block(&store);
    let txn = plain_tx(0xffff, Address::zero(), Address::zero(), 0);
    let r = next.apply_tx(txn);
    assert!(matches!(r, Err(ApplyTxError::StateCorruption)));
}

#[test]
fn zero_fee_runs_out_of_gas() {
    let (pk, _sk) = keypair();
    let store = SmtStore::new();
    let from = Address([1u8; 32]);
    let to = Address([2u8; 32]);
    let parent = seeded_parent(&store, from, pk, to, pk, 5_000_000);
    let mut next = parent.next_block(&store);
    // a zero fee buys zero gas; the from-side contract charges 10_000
    let r = next.apply_tx(plain_tx(0xffff, from, to, 0));
    assert!(matches!(r, Err(ApplyTxError::OutOfGas)));
}

fn keypair() -> ([u8; 32], tmelcrypt::Ed25519SK) {
    let sk = tmelcrypt::Ed25519SK::generate();
    (sk.to_public().0, sk)
}

#[test]
fn signature_covers_tx_without_auth_data() {
    // two transactions differing only in auth_data share a signing hash
    let from = Address([1u8; 32]);
    let to = Address([2u8; 32]);
    let mut t1 = plain_tx(0xffff, from, to, 1_000_000);
    let mut t2 = plain_tx(0xffff, from, to, 1_000_000);
    t1.auth_data = vec![1, 2, 3];
    t2.auth_data = vec![9, 9, 9, 9];
    assert_eq!(t1.signing_hash(), t2.signing_hash());
    t2.nonce = 1;
    assert_ne!(t1.signing_hash(), t2.signing_hash());
}

#[test]
fn signed_tx_authorizes_unsigned_fails() {
    let (pk, sk) = keypair();
    let store = SmtStore::new();
    let from = Address([1u8; 32]);
    let to = Address([2u8; 32]);
    let parent = seeded_parent(&store, from, pk, to, pk, 5_000_000);

    // without a valid signature, from-side authorization rejects
    let mut next = parent.next_block(&store);
    let unsigned = plain_tx(0xffff, from, to, 1_000_000);
    let r = next.apply_tx(unsigned);
    assert!(matches!(r, Err(ApplyTxError::FromFailed)));

    // with a valid signature the from side accepts; the Ed25519 contract
    // never accepts incoming calls, so the transaction then fails on the
    // to side — showing the authorization itself passed
    let mut signed = plain_tx(0xffff, from, to, 1_000_000);
    let sighash = signed.signing_hash();
    signed.auth_data = sk.sign(&sighash.0);
    let r2 = next.apply_tx(signed);
    assert!(matches!(r2, Err(ApplyTxError::ToFailed)));
}

#[test]
fn token_state_keys_are_distinct() {
    let a = Address([1u8; 32]);
    let b = Address([2u8; 32]);
    assert_eq!(a.token_state_key(TokenId(0)), a.token_state_key(TokenId(0)));
    assert_ne!(a.token_state_key(TokenId(0)), a.token_state_key(TokenId(1)));
    assert_ne!(a.token_state_key(TokenId(0)), b.token_state_key(TokenId(0)));
    assert_ne!(a.token_state_key(TokenId(7)), a.blob_state_key(TokenId(7)));
}

#[test]
fn fee_to_gas_values() {
    let mut h = Header {
        chain_id: NetId(0xffff),
        prev: HashVal([0u8; 32]),
        height: 0,
        gas_price: Quantity(1_000_000),
        state: HashVal([0u8; 32]),
    };
    // at the genesis price, one micro-unit of fee buys one gas
    assert_eq!(h.fee_to_gas(Quantity(1_500_000)), 1_500_000);
    assert_eq!(h.fee_to_gas(Quantity(0)), 0);
    h.gas_price = Quantity(3);
    assert_eq!(h.fee_to_gas(Quantity(10)), 3_333_333);
    h.gas_price = Quantity(1);
    // saturates at the largest 64-bit value
    assert_eq!(h.fee_to_gas(Quantity(u128::MAX)), u64::MAX);
    h.gas_price = Quantity(u128::MAX);
    assert_eq!(h.fee_to_gas(Quantity(u128::MAX - 1)), 999_999);
}

#[test]
fn fee_to_gas_monotone_samples() {
    let h = Header {
        chain_id: NetId(0xffff),
        prev: HashVal([0u8; 32]),
        height: 0,
        gas_price: Quantity(7),
        state: HashVal([0u8; 32]),
    };
    let mut prev = 0u64;
    for fee in 0..200u128 {
        let g = h.fee_to_gas(Quantity(fee));
        assert!(g >= prev);
        prev = g;
    }
}

#[test]
fn drift_range_values() {
    // p = 9: floor(81/10) = 8, floor(90/9) + 1 = 11
    assert!(melcore::gas_price_in_range(9, 8));
    assert!(!melcore::gas_price_in_range(9, 7));
    assert!(melcore::gas_price_in_range(9, 11));
    assert!(!melcore::gas_price_in_range(9, 12));
    // extremes stay overflow-free
    assert!(melcore::gas_price_in_range(u128::MAX, u128::MAX));
    assert!(!melcore::gas_price_in_range(u128::MAX, 1));
    assert!(melcore::gas_price_in_range(0, 0));
    assert!(melcore::gas_price_in_range(0, 1));
    assert!(!melcore::gas_price_in_range(0, 2));
}

#[test]
fn quantity_codec_round_trip() {
    for q in [0u128, 1, 42, 1_000_000, u128::MAX] {
        let enc = melcore::encode_quantity(Quantity(q));
        assert_eq!(enc.len(), 16);
        assert_eq!(melcore::decode_quantity(enc.as_slice()), Some(Quantity(q)));
    }
    assert_eq!(melcore::decode_quantity(&[0u8; 15]), None);
    assert_eq!(melcore::decode_quantity(&[]), None);
}

#[test]
fn contract_codec_round_trip() {
    let c = ContractCode::Ed25519PK([7u8; 32]);
    let enc = melcore::encode_contract(&c);
    assert_eq!(enc.len(), 33);
    assert_eq!(enc[0], 0);
    assert_eq!(melcore::decode_contract(enc.as_slice()), Some(c));
    assert_eq!(melcore::decode_contract(&enc[1..]), None);
}

#[test]
fn unknown_root_is_store_fault() {
    // a parent committing to a state root the store has never seen: reads
    // fail as store corruption
    let store = SmtStore::new();
    let mut parent = Block::testnet_genesis();
    parent.header.state = HashVal([0xabu8; 32]);
    let mut next = parent.next_block(&store);
    let r = next.apply_tx(plain_tx(0xffff, Address::zero(), Address::zero(), 0));
    assert!(matches!(r, Err(ApplyTxError::SmtCorruption)));
    let sealed = next.sealed(SealingInfo {
        proposer: Address::zero(),
        new_gas_price: Quantity(1_000_000),
    });
    assert!(matches!(
        sealed,
        Err(melcore::SealBlockError::CoinbaseFailed(ApplyTxError::SmtCorruption))
    ));
}

#[test]
fn validate_surfaces_tx_and_seal_failures() {
    let store = SmtStore::new();
    let g = Block::testnet_genesis();
    let good = g
        .next_block(&store)
        .sealed(SealingInfo { proposer: Address::zero(), new_gas_price: Quantity(1_000_000) })
        .unwrap();

    // a candidate carrying a transaction that cannot apply
    let mut bad_tx = good.clone();
    bad_tx.transactions.push(plain_tx(0x0814, Address::zero(), Address::zero(), 0));
    let r = g.apply_and_validate(&bad_tx, &store);
    assert!(matches!(
        r,
        Err(melcore::ApplyBlockError::ApplyTxFailed(ApplyTxError::WrongNetId))
    ));

    // a candidate whose sealing info drifts out of range
    let mut bad_seal = good.clone();
    bad_seal.seal_info.new_gas_price = Quantity(2_000_000);
    let r2 = g.apply_and_validate(&bad_seal, &store);
    assert!(matches!(
        r2,
        Err(melcore::ApplyBlockError::SealFailed(melcore::SealBlockError::GasPriceOutOfRange))
    ));
}
