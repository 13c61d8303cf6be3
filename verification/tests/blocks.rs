use melcore::{Address, Block, Quantity, SealingInfo, SmtStore, SmtTree, TokenId};

fn zero_sealing() -> SealingInfo {
    SealingInfo { proposer: Address::zero(), new_gas_price: Quantity(1_000_000) }
}

#[test]
pub fn testnet() {
    let testnet = Block::testnet_genesis();
    let store = SmtStore::new();
    let mut current = testnet.clone();
    for _ in 0..1000 {
        current = current.next_block(&store).sealed(zero_sealing()).unwrap();
    }
    assert_eq!(current.header.height, 1000);
    // the final state holds exactly the 1000 coinbase credits to the zero
    // address: 1000 whole MEL in micro-units
    let tree = SmtTree::open(&store, &current.header.state);
    let raw = tree
        .get(&Address::zero().token_state_key(TokenId(0)))
        .unwrap();
    let bal = melcore::decode_quantity(raw.as_slice()).unwrap();
    assert_eq!(bal, Quantity(1_000_000_000));
}

#[test]
fn genesis_fields() {
    let b = Block::betanet_genesis();
    assert_eq!(b.header.chain_id.0, 0x0814);
    assert_eq!(b.header.height, 0);
    assert_eq!(b.header.prev.0, [0u8; 32]);
    assert_eq!(b.header.state.0, [0u8; 32]);
    assert_eq!(b.header.gas_price, Quantity(1_000_000));
    assert!(b.transactions.is_empty());
    let t = Block::testnet_genesis();
    assert_eq!(t.header.chain_id.0, 0xffff);
    assert_eq!(t.header.height, 0);
}

#[test]
fn chain_linkage() {
    // consecutive sealed blocks: prev is the hash of the parent's canonical
    // header bytes, and the height increments by one
    let store = SmtStore::new();
    let b0 = Block::testnet_genesis();
    let b1 = b0.next_block(&store).sealed(zero_sealing()).unwrap();
    let b2 = b1.next_block(&store).sealed(zero_sealing()).unwrap();
    assert_eq!(b1.header.height, b0.header.height + 1);
    assert_eq!(b2.header.height, b1.header.height + 1);
    let h1 = melcore::encode_header(&b1.header);
    assert_eq!(b2.header.prev.0, tmelcrypt::hash_single(&h1).0);
}

#[test]
fn gas_price_drift_bounds() {
    // parent gas price 1_000_000: the sealed price must lie in
    // [900_000, 1_111_112]
    let store = SmtStore::new();
    let g = Block::testnet_genesis();
    let hi_ok = g.next_block(&store).sealed(SealingInfo {
        proposer: Address::zero(),
        new_gas_price: Quantity(1_111_112),
    });
    assert!(hi_ok.is_ok());
    let hi_bad = g.next_block(&store).sealed(SealingInfo {
        proposer: Address::zero(),
        new_gas_price: Quantity(1_111_113),
    });
    assert!(matches!(hi_bad, Err(melcore::SealBlockError::GasPriceOutOfRange)));
    let lo_ok = g.next_block(&store).sealed(SealingInfo {
        proposer: Address::zero(),
        new_gas_price: Quantity(900_000),
    });
    assert!(lo_ok.is_ok());
    let lo_bad = g.next_block(&store).sealed(SealingInfo {
        proposer: Address::zero(),
        new_gas_price: Quantity(899_999),
    });
    assert!(matches!(lo_bad, Err(melcore::SealBlockError::GasPriceOutOfRange)));
}

#[test]
fn validate_accepts_produced_block() {
    let store = SmtStore::new();
    let g = Block::testnet_genesis();
    let b1 = g.next_block(&store).sealed(zero_sealing()).unwrap();
    let validated = g.apply_and_validate(&b1, &store).unwrap();
    assert_eq!(validated.header, b1.header);
    assert_eq!(validated.seal_info.new_gas_price, b1.seal_info.new_gas_price);
}

#[test]
fn validate_rejects_tampered_header() {
    let store = SmtStore::new();
    let g = Block::testnet_genesis();
    let b1 = g.next_block(&store).sealed(zero_sealing()).unwrap();
    // flip one bit of the committed state root
    let mut tampered = b1.clone();
    tampered.header.state.0[0] ^= 1;
    let r = g.apply_and_validate(&tampered, &store);
    assert!(matches!(r, Err(melcore::ApplyBlockError::HeaderMismatch)));
}

#[test]
fn validate_rejects_tampered_seal_info() {
    let store = SmtStore::new();
    let g = Block::testnet_genesis();
    let b1 = g.next_block(&store).sealed(zero_sealing()).unwrap();
    // change the sealing info but leave the header: replay derives a
    // different gas price, so the header no longer matches
    let mut tampered = b1.clone();
    tampered.seal_info.new_gas_price = Quantity(999_999);
    let r = g.apply_and_validate(&tampered, &store);
    assert!(matches!(r, Err(melcore::ApplyBlockError::HeaderMismatch)));
}

#[test]
fn sealing_is_deterministic() {
    // the same parent and the same sealing info yield bit-equal headers,
    // on independent stores
    let g = Block::testnet_genesis();
    let store_a = SmtStore::new();
    let store_b = SmtStore::new();
    let a = g.next_block(&store_a).sealed(zero_sealing()).unwrap();
    let b = g.next_block(&store_b).sealed(zero_sealing()).unwrap();
    assert_eq!(a.header, b.header);
    assert_eq!(
        melcore::encode_header(&a.header),
        melcore::encode_header(&b.header)
    );
}

#[test]
fn quantity_display() {
    assert_eq!(Quantity(1_500_000).display(), "1.500000");
    assert_eq!(Quantity(42).display(), "0.000042");
    assert_eq!(Quantity(0).display(), "0.000000");
}

#[test]
fn validate_accepts_produced_block_past_genesis() {
    // validation agrees with production from a non-empty committed state
    let store = SmtStore::new();
    let g = Block::testnet_genesis();
    let b1 = g.next_block(&store).sealed(zero_sealing()).unwrap();
    let b2 = b1.next_block(&store).sealed(zero_sealing()).unwrap();
    let validated = b1.apply_and_validate(&b2, &store).unwrap();
    assert_eq!(validated.header, b2.header);
}
