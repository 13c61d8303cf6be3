use melcore::{
    Address, Block, ContractCode, HashVal, Header, NetId, Quantity, SealingInfo, TokenId,
    Transaction,
};

fn sample_header() -> Header {
    Header {
        chain_id: NetId(0x0814),
        prev: HashVal([3u8; 32]),
        height: 77,
        gas_price: Quantity(1_000_000),
        state: HashVal([9u8; 32]),
    }
}

fn sample_tx() -> Transaction {
    Transaction {
        chain_id: NetId(0xffff),
        nonce: 5,
        from: Address([1u8; 32]),
        to: Address([2u8; 32]),
        fee: Quantity(321),
        assets: vec![
            (TokenId(0), Quantity(17)),
            (TokenId(3), Quantity(1_000_000_000)),
            (TokenId(900), Quantity(u128::MAX)),
        ],
        auth_data: vec![7, 8, 9],
        call_data: vec![],
    }
}

#[test]
fn header_round_trip() {
    let h = sample_header();
    let enc = melcore::encode_header(&h);
    assert_eq!(enc.len(), 90);
    assert_eq!(melcore::decode_header(enc.as_slice()), Some(h));
    assert_eq!(melcore::decode_header(&enc[1..]), None);
    let mut bad = enc.clone();
    bad.push(0);
    assert_eq!(melcore::decode_header(bad.as_slice()), None);
}

#[test]
fn sealing_round_trip() {
    let s = SealingInfo { proposer: Address([4u8; 32]), new_gas_price: Quantity(123_456) };
    let enc = melcore::encode_sealing(&s);
    assert_eq!(enc.len(), 48);
    assert_eq!(melcore::decode_sealing(enc.as_slice()), Some(s));
    assert_eq!(melcore::decode_sealing(&enc[..47]), None);
}

#[test]
fn transaction_round_trip() {
    let t = sample_tx();
    let enc = melcore::encode_transaction(&t);
    let back = melcore::decode_transaction(enc.as_slice()).unwrap();
    assert_eq!(back.chain_id, t.chain_id);
    assert_eq!(back.nonce, t.nonce);
    assert_eq!(back.from, t.from);
    assert_eq!(back.to, t.to);
    assert_eq!(back.fee, t.fee);
    assert_eq!(back.assets, t.assets);
    assert_eq!(back.auth_data, t.auth_data);
    assert_eq!(back.call_data, t.call_data);
    // trailing garbage is rejected
    let mut bad = enc.clone();
    bad.push(0);
    assert!(melcore::decode_transaction(bad.as_slice()).is_none());
    assert!(melcore::decode_transaction(&enc[..enc.len() - 1]).is_none());
}

#[test]
fn unsorted_assets_rejected() {
    let mut t = sample_tx();
    t.assets = vec![(TokenId(3), Quantity(1)), (TokenId(3), Quantity(2))];
    let enc = melcore::encode_transaction(&t);
    // a duplicate token id is not an ordered map: no canonical decode
    assert!(melcore::decode_transaction(enc.as_slice()).is_none());
}

#[test]
fn block_round_trip() {
    let b = Block {
        header: sample_header(),
        transactions: vec![sample_tx(), sample_tx()],
        seal_info: SealingInfo { proposer: Address([4u8; 32]), new_gas_price: Quantity(999_999) },
    };
    let enc = melcore::encode_block(&b);
    let back = melcore::decode_block(enc.as_slice()).unwrap();
    assert_eq!(back.header, b.header);
    assert_eq!(back.seal_info, b.seal_info);
    assert_eq!(back.transactions.len(), 2);
    assert_eq!(back.transactions[0].assets, b.transactions[0].assets);
    let mut bad = enc.clone();
    bad.push(1);
    assert!(melcore::decode_block(bad.as_slice()).is_none());
}

#[test]
fn empty_block_round_trip() {
    let g = Block::testnet_genesis();
    let enc = melcore::encode_block(&g);
    assert_eq!(enc.len(), 90 + 8 + 48);
    let back = melcore::decode_block(enc.as_slice()).unwrap();
    assert_eq!(back.header, g.header);
    assert!(back.transactions.is_empty());
}

#[test]
fn small_decoders_round_trip() {
    assert_eq!(melcore::decode_netid(&[0x14, 0x08]), Some(NetId(0x0814)));
    assert_eq!(melcore::decode_netid(&[0x14]), None);
    assert_eq!(melcore::decode_tokenid(&[1, 0, 0, 0, 0, 0, 0, 0]), Some(TokenId(1)));
    assert_eq!(melcore::decode_address(&[5u8; 32]), Some(Address([5u8; 32])));
    assert_eq!(melcore::decode_address(&[5u8; 31]), None);
    assert_eq!(melcore::decode_hashval(&[6u8; 32]), Some(HashVal([6u8; 32])));
}
