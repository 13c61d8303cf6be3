mod block;
mod codec;
mod contract;
mod crypto;
mod laws;
mod math;
mod smt;
mod state;
mod transaction;

pub use block::{eq_header, header_matches, is_store_fault, spec_coinbase_fits, spec_replay, spec_seal_map, spec_validate, ApplyBlockError, Block, InProgressBlock, SealBlockError, SealingInfo};
pub use codec::{decode_contract, decode_quantity, enc_block, enc_bytes, enc_contract, enc_header, enc_quantity, enc_sealing, enc_tx, enc_tx_signing, enc_txs, encode_block, encode_contract, encode_header, encode_quantity, encode_sealing, encode_transaction, encode_tx_for_signing, dec_contract, dec_quantity, lemma_contract_round_trip, lemma_quantity_round_trip, lemma_header_enc_injective, decode_address, decode_block, decode_hashval, decode_header, decode_netid, decode_sealing, decode_tokenid, decode_transaction, sorted_assets, assets_hyp, tx_hyp, txs_hyp};
pub use contract::{blob_key, blob_tag, eq_addr, key_tuple_enc, spec_call_hash, spec_execute, token_key, token_tag, Address, ContractCode};
pub use crypto::{blake3_of, ed25519_verify, eq_hash, zero_hash_seq, HashVal};
pub use laws::{held, lemma_apply_tx_conserves, lemma_apply_tx_frame, lemma_fee_to_gas_monotonic, lemma_seal_deterministic, lemma_validation_agrees, nominal_bal, seals_to, spec_apply_tx_gas_after_contracts, token_keys_injective};
pub use math::{drift_lower, drift_ok, drift_upper, gas_price_in_range, mul_mil_div};
pub use smt::{smt_committed, smt_contents, smt_lookup, smt_root_of, SmtError, SmtStore, SmtTree};
pub use state::{spec_apply_assets, spec_apply_tx, spec_balance_or_zero, spec_fee_to_gas, spec_get_balance, spec_load_contract, spec_set_balance, spec_coinbase_base, lemma_apply_tx_eqv, ApplyTxError, Header, StateHandle};
pub use transaction::{dec_chars, display_chars, frac_chars, spec_digit, spec_signing_hash, tx_eqv, txs_eqv, NetId, Quantity, TokenId, Transaction, BETANET_ID, MEL_TOKEN, MICRO_CONVERTER, TESTNET_ID};
