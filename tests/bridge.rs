use anchor_lang::solana_program::pubkey::Pubkey;
use pools::accounts::Key;
use pools::bridge::{
    apply_message, apply_token, check_bridge_vault, check_ed25519_data, claim_message, claim_token,
    initialize, initialize_user_account, verify_ed25519_data, with_fee, ApplyOrder, BridgeErrors,
    ClaimOrder,
};
use pools::bytes::{be_i64, be_u64};

fn key(n: u8) -> Key {
    Key { bytes: [n; 32] }
}

fn ed25519_data(pubkey: &[u8], sig: &[u8], msg: &[u8]) -> Vec<u8> {
    let sig_off = (16 + pubkey.len()) as u16;
    let msg_off = sig_off + sig.len() as u16;
    let mut d = vec![1u8, 0];
    d.extend_from_slice(&sig_off.to_le_bytes());
    d.extend_from_slice(&[255, 255]);
    d.extend_from_slice(&16u16.to_le_bytes());
    d.extend_from_slice(&[255, 255]);
    d.extend_from_slice(&msg_off.to_le_bytes());
    d.extend_from_slice(&(msg.len() as u16).to_le_bytes());
    d.extend_from_slice(&[255, 255]);
    d.extend_from_slice(pubkey);
    d.extend_from_slice(sig);
    d.extend_from_slice(msg);
    d
}

fn claim_order(deadline: i64) -> ClaimOrder {
    ClaimOrder {
        order_id: [5; 32],
        applicant: [6; 32],
        recipient: [42; 32],
        to_chain_id: [0, 0, 0, 0, 0, 0, 0, 56],
        to_token: [8; 32],
        amount: 1_500u64.to_be_bytes(),
        deadline: deadline.to_be_bytes(),
        signature: [9; 64],
    }
}

fn apply_order(deadline: i64, amount: u64) -> ApplyOrder {
    ApplyOrder {
        order_id: [5; 32],
        applicant: [42; 32],
        recipient: [6; 32],
        from_chain_id: [0, 0, 0, 0, 0, 0, 0, 1],
        from_token: [8; 32],
        amount: amount.to_be_bytes(),
        to_chain_id: [0, 0, 0, 0, 0, 0, 0, 56],
        deadline: deadline.to_be_bytes(),
        signature: [9; 64],
    }
}

#[test]
fn big_endian_numbers() {
    assert_eq!(be_u64(&[0, 0, 0, 0, 0, 0, 1, 2]), 258);
    assert_eq!(be_u64(&[255; 8]), u64::MAX);
    assert_eq!(be_i64(&[255; 8]), -1);
    assert_eq!(be_i64(&[128, 0, 0, 0, 0, 0, 0, 0]), i64::MIN);
    assert_eq!(be_i64(&1_700_000_000i64.to_be_bytes()), 1_700_000_000);
}

#[test]
fn messages_concatenate_fields() {
    let c = claim_order(100);
    let m = claim_message(&c);
    assert_eq!(m.len(), 152);
    assert_eq!(&m[0..32], &[5u8; 32]);
    assert_eq!(&m[96..104], &c.to_chain_id);
    assert_eq!(&m[144..152], &100i64.to_be_bytes());
    let a = apply_order(100, 7);
    let m = apply_message(&a);
    assert_eq!(m.len(), 160);
    assert_eq!(&m[136..144], &a.amount);
    assert_eq!(&m[144..152], &a.to_chain_id);
}

#[test]
fn ed25519_data_layout() {
    let pk = [3u8; 32];
    let sig = [4u8; 64];
    let msg = b"hello".to_vec();
    let data = ed25519_data(&pk, &sig, &msg);
    assert_eq!(check_ed25519_data(&data, &pk, &msg, &sig), Ok(()));
    assert_eq!(verify_ed25519_data(&data, &pk, &msg, &sig), Ok(()));
    let mut bad = data.clone();
    bad[0] = 2;
    assert_eq!(check_ed25519_data(&bad, &pk, &msg, &sig), Err(BridgeErrors::SignatureVerificationFailed));
    let mut bad = data.clone();
    bad[20] ^= 1;
    assert_eq!(check_ed25519_data(&bad, &pk, &msg, &sig), Err(BridgeErrors::SignatureVerificationFailed));
    assert_eq!(
        check_ed25519_data(&data, &pk, b"hellp", &sig),
        Err(BridgeErrors::SignatureVerificationFailed)
    );
    let mut longer = data.clone();
    longer.push(0);
    assert_eq!(
        verify_ed25519_data(&longer, &pk, &msg, &sig),
        Err(BridgeErrors::SignatureVerificationFailed)
    );
}

#[test]
fn claim_token_records_order_once() {
    let g = initialize([3; 32], 0);
    let mut u = initialize_user_account(key(42), key(8));
    let o = claim_order(1000);
    let data = ed25519_data(&g.signer, &o.signature, &claim_message(&o));
    assert_eq!(claim_token(&g, &mut u, &key(42), 999, true, &data, &o), Ok(1500));
    assert_eq!(u.token_claims.len(), 1);
    assert_eq!(u.token_claims[0].order_id, [5; 32]);
    assert_eq!(
        claim_token(&g, &mut u, &key(42), 999, true, &data, &o),
        Err(BridgeErrors::DuplicatedOrderId)
    );
    assert_eq!(u.token_claims.len(), 1);
}

#[test]
fn claim_token_rejections() {
    let g = initialize([3; 32], 0);
    let mut u = initialize_user_account(key(42), key(8));
    let o = claim_order(1000);
    let data = ed25519_data(&g.signer, &o.signature, &claim_message(&o));
    assert_eq!(
        claim_token(&g, &mut u, &key(42), 1001, true, &data, &o),
        Err(BridgeErrors::TransactionExpired)
    );
    assert_eq!(
        claim_token(&g, &mut u, &key(42), 1000, false, &data, &o),
        Err(BridgeErrors::SignatureVerificationFailed)
    );
    let other = ed25519_data(&[4; 32], &o.signature, &claim_message(&o));
    assert_eq!(
        claim_token(&g, &mut u, &key(42), 1000, true, &other, &o),
        Err(BridgeErrors::SignatureVerificationFailed)
    );
    assert_eq!(
        claim_token(&g, &mut u, &key(41), 1000, true, &data, &o),
        Err(BridgeErrors::InvalidAccess)
    );
    assert!(u.token_claims.is_empty());
}

#[test]
fn apply_token_adds_fee() {
    let g = initialize([3; 32], 2_500_000);
    let mut u = initialize_user_account(key(42), key(8));
    let o = apply_order(1000, 1_000_000);
    let data = ed25519_data(&g.signer, &o.signature, &apply_message(&o));
    assert_eq!(apply_token(&g, &mut u, &key(42), 5, true, &data, &o), Ok(1_002_500));
    assert_eq!(u.token_applies.len(), 1);
    assert_eq!(
        apply_token(&g, &mut u, &key(42), 5, true, &data, &o),
        Err(BridgeErrors::DuplicatedOrderId)
    );
    assert_eq!(
        apply_token(&g, &mut u, &key(7), 5, true, &data, &apply_order(1000, 1_000_000)),
        Err(BridgeErrors::DuplicatedOrderId)
    );
}

#[test]
fn apply_token_rejections() {
    let g = initialize([3; 32], 2_000_000_000);
    let mut u = initialize_user_account(key(42), key(8));
    let o = apply_order(1000, u64::MAX);
    let data = ed25519_data(&g.signer, &o.signature, &apply_message(&o));
    assert_eq!(apply_token(&g, &mut u, &key(42), 5, true, &data, &o), Err(BridgeErrors::MathOverflow));
    assert_eq!(
        apply_token(&g, &mut u, &key(42), 1001, true, &data, &o),
        Err(BridgeErrors::TransactionExpired)
    );
    let o = apply_order(1000, 10);
    let data = ed25519_data(&g.signer, &o.signature, &apply_message(&o));
    assert_eq!(apply_token(&g, &mut u, &key(6), 5, true, &data, &o), Err(BridgeErrors::InvalidAccess));
    assert_eq!(apply_token(&g, &mut u, &key(42), 5, true, &data, &o), Ok(30));
}

#[test]
fn fee_formula() {
    assert_eq!(with_fee(1_000, 1_000_000), Some(1_001));
    assert_eq!(with_fee(999, 1_000_000), Some(999));
    assert_eq!(with_fee(u64::MAX, 0), Some(u64::MAX));
    assert_eq!(with_fee(u64::MAX, 1_000_000_000), None);
}

#[test]
fn bridge_vault_address() {
    let program = key(7);
    let mint = key(9);
    let (pda, bump) =
        Pubkey::find_program_address(&[b"vault", &mint.bytes], &Pubkey::new_from_array(program.bytes));
    let vault = Key { bytes: pda.to_bytes() };
    assert_eq!(check_bridge_vault(&mint, &vault, &program), Ok(bump));
    assert_eq!(check_bridge_vault(&mint, &mint, &program), Err(BridgeErrors::InvalidVaultPDA));
}
