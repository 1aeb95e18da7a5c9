//! The cross-chain bridge: orders to release or lock tokens, authorised by
//! an ed25519 signature over a fixed byte layout, with an expiry and
//! per-order replay protection.

use vstd::prelude::*;
use crate::accounts::Key;
use crate::bytes::{append, be_i64, be_signed, be_u64, be_value, le16, push_le16, range_equals};
use crate::fixed_point::UNIT;
use crate::vault::{find_program_address, program_address_of, vault_bump};

verus! {

broadcast use vstd::array::group_array_axioms;

/// Reasons a bridge order is rejected; a rejected order changes nothing.
#[derive(Debug, Clone, Copy, PartialEq, Eq, Structural)]
pub enum BridgeErrors {
    SignatureVerificationFailed,
    TransactionExpired,
    DuplicatedOrderId,
    InvalidAccess,
    InvalidVaultPDA,
    /// The amount with its fee does not fit in a `u64`.
    MathOverflow,
}

/// The bridge's signer and fee.
#[derive(Debug, Clone, Copy, PartialEq, Eq)]
pub struct GlobalAccount {
    /// Public key whose signature authorises orders.
    pub signer: [u8; 32],
    /// Fee on locked amounts, scaled by `UNIT`.
    pub token_fee_rate: u64,
}

/// An order that locked tokens here.
#[derive(Debug, Clone, Copy, PartialEq, Eq)]
pub struct TokenApply {
    pub order_id: [u8; 32],
    pub amount: [u8; 8],
}

/// An order that released tokens here.
#[derive(Debug, Clone, Copy, PartialEq, Eq)]
pub struct TokenClaim {
    pub order_id: [u8; 32],
    pub amount: [u8; 8],
}

/// The orders of one user for one token.
#[derive(Debug, Clone, PartialEq, Eq)]
pub struct UserAccount {
    pub owner: Key,
    pub token: Key,
    pub token_applies: Vec<TokenApply>,
    pub token_claims: Vec<TokenClaim>,
}

/// The bridge's settings.
pub fn initialize(signer: [u8; 32], token_fee_rate: u64) -> (r: GlobalAccount)
    ensures
        r == (GlobalAccount { signer, token_fee_rate }),
{
    GlobalAccount { signer, token_fee_rate }
}

/// An empty order ledger of `owner` for `token`.
pub fn initialize_user_account(owner: Key, token: Key) -> (r: UserAccount)
    ensures
        r.owner == owner,
        r.token == token,
        r.token_applies@.len() == 0,
        r.token_claims@.len() == 0,
{
    UserAccount { owner, token, token_applies: Vec::new(), token_claims: Vec::new() }
}

/// The header that the ed25519 program reads before one signature whose
/// public key, signature and message follow in the same instruction.
pub open spec fn ed25519_header(pubkey_len: int, sig_len: int, msg_len: int) -> Seq<u8> {
    let signature_offset = 16 + pubkey_len;
    let message_offset = signature_offset + sig_len;
    seq![1u8, 0u8] + le16(signature_offset) + seq![255u8, 255u8] + le16(16) + seq![255u8, 255u8]
        + le16(message_offset) + le16(msg_len) + seq![255u8, 255u8]
}

/// Whether `data` asks the ed25519 program to check signature `sig` of `msg`
/// by `pubkey`.
pub open spec fn ed25519_data_ok(data: Seq<u8>, pubkey: Seq<u8>, msg: Seq<u8>, sig: Seq<u8>) -> bool {
    &&& data.subrange(0, 16) == ed25519_header(pubkey.len() as int, sig.len() as int, msg.len() as int)
    &&& data.subrange(16, 48) == pubkey
    &&& data.subrange(48, 112) == sig
    &&& data.subrange(112, data.len() as int) == msg
}

/// Whether an ed25519 instruction's data is exactly the check of `sig`
/// of `msg` by `pubkey`.
pub open spec fn ed25519_instruction_ok(data: Seq<u8>, pubkey: Seq<u8>, msg: Seq<u8>, sig: Seq<u8>) -> bool {
    data.len() == 112 + msg.len() && ed25519_data_ok(data, pubkey, msg, sig)
}

/// Checks the header, public key, signature and message of an ed25519
/// instruction's data.
pub fn check_ed25519_data(data: &[u8], pubkey: &[u8], msg: &[u8], sig: &[u8]) -> (r: Result<(), BridgeErrors>)
    requires
        data@.len() >= 112,
        16 + pubkey@.len() + sig@.len() <= u16::MAX,
        msg@.len() <= u16::MAX,
    ensures
        r is Ok <==> ed25519_data_ok(data@, pubkey@, msg@, sig@),
        r is Err ==> r == Err::<(), BridgeErrors>(BridgeErrors::SignatureVerificationFailed),
{
    let signature_offset: u16 = 16 + pubkey.len() as u16;
    let message_offset: u16 = signature_offset + sig.len() as u16;
    let mut header: Vec<u8> = vec![1u8, 0u8];
    push_le16(&mut header, signature_offset);
    header.push(255);
    header.push(255);
    push_le16(&mut header, 16);
    header.push(255);
    header.push(255);
    push_le16(&mut header, message_offset);
    push_le16(&mut header, msg.len() as u16);
    header.push(255);
    header.push(255);
    assert(header@ =~= ed25519_header(pubkey@.len() as int, sig@.len() as int, msg@.len() as int));
    if !range_equals(data, 0, 16, header.as_slice()) || !range_equals(data, 16, 48, pubkey)
        || !range_equals(data, 48, 112, sig) || !range_equals(data, 112, data.len(), msg) {
        return Err(BridgeErrors::SignatureVerificationFailed);
    }
    Ok(())
}

/// Checks that an ed25519 instruction's data holds exactly the check of
/// `sig` of `msg` by `pubkey`.
pub fn verify_ed25519_data(data: &[u8], pubkey: &[u8], msg: &[u8], sig: &[u8]) -> (r: Result<(), BridgeErrors>)
    requires
        16 + pubkey@.len() + sig@.len() <= u16::MAX,
        msg@.len() <= u16::MAX,
    ensures
        r is Ok <==> ed25519_instruction_ok(data@, pubkey@, msg@, sig@),
        r is Err ==> r == Err::<(), BridgeErrors>(BridgeErrors::SignatureVerificationFailed),
{
    if data.len() < 112 || data.len() - 112 != msg.len() {
        return Err(BridgeErrors::SignatureVerificationFailed);
    }
    check_ed25519_data(data, pubkey, msg, sig)
}

/// The fields of an order that releases tokens here, with the signature that
/// authorises it.
#[derive(Debug, Clone, Copy, PartialEq, Eq)]
pub struct ClaimOrder {
    pub order_id: [u8; 32],
    pub applicant: [u8; 32],
    pub recipient: [u8; 32],
    pub to_chain_id: [u8; 8],
    pub to_token: [u8; 32],
    /// Big-endian amount.
    pub amount: [u8; 8],
    /// Big-endian unix time after which the order expires.
    pub deadline: [u8; 8],
    pub signature: [u8; 64],
}

/// The fields of an order that locks tokens here, with the signature that
/// authorises it.
#[derive(Debug, Clone, Copy, PartialEq, Eq)]
pub struct ApplyOrder {
    pub order_id: [u8; 32],
    pub applicant: [u8; 32],
    pub recipient: [u8; 32],
    pub from_chain_id: [u8; 8],
    pub from_token: [u8; 32],
    /// Big-endian amount.
    pub amount: [u8; 8],
    pub to_chain_id: [u8; 8],
    /// Big-endian unix time after which the order expires.
    pub deadline: [u8; 8],
    pub signature: [u8; 64],
}

/// The signed bytes of a release order: its fields in order.
pub open spec fn claim_message_of(o: ClaimOrder) -> Seq<u8> {
    o.order_id@ + o.applicant@ + o.recipient@ + o.to_chain_id@ + o.to_token@ + o.amount@
        + o.deadline@
}

/// The signed bytes of a lock order: its fields in order.
pub open spec fn apply_message_of(o: ApplyOrder) -> Seq<u8> {
    o.order_id@ + o.applicant@ + o.recipient@ + o.from_chain_id@ + o.from_token@ + o.amount@
        + o.to_chain_id@ + o.deadline@
}

/// The signed bytes of release order `o`.
pub fn claim_message(o: &ClaimOrder) -> (r: Vec<u8>)
    ensures
        r@ == claim_message_of(*o),
{
    let mut msg: Vec<u8> = Vec::new();
    append(&mut msg, o.order_id.as_slice());
    append(&mut msg, o.applicant.as_slice());
    append(&mut msg, o.recipient.as_slice());
    append(&mut msg, o.to_chain_id.as_slice());
    append(&mut msg, o.to_token.as_slice());
    append(&mut msg, o.amount.as_slice());
    append(&mut msg, o.deadline.as_slice());
    assert(msg@ =~= claim_message_of(*o));
    msg
}

/// The signed bytes of lock order `o`.
pub fn apply_message(o: &ApplyOrder) -> (r: Vec<u8>)
    ensures
        r@ == apply_message_of(*o),
{
    let mut msg: Vec<u8> = Vec::new();
    append(&mut msg, o.order_id.as_slice());
    append(&mut msg, o.applicant.as_slice());
    append(&mut msg, o.recipient.as_slice());
    append(&mut msg, o.from_chain_id.as_slice());
    append(&mut msg, o.from_token.as_slice());
    append(&mut msg, o.amount.as_slice());
    append(&mut msg, o.to_chain_id.as_slice());
    append(&mut msg, o.deadline.as_slice());
    assert(msg@ =~= apply_message_of(*o));
    msg
}

/// Whether order `id` has released tokens to this ledger.
pub open spec fn has_claimed(claims: Seq<TokenClaim>, id: [u8; 32]) -> bool {
    exists|i: int| 0 <= i < claims.len() && claims[i].order_id == id
}

/// Whether order `id` has locked tokens from this ledger.
pub open spec fn has_applied(applies: Seq<TokenApply>, id: [u8; 32]) -> bool {
    exists|i: int| 0 <= i < applies.len() && applies[i].order_id == id
}

/// An amount with the fee at `rate` added, rounded toward zero.
pub open spec fn with_fee_of(amount: int, rate: int) -> int {
    amount + amount * rate / (UNIT as int)
}

/// `amount` with the fee at `rate` added; `None` when it does not fit in a
/// `u64`.
pub fn with_fee(amount: u64, rate: u64) -> (r: Option<u64>)
    ensures
        with_fee_of(amount as int, rate as int) <= u64::MAX ==> r == Some(
            with_fee_of(amount as int, rate as int) as u64,
        ),
        with_fee_of(amount as int, rate as int) > u64::MAX ==> r is None,
{
    proof {
        vstd::arithmetic::mul::lemma_mul_upper_bound(amount as int, u64::MAX as int, rate as int, u64::MAX as int);
        assert((u64::MAX as int) * (u64::MAX as int) <= u128::MAX);
        vstd::arithmetic::div_mod::lemma_div_is_ordered(amount as int * rate as int, u128::MAX as int, UNIT as int);
    }
    let total: u128 = amount as u128 + (amount as u128 * rate as u128) / (UNIT as u128);
    if total <= u64::MAX as u128 {
        Some(total as u64)
    } else {
        None
    }
}

fn find_claimed(claims: &Vec<TokenClaim>, id: &[u8; 32]) -> (r: bool)
    ensures
        r == has_claimed(claims@, *id),
{
    let target = Key { bytes: *id };
    let mut i: usize = 0;
    while i < claims.len()
        invariant
            i <= claims@.len(),
            target.bytes == *id,
            forall|j: int| 0 <= j < i ==> claims@[j].order_id != *id,
        decreases claims@.len() - i,
    {
        let k = Key { bytes: claims[i].order_id };
        if k.same(&target) {
            return true;
        }
        i = i + 1;
    }
    false
}

fn find_applied(applies: &Vec<TokenApply>, id: &[u8; 32]) -> (r: bool)
    ensures
        r == has_applied(applies@, *id),
{
    let target = Key { bytes: *id };
    let mut i: usize = 0;
    while i < applies.len()
        invariant
            i <= applies@.len(),
            target.bytes == *id,
            forall|j: int| 0 <= j < i ==> applies@[j].order_id != *id,
        decreases applies@.len() - i,
    {
        let k = Key { bytes: applies[i].order_id };
        if k.same(&target) {
            return true;
        }
        i = i + 1;
    }
    false
}

/// Records release order `o` for `caller` at `now` and returns the amount to
/// send from the vault. `ix_header_ok` says whether the transaction's first
/// instruction goes to the ed25519 program with no accounts; `ix_data` is
/// its data. Rejects an expired order, a bad signature, an order already
/// released, and a caller who is not the recipient, in that order.
pub fn claim_token(
    global: &GlobalAccount,
    user: &mut UserAccount,
    caller: &Key,
    now: i64,
    ix_header_ok: bool,
    ix_data: &[u8],
    o: &ClaimOrder,
) -> (r: Result<u64, BridgeErrors>)
    ensures
        r is Err ==> *final(user) == *old(user),
        now > be_signed(o.deadline@) ==> r == Err::<u64, BridgeErrors>(
            BridgeErrors::TransactionExpired,
        ),
        now <= be_signed(o.deadline@) && !(ix_header_ok && ed25519_instruction_ok(
            ix_data@,
            global.signer@,
            claim_message_of(*o),
            o.signature@,
        )) ==> r == Err::<u64, BridgeErrors>(BridgeErrors::SignatureVerificationFailed),
        now <= be_signed(o.deadline@) && ix_header_ok && ed25519_instruction_ok(
            ix_data@,
            global.signer@,
            claim_message_of(*o),
            o.signature@,
        ) ==> {
            if has_claimed(old(user).token_claims@, o.order_id) {
                r == Err::<u64, BridgeErrors>(BridgeErrors::DuplicatedOrderId)
            } else if caller.bytes != o.recipient {
                r == Err::<u64, BridgeErrors>(BridgeErrors::InvalidAccess)
            } else {
                &&& r == Ok::<u64, BridgeErrors>(be_value(o.amount@) as u64)
                &&& final(user).owner == old(user).owner
                &&& final(user).token == old(user).token
                &&& final(user).token_applies@ == old(user).token_applies@
                &&& final(user).token_claims@ == old(user).token_claims@.push(
                    TokenClaim { order_id: o.order_id, amount: o.amount },
                )
            }
        },
{
    if now > be_i64(&o.deadline) {
        return Err(BridgeErrors::TransactionExpired);
    }
    let msg = claim_message(o);
    if !ix_header_ok {
        return Err(BridgeErrors::SignatureVerificationFailed);
    }
    verify_ed25519_data(ix_data, global.signer.as_slice(), msg.as_slice(), o.signature.as_slice())?;
    if find_claimed(&user.token_claims, &o.order_id) {
        return Err(BridgeErrors::DuplicatedOrderId);
    }
    if !caller.same(&Key { bytes: o.recipient }) {
        return Err(BridgeErrors::InvalidAccess);
    }
    user.token_claims.push(TokenClaim { order_id: o.order_id, amount: o.amount });
    Ok(be_u64(&o.amount))
}

/// Records lock order `o` for `caller` at `now` and returns the amount, fee
/// included, to take from the caller. `ix_header_ok` and `ix_data` are as for
/// `claim_token`. Rejects an expired order, a bad signature, an amount whose
/// fee overflows, an order already locked, and a caller who is not the
/// applicant, in that order.
pub fn apply_token(
    global: &GlobalAccount,
    user: &mut UserAccount,
    caller: &Key,
    now: i64,
    ix_header_ok: bool,
    ix_data: &[u8],
    o: &ApplyOrder,
) -> (r: Result<u64, BridgeErrors>)
    ensures
        r is Err ==> *final(user) == *old(user),
        now > be_signed(o.deadline@) ==> r == Err::<u64, BridgeErrors>(
            BridgeErrors::TransactionExpired,
        ),
        now <= be_signed(o.deadline@) && !(ix_header_ok && ed25519_instruction_ok(
            ix_data@,
            global.signer@,
            apply_message_of(*o),
            o.signature@,
        )) ==> r == Err::<u64, BridgeErrors>(BridgeErrors::SignatureVerificationFailed),
        now <= be_signed(o.deadline@) && ix_header_ok && ed25519_instruction_ok(
            ix_data@,
            global.signer@,
            apply_message_of(*o),
            o.signature@,
        ) ==> {
            let total = with_fee_of(be_value(o.amount@) as int, global.token_fee_rate as int);
            if total > u64::MAX {
                r == Err::<u64, BridgeErrors>(BridgeErrors::MathOverflow)
            } else if has_applied(old(user).token_applies@, o.order_id) {
                r == Err::<u64, BridgeErrors>(BridgeErrors::DuplicatedOrderId)
            } else if caller.bytes != o.applicant {
                r == Err::<u64, BridgeErrors>(BridgeErrors::InvalidAccess)
            } else {
                &&& r == Ok::<u64, BridgeErrors>(total as u64)
                &&& final(user).owner == old(user).owner
                &&& final(user).token == old(user).token
                &&& final(user).token_claims@ == old(user).token_claims@
                &&& final(user).token_applies@ == old(user).token_applies@.push(
                    TokenApply { order_id: o.order_id, amount: o.amount },
                )
            }
        },
{
    if now > be_i64(&o.deadline) {
        return Err(BridgeErrors::TransactionExpired);
    }
    let msg = apply_message(o);
    if !ix_header_ok {
        return Err(BridgeErrors::SignatureVerificationFailed);
    }
    verify_ed25519_data(ix_data, global.signer.as_slice(), msg.as_slice(), o.signature.as_slice())?;
    let total = match with_fee(be_u64(&o.amount), global.token_fee_rate) {
        None => {
            return Err(BridgeErrors::MathOverflow);
        },
        Some(t) => t,
    };
    if find_applied(&user.token_applies, &o.order_id) {
        return Err(BridgeErrors::DuplicatedOrderId);
    }
    if !caller.same(&Key { bytes: o.applicant }) {
        return Err(BridgeErrors::InvalidAccess);
    }
    user.token_applies.push(TokenApply { order_id: o.order_id, amount: o.amount });
    Ok(total)
}

/// The purpose tag of the bridge vault: `vault`.
pub open spec fn bridge_vault_seed() -> Seq<u8> {
    seq![118u8, 97, 117, 108, 116]
}

/// Checks that `vault` is the bridge vault of `token` under `program`, and
/// returns the bump that signs for it.
pub fn check_bridge_vault(token: &Key, vault: &Key, program: &Key) -> (r: Result<u8, BridgeErrors>)
    ensures
        r == match program_address_of(bridge_vault_seed(), token.bytes@, program.bytes@) {
            Some((address, bump)) => if address == vault.bytes@ {
                Ok::<u8, BridgeErrors>(bump)
            } else {
                Err(BridgeErrors::InvalidVaultPDA)
            },
            None => Err(BridgeErrors::InvalidVaultPDA),
        },
{
    let tag: Vec<u8> = vec![118u8, 97, 117, 108, 116];
    assert(tag@ =~= bridge_vault_seed());
    match vault_bump(find_program_address(tag.as_slice(), token, program), vault) {
        Some(bump) => Ok(bump),
        None => Err(BridgeErrors::InvalidVaultPDA),
    }
}

} // verus!
