//! Vault addresses: each pool's tokens sit in a vault whose address is
//! derived from a purpose tag and the token, and is checked before any
//! transfer.

use vstd::prelude::*;
use anchor_lang::solana_program::pubkey::Pubkey;
use crate::accounts::Key;
use crate::errors::ErrorCode;

verus! {

broadcast use vstd::array::group_array_axioms;

/// The address and bump that solana-program derives for a program from the
/// seeds `[tag, token]`; `None` when no bump gives an address.
pub uninterp spec fn program_address_of(tag: Seq<u8>, token: Seq<u8>, program: Seq<u8>) -> Option<
    (Seq<u8>, u8),
>;

/// Relies on `Pubkey::try_find_program_address` of solana-program: the result
/// depends on the seeds and the program alone.
#[verifier::external_body]
pub(crate) fn find_program_address(tag: &[u8], token: &Key, program: &Key) -> (r: Option<(Key, u8)>)
    ensures
        match r {
            Some((address, bump)) => program_address_of(tag@, token.bytes@, program.bytes@)
                == Some((address.bytes@, bump)),
            None => program_address_of(tag@, token.bytes@, program.bytes@) is None,
        },
{
    match Pubkey::try_find_program_address(&[tag, &token.bytes], &Pubkey::new_from_array(program.bytes)) {
        Some((address, bump)) => Some((Key { bytes: address.to_bytes() }, bump)),
        None => None,
    }
}

/// Which vault an address stands for.
#[derive(Debug, Clone, Copy, PartialEq, Eq, Structural)]
pub enum VaultKind {
    /// Holds the stakes of one pool.
    Pool,
    /// Holds the reward token paid out on withdrawal.
    Reward,
}

/// The purpose tag of a vault: `pool-vault` or `reward-vault`.
pub open spec fn vault_seed(kind: VaultKind) -> Seq<u8> {
    match kind {
        VaultKind::Pool => seq![112u8, 111, 111, 108, 45, 118, 97, 117, 108, 116],
        VaultKind::Reward => seq![114u8, 101, 119, 97, 114, 100, 45, 118, 97, 117, 108, 116],
    }
}

/// The error for a vault of `kind` at the wrong address.
pub open spec fn vault_error(kind: VaultKind) -> ErrorCode {
    match kind {
        VaultKind::Pool => ErrorCode::InvalidStakeVaultPDA,
        VaultKind::Reward => ErrorCode::InvalidRewardVaultPDA,
    }
}

/// The purpose tag of a vault of `kind`.
pub fn vault_tag(kind: VaultKind) -> (r: Vec<u8>)
    ensures
        r@ == vault_seed(kind),
{
    let r = match kind {
        VaultKind::Pool => vec![112u8, 111, 111, 108, 45, 118, 97, 117, 108, 116],
        VaultKind::Reward => vec![114u8, 101, 119, 97, 114, 100, 45, 118, 97, 117, 108, 116],
    };
    assert(r@ =~= vault_seed(kind));
    r
}

/// The bump of `vault` when `derived` is its address.
pub fn vault_bump(derived: Option<(Key, u8)>, vault: &Key) -> (r: Option<u8>)
    ensures
        r == match derived {
            Some((address, bump)) => if address.bytes@ == vault.bytes@ {
                Some(bump)
            } else {
                None::<u8>
            },
            None => None,
        },
{
    match derived {
        Some((address, bump)) => {
            if address.same(vault) {
                Some(bump)
            } else {
                proof {
                    if address.bytes@ == vault.bytes@ {
                        assert(address.bytes =~= vault.bytes);
                    }
                }
                None
            }
        },
        None => None,
    }
}

/// The bump of `vault` when `derived` is its address; the error of `kind`
/// otherwise.
pub fn match_vault(derived: Option<(Key, u8)>, vault: &Key, kind: VaultKind) -> (r: Result<u8, ErrorCode>)
    ensures
        r == match derived {
            Some((address, bump)) => if address.bytes@ == vault.bytes@ {
                Ok::<u8, ErrorCode>(bump)
            } else {
                Err(vault_error(kind))
            },
            None => Err(vault_error(kind)),
        },
{
    match vault_bump(derived, vault) {
        Some(bump) => Ok(bump),
        None => Err(match kind {
            VaultKind::Pool => ErrorCode::InvalidStakeVaultPDA,
            VaultKind::Reward => ErrorCode::InvalidRewardVaultPDA,
        }),
    }
}

/// Checks that `vault` is the vault of `kind` for `token` under `program`,
/// and returns the bump that signs for it.
pub fn check_vault(kind: VaultKind, token: &Key, vault: &Key, program: &Key) -> (r: Result<u8, ErrorCode>)
    ensures
        r == match program_address_of(vault_seed(kind), token.bytes@, program.bytes@) {
            Some((address, bump)) => if address == vault.bytes@ {
                Ok::<u8, ErrorCode>(bump)
            } else {
                Err(vault_error(kind))
            },
            None => Err(vault_error(kind)),
        },
{
    let tag = vault_tag(kind);
    let derived = find_program_address(tag.as_slice(), token, program);
    match_vault(derived, vault, kind)
}

} // verus!
