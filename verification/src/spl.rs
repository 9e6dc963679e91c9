//! The calls into the Solana program library, with the contracts that the
//! rest of the crate relies on. These contracts are trusted, not proved.
use vstd::prelude::*;

use solana_program::program_error::ProgramError;
use solana_program::program_pack::Pack;
use solana_program::pubkey::{Pubkey, PubkeyError};
use spl_token_swap::curve::calculator::TradeDirection;
use spl_token_swap::instruction as swap_ix;
use spl_token_swap::state::{SwapState, SwapVersion};

use crate::accounts::{
    AccountRole,
    InstructionData,
    SwapPool,
    TokenAccount,
    has_role,
    le_bytes,
    le_value,
};
use crate::error::RuntimeError;

verus! {

/// The runtime's error type, carried through unchanged.
#[verifier::external_type_specification]
#[verifier::external_body]
pub struct ExProgramError(ProgramError);

/// The error of program-address derivation.
#[verifier::external_type_specification]
#[verifier::external_body]
pub struct ExPubkeyError(PubkeyError);

/// The address of the token program, `TokenkegQfeZyiNwAJbNbGKPFXCWuBvf9Ss623VQ5DA`.
pub open spec fn token_program_key() -> Seq<u8> {
    seq![
        6u8, 221, 246, 225, 215, 101, 161, 147, 217, 203, 225, 70, 206, 235, 121, 172, 28, 180,
        133, 237, 95, 91, 55, 145, 58, 140, 245, 133, 126, 255, 0, 169,
    ]
}

/// An optional-value tag of the token program's account layout.
pub open spec fn option_tag(t: Seq<u8>) -> bool {
    t == seq![0u8, 0, 0, 0] || t == seq![1u8, 0, 0, 0]
}

/// The bytes are an initialised token account: 165 bytes, well-formed
/// optional fields, and a state byte that is initialised or frozen.
pub open spec fn token_account_layout(data: Seq<u8>) -> bool {
    &&& data.len() == 165
    &&& option_tag(data.subrange(72, 76))
    &&& (data[108] == 1 || data[108] == 2)
    &&& option_tag(data.subrange(109, 113))
    &&& option_tag(data.subrange(129, 133))
}

/// The error with which the token program refuses bytes as a token account.
pub open spec fn token_account_error_of(data: Seq<u8>) -> RuntimeError {
    if data.len() != 165 || !option_tag(data.subrange(72, 76)) || data[108] > 2 || !option_tag(
        data.subrange(109, 113),
    ) || !option_tag(data.subrange(129, 133)) {
        RuntimeError::InvalidAccountData
    } else {
        RuntimeError::UninitializedAccount
    }
}

/// The error with which the swap program refuses bytes as a pool state.
pub open spec fn swap_pool_error_of(data: Seq<u8>) -> RuntimeError {
    if data.len() == 0 {
        RuntimeError::InvalidAccountData
    } else if data[0] != 1 {
        RuntimeError::UninitializedAccount
    } else if data.len() != 324 || data[1] > 1 || data[291] > 3 {
        RuntimeError::InvalidAccountData
    } else {
        RuntimeError::UninitializedAccount
    }
}

/// The bytes are an initialised swap pool of the first state version with a
/// known curve type.
pub open spec fn swap_pool_layout(data: Seq<u8>) -> bool {
    &&& data.len() == 324
    &&& data[0] == 1
    &&& data[1] == 1
    &&& data[291] <= 3
}

/// The instruction is the token program's transfer of `amount` from
/// `source` to `destination`, authorised by `authority`.
pub open spec fn is_transfer_instruction(
    ix: InstructionData,
    keys: Seq<[u8; 32]>,
    amount: u64,
) -> bool {
    &&& ix.program_id@ == keys[0]@
    &&& ix.accounts@.len() == 3
    &&& has_role(ix.accounts@[0], keys[1]@, false, true)
    &&& has_role(ix.accounts@[1], keys[2]@, false, true)
    &&& has_role(ix.accounts@[2], keys[3]@, true, false)
    &&& ix.data@ == seq![3u8] + le_bytes(amount as nat, 8)
}

/// The instruction is the swap program `keys[0]`'s swap of `amount_in`,
/// asking for at least `minimum_amount_out`, over the accounts `keys[1..]`
/// (token program, pool, pool authority, user transfer authority, source,
/// pool source, pool destination, destination, pool mint, pool fee
/// account) and the optional host fee account.
pub open spec fn is_pool_swap_instruction(
    ix: InstructionData,
    keys: Seq<[u8; 32]>,
    host_fee: Option<[u8; 32]>,
    amount_in: u64,
    minimum_amount_out: u64,
) -> bool {
    &&& ix.program_id@ == keys[0]@
    &&& ix.accounts@.len() == if host_fee is Some { 11int } else { 10int }
    &&& has_role(ix.accounts@[0], keys[2]@, false, false)
    &&& has_role(ix.accounts@[1], keys[3]@, false, false)
    &&& has_role(ix.accounts@[2], keys[4]@, true, false)
    &&& has_role(ix.accounts@[3], keys[5]@, false, true)
    &&& has_role(ix.accounts@[4], keys[6]@, false, true)
    &&& has_role(ix.accounts@[5], keys[7]@, false, true)
    &&& has_role(ix.accounts@[6], keys[8]@, false, true)
    &&& has_role(ix.accounts@[7], keys[9]@, false, true)
    &&& has_role(ix.accounts@[8], keys[10]@, false, true)
    &&& has_role(ix.accounts@[9], keys[1]@, false, false)
    &&& (host_fee matches Some(h) ==> has_role(ix.accounts@[10], h@, false, true))
    &&& ix.data@ == seq![1u8] + le_bytes(amount_in as nat, 8) + le_bytes(
        minimum_amount_out as nat,
        8,
    )
}

/// The address that `Pubkey::create_program_address` derives from the
/// seeds and the program id (a hash that must not lie on the curve), or
/// `None` where it fails.
pub uninterp spec fn spec_program_address(seeds: Seq<Seq<u8>>, program_id: Seq<u8>) -> Option<
    Seq<u8>,
>;

/// What the pool's swap curve, with the pool's fees, takes of
/// `source_amount` when the pool holds the given amounts; `None` where
/// the curve's checked arithmetic fails.
pub uninterp spec fn spec_pool_swap(
    state: Seq<u8>,
    source_amount: u128,
    swap_source_amount: u128,
    swap_destination_amount: u128,
    a_to_b: bool,
) -> Option<u128>;

/// `Pubkey::create_program_address` on the seeds. It claims that the
/// result is the named derivation, and that more than 16 seeds or a seed
/// longer than 32 bytes is refused.
#[verifier::external_body]
pub(crate) fn create_program_address(seeds: &Vec<Vec<u8>>, program_id: &[u8; 32]) -> (res: Result<
    [u8; 32],
    PubkeyError,
>)
    ensures
        res is Ok <==> spec_program_address(seeds.deep_view(), program_id@) is Some,
        res matches Ok(k) ==> spec_program_address(seeds.deep_view(), program_id@) == Some(k@),
        seeds@.len() > 16 || (exists|i: int| 0 <= i < seeds@.len() && #[trigger] seeds@[i]@.len() > 32)
            ==> res is Err,
{
    let refs: Vec<&[u8]> = seeds.iter().map(|s| s.as_slice()).collect();
    Pubkey::create_program_address(&refs, &Pubkey::new_from_array(*program_id)).map(
        |k| k.to_bytes(),
    )
}

/// `spl_token::state::Account::unpack`. It claims that the bytes are
/// accepted exactly when they have the layout of an initialised token
/// account, which error refuses them otherwise, and that mint, owner and
/// amount are read from bytes `0..32`, `32..64` and `64..72` (little-endian).
#[verifier::external_body]
pub(crate) fn unpack_token_account_data(data: &[u8]) -> (res: Result<TokenAccount, RuntimeError>)
    ensures
        res is Ok <==> token_account_layout(data@),
        res matches Err(e) ==> e == token_account_error_of(data@),
        res matches Ok(t) ==> t.mint@ == data@.subrange(0, 32) && t.owner@ == data@.subrange(32, 64)
            && t.amount == le_value(data@.subrange(64, 72)),
{
    match spl_token::state::Account::unpack(data) {
        Ok(a) => Ok(TokenAccount { mint: a.mint.to_bytes(), owner: a.owner.to_bytes(), amount: a.amount }),
        Err(ProgramError::InvalidAccountData) => Err(RuntimeError::InvalidAccountData),
        Err(ProgramError::UninitializedAccount) => Err(RuntimeError::UninitializedAccount),
        Err(e) => Err(RuntimeError::Other(e)),
    }
}

/// `spl_token_swap::state::SwapVersion::unpack`. It claims that the bytes
/// are accepted exactly when they have the layout of an initialised pool,
/// which error refuses them otherwise, and that the token program and token
/// A account are read from bytes `3..35` and `35..67`; the raw bytes are
/// kept for the curve.
#[verifier::external_body]
pub(crate) fn unpack_swap_pool(data: &[u8]) -> (res: Result<SwapPool, RuntimeError>)
    ensures
        res is Ok <==> swap_pool_layout(data@),
        res matches Err(e) ==> e == swap_pool_error_of(data@),
        res matches Ok(p) ==> p.token_program_id@ == data@.subrange(3, 35)
            && p.token_a_account@ == data@.subrange(35, 67) && p.state@ == data@,
{
    match SwapVersion::unpack(data) {
        Ok(s) => Ok(
            SwapPool {
                token_program_id: s.token_program_id().to_bytes(),
                token_a_account: s.token_a_account().to_bytes(),
                state: data.to_vec(),
            },
        ),
        Err(ProgramError::InvalidAccountData) => Err(RuntimeError::InvalidAccountData),
        Err(ProgramError::UninitializedAccount) => Err(RuntimeError::UninitializedAccount),
        Err(e) => Err(RuntimeError::Other(e)),
    }
}

/// `SwapCurve::swap` of the pool whose state is `state`, with the pool's
/// fees, returning the `source_amount_swapped` of the result. The curve
/// and the fees live in the unpacked state, which is read again from the
/// same bytes here. It claims only that the result is the named one.
#[verifier::external_body]
pub(crate) fn pool_swap_source_amount(
    state: &[u8],
    source_amount: u128,
    swap_source_amount: u128,
    swap_destination_amount: u128,
    a_to_b: bool,
) -> (res: Option<u128>)
    requires
        swap_pool_layout(state@),
    ensures
        res == spec_pool_swap(
            state@,
            source_amount,
            swap_source_amount,
            swap_destination_amount,
            a_to_b,
        ),
{
    let swap = match SwapVersion::unpack(state) {
        Ok(swap) => swap,
        Err(_) => return None,
    };
    let direction = if a_to_b { TradeDirection::AtoB } else { TradeDirection::BtoA };
    swap.swap_curve().swap(source_amount, swap_source_amount, swap_destination_amount, direction, swap.fees())
        .map(|r| r.source_amount_swapped)
}

/// `spl_token::instruction::transfer` with no multisignature signers, over
/// the keys token program, source, destination, authority. It claims that
/// the call fails, with `IncorrectProgramId`, exactly when the token
/// program is not the token program's address, and otherwise what the
/// instruction holds.
#[verifier::external_body]
pub(crate) fn token_transfer_instruction(keys: &Vec<[u8; 32]>, amount: u64) -> (res: Result<
    InstructionData,
    RuntimeError,
>)
    requires
        keys@.len() == 4,
    ensures
        res is Ok <==> keys@[0]@ == token_program_key(),
        res matches Err(e) ==> e is IncorrectProgramId,
        res matches Ok(ix) ==> is_transfer_instruction(ix, keys@, amount),
{
    let p: Vec<Pubkey> = keys.iter().map(|k| Pubkey::new_from_array(*k)).collect();
    let ix = match spl_token::instruction::transfer(&p[0], &p[1], &p[2], &p[3], &[], amount) {
        Ok(ix) => ix,
        Err(ProgramError::IncorrectProgramId) => return Err(RuntimeError::IncorrectProgramId),
        Err(e) => return Err(RuntimeError::Other(e)),
    };
    let accounts = ix.accounts.iter().map(
        |m| AccountRole { key: m.pubkey.to_bytes(), is_signer: m.is_signer, is_writable: m.is_writable },
    ).collect();
    Ok(InstructionData { program_id: ix.program_id.to_bytes(), accounts, data: ix.data })
}

/// `spl_token_swap::instruction::swap` over the keys laid out as in
/// `is_pool_swap_instruction`. It claims that the call succeeds and what
/// the instruction holds.
#[verifier::external_body]
pub(crate) fn pool_swap_instruction(
    keys: &Vec<[u8; 32]>,
    host_fee: Option<[u8; 32]>,
    amount_in: u64,
    minimum_amount_out: u64,
) -> (res: Result<InstructionData, ProgramError>)
    requires
        keys@.len() == 11,
    ensures
        res is Ok,
        res matches Ok(ix) ==> is_pool_swap_instruction(
            ix,
            keys@,
            host_fee,
            amount_in,
            minimum_amount_out,
        ),
{
    let p: Vec<Pubkey> = keys.iter().map(|k| Pubkey::new_from_array(*k)).collect();
    let ix = swap_ix::swap(
        &p[0], &p[1], &p[2], &p[3], &p[4], &p[5], &p[6], &p[7], &p[8], &p[9], &p[10],
        host_fee.map(Pubkey::new_from_array).as_ref(),
        swap_ix::Swap { amount_in, minimum_amount_out },
    )?;
    let accounts = ix.accounts.iter().map(
        |m| AccountRole { key: m.pubkey.to_bytes(), is_signer: m.is_signer, is_writable: m.is_writable },
    ).collect();
    Ok(InstructionData { program_id: ix.program_id.to_bytes(), accounts, data: ix.data })
}

} // verus!
