//! Program state processor: the checks and decisions of the swap program.
//!
//! A swap alternates the program's own decisions with calls into other
//! programs, which only the runtime can make. The decisions are a state
//! machine here: `Processor::process_swap` starts a swap and
//! `Processor::continue_swap` takes the outcome of each call and says what
//! to do next.
use vstd::prelude::*;

use crate::accounts::{
    AccountData,
    InstructionData,
    SwapPool,
    TokenAccount,
    has_role,
    keys_equal,
    le_bytes,
    le_value,
    lemma_le_roundtrip,
    lemma_le_value_bound,
};
use crate::distribution::{
    best,
    best_distribution,
    best_split,
    candidate,
    dp_fits,
    any_positive,
    raw_matrix,
    second_reserve_quotes,
    expected_matrix,
    interpolation,
    interpolation_fits,
    is_quote,
    ok_or_zero,
    quote_table,
    quotes_of,
};
use crate::error::{OneSolError, RuntimeError};
use crate::spl::{
    create_program_address,
    is_pool_swap_instruction,
    is_transfer_instruction,
    pool_swap_instruction,
    pool_swap_source_amount,
    spec_pool_swap,
    spec_program_address,
    swap_pool_error_of,
    swap_pool_layout,
    token_account_error_of,
    token_account_layout,
    token_program_key,
    token_transfer_instruction,
    unpack_swap_pool,
    unpack_token_account_data,
};

use solana_program::program_error::ProgramError;

verus! {

/// Program state handler.
pub struct Processor {}

/// Positions of the accounts of a swap instruction.
pub const ONESOL_INFO: usize = 0;
pub const SWAP_INFO: usize = 1;
pub const ONESOL_AUTHORITY_INFO: usize = 2;
pub const SWAP_AUTHORITY_INFO: usize = 3;
pub const USER_TRANSFER_AUTHORITY_INFO: usize = 4;
pub const SOURCE_INFO: usize = 5;
pub const ONESOL_SOURCE_INFO: usize = 6;
pub const SWAP_SOURCE_INFO: usize = 7;
pub const SWAP_DESTINATION_INFO: usize = 8;
pub const ONESOL_DESTINATION_INFO: usize = 9;
pub const DESTINATION_INFO: usize = 10;
pub const POOL_MINT_INFO: usize = 11;
pub const POOL_FEE_ACCOUNT_INFO: usize = 12;
pub const TOKEN_PROGRAM_INFO: usize = 13;
pub const TOKEN_SWAP_ACCOUNT_INFO: usize = 14;
pub const HOST_FEE_ACCOUNT_INFO: usize = 15;
/// The number of accounts a swap cannot do without.
pub const SWAP_ACCOUNTS: usize = 15;

/// Why a swap was refused.
#[derive(Debug)]
pub enum SwapError {
    /// Fewer accounts than a swap needs.
    NotEnoughAccountKeys,
    /// The program's own account belongs to another program.
    IncorrectProgramId,
    /// An error of the program's own.
    OneSol(OneSolError),
    /// An error reported by a called program or by the account layout.
    Program(RuntimeError),
}

/// Initialize instruction data.
pub struct Initialize {}

/// Swap instruction data.
pub struct Swap {
    pub amount_in: u64,
    pub minimum_amount_out: u64,
    pub nonce: u8,
}

/// The instructions of the program.
pub enum OneSolInstruction {
    Initialize(Initialize),
    Swap(Swap),
}

/// A transfer of tokens, signed by the program's authority.
pub struct TransferRequest {
    pub instruction: InstructionData,
    pub signer_seeds: Vec<Vec<u8>>,
}

/// What a swap in progress knows.
pub struct SwapContext {
    pub program_id: [u8; 32],
    pub amount_in: u64,
    pub minimum_amount_out: u64,
    pub nonce: u8,
    pub pool: SwapPool,
}

/// Where a swap stands.
pub enum SwapStage {
    /// Waiting for the user's tokens to reach the program's source account.
    TransferIn(SwapContext),
    /// Waiting for the pool to swap them.
    PoolSwap(SwapContext),
    /// Waiting for the swapped tokens to reach the user.
    TransferOut,
    /// Over.
    Done,
}

/// What the runtime is to do next.
pub enum SwapAction {
    /// Invoke the transfer, signed with its seeds, over the accounts at
    /// these positions.
    Transfer { request: TransferRequest, accounts: Vec<usize> },
    /// Invoke the pool's swap over the accounts at these positions; the
    /// expected distribution of the volume over the pools is for the log.
    PoolSwap { instruction: InstructionData, accounts: Vec<usize>, expected_distribution: Vec<u64> },
    /// The instruction ends with this result.
    Finish(Result<(), SwapError>),
    /// The instruction aborts.
    Abort,
}

/// How a call into another program went, with the accounts as they are
/// after it.
pub enum SwapEvent {
    Completed(Vec<AccountData>),
    Failed(ProgramError),
}

/// The seeds of the program's authority: the program account's address and the nonce.
pub open spec fn authority_seeds(key: Seq<u8>, nonce: u8) -> Seq<Seq<u8>> {
    seq![key, seq![nonce]]
}

/// The program's authority for the account `key`, if the derivation succeeds.
pub open spec fn spec_authority(program_id: Seq<u8>, key: Seq<u8>, nonce: u8) -> Option<Seq<u8>> {
    spec_program_address(authority_seeds(key, nonce), program_id)
}

/// Why an account cannot be read as a token account of the token program
/// `program`, if it cannot.
pub open spec fn token_account_error(account: AccountData, program: Seq<u8>) -> Option<OneSolError> {
    if account.owner@ != program {
        Some(OneSolError::IncorrectTokenProgramId)
    } else if !token_account_layout(account.data@) {
        Some(OneSolError::ExpectedAccount)
    } else {
        None
    }
}

/// `t` holds what the token account's bytes say.
pub open spec fn reads_token_account(t: TokenAccount, data: Seq<u8>) -> bool {
    &&& t.mint@ == data.subrange(0, 32)
    &&& t.owner@ == data.subrange(32, 64)
    &&& t.amount == le_value(data.subrange(64, 72))
}

/// The amount held by a token account with these bytes.
pub open spec fn token_amount(data: Seq<u8>) -> u64 {
    le_value(data.subrange(64, 72)) as u64
}

/// The keys of a transfer from the account at `source` to the one at
/// `destination`, authorised by the user transfer authority.
pub open spec fn transfer_keys(accounts: Seq<AccountData>, source: int, destination: int) -> Seq<[u8; 32]> {
    seq![
        accounts[TOKEN_PROGRAM_INFO as int].key,
        accounts[source].key,
        accounts[destination].key,
        accounts[USER_TRANSFER_AUTHORITY_INFO as int].key,
    ]
}

/// `req` transfers `amount` from the account at `source` to the one at
/// `destination`, signed by the program's authority.
pub open spec fn is_transfer_request(
    req: TransferRequest,
    program_key: Seq<u8>,
    nonce: u8,
    keys: Seq<[u8; 32]>,
    amount: u64,
) -> bool {
    &&& is_transfer_instruction(req.instruction, keys, amount)
    &&& req.signer_seeds.deep_view() == authority_seeds(program_key, nonce)
}

/// The action invokes a transfer of `amount` between the accounts at
/// `source` and `destination`.
pub open spec fn transfers(
    action: SwapAction,
    accounts: Seq<AccountData>,
    nonce: u8,
    source: int,
    destination: int,
    amount: u64,
) -> bool {
    &&& action matches SwapAction::Transfer { request, accounts: positions }
    &&& is_transfer_request(
        request,
        accounts[ONESOL_INFO as int].key@,
        nonce,
        transfer_keys(accounts, source, destination),
        amount,
    )
    &&& positions@ == seq![
        source as usize,
        destination as usize,
        USER_TRANSFER_AUTHORITY_INFO,
        TOKEN_PROGRAM_INFO,
    ]
}

/// The keys of the pool swap, in the order of `is_pool_swap_instruction`.
pub open spec fn pool_swap_keys(accounts: Seq<AccountData>) -> Seq<[u8; 32]> {
    seq![
        accounts[TOKEN_SWAP_ACCOUNT_INFO as int].key,
        accounts[TOKEN_PROGRAM_INFO as int].key,
        accounts[SWAP_INFO as int].key,
        accounts[SWAP_AUTHORITY_INFO as int].key,
        accounts[USER_TRANSFER_AUTHORITY_INFO as int].key,
        accounts[ONESOL_SOURCE_INFO as int].key,
        accounts[SWAP_SOURCE_INFO as int].key,
        accounts[SWAP_DESTINATION_INFO as int].key,
        accounts[ONESOL_DESTINATION_INFO as int].key,
        accounts[POOL_MINT_INFO as int].key,
        accounts[POOL_FEE_ACCOUNT_INFO as int].key,
    ]
}

/// The host fee account, when the instruction has one.
pub open spec fn host_fee(accounts: Seq<AccountData>) -> Option<[u8; 32]> {
    if accounts.len() > HOST_FEE_ACCOUNT_INFO {
        Some(accounts[HOST_FEE_ACCOUNT_INFO as int].key)
    } else {
        None
    }
}

/// The positions of the accounts handed to the pool swap.
pub open spec fn pool_swap_positions(with_host_fee: bool) -> Seq<usize> {
    let base = seq![
        SWAP_INFO,
        SWAP_AUTHORITY_INFO,
        USER_TRANSFER_AUTHORITY_INFO,
        ONESOL_SOURCE_INFO,
        SWAP_SOURCE_INFO,
        SWAP_DESTINATION_INFO,
        ONESOL_DESTINATION_INFO,
        POOL_MINT_INFO,
        POOL_FEE_ACCOUNT_INFO,
        TOKEN_PROGRAM_INFO,
    ];
    if with_host_fee {
        base.push(HOST_FEE_ACCOUNT_INFO)
    } else {
        base
    }
}

/// The quote that a swap result gives: no result means the pool cannot
/// trade, and a result that does not fit in `u64` cannot be converted.
pub open spec fn spec_swap_quote(result: Option<u128>) -> Result<u64, OneSolError> {
    match result {
        None => Err(OneSolError::ZeroTradingTokens),
        Some(r) => if r <= u64::MAX {
            Ok(r as u64)
        } else {
            Err(OneSolError::ConversionFailure)
        },
    }
}

/// What the pool quotes for swapping `x`, as the program reads it.
pub open spec fn pool_quote(
    state: Seq<u8>,
    x: u64,
    source_amount: u64,
    destination_amount: u64,
    a_to_b: bool,
) -> Result<u64, OneSolError> {
    spec_swap_quote(
        spec_pool_swap(state, x as u128, source_amount as u128, destination_amount as u128, a_to_b),
    )
}

/// The quotes of the pool for the two halves of the volume.
pub open spec fn pool_quotes(
    state: Seq<u8>,
    amount: u64,
    source_amount: u64,
    destination_amount: u64,
    a_to_b: bool,
) -> Seq<u64> {
    Seq::new(
        2,
        |j: int|
            ok_or_zero(
                pool_quote(
                    state,
                    interpolation(amount, 2)[j],
                    source_amount,
                    destination_amount,
                    a_to_b,
                ),
            ),
    )
}

/// The returns that the search reads when the volume is split in two: the
/// pool's quotes, then the second reserve's.
pub open spec fn pool_matrix(
    state: Seq<u8>,
    amount: u64,
    source_amount: u64,
    destination_amount: u64,
    a_to_b: bool,
) -> Seq<Seq<i64>> {
    expected_matrix(
        seq![
            pool_quotes(state, amount, source_amount, destination_amount, a_to_b),
            second_reserve_quotes(amount, 2),
        ],
        2,
    )
}

/// The distribution of the volume, split in two, over the pool and the
/// second reserve.
pub open spec fn expected_pool_distribution(
    state: Seq<u8>,
    amount: u64,
    source_amount: u64,
    destination_amount: u64,
    a_to_b: bool,
) -> Seq<u64> {
    best_distribution(pool_matrix(state, amount, source_amount, destination_amount, a_to_b), 2, 2)
}

/// The search over the pool and the second reserve stays within `i64`.
pub open spec fn pool_distribution_fits(
    state: Seq<u8>,
    amount: u64,
    source_amount: u64,
    destination_amount: u64,
    a_to_b: bool,
) -> bool {
    dp_fits(pool_matrix(state, amount, source_amount, destination_amount, a_to_b), 2, 2)
}

/// The accounts pass the checks that come before any call: there are
/// enough of them, the program owns its account, the authority is the
/// derived one, and the pool's state can be read.
pub open spec fn swap_ready(program_id: Seq<u8>, nonce: u8, accounts: Seq<AccountData>) -> bool {
    &&& accounts.len() >= SWAP_ACCOUNTS
    &&& accounts[ONESOL_INFO as int].owner@ == program_id
    &&& spec_authority(program_id, accounts[ONESOL_INFO as int].key@, nonce) == Some(
        accounts[ONESOL_AUTHORITY_INFO as int].key@,
    )
    &&& swap_pool_layout(accounts[SWAP_INFO as int].data@)
}

/// The stage carries a readable pool.
pub open spec fn stage_wf(stage: SwapStage) -> bool {
    match stage {
        SwapStage::TransferIn(ctx) => swap_pool_layout(ctx.pool.state@),
        SwapStage::PoolSwap(ctx) => swap_pool_layout(ctx.pool.state@),
        _ => true,
    }
}

/// `ctx` is the context that a swap starts with.
pub open spec fn starts_with(
    ctx: SwapContext,
    program_id: Seq<u8>,
    amount_in: u64,
    minimum_amount_out: u64,
    nonce: u8,
    accounts: Seq<AccountData>,
) -> bool {
    &&& ctx.program_id@ == program_id
    &&& ctx.amount_in == amount_in
    &&& ctx.minimum_amount_out == minimum_amount_out
    &&& ctx.nonce == nonce
    &&& ctx.pool.state@ == accounts[SWAP_INFO as int].data@
    &&& ctx.pool.token_program_id@ == accounts[SWAP_INFO as int].data@.subrange(3, 35)
    &&& ctx.pool.token_a_account@ == accounts[SWAP_INFO as int].data@.subrange(35, 67)
}

/// `ctx` is `old` unchanged.
pub open spec fn same_context(ctx: SwapContext, old: SwapContext) -> bool {
    &&& ctx.program_id@ == old.program_id@
    &&& ctx.amount_in == old.amount_in
    &&& ctx.minimum_amount_out == old.minimum_amount_out
    &&& ctx.nonce == old.nonce
    &&& ctx.pool.state@ == old.pool.state@
    &&& ctx.pool.token_program_id@ == old.pool.token_program_id@
    &&& ctx.pool.token_a_account@ == old.pool.token_a_account@
}

/// How a swap starts: which check refuses it, or the first transfer. The
/// checks come in this order: the number of accounts, the owner of the
/// program's account, the program's authority, the pool's state, and the
/// token program of the first transfer.
pub open spec fn starts_swap(
    program_id: Seq<u8>,
    amount_in: u64,
    minimum_amount_out: u64,
    nonce: u8,
    accounts: Seq<AccountData>,
    res: (SwapStage, SwapAction),
) -> bool {
    let enough = accounts.len() >= SWAP_ACCOUNTS;
    let owned = accounts[ONESOL_INFO as int].owner@ == program_id;
    let authority = spec_authority(program_id, accounts[ONESOL_INFO as int].key@, nonce) == Some(
        accounts[ONESOL_AUTHORITY_INFO as int].key@,
    );
    let pool = swap_pool_layout(accounts[SWAP_INFO as int].data@);
    let token = accounts[TOKEN_PROGRAM_INFO as int].key@ == token_program_key();
    &&& stage_wf(res.0)
    &&& !enough ==> (res.0 is Done && res.1 matches SwapAction::Finish(
        Err(SwapError::NotEnoughAccountKeys),
    ))
    &&& enough && !owned ==> (res.0 is Done && res.1 matches SwapAction::Finish(
        Err(SwapError::IncorrectProgramId),
    ))
    &&& enough && owned && !authority ==> (res.0 is Done && res.1 matches SwapAction::Finish(
        Err(SwapError::OneSol(OneSolError::InvalidProgramAddress)),
    ))
    &&& enough && owned && authority && !pool ==> res.0 is Done && res.1 == SwapAction::Finish(
        Err(SwapError::Program(swap_pool_error_of(accounts[SWAP_INFO as int].data@))),
    )
    &&& enough && owned && authority && pool && !token ==> res.0 is Done && res.1 is Abort
    &&& enough && owned && authority && pool && token ==> {
        &&& res.0 matches SwapStage::TransferIn(ctx) && starts_with(
            ctx,
            program_id,
            amount_in,
            minimum_amount_out,
            nonce,
            accounts,
        )
        &&& transfers(
            res.1,
            accounts,
            nonce,
            SOURCE_INFO as int,
            ONESOL_SOURCE_INFO as int,
            amount_in,
        )
    }
}

/// The pool's source and destination accounts can be read as token
/// accounts of the pool's token program.
pub open spec fn pool_accounts_readable(ctx: SwapContext, snap: Seq<AccountData>) -> bool {
    &&& token_account_error(snap[SWAP_SOURCE_INFO as int], ctx.pool.token_program_id@) is None
    &&& token_account_error(snap[SWAP_DESTINATION_INFO as int], ctx.pool.token_program_id@) is None
}

/// The two instructions are the same, view for view.
pub open spec fn same_instruction(x: InstructionData, y: InstructionData) -> bool {
    &&& x.program_id@ == y.program_id@
    &&& x.accounts@.len() == y.accounts@.len()
    &&& forall|i: int|
        0 <= i < x.accounts@.len() ==> has_role(
            #[trigger] x.accounts@[i],
            y.accounts@[i].key@,
            y.accounts@[i].is_signer,
            y.accounts@[i].is_writable,
        )
    &&& x.data@ == y.data@
}

/// The two outcomes ask for the same thing, view for view.
pub open spec fn same_outcome(r1: (SwapStage, SwapAction), r2: (SwapStage, SwapAction)) -> bool {
    &&& match (r1.0, r2.0) {
        (SwapStage::Done, SwapStage::Done) => true,
        (SwapStage::TransferOut, SwapStage::TransferOut) => true,
        (SwapStage::TransferIn(c1), SwapStage::TransferIn(c2)) => same_context(c1, c2),
        (SwapStage::PoolSwap(c1), SwapStage::PoolSwap(c2)) => same_context(c1, c2),
        _ => false,
    }
    &&& match (r1.1, r2.1) {
        (SwapAction::Finish(x), SwapAction::Finish(y)) => x == y,
        (SwapAction::Abort, SwapAction::Abort) => true,
        (
            SwapAction::Transfer { request: q1, accounts: p1 },
            SwapAction::Transfer { request: q2, accounts: p2 },
        ) => same_instruction(q1.instruction, q2.instruction) && q1.signer_seeds.deep_view()
            == q2.signer_seeds.deep_view() && p1@ == p2@,
        (
            SwapAction::PoolSwap { instruction: i1, accounts: p1, expected_distribution: d1 },
            SwapAction::PoolSwap { instruction: i2, accounts: p2, expected_distribution: d2 },
        ) => same_instruction(i1, i2) && p1@ == p2@ && d1@ == d2@,
        _ => false,
    }
}

/// The start of a swap is determined by its inputs: any two outcomes that
/// meet the contract of a swap's start ask for the same thing. So an
/// instruction processed through `Processor::process` starts its swap
/// exactly as `Processor::process_swap` does.
pub proof fn lemma_swap_start_is_determined(
    program_id: Seq<u8>,
    amount_in: u64,
    minimum_amount_out: u64,
    nonce: u8,
    accounts: Seq<AccountData>,
    r1: (SwapStage, SwapAction),
    r2: (SwapStage, SwapAction),
)
    requires
        starts_swap(program_id, amount_in, minimum_amount_out, nonce, accounts, r1),
        starts_swap(program_id, amount_in, minimum_amount_out, nonce, accounts, r2),
    ensures
        same_outcome(r1, r2),
{
    if swap_ready(program_id, nonce, accounts) && accounts[TOKEN_PROGRAM_INFO as int].key@
        == token_program_key() {
        if let (
            SwapAction::Transfer { request: q1, accounts: p1 },
            SwapAction::Transfer { request: q2, accounts: p2 },
        ) = (r1.1, r2.1) {
            assert(q1.instruction.accounts@.len() == 3);
            assert forall|i: int| 0 <= i < q1.instruction.accounts@.len() implies has_role(
                #[trigger] q1.instruction.accounts@[i],
                q2.instruction.accounts@[i].key@,
                q2.instruction.accounts@[i].is_signer,
                q2.instruction.accounts@[i].is_writable,
            ) by {
                assert(i == 0 || i == 1 || i == 2);
            }
        }
    }
}

/// How a swap goes on once the user's tokens are in.
pub open spec fn pool_swap_outcome(ctx: SwapContext, snap: Seq<AccountData>, res: (SwapStage, SwapAction)) -> bool {
    let source = snap[SWAP_SOURCE_INFO as int];
    let destination = snap[SWAP_DESTINATION_INFO as int];
    let program = ctx.pool.token_program_id@;
    &&& token_account_error(source, program) is Some ==> res.0 is Done && res.1
        == SwapAction::Finish(Err(SwapError::OneSol(token_account_error(source, program).unwrap())))
    &&& token_account_error(source, program) is None && token_account_error(destination, program)
        is Some ==> res.0 is Done && res.1 == SwapAction::Finish(
        Err(SwapError::OneSol(token_account_error(destination, program).unwrap())),
    )
    &&& token_account_error(source, program) is None && token_account_error(destination, program)
        is None && !pool_distribution_fits(
        ctx.pool.state@,
        ctx.amount_in,
        token_amount(source.data@),
        token_amount(destination.data@),
        source.key@ == ctx.pool.token_a_account@,
    ) ==> res.0 is Done && res.1 is Abort
    &&& token_account_error(source, program) is None && token_account_error(destination, program)
        is None && pool_distribution_fits(
        ctx.pool.state@,
        ctx.amount_in,
        token_amount(source.data@),
        token_amount(destination.data@),
        source.key@ == ctx.pool.token_a_account@,
    ) ==> {
        &&& res.0 matches SwapStage::PoolSwap(next) && same_context(next, ctx)
        &&& res.1 matches SwapAction::PoolSwap { instruction, accounts, expected_distribution }
        &&& is_pool_swap_instruction(
            instruction,
            pool_swap_keys(snap),
            host_fee(snap),
            ctx.amount_in,
            ctx.minimum_amount_out,
        )
        &&& accounts@ == pool_swap_positions(snap.len() > HOST_FEE_ACCOUNT_INFO)
        &&& expected_distribution@ == expected_pool_distribution(
            ctx.pool.state@,
            ctx.amount_in,
            token_amount(source.data@),
            token_amount(destination.data@),
            source.key@ == ctx.pool.token_a_account@,
        )
    }
}

/// How a swap goes on after the call that `stage` waits for.
pub open spec fn continues_swap(stage: SwapStage, event: SwapEvent, res: (SwapStage, SwapAction)) -> bool {
    &&& stage_wf(res.0)
    &&& match stage {
        SwapStage::TransferIn(ctx) => match event {
            SwapEvent::Failed(_) => res.0 is Done && res.1 is Abort,
            SwapEvent::Completed(snap) => pool_swap_outcome(ctx, snap@, res),
        },
        SwapStage::PoolSwap(ctx) => match event {
            SwapEvent::Failed(e) => res.0 is Done && (res.1 matches SwapAction::Finish(
                Err(SwapError::Program(RuntimeError::Other(f))),
            ) && f == e),
            SwapEvent::Completed(snap) => {
                let out = snap@[ONESOL_DESTINATION_INFO as int].data@;
                &&& !token_account_layout(out) ==> res.0 is Done && res.1 == SwapAction::Finish(
                    Err(SwapError::Program(token_account_error_of(out))),
                )
                &&& token_account_layout(out) && snap@[TOKEN_PROGRAM_INFO as int].key@
                    != token_program_key() ==> res.0 is Done && res.1 is Abort
                &&& token_account_layout(out) && snap@[TOKEN_PROGRAM_INFO as int].key@
                    == token_program_key() ==> res.0 is TransferOut && transfers(
                    res.1,
                    snap@,
                    ctx.nonce,
                    ONESOL_DESTINATION_INFO as int,
                    DESTINATION_INFO as int,
                    token_amount(out),
                )
            },
        },
        SwapStage::TransferOut => match event {
            SwapEvent::Failed(_) => res.0 is Done && res.1 is Abort,
            SwapEvent::Completed(_) => res.0 is Done && res.1 matches SwapAction::Finish(Ok(())),
        },
        SwapStage::Done => true,
    }
}

/// The program's authority is the address derived from the bytes of the
/// program account's key, in order, followed by the nonce.
pub proof fn lemma_authority_is_derived_from_the_key(program_id: Seq<u8>, key: Seq<u8>, nonce: u8)
    ensures
        spec_authority(program_id, key, nonce) == spec_program_address(
            seq![key, seq![nonce]],
            program_id,
        ),
{
    assert(authority_seeds(key, nonce) =~~= seq![key, seq![nonce]]);
}

/// An account is refused as a token account of the token program `p`
/// exactly when `p` does not own it or its bytes are not a token account;
/// ownership is checked against `p` itself, whatever `p` is.
pub proof fn lemma_token_account_checks_the_given_owner(account: AccountData, p: Seq<u8>)
    ensures
        account.owner@ != p ==> token_account_error(account, p) == Some(
            OneSolError::IncorrectTokenProgramId,
        ),
        account.owner@ == p ==> (token_account_error(account, p) is None <==> token_account_layout(
            account.data@,
        )),
{
}

/// A transfer request is signed with the seeds of the authority of the
/// program account `swap` (its key's bytes, then the nonce), and moves tokens
/// from the second key to the third, authorised by the fourth.
pub proof fn lemma_transfer_request_shape(
    req: TransferRequest,
    swap: Seq<u8>,
    nonce: u8,
    keys: Seq<[u8; 32]>,
    amount: u64,
)
    requires
        is_transfer_request(req, swap, nonce, keys, amount),
    ensures
        req.signer_seeds.deep_view() == seq![swap, seq![nonce]],
        req.instruction.program_id@ == keys[0]@,
        req.instruction.accounts@.len() == 3,
        req.instruction.accounts@[0].key@ == keys[1]@,
        req.instruction.accounts@[0].is_writable,
        req.instruction.accounts@[1].key@ == keys[2]@,
        req.instruction.accounts@[1].is_writable,
        req.instruction.accounts@[2].key@ == keys[3]@,
        req.instruction.accounts@[2].is_signer,
        req.instruction.data@ == seq![3u8] + le_bytes(amount as nat, 8),
{
    assert(authority_seeds(swap, nonce) =~~= seq![swap, seq![nonce]]);
}

/// A swap that starts moves `amount_in` from the user's source account
/// (position 5) into the program's source account (position 6), authorised
/// by the user transfer authority (position 4) and signed by the program's
/// authority.
pub proof fn lemma_swap_starts_by_moving_the_user_tokens_in(
    program_id: Seq<u8>,
    amount_in: u64,
    minimum_amount_out: u64,
    nonce: u8,
    accounts: Seq<AccountData>,
    res: (SwapStage, SwapAction),
)
    requires
        starts_swap(program_id, amount_in, minimum_amount_out, nonce, accounts, res),
        res.1 is Transfer,
    ensures
        res.1 matches SwapAction::Transfer { request, accounts: positions } && {
            &&& accounts.len() >= 15
            &&& positions@ == seq![5usize, 6, 4, 13]
            &&& request.signer_seeds.deep_view() == seq![accounts[0].key@, seq![nonce]]
            &&& request.instruction.accounts@.len() == 3
            &&& request.instruction.accounts@[0].key@ == accounts[5].key@
            &&& request.instruction.accounts@[0].is_writable
            &&& request.instruction.accounts@[1].key@ == accounts[6].key@
            &&& request.instruction.accounts@[1].is_writable
            &&& request.instruction.accounts@[2].key@ == accounts[4].key@
            &&& request.instruction.accounts@[2].is_signer
            &&& request.instruction.data@ == seq![3u8] + le_bytes(amount_in as nat, 8)
        },
{
    if let SwapAction::Transfer { request, accounts: positions } = res.1 {
        lemma_transfer_request_shape(
            request,
            accounts[0].key@,
            nonce,
            transfer_keys(accounts, 5, 6),
            amount_in,
        );
    }
}

/// After the pool swap, the program sends the whole balance of its
/// destination account (position 9), as its bytes `64..72` hold it, to the
/// user's destination account (position 10).
pub proof fn lemma_swap_ends_by_sending_the_whole_balance_out(
    stage: SwapStage,
    snap: Seq<AccountData>,
    res: (SwapStage, SwapAction),
    event: SwapEvent,
)
    requires
        stage is PoolSwap,
        event matches SwapEvent::Completed(s) && s@ == snap,
        continues_swap(stage, event, res),
        res.1 is Transfer,
    ensures
        res.1 matches SwapAction::Transfer { request, accounts: positions } && {
            &&& positions@ == seq![9usize, 10, 4, 13]
            &&& request.instruction.accounts@.len() == 3
            &&& request.instruction.accounts@[0].key@ == snap[9].key@
            &&& request.instruction.accounts@[0].is_writable
            &&& request.instruction.accounts@[1].key@ == snap[10].key@
            &&& request.instruction.accounts@[1].is_writable
            &&& request.instruction.accounts@[2].key@ == snap[4].key@
            &&& request.instruction.accounts@[2].is_signer
            &&& request.instruction.data@.len() == 9
            &&& request.instruction.data@[0] == 3
            &&& request.instruction.data@.subrange(1, 9) == snap[9].data@.subrange(64, 72)
        },
{
    if let (SwapStage::PoolSwap(ctx), SwapAction::Transfer { request, accounts: positions }) = (
        stage,
        res.1,
    ) {
        let b = snap[9].data@.subrange(64, 72);
        lemma_le_value_bound(b);
        lemma_le_roundtrip(b);
        lemma_transfer_request_shape(
            request,
            snap[0].key@,
            ctx.nonce,
            transfer_keys(snap, 9, 10),
            token_amount(snap[9].data@),
        );
        assert(request.instruction.data@.subrange(1, 9) =~= le_bytes(le_value(b), 8));
    }
}

/// `value` as an unsigned 128-bit integer.
pub fn to_u128(val: u64) -> (res: Result<u128, OneSolError>)
    ensures
        res == Ok::<u128, OneSolError>(val as u128),
{
    Ok(val as u128)
}

/// `value` as an unsigned 64-bit integer, when it fits.
pub fn to_u64(val: u128) -> (res: Result<u64, OneSolError>)
    ensures
        val <= u64::MAX ==> res == Ok::<u64, OneSolError>(val as u64),
        val > u64::MAX ==> res == Err::<u64, OneSolError>(OneSolError::ConversionFailure),
{
    if val <= u64::MAX as u128 {
        Ok(val as u64)
    } else {
        Err(OneSolError::ConversionFailure)
    }
}

/// Widening a `u64` to `u128` and narrowing it back gives the same value.
pub proof fn lemma_widen_then_narrow(val: u64)
    ensures
        (val as u128) <= u64::MAX,
        ((val as u128) as u64) == val,
{
}

/// The bytes of an address.
fn key_bytes(key: &[u8; 32]) -> (bytes: Vec<u8>)
    ensures
        bytes@ == key@,
{
    let mut bytes: Vec<u8> = Vec::new();
    let mut i: usize = 0;
    while i < 32
        invariant
            i <= 32,
            key@.len() == 32,
            bytes@ == key@.take(i as int),
        decreases 32 - i,
    {
        bytes.push(key[i]);
        i = i + 1;
        assert(bytes@ =~= key@.take(i as int));
    }
    assert(bytes@ =~= key@);
    bytes
}

/// The seeds of the program's authority for the account `key`.
fn authority_seed_vec(key: &[u8; 32], nonce: u8) -> (seeds: Vec<Vec<u8>>)
    ensures
        seeds.deep_view() == authority_seeds(key@, nonce),
{
    let mut seeds: Vec<Vec<u8>> = Vec::new();
    seeds.push(key_bytes(key));
    let mut n: Vec<u8> = Vec::new();
    n.push(nonce);
    seeds.push(n);
    assert(seeds.deep_view() =~~= authority_seeds(key@, nonce));
    seeds
}

/// The keys of the accounts at these positions.
fn keys_at(accounts: &Vec<AccountData>, positions: &Vec<usize>) -> (keys: Vec<[u8; 32]>)
    requires
        forall|i: int| 0 <= i < positions@.len() ==> #[trigger] positions@[i] < accounts@.len(),
    ensures
        keys@.len() == positions@.len(),
        forall|i: int| 0 <= i < positions@.len() ==> #[trigger] keys@[i] == accounts@[positions@[i] as int].key,
{
    let mut keys: Vec<[u8; 32]> = Vec::new();
    let mut i: usize = 0;
    while i < positions.len()
        invariant
            i <= positions@.len(),
            forall|i: int| 0 <= i < positions@.len() ==> #[trigger] positions@[i] < accounts@.len(),
            keys@.len() == i,
            forall|j: int| 0 <= j < i ==> #[trigger] keys@[j] == accounts@[positions@[j] as int].key,
        decreases positions@.len() - i,
    {
        keys.push(accounts[positions[i]].key);
        i = i + 1;
    }
    keys
}

impl Processor {
    /// Reads a token account of the token program `token_program_id`.
    pub fn unpack_token_account(account_info: &AccountData, token_program_id: &[u8; 32]) -> (res:
        Result<TokenAccount, OneSolError>)
        ensures
            token_account_error(*account_info, token_program_id@) matches Some(e) ==> res
                == Err::<TokenAccount, OneSolError>(e),
            token_account_error(*account_info, token_program_id@) is None ==> (res matches Ok(t)
                && reads_token_account(t, account_info.data@)),
            account_info.owner@ != token_program_id@ ==> res == Err::<TokenAccount, OneSolError>(
                OneSolError::IncorrectTokenProgramId,
            ),
            account_info.owner@ == token_program_id@ && !token_account_layout(account_info.data@)
                ==> res == Err::<TokenAccount, OneSolError>(OneSolError::ExpectedAccount),
            account_info.owner@ == token_program_id@ && token_account_layout(account_info.data@)
                ==> (res matches Ok(t) && t.amount == le_value(account_info.data@.subrange(64, 72))
                && t.mint@ == account_info.data@.subrange(0, 32) && t.owner@
                == account_info.data@.subrange(32, 64)),
    {
        if !keys_equal(&account_info.owner, token_program_id) {
            Err(OneSolError::IncorrectTokenProgramId)
        } else {
            match unpack_token_account_data(account_info.data.as_slice()) {
                Ok(t) => Ok(t),
                Err(_) => Err(OneSolError::ExpectedAccount),
            }
        }
    }

    /// Calculates the authority id by generating a program address.
    pub fn authority_id(program_id: &[u8; 32], my_info: &[u8; 32], nonce: u8) -> (res: Result<
        [u8; 32],
        OneSolError,
    >)
        ensures
            spec_authority(program_id@, my_info@, nonce) matches Some(k) ==> (res matches Ok(r)
                && r@ == k),
            spec_authority(program_id@, my_info@, nonce) is None ==> res == Err::<
                [u8; 32],
                OneSolError,
            >(OneSolError::InvalidProgramAddress),
            spec_program_address(seq![my_info@, seq![nonce]], program_id@) matches Some(k) ==> (
            res matches Ok(r) && r@ == k),
            spec_program_address(seq![my_info@, seq![nonce]], program_id@) is None ==> res
                == Err::<[u8; 32], OneSolError>(OneSolError::InvalidProgramAddress),
    {
        let seeds = authority_seed_vec(my_info, nonce);
        match create_program_address(&seeds, program_id) {
            Ok(k) => Ok(k),
            Err(_) => Err(OneSolError::InvalidProgramAddress),
        }
    }

    /// Prepares a token transfer of `amount` from `source` to `destination`
    /// by `authority`, signed by the program's authority for `swap`.
    pub fn token_transfer(
        swap: &[u8; 32],
        token_program: &[u8; 32],
        source: &[u8; 32],
        destination: &[u8; 32],
        authority: &[u8; 32],
        nonce: u8,
        amount: u64,
    ) -> (res: Result<TransferRequest, RuntimeError>)
        ensures
            res is Ok <==> token_program@ == token_program_key(),
            res matches Err(e) ==> e is IncorrectProgramId,
            res matches Ok(req) ==> is_transfer_request(
                req,
                swap@,
                nonce,
                seq![*token_program, *source, *destination, *authority],
                amount,
            ),
            res matches Ok(req) ==> {
                &&& req.signer_seeds.deep_view() == seq![swap@, seq![nonce]]
                &&& req.instruction.program_id@ == token_program@
                &&& req.instruction.accounts@.len() == 3
                &&& req.instruction.accounts@[0].key@ == source@
                &&& req.instruction.accounts@[0].is_writable
                &&& !req.instruction.accounts@[0].is_signer
                &&& req.instruction.accounts@[1].key@ == destination@
                &&& req.instruction.accounts@[1].is_writable
                &&& !req.instruction.accounts@[1].is_signer
                &&& req.instruction.accounts@[2].key@ == authority@
                &&& req.instruction.accounts@[2].is_signer
                &&& req.instruction.data@ == seq![3u8] + le_bytes(amount as nat, 8)
            },
    {
        let mut keys: Vec<[u8; 32]> = Vec::new();
        keys.push(*token_program);
        keys.push(*source);
        keys.push(*destination);
        keys.push(*authority);
        assert(keys@ =~= seq![*token_program, *source, *destination, *authority]);
        match token_transfer_instruction(&keys, amount) {
            Ok(instruction) => Ok(TransferRequest { instruction, signer_seeds: authority_seed_vec(swap, nonce) }),
            Err(e) => Err(e),
        }
    }

    /// Processes an [Initialize] instruction: there is nothing to do.
    pub fn process_initialize(program_id: &[u8; 32], _accounts: &Vec<AccountData>) -> (res: Result<
        (),
        SwapError,
    >)
        ensures
            res is Ok,
    {
        Ok(())
    }

    /// Processes an instruction: `Initialize` finishes at once, `Swap`
    /// starts a swap.
    pub fn process(program_id: &[u8; 32], accounts: &Vec<AccountData>, instruction: OneSolInstruction) -> (res: (
        SwapStage,
        SwapAction,
    ))
        ensures
            stage_wf(res.0),
            instruction is Initialize ==> res.0 is Done && res.1 matches SwapAction::Finish(Ok(())),
            instruction matches OneSolInstruction::Swap(s) ==> starts_swap(
                program_id@,
                s.amount_in,
                s.minimum_amount_out,
                s.nonce,
                accounts@,
                res,
            ),
    {
        match instruction {
            OneSolInstruction::Initialize(_) => {
                let r = Self::process_initialize(program_id, accounts);
                (SwapStage::Done, SwapAction::Finish(r))
            },
            OneSolInstruction::Swap(s) => Self::process_swap(
                program_id,
                s.amount_in,
                s.minimum_amount_out,
                s.nonce,
                accounts,
            ),
        }
    }

    /// Starts processing a [Swap] instruction: checks the accounts and the
    /// pool, and asks for the user's tokens to be moved into the program's
    /// source account.
    pub fn process_swap(
        program_id: &[u8; 32],
        amount_in: u64,
        minimum_amount_out: u64,
        nonce: u8,
        accounts: &Vec<AccountData>,
    ) -> (res: (SwapStage, SwapAction))
        ensures
            starts_swap(program_id@, amount_in, minimum_amount_out, nonce, accounts@, res),
            accounts@.len() >= 15 && accounts@[0].owner@ == program_id@ && spec_program_address(
                seq![accounts@[0].key@, seq![nonce]],
                program_id@,
            ) != Some(accounts@[2].key@) ==> res.1 == SwapAction::Finish(
                Err(SwapError::OneSol(OneSolError::InvalidProgramAddress)),
            ),
            res.1 matches SwapAction::Transfer { request, accounts: positions } ==> {
                &&& accounts@.len() >= 15
                &&& positions@ == seq![5usize, 6, 4, 13]
                &&& request.signer_seeds.deep_view() == seq![accounts@[0].key@, seq![nonce]]
                &&& request.instruction.program_id@ == accounts@[13].key@
                &&& request.instruction.accounts@.len() == 3
                &&& request.instruction.accounts@[0].key@ == accounts@[5].key@
                &&& request.instruction.accounts@[0].is_writable
                &&& request.instruction.accounts@[1].key@ == accounts@[6].key@
                &&& request.instruction.accounts@[1].is_writable
                &&& request.instruction.accounts@[2].key@ == accounts@[4].key@
                &&& request.instruction.accounts@[2].is_signer
                &&& request.instruction.data@ == seq![3u8] + le_bytes(amount_in as nat, 8)
            },
    {
        if accounts.len() < SWAP_ACCOUNTS {
            return (SwapStage::Done, SwapAction::Finish(Err(SwapError::NotEnoughAccountKeys)));
        }
        let onesol_info = &accounts[ONESOL_INFO];
        if !keys_equal(&onesol_info.owner, program_id) {
            return (SwapStage::Done, SwapAction::Finish(Err(SwapError::IncorrectProgramId)));
        }
        match Self::authority_id(program_id, &onesol_info.key, nonce) {
            Ok(k) => {
                if !keys_equal(&accounts[ONESOL_AUTHORITY_INFO].key, &k) {
                    return (
                        SwapStage::Done,
                        SwapAction::Finish(
                            Err(SwapError::OneSol(OneSolError::InvalidProgramAddress)),
                        ),
                    );
                }
            },
            Err(e) => {
                return (SwapStage::Done, SwapAction::Finish(Err(SwapError::OneSol(e))));
            },
        }
        let pool = match unpack_swap_pool(accounts[SWAP_INFO].data.as_slice()) {
            Ok(pool) => pool,
            Err(e) => {
                return (SwapStage::Done, SwapAction::Finish(Err(SwapError::Program(e))));
            },
        };
        let transfer = Self::token_transfer(
            &onesol_info.key,
            &accounts[TOKEN_PROGRAM_INFO].key,
            &accounts[SOURCE_INFO].key,
            &accounts[ONESOL_SOURCE_INFO].key,
            &accounts[USER_TRANSFER_AUTHORITY_INFO].key,
            nonce,
            amount_in,
        );
        match transfer {
            Ok(request) => {
                let mut positions: Vec<usize> = Vec::new();
                positions.push(SOURCE_INFO);
                positions.push(ONESOL_SOURCE_INFO);
                positions.push(USER_TRANSFER_AUTHORITY_INFO);
                positions.push(TOKEN_PROGRAM_INFO);
                assert(positions@ =~= seq![
                    SOURCE_INFO,
                    ONESOL_SOURCE_INFO,
                    USER_TRANSFER_AUTHORITY_INFO,
                    TOKEN_PROGRAM_INFO,
                ]);
                assert(transfer_keys(accounts@, SOURCE_INFO as int, ONESOL_SOURCE_INFO as int)
                    =~= seq![
                    accounts@[TOKEN_PROGRAM_INFO as int].key,
                    accounts@[SOURCE_INFO as int].key,
                    accounts@[ONESOL_SOURCE_INFO as int].key,
                    accounts@[USER_TRANSFER_AUTHORITY_INFO as int].key,
                ]);
                let ctx = SwapContext {
                    program_id: *program_id,
                    amount_in,
                    minimum_amount_out,
                    nonce,
                    pool,
                };
                (
                    SwapStage::TransferIn(ctx),
                    SwapAction::Transfer { request, accounts: positions },
                )
            },
            Err(_) => (SwapStage::Done, SwapAction::Abort),
        }
    }

    /// Takes the outcome of the call that `stage` waits for and says what
    /// to do next.
    pub fn continue_swap(stage: SwapStage, event: SwapEvent) -> (res: (SwapStage, SwapAction))
        requires
            stage_wf(stage),
            !(stage is Done),
            stage matches SwapStage::TransferIn(ctx) ==> (event matches SwapEvent::Completed(snap)
                ==> snap@.len() >= SWAP_ACCOUNTS && (pool_accounts_readable(ctx, snap@)
                ==> interpolation_fits(ctx.amount_in, 2))),
            stage is PoolSwap ==> (event matches SwapEvent::Completed(snap) ==> snap@.len()
                >= SWAP_ACCOUNTS),
        ensures
            continues_swap(stage, event, res),
            stage matches SwapStage::PoolSwap(ctx) ==> (event matches SwapEvent::Completed(snap) ==> (
            res.1 matches SwapAction::Transfer { request, accounts: positions } ==> {
                &&& positions@ == seq![9usize, 10, 4, 13]
                &&& request.signer_seeds.deep_view() == seq![snap@[0].key@, seq![ctx.nonce]]
                &&& request.instruction.program_id@ == snap@[13].key@
                &&& request.instruction.accounts@.len() == 3
                &&& request.instruction.accounts@[0].key@ == snap@[9].key@
                &&& request.instruction.accounts@[0].is_writable
                &&& request.instruction.accounts@[1].key@ == snap@[10].key@
                &&& request.instruction.accounts@[1].is_writable
                &&& request.instruction.accounts@[2].key@ == snap@[4].key@
                &&& request.instruction.accounts@[2].is_signer
                &&& request.instruction.data@.len() == 9
                &&& request.instruction.data@[0] == 3
                &&& request.instruction.data@.subrange(1, 9) == snap@[9].data@.subrange(64, 72)
            })),
            stage matches SwapStage::TransferIn(ctx) ==> (event matches SwapEvent::Completed(snap) ==> (
            res.1 matches SwapAction::PoolSwap { expected_distribution, .. } ==> expected_distribution@
                == expected_pool_distribution(
                ctx.pool.state@,
                ctx.amount_in,
                le_value(snap@[7].data@.subrange(64, 72)) as u64,
                le_value(snap@[8].data@.subrange(64, 72)) as u64,
                snap@[7].key@ == ctx.pool.token_a_account@,
            ))),
    {
        match stage {
            SwapStage::TransferIn(ctx) => match event {
                SwapEvent::Failed(_) => (SwapStage::Done, SwapAction::Abort),
                SwapEvent::Completed(snap) => Self::swap_through_pool(ctx, &snap),
            },
            SwapStage::PoolSwap(ctx) => match event {
                SwapEvent::Failed(e) => (
                    SwapStage::Done,
                    SwapAction::Finish(Err(SwapError::Program(RuntimeError::Other(e)))),
                ),
                SwapEvent::Completed(snap) => {
                    let dest_account = match unpack_token_account_data(
                        snap[ONESOL_DESTINATION_INFO].data.as_slice(),
                    ) {
                        Ok(t) => t,
                        Err(e) => {
                            return (SwapStage::Done, SwapAction::Finish(Err(SwapError::Program(e))));
                        },
                    };
                    let transfer = Self::token_transfer(
                        &snap[ONESOL_INFO].key,
                        &snap[TOKEN_PROGRAM_INFO].key,
                        &snap[ONESOL_DESTINATION_INFO].key,
                        &snap[DESTINATION_INFO].key,
                        &snap[USER_TRANSFER_AUTHORITY_INFO].key,
                        ctx.nonce,
                        dest_account.amount,
                    );
                    match transfer {
                        Ok(request) => {
                            proof {
                                let b = snap@[ONESOL_DESTINATION_INFO as int].data@.subrange(64, 72);
                                lemma_le_roundtrip(b);
                                assert(request.instruction.data@.subrange(1, 9) =~= le_bytes(
                                    le_value(b),
                                    8,
                                ));
                            }
                            let mut positions: Vec<usize> = Vec::new();
                            positions.push(ONESOL_DESTINATION_INFO);
                            positions.push(DESTINATION_INFO);
                            positions.push(USER_TRANSFER_AUTHORITY_INFO);
                            positions.push(TOKEN_PROGRAM_INFO);
                            assert(positions@ =~= seq![
                                ONESOL_DESTINATION_INFO,
                                DESTINATION_INFO,
                                USER_TRANSFER_AUTHORITY_INFO,
                                TOKEN_PROGRAM_INFO,
                            ]);
                            assert(transfer_keys(
                                snap@,
                                ONESOL_DESTINATION_INFO as int,
                                DESTINATION_INFO as int,
                            ) =~= seq![
                                snap@[TOKEN_PROGRAM_INFO as int].key,
                                snap@[ONESOL_DESTINATION_INFO as int].key,
                                snap@[DESTINATION_INFO as int].key,
                                snap@[USER_TRANSFER_AUTHORITY_INFO as int].key,
                            ]);
                            (
                                SwapStage::TransferOut,
                                SwapAction::Transfer { request, accounts: positions },
                            )
                        },
                        Err(_) => (SwapStage::Done, SwapAction::Abort),
                    }
                },
            },
            SwapStage::TransferOut => match event {
                SwapEvent::Failed(_) => (SwapStage::Done, SwapAction::Abort),
                SwapEvent::Completed(_) => (SwapStage::Done, SwapAction::Finish(Ok(()))),
            },
            SwapStage::Done => (SwapStage::Done, SwapAction::Abort),
        }
    }

    /// Once the user's tokens are in: reads the pool's token accounts,
    /// works out the expected distribution of the volume, and asks the pool
    /// to swap.
    fn swap_through_pool(ctx: SwapContext, snap: &Vec<AccountData>) -> (res: (SwapStage, SwapAction))
        requires
            swap_pool_layout(ctx.pool.state@),
            snap@.len() >= SWAP_ACCOUNTS,
            pool_accounts_readable(ctx, snap@) ==> interpolation_fits(ctx.amount_in, 2),
        ensures
            pool_swap_outcome(ctx, snap@, res),
    {
        let source_account = match Self::unpack_token_account(
            &snap[SWAP_SOURCE_INFO],
            &ctx.pool.token_program_id,
        ) {
            Ok(t) => t,
            Err(e) => {
                return (SwapStage::Done, SwapAction::Finish(Err(SwapError::OneSol(e))));
            },
        };
        let dest_account = match Self::unpack_token_account(
            &snap[SWAP_DESTINATION_INFO],
            &ctx.pool.token_program_id,
        ) {
            Ok(t) => t,
            Err(e) => {
                return (SwapStage::Done, SwapAction::Finish(Err(SwapError::OneSol(e))));
            },
        };
        let a_to_b = keys_equal(&snap[SWAP_SOURCE_INFO].key, &ctx.pool.token_a_account);
        let source_amount = source_account.amount;
        let destination_amount = dest_account.amount;
        let expected_distribution = match Self::expected_pool_return(
            &ctx.pool.state,
            ctx.amount_in,
            source_amount,
            destination_amount,
            a_to_b,
        ) {
            Some(d) => d,
            None => {
                return (SwapStage::Done, SwapAction::Abort);
            },
        };

        let mut key_positions: Vec<usize> = Vec::new();
        key_positions.push(TOKEN_SWAP_ACCOUNT_INFO);
        key_positions.push(TOKEN_PROGRAM_INFO);
        key_positions.push(SWAP_INFO);
        key_positions.push(SWAP_AUTHORITY_INFO);
        key_positions.push(USER_TRANSFER_AUTHORITY_INFO);
        key_positions.push(ONESOL_SOURCE_INFO);
        key_positions.push(SWAP_SOURCE_INFO);
        key_positions.push(SWAP_DESTINATION_INFO);
        key_positions.push(ONESOL_DESTINATION_INFO);
        key_positions.push(POOL_MINT_INFO);
        key_positions.push(POOL_FEE_ACCOUNT_INFO);
        let keys = keys_at(snap, &key_positions);
        assert(keys@ =~= pool_swap_keys(snap@));
        let host_fee_key = if snap.len() > HOST_FEE_ACCOUNT_INFO {
            Some(snap[HOST_FEE_ACCOUNT_INFO].key)
        } else {
            None
        };
        let instruction = match pool_swap_instruction(
            &keys,
            host_fee_key,
            ctx.amount_in,
            ctx.minimum_amount_out,
        ) {
            Ok(ix) => ix,
            Err(e) => {
                return (
                    SwapStage::Done,
                    SwapAction::Finish(Err(SwapError::Program(RuntimeError::Other(e)))),
                );
            },
        };
        let mut positions: Vec<usize> = Vec::new();
        positions.push(SWAP_INFO);
        positions.push(SWAP_AUTHORITY_INFO);
        positions.push(USER_TRANSFER_AUTHORITY_INFO);
        positions.push(ONESOL_SOURCE_INFO);
        positions.push(SWAP_SOURCE_INFO);
        positions.push(SWAP_DESTINATION_INFO);
        positions.push(ONESOL_DESTINATION_INFO);
        positions.push(POOL_MINT_INFO);
        positions.push(POOL_FEE_ACCOUNT_INFO);
        positions.push(TOKEN_PROGRAM_INFO);
        if snap.len() > HOST_FEE_ACCOUNT_INFO {
            positions.push(HOST_FEE_ACCOUNT_INFO);
        }
        assert(positions@ =~= pool_swap_positions(snap@.len() > HOST_FEE_ACCOUNT_INFO));
        (
            SwapStage::PoolSwap(ctx),
            SwapAction::PoolSwap { instruction, accounts: positions, expected_distribution },
        )
    }

    /// The quote that a pool's swap result gives.
    pub fn swap_quote(result: Option<u128>) -> (quote: Result<u64, OneSolError>)
        ensures
            quote == spec_swap_quote(result),
    {
        match result {
            None => Err(OneSolError::ZeroTradingTokens),
            Some(r) => to_u64(r),
        }
    }

    /// The expected distribution of `amount`, split in two, over the pool
    /// whose state is `state` and the second reserve, when the pool holds
    /// the given amounts; `None` where the search would leave `i64`.
    fn expected_pool_return(
        state: &Vec<u8>,
        amount: u64,
        source_amount: u64,
        destination_amount: u64,
        a_to_b: bool,
    ) -> (distribution: Option<Vec<u64>>)
        requires
            swap_pool_layout(state@),
            interpolation_fits(amount, 2),
        ensures
            distribution is Some <==> pool_distribution_fits(
                state@,
                amount,
                source_amount,
                destination_amount,
                a_to_b,
            ),
            distribution matches Some(d) ==> d@ == expected_pool_distribution(
                state@,
                amount,
                source_amount,
                destination_amount,
                a_to_b,
            ),
    {
        let quote = |x: u64| -> (r: Result<u64, OneSolError>)
            requires
                swap_pool_layout(state@),
            ensures
                r == pool_quote(state@, x, source_amount, destination_amount, a_to_b),
            {
                match (to_u128(x), to_u128(source_amount), to_u128(destination_amount)) {
                    (Ok(x), Ok(s), Ok(d)) => Self::swap_quote(
                        pool_swap_source_amount(state.as_slice(), x, s, d, a_to_b),
                    ),
                    _ => Err(OneSolError::ConversionFailure),
                }
            };
        let ghost pq = pool_quotes(state@, amount, source_amount, destination_amount, a_to_b);
        let ghost sr = second_reserve_quotes(amount, 2);
        let ghost m = pool_matrix(state@, amount, source_amount, destination_amount, a_to_b);
        // The only sum of the search that can leave `i64` is the pool's quote
        // for half the volume plus the second reserve's.
        let half = amount / 2;
        let first = match quote(half) {
            Ok(v) => v,
            Err(_) => 0,
        };
        proof {
            assert(interpolation(amount, 2)[0] == half);
            assert(pq[0] == first);
            assert(sr[0] == half + 1);
            assert(raw_matrix(seq![pq, sr], 2)[1][1] > 0);
            assert(any_positive(raw_matrix(seq![pq, sr], 2), 2));
            assert(m[0][1] == first as i64);
            assert(m[1][1] == (half + 1) as i64);
            assert(m[0][0] == 0);
            assert(best(m, 0, 0) == 0);
            assert(best(m, 0, 1) == m[0][1]);
        }
        let fits = (first as i64).checked_add((half + 1) as i64).is_some();
        if !fits {
            proof {
                assert(!(i64::MIN <= candidate(m, 1, 2, 1) <= i64::MAX));
            }
            return None;
        }
        proof {
            assert forall|i: int, j: int, k: int|
                1 <= i < 2 && 1 <= k <= j <= 2 implies i64::MIN <= #[trigger] candidate(m, i, j, k)
                <= i64::MAX by {
                if j == 2 && k == 2 {
                    assert(best(m, 0, 0) == 0);
                } else if j == 1 {
                    assert(best(m, 0, 0) == 0);
                }
            }
        }
        let mut calculates = Vec::new();
        calculates.push(quote);
        proof {
            assert(calculates@[0] == quote);
            assert forall|rets: Seq<Seq<u64>>|
                #[trigger] quote_table(calculates@, amount, 2, rets) implies rets =~~= seq![pq] by {
                assert(quotes_of(quote, amount, 2, rets[0]));
                assert forall|j: int| 0 <= j < 2 implies rets[0][j] == pq[j] by {
                    let x = interpolation(amount, 2)[j];
                    assert(is_quote(quote, x, rets[0][j]));
                    let r = choose|r: Result<u64, OneSolError>|
                        #[trigger] call_ensures(quote, (x,), r) && rets[0][j] == ok_or_zero(r);
                    assert(r == pool_quote(state@, x, source_amount, destination_amount, a_to_b));
                }
            }
            assert forall|rets: Seq<Seq<u64>>|
                #[trigger] quote_table(calculates@, amount, 2, rets) implies dp_fits(
                expected_matrix(rets.push(sr), 2),
                2,
                2,
            ) by {
                assert(rets =~~= seq![pq]);
                assert(rets.push(sr) =~~= seq![pq, sr]);
            }
        }
        let distribution = Self::get_expected_return_with_gas(amount, 2, calculates.as_slice());
        proof {
            let rets = choose|rets: Seq<Seq<u64>>|
                #[trigger] quote_table(calculates@, amount, 2, rets) && {
                    let mm = expected_matrix(rets.push(sr), 2);
                    &&& distribution@ == best_distribution(mm, 2, 2)
                    &&& best_split(mm, 2, distribution@)
                };
            assert(rets =~~= seq![pq]);
            assert(rets.push(sr) =~~= seq![pq, sr]);
        }
        Some(distribution)
    }
}

} // verus!
