use onesol_swap::accounts::AccountData;
use onesol_swap::error::{OneSolError, RuntimeError};
use onesol_swap::processor::{
    Initialize, OneSolInstruction, Processor, Swap, SwapAction, SwapError, SwapEvent, SwapStage,
};
use solana_program::program_error::ProgramError;
use solana_program::program_option::COption;
use solana_program::program_pack::Pack;
use solana_program::pubkey::Pubkey;
use spl_token::state::{Account, AccountState};
use spl_token_swap::curve::base::{CurveType, SwapCurve};
use spl_token_swap::curve::calculator::TradeDirection;
use spl_token_swap::curve::constant_product::ConstantProductCurve;
use spl_token_swap::curve::fees::Fees;
use spl_token_swap::state::{SwapV1, SwapVersion};

fn key(b: u8) -> [u8; 32] {
    [b; 32]
}

fn token_account_bytes(mint: [u8; 32], owner: [u8; 32], amount: u64) -> Vec<u8> {
    let account = Account {
        mint: Pubkey::new_from_array(mint),
        owner: Pubkey::new_from_array(owner),
        amount,
        delegate: COption::None,
        state: AccountState::Initialized,
        is_native: COption::None,
        delegated_amount: 0,
        close_authority: COption::None,
    };
    let mut data = vec![0u8; Account::LEN];
    Account::pack(account, &mut data).unwrap();
    data
}

fn fees() -> Fees {
    Fees {
        trade_fee_numerator: 25,
        trade_fee_denominator: 10000,
        owner_trade_fee_numerator: 5,
        owner_trade_fee_denominator: 10000,
        owner_withdraw_fee_numerator: 0,
        owner_withdraw_fee_denominator: 0,
        host_fee_numerator: 20,
        host_fee_denominator: 100,
    }
}

fn pool_bytes(token_program: [u8; 32], token_a: [u8; 32]) -> Vec<u8> {
    let swap = SwapVersion::SwapV1(SwapV1 {
        is_initialized: true,
        nonce: 1,
        token_program_id: Pubkey::new_from_array(token_program),
        token_a: Pubkey::new_from_array(token_a),
        token_b: Pubkey::new_from_array(key(41)),
        pool_mint: Pubkey::new_from_array(key(42)),
        token_a_mint: Pubkey::new_from_array(key(43)),
        token_b_mint: Pubkey::new_from_array(key(44)),
        pool_fee_account: Pubkey::new_from_array(key(45)),
        fees: fees(),
        swap_curve: SwapCurve {
            curve_type: CurveType::ConstantProduct,
            calculator: Box::new(ConstantProductCurve {}),
        },
    });
    let mut data = vec![0u8; SwapVersion::LATEST_LEN];
    SwapVersion::pack(swap, &mut data).unwrap();
    data
}

fn account(k: [u8; 32], owner: [u8; 32], data: Vec<u8>) -> AccountData {
    AccountData { key: k, owner, data }
}

struct Setup {
    program_id: [u8; 32],
    nonce: u8,
    accounts: Vec<AccountData>,
}

/// A well-formed set of swap accounts, with the pool's token A account at position 7.
fn setup(with_host_fee: bool) -> Setup {
    let program_id = key(200);
    let token_program = spl_token::id().to_bytes();
    let onesol = key(1);
    let (authority, nonce) =
        Pubkey::find_program_address(&[&onesol[..]], &Pubkey::new_from_array(program_id));
    let mut accounts = Vec::new();
    accounts.push(account(onesol, program_id, vec![]));
    accounts.push(account(key(2), key(99), pool_bytes(token_program, key(8))));
    accounts.push(account(authority.to_bytes(), key(0), vec![]));
    for k in 3..=6u8 {
        accounts.push(account(key(k), token_program, vec![]));
    }
    accounts.push(account(key(8), token_program, token_account_bytes(key(50), key(51), 1_000_000)));
    accounts.push(account(key(9), token_program, token_account_bytes(key(52), key(51), 2_000_000)));
    accounts.push(account(key(10), token_program, token_account_bytes(key(52), key(53), 0)));
    for k in 11..=12u8 {
        accounts.push(account(key(k), token_program, vec![]));
    }
    accounts.push(account(key(13), key(0), vec![]));
    accounts.push(account(token_program, key(0), vec![]));
    accounts.push(account(key(15), key(0), vec![]));
    if with_host_fee {
        accounts.push(account(key(16), token_program, vec![]));
    }
    Setup { program_id, nonce, accounts }
}

fn clone_accounts(accounts: &Vec<AccountData>) -> Vec<AccountData> {
    accounts
        .iter()
        .map(|a| AccountData { key: a.key, owner: a.owner, data: a.data.clone() })
        .collect()
}

#[test]
fn authority_id_is_the_derived_program_address() {
    let program_id = key(200);
    let my_info = key(1);
    let (expected, nonce) =
        Pubkey::find_program_address(&[&my_info[..]], &Pubkey::new_from_array(program_id));
    assert_eq!(Processor::authority_id(&program_id, &my_info, nonce), Ok(expected.to_bytes()));
    let direct = Pubkey::create_program_address(
        &[&my_info[..], &[nonce]],
        &Pubkey::new_from_array(program_id),
    )
    .unwrap();
    assert_eq!(direct, expected);
    assert_ne!(expected.to_bytes(), my_info);
}

#[test]
fn authority_id_fails_for_a_seed_on_the_curve() {
    let program_id = key(200);
    let my_info = key(1);
    let mut failures = 0;
    for nonce in 0..=255u8 {
        let direct = Pubkey::create_program_address(
            &[&my_info[..], &[nonce]],
            &Pubkey::new_from_array(program_id),
        );
        let ours = Processor::authority_id(&program_id, &my_info, nonce);
        match direct {
            Ok(k) => assert_eq!(ours, Ok(k.to_bytes())),
            Err(_) => {
                failures += 1;
                assert_eq!(ours, Err(OneSolError::InvalidProgramAddress));
            }
        }
    }
    assert!(failures > 0);
}

#[test]
fn unpack_token_account_reads_the_fields() {
    let token_program = spl_token::id().to_bytes();
    let a = account(key(8), token_program, token_account_bytes(key(50), key(51), 777));
    match Processor::unpack_token_account(&a, &token_program) {
        Ok(t) => {
            assert_eq!(t.amount, 777);
            assert_eq!(t.mint, key(50));
            assert_eq!(t.owner, key(51));
        }
        Err(e) => panic!("unexpected error {:?}", e),
    }
}

#[test]
fn unpack_token_account_checks_the_owner() {
    let token_program = spl_token::id().to_bytes();
    let a = account(key(8), key(3), token_account_bytes(key(50), key(51), 777));
    assert!(matches!(
        Processor::unpack_token_account(&a, &token_program),
        Err(OneSolError::IncorrectTokenProgramId)
    ));
}

#[test]
fn unpack_token_account_rejects_bad_data() {
    let token_program = spl_token::id().to_bytes();
    let short = account(key(8), token_program, vec![0u8; 10]);
    assert!(matches!(
        Processor::unpack_token_account(&short, &token_program),
        Err(OneSolError::ExpectedAccount)
    ));
    let uninitialised = account(key(8), token_program, vec![0u8; Account::LEN]);
    assert!(matches!(
        Processor::unpack_token_account(&uninitialised, &token_program),
        Err(OneSolError::ExpectedAccount)
    ));
}

#[test]
fn token_transfer_builds_the_token_instruction() {
    let token_program = spl_token::id().to_bytes();
    let req =
        Processor::token_transfer(&key(1), &token_program, &key(5), &key(6), &key(4), 7, 500).unwrap();
    let expected = spl_token::instruction::transfer(
        &spl_token::id(),
        &Pubkey::new_from_array(key(5)),
        &Pubkey::new_from_array(key(6)),
        &Pubkey::new_from_array(key(4)),
        &[],
        500,
    )
    .unwrap();
    assert_eq!(req.instruction.program_id, token_program);
    assert_eq!(req.instruction.data, expected.data);
    assert_eq!(req.instruction.data, vec![3, 244, 1, 0, 0, 0, 0, 0, 0]);
    assert_eq!(req.instruction.accounts.len(), 3);
    for (ours, theirs) in req.instruction.accounts.iter().zip(expected.accounts.iter()) {
        assert_eq!(ours.key, theirs.pubkey.to_bytes());
        assert_eq!(ours.is_signer, theirs.is_signer);
        assert_eq!(ours.is_writable, theirs.is_writable);
    }
    assert_eq!(req.signer_seeds, vec![key(1).to_vec(), vec![7]]);
}

#[test]
fn token_transfer_needs_the_token_program() {
    let res = Processor::token_transfer(&key(1), &key(9), &key(5), &key(6), &key(4), 7, 500);
    assert!(matches!(res, Err(RuntimeError::IncorrectProgramId)));
}

#[test]
fn process_initialize_does_nothing() {
    let s = setup(false);
    assert!(Processor::process_initialize(&s.program_id, &s.accounts).is_ok());
    let (stage, action) =
        Processor::process(&s.program_id, &s.accounts, OneSolInstruction::Initialize(Initialize {}));
    assert!(matches!(stage, SwapStage::Done));
    assert!(matches!(action, SwapAction::Finish(Ok(()))));
}

#[test]
fn swap_needs_fifteen_accounts() {
    let s = setup(false);
    let mut accounts = s.accounts;
    accounts.truncate(14);
    let (stage, action) = Processor::process_swap(&s.program_id, 100, 1, s.nonce, &accounts);
    assert!(matches!(stage, SwapStage::Done));
    assert!(matches!(action, SwapAction::Finish(Err(SwapError::NotEnoughAccountKeys))));
}

#[test]
fn swap_needs_the_program_to_own_its_account() {
    let s = setup(false);
    let (_, action) = Processor::process_swap(&key(201), 100, 1, s.nonce, &s.accounts);
    assert!(matches!(action, SwapAction::Finish(Err(SwapError::IncorrectProgramId))));
}

#[test]
fn swap_needs_the_derived_authority() {
    let s = setup(false);
    let mut accounts = s.accounts;
    accounts[2].key = key(77);
    let (_, action) = Processor::process_swap(&s.program_id, 100, 1, s.nonce, &accounts);
    assert!(matches!(
        action,
        SwapAction::Finish(Err(SwapError::OneSol(OneSolError::InvalidProgramAddress)))
    ));
}

#[test]
fn swap_needs_a_readable_pool() {
    let s = setup(false);
    let mut accounts = s.accounts;
    accounts[1].data[0] = 2;
    let (_, action) = Processor::process_swap(&s.program_id, 100, 1, s.nonce, &accounts);
    assert!(matches!(
        action,
        SwapAction::Finish(Err(SwapError::Program(RuntimeError::UninitializedAccount)))
    ));
}

#[test]
fn swap_aborts_without_the_token_program() {
    let s = setup(false);
    let mut accounts = s.accounts;
    accounts[13].key = key(88);
    let (stage, action) = Processor::process_swap(&s.program_id, 100, 1, s.nonce, &accounts);
    assert!(matches!(stage, SwapStage::Done));
    assert!(matches!(action, SwapAction::Abort));
}

fn expect_transfer(action: &SwapAction, positions: Vec<usize>, amount: u64) {
    match action {
        SwapAction::Transfer { request, accounts } => {
            assert_eq!(*accounts, positions);
            assert_eq!(request.instruction.data[0], 3);
            assert_eq!(request.instruction.data[1..9], amount.to_le_bytes());
            assert_eq!(request.instruction.program_id, spl_token::id().to_bytes());
        }
        _ => panic!("expected a transfer"),
    }
}

#[test]
fn swap_runs_through_all_its_calls() {
    let s = setup(false);
    let amount_in = 50_000;
    let (stage, action) = Processor::process(
        &s.program_id,
        &s.accounts,
        OneSolInstruction::Swap(Swap { amount_in, minimum_amount_out: 10, nonce: s.nonce }),
    );
    assert!(matches!(stage, SwapStage::TransferIn(_)));
    expect_transfer(&action, vec![5, 6, 4, 13], amount_in);
    if let SwapAction::Transfer { request, .. } = &action {
        assert_eq!(request.signer_seeds, vec![key(1).to_vec(), vec![s.nonce]]);
    }

    let (stage, action) =
        Processor::continue_swap(stage, SwapEvent::Completed(clone_accounts(&s.accounts)));
    assert!(matches!(stage, SwapStage::PoolSwap(_)));
    match &action {
        SwapAction::PoolSwap { instruction, accounts, expected_distribution } => {
            assert_eq!(*accounts, vec![1, 3, 4, 6, 7, 8, 9, 11, 12, 13]);
            let curve = SwapCurve {
                curve_type: CurveType::ConstantProduct,
                calculator: Box::new(ConstantProductCurve {}),
            };
            let quote = |x: u64| -> Result<u64, OneSolError> {
                Processor::swap_quote(
                    curve
                        .swap(x as u128, 1_000_000, 2_000_000, TradeDirection::AtoB, &fees())
                        .map(|r| r.source_amount_swapped),
                )
            };
            let calcs: Vec<&dyn Fn(u64) -> Result<u64, OneSolError>> = vec![&quote];
            assert_eq!(
                *expected_distribution,
                Processor::get_expected_return_with_gas(amount_in, 2, &calcs)
            );
            assert_eq!(expected_distribution.iter().sum::<u64>(), 2);
            let k = |i: usize| Pubkey::new_from_array(s.accounts[i].key);
            let expected = spl_token_swap::instruction::swap(
                &k(14), &k(13), &k(1), &k(3), &k(4), &k(6), &k(7), &k(8), &k(9), &k(11), &k(12),
                None,
                spl_token_swap::instruction::Swap { amount_in, minimum_amount_out: 10 },
            )
            .unwrap();
            assert_eq!(instruction.program_id, key(15));
            assert_eq!(instruction.data, expected.data);
            assert_eq!(instruction.accounts.len(), expected.accounts.len());
            for (ours, theirs) in instruction.accounts.iter().zip(expected.accounts.iter()) {
                assert_eq!(ours.key, theirs.pubkey.to_bytes());
                assert_eq!(ours.is_signer, theirs.is_signer);
                assert_eq!(ours.is_writable, theirs.is_writable);
            }
        }
        _ => panic!("expected the pool swap"),
    }

    // The pool has paid 1234 tokens into the program's destination account.
    let mut after = clone_accounts(&s.accounts);
    after[9].data = token_account_bytes(key(52), key(53), 1234);
    let (stage, action) = Processor::continue_swap(stage, SwapEvent::Completed(after));
    assert!(matches!(stage, SwapStage::TransferOut));
    expect_transfer(&action, vec![9, 10, 4, 13], 1234);

    let (stage, action) =
        Processor::continue_swap(stage, SwapEvent::Completed(clone_accounts(&s.accounts)));
    assert!(matches!(stage, SwapStage::Done));
    assert!(matches!(action, SwapAction::Finish(Ok(()))));
}

#[test]
fn swap_passes_the_host_fee_account() {
    let s = setup(true);
    let (stage, _) = Processor::process_swap(&s.program_id, 1000, 1, s.nonce, &s.accounts);
    let (_, action) =
        Processor::continue_swap(stage, SwapEvent::Completed(clone_accounts(&s.accounts)));
    match action {
        SwapAction::PoolSwap { instruction, accounts, .. } => {
            assert_eq!(accounts, vec![1, 3, 4, 6, 7, 8, 9, 11, 12, 13, 15]);
            assert_eq!(instruction.accounts.len(), 11);
            assert_eq!(instruction.accounts[10].key, key(16));
            assert!(instruction.accounts[10].is_writable);
        }
        _ => panic!("expected the pool swap"),
    }
}

#[test]
fn swap_checks_the_pool_token_accounts() {
    let s = setup(false);
    let (stage, _) = Processor::process_swap(&s.program_id, 1000, 1, s.nonce, &s.accounts);
    let mut after = clone_accounts(&s.accounts);
    after[7].owner = key(3);
    let (stage2, action) = Processor::continue_swap(stage, SwapEvent::Completed(after));
    assert!(matches!(stage2, SwapStage::Done));
    assert!(matches!(
        action,
        SwapAction::Finish(Err(SwapError::OneSol(OneSolError::IncorrectTokenProgramId)))
    ));

    let (stage, _) = Processor::process_swap(&s.program_id, 1000, 1, s.nonce, &s.accounts);
    let mut after = clone_accounts(&s.accounts);
    after[8].data = vec![1, 2, 3];
    let (_, action) = Processor::continue_swap(stage, SwapEvent::Completed(after));
    assert!(matches!(
        action,
        SwapAction::Finish(Err(SwapError::OneSol(OneSolError::ExpectedAccount)))
    ));
}

#[test]
fn swap_quote_reads_the_pool_curve_result() {
    let curve = SwapCurve {
        curve_type: CurveType::ConstantProduct,
        calculator: Box::new(ConstantProductCurve {}),
    };
    let r = curve.swap(25_000, 1_000_000, 2_000_000, TradeDirection::AtoB, &fees()).unwrap();
    assert_eq!(
        Processor::swap_quote(Some(r.source_amount_swapped)),
        Ok(r.source_amount_swapped as u64)
    );
    assert_eq!(Processor::swap_quote(None), Err(OneSolError::ZeroTradingTokens));
    assert_eq!(
        Processor::swap_quote(Some(u64::MAX as u128 + 1)),
        Err(OneSolError::ConversionFailure)
    );
}

#[test]
fn a_failed_transfer_aborts() {
    let s = setup(false);
    let (stage, _) = Processor::process_swap(&s.program_id, 1000, 1, s.nonce, &s.accounts);
    let (stage, action) =
        Processor::continue_swap(stage, SwapEvent::Failed(ProgramError::InsufficientFunds));
    assert!(matches!(stage, SwapStage::Done));
    assert!(matches!(action, SwapAction::Abort));
}

#[test]
fn a_failed_pool_swap_is_reported() {
    let s = setup(false);
    let (stage, _) = Processor::process_swap(&s.program_id, 1000, 1, s.nonce, &s.accounts);
    let (stage, _) =
        Processor::continue_swap(stage, SwapEvent::Completed(clone_accounts(&s.accounts)));
    let (stage, action) =
        Processor::continue_swap(stage, SwapEvent::Failed(ProgramError::Custom(16)));
    assert!(matches!(stage, SwapStage::Done));
    assert!(matches!(
        action,
        SwapAction::Finish(Err(SwapError::Program(RuntimeError::Other(ProgramError::Custom(16)))))
    ));
}

#[test]
fn an_unreadable_destination_after_the_swap_is_reported() {
    let s = setup(false);
    let (stage, _) = Processor::process_swap(&s.program_id, 1000, 1, s.nonce, &s.accounts);
    let (stage, _) =
        Processor::continue_swap(stage, SwapEvent::Completed(clone_accounts(&s.accounts)));
    let mut after = clone_accounts(&s.accounts);
    after[9].data = vec![0u8; 3];
    let (_, action) = Processor::continue_swap(stage, SwapEvent::Completed(after));
    assert!(matches!(
        action,
        SwapAction::Finish(Err(SwapError::Program(RuntimeError::InvalidAccountData)))
    ));
}

#[test]
fn frozen_token_accounts_are_read_and_bad_tags_are_not() {
    let token_program = spl_token::id().to_bytes();
    let mut data = token_account_bytes(key(50), key(51), 9);
    data[108] = 2;
    let frozen = account(key(8), token_program, data.clone());
    assert!(matches!(Processor::unpack_token_account(&frozen, &token_program), Ok(t) if t.amount == 9));
    data[72] = 2;
    let bad_tag = account(key(8), token_program, data);
    assert!(matches!(
        Processor::unpack_token_account(&bad_tag, &token_program),
        Err(OneSolError::ExpectedAccount)
    ));
}

#[test]
fn swap_refuses_a_pool_with_an_unknown_curve() {
    let s = setup(false);
    let mut accounts = s.accounts;
    accounts[1].data[291] = 4;
    let (_, action) = Processor::process_swap(&s.program_id, 100, 1, s.nonce, &accounts);
    assert!(matches!(
        action,
        SwapAction::Finish(Err(SwapError::Program(RuntimeError::InvalidAccountData)))
    ));
}

#[test]
fn bad_pool_accounts_are_reported_whatever_the_amount() {
    let s = setup(false);
    let (stage, _) = Processor::process_swap(&s.program_id, u64::MAX, 1, s.nonce, &s.accounts);
    assert!(matches!(stage, SwapStage::TransferIn(_)));
    let mut after = clone_accounts(&s.accounts);
    after[8].owner = key(3);
    let (_, action) = Processor::continue_swap(stage, SwapEvent::Completed(after));
    assert!(matches!(
        action,
        SwapAction::Finish(Err(SwapError::OneSol(OneSolError::IncorrectTokenProgramId)))
    ));
}

#[test]
fn swap_refuses_an_uninitialised_pool_and_a_short_one() {
    let s = setup(false);
    let mut accounts = clone_accounts(&s.accounts);
    accounts[1].data[1] = 0;
    let (_, action) = Processor::process_swap(&s.program_id, 100, 1, s.nonce, &accounts);
    assert!(matches!(
        action,
        SwapAction::Finish(Err(SwapError::Program(RuntimeError::UninitializedAccount)))
    ));
    let mut accounts = clone_accounts(&s.accounts);
    accounts[1].data.truncate(100);
    let (_, action) = Processor::process_swap(&s.program_id, 100, 1, s.nonce, &accounts);
    assert!(matches!(
        action,
        SwapAction::Finish(Err(SwapError::Program(RuntimeError::InvalidAccountData)))
    ));
}

#[test]
fn process_starts_a_swap_as_process_swap_does() {
    let s = setup(true);
    let (stage1, action1) = Processor::process(
        &s.program_id,
        &s.accounts,
        OneSolInstruction::Swap(Swap { amount_in: 777, minimum_amount_out: 5, nonce: s.nonce }),
    );
    let (stage2, action2) = Processor::process_swap(&s.program_id, 777, 5, s.nonce, &s.accounts);
    assert!(matches!((&stage1, &stage2), (SwapStage::TransferIn(_), SwapStage::TransferIn(_))));
    match (action1, action2) {
        (
            SwapAction::Transfer { request: q1, accounts: p1 },
            SwapAction::Transfer { request: q2, accounts: p2 },
        ) => {
            assert_eq!(p1, p2);
            assert_eq!(q1.instruction.data, q2.instruction.data);
            assert_eq!(q1.instruction.program_id, q2.instruction.program_id);
            assert_eq!(q1.signer_seeds, q2.signer_seeds);
        }
        _ => panic!("expected transfers"),
    }
}
