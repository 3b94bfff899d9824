use bevy_r_place::program::processor::{
    process_instruction, resume_instruction, Continuation, Progress, TransferRequest,
};
use bevy_r_place::program::wire::{
    decode_chunk_state, decode_diff_buffer, decode_instruction, decode_user_state, decode_vault,
    encode_chunk_state, encode_diff_buffer, encode_instruction, encode_user_state, encode_vault,
    write_account_data,
};
use bevy_r_place::program::{
    AccountState, AggregatorVaultData, ChunkState, DiffBuffer, PixelDiff, ProgramFailure,
    RPlaceError, RPlaceInstruction, UserState, WireError, CHUNK_SEED_PREFIX, VAULT_SEED_PREFIX,
};
use solana_program::pubkey::Pubkey;

const PROGRAM: [u8; 32] = [9; 32];
const OTHER: [u8; 32] = [8; 32];

fn account(key: [u8; 32], owner: [u8; 32], is_signer: bool, data: Vec<u8>) -> AccountState {
    AccountState { key, owner, is_signer, lamports: 0, data }
}

fn funded(key: [u8; 32], owner: [u8; 32], is_signer: bool, lamports: u64, data: Vec<u8>) -> AccountState {
    AccountState { key, owner, is_signer, lamports, data }
}

fn clock_data(unix_timestamp: i64) -> Vec<u8> {
    let mut d = vec![0u8; 32];
    d.extend_from_slice(&unix_timestamp.to_le_bytes());
    d
}

fn clock_key() -> [u8; 32] {
    solana_program::sysvar::clock::ID.to_bytes()
}

fn place_accounts(user: Vec<u8>, diffs: Vec<u8>, now: i64) -> Vec<AccountState> {
    vec![
        account([1; 32], PROGRAM, false, diffs),
        account([2; 32], PROGRAM, false, user),
        account([3; 32], PROGRAM, false, vec![]),
        account([4; 32], OTHER, true, vec![]),
        account([5; 32], OTHER, false, vec![]),
        account(clock_key(), OTHER, false, clock_data(now)),
    ]
}

fn place(x: u16, y: u16, color: u8) -> Vec<u8> {
    encode_instruction(&RPlaceInstruction::PlacePixel { x, y, color })
}

fn diff(x: u16, y: u16, color: u8) -> PixelDiff {
    PixelDiff { x, y, color, user: [4; 32] }
}

#[test]
fn encodings_match_borsh() {
    let u = UserState { is_initialized: true, last_place_time: -1234 };
    assert_eq!(encode_user_state(&u), borsh::to_vec(&(true, -1234i64)).unwrap());
    let v = AggregatorVaultData { is_initialized: false, authority: [7; 32] };
    assert_eq!(encode_vault(&v), borsh::to_vec(&(false, [7u8; 32])).unwrap());
    let c = ChunkState { chunk_x: 3, chunk_y: 4, pixels: vec![1, 2, 3] };
    assert_eq!(encode_chunk_state(&c), borsh::to_vec(&(3u16, 4u16, vec![1u8, 2, 3])).unwrap());
    let d = DiffBuffer { is_initialized: true, diffs: vec![diff(1, 2, 3), diff(300, 4000, 9)] };
    let expected = borsh::to_vec(&(
        true,
        vec![(1u16, 2u16, 3u8, [4u8; 32]), (300u16, 4000u16, 9u8, [4u8; 32])],
    ))
    .unwrap();
    assert_eq!(encode_diff_buffer(&d), expected);
    let ix = encode_instruction(&RPlaceInstruction::AggregatorMerge { chunk_x: 1, chunk_y: 2, max_diffs: 7 });
    assert_eq!(ix, [vec![1u8], borsh::to_vec(&(1u16, 2u16, 7u32)).unwrap()].concat());
}

#[test]
fn decodings_roundtrip_and_fail_like_borsh() {
    let u = UserState { is_initialized: true, last_place_time: 77 };
    assert_eq!(decode_user_state(&encode_user_state(&u)), Ok(u));
    assert_eq!(decode_user_state(&[]), Err(WireError::UnexpectedLength));
    assert_eq!(decode_user_state(&[2, 0, 0, 0, 0, 0, 0, 0, 0]), Err(WireError::InvalidBool(2)));
    assert_eq!(decode_user_state(&[1, 0, 0]), Err(WireError::UnexpectedLength));
    assert_eq!(decode_user_state(&[0; 10]), Err(WireError::NotAllBytesRead));
    let v = AggregatorVaultData { is_initialized: true, authority: [3; 32] };
    assert_eq!(decode_vault(&encode_vault(&v)), Ok(v));
    let c = ChunkState { chunk_x: 3, chunk_y: 4, pixels: vec![5; 10] };
    let back = decode_chunk_state(&encode_chunk_state(&c)).unwrap();
    assert_eq!((back.chunk_x, back.chunk_y, back.pixels), (3, 4, vec![5; 10]));
    let d = DiffBuffer { is_initialized: false, diffs: vec![diff(1, 2, 3)] };
    let mut bytes = encode_diff_buffer(&d);
    let back = decode_diff_buffer(&bytes).unwrap();
    assert_eq!((back.is_initialized, back.diffs), (false, vec![diff(1, 2, 3)]));
    // the account is sized for more diffs: the bytes after the last one are not read
    bytes.extend_from_slice(&[0xee; 40]);
    let back = decode_diff_buffer(&bytes).unwrap();
    assert_eq!((back.is_initialized, back.diffs), (false, vec![diff(1, 2, 3)]));
    bytes.truncate(10);
    assert_eq!(decode_diff_buffer(&bytes).err(), Some(WireError::UnexpectedLength));
    let ix = RPlaceInstruction::InitAggregatorVault { authority: [6; 32] };
    assert_eq!(decode_instruction(&encode_instruction(&ix)), Some(ix));
    let ix = RPlaceInstruction::AggregatorWithdrawFees { amount: 5 };
    assert_eq!(decode_instruction(&encode_instruction(&ix)), Some(ix));
    assert_eq!(decode_instruction(&[4]), None);
    assert_eq!(decode_instruction(&[0, 1, 2]), None);
}

#[test]
fn writing_account_data_keeps_the_tail() {
    assert_eq!(write_account_data(&[9, 9, 9, 9], &[1, 2]), Ok(vec![1, 2, 9, 9]));
    assert_eq!(write_account_data(&[9], &[1, 2]), Err(WireError::WriteZero));
}

#[test]
fn error_codes_follow_declaration_order() {
    assert_eq!(RPlaceError::OutOfRange.code(), 0);
    assert_eq!(RPlaceError::CooldownActive.code(), 1);
    assert_eq!(RPlaceError::InvalidChunkSeeds.code(), 6);
    assert_eq!(RPlaceError::PartialMerge.code(), 11);
}

#[test]
fn seed_prefixes() {
    assert_eq!(&CHUNK_SEED_PREFIX, b"rplace_chunk");
    assert_eq!(&VAULT_SEED_PREFIX, b"aggregator_vault");
}

#[test]
fn place_pixel_charges_then_appends() {
    let user = encode_user_state(&UserState { is_initialized: false, last_place_time: 0 });
    // a diff buffer not yet set up, holding one stale diff: it is started afresh
    let diffs = encode_diff_buffer(&DiffBuffer { is_initialized: false, diffs: vec![diff(0, 0, 0)] });
    let mut accounts = place_accounts(user, diffs, 1000);
    let progress = process_instruction(&PROGRAM, &mut accounts, &place(10, 20, 5)).unwrap();
    assert_eq!(
        progress,
        Progress::Transfer {
            transfer: TransferRequest { from: 3, to: 2, system: 4, amount: 1_000_000 },
            then: Continuation::AppendDiff { diff_buffer: 0, diff: diff(10, 20, 5) },
        }
    );
    assert_eq!(
        decode_user_state(&accounts[1].data),
        Ok(UserState { is_initialized: true, last_place_time: 1000 })
    );
    let then = match progress {
        Progress::Transfer { then, .. } => then,
        Progress::Done => unreachable!(),
    };
    assert_eq!(resume_instruction(&mut accounts, then), Ok(()));
    let buffer = decode_diff_buffer(&accounts[0].data).unwrap();
    assert!(buffer.is_initialized);
    assert_eq!(buffer.diffs, vec![diff(10, 20, 5)]);
}

#[test]
fn place_pixel_appends_to_a_buffer_with_room() {
    let user = encode_user_state(&UserState { is_initialized: false, last_place_time: 0 });
    let mut diffs = encode_diff_buffer(&DiffBuffer { is_initialized: true, diffs: vec![diff(7, 7, 7)] });
    diffs.extend_from_slice(&[0; 2 * 37]);
    let mut accounts = place_accounts(user, diffs, 1000);
    let progress = process_instruction(&PROGRAM, &mut accounts, &place(1, 2, 3)).unwrap();
    let then = match progress {
        Progress::Transfer { then, .. } => then,
        Progress::Done => unreachable!(),
    };
    assert_eq!(resume_instruction(&mut accounts, then), Ok(()));
    let buffer = decode_diff_buffer(&accounts[0].data).unwrap();
    assert!(buffer.is_initialized);
    assert_eq!(buffer.diffs, vec![diff(7, 7, 7), diff(1, 2, 3)]);
    assert_eq!(accounts[0].data.len(), 5 + 3 * 37);
}

#[test]
fn place_pixel_needs_room_for_the_diff() {
    let user = encode_user_state(&UserState { is_initialized: false, last_place_time: 0 });
    let diffs = encode_diff_buffer(&DiffBuffer { is_initialized: true, diffs: vec![] });
    let mut accounts = place_accounts(user, diffs, 1000);
    let progress = process_instruction(&PROGRAM, &mut accounts, &place(1, 1, 1)).unwrap();
    let then = match progress {
        Progress::Transfer { then, .. } => then,
        Progress::Done => unreachable!(),
    };
    // an account holding just an empty buffer has no room for a diff
    assert_eq!(
        resume_instruction(&mut accounts, then),
        Err(ProgramFailure::BorshIo(WireError::WriteZero))
    );
}

#[test]
fn place_pixel_cooldown() {
    let user = encode_user_state(&UserState { is_initialized: true, last_place_time: 1000 });
    let diffs = encode_diff_buffer(&DiffBuffer { is_initialized: true, diffs: vec![] });
    let mut accounts = place_accounts(user.clone(), diffs.clone(), 1059);
    assert_eq!(
        process_instruction(&PROGRAM, &mut accounts, &place(1, 1, 1)),
        Err(ProgramFailure::Custom(RPlaceError::CooldownActive))
    );
    let mut accounts = place_accounts(user.clone(), diffs.clone(), 1060);
    assert!(process_instruction(&PROGRAM, &mut accounts, &place(1, 1, 1)).is_ok());
    assert_eq!(
        decode_user_state(&accounts[1].data),
        Ok(UserState { is_initialized: true, last_place_time: 1060 })
    );
    // a clock earlier than the last placement is refused too
    let mut accounts = place_accounts(user, diffs, 900);
    assert_eq!(
        process_instruction(&PROGRAM, &mut accounts, &place(1, 1, 1)),
        Err(ProgramFailure::Custom(RPlaceError::CooldownActive))
    );
}

#[test]
fn place_pixel_refusals() {
    let user = encode_user_state(&UserState { is_initialized: false, last_place_time: 0 });
    let diffs = encode_diff_buffer(&DiffBuffer { is_initialized: true, diffs: vec![] });
    let base = place_accounts(user, diffs, 5);
    let run = |accounts: &mut Vec<AccountState>, data: &[u8]| process_instruction(&PROGRAM, accounts, data);

    let mut a: Vec<AccountState> = base.iter().take(5).map(|x| account(x.key, x.owner, x.is_signer, x.data.clone())).collect();
    assert_eq!(run(&mut a, &place(1, 1, 1)), Err(ProgramFailure::NotEnoughAccountKeys));

    let copy = |v: &Vec<AccountState>| -> Vec<AccountState> {
        v.iter().map(|x| account(x.key, x.owner, x.is_signer, x.data.clone())).collect()
    };
    let mut a = copy(&base);
    a[0].owner = OTHER;
    assert_eq!(run(&mut a, &place(1, 1, 1)), Err(ProgramFailure::Custom(RPlaceError::InvalidDiffBufferOwner)));
    let mut a = copy(&base);
    a[1].owner = OTHER;
    assert_eq!(run(&mut a, &place(1, 1, 1)), Err(ProgramFailure::Custom(RPlaceError::InvalidUserOwner)));
    let mut a = copy(&base);
    a[2].owner = OTHER;
    assert_eq!(run(&mut a, &place(1, 1, 1)), Err(ProgramFailure::Custom(RPlaceError::InvalidVaultOwner)));
    let mut a = copy(&base);
    a[3].is_signer = false;
    assert_eq!(run(&mut a, &place(1, 1, 1)), Err(ProgramFailure::Custom(RPlaceError::UserMustSign)));
    let mut a = copy(&base);
    assert_eq!(run(&mut a, &place(4096, 1, 1)), Err(ProgramFailure::Custom(RPlaceError::OutOfRange)));
    let mut a = copy(&base);
    a[5].key = [0; 32];
    assert_eq!(run(&mut a, &place(1, 1, 1)), Err(ProgramFailure::InvalidAccountData));
    let mut a = copy(&base);
    a[5].data.truncate(39);
    assert_eq!(run(&mut a, &place(1, 1, 1)), Err(ProgramFailure::InvalidArgument));
    let mut a = copy(&base);
    a[1].data[0] = 2;
    assert_eq!(run(&mut a, &place(1, 1, 1)), Err(ProgramFailure::BorshIo(WireError::InvalidBool(2))));
    let mut a = copy(&base);
    assert_eq!(run(&mut a, &[0, 1]), Err(ProgramFailure::InvalidInstructionData));
}

fn chunk_pda(cx: u16, cy: u16) -> [u8; 32] {
    let program = Pubkey::new_from_array(PROGRAM);
    Pubkey::find_program_address(&[b"rplace_chunk", &cx.to_le_bytes(), &cy.to_le_bytes()], &program)
        .0
        .to_bytes()
}

fn merge_accounts(cx: u16, cy: u16, diffs: Vec<PixelDiff>) -> Vec<AccountState> {
    let chunk = encode_chunk_state(&ChunkState { chunk_x: cx, chunk_y: cy, pixels: vec![0; 65536] });
    let buffer = encode_diff_buffer(&DiffBuffer { is_initialized: true, diffs });
    vec![account([1; 32], PROGRAM, false, buffer), account(chunk_pda(cx, cy), PROGRAM, false, chunk)]
}

#[test]
fn merge_paints_the_chunk_and_keeps_the_rest() {
    let diffs = vec![diff(256 + 3, 512 + 4, 7), diff(10, 10, 1), diff(256 + 3, 512 + 4, 8)];
    let mut accounts = merge_accounts(1, 2, diffs);
    let data = encode_instruction(&RPlaceInstruction::AggregatorMerge { chunk_x: 1, chunk_y: 2, max_diffs: 10 });
    assert_eq!(process_instruction(&PROGRAM, &mut accounts, &data), Ok(Progress::Done));
    let chunk = decode_chunk_state(&accounts[1].data).unwrap();
    assert_eq!(chunk.pixels[4 * 256 + 3], 8);
    assert_eq!(chunk.pixels.iter().filter(|c| **c != 0).count(), 1);
    // the rewritten buffer is shorter than the account: the old tail stays behind it,
    // unread
    let kept = encode_diff_buffer(&DiffBuffer { is_initialized: true, diffs: vec![diff(10, 10, 1)] });
    assert_eq!(&accounts[0].data[..kept.len()], &kept[..]);
    assert_eq!(accounts[0].data.len(), 5 + 3 * 37);
    assert_eq!(decode_diff_buffer(&accounts[0].data).unwrap().diffs, vec![diff(10, 10, 1)]);
}

#[test]
fn merge_stops_at_the_limit_and_keeps_its_work() {
    let diffs = vec![diff(1, 1, 1), diff(2, 2, 2), diff(3, 3, 3)];
    let mut accounts = merge_accounts(0, 0, diffs);
    let data = encode_instruction(&RPlaceInstruction::AggregatorMerge { chunk_x: 0, chunk_y: 0, max_diffs: 2 });
    assert_eq!(process_instruction(&PROGRAM, &mut accounts, &data), Ok(Progress::Done));
    let chunk = decode_chunk_state(&accounts[1].data).unwrap();
    assert_eq!((chunk.pixels[257], chunk.pixels[514], chunk.pixels[771]), (1, 2, 0));
    assert_eq!(decode_diff_buffer(&accounts[0].data).unwrap().diffs, vec![diff(3, 3, 3)]);
    // the next call goes on with the diff left
    assert_eq!(process_instruction(&PROGRAM, &mut accounts, &data), Ok(Progress::Done));
    let chunk = decode_chunk_state(&accounts[1].data).unwrap();
    assert_eq!(chunk.pixels[771], 3);
    assert_eq!(decode_diff_buffer(&accounts[0].data).unwrap().diffs, vec![]);
    assert_eq!(
        process_instruction(&PROGRAM, &mut accounts, &data),
        Err(ProgramFailure::Custom(RPlaceError::NoDiffsToMerge))
    );
}

#[test]
fn merge_at_the_limit_with_other_chunks_left() {
    let mut accounts = merge_accounts(0, 0, vec![diff(1, 2, 7), diff(300, 0, 9)]);
    let data = encode_instruction(&RPlaceInstruction::AggregatorMerge { chunk_x: 0, chunk_y: 0, max_diffs: 1 });
    assert_eq!(process_instruction(&PROGRAM, &mut accounts, &data), Ok(Progress::Done));
    assert_eq!(decode_chunk_state(&accounts[1].data).unwrap().pixels[513], 7);
    assert_eq!(decode_diff_buffer(&accounts[0].data).unwrap().diffs, vec![diff(300, 0, 9)]);
}

#[test]
fn merge_refusals() {
    let data = encode_instruction(&RPlaceInstruction::AggregatorMerge { chunk_x: 0, chunk_y: 0, max_diffs: 2 });
    let mut a = merge_accounts(0, 0, vec![]);
    assert_eq!(process_instruction(&PROGRAM, &mut a, &data), Err(ProgramFailure::Custom(RPlaceError::NoDiffsToMerge)));
    let mut a = merge_accounts(0, 0, vec![diff(1, 1, 1)]);
    a[1].key = [0; 32];
    assert_eq!(process_instruction(&PROGRAM, &mut a, &data), Err(ProgramFailure::Custom(RPlaceError::InvalidChunkSeeds)));
    let mut a = merge_accounts(0, 0, vec![diff(1, 1, 1)]);
    a[1].owner = OTHER;
    assert_eq!(process_instruction(&PROGRAM, &mut a, &data), Err(ProgramFailure::IncorrectProgramId));
    let mut a = merge_accounts(0, 0, vec![diff(1, 1, 1)]);
    a[0].data = encode_diff_buffer(&DiffBuffer { is_initialized: false, diffs: vec![diff(1, 1, 1)] });
    assert_eq!(process_instruction(&PROGRAM, &mut a, &data), Err(ProgramFailure::Custom(RPlaceError::DiffBufferCorrupt)));
    let mut a = merge_accounts(0, 0, vec![diff(1, 1, 1)]);
    a[1].data = encode_chunk_state(&ChunkState { chunk_x: 0, chunk_y: 0, pixels: vec![0; 10] });
    assert_eq!(process_instruction(&PROGRAM, &mut a, &data), Err(ProgramFailure::Custom(RPlaceError::ChunkDataCorrupt)));
    let mut a = vec![account([1; 32], PROGRAM, false, vec![])];
    assert_eq!(process_instruction(&PROGRAM, &mut a, &data), Err(ProgramFailure::NotEnoughAccountKeys));
}

#[test]
fn init_vault_sets_the_authority() {
    let data = encode_instruction(&RPlaceInstruction::InitAggregatorVault { authority: [6; 32] });
    let mut a = vec![account([1; 32], PROGRAM, false, vec![0xff; 40])];
    assert_eq!(process_instruction(&PROGRAM, &mut a, &data), Ok(Progress::Done));
    assert_eq!(&a[0].data[..33], &encode_vault(&AggregatorVaultData { is_initialized: true, authority: [6; 32] })[..]);
    assert_eq!(&a[0].data[33..], &[0xff; 7]);
    let mut a = vec![account([1; 32], PROGRAM, false, vec![0; 10])];
    assert_eq!(process_instruction(&PROGRAM, &mut a, &data), Err(ProgramFailure::BorshIo(WireError::WriteZero)));
    let mut a = vec![account([1; 32], OTHER, false, vec![0; 40])];
    assert_eq!(process_instruction(&PROGRAM, &mut a, &data), Err(ProgramFailure::Custom(RPlaceError::InvalidVaultOwner)));
}

#[test]
fn init_vault_happens_once() {
    let set_up = encode_vault(&AggregatorVaultData { is_initialized: true, authority: [6; 32] });
    let data = encode_instruction(&RPlaceInstruction::InitAggregatorVault { authority: [7; 32] });
    let mut a = vec![account([1; 32], PROGRAM, false, set_up.clone())];
    assert_eq!(process_instruction(&PROGRAM, &mut a, &data), Err(ProgramFailure::AccountAlreadyInitialized));
    assert_eq!(a[0].data, set_up);
    // a vault that was never set up can be
    let fresh = encode_vault(&AggregatorVaultData { is_initialized: false, authority: [0; 32] });
    let mut a = vec![account([1; 32], PROGRAM, false, fresh)];
    assert_eq!(process_instruction(&PROGRAM, &mut a, &data), Ok(Progress::Done));
    assert_eq!(decode_vault(&a[0].data), Ok(AggregatorVaultData { is_initialized: true, authority: [7; 32] }));
}

#[test]
fn withdraw_moves_lamports_from_the_vault() {
    let program = Pubkey::new_from_array(PROGRAM);
    let (vault, _bump) = Pubkey::find_program_address(&[b"aggregator_vault"], &program);
    let vault_data = encode_vault(&AggregatorVaultData { is_initialized: true, authority: [6; 32] });
    let accounts = || {
        vec![
            funded(vault.to_bytes(), PROGRAM, false, 2_000, vault_data.clone()),
            funded([2; 32], OTHER, false, 100, vec![]),
            account([6; 32], OTHER, true, vec![]),
            account([5; 32], OTHER, false, vec![]),
        ]
    };
    let data = encode_instruction(&RPlaceInstruction::AggregatorWithdrawFees { amount: 500 });
    let mut a = accounts();
    assert_eq!(process_instruction(&PROGRAM, &mut a, &data), Ok(Progress::Done));
    assert_eq!((a[0].lamports, a[1].lamports), (1_500, 600));
    assert_eq!(a[0].data, vault_data);
    let too_much = encode_instruction(&RPlaceInstruction::AggregatorWithdrawFees { amount: 2_001 });
    let mut a = accounts();
    assert_eq!(process_instruction(&PROGRAM, &mut a, &too_much), Err(ProgramFailure::InsufficientFunds));
    let mut a = accounts();
    a[1].lamports = u64::MAX - 499;
    assert_eq!(process_instruction(&PROGRAM, &mut a, &data), Err(ProgramFailure::ArithmeticOverflow));
    let mut a = accounts();
    a[2].key = [7; 32];
    assert_eq!(process_instruction(&PROGRAM, &mut a, &data), Err(ProgramFailure::MissingRequiredSignature));
    let mut a = accounts();
    a[2].is_signer = false;
    assert_eq!(process_instruction(&PROGRAM, &mut a, &data), Err(ProgramFailure::Custom(RPlaceError::UserMustSign)));
    let mut a = accounts();
    a[0].key = [1; 32];
    assert_eq!(process_instruction(&PROGRAM, &mut a, &data), Err(ProgramFailure::Custom(RPlaceError::InvalidVaultSeeds)));
    let mut a = accounts();
    a[0].data = encode_vault(&AggregatorVaultData { is_initialized: false, authority: [6; 32] });
    assert_eq!(process_instruction(&PROGRAM, &mut a, &data), Err(ProgramFailure::UninitializedAccount));
}

#[test]
fn refused_instructions_leave_the_accounts() {
    // a cooldown refusal leaves the user state as it was
    let user = encode_user_state(&UserState { is_initialized: true, last_place_time: 1000 });
    let diffs = encode_diff_buffer(&DiffBuffer { is_initialized: true, diffs: vec![] });
    let mut accounts = place_accounts(user.clone(), diffs.clone(), 1030);
    assert_eq!(
        process_instruction(&PROGRAM, &mut accounts, &place(1, 1, 1)),
        Err(ProgramFailure::Custom(RPlaceError::CooldownActive))
    );
    assert_eq!(accounts[1].data, user);
    assert_eq!(accounts[0].data, diffs);
    // a withdrawal beyond the vault's balance moves no lamports
    let program = Pubkey::new_from_array(PROGRAM);
    let (vault, _bump) = Pubkey::find_program_address(&[b"aggregator_vault"], &program);
    let vault_data = encode_vault(&AggregatorVaultData { is_initialized: true, authority: [6; 32] });
    let mut a = vec![
        funded(vault.to_bytes(), PROGRAM, false, 10, vault_data),
        funded([2; 32], OTHER, false, 5, vec![]),
        account([6; 32], OTHER, true, vec![]),
        account([5; 32], OTHER, false, vec![]),
    ];
    let data = encode_instruction(&RPlaceInstruction::AggregatorWithdrawFees { amount: 11 });
    assert_eq!(process_instruction(&PROGRAM, &mut a, &data), Err(ProgramFailure::InsufficientFunds));
    assert_eq!((a[0].lamports, a[1].lamports), (10, 5));
}
