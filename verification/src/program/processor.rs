//! The program's instructions. Each instruction checks its accounts, reads and rewrites
//! their data and lamports. Placing a pixel also asks for the fee's transfer from the
//! payer, which the system program performs between the two steps of the instruction:
//! `process_instruction` runs up to the transfer and `resume_instruction` runs after it.
use super::solana::{
    clock_id_bytes,
    clock_sysvar_id,
    clock_timestamp,
    clock_unix_timestamp,
    find_program_address,
    program_address,
};
use super::wire::{
    decode_chunk_state,
    decode_diff_buffer,
    decode_instruction,
    decode_user_state,
    decode_vault,
    diff_buffer_bytes,
    encode_chunk_state,
    encode_diff_buffer,
    encode_user_state,
    encode_vault,
    overwrite,
    parse_chunk_state,
    parse_diff_buffer,
    parse_instruction,
    parse_user_state,
    parse_vault,
    instruction_bytes,
    chunk_state_bytes,
    user_state_bytes,
    vault_bytes,
    write_account_data,
    DIFF_LEN,
};
use super::{
    same_key,
    accounts_model,
    AccountModel,
    AccountState,
    AggregatorVaultData,
    ChunkState,
    ChunkStateModel,
    DiffBuffer,
    DiffBufferModel,
    PixelDiff,
    ProgramFailure,
    RPlaceError,
    RPlaceInstruction,
    UserState,
    WireError,
    BOARD_HEIGHT,
    BOARD_WIDTH,
    CHUNK_PIXEL_COUNT,
    CHUNK_SEED_PREFIX,
    CHUNK_SIZE,
    COOLDOWN_SECONDS,
    PIXEL_FEE_LAMPORTS,
    VAULT_SEED_PREFIX,
};
use vstd::bytes::{spec_u16_to_le_bytes, u16_to_le_bytes};
use vstd::prelude::*;

verus! {

broadcast use vstd::array::group_array_axioms;

/// The largest data an account can hold, in bytes.
pub const MAX_ACCOUNT_DATA: usize = 10485760;

/// A lamport transfer through the system program, between accounts of the instruction
/// named by position.
#[derive(Clone, Copy, Debug, PartialEq, Eq)]
pub struct TransferRequest {
    pub from: usize,
    pub to: usize,
    pub system: usize,
    pub amount: u64,
}

/// What is left of an instruction once its transfer went through.
#[derive(Clone, Copy, Debug, PartialEq, Eq)]
pub enum Continuation {
    /// Append `diff` to the diff buffer held by account `diff_buffer`.
    AppendDiff { diff_buffer: usize, diff: PixelDiff },
}

/// How far an instruction got.
#[derive(Clone, Copy, Debug, PartialEq, Eq)]
pub enum Progress {
    /// The instruction completed.
    Done,
    /// The instruction waits for `transfer`, then goes on with `then`.
    Transfer { transfer: TransferRequest, then: Continuation },
}

/// The accounts after account `i`'s data became `data`.
pub open spec fn with_data(a: Seq<AccountModel>, i: int, data: Seq<u8>) -> Seq<AccountModel> {
    a.update(i, AccountModel { data, ..a[i] })
}

/// The accounts after writing `bytes` at the start of account `i`'s data, or the failure
/// when they do not fit.
pub open spec fn write_spec(a: Seq<AccountModel>, i: int, bytes: Seq<u8>) -> Result<
    Seq<AccountModel>,
    ProgramFailure,
> {
    if bytes.len() > a[i].data.len() {
        Err(ProgramFailure::BorshIo(WireError::WriteZero))
    } else {
        Ok(with_data(a, i, overwrite(a[i].data, bytes)))
    }
}

/// Whether a user whose state is `u` must still wait at time `now`. The end of the
/// cooldown is computed in wrapping 64-bit arithmetic.
pub open spec fn cooldown_active(u: UserState, now: i64) -> bool {
    u.is_initialized && now < u.last_place_time.wrapping_add(COOLDOWN_SECONDS)
}

// ------------------------------------------------------------------
// PlacePixel
// ------------------------------------------------------------------

/// `PlacePixel` up to its fee transfer. Accounts: diff buffer, user state, vault,
/// payer, system program, clock sysvar.
pub open spec fn place_pixel_spec(
    program_id: [u8; 32],
    a: Seq<AccountModel>,
    x: u16,
    y: u16,
    color: u8,
) -> Result<(Seq<AccountModel>, Progress), ProgramFailure> {
    if a.len() < 6 {
        Err(ProgramFailure::NotEnoughAccountKeys)
    } else if a[0].owner != program_id {
        Err(ProgramFailure::Custom(RPlaceError::InvalidDiffBufferOwner))
    } else if a[1].owner != program_id {
        Err(ProgramFailure::Custom(RPlaceError::InvalidUserOwner))
    } else if a[2].owner != program_id {
        Err(ProgramFailure::Custom(RPlaceError::InvalidVaultOwner))
    } else if !a[3].is_signer {
        Err(ProgramFailure::Custom(RPlaceError::UserMustSign))
    } else if x >= BOARD_WIDTH || y >= BOARD_HEIGHT {
        Err(ProgramFailure::Custom(RPlaceError::OutOfRange))
    } else if a[5].key@ != clock_id_bytes() {
        Err(ProgramFailure::InvalidAccountData)
    } else {
        match clock_timestamp(a[5].data) {
            None => Err(ProgramFailure::InvalidArgument),
            Some(now) => match parse_user_state(a[1].data) {
                Err(e) => Err(ProgramFailure::BorshIo(e)),
                Ok(u) => if cooldown_active(u, now) {
                    Err(ProgramFailure::Custom(RPlaceError::CooldownActive))
                } else {
                    match write_spec(
                        a,
                        1,
                        user_state_bytes(UserState { is_initialized: true, last_place_time: now }),
                    ) {
                        Err(e) => Err(e),
                        Ok(a2) => Ok(
                            (
                                a2,
                                Progress::Transfer {
                                    transfer: TransferRequest {
                                        from: 3,
                                        to: 2,
                                        system: 4,
                                        amount: PIXEL_FEE_LAMPORTS,
                                    },
                                    then: Continuation::AppendDiff {
                                        diff_buffer: 0,
                                        diff: PixelDiff { x, y, color, user: a[3].key },
                                    },
                                },
                            ),
                        ),
                    }
                },
            },
        }
    }
}

/// `PlacePixel` after its fee transfer: the diff appended to the diff buffer, which is
/// started afresh when it was not set up.
pub open spec fn append_diff_spec(a: Seq<AccountModel>, buf: int, diff: PixelDiff) -> Result<
    Seq<AccountModel>,
    ProgramFailure,
> {
    match parse_diff_buffer(a[buf].data) {
        Err(e) => Err(ProgramFailure::BorshIo(e)),
        Ok(m) => {
            let kept = if m.is_initialized {
                m.diffs
            } else {
                Seq::empty()
            };
            write_spec(
                a,
                buf,
                diff_buffer_bytes(DiffBufferModel { is_initialized: true, diffs: kept.push(diff) }),
            )
        },
    }
}

// ------------------------------------------------------------------
// AggregatorMerge
// ------------------------------------------------------------------

/// The state of a merge part-way through the diff buffer.
pub struct MergeState {
    pub pixels: Seq<u8>,
    pub kept: Seq<PixelDiff>,
    pub merged: nat,
}

/// Whether a diff lies in chunk `(cx, cy)`.
pub open spec fn in_chunk(d: PixelDiff, cx: u16, cy: u16) -> bool {
    d.x / CHUNK_SIZE == cx && d.y / CHUNK_SIZE == cy
}

/// Where a diff of a chunk lands in the chunk's pixels.
pub open spec fn chunk_offset(d: PixelDiff) -> int {
    (d.y % CHUNK_SIZE) * CHUNK_SIZE + (d.x % CHUNK_SIZE)
}

/// One step of a merge: once `max` diffs were merged every diff is kept; before that,
/// a diff of the chunk is painted into it and any other diff is kept.
pub open spec fn merge_step(s: MergeState, d: PixelDiff, cx: u16, cy: u16, max: u32) -> MergeState {
    if s.merged >= max {
        MergeState { kept: s.kept.push(d), ..s }
    } else if in_chunk(d, cx, cy) {
        MergeState { pixels: s.pixels.update(chunk_offset(d), d.color), merged: s.merged + 1, ..s }
    } else {
        MergeState { kept: s.kept.push(d), ..s }
    }
}

/// The merge of `diffs`, in order, into `pixels`.
pub open spec fn merge_run(diffs: Seq<PixelDiff>, pixels: Seq<u8>, cx: u16, cy: u16, max: u32) -> MergeState
    decreases diffs.len(),
{
    if diffs.len() == 0 {
        MergeState { pixels, kept: Seq::empty(), merged: 0 }
    } else {
        merge_step(merge_run(diffs.drop_last(), pixels, cx, cy, max), diffs.last(), cx, cy, max)
    }
}

/// How many of `diffs` lie in chunk `(cx, cy)`.
pub open spec fn chunk_count(diffs: Seq<PixelDiff>, cx: u16, cy: u16) -> nat
    decreases diffs.len(),
{
    if diffs.len() == 0 {
        0
    } else {
        chunk_count(diffs.drop_last(), cx, cy) + if in_chunk(diffs.last(), cx, cy) {
            1nat
        } else {
            0nat
        }
    }
}

proof fn lemma_chunk_count_push(s: Seq<PixelDiff>, d: PixelDiff, cx: u16, cy: u16)
    ensures
        chunk_count(s.push(d), cx, cy) == chunk_count(s, cx, cy) + if in_chunk(d, cx, cy) {
            1nat
        } else {
            0nat
        },
{
    assert(s.push(d).drop_last() =~= s);
}

/// The seeds of chunk `(cx, cy)`'s account address.
pub open spec fn chunk_seeds(cx: u16, cy: u16) -> Seq<Seq<u8>> {
    seq![CHUNK_SEED_PREFIX@, spec_u16_to_le_bytes(cx), spec_u16_to_le_bytes(cy)]
}

/// The seeds of the vault's account address.
pub open spec fn vault_seeds() -> Seq<Seq<u8>> {
    seq![VAULT_SEED_PREFIX@]
}

/// `AggregatorMerge`. Accounts: diff buffer, chunk. Up to `max` diffs of the chunk are
/// painted into it and the rest of the buffer is kept; a merge that stops at `max` still
/// keeps what it did, and a later call goes on with the diffs left.
pub open spec fn aggregator_merge_spec(
    program_id: [u8; 32],
    a: Seq<AccountModel>,
    cx: u16,
    cy: u16,
    max: u32,
) -> Result<Seq<AccountModel>, ProgramFailure> {
    if a.len() < 2 {
        Err(ProgramFailure::NotEnoughAccountKeys)
    } else if a[0].owner != program_id {
        Err(ProgramFailure::Custom(RPlaceError::InvalidDiffBufferOwner))
    } else if a[1].owner != program_id {
        Err(ProgramFailure::IncorrectProgramId)
    } else {
        match program_address(chunk_seeds(cx, cy), program_id@) {
            None => Err(ProgramFailure::InvalidSeeds),
            Some((pda, _bump)) => if pda != a[1].key@ {
                Err(ProgramFailure::Custom(RPlaceError::InvalidChunkSeeds))
            } else {
                match parse_chunk_state(a[1].data) {
                    Err(e) => Err(ProgramFailure::BorshIo(e)),
                    Ok(c) => if c.pixels.len() != CHUNK_PIXEL_COUNT {
                        Err(ProgramFailure::Custom(RPlaceError::ChunkDataCorrupt))
                    } else if c.chunk_x != cx || c.chunk_y != cy {
                        Err(ProgramFailure::Custom(RPlaceError::InvalidChunkSeeds))
                    } else {
                        match parse_diff_buffer(a[0].data) {
                            Err(e) => Err(ProgramFailure::BorshIo(e)),
                            Ok(m) => if !m.is_initialized {
                                Err(ProgramFailure::Custom(RPlaceError::DiffBufferCorrupt))
                            } else if m.diffs.len() == 0 {
                                Err(ProgramFailure::Custom(RPlaceError::NoDiffsToMerge))
                            } else {
                                let r = merge_run(m.diffs, c.pixels, cx, cy, max);
                                match write_spec(
                                    a,
                                    1,
                                    chunk_state_bytes(ChunkStateModel { pixels: r.pixels, ..c }),
                                ) {
                                    Err(e) => Err(e),
                                    Ok(a2) => match write_spec(
                                        a2,
                                        0,
                                        diff_buffer_bytes(
                                            DiffBufferModel { is_initialized: true, diffs: r.kept },
                                        ),
                                    ) {
                                        Err(e) => Err(e),
                                        Ok(a3) => Ok(a3),
                                    },
                                }
                            },
                        }
                    },
                }
            },
        }
    }
}

// ------------------------------------------------------------------
// InitAggregatorVault and AggregatorWithdrawFees
// ------------------------------------------------------------------

/// `InitAggregatorVault`. Accounts: vault. A vault that reads as set up is refused;
/// any other is set up with `authority`.
pub open spec fn init_vault_spec(program_id: [u8; 32], a: Seq<AccountModel>, authority: [u8; 32]) -> Result<
    Seq<AccountModel>,
    ProgramFailure,
> {
    if a.len() < 1 {
        Err(ProgramFailure::NotEnoughAccountKeys)
    } else if a[0].owner != program_id {
        Err(ProgramFailure::Custom(RPlaceError::InvalidVaultOwner))
    } else if parse_vault(a[0].data) matches Ok(v) && v.is_initialized {
        Err(ProgramFailure::AccountAlreadyInitialized)
    } else {
        write_spec(a, 0, vault_bytes(AggregatorVaultData { is_initialized: true, authority }))
    }
}

/// The accounts after `amount` lamports moved from account `from` to account `to`.
pub open spec fn move_lamports(a: Seq<AccountModel>, from: int, to: int, amount: u64) -> Seq<AccountModel> {
    let debited = a.update(from, AccountModel { lamports: (a[from].lamports - amount) as u64, ..a[from] });
    debited.update(to, AccountModel { lamports: (debited[to].lamports + amount) as u64, ..debited[to] })
}

/// `AggregatorWithdrawFees`. Accounts: vault, pay account, authority, system program.
/// The program owns the vault, so it moves the lamports itself: the vault is debited
/// and the pay account credited.
pub open spec fn withdraw_spec(program_id: [u8; 32], a: Seq<AccountModel>, amount: u64) -> Result<
    Seq<AccountModel>,
    ProgramFailure,
> {
    if a.len() < 4 {
        Err(ProgramFailure::NotEnoughAccountKeys)
    } else if a[0].owner != program_id {
        Err(ProgramFailure::Custom(RPlaceError::InvalidVaultOwner))
    } else if !a[2].is_signer {
        Err(ProgramFailure::Custom(RPlaceError::UserMustSign))
    } else {
        match parse_vault(a[0].data) {
            Err(e) => Err(ProgramFailure::BorshIo(e)),
            Ok(v) => if !v.is_initialized {
                Err(ProgramFailure::UninitializedAccount)
            } else if a[2].key != v.authority {
                Err(ProgramFailure::MissingRequiredSignature)
            } else {
                match program_address(vault_seeds(), program_id@) {
                    None => Err(ProgramFailure::InvalidSeeds),
                    Some((pda, _bump)) => if pda != a[0].key@ {
                        Err(ProgramFailure::Custom(RPlaceError::InvalidVaultSeeds))
                    } else if a[0].lamports < amount {
                        Err(ProgramFailure::InsufficientFunds)
                    } else if a[1].lamports + amount > u64::MAX {
                        Err(ProgramFailure::ArithmeticOverflow)
                    } else {
                        Ok(move_lamports(a, 0, 1, amount))
                    },
                }
            },
        }
    }
}

/// An instruction up to its transfer: the accounts it leaves and how far it got.
pub open spec fn process_spec(program_id: [u8; 32], a: Seq<AccountModel>, data: Seq<u8>) -> Result<
    (Seq<AccountModel>, Progress),
    ProgramFailure,
> {
    match parse_instruction(data) {
        None => Err(ProgramFailure::InvalidInstructionData),
        Some(RPlaceInstruction::PlacePixel { x, y, color }) => place_pixel_spec(
            program_id,
            a,
            x,
            y,
            color,
        ),
        Some(RPlaceInstruction::AggregatorMerge { chunk_x, chunk_y, max_diffs }) => match aggregator_merge_spec(
            program_id,
            a,
            chunk_x,
            chunk_y,
            max_diffs,
        ) {
            Ok(a2) => Ok((a2, Progress::Done)),
            Err(e) => Err(e),
        },
        Some(RPlaceInstruction::InitAggregatorVault { authority }) => match init_vault_spec(
            program_id,
            a,
            authority,
        ) {
            Ok(a2) => Ok((a2, Progress::Done)),
            Err(e) => Err(e),
        },
        Some(RPlaceInstruction::AggregatorWithdrawFees { amount }) => match withdraw_spec(
            program_id,
            a,
            amount,
        ) {
            Ok(a2) => Ok((a2, Progress::Done)),
            Err(e) => Err(e),
        },
    }
}

/// An instruction after its transfer went through.
pub open spec fn resume_spec(a: Seq<AccountModel>, then: Continuation) -> Result<
    Seq<AccountModel>,
    ProgramFailure,
> {
    match then {
        Continuation::AppendDiff { diff_buffer, diff } => append_diff_spec(a, diff_buffer as int, diff),
    }
}

/// Every account's data fits in an account.
pub open spec fn accounts_fit(a: Seq<AccountModel>) -> bool {
    forall|i: int| 0 <= i < a.len() ==> #[trigger] a[i].data.len() <= MAX_ACCOUNT_DATA
}

// ------------------------------------------------------------------
// Laws of the merge
// ------------------------------------------------------------------

/// A merge loses and duplicates no diff: every diff is either merged or kept, at most
/// `max` are merged, and the chunk's pixel count is unchanged.
pub proof fn law_merge_conserves_diffs(diffs: Seq<PixelDiff>, pixels: Seq<u8>, cx: u16, cy: u16, max: u32)
    requires
        pixels.len() == CHUNK_PIXEL_COUNT,
    ensures
        merge_run(diffs, pixels, cx, cy, max).kept.len() + merge_run(diffs, pixels, cx, cy, max).merged
            == diffs.len(),
        merge_run(diffs, pixels, cx, cy, max).merged <= max,
        merge_run(diffs, pixels, cx, cy, max).pixels.len() == pixels.len(),
    decreases diffs.len(),
{
    if diffs.len() > 0 {
        law_merge_conserves_diffs(diffs.drop_last(), pixels, cx, cy, max);
    }
}

/// A merge keeps exactly the diffs it does not paint, in their order: those of other
/// chunks, and every diff after the `max`-th merged one.
pub proof fn law_merge_keeps_others(diffs: Seq<PixelDiff>, pixels: Seq<u8>, cx: u16, cy: u16, max: u32)
    requires
        forall|i: int| 0 <= i < diffs.len() ==> !in_chunk(#[trigger] diffs[i], cx, cy),
    ensures
        merge_run(diffs, pixels, cx, cy, max).kept == diffs,
        merge_run(diffs, pixels, cx, cy, max).pixels == pixels,
        merge_run(diffs, pixels, cx, cy, max).merged == 0,
    decreases diffs.len(),
{
    if diffs.len() > 0 {
        law_merge_keeps_others(diffs.drop_last(), pixels, cx, cy, max);
        assert(diffs.drop_last().push(diffs.last()) =~= diffs);
    }
}


/// While fewer than `max` diffs were merged, every diff of the chunk was merged: the
/// diffs a merge keeps all belong to other chunks.
pub proof fn law_merge_leaves_no_chunk_diff(
    diffs: Seq<PixelDiff>,
    pixels: Seq<u8>,
    cx: u16,
    cy: u16,
    max: u32,
)
    requires
        merge_run(diffs, pixels, cx, cy, max).merged < max,
    ensures
        forall|i: int|
            0 <= i < merge_run(diffs, pixels, cx, cy, max).kept.len() ==> !in_chunk(
                #[trigger] merge_run(diffs, pixels, cx, cy, max).kept[i],
                cx,
                cy,
            ),
    decreases diffs.len(),
{
    if diffs.len() > 0 {
        let prev = merge_run(diffs.drop_last(), pixels, cx, cy, max);
        assert(prev.merged <= merge_run(diffs, pixels, cx, cy, max).merged);
        law_merge_leaves_no_chunk_diff(diffs.drop_last(), pixels, cx, cy, max);
    }
}

/// A diff buffer account that reads as a buffer of `n` diffs holds at least their
/// encoding, so within an account's size `n` stays far below `u32::MAX`.
proof fn lemma_buffer_count_small(b: Seq<u8>)
    requires
        b.len() <= MAX_ACCOUNT_DATA,
        parse_diff_buffer(b) is Ok,
    ensures
        parse_diff_buffer(b)->Ok_0.diffs.len() < u32::MAX,
{
    let n = parse_diff_buffer(b)->Ok_0.diffs.len() as int;
    assert(n < u32::MAX) by (nonlinear_arith)
        requires
            5 + n * DIFF_LEN <= MAX_ACCOUNT_DATA,
            n >= 0,
    ;
}

/// The length of a buffer's encoding.
proof fn lemma_buffer_bytes_len(m: DiffBufferModel)
    ensures
        diff_buffer_bytes(m).len() == 5 + m.diffs.len() * DIFF_LEN,
{
    vstd::bytes::lemma_auto_spec_u32_to_from_le_bytes();
}

/// `PlacePixel` appends its diff: once the fee is paid, the diff buffer reads as its
/// earlier diffs (none, if it was not set up) followed by the new diff, whenever the
/// account has room for that encoding; only an account too small for it refuses, with
/// `WriteZero`. No other account changes.
pub proof fn law_append_diff_decodes(a: Seq<AccountModel>, buf: int, diff: PixelDiff)
    requires
        0 <= buf < a.len(),
        accounts_fit(a),
        parse_diff_buffer(a[buf].data) is Ok,
    ensures
        ({
            let m = parse_diff_buffer(a[buf].data)->Ok_0;
            let kept = if m.is_initialized {
                m.diffs
            } else {
                Seq::empty()
            };
            let appended = DiffBufferModel { is_initialized: true, diffs: kept.push(diff) };
            &&& diff_buffer_bytes(appended).len() <= a[buf].data.len() ==> (append_diff_spec(
                a,
                buf,
                diff,
            ) matches Ok(a2) && a2.len() == a.len() && parse_diff_buffer(a2[buf].data) == Ok::<
                DiffBufferModel,
                WireError,
            >(appended) && forall|i: int| 0 <= i < a.len() && i != buf ==> a2[i] == a[i])
            &&& diff_buffer_bytes(appended).len() > a[buf].data.len() ==> append_diff_spec(a, buf, diff)
                == Err::<Seq<AccountModel>, ProgramFailure>(ProgramFailure::BorshIo(WireError::WriteZero))
        }),
{
    assert(a[buf].data.len() <= MAX_ACCOUNT_DATA);
    lemma_buffer_count_small(a[buf].data);
    let m = parse_diff_buffer(a[buf].data)->Ok_0;
    let kept = if m.is_initialized {
        m.diffs
    } else {
        Seq::empty()
    };
    let appended = DiffBufferModel { is_initialized: true, diffs: kept.push(diff) };
    if diff_buffer_bytes(appended).len() <= a[buf].data.len() {
        super::wire::law_diff_buffer_overwrite(a[buf].data, appended);
    }
}

/// A merge that succeeds leaves both accounts readable: the chunk reads as its pixels with
/// the merged diffs painted in, and the diff buffer as the diffs the merge kept.
pub proof fn law_merge_decodes(program_id: [u8; 32], a: Seq<AccountModel>, cx: u16, cy: u16, max: u32)
    requires
        accounts_fit(a),
        aggregator_merge_spec(program_id, a, cx, cy, max) is Ok,
    ensures
        ({
            let c = parse_chunk_state(a[1].data)->Ok_0;
            let d = parse_diff_buffer(a[0].data)->Ok_0;
            let r = merge_run(d.diffs, c.pixels, cx, cy, max);
            let m = aggregator_merge_spec(program_id, a, cx, cy, max)->Ok_0;
            &&& parse_chunk_state(m[1].data) == Ok::<ChunkStateModel, WireError>(
                ChunkStateModel { pixels: r.pixels, ..c },
            )
            &&& parse_diff_buffer(m[0].data) == Ok::<DiffBufferModel, WireError>(
                DiffBufferModel { is_initialized: true, diffs: r.kept },
            )
        }),
{
    let c = parse_chunk_state(a[1].data)->Ok_0;
    let d = parse_diff_buffer(a[0].data)->Ok_0;
    let r = merge_run(d.diffs, c.pixels, cx, cy, max);
    assert(a[0].data.len() <= MAX_ACCOUNT_DATA);
    lemma_buffer_count_small(a[0].data);
    law_merge_conserves_diffs(d.diffs, c.pixels, cx, cy, max);
    let nc = ChunkStateModel { pixels: r.pixels, ..c };
    super::wire::law_chunk_state_canonical(a[1].data);
    super::wire::law_chunk_state_roundtrip(nc);
    let cb = chunk_state_bytes(nc);
    vstd::bytes::lemma_auto_spec_u16_to_from_le_bytes();
    vstd::bytes::lemma_auto_spec_u32_to_from_le_bytes();
    assert(cb.len() == a[1].data.len());
    assert(overwrite(a[1].data, cb) =~= cb);
    let nd = DiffBufferModel { is_initialized: true, diffs: r.kept };
    lemma_buffer_bytes_len(nd);
    lemma_buffer_bytes_len(d);
    assert(r.kept.len() * DIFF_LEN <= d.diffs.len() * DIFF_LEN) by (nonlinear_arith)
        requires
            r.kept.len() <= d.diffs.len(),
    ;
    super::wire::law_diff_buffer_overwrite(a[0].data, nd);
}

/// What `PlacePixel` checks and does. It succeeds only for a pixel on the board, with
/// the diff buffer, user and vault accounts owned by the program, a signing payer, the
/// clock sysvar and a user out of cooldown; then it records the placement time, asks for
/// the pixel fee from the payer to the vault, and has the diff, signed by the payer,
/// appended after the fee is paid. A pixel off the board, once the accounts pass their
/// checks, is refused with `OutOfRange` and nothing else happens.
pub proof fn law_place_pixel_checks(program_id: [u8; 32], a: Seq<AccountModel>, x: u16, y: u16, color: u8)
    ensures
        ({
            let r = process_spec(program_id, a, instruction_bytes(RPlaceInstruction::PlacePixel { x, y, color }));
            &&& r is Ok ==> {
                &&& a.len() >= 6
                &&& a[0].owner == program_id && a[1].owner == program_id && a[2].owner == program_id
                &&& a[3].is_signer
                &&& x < BOARD_WIDTH && y < BOARD_HEIGHT
                &&& a[5].key@ == clock_id_bytes()
                &&& clock_timestamp(a[5].data) matches Some(now) && parse_user_state(a[1].data) matches Ok(u)
                    && !(u.is_initialized && now < u.last_place_time.wrapping_add(COOLDOWN_SECONDS))
                    && r->Ok_0.0 == with_data(a, 1, overwrite(
                    a[1].data,
                    user_state_bytes(UserState { is_initialized: true, last_place_time: now }),
                ))
                &&& r->Ok_0.1 == (Progress::Transfer {
                    transfer: TransferRequest { from: 3, to: 2, system: 4, amount: PIXEL_FEE_LAMPORTS },
                    then: Continuation::AppendDiff {
                        diff_buffer: 0,
                        diff: PixelDiff { x, y, color, user: a[3].key },
                    },
                })
            }
            &&& (a.len() >= 6 && a[0].owner == program_id && a[1].owner == program_id && a[2].owner
                == program_id && a[3].is_signer && (x >= BOARD_WIDTH || y >= BOARD_HEIGHT)) ==> r == Err::<
                (Seq<AccountModel>, Progress),
                ProgramFailure,
            >(ProgramFailure::Custom(RPlaceError::OutOfRange))
        }),
{
    super::wire::law_instruction_roundtrip(RPlaceInstruction::PlacePixel { x, y, color });
}

/// One pixel per user per cooldown: after a user placed a pixel at time `now`, a later
/// `PlacePixel` from that user, checked against a clock reading `t`, is refused with
/// `CooldownActive` exactly when `t < now + COOLDOWN_SECONDS`; from then on it passes and
/// records `t` as the user's last placement. Stated over what `process_instruction`
/// does with the encoded instructions.
pub proof fn law_place_pixel_cooldown(
    program_id: [u8; 32],
    a: Seq<AccountModel>,
    x: u16,
    y: u16,
    color: u8,
    later_clock: Seq<u8>,
    x2: u16,
    y2: u16,
    color2: u8,
)
    requires
        process_spec(program_id, a, instruction_bytes(RPlaceInstruction::PlacePixel { x, y, color })) is Ok,
        x2 < BOARD_WIDTH,
        y2 < BOARD_HEIGHT,
        clock_timestamp(later_clock) is Some,
        clock_timestamp(a[5].data) matches Some(now) && now + COOLDOWN_SECONDS <= i64::MAX,
    ensures
        ({
            let now = clock_timestamp(a[5].data)->0;
            let t = clock_timestamp(later_clock)->0;
            let first = process_spec(program_id, a, instruction_bytes(RPlaceInstruction::PlacePixel { x, y, color }));
            let b = with_data(first->Ok_0.0, 5, later_clock);
            let r = process_spec(
                program_id,
                b,
                instruction_bytes(RPlaceInstruction::PlacePixel { x: x2, y: y2, color: color2 }),
            );
            &&& (r == Err::<(Seq<AccountModel>, Progress), ProgramFailure>(
                ProgramFailure::Custom(RPlaceError::CooldownActive),
            )) <==> t < now + COOLDOWN_SECONDS
            &&& t >= now + COOLDOWN_SECONDS ==> (r matches Ok((m, _)) && m[1].data == user_state_bytes(
                UserState { is_initialized: true, last_place_time: t },
            ))
        }),
{
    super::wire::law_instruction_roundtrip(RPlaceInstruction::PlacePixel { x, y, color });
    super::wire::law_instruction_roundtrip(RPlaceInstruction::PlacePixel { x: x2, y: y2, color: color2 });
    lemma_place_pixel_cooldown(program_id, a, x, y, color, later_clock, x2, y2, color2);
}

/// A merge through `process_instruction` drains the chunk: with `d` of the chunk's diffs
/// in the buffer, the buffer afterwards reads as `min(max, d)` fewer diffs, all of them
/// the chunk's, and the chunk account stays readable; repeating the instruction merges
/// the rest, `max` at a time.
pub proof fn law_merge_instruction_drains(program_id: [u8; 32], a: Seq<AccountModel>, cx: u16, cy: u16, max: u32)
    requires
        accounts_fit(a),
        process_spec(
            program_id,
            a,
            instruction_bytes(RPlaceInstruction::AggregatorMerge { chunk_x: cx, chunk_y: cy, max_diffs: max }),
        ) is Ok,
    ensures
        ({
            let before = parse_diff_buffer(a[0].data)->Ok_0.diffs;
            let m = process_spec(
                program_id,
                a,
                instruction_bytes(RPlaceInstruction::AggregatorMerge { chunk_x: cx, chunk_y: cy, max_diffs: max }),
            )->Ok_0.0;
            let d = chunk_count(before, cx, cy);
            let merged = if d < max {
                d
            } else {
                max as nat
            };
            &&& parse_diff_buffer(m[0].data) is Ok
            &&& parse_diff_buffer(m[0].data)->Ok_0.diffs.len() + merged == before.len()
            &&& chunk_count(parse_diff_buffer(m[0].data)->Ok_0.diffs, cx, cy) + merged == d
            &&& parse_chunk_state(m[1].data) is Ok
        }),
{
    let ix = RPlaceInstruction::AggregatorMerge { chunk_x: cx, chunk_y: cy, max_diffs: max };
    super::wire::law_instruction_roundtrip(ix);
    assert(aggregator_merge_spec(program_id, a, cx, cy, max) is Ok);
    law_merge_decodes(program_id, a, cx, cy, max);
    let c = parse_chunk_state(a[1].data)->Ok_0;
    let before = parse_diff_buffer(a[0].data)->Ok_0.diffs;
    law_merge_conserves_diffs(before, c.pixels, cx, cy, max);
    law_merge_drains_chunk(before, c.pixels, cx, cy, max);
}

/// The cooldown, stated over the `PlacePixel` step itself.
proof fn lemma_place_pixel_cooldown(
    program_id: [u8; 32],
    a: Seq<AccountModel>,
    x: u16,
    y: u16,
    color: u8,
    later_clock: Seq<u8>,
    x2: u16,
    y2: u16,
    color2: u8,
)
    requires
        place_pixel_spec(program_id, a, x, y, color) is Ok,
        x2 < BOARD_WIDTH,
        y2 < BOARD_HEIGHT,
        clock_timestamp(later_clock) is Some,
        clock_timestamp(a[5].data) matches Some(now) && now + COOLDOWN_SECONDS <= i64::MAX,
    ensures
        ({
            let now = clock_timestamp(a[5].data)->0;
            let t = clock_timestamp(later_clock)->0;
            let b = with_data(place_pixel_spec(program_id, a, x, y, color)->Ok_0.0, 5, later_clock);
            let r = place_pixel_spec(program_id, b, x2, y2, color2);
            &&& (r == Err::<(Seq<AccountModel>, Progress), ProgramFailure>(
                ProgramFailure::Custom(RPlaceError::CooldownActive),
            )) <==> t < now + COOLDOWN_SECONDS
            &&& t >= now + COOLDOWN_SECONDS ==> (r matches Ok((m, _)) && m[1].data == user_state_bytes(
                UserState { is_initialized: true, last_place_time: t },
            ))
        }),
{
    let now = clock_timestamp(a[5].data)->0;
    let t = clock_timestamp(later_clock)->0;
    let written = UserState { is_initialized: true, last_place_time: now };
    super::wire::law_user_state_roundtrip(written);
    let a2 = place_pixel_spec(program_id, a, x, y, color)->Ok_0.0;
    let b = with_data(a2, 5, later_clock);
    assert(b[1].data == user_state_bytes(written));
    assert(now.wrapping_add(COOLDOWN_SECONDS) == now + COOLDOWN_SECONDS);
    let next = user_state_bytes(UserState { is_initialized: true, last_place_time: t });
    vstd::bytes::lemma_auto_spec_u64_to_from_le_bytes();
    assert(next.len() == 9);
    assert(b[1].data.len() == 9);
    assert(overwrite(b[1].data, next) =~= next);
}

/// Once the vault is set up with an authority, that authority, signing, withdraws from
/// the vault at the vault's address: the vault is debited and the pay account credited
/// with `amount`, provided the vault account is exactly the size of its data and the
/// balances allow it.
pub proof fn law_init_then_withdraw(
    program_id: [u8; 32],
    a: Seq<AccountModel>,
    authority: [u8; 32],
    rest: Seq<AccountModel>,
    amount: u64,
)
    requires
        init_vault_spec(program_id, a, authority) is Ok,
        a[0].data.len() == 33,
        program_address(vault_seeds(), program_id@) matches Some((pda, _bump)) && pda == a[0].key@,
        rest.len() >= 3,
        rest[1].key == authority,
        rest[1].is_signer,
        a[0].lamports >= amount,
        rest[0].lamports + amount <= u64::MAX,
    ensures
        withdraw_spec(program_id, seq![init_vault_spec(program_id, a, authority)->Ok_0[0]] + rest, amount)
            == Ok::<Seq<AccountModel>, ProgramFailure>(
            move_lamports(seq![init_vault_spec(program_id, a, authority)->Ok_0[0]] + rest, 0, 1, amount),
        ),
{
    let v = AggregatorVaultData { is_initialized: true, authority };
    super::wire::law_vault_roundtrip(v);
    let b = seq![init_vault_spec(program_id, a, authority)->Ok_0[0]] + rest;
    assert(b[0].data =~= vault_bytes(v));
    assert(b[2] == rest[1]);
    assert(b[1] == rest[0]);
}

/// The vault is set up once: setting up a vault that reads as set up is refused.
pub proof fn law_vault_set_up_once(program_id: [u8; 32], a: Seq<AccountModel>, authority: [u8; 32])
    requires
        a.len() >= 1,
        a[0].owner == program_id,
        parse_vault(a[0].data) matches Ok(v) && v.is_initialized,
    ensures
        init_vault_spec(program_id, a, authority) == Err::<Seq<AccountModel>, ProgramFailure>(
            ProgramFailure::AccountAlreadyInitialized,
        ),
{
}

/// A withdrawal moves lamports and creates none: the vault and the pay account hold
/// together what they held before, and every other account is unchanged.
pub proof fn law_withdraw_conserves_lamports(program_id: [u8; 32], a: Seq<AccountModel>, amount: u64)
    requires
        withdraw_spec(program_id, a, amount) is Ok,
    ensures
        ({
            let m = withdraw_spec(program_id, a, amount)->Ok_0;
            &&& m.len() == a.len()
            &&& m[0].lamports + m[1].lamports == a[0].lamports + a[1].lamports
            &&& m[0].lamports == a[0].lamports - amount
            &&& m[0].data == a[0].data && m[1].data == a[1].data
            &&& forall|i: int| 2 <= i < a.len() ==> m[i] == a[i]
        }),
{
}

/// Whether diff `i` of `diffs` is merged by a merge of chunk `(cx, cy)` limited to `max`
/// diffs: it lies in the chunk and fewer than `max` diffs of the chunk come before it.
pub open spec fn merged_at(diffs: Seq<PixelDiff>, i: int, cx: u16, cy: u16, max: u32) -> bool {
    in_chunk(diffs[i], cx, cy) && chunk_count(diffs.take(i), cx, cy) < max
}

/// What a merge paints: every merged diff's colour, whatever it is, shows at its place in
/// the chunk unless a later merged diff lands on the same place; every place that no
/// merged diff lands on keeps its colour.
pub proof fn law_merge_paints(diffs: Seq<PixelDiff>, pixels: Seq<u8>, cx: u16, cy: u16, max: u32)
    requires
        pixels.len() == CHUNK_PIXEL_COUNT,
    ensures
        merge_run(diffs, pixels, cx, cy, max).pixels.len() == pixels.len(),
        forall|i: int|
            0 <= i < diffs.len() && #[trigger] merged_at(diffs, i, cx, cy, max) && (forall|j: int|
                i < j < diffs.len() && #[trigger] merged_at(diffs, j, cx, cy, max) ==> chunk_offset(diffs[j])
                    != chunk_offset(diffs[i])) ==> merge_run(diffs, pixels, cx, cy, max).pixels[chunk_offset(
                diffs[i],
            )] == diffs[i].color,
        forall|p: int|
            0 <= p < pixels.len() && (forall|i: int|
                0 <= i < diffs.len() && #[trigger] merged_at(diffs, i, cx, cy, max) ==> chunk_offset(diffs[i])
                    != p) ==> #[trigger] merge_run(diffs, pixels, cx, cy, max).pixels[p] == pixels[p],
    decreases diffs.len(),
{
    if diffs.len() > 0 {
        let n = diffs.len() - 1;
        let prefix = diffs.drop_last();
        let d = diffs.last();
        law_merge_paints(prefix, pixels, cx, cy, max);
        law_merge_drains_chunk(prefix, pixels, cx, cy, max);
        law_merge_conserves_diffs(prefix, pixels, cx, cy, max);
        let prev = merge_run(prefix, pixels, cx, cy, max);
        let cur = merge_run(diffs, pixels, cx, cy, max);
        assert(diffs.take(n) =~= prefix);
        assert forall|i: int| 0 <= i < n implies merged_at(diffs, i, cx, cy, max) == merged_at(
            prefix,
            i,
            cx,
            cy,
            max,
        ) by {
            assert(diffs.take(i) =~= prefix.take(i));
            assert(diffs[i] == prefix[i]);
        }
        let last_merged = merged_at(diffs, n, cx, cy, max);
        assert(last_merged == (in_chunk(d, cx, cy) && prev.merged < max));
        assert(0 <= chunk_offset(d) < CHUNK_PIXEL_COUNT) by (nonlinear_arith)
            requires
                chunk_offset(d) == (d.y % CHUNK_SIZE) * CHUNK_SIZE + (d.x % CHUNK_SIZE),
        ;
        if last_merged {
            assert(cur.pixels == prev.pixels.update(chunk_offset(d), d.color));
        } else {
            assert(cur.pixels == prev.pixels);
        }
        assert forall|i: int|
            0 <= i < diffs.len() && #[trigger] merged_at(diffs, i, cx, cy, max) && (forall|j: int|
                i < j < diffs.len() && #[trigger] merged_at(diffs, j, cx, cy, max) ==> chunk_offset(diffs[j])
                    != chunk_offset(diffs[i])) implies cur.pixels[chunk_offset(diffs[i])] == diffs[i].color by {
            if i == n {
            } else {
                assert(merged_at(prefix, i, cx, cy, max));
                assert forall|j: int|
                    i < j < prefix.len() && #[trigger] merged_at(prefix, j, cx, cy, max) implies chunk_offset(
                    prefix[j],
                ) != chunk_offset(prefix[i]) by {
                    assert(merged_at(diffs, j, cx, cy, max));
                    assert(prefix[j] == diffs[j]);
                }
                if last_merged {
                    assert(merged_at(diffs, n, cx, cy, max));
                    assert(chunk_offset(diffs[n]) != chunk_offset(diffs[i]));
                }
            }
        }
        assert forall|p: int|
            0 <= p < pixels.len() && (forall|i: int|
                0 <= i < diffs.len() && #[trigger] merged_at(diffs, i, cx, cy, max) ==> chunk_offset(diffs[i])
                    != p) implies #[trigger] cur.pixels[p] == pixels[p] by {
            assert forall|i: int| 0 <= i < prefix.len() && #[trigger] merged_at(prefix, i, cx, cy, max) implies chunk_offset(
                prefix[i],
            ) != p by {
                assert(merged_at(diffs, i, cx, cy, max));
                assert(prefix[i] == diffs[i]);
            }
            assert(prev.pixels[p] == pixels[p]);
            if last_merged {
                assert(merged_at(diffs, n, cx, cy, max));
            }
        }
    }
}

/// Repeated merges drain a chunk: a merge paints `min(max, d)` of the chunk's `d` diffs
/// and keeps the rest of them, so each call leaves `min(max, d)` fewer.
pub proof fn law_merge_drains_chunk(diffs: Seq<PixelDiff>, pixels: Seq<u8>, cx: u16, cy: u16, max: u32)
    ensures
        merge_run(diffs, pixels, cx, cy, max).merged == if chunk_count(diffs, cx, cy) < max {
            chunk_count(diffs, cx, cy)
        } else {
            max as nat
        },
        chunk_count(merge_run(diffs, pixels, cx, cy, max).kept, cx, cy) + merge_run(
            diffs,
            pixels,
            cx,
            cy,
            max,
        ).merged == chunk_count(diffs, cx, cy),
    decreases diffs.len(),
{
    if diffs.len() > 0 {
        law_merge_drains_chunk(diffs.drop_last(), pixels, cx, cy, max);
        let prev = merge_run(diffs.drop_last(), pixels, cx, cy, max);
        lemma_chunk_count_push(prev.kept, diffs.last(), cx, cy);
    }
}

// ------------------------------------------------------------------
// Account helpers
// ------------------------------------------------------------------

/// Replaces account `i`'s data.
fn set_data(accounts: &mut Vec<AccountState>, i: usize, data: Vec<u8>)
    requires
        i < old(accounts)@.len(),
    ensures
        final(accounts)@.len() == old(accounts)@.len(),
        accounts_model(final(accounts)@) == with_data(accounts_model(old(accounts)@), i as int, data@),
{
    let key = accounts[i].key;
    let owner = accounts[i].owner;
    let is_signer = accounts[i].is_signer;
    let lamports = accounts[i].lamports;
    accounts.set(i, AccountState { key, owner, is_signer, lamports, data });
    assert(accounts_model(accounts@) =~= with_data(accounts_model(old(accounts)@), i as int, data@));
}

/// Sets account `i`'s lamports.
fn set_lamports(accounts: &mut Vec<AccountState>, i: usize, lamports: u64)
    requires
        i < old(accounts)@.len(),
    ensures
        final(accounts)@.len() == old(accounts)@.len(),
        accounts_model(final(accounts)@) == accounts_model(old(accounts)@).update(
            i as int,
            AccountModel { lamports, ..accounts_model(old(accounts)@)[i as int] },
        ),
{
    let key = accounts[i].key;
    let owner = accounts[i].owner;
    let is_signer = accounts[i].is_signer;
    let data = accounts[i].data.clone();
    accounts.set(i, AccountState { key, owner, is_signer, lamports, data });
    assert(accounts_model(accounts@) =~= accounts_model(old(accounts)@).update(
        i as int,
        AccountModel { lamports, ..accounts_model(old(accounts)@)[i as int] },
    ));
}

/// Writes `bytes` at the start of account `i`'s data.
fn write_account(accounts: &mut Vec<AccountState>, i: usize, bytes: &[u8]) -> (r: Result<
    (),
    ProgramFailure,
>)
    requires
        i < old(accounts)@.len(),
    ensures
        final(accounts)@.len() == old(accounts)@.len(),
        match write_spec(accounts_model(old(accounts)@), i as int, bytes@) {
            Ok(m) => r is Ok && accounts_model(final(accounts)@) == m,
            Err(e) => r == Err::<(), ProgramFailure>(e) && final(accounts)@ == old(accounts)@,
        },
{
    match write_account_data(accounts[i].data.as_slice(), bytes) {
        Ok(d) => {
            set_data(accounts, i, d);
            Ok(())
        },
        Err(e) => Err(ProgramFailure::BorshIo(e)),
    }
}

/// Copies a seed into a vector.
fn seed_vec(seed: &[u8]) -> (v: Vec<u8>)
    ensures
        v@ == seed@,
{
    let mut v: Vec<u8> = Vec::new();
    let mut i: usize = 0;
    while i < seed.len()
        invariant
            i <= seed@.len(),
            v@ == seed@.subrange(0, i as int),
        decreases seed@.len() - i,
    {
        v.push(seed[i]);
        i = i + 1;
    }
    assert(v@ =~= seed@);
    v
}

/// The seeds of a list of seeds, as mathematical values.
proof fn lemma_seeds_view(seeds: Vec<Vec<u8>>, expected: Seq<Seq<u8>>)
    requires
        seeds@.len() == expected.len(),
        forall|i: int| 0 <= i < expected.len() ==> #[trigger] seeds@[i]@ == expected[i],
    ensures
        seeds.deep_view() == expected,
{
    assert forall|i: int| 0 <= i < expected.len() implies #[trigger] seeds.deep_view()[i] == expected[i] by {
        assert(seeds@[i].deep_view() =~= seeds@[i]@);
    }
    assert(seeds.deep_view() =~= expected);
}

// ------------------------------------------------------------------
// Instructions
// ------------------------------------------------------------------

fn place_pixel(program_id: &[u8; 32], accounts: &mut Vec<AccountState>, x: u16, y: u16, color: u8) -> (r: Result<
    Progress,
    ProgramFailure,
>)
    ensures
        match place_pixel_spec(*program_id, accounts_model(old(accounts)@), x, y, color) {
            Ok((m, p)) => r == Ok::<Progress, ProgramFailure>(p) && accounts_model(final(accounts)@) == m,
            Err(e) => r == Err::<Progress, ProgramFailure>(e) && final(accounts)@ == old(accounts)@,
        },
{
    if accounts.len() < 6 {
        return Err(ProgramFailure::NotEnoughAccountKeys);
    }
    if !same_key(&accounts[0].owner, program_id) {
        return Err(ProgramFailure::Custom(RPlaceError::InvalidDiffBufferOwner));
    }
    if !same_key(&accounts[1].owner, program_id) {
        return Err(ProgramFailure::Custom(RPlaceError::InvalidUserOwner));
    }
    if !same_key(&accounts[2].owner, program_id) {
        return Err(ProgramFailure::Custom(RPlaceError::InvalidVaultOwner));
    }
    if !accounts[3].is_signer {
        return Err(ProgramFailure::Custom(RPlaceError::UserMustSign));
    }
    if x >= BOARD_WIDTH || y >= BOARD_HEIGHT {
        return Err(ProgramFailure::Custom(RPlaceError::OutOfRange));
    }
    let clock_id = clock_sysvar_id();
    if !same_key(&accounts[5].key, &clock_id) {
        proof {
            if accounts[5].key@ == clock_id@ {
                assert(accounts[5].key =~= clock_id);
            }
        }
        return Err(ProgramFailure::InvalidAccountData);
    }
    let now = match clock_unix_timestamp(accounts[5].data.as_slice()) {
        Some(t) => t,
        None => {
            return Err(ProgramFailure::InvalidArgument);
        },
    };
    let user = match decode_user_state(accounts[1].data.as_slice()) {
        Ok(u) => u,
        Err(e) => {
            return Err(ProgramFailure::BorshIo(e));
        },
    };
    if user.is_initialized && now < user.last_place_time.wrapping_add(COOLDOWN_SECONDS) {
        return Err(ProgramFailure::Custom(RPlaceError::CooldownActive));
    }
    let updated = UserState { is_initialized: true, last_place_time: now };
    let bytes = encode_user_state(&updated);
    let payer = accounts[3].key;
    write_account(accounts, 1, bytes.as_slice())?;
    Ok(
        Progress::Transfer {
            transfer: TransferRequest {
                from: 3,
                to: 2,
                system: 4,
                amount: PIXEL_FEE_LAMPORTS,
            },
            then: Continuation::AppendDiff {
                diff_buffer: 0,
                diff: PixelDiff { x, y, color, user: payer },
            },
        },
    )
}

/// The bytes of a chunk's address seeds.
fn chunk_seed_list(cx: u16, cy: u16) -> (seeds: Vec<Vec<u8>>)
    ensures
        seeds.deep_view() == chunk_seeds(cx, cy),
{
    let mut seeds: Vec<Vec<u8>> = Vec::new();
    seeds.push(seed_vec(CHUNK_SEED_PREFIX.as_slice()));
    seeds.push(u16_to_le_bytes(cx));
    seeds.push(u16_to_le_bytes(cy));
    proof {
        lemma_seeds_view(seeds, chunk_seeds(cx, cy));
    }
    seeds
}

/// The bytes of the vault's address seeds.
fn vault_seed_list() -> (seeds: Vec<Vec<u8>>)
    ensures
        seeds.deep_view() == vault_seeds(),
{
    let mut seeds: Vec<Vec<u8>> = Vec::new();
    seeds.push(seed_vec(VAULT_SEED_PREFIX.as_slice()));
    proof {
        lemma_seeds_view(seeds, vault_seeds());
    }
    seeds
}

/// Paints the diffs of chunk `(cx, cy)` into `pixels`, up to `max` of them, and returns
/// the diffs kept and the number merged.
fn merge_diffs(diffs: &Vec<PixelDiff>, pixels: &mut Vec<u8>, cx: u16, cy: u16, max: u32) -> (r: (
    Vec<PixelDiff>,
    u32,
))
    requires
        old(pixels)@.len() == CHUNK_PIXEL_COUNT,
    ensures
        final(pixels)@ == merge_run(diffs@, old(pixels)@, cx, cy, max).pixels,
        r.0@ == merge_run(diffs@, old(pixels)@, cx, cy, max).kept,
        r.1 == merge_run(diffs@, old(pixels)@, cx, cy, max).merged,
{
    let ghost start = pixels@;
    let mut kept: Vec<PixelDiff> = Vec::new();
    let mut merged: u32 = 0;
    let mut i: usize = 0;
    while i < diffs.len()
        invariant
            i <= diffs@.len(),
            pixels@.len() == CHUNK_PIXEL_COUNT,
            start.len() == CHUNK_PIXEL_COUNT,
            pixels@ == merge_run(diffs@.subrange(0, i as int), start, cx, cy, max).pixels,
            kept@ == merge_run(diffs@.subrange(0, i as int), start, cx, cy, max).kept,
            merged == merge_run(diffs@.subrange(0, i as int), start, cx, cy, max).merged,
        decreases diffs@.len() - i,
    {
        let d = diffs[i];
        proof {
            assert(diffs@.subrange(0, i + 1).drop_last() =~= diffs@.subrange(0, i as int));
            assert(diffs@.subrange(0, i + 1).last() == d);
            law_merge_conserves_diffs(diffs@.subrange(0, i as int), start, cx, cy, max);
        }
        if merged >= max {
            kept.push(d);
        } else if d.x / CHUNK_SIZE == cx && d.y / CHUNK_SIZE == cy {
            let idx = ((d.y % CHUNK_SIZE) as usize) * (CHUNK_SIZE as usize) + ((d.x % CHUNK_SIZE) as usize);
            pixels.set(idx, d.color);
            merged = merged + 1;
        } else {
            kept.push(d);
        }
        i = i + 1;
    }
    assert(diffs@.subrange(0, diffs@.len() as int) =~= diffs@);
    (kept, merged)
}

fn aggregator_merge(
    program_id: &[u8; 32],
    accounts: &mut Vec<AccountState>,
    cx: u16,
    cy: u16,
    max: u32,
) -> (r: Result<(), ProgramFailure>)
    requires
        accounts_fit(accounts_model(old(accounts)@)),
    ensures
        match aggregator_merge_spec(*program_id, accounts_model(old(accounts)@), cx, cy, max) {
            Ok(m) => r is Ok && accounts_model(final(accounts)@) == m,
            Err(e) => r == Err::<(), ProgramFailure>(e) && final(accounts)@ == old(accounts)@,
        },
{
    let ghost a = accounts_model(accounts@);
    if accounts.len() < 2 {
        return Err(ProgramFailure::NotEnoughAccountKeys);
    }
    if !same_key(&accounts[0].owner, program_id) {
        return Err(ProgramFailure::Custom(RPlaceError::InvalidDiffBufferOwner));
    }
    if !same_key(&accounts[1].owner, program_id) {
        return Err(ProgramFailure::IncorrectProgramId);
    }
    let seeds = chunk_seed_list(cx, cy);
    let pda = match find_program_address(&seeds, program_id) {
        Some((key, _bump)) => key,
        None => {
            return Err(ProgramFailure::InvalidSeeds);
        },
    };
    if !same_key(&pda, &accounts[1].key) {
        proof {
            if pda@ == accounts[1].key@ {
                assert(pda =~= accounts[1].key);
            }
        }
        return Err(ProgramFailure::Custom(RPlaceError::InvalidChunkSeeds));
    }
    let chunk = match decode_chunk_state(accounts[1].data.as_slice()) {
        Ok(c) => c,
        Err(e) => {
            return Err(ProgramFailure::BorshIo(e));
        },
    };
    if chunk.pixels.len() != CHUNK_PIXEL_COUNT {
        return Err(ProgramFailure::Custom(RPlaceError::ChunkDataCorrupt));
    }
    if chunk.chunk_x != cx || chunk.chunk_y != cy {
        return Err(ProgramFailure::Custom(RPlaceError::InvalidChunkSeeds));
    }
    let buffer = match decode_diff_buffer(accounts[0].data.as_slice()) {
        Ok(b) => b,
        Err(e) => {
            return Err(ProgramFailure::BorshIo(e));
        },
    };
    if !buffer.is_initialized {
        return Err(ProgramFailure::Custom(RPlaceError::DiffBufferCorrupt));
    }
    if buffer.diffs.len() == 0 {
        return Err(ProgramFailure::Custom(RPlaceError::NoDiffsToMerge));
    }
    let ghost c = chunk@;
    let mut pixels = chunk.pixels;
    let (kept, _merged) = merge_diffs(&buffer.diffs, &mut pixels, cx, cy, max);
    proof {
        law_merge_conserves_diffs(buffer.diffs@, c.pixels, cx, cy, max);
    }
    let new_chunk = ChunkState { chunk_x: cx, chunk_y: cy, pixels };
    let chunk_bytes = encode_chunk_state(&new_chunk);
    assert(new_chunk@ == ChunkStateModel { pixels: merge_run(buffer.diffs@, c.pixels, cx, cy, max).pixels, ..c });
    let new_buffer = DiffBuffer { is_initialized: true, diffs: kept };
    let buffer_bytes = encode_diff_buffer(&new_buffer);
    if chunk_bytes.len() > accounts[1].data.len() {
        return Err(ProgramFailure::BorshIo(WireError::WriteZero));
    }
    if buffer_bytes.len() > accounts[0].data.len() {
        return Err(ProgramFailure::BorshIo(WireError::WriteZero));
    }
    write_account(accounts, 1, chunk_bytes.as_slice())?;
    write_account(accounts, 0, buffer_bytes.as_slice())
}

fn init_aggregator_vault(program_id: &[u8; 32], accounts: &mut Vec<AccountState>, authority: [u8; 32]) -> (r: Result<
    (),
    ProgramFailure,
>)
    ensures
        match init_vault_spec(*program_id, accounts_model(old(accounts)@), authority) {
            Ok(m) => r is Ok && accounts_model(final(accounts)@) == m,
            Err(e) => r == Err::<(), ProgramFailure>(e) && final(accounts)@ == old(accounts)@,
        },
{
    if accounts.len() < 1 {
        return Err(ProgramFailure::NotEnoughAccountKeys);
    }
    if !same_key(&accounts[0].owner, program_id) {
        return Err(ProgramFailure::Custom(RPlaceError::InvalidVaultOwner));
    }
    match decode_vault(accounts[0].data.as_slice()) {
        Ok(existing) => if existing.is_initialized {
            return Err(ProgramFailure::AccountAlreadyInitialized);
        },
        Err(_) => {},
    }
    let vault = AggregatorVaultData { is_initialized: true, authority };
    let bytes = encode_vault(&vault);
    write_account(accounts, 0, bytes.as_slice())
}

fn aggregator_withdraw_fees(program_id: &[u8; 32], accounts: &mut Vec<AccountState>, amount: u64) -> (r: Result<
    (),
    ProgramFailure,
>)
    ensures
        match withdraw_spec(*program_id, accounts_model(old(accounts)@), amount) {
            Ok(m) => r is Ok && accounts_model(final(accounts)@) == m,
            Err(e) => r == Err::<(), ProgramFailure>(e) && final(accounts)@ == old(accounts)@,
        },
{
    if accounts.len() < 4 {
        return Err(ProgramFailure::NotEnoughAccountKeys);
    }
    if !same_key(&accounts[0].owner, program_id) {
        return Err(ProgramFailure::Custom(RPlaceError::InvalidVaultOwner));
    }
    if !accounts[2].is_signer {
        return Err(ProgramFailure::Custom(RPlaceError::UserMustSign));
    }
    let vault = match decode_vault(accounts[0].data.as_slice()) {
        Ok(v) => v,
        Err(e) => {
            return Err(ProgramFailure::BorshIo(e));
        },
    };
    if !vault.is_initialized {
        return Err(ProgramFailure::UninitializedAccount);
    }
    if !same_key(&accounts[2].key, &vault.authority) {
        return Err(ProgramFailure::MissingRequiredSignature);
    }
    let seeds = vault_seed_list();
    let pda = match find_program_address(&seeds, program_id) {
        Some((key, _bump)) => key,
        None => {
            return Err(ProgramFailure::InvalidSeeds);
        },
    };
    if !same_key(&pda, &accounts[0].key) {
        proof {
            if pda@ == accounts[0].key@ {
                assert(pda =~= accounts[0].key);
            }
        }
        return Err(ProgramFailure::Custom(RPlaceError::InvalidVaultSeeds));
    }
    if accounts[0].lamports < amount {
        return Err(ProgramFailure::InsufficientFunds);
    }
    if accounts[1].lamports > u64::MAX - amount {
        return Err(ProgramFailure::ArithmeticOverflow);
    }
    let vault_lamports = accounts[0].lamports - amount;
    set_lamports(accounts, 0, vault_lamports);
    let pay_lamports = accounts[1].lamports + amount;
    set_lamports(accounts, 1, pay_lamports);
    Ok(())
}

/// Runs an instruction up to its transfer, if it has one: checks the accounts, rewrites
/// their data and says how far it got. On failure the runtime discards the accounts.
pub fn process_instruction(program_id: &[u8; 32], accounts: &mut Vec<AccountState>, data: &[u8]) -> (r: Result<
    Progress,
    ProgramFailure,
>)
    requires
        accounts_fit(accounts_model(old(accounts)@)),
    ensures
        match process_spec(*program_id, accounts_model(old(accounts)@), data@) {
            Ok((m, p)) => r == Ok::<Progress, ProgramFailure>(p) && accounts_model(final(accounts)@) == m,
            Err(e) => r == Err::<Progress, ProgramFailure>(e) && final(accounts)@ == old(accounts)@,
        },
{
    match decode_instruction(data) {
        None => Err(ProgramFailure::InvalidInstructionData),
        Some(RPlaceInstruction::PlacePixel { x, y, color }) => place_pixel(program_id, accounts, x, y, color),
        Some(RPlaceInstruction::AggregatorMerge { chunk_x, chunk_y, max_diffs }) => {
            aggregator_merge(program_id, accounts, chunk_x, chunk_y, max_diffs)?;
            Ok(Progress::Done)
        },
        Some(RPlaceInstruction::InitAggregatorVault { authority }) => {
            init_aggregator_vault(program_id, accounts, authority)?;
            Ok(Progress::Done)
        },
        Some(RPlaceInstruction::AggregatorWithdrawFees { amount }) => {
            aggregator_withdraw_fees(program_id, accounts, amount)?;
            Ok(Progress::Done)
        },
    }
}

/// Appends `diff` to the diff buffer held by account `buf`.
fn append_diff(accounts: &mut Vec<AccountState>, buf: usize, diff: PixelDiff) -> (r: Result<
    (),
    ProgramFailure,
>)
    requires
        buf < old(accounts)@.len(),
        accounts_fit(accounts_model(old(accounts)@)),
    ensures
        match append_diff_spec(accounts_model(old(accounts)@), buf as int, diff) {
            Ok(m) => r is Ok && accounts_model(final(accounts)@) == m,
            Err(e) => r == Err::<(), ProgramFailure>(e) && final(accounts)@ == old(accounts)@,
        },
{
    let buffer = match decode_diff_buffer(accounts[buf].data.as_slice()) {
        Ok(b) => b,
        Err(e) => {
            return Err(ProgramFailure::BorshIo(e));
        },
    };
    proof {
        let n = buffer.diffs@.len();
        assert(accounts_model(accounts@)[buf as int].data.len() <= MAX_ACCOUNT_DATA);
        assert(n < u32::MAX) by (nonlinear_arith)
            requires
                5 + n * DIFF_LEN <= MAX_ACCOUNT_DATA,
        ;
    }
    let mut diffs = if buffer.is_initialized {
        buffer.diffs
    } else {
        Vec::new()
    };
    diffs.push(diff);
    let updated = DiffBuffer { is_initialized: true, diffs };
    let bytes = encode_diff_buffer(&updated);
    write_account(accounts, buf, bytes.as_slice())
}

/// Finishes an instruction once its transfer went through.
pub fn resume_instruction(accounts: &mut Vec<AccountState>, then: Continuation) -> (r: Result<
    (),
    ProgramFailure,
>)
    requires
        accounts_fit(accounts_model(old(accounts)@)),
        then matches Continuation::AppendDiff { diff_buffer, .. } ==> diff_buffer < old(accounts)@.len(),
    ensures
        match resume_spec(accounts_model(old(accounts)@), then) {
            Ok(m) => r is Ok && accounts_model(final(accounts)@) == m,
            Err(e) => r == Err::<(), ProgramFailure>(e) && final(accounts)@ == old(accounts)@,
        },
{
    match then {
        Continuation::AppendDiff { diff_buffer, diff } => append_diff(accounts, diff_buffer, diff),
    }
}

} // verus!
