//! The on-chain program that keeps the board: instructions, account layouts and errors.


pub mod processor;
pub mod solana;
pub mod wire;

use vstd::prelude::*;

verus! {

broadcast use vstd::array::group_array_axioms;

/// Width of the board, in pixels.
pub const BOARD_WIDTH: u16 = 4096;
/// Height of the board, in pixels.
pub const BOARD_HEIGHT: u16 = 4096;
/// Side length of the square chunk one chunk account holds.
pub const CHUNK_SIZE: u16 = 256;
/// Number of pixels one chunk account holds.
pub const CHUNK_PIXEL_COUNT: usize = 65536;
/// Seconds a user waits between two pixels.
pub const COOLDOWN_SECONDS: i64 = 60;
/// Lamports a user pays the vault for one pixel.
pub const PIXEL_FEE_LAMPORTS: u64 = 1_000_000;
/// First seed of a chunk account's address: the bytes of `rplace_chunk`.
pub const CHUNK_SEED_PREFIX: [u8; 12] = [114, 112, 108, 97, 99, 101, 95, 99, 104, 117, 110, 107];
/// The seed of the vault account's address: the bytes of `aggregator_vault`.
pub const VAULT_SEED_PREFIX: [u8; 16] = [
    97,
    103,
    103,
    114,
    101,
    103,
    97,
    116,
    111,
    114,
    95,
    118,
    97,
    117,
    108,
    116,
];

/// The program's own error codes.
#[derive(Clone, Copy, Debug, PartialEq, Eq)]
pub enum RPlaceError {
    OutOfRange,
    CooldownActive,
    ChunkDataCorrupt,
    InvalidDiffBufferOwner,
    InvalidUserOwner,
    InvalidVaultOwner,
    InvalidChunkSeeds,
    InvalidVaultSeeds,
    UserMustSign,
    DiffBufferCorrupt,
    NoDiffsToMerge,
    PartialMerge,
}

impl RPlaceError {
    /// The number a runtime reports for this error: its position in the declaration.
    pub open spec fn spec_code(self) -> u32 {
        match self {
            RPlaceError::OutOfRange => 0,
            RPlaceError::CooldownActive => 1,
            RPlaceError::ChunkDataCorrupt => 2,
            RPlaceError::InvalidDiffBufferOwner => 3,
            RPlaceError::InvalidUserOwner => 4,
            RPlaceError::InvalidVaultOwner => 5,
            RPlaceError::InvalidChunkSeeds => 6,
            RPlaceError::InvalidVaultSeeds => 7,
            RPlaceError::UserMustSign => 8,
            RPlaceError::DiffBufferCorrupt => 9,
            RPlaceError::NoDiffsToMerge => 10,
            RPlaceError::PartialMerge => 11,
        }
    }

    /// The custom error number this error is reported under.
    pub fn code(&self) -> (c: u32)
        ensures
            c == self.spec_code(),
    {
        match self {
            RPlaceError::OutOfRange => 0,
            RPlaceError::CooldownActive => 1,
            RPlaceError::ChunkDataCorrupt => 2,
            RPlaceError::InvalidDiffBufferOwner => 3,
            RPlaceError::InvalidUserOwner => 4,
            RPlaceError::InvalidVaultOwner => 5,
            RPlaceError::InvalidChunkSeeds => 6,
            RPlaceError::InvalidVaultSeeds => 7,
            RPlaceError::UserMustSign => 8,
            RPlaceError::DiffBufferCorrupt => 9,
            RPlaceError::NoDiffsToMerge => 10,
            RPlaceError::PartialMerge => 11,
        }
    }
}

/// Distinct program errors are reported under distinct numbers.
pub proof fn law_error_codes_distinct(a: RPlaceError, b: RPlaceError)
    requires
        a != b,
    ensures
        a.spec_code() != b.spec_code(),
{
}

/// Why the account bytes could not be read or written.
#[derive(Clone, Copy, Debug, PartialEq, Eq)]
pub enum WireError {
    /// The bytes ended before the value did.
    UnexpectedLength,
    /// A boolean was encoded by a byte other than 0 or 1.
    InvalidBool(u8),
    /// An enumeration tag names no variant.
    InvalidVariant(u8),
    /// Bytes were left over after the value.
    NotAllBytesRead,
    /// The account is too small to hold the encoded value.
    WriteZero,
}

/// Why an instruction failed.
#[derive(Clone, Copy, Debug, PartialEq, Eq)]
pub enum ProgramFailure {
    Custom(RPlaceError),
    InvalidArgument,
    InvalidInstructionData,
    InvalidAccountData,
    IncorrectProgramId,
    MissingRequiredSignature,
    UninitializedAccount,
    NotEnoughAccountKeys,
    InvalidSeeds,
    AccountAlreadyInitialized,
    InsufficientFunds,
    ArithmeticOverflow,
    BorshIo(WireError),
}

/// One chunk account: its chunk coordinates and its pixels' colour indices.
pub struct ChunkState {
    pub chunk_x: u16,
    pub chunk_y: u16,
    pub pixels: Vec<u8>,
}

/// A chunk account's contents as a mathematical value.
pub struct ChunkStateModel {
    pub chunk_x: u16,
    pub chunk_y: u16,
    pub pixels: Seq<u8>,
}

impl View for ChunkState {
    type V = ChunkStateModel;

    open spec fn view(&self) -> ChunkStateModel {
        ChunkStateModel { chunk_x: self.chunk_x, chunk_y: self.chunk_y, pixels: self.pixels@ }
    }
}

/// One user account: whether it was used and when the user last placed a pixel.
#[derive(Clone, Copy, Debug, PartialEq, Eq)]
pub struct UserState {
    pub is_initialized: bool,
    pub last_place_time: i64,
}

/// A pixel placed by a user and not yet merged into its chunk.
#[derive(Clone, Copy, Debug, PartialEq, Eq)]
pub struct PixelDiff {
    pub x: u16,
    pub y: u16,
    pub color: u8,
    pub user: [u8; 32],
}

/// The buffer of pixels placed and not yet merged.
pub struct DiffBuffer {
    pub is_initialized: bool,
    pub diffs: Vec<PixelDiff>,
}

/// A diff buffer's contents as a mathematical value.
pub struct DiffBufferModel {
    pub is_initialized: bool,
    pub diffs: Seq<PixelDiff>,
}

impl View for DiffBuffer {
    type V = DiffBufferModel;

    open spec fn view(&self) -> DiffBufferModel {
        DiffBufferModel { is_initialized: self.is_initialized, diffs: self.diffs@ }
    }
}

/// The vault account: whether it was set up, and who may withdraw from it.
#[derive(Clone, Copy, Debug, PartialEq, Eq)]
pub struct AggregatorVaultData {
    pub is_initialized: bool,
    pub authority: [u8; 32],
}

/// The instructions the program accepts.
#[derive(Clone, Copy, Debug, PartialEq, Eq)]
pub enum RPlaceInstruction {
    /// Place a pixel: checks the user's cooldown, charges the pixel fee into the vault and
    /// appends a diff to the diff buffer.
    PlacePixel { x: u16, y: u16, color: u8 },
    /// Merge up to `max_diffs` diffs of chunk `(chunk_x, chunk_y)` into its account.
    AggregatorMerge { chunk_x: u16, chunk_y: u16, max_diffs: u32 },
    /// Set up the vault with its authority; refused once the vault is set up.
    InitAggregatorVault { authority: [u8; 32] },
    /// Move `amount` lamports from the vault to the authority's pay account.
    AggregatorWithdrawFees { amount: u64 },
}

/// What the program reads of, and writes to, an account handed to an instruction.
pub struct AccountState {
    pub key: [u8; 32],
    pub owner: [u8; 32],
    pub is_signer: bool,
    pub lamports: u64,
    pub data: Vec<u8>,
}

/// An account as a mathematical value.
pub struct AccountModel {
    pub key: [u8; 32],
    pub owner: [u8; 32],
    pub is_signer: bool,
    pub lamports: u64,
    pub data: Seq<u8>,
}

impl View for AccountState {
    type V = AccountModel;

    open spec fn view(&self) -> AccountModel {
        AccountModel {
            key: self.key,
            owner: self.owner,
            is_signer: self.is_signer,
            lamports: self.lamports,
            data: self.data@,
        }
    }
}

/// The accounts of an instruction as mathematical values.
pub open spec fn accounts_model(accounts: Seq<AccountState>) -> Seq<AccountModel> {
    accounts.map_values(|a: AccountState| a@)
}

/// Whether two keys are the same.
pub fn same_key(a: &[u8; 32], b: &[u8; 32]) -> (same: bool)
    ensures
        same == (*a == *b),
{
    let mut i: usize = 0;
    while i < 32
        invariant
            i <= 32,
            forall|j: int| 0 <= j < i ==> a@[j] == b@[j],
        decreases 32 - i,
    {
        if a[i] != b[i] {
            return false;
        }
        i = i + 1;
    }
    assert(*a =~= *b);
    true
}

} // verus!
