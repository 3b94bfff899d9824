//! The byte layout of instructions and accounts: little-endian integers, a boolean as
//! one byte 0 or 1, a key as its 32 bytes, a vector as its `u32` length then its items,
//! an enumeration as a one-byte tag then its fields. A value must fill its bytes exactly,
//! except the diff buffer: its account is sized for the diffs it may come to hold, so the
//! bytes after its last diff are not read.
use super::{
    AggregatorVaultData, ChunkState, ChunkStateModel, DiffBuffer, DiffBufferModel, PixelDiff,
    RPlaceInstruction, UserState, WireError,
};
use vstd::bytes::*;
use vstd::prelude::*;
use vstd::slice::slice_subrange;

verus! {

broadcast use vstd::array::group_array_axioms;

/// Encoded length of a pixel diff.
pub const DIFF_LEN: usize = 37;

/// The key whose bytes are `s`.
pub open spec fn key_from(s: Seq<u8>) -> [u8; 32] {
    choose|k: [u8; 32]| k@ == s
}

/// A key's bytes name that key.
pub proof fn lemma_key_from_view(k: [u8; 32])
    ensures
        key_from(k@) == k,
{
    let c = key_from(k@);
    assert(c@ == k@);
    assert(c == k);
}

/// The byte encoding a boolean.
pub open spec fn bool_byte(b: bool) -> u8 {
    if b {
        1
    } else {
        0
    }
}

/// The `u16` stored little-endian at `pos`.
pub open spec fn le16(b: Seq<u8>, pos: int) -> u16 {
    spec_u16_from_le_bytes(b.subrange(pos, pos + 2))
}

/// The `u32` stored little-endian at `pos`.
pub open spec fn le32(b: Seq<u8>, pos: int) -> u32 {
    spec_u32_from_le_bytes(b.subrange(pos, pos + 4))
}

/// The `u64` stored little-endian at `pos`.
pub open spec fn le64(b: Seq<u8>, pos: int) -> u64 {
    spec_u64_from_le_bytes(b.subrange(pos, pos + 8))
}

// ------------------------------------------------------------------
// Encodings
// ------------------------------------------------------------------

pub open spec fn user_state_bytes(u: UserState) -> Seq<u8> {
    seq![bool_byte(u.is_initialized)] + spec_u64_to_le_bytes(u.last_place_time as u64)
}

pub open spec fn vault_bytes(v: AggregatorVaultData) -> Seq<u8> {
    seq![bool_byte(v.is_initialized)] + v.authority@
}

pub open spec fn chunk_state_bytes(c: ChunkStateModel) -> Seq<u8> {
    spec_u16_to_le_bytes(c.chunk_x) + spec_u16_to_le_bytes(c.chunk_y) + spec_u32_to_le_bytes(
        c.pixels.len() as u32,
    ) + c.pixels
}

pub open spec fn diff_bytes(d: PixelDiff) -> Seq<u8> {
    spec_u16_to_le_bytes(d.x) + spec_u16_to_le_bytes(d.y) + seq![d.color] + d.user@
}

/// The encodings of `diffs`, one after the other.
pub open spec fn diffs_bytes(diffs: Seq<PixelDiff>) -> Seq<u8> {
    Seq::new(
        (diffs.len() * DIFF_LEN) as nat,
        |k: int| diff_bytes(diffs[k / (DIFF_LEN as int)])[k % (DIFF_LEN as int)],
    )
}

pub open spec fn diff_buffer_bytes(m: DiffBufferModel) -> Seq<u8> {
    seq![bool_byte(m.is_initialized)] + spec_u32_to_le_bytes(m.diffs.len() as u32) + diffs_bytes(
        m.diffs,
    )
}

pub open spec fn instruction_bytes(ix: RPlaceInstruction) -> Seq<u8> {
    match ix {
        RPlaceInstruction::PlacePixel { x, y, color } => seq![0u8] + spec_u16_to_le_bytes(x)
            + spec_u16_to_le_bytes(y) + seq![color],
        RPlaceInstruction::AggregatorMerge { chunk_x, chunk_y, max_diffs } => seq![1u8]
            + spec_u16_to_le_bytes(chunk_x) + spec_u16_to_le_bytes(chunk_y) + spec_u32_to_le_bytes(
            max_diffs,
        ),
        RPlaceInstruction::InitAggregatorVault { authority } => seq![2u8] + authority@,
        RPlaceInstruction::AggregatorWithdrawFees { amount } => seq![3u8] + spec_u64_to_le_bytes(
            amount,
        ),
    }
}

// ------------------------------------------------------------------
// Decodings
// ------------------------------------------------------------------

pub open spec fn parse_user_state(b: Seq<u8>) -> Result<UserState, WireError> {
    if b.len() < 1 {
        Err(WireError::UnexpectedLength)
    } else if b[0] > 1 {
        Err(WireError::InvalidBool(b[0]))
    } else if b.len() < 9 {
        Err(WireError::UnexpectedLength)
    } else if b.len() > 9 {
        Err(WireError::NotAllBytesRead)
    } else {
        Ok(UserState { is_initialized: b[0] == 1, last_place_time: le64(b, 1) as i64 })
    }
}

pub open spec fn parse_vault(b: Seq<u8>) -> Result<AggregatorVaultData, WireError> {
    if b.len() < 1 {
        Err(WireError::UnexpectedLength)
    } else if b[0] > 1 {
        Err(WireError::InvalidBool(b[0]))
    } else if b.len() < 33 {
        Err(WireError::UnexpectedLength)
    } else if b.len() > 33 {
        Err(WireError::NotAllBytesRead)
    } else {
        Ok(AggregatorVaultData { is_initialized: b[0] == 1, authority: key_from(b.subrange(1, 33)) })
    }
}

pub open spec fn parse_chunk_state(b: Seq<u8>) -> Result<ChunkStateModel, WireError> {
    if b.len() < 8 {
        Err(WireError::UnexpectedLength)
    } else if b.len() < 8 + le32(b, 4) {
        Err(WireError::UnexpectedLength)
    } else if b.len() > 8 + le32(b, 4) {
        Err(WireError::NotAllBytesRead)
    } else {
        Ok(ChunkStateModel { chunk_x: le16(b, 0), chunk_y: le16(b, 2), pixels: b.subrange(8, b.len() as int) })
    }
}

/// The diff encoded at `pos`.
pub open spec fn diff_at(b: Seq<u8>, pos: int) -> PixelDiff {
    PixelDiff {
        x: le16(b, pos),
        y: le16(b, pos + 2),
        color: b[pos + 4],
        user: key_from(b.subrange(pos + 5, pos + 37)),
    }
}

pub open spec fn parse_diff_buffer(b: Seq<u8>) -> Result<DiffBufferModel, WireError> {
    if b.len() < 1 {
        Err(WireError::UnexpectedLength)
    } else if b[0] > 1 {
        Err(WireError::InvalidBool(b[0]))
    } else if b.len() < 5 {
        Err(WireError::UnexpectedLength)
    } else if b.len() < 5 + le32(b, 1) * DIFF_LEN {
        Err(WireError::UnexpectedLength)
    } else {
        Ok(
            DiffBufferModel {
                is_initialized: b[0] == 1,
                diffs: Seq::new(le32(b, 1) as nat, |i: int| diff_at(b, 5 + i * DIFF_LEN)),
            },
        )
    }
}

/// The instruction `b` encodes, if any.
pub open spec fn parse_instruction(b: Seq<u8>) -> Option<RPlaceInstruction> {
    if b.len() < 1 {
        None
    } else if b[0] == 0 && b.len() == 6 {
        Some(RPlaceInstruction::PlacePixel { x: le16(b, 1), y: le16(b, 3), color: b[5] })
    } else if b[0] == 1 && b.len() == 9 {
        Some(
            RPlaceInstruction::AggregatorMerge {
                chunk_x: le16(b, 1),
                chunk_y: le16(b, 3),
                max_diffs: le32(b, 5),
            },
        )
    } else if b[0] == 2 && b.len() == 33 {
        Some(RPlaceInstruction::InitAggregatorVault { authority: key_from(b.subrange(1, 33)) })
    } else if b[0] == 3 && b.len() == 9 {
        Some(RPlaceInstruction::AggregatorWithdrawFees { amount: le64(b, 1) })
    } else {
        None
    }
}

/// The account bytes after writing `bytes` at their start: the rest is left as it was.
pub open spec fn overwrite(data: Seq<u8>, bytes: Seq<u8>) -> Seq<u8> {
    bytes + data.subrange(bytes.len() as int, data.len() as int)
}

// ------------------------------------------------------------------
// Readers
// ------------------------------------------------------------------

fn read_u16(b: &[u8], pos: usize) -> (v: u16)
    requires
        pos + 2 <= b@.len(),
    ensures
        v == le16(b@, pos as int),
{
    let _len = b.len();
    u16_from_le_bytes(slice_subrange(b, pos, pos + 2))
}

fn read_u32(b: &[u8], pos: usize) -> (v: u32)
    requires
        pos + 4 <= b@.len(),
    ensures
        v == le32(b@, pos as int),
{
    let _len = b.len();
    u32_from_le_bytes(slice_subrange(b, pos, pos + 4))
}

fn read_u64(b: &[u8], pos: usize) -> (v: u64)
    requires
        pos + 8 <= b@.len(),
    ensures
        v == le64(b@, pos as int),
{
    let _len = b.len();
    u64_from_le_bytes(slice_subrange(b, pos, pos + 8))
}

fn read_key(b: &[u8], pos: usize) -> (k: [u8; 32])
    requires
        pos + 32 <= b@.len(),
    ensures
        k@ == b@.subrange(pos as int, pos + 32),
        k == key_from(b@.subrange(pos as int, pos + 32)),
{
    let len = b.len();
    let mut k: [u8; 32] = [0u8; 32];
    let mut i: usize = 0;
    while i < 32
        invariant
            i <= 32,
            len == b@.len(),
            pos + 32 <= b@.len(),
            forall|j: int| 0 <= j < i ==> k@[j] == b@[pos + j],
        decreases 32 - i,
    {
        k[i] = b[pos + i];
        i = i + 1;
    }
    assert(k@ =~= b@.subrange(pos as int, pos + 32));
    proof {
        lemma_key_from_view(k);
    }
    k
}

fn read_bool(byte: u8) -> (r: Result<bool, WireError>)
    ensures
        byte > 1 ==> r == Err::<bool, WireError>(WireError::InvalidBool(byte)),
        byte <= 1 ==> r == Ok::<bool, WireError>(byte == 1),
{
    if byte == 0 {
        Ok(false)
    } else if byte == 1 {
        Ok(true)
    } else {
        Err(WireError::InvalidBool(byte))
    }
}

// ------------------------------------------------------------------
// Decoders: each reads the whole of its bytes, or fails as the layout says.
// ------------------------------------------------------------------

/// Reads a user account.
pub fn decode_user_state(b: &[u8]) -> (r: Result<UserState, WireError>)
    ensures
        r == parse_user_state(b@),
{
    if b.len() < 1 {
        return Err(WireError::UnexpectedLength);
    }
    let is_initialized = read_bool(b[0])?;
    if b.len() < 9 {
        return Err(WireError::UnexpectedLength);
    }
    if b.len() > 9 {
        return Err(WireError::NotAllBytesRead);
    }
    let t = read_u64(b, 1);
    Ok(UserState { is_initialized, last_place_time: t as i64 })
}

/// Reads the vault account.
pub fn decode_vault(b: &[u8]) -> (r: Result<AggregatorVaultData, WireError>)
    ensures
        r == parse_vault(b@),
{
    if b.len() < 1 {
        return Err(WireError::UnexpectedLength);
    }
    let is_initialized = read_bool(b[0])?;
    if b.len() < 33 {
        return Err(WireError::UnexpectedLength);
    }
    if b.len() > 33 {
        return Err(WireError::NotAllBytesRead);
    }
    let authority = read_key(b, 1);
    Ok(AggregatorVaultData { is_initialized, authority })
}

/// Reads a chunk account.
pub fn decode_chunk_state(b: &[u8]) -> (r: Result<ChunkState, WireError>)
    ensures
        match (r, parse_chunk_state(b@)) {
            (Ok(c), Ok(m)) => c@ == m,
            (Err(e), Err(f)) => e == f,
            _ => false,
        },
{
    if b.len() < 8 {
        return Err(WireError::UnexpectedLength);
    }
    let n = read_u32(b, 4) as usize;
    if b.len() - 8 < n {
        return Err(WireError::UnexpectedLength);
    }
    if b.len() - 8 > n {
        return Err(WireError::NotAllBytesRead);
    }
    let chunk_x = read_u16(b, 0);
    let chunk_y = read_u16(b, 2);
    let mut pixels: Vec<u8> = Vec::new();
    let mut i: usize = 8;
    while i < b.len()
        invariant
            8 <= i <= b@.len(),
            pixels@ == b@.subrange(8, i as int),
        decreases b@.len() - i,
    {
        pixels.push(b[i]);
        i = i + 1;
    }
    Ok(ChunkState { chunk_x, chunk_y, pixels })
}

/// Reads the diff at `pos`.
fn read_diff(b: &[u8], pos: usize) -> (d: PixelDiff)
    requires
        pos + DIFF_LEN <= b@.len(),
    ensures
        d == diff_at(b@, pos as int),
{
    let _len = b.len();
    let x = read_u16(b, pos);
    let y = read_u16(b, pos + 2);
    let color = b[pos + 4];
    let user = read_key(b, pos + 5);
    PixelDiff { x, y, color, user }
}

/// Reads the diff buffer account.
pub fn decode_diff_buffer(b: &[u8]) -> (r: Result<DiffBuffer, WireError>)
    ensures
        match (r, parse_diff_buffer(b@)) {
            (Ok(d), Ok(m)) => d@ == m,
            (Err(e), Err(f)) => e == f,
            _ => false,
        },
{
    if b.len() < 1 {
        return Err(WireError::UnexpectedLength);
    }
    let is_initialized = read_bool(b[0])?;
    if b.len() < 5 {
        return Err(WireError::UnexpectedLength);
    }
    let n = read_u32(b, 1);
    let body = (b.len() - 5) as u64;
    let needed = (n as u64) * (DIFF_LEN as u64);
    if body < needed {
        return Err(WireError::UnexpectedLength);
    }
    let mut diffs: Vec<PixelDiff> = Vec::new();
    let mut i: usize = 0;
    while i < n as usize
        invariant
            i <= n,
            b@.len() >= 5 + n * DIFF_LEN,
            b@.len() <= usize::MAX,
            n == le32(b@, 1),
            diffs@ == Seq::new(i as nat, |j: int| diff_at(b@, 5 + j * DIFF_LEN)),
        decreases n - i,
    {
        proof {
            assert(5 + i * DIFF_LEN + DIFF_LEN <= b@.len()) by (nonlinear_arith)
                requires
                    i < n,
                    b@.len() >= 5 + n * DIFF_LEN,
            ;
        }
        let d = read_diff(b, 5 + i * DIFF_LEN);
        diffs.push(d);
        i = i + 1;
        proof {
            assert(diffs@ =~= Seq::new(i as nat, |j: int| diff_at(b@, 5 + j * DIFF_LEN)));
        }
    }
    let r = DiffBuffer { is_initialized, diffs };
    assert(r@.diffs =~= Seq::new(n as nat, |j: int| diff_at(b@, 5 + j * DIFF_LEN)));
    Ok(r)
}

/// Reads an instruction; `None` when the bytes encode none.
pub fn decode_instruction(b: &[u8]) -> (r: Option<RPlaceInstruction>)
    ensures
        r == parse_instruction(b@),
{
    if b.len() < 1 {
        None
    } else if b[0] == 0 && b.len() == 6 {
        Some(RPlaceInstruction::PlacePixel { x: read_u16(b, 1), y: read_u16(b, 3), color: b[5] })
    } else if b[0] == 1 && b.len() == 9 {
        Some(
            RPlaceInstruction::AggregatorMerge {
                chunk_x: read_u16(b, 1),
                chunk_y: read_u16(b, 3),
                max_diffs: read_u32(b, 5),
            },
        )
    } else if b[0] == 2 && b.len() == 33 {
        Some(RPlaceInstruction::InitAggregatorVault { authority: read_key(b, 1) })
    } else if b[0] == 3 && b.len() == 9 {
        Some(RPlaceInstruction::AggregatorWithdrawFees { amount: read_u64(b, 1) })
    } else {
        None
    }
}

// ------------------------------------------------------------------
// Encoders
// ------------------------------------------------------------------

fn push_bool(out: &mut Vec<u8>, b: bool)
    ensures
        final(out)@ == old(out)@.push(bool_byte(b)),
{
    if b {
        out.push(1u8);
    } else {
        out.push(0u8);
    }
}

fn push_bytes(out: &mut Vec<u8>, bytes: &[u8])
    ensures
        final(out)@ == old(out)@ + bytes@,
{
    let mut i: usize = 0;
    while i < bytes.len()
        invariant
            i <= bytes@.len(),
            out@ == old(out)@ + bytes@.subrange(0, i as int),
        decreases bytes@.len() - i,
    {
        out.push(bytes[i]);
        i = i + 1;
        assert(out@ =~= old(out)@ + bytes@.subrange(0, i as int));
    }
    assert(bytes@.subrange(0, bytes@.len() as int) =~= bytes@);
}

/// Encodes a user account.
pub fn encode_user_state(u: &UserState) -> (out: Vec<u8>)
    ensures
        out@ == user_state_bytes(*u),
{
    let mut out: Vec<u8> = Vec::new();
    push_bool(&mut out, u.is_initialized);
    let t = u64_to_le_bytes(u.last_place_time as u64);
    push_bytes(&mut out, t.as_slice());
    assert(out@ =~= user_state_bytes(*u));
    out
}

/// Encodes the vault account.
pub fn encode_vault(v: &AggregatorVaultData) -> (out: Vec<u8>)
    ensures
        out@ == vault_bytes(*v),
{
    let mut out: Vec<u8> = Vec::new();
    push_bool(&mut out, v.is_initialized);
    push_bytes(&mut out, v.authority.as_slice());
    assert(out@ =~= vault_bytes(*v));
    out
}

/// Encodes a chunk account.
pub fn encode_chunk_state(c: &ChunkState) -> (out: Vec<u8>)
    requires
        c.pixels@.len() <= u32::MAX,
    ensures
        out@ == chunk_state_bytes(c@),
{
    let mut out: Vec<u8> = Vec::new();
    let x = u16_to_le_bytes(c.chunk_x);
    push_bytes(&mut out, x.as_slice());
    let y = u16_to_le_bytes(c.chunk_y);
    push_bytes(&mut out, y.as_slice());
    let n = u32_to_le_bytes(c.pixels.len() as u32);
    push_bytes(&mut out, n.as_slice());
    push_bytes(&mut out, c.pixels.as_slice());
    assert(out@ =~= chunk_state_bytes(c@));
    out
}

/// Encodes one diff.
fn push_diff(out: &mut Vec<u8>, d: &PixelDiff)
    ensures
        final(out)@ == old(out)@ + diff_bytes(*d),
{
    let x = u16_to_le_bytes(d.x);
    push_bytes(out, x.as_slice());
    let y = u16_to_le_bytes(d.y);
    push_bytes(out, y.as_slice());
    out.push(d.color);
    push_bytes(out, d.user.as_slice());
    assert(out@ =~= old(out)@ + diff_bytes(*d));
}

/// The encoding of one more diff follows the encodings of the ones before it.
proof fn lemma_diffs_bytes_push(s: Seq<PixelDiff>, d: PixelDiff)
    ensures
        diffs_bytes(s.push(d)) == diffs_bytes(s) + diff_bytes(d),
{
    let n = s.len() as int;
    let lhs = diffs_bytes(s.push(d));
    let rhs = diffs_bytes(s) + diff_bytes(d);
    lemma_auto_spec_u16_to_from_le_bytes();
    assert(diff_bytes(d).len() == DIFF_LEN);
    assert(lhs.len() == rhs.len()) by (nonlinear_arith)
        requires
            lhs.len() == (n + 1) * DIFF_LEN,
            rhs.len() == n * DIFF_LEN + DIFF_LEN,
    ;
    assert forall|k: int| 0 <= k < lhs.len() implies lhs[k] == rhs[k] by {
        if k < n * DIFF_LEN {
            assert(k / (DIFF_LEN as int) < n) by (nonlinear_arith)
                requires
                    0 <= k < n * DIFF_LEN,
            ;
            assert(0 <= k / (DIFF_LEN as int)) by (nonlinear_arith)
                requires
                    0 <= k,
            ;
        } else {
            assert(k / (DIFF_LEN as int) == n && k % (DIFF_LEN as int) == k - n * DIFF_LEN)
                by (nonlinear_arith)
                requires
                    n * DIFF_LEN <= k < n * DIFF_LEN + DIFF_LEN,
            ;
        }
    }
    assert(lhs =~= rhs);
}

/// Encodes the diff buffer account.
pub fn encode_diff_buffer(d: &DiffBuffer) -> (out: Vec<u8>)
    requires
        d.diffs@.len() <= u32::MAX,
    ensures
        out@ == diff_buffer_bytes(d@),
{
    let mut out: Vec<u8> = Vec::new();
    push_bool(&mut out, d.is_initialized);
    let n = u32_to_le_bytes(d.diffs.len() as u32);
    push_bytes(&mut out, n.as_slice());
    let ghost head = out@;
    let mut i: usize = 0;
    while i < d.diffs.len()
        invariant
            i <= d.diffs@.len(),
            out@ == head + diffs_bytes(d.diffs@.subrange(0, i as int)),
        decreases d.diffs@.len() - i,
    {
        push_diff(&mut out, &d.diffs[i]);
        proof {
            lemma_diffs_bytes_push(d.diffs@.subrange(0, i as int), d.diffs@[i as int]);
            assert(d.diffs@.subrange(0, i as int).push(d.diffs@[i as int]) =~= d.diffs@.subrange(
                0,
                i + 1,
            ));
        }
        i = i + 1;
    }
    assert(d.diffs@.subrange(0, d.diffs@.len() as int) =~= d.diffs@);
    assert(out@ =~= diff_buffer_bytes(d@));
    out
}

/// Encodes an instruction.
pub fn encode_instruction(ix: &RPlaceInstruction) -> (out: Vec<u8>)
    ensures
        out@ == instruction_bytes(*ix),
{
    let mut out: Vec<u8> = Vec::new();
    match ix {
        RPlaceInstruction::PlacePixel { x, y, color } => {
            out.push(0u8);
            let xb = u16_to_le_bytes(*x);
            push_bytes(&mut out, xb.as_slice());
            let yb = u16_to_le_bytes(*y);
            push_bytes(&mut out, yb.as_slice());
            out.push(*color);
        },
        RPlaceInstruction::AggregatorMerge { chunk_x, chunk_y, max_diffs } => {
            out.push(1u8);
            let xb = u16_to_le_bytes(*chunk_x);
            push_bytes(&mut out, xb.as_slice());
            let yb = u16_to_le_bytes(*chunk_y);
            push_bytes(&mut out, yb.as_slice());
            let mb = u32_to_le_bytes(*max_diffs);
            push_bytes(&mut out, mb.as_slice());
        },
        RPlaceInstruction::InitAggregatorVault { authority } => {
            out.push(2u8);
            push_bytes(&mut out, authority.as_slice());
        },
        RPlaceInstruction::AggregatorWithdrawFees { amount } => {
            out.push(3u8);
            let ab = u64_to_le_bytes(*amount);
            push_bytes(&mut out, ab.as_slice());
        },
    }
    assert(out@ =~= instruction_bytes(*ix));
    out
}

/// The account data after writing `bytes` at its start, the rest left as it was;
/// fails when the account is too small to hold them.
pub fn write_account_data(data: &[u8], bytes: &[u8]) -> (r: Result<Vec<u8>, WireError>)
    ensures
        bytes@.len() <= data@.len() ==> (r matches Ok(d) && d@ == overwrite(data@, bytes@)),
        bytes@.len() > data@.len() ==> r == Err::<Vec<u8>, WireError>(WireError::WriteZero),
{
    if bytes.len() > data.len() {
        return Err(WireError::WriteZero);
    }
    let mut out: Vec<u8> = Vec::new();
    push_bytes(&mut out, bytes);
    let mut i: usize = bytes.len();
    while i < data.len()
        invariant
            bytes@.len() <= i <= data@.len(),
            out@ == bytes@ + data@.subrange(bytes@.len() as int, i as int),
        decreases data@.len() - i,
    {
        out.push(data[i]);
        i = i + 1;
        assert(out@ =~= bytes@ + data@.subrange(bytes@.len() as int, i as int));
    }
    Ok(out)
}

// ------------------------------------------------------------------
// Laws: reading back what was written, and writing back what was read.
// ------------------------------------------------------------------

proof fn lemma_i64_bits(t: i64, x: u64)
    ensures
        ((t as u64) as i64) == t,
        ((x as i64) as u64) == x,
{
    assert(((t as u64) as i64) == t) by (bit_vector);
    assert(((x as i64) as u64) == x) by (bit_vector);
}

/// Reading a user account gives back the state that was written to it.
pub proof fn law_user_state_roundtrip(u: UserState)
    ensures
        parse_user_state(user_state_bytes(u)) == Ok::<UserState, WireError>(u),
{
    lemma_auto_spec_u64_to_from_le_bytes();
    lemma_i64_bits(u.last_place_time, 0);
    let b = user_state_bytes(u);
    assert(b.subrange(1, 9) =~= spec_u64_to_le_bytes(u.last_place_time as u64));
}

/// A user account that reads as a state holds exactly that state's encoding.
pub proof fn law_user_state_canonical(b: Seq<u8>)
    requires
        parse_user_state(b) is Ok,
    ensures
        user_state_bytes(parse_user_state(b)->Ok_0) == b,
{
    lemma_auto_spec_u64_to_from_le_bytes();
    let s = b.subrange(1, 9);
    lemma_i64_bits(0, spec_u64_from_le_bytes(s));
    assert(user_state_bytes(parse_user_state(b)->Ok_0) =~= b);
}

/// Reading the vault account gives back the data that was written to it.
pub proof fn law_vault_roundtrip(v: AggregatorVaultData)
    ensures
        parse_vault(vault_bytes(v)) == Ok::<AggregatorVaultData, WireError>(v),
{
    let b = vault_bytes(v);
    assert(b.subrange(1, 33) =~= v.authority@);
    lemma_key_from_view(v.authority);
}

/// A vault account that reads as data holds exactly that data's encoding.
pub proof fn law_vault_canonical(b: Seq<u8>)
    requires
        parse_vault(b) is Ok,
    ensures
        vault_bytes(parse_vault(b)->Ok_0) == b,
{
    lemma_key_exists(b.subrange(1, 33));
    assert(vault_bytes(parse_vault(b)->Ok_0) =~= b);
}

/// An array holding the first `n` bytes of `s`.
proof fn lemma_key_prefix(s: Seq<u8>, n: int) -> (k: [u8; 32])
    requires
        s.len() == 32,
        0 <= n <= 32,
    ensures
        forall|j: int| 0 <= j < n ==> k@[j] == s[j],
    decreases n,
{
    if n == 0 {
        vstd::array::spec_array_fill_for_copy_type::<u8, 32>(0u8)
    } else {
        let k = lemma_key_prefix(s, n - 1);
        let k2 = vstd::array::spec_array_update(k, n - 1, s[n - 1]);
        assert(k2@ == k@.update(n - 1, s[n - 1]));
        k2
    }
}

/// Every 32 bytes are the bytes of some key.
pub proof fn lemma_key_exists(s: Seq<u8>)
    requires
        s.len() == 32,
    ensures
        exists|k: [u8; 32]| k@ == s,
        key_from(s)@ == s,
{
    let k = lemma_key_prefix(s, 32);
    assert(k@.len() == 32);
    assert(k@ =~= s);
}


/// Reading a chunk account gives back the chunk that was written to it.
pub proof fn law_chunk_state_roundtrip(c: ChunkStateModel)
    requires
        c.pixels.len() <= u32::MAX,
    ensures
        parse_chunk_state(chunk_state_bytes(c)) == Ok::<ChunkStateModel, WireError>(c),
{
    lemma_auto_spec_u16_to_from_le_bytes();
    lemma_auto_spec_u32_to_from_le_bytes();
    let b = chunk_state_bytes(c);
    assert(b.subrange(0, 2) =~= spec_u16_to_le_bytes(c.chunk_x));
    assert(b.subrange(2, 4) =~= spec_u16_to_le_bytes(c.chunk_y));
    assert(b.subrange(4, 8) =~= spec_u32_to_le_bytes(c.pixels.len() as u32));
    assert(b.subrange(8, b.len() as int) =~= c.pixels);
}

/// A chunk account that reads as a chunk holds exactly that chunk's encoding.
pub proof fn law_chunk_state_canonical(b: Seq<u8>)
    requires
        parse_chunk_state(b) is Ok,
    ensures
        chunk_state_bytes(parse_chunk_state(b)->Ok_0) == b,
{
    lemma_auto_spec_u16_to_from_le_bytes();
    lemma_auto_spec_u32_to_from_le_bytes();
    assert(spec_u16_to_le_bytes(le16(b, 0)) == b.subrange(0, 2));
    assert(spec_u16_to_le_bytes(le16(b, 2)) == b.subrange(2, 4));
    assert(spec_u32_to_le_bytes(le32(b, 4)) == b.subrange(4, 8));
    assert(chunk_state_bytes(parse_chunk_state(b)->Ok_0) =~= b);
}

/// The bytes of diff `i` within the encodings of a run of diffs.
proof fn lemma_diffs_bytes_at(diffs: Seq<PixelDiff>, i: int)
    requires
        0 <= i < diffs.len(),
    ensures
        diffs_bytes(diffs).subrange(i * DIFF_LEN, i * DIFF_LEN + DIFF_LEN) == diff_bytes(diffs[i]),
{
    lemma_auto_spec_u16_to_from_le_bytes();
    let all = diffs_bytes(diffs);
    assert(i * DIFF_LEN + DIFF_LEN <= diffs.len() * DIFF_LEN) by (nonlinear_arith)
        requires
            0 <= i < diffs.len(),
    ;
    assert forall|j: int| 0 <= j < DIFF_LEN implies all[i * DIFF_LEN + j] == diff_bytes(
        diffs[i],
    )[j] by {
        assert((i * DIFF_LEN + j) / (DIFF_LEN as int) == i && (i * DIFF_LEN + j) % (DIFF_LEN as int) == j)
            by (nonlinear_arith)
            requires
                0 <= j < DIFF_LEN,
                0 <= i,
        ;
    }
    assert(all.subrange(i * DIFF_LEN, i * DIFF_LEN + DIFF_LEN) =~= diff_bytes(diffs[i]));
}

/// A diff reads back from its own encoding.
proof fn lemma_diff_at_bytes(b: Seq<u8>, pos: int, d: PixelDiff)
    requires
        0 <= pos,
        pos + DIFF_LEN <= b.len(),
        b.subrange(pos, pos + DIFF_LEN) == diff_bytes(d),
    ensures
        diff_at(b, pos) == d,
{
    lemma_auto_spec_u16_to_from_le_bytes();
    let e = diff_bytes(d);
    assert(b.subrange(pos, pos + 2) =~= e.subrange(0, 2));
    assert(e.subrange(0, 2) =~= spec_u16_to_le_bytes(d.x));
    assert(b.subrange(pos + 2, pos + 4) =~= e.subrange(2, 4));
    assert(e.subrange(2, 4) =~= spec_u16_to_le_bytes(d.y));
    assert(b[pos + 4] == e[4]);
    assert(e.len() == DIFF_LEN);
    assert(b.subrange(pos + 5, pos + 37) =~= e.subrange(5, 37));
    assert(e.subrange(5, 37) =~= d.user@);
    lemma_key_from_view(d.user);
}

/// The encoding of the diff read at `pos` is the bytes it was read from.
proof fn lemma_diff_bytes_at(b: Seq<u8>, pos: int)
    requires
        0 <= pos,
        pos + DIFF_LEN <= b.len(),
    ensures
        diff_bytes(diff_at(b, pos)) == b.subrange(pos, pos + DIFF_LEN),
{
    lemma_auto_spec_u16_to_from_le_bytes();
    lemma_key_exists(b.subrange(pos + 5, pos + 37));
    assert(spec_u16_to_le_bytes(le16(b, pos)) == b.subrange(pos, pos + 2));
    assert(spec_u16_to_le_bytes(le16(b, pos + 2)) == b.subrange(pos + 2, pos + 4));
    assert(diff_bytes(diff_at(b, pos)) =~= b.subrange(pos, pos + DIFF_LEN));
}

/// Bytes that begin with a buffer's encoding read as that buffer.
proof fn lemma_diff_buffer_prefix(m: DiffBufferModel, b: Seq<u8>)
    requires
        m.diffs.len() <= u32::MAX,
        diff_buffer_bytes(m).len() <= b.len(),
        b.subrange(0, diff_buffer_bytes(m).len() as int) == diff_buffer_bytes(m),
    ensures
        parse_diff_buffer(b) == Ok::<DiffBufferModel, WireError>(m),
{
    lemma_auto_spec_u32_to_from_le_bytes();
    let e = diff_buffer_bytes(m);
    let n = m.diffs.len() as int;
    assert(e.len() == 5 + n * DIFF_LEN);
    assert(b[0] == e[0]);
    assert(b.subrange(1, 5) =~= e.subrange(1, 5));
    assert(e.subrange(1, 5) =~= spec_u32_to_le_bytes(m.diffs.len() as u32));
    assert(le32(b, 1) == n);
    let parsed = Seq::new(le32(b, 1) as nat, |i: int| diff_at(b, 5 + i * DIFF_LEN));
    assert forall|i: int| 0 <= i < n implies parsed[i] == m.diffs[i] by {
        lemma_diffs_bytes_at(m.diffs, i);
        assert(i * DIFF_LEN + DIFF_LEN <= n * DIFF_LEN) by (nonlinear_arith)
            requires
                0 <= i < n,
        ;
        let lo = 5 + i * DIFF_LEN;
        assert(e.subrange(lo, lo + DIFF_LEN) =~= diffs_bytes(m.diffs).subrange(
            i * DIFF_LEN,
            i * DIFF_LEN + DIFF_LEN,
        ));
        assert forall|k: int| lo <= k < lo + DIFF_LEN implies b[k] == e[k] by {
            assert(b.subrange(0, e.len() as int)[k] == b[k]);
        }
        assert(b.subrange(lo, lo + DIFF_LEN) =~= e.subrange(lo, lo + DIFF_LEN));
        lemma_diff_at_bytes(b, 5 + i * DIFF_LEN, m.diffs[i]);
    }
    assert(parsed =~= m.diffs);
}

/// Reading the diff buffer gives back the buffer that was written to it.
pub proof fn law_diff_buffer_roundtrip(m: DiffBufferModel)
    requires
        m.diffs.len() <= u32::MAX,
    ensures
        parse_diff_buffer(diff_buffer_bytes(m)) == Ok::<DiffBufferModel, WireError>(m),
{
    let e = diff_buffer_bytes(m);
    assert(e.subrange(0, e.len() as int) =~= e);
    lemma_diff_buffer_prefix(m, e);
}

/// Writing a buffer over the start of a diff buffer account that holds it leaves an
/// account that reads as that buffer, whatever the bytes after it hold.
pub proof fn law_diff_buffer_overwrite(data: Seq<u8>, m: DiffBufferModel)
    requires
        m.diffs.len() <= u32::MAX,
        diff_buffer_bytes(m).len() <= data.len(),
    ensures
        parse_diff_buffer(overwrite(data, diff_buffer_bytes(m))) == Ok::<DiffBufferModel, WireError>(m),
{
    let e = diff_buffer_bytes(m);
    let b = overwrite(data, e);
    assert(b.subrange(0, e.len() as int) =~= e);
    lemma_diff_buffer_prefix(m, b);
}

/// A diff buffer account that reads as a buffer begins with that buffer's encoding.
pub proof fn law_diff_buffer_canonical(b: Seq<u8>)
    requires
        parse_diff_buffer(b) is Ok,
    ensures
        diff_buffer_bytes(parse_diff_buffer(b)->Ok_0) == b.subrange(
            0,
            diff_buffer_bytes(parse_diff_buffer(b)->Ok_0).len() as int,
        ),
{
    lemma_auto_spec_u32_to_from_le_bytes();
    let m = parse_diff_buffer(b)->Ok_0;
    let n = le32(b, 1) as int;
    assert(spec_u32_to_le_bytes(le32(b, 1)) == b.subrange(1, 5));
    let body = diffs_bytes(m.diffs);
    assert forall|k: int| 0 <= k < n * DIFF_LEN implies body[k] == b[5 + k] by {
        let i = k / (DIFF_LEN as int);
        let j = k % (DIFF_LEN as int);
        assert(0 <= i < n && 0 <= j < DIFF_LEN && k == i * DIFF_LEN + j) by (nonlinear_arith)
            requires
                0 <= k < n * DIFF_LEN,
                i == k / (DIFF_LEN as int),
                j == k % (DIFF_LEN as int),
        ;
        assert(5 + i * DIFF_LEN + DIFF_LEN <= b.len()) by (nonlinear_arith)
            requires
                0 <= i < n,
                b.len() >= 5 + n * DIFF_LEN,
        ;
        lemma_diff_bytes_at(b, 5 + i * DIFF_LEN);
    }
    assert(diff_buffer_bytes(m) =~= b.subrange(0, 5 + n * DIFF_LEN));
}

/// Reading an encoded instruction gives back the instruction.
pub proof fn law_instruction_roundtrip(ix: RPlaceInstruction)
    ensures
        parse_instruction(instruction_bytes(ix)) == Some(ix),
{
    lemma_auto_spec_u16_to_from_le_bytes();
    lemma_auto_spec_u32_to_from_le_bytes();
    lemma_auto_spec_u64_to_from_le_bytes();
    let b = instruction_bytes(ix);
    match ix {
        RPlaceInstruction::PlacePixel { x, y, color } => {
            assert(b.subrange(1, 3) =~= spec_u16_to_le_bytes(x));
            assert(b.subrange(3, 5) =~= spec_u16_to_le_bytes(y));
        },
        RPlaceInstruction::AggregatorMerge { chunk_x, chunk_y, max_diffs } => {
            assert(b.subrange(1, 3) =~= spec_u16_to_le_bytes(chunk_x));
            assert(b.subrange(3, 5) =~= spec_u16_to_le_bytes(chunk_y));
            assert(b.subrange(5, 9) =~= spec_u32_to_le_bytes(max_diffs));
        },
        RPlaceInstruction::InitAggregatorVault { authority } => {
            assert(b.subrange(1, 33) =~= authority@);
            lemma_key_from_view(authority);
        },
        RPlaceInstruction::AggregatorWithdrawFees { amount } => {
            assert(b.subrange(1, 9) =~= spec_u64_to_le_bytes(amount));
        },
    }
}

/// Bytes that read as an instruction are exactly that instruction's encoding.
pub proof fn law_instruction_canonical(b: Seq<u8>)
    requires
        parse_instruction(b) is Some,
    ensures
        instruction_bytes(parse_instruction(b)->0) == b,
{
    lemma_auto_spec_u16_to_from_le_bytes();
    lemma_auto_spec_u32_to_from_le_bytes();
    lemma_auto_spec_u64_to_from_le_bytes();
    if b[0] == 0 {
        assert(spec_u16_to_le_bytes(le16(b, 1)) == b.subrange(1, 3));
        assert(spec_u16_to_le_bytes(le16(b, 3)) == b.subrange(3, 5));
    } else if b[0] == 1 {
        assert(spec_u16_to_le_bytes(le16(b, 1)) == b.subrange(1, 3));
        assert(spec_u16_to_le_bytes(le16(b, 3)) == b.subrange(3, 5));
        assert(spec_u32_to_le_bytes(le32(b, 5)) == b.subrange(5, 9));
    } else if b[0] == 2 {
        lemma_key_exists(b.subrange(1, 33));
    } else {
        assert(spec_u64_to_le_bytes(le64(b, 1)) == b.subrange(1, 9));
    }
    assert(instruction_bytes(parse_instruction(b)->0) =~= b);
}

} // verus!
