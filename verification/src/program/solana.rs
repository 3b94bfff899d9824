//! The calls this program makes into the Solana program library.
use solana_program::account_info::AccountInfo;
use solana_program::clock::Clock;
use solana_program::pubkey::Pubkey;
use solana_program::sysvar::Sysvar;
use vstd::prelude::*;

use super::wire::le64;

verus! {

/// The address `Pubkey::try_find_program_address` derives from `seeds` for `program_id`,
/// with its bump seed; `None` when it finds none.
pub uninterp spec fn program_address(seeds: Seq<Seq<u8>>, program_id: Seq<u8>) -> Option<
    (Seq<u8>, u8),
>;

/// Calls `Pubkey::try_find_program_address`: the program address derived from `seeds`
/// for `program_id` and its bump seed. The contract claims only that the result is the
/// one that function computes from these seeds and this program id; the hashing behind
/// it is not stated.
#[verifier::external_body]
pub(crate) fn find_program_address(seeds: &Vec<Vec<u8>>, program_id: &[u8; 32]) -> (r: Option<
    ([u8; 32], u8),
>)
    ensures
        match r {
            Some((key, bump)) => program_address(seeds.deep_view(), program_id@) == Some(
                (key@, bump),
            ),
            None => program_address(seeds.deep_view(), program_id@) is None,
        },
{
    let mut refs: Vec<&[u8]> = Vec::new();
    for seed in seeds.iter() {
        refs.push(seed.as_slice());
    }
    match Pubkey::try_find_program_address(&refs, &Pubkey::new_from_array(*program_id)) {
        Some((key, bump)) => Some((key.to_bytes(), bump)),
        None => None,
    }
}

/// The bytes of the clock sysvar's address, `SysvarC1ock11111111111111111111111111111111`.
pub open spec fn clock_id_bytes() -> Seq<u8> {
    seq![
        6u8, 167u8, 213u8, 23u8, 24u8, 199u8, 116u8, 201u8, 40u8, 86u8, 99u8, 152u8, 105u8, 29u8,
        94u8, 182u8, 139u8, 94u8, 184u8, 163u8, 155u8, 75u8, 109u8, 92u8, 115u8, 85u8, 91u8, 33u8,
        0u8, 0u8, 0u8, 0u8,
    ]
}

/// Reads `solana_program::sysvar::clock::ID`. The contract claims its bytes are those of
/// the clock sysvar's published address.
#[verifier::external_body]
pub(crate) fn clock_sysvar_id() -> (id: [u8; 32])
    ensures
        id@ == clock_id_bytes(),
{
    solana_program::sysvar::clock::ID.to_bytes()
}

/// The clock's `unix_timestamp` as held in the clock sysvar's data, when the data is long
/// enough: the fifth of five little-endian 64-bit fields.
pub open spec fn clock_timestamp(data: Seq<u8>) -> Option<i64> {
    if data.len() >= 40 {
        Some(le64(data, 32) as i64)
    } else {
        None
    }
}

/// Calls `Clock::from_account_info` on an account holding `data` under the clock sysvar's
/// address, and takes the clock's `unix_timestamp`. The contract claims what the sysvar's
/// fixed-width little-endian layout gives: the timestamp is the 64-bit field at byte 32,
/// read whenever the data holds the 40 bytes of the clock, trailing bytes ignored.
#[verifier::external_body]
pub(crate) fn clock_unix_timestamp(data: &[u8]) -> (t: Option<i64>)
    ensures
        t == clock_timestamp(data@),
{
    let key = solana_program::sysvar::clock::ID;
    let owner = Pubkey::default();
    let mut lamports: u64 = 0;
    let mut bytes = data.to_vec();
    let info = AccountInfo::new(&key, false, false, &mut lamports, &mut bytes, &owner, false, 0);
    match Clock::from_account_info(&info) {
        Ok(clock) => Some(clock.unix_timestamp),
        Err(_) => None,
    }
}

} // verus!
