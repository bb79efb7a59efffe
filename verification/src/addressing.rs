//! Deterministic addressing: every ledger entity's storage address is
//! derived from a domain tag plus key material, so no lookup table is
//! needed. A vault's derived address doubles as its signing authority.
//!
//! The derivation itself is the host chain's program-derived-address scheme,
//! a cryptographic hash over the seeds, a bump byte and the program id; this
//! module calls it and names its result.

use vstd::prelude::*;
use anchor_lang::solana_program::pubkey::Pubkey;
use crate::types::MizumiStable;

verus! {

/// The derived address (32 bytes) and bump byte for the given seeds and
/// program id, or `None` when a seed is over the host's seed-length cap or
/// no bump yields a usable address. A pure function of its arguments.
pub uninterp spec fn pda_of(seeds: Seq<Seq<char>>, program_id: Seq<u8>) -> Option<(Seq<u8>, u8)>;

/// Relies on `Pubkey::derive_program_address` of the host chain's address
/// type (re-exported by anchor_lang): the result is a pure function of the
/// seed bytes and the program id — a SHA-256 over the seeds, a bump byte
/// searched downward from 255, the program id and a fixed marker — `Some`
/// of a 32-byte address and its bump, or `None` when a seed exceeds the
/// 32-byte seed cap or every bump yields an on-curve point.
#[verifier::external_body]
fn derive_pda(
    seed_a: &str,
    seed_b: &str,
    seed_c: Option<&str>,
    program_id: &Vec<u8>,
) -> (r: Option<(Vec<u8>, u8)>)
    requires
        program_id@.len() == 32,
    ensures
        (match r {
            Some(p) => Some((p.0@, p.1)),
            None => None,
        }) == (match seed_c {
            Some(c) => pda_of(seq![seed_a@, seed_b@, c@], program_id@),
            None => pda_of(seq![seed_a@, seed_b@], program_id@),
        }),
        r matches Some(p) ==> p.0@.len() == 32,
{
    let pid = Pubkey::new_from_array(program_id.as_slice().try_into().unwrap());
    let derived = match seed_c {
        Some(c) => Pubkey::derive_program_address(
            &[seed_a.as_bytes(), seed_b.as_bytes(), c.as_bytes()],
            &pid,
        ),
        None => Pubkey::derive_program_address(&[seed_a.as_bytes(), seed_b.as_bytes()], &pid),
    };
    derived.map(|(addr, bump)| (addr.to_bytes().to_vec(), bump))
}

/// The domain tag of the vault addressing an asset's custody account.
pub open spec fn vault_tag(token: MizumiStable) -> Seq<char> {
    match token {
        MizumiStable::USDC => "usdc-vault"@,
        MizumiStable::USDT => "usdt-vault"@,
    }
}

/// Address of a user's registry record: derived from the user-record tag
/// and the user's identity key.
pub fn user_address(owner: &str, program_id: &Vec<u8>) -> (r: Option<(Vec<u8>, u8)>)
    requires
        program_id@.len() == 32,
    ensures
        (match r {
            Some(p) => Some((p.0@, p.1)),
            None => None,
        }) == pda_of(seq!["user-account"@, owner@], program_id@),
        r matches Some(p) ==> p.0@.len() == 32,
{
    derive_pda("user-account", owner, None, program_id)
}

/// Address of a swap record: derived from the swap-record tag, the owning
/// user's identity key, and the admin-supplied swap identifier.
pub fn swap_address(owner: &str, swap_id: &str, program_id: &Vec<u8>) -> (r: Option<(Vec<u8>, u8)>)
    requires
        program_id@.len() == 32,
    ensures
        (match r {
            Some(p) => Some((p.0@, p.1)),
            None => None,
        }) == pda_of(seq!["swap-account"@, owner@, swap_id@], program_id@),
        r matches Some(p) ==> p.0@.len() == 32,
{
    derive_pda("swap-account", owner, Some(swap_id), program_id)
}

/// Address of an asset's custody vault: derived from that asset's vault tag
/// and the asset mint's identity key. The same address is the vault's own
/// signing authority, so the settlement logic can rederive it from public
/// data alone.
pub fn vault_address(
    token: MizumiStable,
    mint: &str,
    program_id: &Vec<u8>,
) -> (r: Option<(Vec<u8>, u8)>)
    requires
        program_id@.len() == 32,
    ensures
        (match r {
            Some(p) => Some((p.0@, p.1)),
            None => None,
        }) == pda_of(seq![vault_tag(token), mint@], program_id@),
        r matches Some(p) ==> p.0@.len() == 32,
{
    match token {
        MizumiStable::USDC => derive_pda("usdc-vault", mint, None, program_id),
        MizumiStable::USDT => derive_pda("usdt-vault", mint, None, program_id),
    }
}

} // verus!
