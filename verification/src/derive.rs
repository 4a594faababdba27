//! Deterministic address derivation.
//!
//! A holding account's spending authority is never a private key: it is an
//! address derived from fixed seed byte-strings plus a single "proof" byte
//! (the bump), reproducible by any caller holding the same seeds. The
//! derivation itself is performed by the ledger's address scheme; its result
//! is named by `derived_address` and every caller reasons through that name.

use vstd::prelude::*;
use crate::ident::Ident;

verus! {

/// What the ledger's address scheme returns for a list of seed byte-strings
/// and a program identity: a 32-byte address with no corresponding private
/// key and the proof byte that validates it, or nothing when no proof byte
/// yields a valid address.
pub uninterp spec fn derived_address(seeds: Seq<Seq<u8>>, program_id: Seq<u8>) -> Option<(Seq<u8>, u8)>;

/// Relies on `Pubkey::try_find_program_address` (solana-address, via
/// anchor-lang): a pure SHA-256-based search over proof bytes, a function of
/// the seeds and the program id alone; `None` only when no proof byte yields
/// a valid off-curve address or a seed exceeds the scheme's limits.
#[verifier::external_body]
fn find_derived_address(seeds: &Vec<Vec<u8>>, program_id: &Ident) -> (r: Option<(Ident, u8)>)
    ensures
        match r {
            Some(p) => derived_address(seeds.deep_view(), program_id@) == Some((p.0@, p.1)),
            None => derived_address(seeds.deep_view(), program_id@) is None,
        },
{
    let slices: Vec<&[u8]> = seeds.iter().map(|s| s.as_slice()).collect();
    let pid = anchor_lang::prelude::Pubkey::new_from_array(program_id.as_array());
    match anchor_lang::prelude::Pubkey::try_find_program_address(&slices, &pid) {
        Some((addr, bump)) => Some((Ident::new(addr.to_bytes()), bump)),
        None => None,
    }
}

/// The seed tag of escrow holding vaults, the bytes of "escrow".
pub open spec fn escrow_tag() -> Seq<u8> {
    seq![101u8, 115u8, 99u8, 114u8, 111u8, 119u8]
}

/// The seed tag of personal-vault state records, the bytes of "vault_state".
pub open spec fn vault_state_tag() -> Seq<u8> {
    seq![118u8, 97u8, 117u8, 108u8, 116u8, 95u8, 115u8, 116u8, 97u8, 116u8, 101u8]
}

/// The seed tag of personal holding accounts, the bytes of "vault".
pub open spec fn vault_tag() -> Seq<u8> {
    seq![118u8, 97u8, 117u8, 108u8, 116u8]
}

/// The seed tag of staking user records, the bytes of "user".
pub open spec fn user_tag() -> Seq<u8> {
    seq![117u8, 115u8, 101u8, 114u8]
}

/// The seeds of the holding vault of offer `(maker, offer_id)`.
pub open spec fn escrow_seeds(maker: Seq<u8>, offer_id: u8) -> Seq<Seq<u8>> {
    seq![escrow_tag(), maker, seq![offer_id]]
}

/// The derivation of the holding vault of offer `(maker, offer_id)`.
pub open spec fn vault_derivation(program_id: Seq<u8>, maker: Seq<u8>, offer_id: u8) -> Option<
    (Seq<u8>, u8),
> {
    derived_address(escrow_seeds(maker, offer_id), program_id)
}

/// The derivation of `owner`'s personal-vault state record.
pub open spec fn vault_state_derivation(program_id: Seq<u8>, owner: Seq<u8>) -> Option<
    (Seq<u8>, u8),
> {
    derived_address(seq![vault_state_tag(), owner], program_id)
}

/// The derivation of the personal holding account paired with the state
/// record at `state_addr`.
pub open spec fn personal_vault_derivation(program_id: Seq<u8>, state_addr: Seq<u8>) -> Option<
    (Seq<u8>, u8),
> {
    derived_address(seq![vault_tag(), state_addr], program_id)
}

/// The derivation of `user`'s staking record.
pub open spec fn user_account_derivation(program_id: Seq<u8>, user: Seq<u8>) -> Option<
    (Seq<u8>, u8),
> {
    derived_address(seq![user_tag(), user], program_id)
}

fn escrow_tag_vec() -> (r: Vec<u8>)
    ensures
        r@ == escrow_tag(),
{
    let mut t: Vec<u8> = Vec::new();
    t.push(101);
    t.push(115);
    t.push(99);
    t.push(114);
    t.push(111);
    t.push(119);
    proof {
        assert(t@ =~= escrow_tag());
    }
    t
}

fn vault_state_tag_vec() -> (r: Vec<u8>)
    ensures
        r@ == vault_state_tag(),
{
    let mut t: Vec<u8> = Vec::new();
    t.push(118);
    t.push(97);
    t.push(117);
    t.push(108);
    t.push(116);
    t.push(95);
    t.push(115);
    t.push(116);
    t.push(97);
    t.push(116);
    t.push(101);
    proof {
        assert(t@ =~= vault_state_tag());
    }
    t
}

fn vault_tag_vec() -> (r: Vec<u8>)
    ensures
        r@ == vault_tag(),
{
    let mut t: Vec<u8> = Vec::new();
    t.push(118);
    t.push(97);
    t.push(117);
    t.push(108);
    t.push(116);
    proof {
        assert(t@ =~= vault_tag());
    }
    t
}

fn user_tag_vec() -> (r: Vec<u8>)
    ensures
        r@ == user_tag(),
{
    let mut t: Vec<u8> = Vec::new();
    t.push(117);
    t.push(115);
    t.push(101);
    t.push(114);
    proof {
        assert(t@ =~= user_tag());
    }
    t
}

/// Re-derives the holding-vault address and proof byte of offer
/// `(maker, offer_id)`. Pure: any caller with the same inputs gets the same
/// answer, which is what lets Take and Refund locate the vault without
/// storing its address.
pub fn derive_escrow_vault(program_id: &Ident, maker: &Ident, offer_id: u8) -> (r: Option<
    (Ident, u8),
>)
    ensures
        match r {
            Some(p) => vault_derivation(program_id@, maker@, offer_id) == Some((p.0@, p.1)),
            None => vault_derivation(program_id@, maker@, offer_id) is None,
        },
{
    let mut seeds: Vec<Vec<u8>> = Vec::new();
    seeds.push(escrow_tag_vec());
    seeds.push(maker.to_vec());
    let mut id_bytes: Vec<u8> = Vec::new();
    id_bytes.push(offer_id);
    proof {
        assert(id_bytes@ =~= seq![offer_id]);
    }
    seeds.push(id_bytes);
    proof {
        assert(seeds.deep_view() =~~= escrow_seeds(maker@, offer_id));
    }
    find_derived_address(&seeds, program_id)
}

/// Re-derives the address and proof byte of `owner`'s personal-vault state
/// record.
pub fn derive_vault_state(program_id: &Ident, owner: &Ident) -> (r: Option<(Ident, u8)>)
    ensures
        match r {
            Some(p) => vault_state_derivation(program_id@, owner@) == Some((p.0@, p.1)),
            None => vault_state_derivation(program_id@, owner@) is None,
        },
{
    let mut seeds: Vec<Vec<u8>> = Vec::new();
    seeds.push(vault_state_tag_vec());
    seeds.push(owner.to_vec());
    proof {
        assert(seeds.deep_view() =~~= seq![vault_state_tag(), owner@]);
    }
    find_derived_address(&seeds, program_id)
}

/// Re-derives the address and proof byte of the personal holding account
/// paired with the state record at `state_addr`.
pub fn derive_personal_vault(program_id: &Ident, state_addr: &Ident) -> (r: Option<(Ident, u8)>)
    ensures
        match r {
            Some(p) => personal_vault_derivation(program_id@, state_addr@) == Some((p.0@, p.1)),
            None => personal_vault_derivation(program_id@, state_addr@) is None,
        },
{
    let mut seeds: Vec<Vec<u8>> = Vec::new();
    seeds.push(vault_tag_vec());
    seeds.push(state_addr.to_vec());
    proof {
        assert(seeds.deep_view() =~~= seq![vault_tag(), state_addr@]);
    }
    find_derived_address(&seeds, program_id)
}

/// Re-derives the address and proof byte of `user`'s staking record.
pub fn derive_user_account(program_id: &Ident, user: &Ident) -> (r: Option<(Ident, u8)>)
    ensures
        match r {
            Some(p) => user_account_derivation(program_id@, user@) == Some((p.0@, p.1)),
            None => user_account_derivation(program_id@, user@) is None,
        },
{
    let mut seeds: Vec<Vec<u8>> = Vec::new();
    seeds.push(user_tag_vec());
    seeds.push(user.to_vec());
    proof {
        assert(seeds.deep_view() =~~= seq![user_tag(), user@]);
    }
    find_derived_address(&seeds, program_id)
}

} // verus!
