use vstd::prelude::*;

use crate::principal::{principal_eq, Principal};

verus! {

/// The address and bump byte that `try_find_program_address` gives for the
/// seeds `[namespace, owner]` under the program `program`, or `None` where no
/// bump yields an off-curve address or a seed is too long.
pub uninterp spec fn program_address(namespace: Seq<u8>, owner: Seq<u8>, program: Seq<u8>) -> Option<(Seq<u8>, u8)>;

/// Relies on solana_program's `Pubkey::try_find_program_address`: a
/// deterministic search over bump bytes from 255 down, hashing the seeds
/// `[namespace, owner, bump]` with the program identity; it returns `None`
/// when a seed exceeds 32 bytes.
#[verifier::external_body]
fn find_program_address(namespace: &[u8], owner: &Principal, program_id: &Principal) -> (r: Option<(Principal, u8)>)
    ensures
        r matches Some((a, b)) ==> program_address(namespace@, owner@, program_id@) == Some((a@, b)),
        r is None ==> program_address(namespace@, owner@, program_id@) is None,
        namespace@.len() > 32 ==> r is None,
{
    let program = solana_program::pubkey::Pubkey::new_from_array(*program_id);
    match solana_program::pubkey::Pubkey::try_find_program_address(&[namespace, owner], &program) {
        Some((key, bump)) => Some((key.to_bytes(), bump)),
        None => None,
    }
}

/// The namespace label of storage records: the bytes of `"Storage"`.
pub open spec fn storage_namespace() -> Seq<u8> {
    seq![83u8, 116u8, 111u8, 114u8, 97u8, 103u8, 101u8]
}

/// Executable form of `storage_namespace`.
pub fn storage_namespace_bytes() -> (r: Vec<u8>)
    ensures
        r@ == storage_namespace(),
{
    let r: Vec<u8> = vec![83u8, 116u8, 111u8, 114u8, 97u8, 103u8, 101u8];
    assert(r@ =~= storage_namespace());
    r
}

/// Whether `candidate` is the address derived from `(namespace, owner)`.
pub open spec fn address_matches(candidate: Seq<u8>, namespace: Seq<u8>, owner: Seq<u8>, program: Seq<u8>) -> bool {
    match program_address(namespace, owner, program) {
        Some((a, _)) => a == candidate,
        None => false,
    }
}

/// Derives the address of the record that `owner` keeps in `namespace`,
/// together with its bump byte.
pub fn derive_address(namespace: &[u8], owner: &Principal, program_id: &Principal) -> (r: Option<(Principal, u8)>)
    ensures
        match r {
            Some((a, b)) => program_address(namespace@, owner@, program_id@) == Some((a@, b)),
            None => program_address(namespace@, owner@, program_id@) is None,
        },
        namespace@.len() > 32 ==> r is None,
{
    find_program_address(namespace, owner, program_id)
}

/// Recomputes the derivation and tells whether `candidate` is its address.
pub fn verify_address(candidate: &Principal, namespace: &[u8], owner: &Principal, program_id: &Principal) -> (r: bool)
    ensures
        r == address_matches(candidate@, namespace@, owner@, program_id@),
{
    match derive_address(namespace, owner, program_id) {
        Some((a, _)) => principal_eq(&a, candidate),
        None => false,
    }
}

/// The address part of a successful derivation.
pub open spec fn derived_key(namespace: Seq<u8>, owner: Seq<u8>, program: Seq<u8>) -> Seq<u8> {
    match program_address(namespace, owner, program) {
        Some((a, _)) => a,
        None => Seq::empty(),
    }
}

/// A derived address verifies against the namespace and owner it came from;
/// against another owner it verifies only where that owner derives the very
/// same address.
pub proof fn lemma_derived_address_verifies(namespace: Seq<u8>, owner: Seq<u8>, other: Seq<u8>, program: Seq<u8>)
    requires
        program_address(namespace, owner, program) is Some,
    ensures
        address_matches(derived_key(namespace, owner, program), namespace, owner, program),
        address_matches(derived_key(namespace, owner, program), namespace, other, program) <==> (
            program_address(namespace, other, program) is Some
            && derived_key(namespace, other, program) == derived_key(namespace, owner, program)),
{
}

} // verus!
