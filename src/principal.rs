use vstd::prelude::*;

verus! {

/// Length in bytes of a principal's identity.
pub const PRINCIPAL_LEN: usize = 32;

/// An opaque fixed-size identity: an owner, a provider, a requester or a
/// storage location.
pub type Principal = [u8; 32];

/// The all-zero identity, held by a record that was never initialised.
pub fn zero_principal() -> (r: Principal)
    ensures
        r@ == Seq::new(32, |i: int| 0u8),
{
    let r: Principal = [0u8; 32];
    assert(r@ =~= Seq::new(32, |i: int| 0u8));
    r
}

/// Compares two identities byte by byte.
pub fn principal_eq(a: &Principal, b: &Principal) -> (r: bool)
    ensures
        r == (a@ == b@),
{
    let mut i: usize = 0;
    while i < PRINCIPAL_LEN
        invariant
            0 <= i <= 32,
            a@.len() == 32,
            b@.len() == 32,
            forall|j: int| 0 <= j < i ==> a@[j] == b@[j],
        decreases 32 - i,
    {
        if a[i] != b[i] {
            return false;
        }
        i = i + 1;
    }
    assert(a@ =~= b@);
    true
}

/// Reads an identity from 32 bytes of `buf` starting at `at`.
pub fn read_principal(buf: &[u8], at: usize) -> (r: Principal)
    requires
        at + 32 <= buf@.len(),
    ensures
        r@ == buf@.subrange(at as int, at + 32),
{
    let n: usize = buf.len();
    let mut r: Principal = [0u8; 32];
    let mut i: usize = 0;
    while i < PRINCIPAL_LEN
        invariant
            0 <= i <= 32,
            at + 32 <= buf@.len(),
            n == buf@.len(),
            r@.len() == 32,
            forall|j: int| 0 <= j < i ==> r@[j] == buf@[at + j],
        decreases 32 - i,
    {
        r[i] = buf[at + i];
        i = i + 1;
    }
    assert(r@ =~= buf@.subrange(at as int, at + 32));
    r
}

} // verus!
