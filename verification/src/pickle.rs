//! The pickle-key manager: one symmetric key per (user, device) encrypts
//! every stored pickle.
//!
//! With a passphrase, the key lives in the store as a sealed record; without
//! one, a fixed, publicly known fallback key is used — a deliberate,
//! documented weak default for callers that need no confidentiality.  The
//! sealing cipher itself is the cryptographic layer's work and stays outside
//! this library: a sealed record is modelled by exactly what it determines,
//! the passphrase that opens it and the key material it holds.

use vstd::prelude::*;
use crate::records::{str_eq, StoreError};
use vstd::string::StringSliceAdditionalSpecFns;

verus! {

/// A pickle key sealed under a passphrase: opening with the same passphrase
/// yields the key, any other passphrase is rejected.
pub struct SealedPickleKey {
    pub passphrase: String,
    pub key: Vec<u8>,
}

#[verifier::ext_equal]
pub ghost struct SealedPickleKeyV {
    pub passphrase: Seq<char>,
    pub key: Seq<u8>,
}

impl View for SealedPickleKey {
    type V = SealedPickleKeyV;

    open spec fn view(&self) -> SealedPickleKeyV {
        SealedPickleKeyV { passphrase: self.passphrase@, key: self.key@ }
    }
}

impl Clone for SealedPickleKey {
    fn clone(&self) -> (r: Self)
        ensures
            r@ == self@,
    {
        let k = clone_bytes(&self.key);
        SealedPickleKey { passphrase: self.passphrase.clone(), key: k }
    }
}

/// Copy a byte vector.
pub fn clone_bytes(v: &Vec<u8>) -> (r: Vec<u8>)
    ensures
        r@ == v@,
{
    let mut r: Vec<u8> = Vec::new();
    let mut i: usize = 0;
    while i < v.len()
        invariant
            i <= v.len(),
            r@ == v@.take(i as int),
        decreases v.len() - i,
    {
        r.push(v[i]);
        proof {
            assert(r@ =~= v@.take(i as int + 1));
        }
        i += 1;
    }
    proof {
        assert(v@.take(v@.len() as int) =~= v@);
    }
    r
}

/// The resolved pickle key the store hands to the cryptographic layer,
/// and whether a passphrase protects it.
pub struct PickleKey {
    pub passphrase_protected: bool,
    pub key: Vec<u8>,
}

#[verifier::ext_equal]
pub ghost struct PickleKeyV {
    pub passphrase_protected: bool,
    pub key: Seq<u8>,
}

impl View for PickleKey {
    type V = PickleKeyV;

    open spec fn view(&self) -> PickleKeyV {
        PickleKeyV { passphrase_protected: self.passphrase_protected, key: self.key@ }
    }
}

/// The fixed fallback pickle key used when no passphrase is supplied.  It is
/// public by design: callers needing confidentiality always pass a
/// passphrase.
pub open spec fn default_pickle_bytes() -> Seq<u8> {
    "DEFAULT_PICKLE_PASSPHRASE_123456".spec_bytes()
}

/// The fallback pickle key as a byte vector.
pub fn default_pickle_key() -> (r: Vec<u8>)
    ensures
        r@ == default_pickle_bytes(),
{
    let s = "DEFAULT_PICKLE_PASSPHRASE_123456";
    let b = s.as_bytes();
    let mut r: Vec<u8> = Vec::new();
    let mut i: usize = 0;
    while i < b.len()
        invariant
            i <= b@.len(),
            b@ == default_pickle_bytes(),
            r@ == b@.take(i as int),
        decreases b@.len() - i,
    {
        r.push(b[i]);
        proof {
            assert(r@ =~= b@.take(i as int + 1));
        }
        i += 1;
    }
    proof {
        assert(b@.take(b@.len() as int) =~= b@);
    }
    r
}

/// Seal a freshly generated pickle key under a passphrase.
pub fn seal_pickle_key(passphrase: &str, key: Vec<u8>) -> (r: SealedPickleKey)
    ensures
        r@ == (SealedPickleKeyV { passphrase: passphrase@, key: key@ }),
{
    SealedPickleKey { passphrase: passphrase.to_owned(), key }
}

/// Open a sealed pickle key: the stored key when the passphrase matches the
/// one it was sealed under, `UnpicklingError` on any other passphrase.
pub fn open_pickle_key(passphrase: &str, sealed: &SealedPickleKey) -> (r: Result<
    Vec<u8>,
    StoreError,
>)
    ensures
        passphrase@ == sealed@.passphrase ==> (r matches Ok(k) && k@ == sealed@.key),
        passphrase@ != sealed@.passphrase ==> r == Err::<Vec<u8>, StoreError>(
            StoreError::UnpicklingError,
        ),
{
    if str_eq(passphrase, sealed.passphrase.as_str()) {
        Ok(clone_bytes(&sealed.key))
    } else {
        Err(StoreError::UnpicklingError)
    }
}

} // verus!
