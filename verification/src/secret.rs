//! Symmetric secret keys for the message codec.
//!
//! A key is 16, 24 or 32 bytes, selecting AES-128, AES-192 or AES-256. The
//! byte sequence alone identifies a key: the length determines the variant.

use vstd::prelude::*;

use crate::wire::bytes_eq;

verus! {

/// The key used while attempting to encrypt/decrypt a message.
#[derive(Clone, Copy, Debug, Eq, Hash)]
pub enum SecretKey {
    /// Secret key for AES-128.
    Aes128([u8; 16]),
    /// Secret key for AES-192.
    Aes192([u8; 24]),
    /// Secret key for AES-256.
    Aes256([u8; 32]),
}

impl View for SecretKey {
    type V = Seq<u8>;

    open spec fn view(&self) -> Seq<u8> {
        match *self {
            SecretKey::Aes128(k) => k@,
            SecretKey::Aes192(k) => k@,
            SecretKey::Aes256(k) => k@,
        }
    }
}

/// The lengths a secret key may have.
pub open spec fn valid_key_len(n: nat) -> bool {
    n == 16 || n == 24 || n == 32
}

impl PartialEq for SecretKey {
    fn eq(&self, other: &Self) -> (r: bool) {
        bytes_eq(self.as_ref(), other.as_ref())
    }
}

impl vstd::std_specs::cmp::PartialEqSpecImpl for SecretKey {
    open spec fn obeys_eq_spec() -> bool {
        true
    }

    open spec fn eq_spec(&self, other: &Self) -> bool {
        self@ == other@
    }
}

/// The error returned when a byte slice of an unsupported length is offered
/// as a secret key.
#[derive(Clone, Copy, Debug, PartialEq, Eq, Structural)]
pub enum SecretKeyError {
    /// The offered slice had this length, which is not 16, 24 or 32.
    InvalidKeySize(usize),
}

impl SecretKey {
    /// The bytes of the key.
    pub fn as_ref(&self) -> (r: &[u8])
        ensures
            r@ == self@,
    {
        match self {
            SecretKey::Aes128(k) => k.as_slice(),
            SecretKey::Aes192(k) => k.as_slice(),
            SecretKey::Aes256(k) => k.as_slice(),
        }
    }

    /// The length of the key in bytes: 16, 24 or 32.
    pub fn len(&self) -> (r: usize)
        ensures
            r == self@.len(),
            valid_key_len(r as nat),
    {
        match self {
            SecretKey::Aes128(_) => 16,
            SecretKey::Aes192(_) => 24,
            SecretKey::Aes256(_) => 32,
        }
    }

    /// A key is never empty.
    pub fn is_empty(&self) -> (r: bool)
        ensures
            r == (self@.len() == 0),
            !r,
    {
        false
    }

    /// The bytes of the key, copied into a fresh vector.
    pub fn to_vec(&self) -> (r: Vec<u8>)
        ensures
            r@ == self@,
    {
        vstd::slice::slice_to_vec(self.as_ref())
    }

    /// Builds the key whose bytes are `k`. Succeeds exactly when `k` is
    /// 16, 24 or 32 bytes long; otherwise reports the offending length.
    pub fn try_from(k: &[u8]) -> (r: Result<Self, SecretKeyError>)
        ensures
            r is Ok <==> valid_key_len(k@.len()),
            r matches Ok(key) ==> key@ == k@,
            r matches Err(e) ==> e == SecretKeyError::InvalidKeySize(k@.len() as usize),
    {
        let n = k.len();
        if n == 16 {
            let mut a: [u8; 16] = [0; 16];
            let mut i: usize = 0;
            while i < 16
                invariant
                    i <= 16,
                    k@.len() == 16,
                    forall|j: int| 0 <= j < i ==> a@[j] == k@[j],
                decreases 16 - i,
            {
                a[i] = k[i];
                i = i + 1;
            }
            assert(a@ =~= k@);
            Ok(SecretKey::Aes128(a))
        } else if n == 24 {
            let mut a: [u8; 24] = [0; 24];
            let mut i: usize = 0;
            while i < 24
                invariant
                    i <= 24,
                    k@.len() == 24,
                    forall|j: int| 0 <= j < i ==> a@[j] == k@[j],
                decreases 24 - i,
            {
                a[i] = k[i];
                i = i + 1;
            }
            assert(a@ =~= k@);
            Ok(SecretKey::Aes192(a))
        } else if n == 32 {
            let mut a: [u8; 32] = [0; 32];
            let mut i: usize = 0;
            while i < 32
                invariant
                    i <= 32,
                    k@.len() == 32,
                    forall|j: int| 0 <= j < i ==> a@[j] == k@[j],
                decreases 32 - i,
            {
                a[i] = k[i];
                i = i + 1;
            }
            assert(a@ =~= k@);
            Ok(SecretKey::Aes256(a))
        } else {
            Err(SecretKeyError::InvalidKeySize(n))
        }
    }
}

impl From<[u8; 16]> for SecretKey {
    fn from(k: [u8; 16]) -> (r: Self) {
        SecretKey::Aes128(k)
    }
}

impl vstd::std_specs::convert::FromSpecImpl<[u8; 16]> for SecretKey {
    open spec fn obeys_from_spec() -> bool {
        true
    }

    open spec fn from_spec(k: [u8; 16]) -> Self {
        SecretKey::Aes128(k)
    }
}

impl From<[u8; 24]> for SecretKey {
    fn from(k: [u8; 24]) -> (r: Self) {
        SecretKey::Aes192(k)
    }
}

impl vstd::std_specs::convert::FromSpecImpl<[u8; 24]> for SecretKey {
    open spec fn obeys_from_spec() -> bool {
        true
    }

    open spec fn from_spec(k: [u8; 24]) -> Self {
        SecretKey::Aes192(k)
    }
}

impl From<[u8; 32]> for SecretKey {
    fn from(k: [u8; 32]) -> (r: Self) {
        SecretKey::Aes256(k)
    }
}

impl vstd::std_specs::convert::FromSpecImpl<[u8; 32]> for SecretKey {
    open spec fn obeys_from_spec() -> bool {
        true
    }

    open spec fn from_spec(k: [u8; 32]) -> Self {
        SecretKey::Aes256(k)
    }
}

/// Error for the keyring.
#[derive(Clone, Copy, Debug, PartialEq, Eq, Structural, Hash)]
pub enum SecretKeyringError {
    /// Secret key is not in the keyring.
    SecretKeyNotFound,
    /// Removing the primary key is not allowed.
    RemovePrimaryKey,
}

/// Keys with equal bytes are the same key: the length picks the variant and
/// the bytes fill it.
pub proof fn lemma_key_view_injective(a: SecretKey, b: SecretKey)
    requires
        a@ == b@,
    ensures
        a == b,
{
    match a {
        SecretKey::Aes128(x) => match b {
            SecretKey::Aes128(y) => {
                vstd::array::axiom_array_ext_equal(x, y);
                assert(forall|i: int| 0 <= i < 16 ==> x[i] == y[i]);
                assert(x =~= y);
            },
            SecretKey::Aes192(_) => {
                assert(a@.len() == 16 && b@.len() == 24);
            },
            SecretKey::Aes256(_) => {
                assert(a@.len() == 16 && b@.len() == 32);
            },
        },
        SecretKey::Aes192(x) => match b {
            SecretKey::Aes128(_) => {
                assert(a@.len() == 24 && b@.len() == 16);
            },
            SecretKey::Aes192(y) => {
                vstd::array::axiom_array_ext_equal(x, y);
                assert(forall|i: int| 0 <= i < 24 ==> x[i] == y[i]);
                assert(x =~= y);
            },
            SecretKey::Aes256(_) => {
                assert(a@.len() == 24 && b@.len() == 32);
            },
        },
        SecretKey::Aes256(x) => match b {
            SecretKey::Aes128(_) => {
                assert(a@.len() == 32 && b@.len() == 16);
            },
            SecretKey::Aes192(_) => {
                assert(a@.len() == 32 && b@.len() == 24);
            },
            SecretKey::Aes256(y) => {
                vstd::array::axiom_array_ext_equal(x, y);
                assert(forall|i: int| 0 <= i < 32 ==> x[i] == y[i]);
                assert(x =~= y);
            },
        },
    }
}

} // verus!
