//! AES-256-GCM encryption with scrypt key derivation.
//!
//! Envelope layout (byte-compatible with earlier releases):
//!
//! ```text
//! [salt(32B)][nonce(12B)][ciphertext + 16B GCM tag]
//! ```
//!
//! The key is scrypt(N = 2^15, r = 8, p = 1) of the passphrase's UTF-8
//! bytes and the salt, 32 bytes long; salt and nonce are fresh random bytes
//! for every encryption.
use vstd::prelude::*;
use vstd::string::StringSliceAdditionalSpecFns;

use aes_gcm::aead::Aead;
use aes_gcm::aead::KeyInit;
use rand::RngCore;

verus! {

pub const SALT_SIZE: usize = 32;

pub const NONCE_SIZE: usize = 12;

pub const KEY_SIZE: usize = 32;

pub const GCM_TAG_SIZE: usize = 16;

/// log2 of the scrypt cost parameter N (N = 32768).
pub const SCRYPT_N_LOG: u8 = 15;

pub const SCRYPT_R: u32 = 8;

pub const SCRYPT_P: u32 = 1;

/// Longest plaintext AES-GCM accepts, in bytes.
pub const GCM_MAX_PLAINTEXT: u64 = 0xf_ffff_ffe0;

/// Why encryption or decryption failed.
#[derive(Debug, Clone, Copy, PartialEq, Eq)]
pub enum CryptoError {
    /// Shorter than salt + nonce + tag.
    CiphertextTooShort,
    /// The operating system's random source failed.
    RandomSource,
    /// The plaintext is longer than AES-GCM accepts.
    EncryptionFailed,
    /// Authentication failed: wrong passphrase, or damaged data.
    DecryptionFailed,
}

/// scrypt's output (`scrypt::scrypt`) for a password, a salt, the cost
/// parameters and an output length.
pub uninterp spec fn spec_scrypt(password: Seq<u8>, salt: Seq<u8>, log_n: u8, r: u32, p: u32, len: nat) -> Seq<u8>;

/// AES-256-GCM encryption (`Aead::encrypt`, empty associated data): the
/// ciphertext followed by the 16-byte tag.
pub uninterp spec fn spec_gcm_seal(key: Seq<u8>, nonce: Seq<u8>, plaintext: Seq<u8>) -> Seq<u8>;

/// AES-256-GCM decryption (`Aead::decrypt`, empty associated data): the
/// plaintext, or `None` when authentication fails.
pub uninterp spec fn spec_gcm_open(key: Seq<u8>, nonce: Seq<u8>, ciphertext: Seq<u8>) -> Option<Seq<u8>>;

/// The conditions under which `scrypt::Params::new` accepts its arguments.
pub open spec fn scrypt_params_ok(log_n: u8, r: u32, p: u32) -> bool {
    &&& r > 0
    &&& p > 0
    &&& (log_n as nat) < usize::BITS
    &&& (r as nat) * 128 * vstd::arithmetic::power2::pow2(log_n as nat) <= usize::MAX
    &&& (r as nat) * 128 * (p as nat) <= usize::MAX
    &&& (r as nat) * (p as nat) < 0x4000_0000
}

struct KdfFailure;

struct AeadFailure;

struct RandomFailure;

/// `scrypt::Params::new(log_n, r, p)` followed by `scrypt::scrypt` into a
/// `len`-byte buffer. `Params::new` accepts the parameters under
/// `scrypt_params_ok`; `scrypt` accepts an output length that is non-zero
/// and at most (2^32 - 1) * 32, and the derived key is then a function of
/// the inputs. `requires` keeps `r * p` within `u32`, as `Params::new`
/// multiplies them.
#[verifier::external_body]
fn scrypt_derive(password: &[u8], salt: &[u8], log_n: u8, block: u32, par: u32, len: usize) -> (res: Result<Vec<u8>, KdfFailure>)
    requires
        (block as nat) * (par as nat) <= u32::MAX,
    ensures
        res is Ok <==> (scrypt_params_ok(log_n, block, par) && len > 0 && len / 32 <= 0xffff_ffff),
        res matches Ok(k) ==> k@ == spec_scrypt(password@, salt@, log_n, block, par, len as nat) && k@.len() == len,
{
    let params = scrypt::Params::new(log_n, block, par).map_err(|_| KdfFailure)?;
    let mut out = vec![0u8; len];
    scrypt::scrypt(password, salt, &params, &mut out).map_err(|_| KdfFailure)?;
    Ok(out)
}

/// `Aes256Gcm::new_from_slice(key)` then `Aead::encrypt(nonce, plaintext)`.
/// It fails only when the plaintext exceeds `GCM_MAX_PLAINTEXT`; the result is the ciphertext (as long as the
/// plaintext) followed by the 16-byte tag.
#[verifier::external_body]
fn gcm_seal(key: &[u8], nonce: &[u8], plaintext: &[u8]) -> (res: Result<Vec<u8>, AeadFailure>)
    requires
        key@.len() == KEY_SIZE,
        nonce@.len() == NONCE_SIZE,
    ensures
        res is Ok <==> plaintext@.len() <= GCM_MAX_PLAINTEXT,
        res matches Ok(c) ==> c@ == spec_gcm_seal(key@, nonce@, plaintext@) && c@.len() == plaintext@.len() + GCM_TAG_SIZE,
{
    let cipher = aes_gcm::Aes256Gcm::new_from_slice(key).map_err(|_| AeadFailure)?;
    let nonce = aes_gcm::Nonce::try_from(nonce).map_err(|_| AeadFailure)?;
    cipher.encrypt(&nonce, plaintext).map_err(|_| AeadFailure)
}

/// `Aes256Gcm::new_from_slice(key)` then `Aead::decrypt(nonce, ciphertext)`.
/// Input shorter than the tag is rejected; and, AES-GCM being an AEAD, the
/// encryption of a plaintext under the same key and nonce decrypts back to
/// that plaintext.
#[verifier::external_body]
fn gcm_open(key: &[u8], nonce: &[u8], ciphertext: &[u8]) -> (res: Result<Vec<u8>, AeadFailure>)
    requires
        key@.len() == KEY_SIZE,
        nonce@.len() == NONCE_SIZE,
    ensures
        match res {
            Ok(pt) => spec_gcm_open(key@, nonce@, ciphertext@) == Some(pt@),
            Err(_) => spec_gcm_open(key@, nonce@, ciphertext@) is None,
        },
        ciphertext@.len() < GCM_TAG_SIZE ==> res is Err,
        res is Err ==> forall|pt: Seq<u8>|
            pt.len() <= GCM_MAX_PLAINTEXT ==> #[trigger] spec_gcm_seal(key@, nonce@, pt) != ciphertext@,
        res matches Ok(q) ==> forall|pt: Seq<u8>|
            pt.len() <= GCM_MAX_PLAINTEXT && #[trigger] spec_gcm_seal(key@, nonce@, pt) == ciphertext@ ==> q@ == pt,
{
    let cipher = aes_gcm::Aes256Gcm::new_from_slice(key).map_err(|_| AeadFailure)?;
    let nonce = aes_gcm::Nonce::try_from(nonce).map_err(|_| AeadFailure)?;
    cipher.decrypt(&nonce, ciphertext).map_err(|_| AeadFailure)
}

/// `len` bytes from the operating system's random source
/// (`OsRng::try_fill_bytes`). Nothing is promised of their values.
#[verifier::external_body]
fn random_bytes(len: usize) -> (res: Result<Vec<u8>, RandomFailure>)
    ensures
        res matches Ok(v) ==> v@.len() == len,
{
    let mut buf = vec![0u8; len];
    match rand::rngs::OsRng.try_fill_bytes(&mut buf) {
        Ok(()) => Ok(buf),
        Err(_) => Err(RandomFailure),
    }
}

/// The 32-byte key derived from a passphrase and a salt.
pub open spec fn spec_derive_key(passphrase: Seq<u8>, salt: Seq<u8>) -> Seq<u8> {
    spec_scrypt(passphrase, salt, SCRYPT_N_LOG, SCRYPT_R, SCRYPT_P, KEY_SIZE as nat)
}

/// The envelope `encrypt` produces for given salt and nonce.
pub open spec fn envelope(passphrase: Seq<u8>, salt: Seq<u8>, nonce: Seq<u8>, data: Seq<u8>) -> Seq<u8> {
    salt + nonce + spec_gcm_seal(spec_derive_key(passphrase, salt), nonce, data)
}

/// Derive a 32-byte AES key from a passphrase and salt using scrypt.
fn derive_key(passphrase: &str, salt: &[u8]) -> (k: Vec<u8>)
    ensures
        k@ == spec_derive_key(passphrase.spec_bytes(), salt@),
        k@.len() == KEY_SIZE,
{
    proof {
        vstd::arithmetic::power2::lemma2_to64();
        assert(usize::BITS >= 32);
        assert(usize::MAX >= 0xffff_ffff);
    }
    match scrypt_derive(passphrase.as_bytes(), salt, SCRYPT_N_LOG, SCRYPT_R, SCRYPT_P, KEY_SIZE) {
        Ok(k) => k,
        Err(_) => {
            proof {
                assert(false);
            }
            Vec::new()
        },
    }
}

/// The envelope of `data` for a given salt and nonce: the salt, the nonce,
/// then the AES-256-GCM sealing of `data` under the key derived from the
/// passphrase and that salt. Fails only when `data` is longer than
/// AES-GCM accepts.
pub fn seal_envelope(data: &[u8], passphrase: &str, salt: &[u8], nonce: &[u8]) -> (r: Result<Vec<u8>, CryptoError>)
    requires
        salt@.len() == SALT_SIZE,
        nonce@.len() == NONCE_SIZE,
    ensures
        r is Ok <==> data@.len() <= GCM_MAX_PLAINTEXT,
        r matches Ok(o) ==> o@ == envelope(passphrase.spec_bytes(), salt@, nonce@, data@)
            && o@.len() == SALT_SIZE + NONCE_SIZE + data@.len() + GCM_TAG_SIZE,
        r matches Err(e) ==> e == CryptoError::EncryptionFailed,
{
    let key = derive_key(passphrase, salt);
    let mut ciphertext = match gcm_seal(key.as_slice(), nonce, data) {
        Ok(c) => c,
        Err(_) => return Err(CryptoError::EncryptionFailed),
    };
    let ghost c = ciphertext@;
    let mut out: Vec<u8> = Vec::new();
    let mut i: usize = 0;
    while i < salt.len()
        invariant
            i <= salt@.len(),
            out@ == salt@.take(i as int),
        decreases salt.len() - i,
    {
        out.push(salt[i]);
        proof {
            assert(salt@.take(i + 1) =~= salt@.take(i as int).push(salt@[i as int]));
        }
        i += 1;
    }
    let mut j: usize = 0;
    while j < nonce.len()
        invariant
            salt@.len() == SALT_SIZE,
            j <= nonce@.len(),
            out@ == salt@ + nonce@.take(j as int),
        decreases nonce.len() - j,
    {
        out.push(nonce[j]);
        proof {
            assert(nonce@.take(j + 1) =~= nonce@.take(j as int).push(nonce@[j as int]));
        }
        j += 1;
    }
    proof {
        assert(salt@.take(SALT_SIZE as int) =~= salt@);
        assert(nonce@.take(NONCE_SIZE as int) =~= nonce@);
    }
    out.append(&mut ciphertext);
    proof {
        assert(out@ =~= envelope(passphrase.spec_bytes(), salt@, nonce@, data@));
    }
    Ok(out)
}

/// Encrypt `data` with a passphrase-derived key.
///
/// Layout of the returned bytes: `[salt(32)][nonce(12)][ciphertext+tag]`,
/// with a fresh random salt and nonce. Fails only when the random source
/// does, or when `data` is longer than AES-GCM accepts.
pub fn encrypt(data: &[u8], passphrase: &str) -> (r: Result<Vec<u8>, CryptoError>)
    ensures
        match r {
            Ok(out) => exists|salt: Seq<u8>, nonce: Seq<u8>|
                salt.len() == SALT_SIZE && nonce.len() == NONCE_SIZE && out@ == envelope(
                    passphrase.spec_bytes(),
                    salt,
                    nonce,
                    data@,
                ),
            Err(CryptoError::EncryptionFailed) => data@.len() > GCM_MAX_PLAINTEXT,
            Err(CryptoError::RandomSource) => true,
            Err(_) => false,
        },
        r is Ok ==> data@.len() <= GCM_MAX_PLAINTEXT,
        data@.len() <= GCM_MAX_PLAINTEXT ==> r is Ok || r matches Err(CryptoError::RandomSource),
        r matches Ok(out) ==> out@.len() == SALT_SIZE + NONCE_SIZE + data@.len() + GCM_TAG_SIZE,
{
    let salt = match random_bytes(SALT_SIZE) {
        Ok(s) => s,
        Err(_) => return Err(CryptoError::RandomSource),
    };
    let nonce = match random_bytes(NONCE_SIZE) {
        Ok(n) => n,
        Err(_) => return Err(CryptoError::RandomSource),
    };
    seal_envelope(data, passphrase, salt.as_slice(), nonce.as_slice())
}

/// What `decrypt` gives for `data` under a passphrase of bytes `pass`:
/// too-short input is refused, otherwise the envelope's ciphertext is
/// opened with the key derived from its salt.
pub open spec fn spec_decrypt(pass: Seq<u8>, data: Seq<u8>) -> Result<Seq<u8>, CryptoError> {
    if data.len() < SALT_SIZE + NONCE_SIZE + GCM_TAG_SIZE {
        Err(CryptoError::CiphertextTooShort)
    } else {
        match spec_gcm_open(
            spec_derive_key(pass, data.take(SALT_SIZE as int)),
            data.subrange(SALT_SIZE as int, (SALT_SIZE + NONCE_SIZE) as int),
            data.skip((SALT_SIZE + NONCE_SIZE) as int),
        ) {
            Some(p) => Ok(p),
            None => Err(CryptoError::DecryptionFailed),
        }
    }
}

/// Decrypt bytes previously produced by [`encrypt`].
///
/// Input shorter than salt + nonce + tag is rejected outright; otherwise the
/// key is derived from the stored salt and the stored nonce and ciphertext
/// are authenticated and decrypted. In particular an envelope built from
/// any salt, nonce and plaintext under this passphrase, of the length that
/// `encrypt` gives it, decrypts back to the plaintext.
pub fn decrypt(data: &[u8], passphrase: &str) -> (r: Result<Vec<u8>, CryptoError>)
    ensures
        match spec_decrypt(passphrase.spec_bytes(), data@) {
            Ok(p) => r matches Ok(out) && out@ == p,
            Err(e) => r == Err::<Vec<u8>, CryptoError>(e),
        },
        data@.len() < SALT_SIZE + NONCE_SIZE + GCM_TAG_SIZE ==> r matches Err(
            CryptoError::CiphertextTooShort,
        ),
        data@.len() >= SALT_SIZE + NONCE_SIZE + GCM_TAG_SIZE ==> match spec_gcm_open(
            spec_derive_key(passphrase.spec_bytes(), data@.take(SALT_SIZE as int)),
            data@.subrange(SALT_SIZE as int, (SALT_SIZE + NONCE_SIZE) as int),
            data@.skip((SALT_SIZE + NONCE_SIZE) as int),
        ) {
            Some(p) => r matches Ok(out) && out@ == p,
            None => r matches Err(CryptoError::DecryptionFailed),
        },
        forall|salt: Seq<u8>, nonce: Seq<u8>, plaintext: Seq<u8>|
            salt.len() == SALT_SIZE && nonce.len() == NONCE_SIZE && plaintext.len() <= GCM_MAX_PLAINTEXT
                && data@.len() >= SALT_SIZE + NONCE_SIZE + GCM_TAG_SIZE
                && data@ == #[trigger] envelope(passphrase.spec_bytes(), salt, nonce, plaintext)
                ==> (r matches Ok(out) && out@ == plaintext),
{
    let min_len = SALT_SIZE + NONCE_SIZE + GCM_TAG_SIZE;
    if data.len() < min_len {
        return Err(CryptoError::CiphertextTooShort);
    }
    let salt = &data[0..SALT_SIZE];
    let nonce = &data[SALT_SIZE..SALT_SIZE + NONCE_SIZE];
    let ciphertext = &data[SALT_SIZE + NONCE_SIZE..data.len()];
    let key = derive_key(passphrase, salt);
    let res = gcm_open(key.as_slice(), nonce, ciphertext);
    proof {
        assert(salt@ =~= data@.take(SALT_SIZE as int));
        assert(ciphertext@ =~= data@.skip((SALT_SIZE + NONCE_SIZE) as int));
        assert forall|s: Seq<u8>, n: Seq<u8>, p: Seq<u8>|
            s.len() == SALT_SIZE && n.len() == NONCE_SIZE && p.len() <= GCM_MAX_PLAINTEXT
                && data@ == #[trigger] envelope(passphrase.spec_bytes(), s, n, p)
                implies (res matches Ok(out) && out@ == p) by {
            let e = envelope(passphrase.spec_bytes(), s, n, p);
            assert(e.take(SALT_SIZE as int) =~= s);
            assert(e.subrange(SALT_SIZE as int, (SALT_SIZE + NONCE_SIZE) as int) =~= n);
            assert(e.skip((SALT_SIZE + NONCE_SIZE) as int) =~= spec_gcm_seal(spec_derive_key(passphrase.spec_bytes(), s), n, p));
        }
    }
    match res {
        Ok(p) => Ok(p),
        Err(_) => Err(CryptoError::DecryptionFailed),
    }
}

} // verus!
