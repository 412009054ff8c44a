//! `pull`: check the encryption flag before downloading, fetch the layer,
//! decrypt it when needed, refuse an existing destination unless forced,
//! unpack, record.
use vstd::prelude::*;

use crate::cache::{Activity, ActivityType};
use crate::crypto::{decrypt, envelope, spec_decrypt, CryptoError, GCM_MAX_PLAINTEXT, GCM_TAG_SIZE, NONCE_SIZE, SALT_SIZE};
use crate::oci::PullResult;
use crate::text::push_str;
use vstd::utf8::encode_utf8;

verus! {

/// Why a pull stopped.
#[derive(Debug)]
pub enum PullError {
    /// The artifact is encrypted and no passphrase was given.
    PassphraseRequired,
    /// Decryption failed.
    Decrypt(CryptoError),
    /// The destination exists and `--force` was not given.
    DestinationExists { path: String },
}

impl PullError {
    /// The error's message.
    pub fn message(&self) -> (r: String)
        ensures
            match self {
                PullError::PassphraseRequired => r@ == "content is encrypted, provide a decryption passphrase via --passphrase"@,
                PullError::Decrypt(_) => r@ == "decryption failed: wrong passphrase?"@,
                PullError::DestinationExists { path } => r@ == "destination "@ + path@ + " already exists (use --force to overwrite)"@,
            },
    {
        let mut r = String::new();
        match self {
            PullError::PassphraseRequired => push_str(&mut r, "content is encrypted, provide a decryption passphrase via --passphrase"),
            PullError::Decrypt(_) => push_str(&mut r, "decryption failed: wrong passphrase?"),
            PullError::DestinationExists { path } => {
                push_str(&mut r, "destination ");
                push_str(&mut r, path.as_str());
                push_str(&mut r, " already exists (use --force to overwrite)");
            },
        }
        r
    }
}

/// The passphrase's text; none counts as empty.
pub open spec fn pass_text(p: Option<&str>) -> Seq<char> {
    match p {
        Some(s) => s@,
        None => Seq::empty(),
    }
}

/// A non-empty passphrase was given.
pub open spec fn has_passphrase(p: Option<&str>) -> bool {
    pass_text(p).len() > 0
}

/// Whether a passphrase was given (and is not empty).
pub fn passphrase_given(p: Option<&str>) -> (r: bool)
    ensures
        r == has_passphrase(p),
{
    match p {
        Some(s) => !s.is_empty(),
        None => false,
    }
}

/// The check made before any data is downloaded: an encrypted artifact
/// needs a passphrase. `Ok(true)` means a passphrase was given for a plain
/// artifact and is ignored (worth a warning).
pub fn check_passphrase(encrypted: bool, passphrase: Option<&str>) -> (r: Result<bool, PullError>)
    ensures
        encrypted && !has_passphrase(passphrase) ==> r matches Err(PullError::PassphraseRequired),
        !(encrypted && !has_passphrase(passphrase)) ==> r == Ok::<bool, PullError>(!encrypted && has_passphrase(passphrase)),
{
    let given = passphrase_given(passphrase);
    if encrypted && !given {
        Err(PullError::PassphraseRequired)
    } else {
        Ok(!encrypted && given)
    }
}

/// The archive bytes of a pulled layer: decrypted with the passphrase (none
/// counts as empty) when the layer is marked encrypted, as is otherwise.
pub fn pulled_payload(result: PullResult, passphrase: Option<&str>) -> (r: Result<Vec<u8>, PullError>)
    ensures
        !result.encrypted ==> (r matches Ok(d) && d@ == result.data@),
        result.encrypted ==> match spec_decrypt(encode_utf8(pass_text(passphrase)), result.data@) {
            Ok(p) => r matches Ok(d) && d@ == p,
            Err(e) => r matches Err(PullError::Decrypt(e2)) && e2 == e,
        },
        forall|salt: Seq<u8>, nonce: Seq<u8>, p: Seq<u8>|
            result.encrypted && salt.len() == SALT_SIZE && nonce.len() == NONCE_SIZE && p.len() <= GCM_MAX_PLAINTEXT
                && result.data@.len() == SALT_SIZE + NONCE_SIZE + p.len() + GCM_TAG_SIZE
                && result.data@ == #[trigger] envelope(encode_utf8(pass_text(passphrase)), salt, nonce, p)
                ==> (r matches Ok(d) && d@ == p),
{
    if !result.encrypted {
        return Ok(result.data);
    }
    let empty = String::new();
    let pass: &str = match passphrase {
        Some(p) => p,
        None => empty.as_str(),
    };
    match decrypt(result.data.as_slice(), pass) {
        Ok(d) => Ok(d),
        Err(e) => Err(PullError::Decrypt(e)),
    }
}

/// The destination may be written: it does not exist, or `--force` was
/// given.
pub fn check_destination(exists: bool, force: bool, local: &str) -> (r: Result<(), PullError>)
    ensures
        exists && !force ==> (r matches Err(PullError::DestinationExists { path }) && path@ == local@),
        !(exists && !force) ==> r is Ok,
{
    if exists && !force {
        Err(PullError::DestinationExists { path: String::from_str(local) })
    } else {
        Ok(())
    }
}

/// The history entry of a successful pull.
pub fn pull_activity(remote_ref: &str, local: &str, timestamp: String) -> (a: Activity)
    ensures
        a.kind == ActivityType::Pull,
        a.timestamp == timestamp,
        a.remote_ref@ == remote_ref@,
        a.local_path matches Some(l) && l@ == local@,
        a.labels@.len() == 0,
        a.success,
        a.error is None,
{
    Activity {
        kind: ActivityType::Pull,
        timestamp,
        remote_ref: String::from_str(remote_ref),
        local_path: Some(String::from_str(local)),
        labels: Vec::new(),
        success: true,
        error: None,
    }
}

} // verus!
