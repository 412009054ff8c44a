//! `push`: pack, optionally encrypt, upload, optionally verify, record.
use vstd::prelude::*;

use crate::app::pull::{has_passphrase, pass_text, passphrase_given};
use crate::cache::{Activity, ActivityType};
use crate::crypto::{encrypt, envelope, CryptoError, GCM_MAX_PLAINTEXT, GCM_TAG_SIZE, NONCE_SIZE, SALT_SIZE};
use crate::oci::PullResult;
use crate::strmap::{text_map, StrMap};
use crate::text::{chars_of, find_char, find_in, lemma_find_in_agrees, string_of, push_str};
use vstd::utf8::encode_utf8;

verus! {

/// Why a `key=value` label flag was rejected.
#[derive(Debug, Clone)]
pub enum LabelError {
    /// Nothing before the `=`.
    EmptyKey { label: String },
    /// No `=` at all.
    MissingEquals { label: String },
}

/// The kinds of `LabelError`.
#[derive(PartialEq, Eq)]
pub enum LabelProblem {
    EmptyKey,
    MissingEquals,
}

impl LabelError {
    pub open spec fn problem(self) -> LabelProblem {
        match self {
            LabelError::EmptyKey { .. } => LabelProblem::EmptyKey,
            LabelError::MissingEquals { .. } => LabelProblem::MissingEquals,
        }
    }

    /// The offending flag.
    pub open spec fn label(self) -> Seq<char> {
        match self {
            LabelError::EmptyKey { label } => label@,
            LabelError::MissingEquals { label } => label@,
        }
    }
}

/// `str::split_once('=')`: key before the first `=`, value after it.
pub open spec fn split_label(l: Seq<char>) -> Option<(Seq<char>, Seq<char>)> {
    match find_char(l, '=') {
        Some(i) => Some((l.take(i), l.skip(i + 1))),
        None => None,
    }
}

/// What `parse_labels` makes of the flags: each is `KEY=VALUE` with a
/// non-empty key (the value may be empty); a later flag for the same key
/// wins; the first malformed flag is reported.
pub open spec fn spec_parse_labels(ls: Seq<Seq<char>>) -> Result<Map<Seq<char>, Seq<char>>, (LabelProblem, Seq<char>)>
    decreases ls.len(),
{
    if ls.len() == 0 {
        Ok(Map::empty())
    } else {
        match spec_parse_labels(ls.drop_last()) {
            Err(e) => Err(e),
            Ok(m) => match split_label(ls.last()) {
                None => Err((LabelProblem::MissingEquals, ls.last())),
                Some((k, v)) => if k.len() == 0 {
                    Err((LabelProblem::EmptyKey, ls.last()))
                } else {
                    Ok(m.insert(k, v))
                },
            },
        }
    }
}

/// The flags as character sequences.
pub open spec fn label_texts(labels: Seq<String>) -> Seq<Seq<char>> {
    labels.map_values(|l: String| l@)
}

/// Parse `key=value` label flags; entries without `=` or with an empty key
/// are rejected.
pub fn parse_labels(labels: &Vec<String>) -> (r: Result<StrMap<String>, LabelError>)
    ensures
        match spec_parse_labels(label_texts(labels@)) {
            Ok(m) => r matches Ok(sm) && text_map(sm.as_map()) == m,
            Err((p, l)) => r matches Err(e) && e.problem() == p && e.label() == l,
        },
{
    let mut map: StrMap<String> = StrMap::new();
    let mut i: usize = 0;
    proof {
        assert(label_texts(labels@).take(0) =~= Seq::<Seq<char>>::empty());
        assert(text_map(map.as_map()) =~= Map::<Seq<char>, Seq<char>>::empty());
    }
    while i < labels.len()
        invariant
            i <= labels@.len(),
            spec_parse_labels(label_texts(labels@).take(i as int)) == Ok::<Map<Seq<char>, Seq<char>>, (LabelProblem, Seq<char>)>(text_map(map.as_map())),
        decreases labels.len() - i,
    {
        let ghost pre = label_texts(labels@).take(i as int);
        let ghost cur = label_texts(labels@).take(i + 1);
        assert(cur.drop_last() =~= pre);
        assert(cur.last() == labels@[i as int]@);
        let l = &labels[i];
        let v = chars_of(l.as_str());
        let n = v.len();
        let eq = find_in(&v, '=', 0, n);
        proof {
            lemma_find_in_agrees(v@, '=', 0, n as int, match eq { Some(k) => Some(k as int), None => None });
            assert(v@.subrange(0, n as int) =~= v@);
        }
        match eq {
            None => {
                proof {
                    assert(spec_parse_labels(label_texts(labels@).take(i + 1)) == Err::<Map<Seq<char>, Seq<char>>, (LabelProblem, Seq<char>)>((LabelProblem::MissingEquals, labels@[i as int]@)));
                    lemma_parse_labels_err_persists(label_texts(labels@), i + 1);
                    assert(label_texts(labels@).take(labels@.len() as int) =~= label_texts(labels@));
                }
                return Err(LabelError::MissingEquals { label: l.clone() });
            },
            Some(k) => {
                if k == 0 {
                    proof {
                        lemma_parse_labels_err_persists(label_texts(labels@), i + 1);
                        assert(label_texts(labels@).take(labels@.len() as int) =~= label_texts(labels@));
                    }
                    return Err(LabelError::EmptyKey { label: l.clone() });
                }
                let key = string_of(&v, 0, k);
                let val = string_of(&v, k + 1, n);
                proof {
                    assert(v@.take(k as int) =~= v@.subrange(0, k as int));
                    assert(v@.skip(k + 1) =~= v@.subrange(k + 1, n as int));
                }
                let ghost before = map.as_map();
                let ghost kv = key@;
                let ghost vv = val;
                map.insert(key, val);
                proof {
                    assert(text_map(map.as_map()) =~= text_map(before).insert(kv, vv@));
                }
            },
        }
        i += 1;
    }
    proof {
        assert(label_texts(labels@).take(labels@.len() as int) =~= label_texts(labels@));
    }
    Ok(map)
}

/// Once a flag is rejected, longer flag lists are rejected for the same flag.
proof fn lemma_parse_labels_err_persists(ls: Seq<Seq<char>>, n: int)
    requires
        0 <= n <= ls.len(),
        spec_parse_labels(ls.take(n)) is Err,
    ensures
        spec_parse_labels(ls) == spec_parse_labels(ls.take(n)),
    decreases ls.len() - n,
{
    if n < ls.len() {
        assert(ls.take(n + 1).drop_last() =~= ls.take(n));
        lemma_parse_labels_err_persists(ls, n + 1);
    } else {
        assert(ls.take(n) =~= ls);
    }
}

impl LabelError {
    /// The error's message; `{label:?}` quoting is left to the caller,
    /// which receives the parts: the text before and after the label.
    pub fn message_parts(&self) -> (r: (&'static str, &'static str))
        ensures
            match self {
                LabelError::EmptyKey { .. } => r.0@ == "label key cannot be empty: "@ && r.1@ == ""@,
                LabelError::MissingEquals { .. } => r.0@ == "invalid label "@ && r.1@
                    == ": expected format KEY=VALUE (value may be empty)"@,
            },
    {
        match self {
            LabelError::EmptyKey { .. } => ("label key cannot be empty: ", ""),
            LabelError::MissingEquals { .. } => ("invalid label ", ": expected format KEY=VALUE (value may be empty)"),
        }
    }
}

/// Why a push stopped after the upload was prepared.
#[derive(Debug)]
pub enum PushError {
    /// Encryption failed.
    Encrypt(CryptoError),
    /// `--verify`: the pulled-back payload differs from the pushed one.
    VerifyContent,
    /// `--verify`: the pulled-back encryption flag differs.
    VerifyEncryption,
}

impl PushError {
    /// The error's message.
    pub fn message(&self) -> (r: String)
        ensures
            match self {
                PushError::Encrypt(_) => r@ == "encryption failed"@,
                PushError::VerifyContent => r@ == "verify failed: pulled content digest does not match"@,
                PushError::VerifyEncryption => r@ == "verify failed: encryption flag mismatch"@,
            },
    {
        let mut r = String::new();
        match self {
            PushError::Encrypt(_) => push_str(&mut r, "encryption failed"),
            PushError::VerifyContent => push_str(&mut r, "verify failed: pulled content digest does not match"),
            PushError::VerifyEncryption => push_str(&mut r, "verify failed: encryption flag mismatch"),
        }
        r
    }
}

/// The payload to upload and its encryption flag: the archive encrypted
/// under the passphrase when one is given (and not empty), else the
/// archive as is.
pub fn push_payload(archive: Vec<u8>, passphrase: Option<&str>) -> (r: Result<(Vec<u8>, bool), PushError>)
    ensures
        !has_passphrase(passphrase) ==> (r matches Ok((d, enc)) && d@ == archive@ && !enc),
        has_passphrase(passphrase) ==> match r {
            Ok((d, enc)) => enc && exists|salt: Seq<u8>, nonce: Seq<u8>|
                salt.len() == SALT_SIZE && nonce.len() == NONCE_SIZE && d@ == envelope(
                    encode_utf8(pass_text(passphrase)),
                    salt,
                    nonce,
                    archive@,
                ),
            Err(PushError::Encrypt(CryptoError::EncryptionFailed)) => archive@.len() > GCM_MAX_PLAINTEXT,
            Err(PushError::Encrypt(CryptoError::RandomSource)) => true,
            Err(_) => false,
        },
        r matches Ok((d, true)) ==> d@.len() == SALT_SIZE + NONCE_SIZE + archive@.len() + GCM_TAG_SIZE,
{
    if !passphrase_given(passphrase) {
        return Ok((archive, false));
    }
    let pass: &str = match passphrase {
        Some(p) => p,
        None => "",
    };
    match encrypt(archive.as_slice(), pass) {
        Ok(c) => Ok((c, true)),
        Err(e) => Err(PushError::Encrypt(e)),
    }
}

/// Whether two byte strings are equal.
pub fn same_bytes(a: &[u8], b: &[u8]) -> (r: bool)
    ensures
        r == (a@ == b@),
{
    if a.len() != b.len() {
        return false;
    }
    let mut i: usize = 0;
    while i < a.len()
        invariant
            i <= a@.len() == b@.len(),
            forall|j: int| 0 <= j < i ==> a@[j] == b@[j],
        decreases a.len() - i,
    {
        if a[i] != b[i] {
            return false;
        }
        i += 1;
    }
    assert(a@ =~= b@);
    true
}

/// `--verify`: the artifact pulled back must carry the pushed payload and
/// encryption flag (the payload is checked first).
pub fn verify_pushed(pushed: &[u8], encrypted: bool, pulled: &PullResult) -> (r: Result<(), PushError>)
    ensures
        pulled.data@ != pushed@ ==> r matches Err(PushError::VerifyContent),
        pulled.data@ == pushed@ && pulled.encrypted != encrypted ==> r matches Err(PushError::VerifyEncryption),
        pulled.data@ == pushed@ && pulled.encrypted == encrypted ==> r is Ok,
{
    if !same_bytes(pulled.data.as_slice(), pushed) {
        Err(PushError::VerifyContent)
    } else if pulled.encrypted != encrypted {
        Err(PushError::VerifyEncryption)
    } else {
        Ok(())
    }
}

/// The history entry of a successful push, with the label flags as given.
pub fn push_activity(remote_ref: &str, local: &str, labels: Vec<String>, timestamp: String) -> (a: Activity)
    ensures
        a.kind == ActivityType::Push,
        a.timestamp == timestamp,
        a.remote_ref@ == remote_ref@,
        a.local_path matches Some(l) && l@ == local@,
        a.labels == labels,
        a.success,
        a.error is None,
{
    Activity {
        kind: ActivityType::Push,
        timestamp,
        remote_ref: String::from_str(remote_ref),
        local_path: Some(String::from_str(local)),
        labels,
        success: true,
        error: None,
    }
}

} // verus!
