//! OCI references and artifact metadata.
//!
//! Manifest contract: an OCI image manifest whose single layer is the
//! (possibly encrypted) payload, annotated with `io.oci-sync.encrypted`
//! (`"true"`/`"false"`), `io.oci-sync.version` and the user labels (every key
//! that does not start with `io.oci-sync.`).
use vstd::prelude::*;

use crate::strmap::{text_map, StrMap};
use crate::text::{
    chars_of, find_char, find_in, lemma_find_char, lemma_find_in_agrees, lemma_rfind_in_agrees,
    rfind_char, rfind_in, string_of, trim, trim_bounds,
};

verus! {

/// Annotation: `"true"` when the payload is encrypted.
pub const ANNOTATION_ENCRYPTED: &'static str = "io.oci-sync.encrypted";

/// Annotation: the version of the tool that pushed the artifact.
pub const ANNOTATION_VERSION: &'static str = "io.oci-sync.version";

/// Prefix of the tool's own annotations; other keys are user labels.
pub const ANNOTATION_PREFIX: &'static str = "io.oci-sync.";

/// Media type of the payload layer.
pub const MEDIA_TYPE_LAYER: &'static str = "application/octet-stream";

/// Media type of the manifest.
pub const MEDIA_TYPE_MANIFEST: &'static str = "application/vnd.oci.image.manifest.v1+json";

/// Metadata about one artifact discovered by `list`.
#[derive(Debug)]
pub struct ArtifactInfo {
    /// `<registry>/<repo>:<tag>`
    pub full_name: String,
    pub repo: String,
    pub tag: String,
    pub digest: String,
    pub encrypted: bool,
    /// Version of the tool that pushed the artifact.
    pub version: String,
    pub size: i64,
    /// User labels (annotation keys not prefixed `io.oci-sync.`).
    pub labels: StrMap<String>,
}

/// An artifact's metadata as plain values.
pub struct ArtifactView {
    pub full_name: Seq<char>,
    pub repo: Seq<char>,
    pub tag: Seq<char>,
    pub digest: Seq<char>,
    pub encrypted: bool,
    pub version: Seq<char>,
    pub size: i64,
    pub labels: Map<Seq<char>, Seq<char>>,
}

impl View for ArtifactInfo {
    type V = ArtifactView;

    open spec fn view(&self) -> ArtifactView {
        ArtifactView {
            full_name: self.full_name@,
            repo: self.repo@,
            tag: self.tag@,
            digest: self.digest@,
            encrypted: self.encrypted,
            version: self.version@,
            size: self.size,
            labels: text_map(self.labels.as_map()),
        }
    }
}

impl Clone for ArtifactInfo {
    fn clone(&self) -> (r: Self)
        ensures
            r@ == self@,
    {
        let labels = self.labels.clone();
        proof {
            assert forall|i: int| 0 <= i < labels.val_seq().len() implies labels.val_seq()[i] == self.labels.val_seq()[i] by {
                assert(cloned::<String>(self.labels.val_seq()[i], labels.val_seq()[i]));
            }
            assert(labels.val_seq() =~= self.labels.val_seq());
            StrMap::lemma_same_entries(labels, self.labels);
        }
        ArtifactInfo {
            full_name: self.full_name.clone(),
            repo: self.repo.clone(),
            tag: self.tag.clone(),
            digest: self.digest.clone(),
            encrypted: self.encrypted,
            version: self.version.clone(),
            size: self.size,
            labels,
        }
    }
}

/// Views of a list of artifacts.
pub open spec fn artifact_views(s: Seq<ArtifactInfo>) -> Seq<ArtifactView> {
    s.map_values(|a: ArtifactInfo| a@)
}

/// Payload and encryption flag returned by a pull.
#[derive(Debug)]
pub struct PullResult {
    pub data: Vec<u8>,
    pub encrypted: bool,
}

/// Why a remote reference was rejected.
#[derive(Debug, Clone, Copy, PartialEq, Eq)]
pub enum RefProblem {
    Empty,
    EmptyTag,
    EmptyHost,
    EmptyRepo,
}

/// Human-readable reason for each rejection.
pub open spec fn problem_reason(p: RefProblem) -> Seq<char> {
    match p {
        RefProblem::Empty => "reference is empty"@,
        RefProblem::EmptyTag => "tag is empty (trailing ':')"@,
        RefProblem::EmptyHost => "registry host is empty"@,
        RefProblem::EmptyRepo => "repository is empty"@,
    }
}

/// Errors produced by the OCI layer's own rules.
#[derive(Debug, Clone)]
pub enum OciError {
    /// The remote reference does not have the expected shape.
    InvalidReference { ref_str: String, reason: String },
    /// A manifest without the `io.oci-sync.version` annotation.
    NotOciSyncArtifact,
}

/// Result of parsing a remote reference.
#[derive(Debug, Clone, PartialEq, Eq)]
pub struct ParsedRef {
    /// Registry host (may include port).
    pub host: String,
    /// Repository path; empty when the reference is a bare registry.
    pub repo: String,
    /// Tag; `None` when absent.
    pub tag: Option<String>,
}

/// The parts of a parsed reference, as character sequences.
pub struct RefParts {
    pub host: Seq<char>,
    pub repo: Seq<char>,
    pub tag: Option<Seq<char>>,
}

impl ParsedRef {
    pub open spec fn parts(self) -> RefParts {
        RefParts {
            host: self.host@,
            repo: self.repo@,
            tag: match self.tag {
                Some(t) => Some(t@),
                None => None,
            },
        }
    }
}

/// Splits the tag off a trimmed, non-empty reference: the last `:` separates
/// a tag only when the reference holds a `/` and no `/` follows that `:`.
pub open spec fn split_tag(s: Seq<char>) -> Result<(Seq<char>, Option<Seq<char>>), RefProblem> {
    if s.contains('/') {
        match rfind_char(s, ':') {
            Some(idx) => if !s.skip(idx + 1).contains('/') {
                if idx + 1 == s.len() {
                    Err(RefProblem::EmptyTag)
                } else {
                    Ok((s.take(idx), Some(s.skip(idx + 1))))
                }
            } else {
                Ok((s, None))
            },
            None => Ok((s, None)),
        }
    } else {
        Ok((s, None))
    }
}

/// What `parse_ref` makes of its input: `<registry>/<repository>[:<tag>]`,
/// or a bare `<registry>` (never split at a `:`, so a port survives).
pub open spec fn spec_parse_ref(input: Seq<char>) -> Result<RefParts, RefProblem> {
    let s = trim(input);
    if s.len() == 0 {
        Err(RefProblem::Empty)
    } else {
        match split_tag(s) {
            Err(p) => Err(p),
            Ok((body, tag)) => match find_char(body, '/') {
                Some(i) => if i == 0 {
                    Err(RefProblem::EmptyHost)
                } else if i + 1 == body.len() {
                    Err(RefProblem::EmptyRepo)
                } else {
                    Ok(RefParts { host: body.take(i), repo: body.skip(i + 1), tag })
                },
                None => Ok(RefParts { host: body, repo: Seq::empty(), tag }),
            },
        }
    }
}

fn invalid_reference(input: &str, p: RefProblem) -> (e: OciError)
    ensures
        e matches OciError::InvalidReference { ref_str, reason } && ref_str@ == input@ && reason@
            == problem_reason(p),
{
    let reason = match p {
        RefProblem::Empty => String::from_str("reference is empty"),
        RefProblem::EmptyTag => String::from_str("tag is empty (trailing ':')"),
        RefProblem::EmptyHost => String::from_str("registry host is empty"),
        RefProblem::EmptyRepo => String::from_str("repository is empty"),
    };
    OciError::InvalidReference { ref_str: String::from_str(input), reason }
}

/// Parse a remote reference: `<registry>/<repository>[:<tag>]` or a bare
/// `<registry>`.
///
/// Tag detection follows the OCI convention: the last `:` is a tag separator
/// only when a `/` exists in the reference and no `/` appears after it. A
/// bare registry (`localhost:5000`) is never tag-split, so host ports survive.
pub fn parse_ref(input: &str) -> (r: Result<ParsedRef, OciError>)
    ensures
        match spec_parse_ref(input@) {
            Ok(parts) => r matches Ok(pr) && pr.parts() == parts,
            Err(p) => r matches Err(OciError::InvalidReference { ref_str, reason }) && ref_str@
                == input@ && reason@ == problem_reason(p),
        },
{
    let v = chars_of(input);
    let (a, b) = trim_bounds(&v);
    let ghost s = v@.subrange(a as int, b as int);
    if a == b {
        return Err(invalid_reference(input, RefProblem::Empty));
    }
    let slash = find_in(&v, '/', a, b);
    proof {
        lemma_find_in_agrees(v@, '/', a as int, b as int, match slash { Some(k) => Some(k as int), None => None });
        lemma_find_char(s, '/');
        if slash is Some {
            assert(s[slash->0 - a] == '/');
        }
    }
    // [a, e) is the body; the tag, if any, is [e + 1, b).
    let mut e = b;
    let mut tagged = false;
    if slash.is_some() {
        let colon = rfind_in(&v, ':', a, b);
        proof {
            lemma_rfind_in_agrees(v@, ':', a as int, b as int, match colon { Some(k) => Some(k as int), None => None });
        }
        match colon {
            Some(idx) => {
                let after = find_in(&v, '/', idx + 1, b);
                proof {
                    let t = s.skip(idx - a + 1);
                    assert(t =~= v@.subrange(idx + 1, b as int));
                    lemma_find_in_agrees(v@, '/', idx + 1, b as int, match after { Some(k) => Some(k as int), None => None });
                    lemma_find_char(t, '/');
                    if after is Some {
                        assert(t[after->0 - idx - 1] == '/');
                    }
                }
                if after.is_none() {
                    if idx + 1 == b {
                        return Err(invalid_reference(input, RefProblem::EmptyTag));
                    }
                    e = idx;
                    tagged = true;
                }
            },
            None => {},
        }
    }
    let ghost body = v@.subrange(a as int, e as int);
    proof {
        assert(split_tag(s) matches Ok((bd, tg)) && bd == body && (tg is Some <==> tagged));
        if tagged {
            assert(s.take(e - a) =~= body);
            assert(s.skip(e - a + 1) =~= v@.subrange(e + 1, b as int));
        } else {
            assert(s =~= body);
        }
    }
    let tag = if tagged {
        Some(string_of(&v, e + 1, b))
    } else {
        None
    };
    let sep = find_in(&v, '/', a, e);
    proof {
        lemma_find_in_agrees(v@, '/', a as int, e as int, match sep { Some(k) => Some(k as int), None => None });
    }
    match sep {
        Some(i) => {
            if i == a {
                return Err(invalid_reference(input, RefProblem::EmptyHost));
            }
            if i + 1 == e {
                return Err(invalid_reference(input, RefProblem::EmptyRepo));
            }
            let host = string_of(&v, a, i);
            let repo = string_of(&v, i + 1, e);
            proof {
                assert(body.take(i - a) =~= v@.subrange(a as int, i as int));
                assert(body.skip(i - a + 1) =~= v@.subrange(i + 1, e as int));
            }
            Ok(ParsedRef { host, repo, tag })
        },
        None => {
            let host = string_of(&v, a, e);
            let repo = String::new();
            proof {
                assert(repo@ =~= Seq::<char>::empty());
            }
            Ok(ParsedRef { host, repo, tag })
        },
    }
}

} // verus!
