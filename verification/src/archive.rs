//! The rules of the tar.gz payload: how a directory's entries are named
//! and ordered when packed, and where an archive entry may land when
//! unpacked. Paths are Unix paths held as text; `.` and `..` are resolved
//! lexically, and an entry whose resolved path leaves the destination is
//! refused (path-traversal defense). Walking the file system and the tar
//! and gzip streams are the caller's.
use vstd::prelude::*;

use flate2::read::GzDecoder;
use std::io::Read;
use tar::EntryType;

use crate::text::{chars_of, string_of, push_str, push_char, find_char, find_in, lemma_find_in_agrees, path_join, join_path, seq_lt, str_lt, str_eq};

verus! {

// ------------------------------------------------------------ path model

/// `p` split at every `/` (`a//b/` gives `a`, ``, `b`, ``).
pub open spec fn split_slash(p: Seq<char>) -> Seq<Seq<char>>
    decreases p.len(),
{
    match find_char(p, '/') {
        None => seq![p],
        Some(i) => {
            proof {
                crate::text::lemma_find_char(p, '/');
            }
            seq![p.take(i)] + split_slash(p.skip(i + 1))
        },
    }
}

/// The path starts at the root.
pub open spec fn rooted(p: Seq<char>) -> bool {
    p.len() > 0 && p[0] == '/'
}

/// One step of lexical normalization: empty parts and `.` vanish, `..`
/// drops the last name (and is kept when there is none, or when the last
/// component is itself `..`), any other name is appended.
pub open spec fn norm_step(acc: Seq<Seq<char>>, part: Seq<char>) -> Seq<Seq<char>> {
    if part.len() == 0 || part == seq!['.'] {
        acc
    } else if part == seq!['.', '.'] {
        if acc.len() > 0 && acc.last() != seq!['.', '.'] {
            acc.drop_last()
        } else {
            acc.push(part)
        }
    } else {
        acc.push(part)
    }
}

/// `norm_step` over `parts`, from `acc`.
pub open spec fn norm_all(acc: Seq<Seq<char>>, parts: Seq<Seq<char>>) -> Seq<Seq<char>>
    decreases parts.len(),
{
    if parts.len() == 0 {
        acc
    } else {
        norm_all(norm_step(acc, parts[0]), parts.drop_first())
    }
}

/// The components of `p` after lexical normalization, and whether it is
/// rooted.
pub open spec fn normal_form(p: Seq<char>) -> (bool, Seq<Seq<char>>) {
    (rooted(p), norm_all(Seq::empty(), split_slash(p)))
}

/// Components joined with `/`.
pub open spec fn join_slash(c: Seq<Seq<char>>) -> Seq<char>
    decreases c.len(),
{
    if c.len() == 0 {
        Seq::empty()
    } else if c.len() == 1 {
        c[0]
    } else {
        join_slash(c.drop_last()) + seq!['/'] + c.last()
    }
}

/// A path written out from its form.
pub open spec fn render(f: (bool, Seq<Seq<char>>)) -> Seq<char> {
    if f.0 {
        seq!['/'] + join_slash(f.1)
    } else {
        join_slash(f.1)
    }
}

/// `p` with `.` and `..` resolved without touching the file system.
pub open spec fn spec_normalize(p: Seq<char>) -> Seq<char> {
    render(normal_form(p))
}

/// `d` is a leading part of `t`, whole components only (`Path::starts_with`).
pub open spec fn within(d: (bool, Seq<Seq<char>>), t: (bool, Seq<Seq<char>>)) -> bool {
    d.0 == t.0 && d.1.len() <= t.1.len() && t.1.take(d.1.len() as int) == d.1
}

// ------------------------------------------------------------ normalization

/// The lexically normalized components of `path`.
fn normalized_parts(path: &str) -> (r: (bool, Vec<String>))
    ensures
        r.0 == rooted(path@),
        r.1@.map_values(|s: String| s@) == normal_form(path@).1,
{
    let v = chars_of(path);
    let root = v.len() > 0 && v[0] == '/';
    let mut acc: Vec<String> = Vec::new();
    let mut start: usize = 0;
    proof {
        assert(path@.skip(0) =~= path@);
        assert(acc@.map_values(|s: String| s@) =~= Seq::<Seq<char>>::empty());
    }
    loop
        invariant
            v@ == path@,
            root == rooted(path@),
            start <= v@.len(),
            norm_all(Seq::empty(), split_slash(path@)) == norm_all(acc@.map_values(|s: String| s@), split_slash(path@.skip(start as int))),
        decreases v@.len() - start,
    {
        let hit = find_in(&v, '/', start, v.len());
        let end = match hit {
            Some(i) => i,
            None => v.len(),
        };
        let part = string_of(&v, start, end);
        let ghost rest = path@.skip(start as int);
        proof {
            lemma_find_in_agrees(v@, '/', start as int, v@.len() as int, match hit { Some(k) => Some(k as int), None => None });
            assert(v@.subrange(start as int, v@.len() as int) =~= rest);
            assert(part@ == rest.take(end - start));
            match hit {
                Some(i) => {
                    assert(split_slash(rest) == seq![rest.take(i - start)] + split_slash(rest.skip(i - start + 1)));
                    assert(rest.skip(i - start + 1) =~= path@.skip(i + 1));
                },
                None => {
                    assert(split_slash(rest) == seq![rest]);
                    assert(rest.take(end - start) =~= rest);
                },
            }
        }
        let ghost before = acc@.map_values(|s: String| s@);
        let pv = chars_of(part.as_str());
        if pv.len() == 0 || (pv.len() == 1 && pv[0] == '.') {
            proof {
                if pv.len() == 1 {
                    assert(part@ =~= seq!['.']);
                }
                assert(norm_step(before, part@) == before);
            }
        } else if pv.len() == 2 && pv[0] == '.' && pv[1] == '.' {
            proof {
                assert(part@ =~= seq!['.', '.']);
            }
            let last_named = if acc.len() > 0 {
                let lv = chars_of(acc[acc.len() - 1].as_str());
                proof {
                    assert(before.last() == lv@);
                    if lv@.len() == 2 && lv@[0] == '.' && lv@[1] == '.' {
                        assert(lv@ =~= seq!['.', '.']);
                    }
                }
                !(lv.len() == 2 && lv[0] == '.' && lv[1] == '.')
            } else {
                false
            };
            if last_named {
                acc.pop();
                proof {
                    assert(acc@.map_values(|s: String| s@) =~= before.drop_last());
                }
            } else {
                acc.push(part);
                proof {
                    assert(acc@.map_values(|s: String| s@) =~= before.push(seq!['.', '.']));
                }
            }
        } else {
            proof {
                assert(part@ != seq!['.']) by {
                    if pv.len() == 1 {
                        assert(part@[0] != '.');
                    }
                }
                assert(part@ != seq!['.', '.']) by {
                    if pv.len() == 2 {
                        assert(part@[0] != '.' || part@[1] != '.');
                    }
                }
            }
            let ghost pp = part@;
            acc.push(part);
            proof {
                assert(acc@.map_values(|s: String| s@) =~= before.push(pp));
            }
        }
        proof {
            assert(split_slash(rest)[0] == part@);
            assert(norm_all(before, split_slash(rest)) == norm_all(norm_step(before, part@), split_slash(rest).drop_first()));
        }
        match hit {
            Some(i) => {
                proof {
                    let rest2 = path@.skip(i + 1);
                    assert(split_slash(rest).drop_first() =~= split_slash(rest2));
                }
                start = i + 1;
            },
            None => {
                proof {
                    assert(split_slash(rest).drop_first() =~= Seq::<Seq<char>>::empty());
                    assert(norm_all(acc@.map_values(|s: String| s@), Seq::<Seq<char>>::empty()) == acc@.map_values(|s: String| s@));
                }
                return (root, acc);
            },
        }
    }
}

/// `join_slash` of the components, rooted when asked.
fn render_parts(root: bool, parts: &Vec<String>) -> (r: String)
    ensures
        r@ == render((root, parts@.map_values(|s: String| s@))),
{
    let mut r = String::new();
    if root {
        push_char(&mut r, '/');
    }
    let ghost head: Seq<char> = if root { seq!['/'] } else { Seq::empty() };
    let mut i: usize = 0;
    proof {
        assert(parts@.take(0).map_values(|s: String| s@) =~= Seq::<Seq<char>>::empty());
        assert(r@ =~= head + join_slash(Seq::empty()));
    }
    while i < parts.len()
        invariant
            i <= parts@.len(),
            r@ == head + join_slash(parts@.take(i as int).map_values(|s: String| s@)),
        decreases parts.len() - i,
    {
        let ghost c = parts@.take(i as int).map_values(|s: String| s@);
        let ghost c2 = parts@.take(i + 1).map_values(|s: String| s@);
        proof {
            assert(c2.drop_last() =~= c);
            assert(c2.last() == parts@[i as int]@);
        }
        if i > 0 {
            push_char(&mut r, '/');
        }
        push_str(&mut r, parts[i].as_str());
        proof {
            if i == 0 {
                assert(c =~= Seq::<Seq<char>>::empty());
                assert(join_slash(c2) == c2[0]);
                assert(r@ =~= head + join_slash(c2));
            } else {
                assert(r@ =~= head + join_slash(c2));
            }
        }
        i += 1;
    }
    proof {
        assert(parts@.take(i as int) =~= parts@);
    }
    r
}

/// Lexically normalizes a path: `.` components vanish and `..` removes the
/// name before it (with no name before it, only `..`s or nothing, it stays).
pub fn normalize_lexically(path: &str) -> (r: String)
    ensures
        r@ == spec_normalize(path@),
{
    let (root, parts) = normalized_parts(path);
    render_parts(root, &parts)
}

/// `path` made absolute against `cwd` (the working directory), then
/// normalized; an absolute `path` ignores `cwd`.
pub open spec fn spec_absolutize(path: Seq<char>, cwd: Seq<char>) -> Seq<char> {
    if rooted(path) {
        spec_normalize(path)
    } else {
        spec_normalize(path_join(cwd, path))
    }
}

/// The absolute, normalized form of `path` for working directory `cwd`.
pub fn absolutize(path: &str, cwd: &str) -> (r: String)
    ensures
        r@ == spec_absolutize(path@, cwd@),
{
    let v = chars_of(path);
    if v.len() > 0 && v[0] == '/' {
        normalize_lexically(path)
    } else {
        let joined = join_path(cwd, path);
        normalize_lexically(joined.as_str())
    }
}

// ------------------------------------------------------------ unpacking

/// Why an archive could not be packed or unpacked.
#[derive(Debug)]
pub enum ArchiveError {
    /// An entry would land outside the destination.
    IllegalPath { path: String },
    /// A single file's path names no file (`..`, `/`, an empty path).
    NoFileName { path: String },
    /// The bytes are not a readable tar.gz stream.
    Corrupt,
    /// The tar writer refused an entry (a name it cannot store).
    Unwritable,
}

impl ArchiveError {
    /// The error's message.
    pub fn message(&self) -> (r: String)
        ensures
            match self {
                ArchiveError::IllegalPath { path } => r@ == "illegal file path in archive: "@ + path@,
                ArchiveError::NoFileName { path } => r@ == "cannot determine file name for "@ + path@,
                ArchiveError::Corrupt => r@ == "read tar entries: not a valid tar.gz archive"@,
                ArchiveError::Unwritable => r@ == "write tar archive: an entry could not be stored"@,
            },
    {
        let mut r = String::new();
        match self {
            ArchiveError::IllegalPath { path } => {
                push_str(&mut r, "illegal file path in archive: ");
                push_str(&mut r, path.as_str());
            },
            ArchiveError::NoFileName { path } => {
                push_str(&mut r, "cannot determine file name for ");
                push_str(&mut r, path.as_str());
            },
            ArchiveError::Corrupt => {
                push_str(&mut r, "read tar entries: not a valid tar.gz archive");
                proof {
                    assert(r@ =~= "read tar entries: not a valid tar.gz archive"@);
                }
            },
            ArchiveError::Unwritable => {
                push_str(&mut r, "write tar archive: an entry could not be stored");
                proof {
                    assert(r@ =~= "write tar archive: an entry could not be stored"@);
                }
            },
        }
        r
    }
}

/// Where entry `entry` of an archive lands under `dest`: the joined path,
/// normalized; refused unless it lies within `dest`.
pub open spec fn spec_entry_target(dest: Seq<char>, entry: Seq<char>) -> Option<Seq<char>> {
    let joined = path_join(dest, entry);
    if within(normal_form(dest), normal_form(joined)) {
        Some(spec_normalize(joined))
    } else {
        None
    }
}

/// The path an archive entry is written to under `abs_dest` (absolute and
/// normalized), or the refusal of an entry that would escape it.
pub fn entry_target(abs_dest: &str, entry: &str) -> (r: Result<String, ArchiveError>)
    ensures
        match r {
            Ok(t) => spec_entry_target(abs_dest@, entry@) == Some(t@),
            Err(e) => spec_entry_target(abs_dest@, entry@) is None && (e matches ArchiveError::IllegalPath { path } && path@ == entry@),
        },
{
    let joined = join_path(abs_dest, entry);
    let (t_root, t_parts) = normalized_parts(joined.as_str());
    let (d_root, d_parts) = normalized_parts(abs_dest);
    let ghost tv = t_parts@.map_values(|s: String| s@);
    let ghost dv = d_parts@.map_values(|s: String| s@);
    let mut ok = t_root == d_root && d_parts.len() <= t_parts.len();
    if ok {
        let mut same = true;
        let mut i: usize = 0;
        while i < d_parts.len()
            invariant
                i <= d_parts@.len() <= t_parts@.len(),
                tv == t_parts@.map_values(|s: String| s@),
                dv == d_parts@.map_values(|s: String| s@),
                same == (forall|j: int| 0 <= j < i ==> tv[j] == dv[j]),
            decreases d_parts.len() - i,
        {
            if !str_eq(d_parts[i].as_str(), t_parts[i].as_str()) {
                same = false;
            }
            proof {
                if !same {
                    if tv[i as int] != dv[i as int] {
                    } else {
                        let j = choose|j: int| 0 <= j < i && tv[j] != dv[j];
                    }
                }
            }
            i += 1;
        }
        proof {
            if same {
                assert(tv.take(dv.len() as int) =~= dv);
            } else {
                let j = choose|j: int| 0 <= j < dv.len() && tv[j] != dv[j];
                assert(tv.take(dv.len() as int)[j] != dv[j]);
            }
        }
        ok = same;
    }
    if ok {
        Ok(render_parts(t_root, &t_parts))
    } else {
        Err(ArchiveError::IllegalPath { path: String::from_str(entry) })
    }
}

/// The kinds of archive entries the tool tells apart.
#[derive(Debug, Clone, Copy, PartialEq, Eq, Structural)]
pub enum EntryKind {
    Directory,
    Regular,
    /// Symlinks, devices and the like, which are skipped.
    Other,
}

/// What unpacking does with one entry.
#[derive(Debug)]
pub enum UnpackStep {
    /// Create the directory (and its parents).
    CreateDir { path: String },
    /// Create `parent` (when there is one), write the entry's data to
    /// `path` and give it permission bits `mode`.
    WriteFile { path: String, parent: Option<String>, mode: u32 },
}

/// The parent of a normalized path, as `Path::parent` gives it.
pub open spec fn parent_form(f: (bool, Seq<Seq<char>>)) -> Option<Seq<char>> {
    if f.1.len() > 0 {
        Some(render((f.0, f.1.drop_last())))
    } else {
        None
    }
}

/// Permission bits of an unpacked file: the entry's mode, or 0o644 when
/// it has none, masked to 0o777.
pub open spec fn file_mode(mode: Option<u32>) -> u32 {
    (match mode {
        Some(m) => m,
        None => 0o644u32,
    }) & 0o777u32
}

/// The step for an entry at `entry` of kind `kind` under `abs_dest`:
/// refused when it would escape; directories are created, regular files
/// written, other kinds skipped.
pub fn unpack_step(abs_dest: &str, entry: &str, kind: EntryKind, mode: Option<u32>) -> (r: Result<Option<UnpackStep>, ArchiveError>)
    ensures
        match spec_entry_target(abs_dest@, entry@) {
            None => r matches Err(ArchiveError::IllegalPath { path }) && path@ == entry@,
            Some(t) => match kind {
                EntryKind::Directory => r matches Ok(Some(UnpackStep::CreateDir { path })) && path@ == t,
                EntryKind::Regular => r matches Ok(Some(UnpackStep::WriteFile { path, parent, mode: m })) && path@ == t
                    && m == file_mode(mode) && match parent {
                    Some(p) => parent_form(normal_form(path_join(abs_dest@, entry@))) == Some(p@),
                    None => parent_form(normal_form(path_join(abs_dest@, entry@))) is None,
                },
                EntryKind::Other => r matches Ok(None),
            },
        },
{
    let target = entry_target(abs_dest, entry)?;
    match kind {
        EntryKind::Directory => Ok(Some(UnpackStep::CreateDir { path: target })),
        EntryKind::Regular => {
            let joined = join_path(abs_dest, entry);
            let (root, parts) = normalized_parts(joined.as_str());
            let parent = if parts.len() > 0 {
                let mut up = parts;
                let ghost before = up@;
                up.pop();
                proof {
                    assert(up@.map_values(|s: String| s@) =~= before.map_values(|s: String| s@).drop_last());
                }
                Some(render_parts(root, &up))
            } else {
                None
            };
            let m: u32 = match mode {
                Some(m) => m,
                None => 0o644,
            };
            Ok(Some(UnpackStep::WriteFile { path: target, parent, mode: m & 0o777 }))
        },
        EntryKind::Other => Ok(None),
    }
}

// ------------------------------------------------------------ packing

/// The components of `p` that name something: no empty parts and no `.`.
pub open spec fn named_parts(p: Seq<char>) -> Seq<Seq<char>> {
    split_slash(p).filter(|c: Seq<char>| c.len() > 0 && c != seq!['.'])
}

/// `Path::file_name`: the last component, unless it is `..` or there is
/// none.
pub open spec fn file_name(p: Seq<char>) -> Option<Seq<char>> {
    let c = named_parts(p);
    if c.len() == 0 || c.last() == seq!['.', '.'] {
        None
    } else {
        Some(c.last())
    }
}

/// The last non-empty, non-`.` part of `v[0..end]`, if any.
#[verifier::spinoff_prover]
fn last_named_part(v: &Vec<char>, end: usize) -> (r: Option<String>)
    requires
        end <= v@.len(),
    ensures
        match r {
            Some(s) => named_parts(v@.take(end as int)).len() > 0 && s@ == named_parts(v@.take(end as int)).last(),
            None => named_parts(v@.take(end as int)).len() == 0,
        },
    decreases end,
{
    let hit = crate::text::rfind_in(v, '/', 0, end);
    let ghost p = v@.take(end as int);
    match hit {
        None => {
            let part = string_of(v, 0, end);
            proof {
                assert(part@ =~= p);
                lemma_no_slash(p);
            }
            let pv = chars_of(part.as_str());
            if pv.len() == 0 || (pv.len() == 1 && pv[0] == '.') {
                proof {
                    if pv.len() == 1 {
                        assert(p =~= seq!['.']);
                    }
                }
                None
            } else {
                proof {
                    if pv.len() == 1 {
                        assert(p[0] != '.');
                    }
                    assert(p.len() != 1 || p[0] != '.');
                    assert(p != seq!['.']);
                    assert(p.len() > 0);
                    assert(named_parts(p) == seq![p]);
                    assert(seq![p].last() == p);
                    assert(part@ == p);
                    assert(named_parts(v@.take(end as int)).len() > 0 && part@ == named_parts(v@.take(end as int)).last());
                }
                Some(part)
            }
        },
        Some(i) => {
            proof {
                lemma_split_last(p, i as int);
            }
            let part = string_of(v, i + 1, end);
            let pv = chars_of(part.as_str());
            if pv.len() == 0 || (pv.len() == 1 && pv[0] == '.') {
                proof {
                    if pv.len() == 1 {
                        assert(part@ =~= seq!['.']);
                    }
                    assert(part@ =~= p.skip(i + 1));
                    assert(named_parts(p) == named_parts(p.take(i as int)));
                    assert(v@.take(i as int) =~= p.take(i as int));
                }
                last_named_part(v, i)
            } else {
                proof {
                    if pv.len() == 1 {
                        assert(part@[0] != '.');
                    }
                    assert(part@ =~= p.skip(i + 1));
                    assert(part@.len() > 0);
                    assert(part@ != seq!['.']);
                    assert(named_parts(p) == named_parts(p.take(i as int)).push(part@));
                }
                Some(part)
            }
        },
    }
}

/// A path without `/` is one part.
proof fn lemma_no_slash(p: Seq<char>)
    requires
        forall|j: int| 0 <= j < p.len() ==> p[j] != '/',
    ensures
        split_slash(p) == seq![p],
        named_parts(p) == (if p.len() > 0 && p != seq!['.'] { seq![p] } else { Seq::<Seq<char>>::empty() }),
{
    crate::text::lemma_find_char(p, '/');
    match find_char(p, '/') {
        Some(k) => {
            assert(p[k] == '/');
        },
        None => {},
    }
    assert(split_slash(p) == seq![p]);
    reveal_with_fuel(Seq::filter, 2);
    assert(seq![p].drop_last() =~= Seq::<Seq<char>>::empty());
}

/// Splitting at the last `/` (at `i`): the parts before it, then the
/// final part.
proof fn lemma_split_last(p: Seq<char>, i: int)
    requires
        0 <= i < p.len(),
        p[i] == '/',
        forall|j: int| i < j < p.len() ==> p[j] != '/',
    ensures
        split_slash(p) == split_slash(p.take(i)).push(p.skip(i + 1)),
        named_parts(p) == (if p.skip(i + 1).len() > 0 && p.skip(i + 1) != seq!['.'] {
            named_parts(p.take(i)).push(p.skip(i + 1))
        } else {
            named_parts(p.take(i))
        }),
    decreases p.len(),
{
    crate::text::lemma_find_char(p, '/');
    let k = find_char(p, '/').unwrap();
    if k == i {
        crate::text::lemma_find_char(p.skip(i + 1), '/');
        assert(split_slash(p.skip(i + 1)) == seq![p.skip(i + 1)]);
        crate::text::lemma_find_char(p.take(i), '/');
        assert(find_char(p.take(i), '/') is None) by {
            match find_char(p.take(i), '/') {
                Some(q) => {
                    assert(p.take(i)[q] == '/');
                },
                None => {},
            }
        }
        assert(split_slash(p.take(i)) == seq![p.take(i)]);
    } else {
        let rest = p.skip(k + 1);
        lemma_split_last(rest, i - k - 1);
        assert(rest.take(i - k - 1) =~= p.take(i).skip(k + 1));
        assert(rest.skip(i - k) =~= p.skip(i + 1));
        crate::text::lemma_find_char(p.take(i), '/');
        assert(find_char(p.take(i), '/') == Some(k)) by {
            match find_char(p.take(i), '/') {
                Some(q) => {
                    assert(p.take(i)[q] == '/');
                    assert(p[q] == '/');
                    if q > k {
                    }
                    assert(p.take(i)[k] == '/');
                },
                None => {
                    assert(p.take(i)[k] == '/');
                },
            }
        }
        assert(p.take(i).take(k) =~= p.take(k));
        assert(split_slash(p.take(i)) == seq![p.take(k)] + split_slash(p.take(i).skip(k + 1)));
        assert(split_slash(p) =~= split_slash(p.take(i)).push(p.skip(i + 1)));
    }
    let pred = |c: Seq<char>| c.len() > 0 && c != seq!['.'];
    Seq::filter_distributes_over_add(split_slash(p.take(i)), seq![p.skip(i + 1)], pred);
    assert(split_slash(p.take(i)).push(p.skip(i + 1)) =~= split_slash(p.take(i)) + seq![p.skip(i + 1)]);
    reveal_with_fuel(Seq::filter, 2);
    assert(seq![p.skip(i + 1)].drop_last() =~= Seq::<Seq<char>>::empty());
}

/// The file name of `path`, if it has one.
pub fn path_file_name(path: &str) -> (r: Option<String>)
    ensures
        match r {
            Some(n) => file_name(path@) == Some(n@),
            None => file_name(path@) is None,
        },
{
    let v = chars_of(path);
    let last = last_named_part(&v, v.len());
    proof {
        assert(v@.take(v@.len() as int) =~= path@);
    }
    match last {
        None => None,
        Some(n) => {
            let nv = chars_of(n.as_str());
            if nv.len() == 2 && nv[0] == '.' && nv[1] == '.' {
                proof {
                    assert(n@ =~= seq!['.', '.']);
                }
                None
            } else {
                proof {
                    if nv.len() == 2 {
                        assert(n@[0] != '.' || n@[1] != '.');
                    }
                }
                Some(n)
            }
        },
    }
}

/// What packing reads of a file-system entry.
#[derive(Debug, Clone, Copy, PartialEq, Eq, Structural)]
pub struct FsMeta {
    pub kind: EntryKind,
    /// Permission bits as the file system reports them.
    pub mode: u32,
    pub size: u64,
    /// Modification time, seconds since the Unix epoch (0 when unknown).
    pub mtime: u64,
}

/// A tar header to write, followed by the contents of `source` (a path
/// relative to the packed directory) for a regular file.
#[derive(Debug)]
pub struct HeaderPlan {
    pub name: String,
    pub kind: EntryKind,
    pub mode: u32,
    pub size: u64,
    pub mtime: u64,
    pub source: Option<String>,
}

pub struct HeaderView {
    pub name: Seq<char>,
    pub kind: EntryKind,
    pub mode: u32,
    pub size: u64,
    pub mtime: u64,
    pub source: Option<Seq<char>>,
}

impl View for HeaderPlan {
    type V = HeaderView;

    open spec fn view(&self) -> HeaderView {
        HeaderView {
            name: self.name@,
            kind: self.kind,
            mode: self.mode,
            size: self.size,
            mtime: self.mtime,
            source: match self.source {
                Some(s) => Some(s@),
                None => None,
            },
        }
    }
}

pub open spec fn header_views(v: Seq<HeaderPlan>) -> Seq<HeaderView> {
    v.map_values(|h: HeaderPlan| h@)
}

/// The name a packed directory is archived under: its file name, or
/// `root` when it has none.
pub open spec fn spec_root_name(dir: Seq<char>) -> Seq<char> {
    match file_name(dir) {
        Some(n) => n,
        None => "root"@,
    }
}

/// The name a packed directory is archived under.
pub fn root_name(dir: &str) -> (r: String)
    ensures
        r@ == spec_root_name(dir@),
{
    match path_file_name(dir) {
        Some(n) => n,
        None => String::from_str("root"),
    }
}

/// The first header of a packed directory: the directory itself.
pub open spec fn root_header(root: Seq<char>, mtime: u64) -> HeaderView {
    HeaderView { name: root, kind: EntryKind::Directory, mode: 0o755u32, size: 0, mtime, source: None }
}

/// The header of entry `e` (relative path and metadata) under `root`:
/// named `<root>/<rel>`, permission bits masked to 0o777, size 0 for a
/// directory; a regular file's contents come from `rel`.
pub open spec fn entry_header(root: Seq<char>, e: (String, FsMeta)) -> HeaderView {
    HeaderView {
        name: root + "/"@ + e.0@,
        kind: e.1.kind,
        mode: e.1.mode & 0o777u32,
        size: if e.1.kind == EntryKind::Directory { 0 } else { e.1.size },
        mtime: e.1.mtime,
        source: if e.1.kind == EntryKind::Regular { Some(e.0@) } else { None },
    }
}

/// Entries that are archived: directories and regular files.
pub open spec fn archived(e: (String, FsMeta)) -> bool {
    e.1.kind != EntryKind::Other
}

/// Headers for the archived entries of `s`, in order.
pub open spec fn entry_headers(root: Seq<char>, s: Seq<(String, FsMeta)>) -> Seq<HeaderView> {
    s.filter(|e: (String, FsMeta)| archived(e)).map_values(|e: (String, FsMeta)| entry_header(root, e))
}

fn header_for(root: &str, rel: &String, meta: FsMeta) -> (h: HeaderPlan)
    requires
        meta.kind != EntryKind::Other,
    ensures
        h@ == entry_header(root@, (*rel, meta)),
{
    let mut name = String::new();
    push_str(&mut name, root);
    push_str(&mut name, "/");
    push_str(&mut name, rel.as_str());
    let dir = meta.kind == EntryKind::Directory;
    HeaderPlan {
        name,
        kind: meta.kind,
        mode: meta.mode & 0o777,
        size: if dir { 0 } else { meta.size },
        mtime: meta.mtime,
        source: if meta.kind == EntryKind::Regular { Some(rel.clone()) } else { None },
    }
}

/// The headers of a packed directory named `root` (modified at
/// `root_mtime`) holding `entries` (paths relative to it, found by a
/// walk that does not follow symlinks): the directory itself with mode
/// 0o755, then its directories and regular files ordered by path; other
/// kinds are left out.
pub fn plan_directory(root: &str, root_mtime: u64, entries: Vec<(String, FsMeta)>) -> (r: Vec<HeaderPlan>)
    ensures
        exists|s: Seq<(String, FsMeta)>| #![auto] s.to_multiset() == entries@.to_multiset()
            && crate::sorting::sorted_by_key(s)
            && header_views(r@) == seq![root_header(root@, root_mtime)] + entry_headers(root@, s),
{
    let sorted = crate::sorting::sort_records(entries);
    let mut out: Vec<HeaderPlan> = Vec::new();
    out.push(HeaderPlan {
        name: String::from_str(root),
        kind: EntryKind::Directory,
        mode: 0o755,
        size: 0,
        mtime: root_mtime,
        source: None,
    });
    let ghost pred = |e: (String, FsMeta)| archived(e);
    let ghost f = |e: (String, FsMeta)| entry_header(root@, e);
    let mut i: usize = 0;
    proof {
        assert(sorted@.take(0) =~= Seq::<(String, FsMeta)>::empty());
        reveal_with_fuel(Seq::filter, 1);
        assert(header_views(out@) =~= seq![root_header(root@, root_mtime)] + entry_headers(root@, sorted@.take(0)));
    }
    while i < sorted.len()
        invariant
            i <= sorted@.len(),
            pred == (|e: (String, FsMeta)| archived(e)),
            header_views(out@) == seq![root_header(root@, root_mtime)] + entry_headers(root@, sorted@.take(i as int)),
        decreases sorted.len() - i,
    {
        let (rel, meta) = (&sorted[i].0, sorted[i].1);
        proof {
            sorted@.take(i as int).lemma_filter_push(sorted@[i as int], pred);
            assert(sorted@.take(i + 1) =~= sorted@.take(i as int).push(sorted@[i as int]));
        }
        if meta.kind != EntryKind::Other {
            let ghost before = header_views(out@);
            let h = header_for(root, rel, meta);
            out.push(h);
            proof {
                assert(header_views(out@) =~= before.push(h@));
                assert(entry_headers(root@, sorted@.take(i + 1)) =~= entry_headers(root@, sorted@.take(i as int)).push(h@));
            }
        }
        i += 1;
    }
    proof {
        assert(sorted@.take(i as int) =~= sorted@);
    }
    out
}

/// The header of a single packed file: its file name, its permission
/// bits masked to 0o777, its size and time; a path without a file name is
/// refused.
pub fn plan_file(path: &str, meta: FsMeta) -> (r: Result<HeaderPlan, ArchiveError>)
    ensures
        match file_name(path@) {
            Some(n) => r matches Ok(h) && h@ == (HeaderView {
                name: n,
                kind: EntryKind::Regular,
                mode: meta.mode & 0o777u32,
                size: meta.size,
                mtime: meta.mtime,
                source: None,
            }),
            None => r matches Err(ArchiveError::NoFileName { path: p }) && p@ == path@,
        },
{
    match path_file_name(path) {
        Some(name) => Ok(HeaderPlan {
            name,
            kind: EntryKind::Regular,
            mode: meta.mode & 0o777,
            size: meta.size,
            mtime: meta.mtime,
            source: None,
        }),
        None => Err(ArchiveError::NoFileName { path: String::from_str(path) }),
    }
}

// ------------------------------------------------------------ idempotence

/// No `/` in `s`.
pub open spec fn slash_free(s: Seq<char>) -> bool {
    forall|j: int| 0 <= j < s.len() ==> s[j] != '/'
}

/// The shape of normalized components: names without `/`, no empty part,
/// no `.`, and `..` only in front.
pub open spec fn normal(c: Seq<Seq<char>>) -> bool {
    &&& forall|i: int| 0 <= i < c.len() ==> #[trigger] c[i].len() > 0 && slash_free(c[i]) && c[i] != seq!['.']
    &&& forall|i: int, j: int|
        0 <= j < i < c.len() && #[trigger] c[i] == seq!['.', '.'] ==> #[trigger] c[j] == seq!['.', '.']
}

/// The parts of a split hold no `/`.
proof fn lemma_split_slash_free(p: Seq<char>)
    ensures
        forall|i: int| 0 <= i < split_slash(p).len() ==> slash_free(#[trigger] split_slash(p)[i]),
    decreases p.len(),
{
    crate::text::lemma_find_char(p, '/');
    match find_char(p, '/') {
        None => {
            lemma_no_slash(p);
        },
        Some(k) => {
            lemma_split_slash_free(p.skip(k + 1));
            let s = split_slash(p);
            assert(s == seq![p.take(k)] + split_slash(p.skip(k + 1)));
            assert forall|i: int| 0 <= i < s.len() implies slash_free(#[trigger] s[i]) by {
                if i > 0 {
                    assert(s[i] == split_slash(p.skip(k + 1))[i - 1]);
                }
            }
        },
    }
}

/// Normalizing slash-free parts onto normal components keeps them normal.
proof fn lemma_norm_all_normal(acc: Seq<Seq<char>>, parts: Seq<Seq<char>>)
    requires
        normal(acc),
        forall|i: int| 0 <= i < parts.len() ==> slash_free(#[trigger] parts[i]),
    ensures
        normal(norm_all(acc, parts)),
    decreases parts.len(),
{
    if parts.len() > 0 {
        let next = norm_step(acc, parts[0]);
        assert(slash_free(parts[0]));
        let dd = seq!['.', '.'];
        assert(normal(next)) by {
            if parts[0].len() == 0 || parts[0] == seq!['.'] {
            } else if parts[0] == dd && acc.len() > 0 && acc.last() != dd {
                assert forall|i: int| 0 <= i < next.len() implies #[trigger] next[i].len() > 0 && slash_free(next[i])
                    && next[i] != seq!['.'] by {
                    assert(next[i] == acc[i]);
                }
                assert forall|i: int, j: int| 0 <= j < i < next.len() && #[trigger] next[i] == dd implies #[trigger] next[j] == dd by {
                    assert(next[i] == acc[i]);
                    assert(next[j] == acc[j]);
                }
            } else {
                assert forall|i: int| 0 <= i < next.len() implies #[trigger] next[i].len() > 0 && slash_free(next[i])
                    && next[i] != seq!['.'] by {
                    if i < acc.len() {
                        assert(next[i] == acc[i]);
                    }
                }
                assert forall|i: int, j: int| 0 <= j < i < next.len() && #[trigger] next[i] == dd implies #[trigger] next[j] == dd by {
                    assert(next[j] == acc[j]);
                    if i < acc.len() {
                        assert(next[i] == acc[i]);
                    } else if parts[0] == dd {
                        assert(acc.last() == dd);
                        assert(acc[acc.len() - 1] == dd);
                        if j < acc.len() - 1 {
                            assert(acc[j] == dd);
                        }
                    }
                }
            }
        }
        assert forall|i: int| 0 <= i < parts.drop_first().len() implies slash_free(#[trigger] parts.drop_first()[i]) by {
            assert(parts.drop_first()[i] == parts[i + 1]);
        }
        lemma_norm_all_normal(next, parts.drop_first());
    }
}

/// Normal components normalize to themselves.
proof fn lemma_norm_all_fixed(c: Seq<Seq<char>>, k: int)
    requires
        normal(c),
        0 <= k <= c.len(),
    ensures
        norm_all(c.take(k), c.skip(k)) == c,
    decreases c.len() - k,
{
    if k == c.len() {
        assert(c.take(k) =~= c);
        assert(c.skip(k) =~= Seq::<Seq<char>>::empty());
    } else {
        let part = c.skip(k)[0];
        assert(part == c[k]);
        assert(c[k].len() > 0);
        assert(norm_step(c.take(k), part) =~= c.take(k + 1)) by {
            if part == seq!['.', '.'] && k > 0 {
                assert(c[k - 1] == seq!['.', '.']);
                assert(c.take(k).last() == c[k - 1]);
            }
        }
        assert(c.skip(k).drop_first() =~= c.skip(k + 1));
        lemma_norm_all_fixed(c, k + 1);
    }
}

/// Splitting joined slash-free, non-empty components gives them back.
proof fn lemma_split_join(c: Seq<Seq<char>>)
    requires
        c.len() > 0,
        forall|i: int| 0 <= i < c.len() ==> slash_free(#[trigger] c[i]),
    ensures
        split_slash(join_slash(c)) == c,
        join_slash(c).len() >= c[0].len(),
        forall|j: int| 0 <= j < c[0].len() ==> join_slash(c)[j] == c[0][j],
    decreases c.len(),
{
    if c.len() == 1 {
        assert(slash_free(c[0]));
        lemma_no_slash(c[0]);
        assert(seq![c[0]] =~= c);
    } else {
        let x = join_slash(c.drop_last());
        let l = c.last();
        assert(slash_free(c[c.len() - 1]));
        assert forall|i: int| 0 <= i < c.drop_last().len() implies slash_free(#[trigger] c.drop_last()[i]) by {
            assert(c.drop_last()[i] == c[i]);
        }
        lemma_split_join(c.drop_last());
        let p = x + seq!['/'] + l;
        assert(p == join_slash(c));
        let i = x.len() as int;
        assert(p.take(i) =~= x);
        assert(p.skip(i + 1) =~= l);
        lemma_split_last(p, i);
        assert(c.drop_last().push(l) =~= c);
    }
}

/// A path normalizes to a path that normalizes to the same components:
/// normalization is idempotent.
pub proof fn lemma_normalize_idempotent(p: Seq<char>)
    ensures
        normal_form(spec_normalize(p)) == normal_form(p),
        spec_normalize(spec_normalize(p)) == spec_normalize(p),
{
    let (r, c) = normal_form(p);
    lemma_split_slash_free(p);
    lemma_norm_all_normal(Seq::empty(), split_slash(p));
    let q = spec_normalize(p);
    assert(c.take(0) =~= Seq::<Seq<char>>::empty());
    assert(c.skip(0) =~= c);
    lemma_norm_all_fixed(c, 0);
    if c.len() == 0 {
        let j = join_slash(c);
        assert(j =~= Seq::<char>::empty());
        lemma_no_slash(j);
        if r {
            assert(q =~= seq!['/']);
            crate::text::lemma_find_char(q, '/');
            assert(find_char(q, '/') == Some(0int));
            assert(q.skip(1) =~= j);
            assert(split_slash(q) == seq![q.take(0)] + split_slash(q.skip(1)));
            assert(q.take(0) =~= Seq::<char>::empty());
        } else {
            assert(q =~= j);
        }
        reveal_with_fuel(norm_all, 3);
        assert(norm_all(Seq::empty(), split_slash(q)) =~= Seq::<Seq<char>>::empty());
    } else {
        assert forall|i: int| 0 <= i < c.len() implies slash_free(#[trigger] c[i]) by {
            assert(c[i].len() > 0);
        }
        lemma_split_join(c);
        let j = join_slash(c);
        if r {
            assert(q == seq!['/'] + j);
            crate::text::lemma_find_char(q, '/');
            assert(find_char(q, '/') == Some(0int));
            assert(q.skip(1) =~= j);
            assert(q.take(0) =~= Seq::<char>::empty());
            assert(split_slash(q) == seq![Seq::<char>::empty()] + c);
            assert((seq![Seq::<char>::empty()] + c).drop_first() =~= c);
            assert(norm_step(Seq::<Seq<char>>::empty(), Seq::<char>::empty()) == Seq::<Seq<char>>::empty());
        } else {
            assert(q == j);
            assert(c[0].len() > 0);
            assert(q[0] == c[0][0]);
            assert(slash_free(c[0]));
        }
    }
}

// ------------------------------------------------------------ ordinary entries

/// Splitting at a `/` between two texts splits each side.
proof fn lemma_split_concat(x: Seq<char>, y: Seq<char>)
    ensures
        split_slash(x + seq!['/'] + y) == split_slash(x) + split_slash(y),
    decreases x.len(),
{
    let p = x + seq!['/'] + y;
    crate::text::lemma_find_char(p, '/');
    crate::text::lemma_find_char(x, '/');
    match find_char(x, '/') {
        None => {
            assert(p[x.len() as int] == '/');
            assert(find_char(p, '/') == Some(x.len() as int)) by {
                match find_char(p, '/') {
                    Some(k) => {
                        if k < x.len() {
                            assert(p[k] == x[k]);
                        }
                    },
                    None => {},
                }
            }
            assert(p.take(x.len() as int) =~= x);
            assert(p.skip(x.len() + 1int) =~= y);
            lemma_no_slash(x);
        },
        Some(k) => {
            assert(p[k] == '/');
            assert(find_char(p, '/') == Some(k)) by {
                match find_char(p, '/') {
                    Some(q) => {
                        if q < k {
                            assert(p[q] == x[q]);
                        }
                    },
                    None => {},
                }
            }
            let rest = x.skip(k + 1);
            lemma_split_concat(rest, y);
            assert(p.take(k) =~= x.take(k));
            assert(p.skip(k + 1) =~= rest + seq!['/'] + y);
        },
    }
}

/// Normalizing two runs of parts in turn is normalizing their sequence.
proof fn lemma_norm_all_append(acc: Seq<Seq<char>>, a: Seq<Seq<char>>, b: Seq<Seq<char>>)
    ensures
        norm_all(acc, a + b) == norm_all(norm_all(acc, a), b),
    decreases a.len(),
{
    if a.len() == 0 {
        assert(a + b =~= b);
    } else {
        assert((a + b)[0] == a[0]);
        assert((a + b).drop_first() =~= a.drop_first() + b);
        lemma_norm_all_append(norm_step(acc, a[0]), a.drop_first(), b);
    }
}

/// Parts without `..` only ever add components.
proof fn lemma_norm_all_extends(acc: Seq<Seq<char>>, b: Seq<Seq<char>>)
    requires
        forall|i: int| 0 <= i < b.len() ==> #[trigger] b[i] != seq!['.', '.'],
    ensures
        norm_all(acc, b).len() >= acc.len(),
        norm_all(acc, b).take(acc.len() as int) == acc,
    decreases b.len(),
{
    if b.len() == 0 {
        assert(acc.take(acc.len() as int) =~= acc);
    } else {
        let next = norm_step(acc, b[0]);
        assert(b[0] != seq!['.', '.']);
        assert(next.len() >= acc.len() && next.take(acc.len() as int) =~= acc);
        assert forall|i: int| 0 <= i < b.drop_first().len() implies #[trigger] b.drop_first()[i] != seq!['.', '.'] by {
            assert(b.drop_first()[i] == b[i + 1]);
        }
        lemma_norm_all_extends(next, b.drop_first());
        let r = norm_all(next, b.drop_first());
        assert(r.take(acc.len() as int) =~= r.take(next.len() as int).take(acc.len() as int));
    }
}

/// Ordinary entries are never refused: a relative entry path without any
/// `..` component lands under the destination.
pub proof fn lemma_plain_entry_accepted(dest: Seq<char>, entry: Seq<char>)
    requires
        !rooted(entry),
        forall|i: int| 0 <= i < split_slash(entry).len() ==> #[trigger] split_slash(entry)[i] != seq!['.', '.'],
    ensures
        spec_entry_target(dest, entry) is Some,
{
    let joined = path_join(dest, entry);
    lemma_norm_all_extends(Seq::empty(), split_slash(entry));
    if dest.len() == 0 {
        assert(joined == entry);
        lemma_no_slash(dest);
        reveal_with_fuel(norm_all, 2);
        assert(normal_form(dest).1 == Seq::<Seq<char>>::empty());
    } else {
        let x = if dest.last() == '/' { dest.drop_last() } else { dest };
        assert(joined =~= x + seq!['/'] + entry) by {
            if dest.last() == '/' {
                assert(dest =~= dest.drop_last() + seq!['/']);
            }
        }
        lemma_split_concat(x, entry);
        let dx = norm_all(Seq::empty(), split_slash(x));
        lemma_norm_all_append(Seq::empty(), split_slash(x), split_slash(entry));
        lemma_norm_all_extends(dx, split_slash(entry));
        assert(normal_form(dest).1 == dx) by {
            if dest.last() == '/' {
                assert(dest =~= x + seq!['/'] + Seq::<char>::empty());
                lemma_split_concat(x, Seq::<char>::empty());
                lemma_no_slash(Seq::<char>::empty());
                lemma_norm_all_append(Seq::empty(), split_slash(x), seq![Seq::<char>::empty()]);
                reveal_with_fuel(norm_all, 2);
                assert(seq![Seq::<char>::empty()].drop_first() =~= Seq::<Seq<char>>::empty());
            }
        }
        assert(rooted(joined) == rooted(dest)) by {
            if x.len() > 0 {
                assert(joined[0] == x[0]);
                assert(dest[0] == x[0]);
            } else {
                assert(joined[0] == '/');
                assert(dest[0] == '/');
            }
        }
    }
}

// ------------------------------------------------------------ the tar.gz stream

/// What the tar writer is handed per entry: name, whether it is a
/// directory, permission bits, modification time and contents.
pub type StreamEntry = (Seq<char>, bool, u32, u64, Seq<u8>);

/// An entry as read back: path, kind, permission bits (when the header's
/// field is readable) and contents.
pub type ReadEntry = (Seq<char>, EntryKind, Option<u32>, Seq<u8>);

/// The gzip-compressed (default level) tar stream that `tar::Builder`
/// writes for `entries`, in order, with GNU headers.
pub uninterp spec fn tar_gz_of(entries: Seq<(Seq<char>, bool, u32, u64, Seq<u8>)>) -> Seq<u8>;

/// The entries `tar::Archive` reads from the gzip-compressed stream
/// `data`, or `None` when the stream cannot be read.
pub uninterp spec fn tar_gz_entries_of(data: Seq<u8>) -> Option<Seq<(Seq<char>, EntryKind, Option<u32>, Seq<u8>)>>;

struct CodecFailure;

/// Bytes of a character in UTF-8.
pub open spec fn utf8_width(c: char) -> nat {
    if (c as u32) < 0x80 {
        1
    } else if (c as u32) < 0x800 {
        2
    } else if (c as u32) < 0x10000 {
        3
    } else {
        4
    }
}

/// Bytes of a text in UTF-8.
pub open spec fn utf8_len(n: Seq<char>) -> nat
    decreases n.len(),
{
    if n.len() == 0 {
        0
    } else {
        utf8_len(n.drop_last()) + utf8_width(n.last())
    }
}

/// A name the tar writer stores verbatim in a GNU header's name field:
/// under 100 bytes in UTF-8, without NUL, made of `/`-separated non-empty
/// components none of which is `.` or `..`.
pub open spec fn plain_name(n: Seq<char>) -> bool {
    &&& utf8_len(n) < 100
    &&& forall|i: int| 0 <= i < n.len() ==> #[trigger] n[i] != '\0'
    &&& forall|i: int| 0 <= i < split_slash(n).len() ==> (#[trigger] split_slash(n)[i]).len() > 0
        && split_slash(n)[i] != seq!['.'] && split_slash(n)[i] != seq!['.', '.']
}

/// An entry that reads back as written: a plain name, permission bits
/// that fit the mode field, and no contents for a directory.
pub open spec fn storable(e: StreamEntry) -> bool {
    plain_name(e.0) && e.2 <= 0o7777u32 && (e.1 ==> e.4.len() == 0)
}

pub open spec fn all_storable(es: Seq<StreamEntry>) -> bool {
    forall|i: int| 0 <= i < es.len() ==> storable(#[trigger] es[i])
}

/// How a written entry reads back.
pub open spec fn read_back(e: StreamEntry) -> ReadEntry {
    (e.0, if e.1 { EntryKind::Directory } else { EntryKind::Regular }, Some(e.2), e.4)
}

pub open spec fn read_back_all(es: Seq<StreamEntry>) -> Seq<ReadEntry> {
    es.map_values(|e: StreamEntry| read_back(e))
}

pub open spec fn stream_views(v: Seq<(String, bool, u32, u64, Vec<u8>)>) -> Seq<StreamEntry> {
    v.map_values(|e: (String, bool, u32, u64, Vec<u8>)| (e.0@, e.1, e.2, e.3, e.4@))
}

/// `tar::Builder` over a `flate2` `GzEncoder` (default compression)
/// writing into memory: for each entry a GNU header (type, mode, size as
/// the contents' length, mtime, `set_path` with its name, checksum)
/// appended with its contents, then the finished gzip stream. Writing to
/// memory cannot fail, so an error means `set_path` refused the name: in
/// a GNU header it accepts a relative name that fits the 100-byte name
/// field, holds no NUL and has no empty, `.` or `..` component, so
/// storable entries are always written.
#[verifier::external_body]
fn tar_gz_encode(entries: &Vec<(String, bool, u32, u64, Vec<u8>)>) -> (r: Result<Vec<u8>, CodecFailure>)
    ensures
        r matches Ok(b) ==> b@ == tar_gz_of(stream_views(entries@)),
        all_storable(stream_views(entries@)) ==> r is Ok,
{
    let mut b = tar::Builder::new(flate2::write::GzEncoder::new(Vec::new(), flate2::Compression::default()));
    for (name, dir, mode, mtime, data) in entries.iter() {
        let mut h = tar::Header::new_gnu();
        h.set_entry_type(if *dir { tar::EntryType::Directory } else { tar::EntryType::Regular });
        h.set_mode(*mode);
        h.set_size(data.len() as u64);
        h.set_mtime(*mtime);
        h.set_path(name).map_err(|_| CodecFailure)?;
        h.set_cksum();
        b.append(&h, data.as_slice()).map_err(|_| CodecFailure)?;
    }
    let gz = b.into_inner().map_err(|_| CodecFailure)?;
    gz.finish().map_err(|_| CodecFailure)
}

/// An entry read from an archive.
#[derive(Debug)]
pub struct TarEntry {
    pub path: String,
    pub kind: EntryKind,
    pub mode: Option<u32>,
    pub data: Vec<u8>,
}

pub open spec fn read_views(v: Seq<TarEntry>) -> Seq<ReadEntry> {
    v.map_values(|e: TarEntry| (e.path@, e.kind, e.mode, e.data@))
}

/// `tar::Archive` over a `flate2` `GzDecoder` reading `data`: every entry
/// in order, its path (lossily as UTF-8), its type (directory, regular
/// file, anything else), its mode and its contents. Reading from memory,
/// the outcome depends on `data` alone. A stream that `tar_gz_encode`
/// wrote from storable entries reads back as written: `set_path` copies a
/// plain name's UTF-8 bytes, component by component, into the header's
/// name field, `Entry::path` returns those bytes and `to_string_lossy`
/// gives the same text back; `set_mode` and `mode` store and parse the
/// same octal field; the type byte and the contents come back unchanged.
#[verifier::external_body]
fn tar_gz_decode(data: &[u8]) -> (r: Result<Vec<TarEntry>, CodecFailure>)
    ensures
        match r {
            Ok(v) => tar_gz_entries_of(data@) == Some(read_views(v@)) && forall|es: Seq<StreamEntry>|
                all_storable(es) && data@ == #[trigger] tar_gz_of(es) ==> read_views(v@) == read_back_all(es),
            Err(_) => tar_gz_entries_of(data@) is None && forall|es: Seq<StreamEntry>|
                all_storable(es) ==> data@ != #[trigger] tar_gz_of(es),
        },
{
    let mut a = tar::Archive::new(GzDecoder::new(data));
    let mut out = Vec::new();
    for e in a.entries().map_err(|_| CodecFailure)? {
        let mut e = e.map_err(|_| CodecFailure)?;
        let kind = match e.header().entry_type() {
            EntryType::Directory => EntryKind::Directory,
            EntryType::Regular => EntryKind::Regular,
            _ => EntryKind::Other,
        };
        let (mode, path) = (e.header().mode().ok(), e.path().map_err(|_| CodecFailure)?.to_string_lossy().into_owned());
        let mut data = Vec::new();
        e.read_to_end(&mut data).map_err(|_| CodecFailure)?;
        out.push(TarEntry { path, kind, mode, data });
    }
    Ok(out)
}

/// What the writer is handed for a planned header and its contents.
pub open spec fn stream_entry(h: HeaderView, contents: Seq<u8>) -> StreamEntry {
    (h.name, h.kind == EntryKind::Directory, h.mode, h.mtime, contents)
}

pub open spec fn planned_stream(plans: Seq<HeaderPlan>, contents: Seq<Vec<u8>>) -> Seq<StreamEntry>
    recommends
        plans.len() == contents.len(),
{
    Seq::new(plans.len(), |i: int| stream_entry(plans[i]@, contents[i]@))
}

/// The tar.gz archive of planned headers, `contents[i]` written after
/// `plans[i]` (empty for directories).
pub fn pack(plans: &Vec<HeaderPlan>, contents: &Vec<Vec<u8>>) -> (r: Result<Vec<u8>, ArchiveError>)
    requires
        plans@.len() == contents@.len(),
    ensures
        match r {
            Ok(b) => b@ == tar_gz_of(planned_stream(plans@, contents@)),
            Err(e) => e is Unwritable,
        },
        all_storable(planned_stream(plans@, contents@)) ==> r is Ok,
{
    let mut entries: Vec<(String, bool, u32, u64, Vec<u8>)> = Vec::new();
    let mut i: usize = 0;
    while i < plans.len()
        invariant
            i <= plans@.len() == contents@.len(),
            stream_views(entries@) == planned_stream(plans@, contents@).take(i as int),
        decreases plans.len() - i,
    {
        let h = &plans[i];
        let c = contents[i].clone();
        proof {
            assert(c@ =~= contents@[i as int]@);
        }
        let e = (h.name.clone(), h.kind == EntryKind::Directory, h.mode, h.mtime, c);
        let ghost before = stream_views(entries@);
        entries.push(e);
        proof {
            assert(stream_views(entries@) =~= before.push(stream_entry(plans@[i as int]@, contents@[i as int]@)));
            assert(planned_stream(plans@, contents@).take(i + 1) =~= planned_stream(plans@, contents@).take(i as int).push(
                stream_entry(plans@[i as int]@, contents@[i as int]@),
            ));
        }
        i += 1;
    }
    proof {
        assert(planned_stream(plans@, contents@).take(i as int) =~= planned_stream(plans@, contents@));
    }
    match tar_gz_encode(&entries) {
        Ok(b) => Ok(b),
        Err(_) => Err(ArchiveError::Unwritable),
    }
}

/// `s` is the step `unpack_step` gives for an entry of kind `kind` (a
/// directory or a regular file) at `entry` under `abs_dest`.
pub open spec fn step_for(abs_dest: Seq<char>, entry: Seq<char>, kind: EntryKind, mode: Option<u32>, s: UnpackStep) -> bool {
    let t = spec_normalize(path_join(abs_dest, entry));
    match kind {
        EntryKind::Directory => s matches UnpackStep::CreateDir { path } && path@ == t,
        EntryKind::Regular => s matches UnpackStep::WriteFile { path, parent, mode: m } && path@ == t && m == file_mode(mode)
            && (match parent {
            Some(p) => parent_form(normal_form(path_join(abs_dest, entry))) == Some(p@),
            None => parent_form(normal_form(path_join(abs_dest, entry))) is None,
        }),
        EntryKind::Other => false,
    }
}

/// The entry would land outside `abs_dest`.
pub open spec fn escapes(abs_dest: Seq<char>, e: ReadEntry) -> bool {
    spec_entry_target(abs_dest, e.0) is None
}

/// Unpacking writes directories and regular files.
pub open spec fn is_kept(e: ReadEntry) -> bool {
    e.1 != EntryKind::Other
}

/// The entries that unpacking writes.
pub open spec fn kept(es: Seq<ReadEntry>) -> Seq<ReadEntry> {
    es.filter(|e: ReadEntry| is_kept(e))
}

/// `steps` performs the entries `es` under `abs_dest`: one step per kept
/// entry, in order, with that entry's contents.
pub open spec fn performs(abs_dest: Seq<char>, es: Seq<ReadEntry>, steps: Seq<(UnpackStep, Vec<u8>)>) -> bool {
    &&& steps.len() == kept(es).len()
    &&& forall|i: int| 0 <= i < steps.len() ==> step_for(abs_dest, kept(es)[i].0, kept(es)[i].1, kept(es)[i].2, #[trigger] steps[i].0)
        && steps[i].1@ == kept(es)[i].3
}

/// The outcome of unpacking entries `es` under `abs_dest`: when none
/// would land outside it, steps that perform them; otherwise the refusal
/// of the first that would, whatever its kind.
pub open spec fn unpack_outcome(abs_dest: Seq<char>, es: Seq<ReadEntry>, r: Result<Vec<(UnpackStep, Vec<u8>)>, ArchiveError>) -> bool {
    match r {
        Ok(steps) => (forall|i: int| 0 <= i < es.len() ==> !escapes(abs_dest, #[trigger] es[i])) && performs(abs_dest, es, steps@),
        Err(e) => exists|i: int| 0 <= i < es.len() && escapes(abs_dest, #[trigger] es[i])
            && (forall|j: int| 0 <= j < i ==> !escapes(abs_dest, #[trigger] es[j]))
            && (e matches ArchiveError::IllegalPath { path } && path@ == es[i].0),
    }
}

/// The steps that unpack the entries `entries` under `abs_dest`
/// (absolute and normalized), or the refusal of the first entry, of any
/// kind, that would land outside it.
#[verifier::spinoff_prover]
pub fn unpack_entries(abs_dest: &str, entries: Vec<TarEntry>) -> (r: Result<Vec<(UnpackStep, Vec<u8>)>, ArchiveError>)
    ensures
        unpack_outcome(abs_dest@, read_views(entries@), r),
{
    let ghost es = read_views(entries@);
    let ghost pred = |e: ReadEntry| is_kept(e);
    let mut out: Vec<(UnpackStep, Vec<u8>)> = Vec::new();
    let mut i: usize = 0;
    proof {
        reveal_with_fuel(Seq::filter, 1);
        assert(es.take(0) =~= Seq::<ReadEntry>::empty());
        assert(kept(es.take(0)) =~= Seq::<ReadEntry>::empty());
    }
    while i < entries.len()
        invariant
            i <= entries@.len(),
            es == read_views(entries@),
            pred == (|e: ReadEntry| is_kept(e)),
            forall|j: int| 0 <= j < i ==> !escapes(abs_dest@, #[trigger] es[j]),
            performs(abs_dest@, es.take(i as int), out@),
        decreases entries.len() - i,
    {
        let e = &entries[i];
        let ghost ev = es[i as int];
        proof {
            assert(ev == (e.path@, e.kind, e.mode, e.data@));
            es.take(i as int).lemma_filter_push(ev, pred);
            assert(es.take(i + 1) =~= es.take(i as int).push(ev));
        }
        let ghost k0 = kept(es.take(i as int));
        let ghost before = out@;
        match unpack_step(abs_dest, e.path.as_str(), e.kind, e.mode) {
            Err(err) => {
                proof {
                    assert(escapes(abs_dest@, es[i as int]));
                }
                return Err(err);
            },
            Ok(None) => {
                proof {
                    assert(kept(es.take(i + 1)) == k0);
                    assert(performs(abs_dest@, es.take(i + 1), out@));
                }
            },
            Ok(Some(st)) => {
                let d = e.data.clone();
                proof {
                    assert(d@ =~= e.data@);
                    assert(step_for(abs_dest@, ev.0, ev.1, ev.2, st));
                    assert(kept(es.take(i + 1)) == k0.push(ev));
                }
                out.push((st, d));
                proof {
                    assert forall|j: int| 0 <= j < out@.len() implies step_for(abs_dest@, kept(es.take(i + 1))[j].0, kept(es.take(i + 1))[j].1, kept(es.take(i + 1))[j].2, #[trigger] out@[j].0)
                        && out@[j].1@ == kept(es.take(i + 1))[j].3 by {
                        if j < before.len() {
                            assert(out@[j] == before[j]);
                            assert(kept(es.take(i + 1))[j] == k0[j]);
                        }
                    }
                    assert(performs(abs_dest@, es.take(i + 1), out@));
                }
            },
        }
        proof {
            assert(!escapes(abs_dest@, ev));
        }
        i += 1;
    }
    proof {
        assert(es.take(i as int) =~= es);
    }
    Ok(out)
}

/// A plain name is relative and has no `..` component.
proof fn lemma_plain_name_relative(n: Seq<char>)
    requires
        plain_name(n),
    ensures
        !rooted(n),
        forall|i: int| 0 <= i < split_slash(n).len() ==> #[trigger] split_slash(n)[i] != seq!['.', '.'],
{
    crate::text::lemma_find_char(n, '/');
    match find_char(n, '/') {
        None => {},
        Some(k) => {
            assert(split_slash(n)[0] == n.take(k));
            assert(split_slash(n)[0].len() > 0);
        },
    }
    if n.len() > 0 && find_char(n, '/') is None {
        assert(split_slash(n)[0] == n);
    }
}

/// The steps that extract the tar.gz archive `data` under `abs_dest`
/// (absolute and normalized): refused when the stream cannot be read, or
/// at the first entry that would land outside `abs_dest`. An archive that
/// `pack` wrote from storable entries unpacks to exactly those entries.
pub fn unpack(data: &[u8], abs_dest: &str) -> (r: Result<Vec<(UnpackStep, Vec<u8>)>, ArchiveError>)
    ensures
        match tar_gz_entries_of(data@) {
            None => r matches Err(ArchiveError::Corrupt),
            Some(es) => unpack_outcome(abs_dest@, es, r),
        },
        forall|es: Seq<StreamEntry>|
            all_storable(es) && data@ == #[trigger] tar_gz_of(es)
                ==> (r matches Ok(steps) && performs(abs_dest@, read_back_all(es), steps@)),
{
    match tar_gz_decode(data) {
        Err(_) => {
            proof {
                assert(tar_gz_entries_of(data@) is None);
                assert forall|es: Seq<StreamEntry>| all_storable(es) implies data@ != #[trigger] tar_gz_of(es) by {
                }
            }
            Err(ArchiveError::Corrupt)
        },
        Ok(entries) => {
            let ghost ev = read_views(entries@);
            let res = unpack_entries(abs_dest, entries);
            proof {
                assert(tar_gz_entries_of(data@) == Some(ev));
                assert forall|es: Seq<StreamEntry>|
                    all_storable(es) && data@ == #[trigger] tar_gz_of(es)
                        implies (res matches Ok(steps) && performs(abs_dest@, read_back_all(es), steps@)) by {
                    assert(ev == read_back_all(es));
                    if res is Err {
                        let i = choose|i: int| 0 <= i < ev.len() && escapes(abs_dest@, #[trigger] ev[i])
                            && (forall|j: int| 0 <= j < i ==> !escapes(abs_dest@, #[trigger] ev[j]))
                            && (res matches Err(ArchiveError::IllegalPath { path }) && path@ == ev[i].0);
                        assert(storable(es[i]));
                        assert(ev[i].0 == es[i].0);
                        lemma_plain_name_relative(es[i].0);
                        lemma_plain_entry_accepted(abs_dest@, es[i].0);
                    }
                }
            }
            res
        },
    }
}

/// What holds of every item that passes `pred` holds of every item of the
/// filtered sequence.
proof fn lemma_filter_keeps<A>(s: Seq<A>, pred: spec_fn(A) -> bool, prop: spec_fn(A) -> bool)
    requires
        forall|k: int| 0 <= k < s.len() && pred(s[k]) ==> #[trigger] prop(s[k]),
    ensures
        forall|j: int| 0 <= j < s.filter(pred).len() ==> #[trigger] prop(s.filter(pred)[j]),
    decreases s.len(),
{
    reveal_with_fuel(Seq::filter, 1);
    if s.len() > 0 {
        let d = s.drop_last();
        assert forall|k: int| 0 <= k < d.len() && pred(d[k]) implies #[trigger] prop(d[k]) by {
            assert(d[k] == s[k]);
        }
        lemma_filter_keeps(d, pred, prop);
        let fd = d.filter(pred);
        if pred(s.last()) {
            assert(s.filter(pred) == fd.push(s.last()));
            assert(prop(s[s.len() - 1]));
            assert forall|j: int| 0 <= j < s.filter(pred).len() implies #[trigger] prop(s.filter(pred)[j]) by {
                if j < fd.len() {
                    assert(s.filter(pred)[j] == fd[j]);
                }
            }
        } else {
            assert(s.filter(pred) == fd);
        }
    }
}

/// UTF-8 lengths add up over concatenation.
proof fn lemma_utf8_len_concat(a: Seq<char>, b: Seq<char>)
    ensures
        utf8_len(a + b) == utf8_len(a) + utf8_len(b),
    decreases b.len(),
{
    if b.len() == 0 {
        assert(a + b =~= a);
    } else {
        assert((a + b).drop_last() =~= a + b.drop_last());
        assert((a + b).last() == b.last());
        lemma_utf8_len_concat(a, b.drop_last());
    }
}

/// A single path component that tar stores as it is: non-empty, without
/// `/` or NUL, and neither `.` nor `..`.
pub open spec fn plain_component(c: Seq<char>) -> bool {
    &&& c.len() > 0
    &&& slash_free(c)
    &&& forall|i: int| 0 <= i < c.len() ==> #[trigger] c[i] != '\0'
    &&& c != seq!['.']
    &&& c != seq!['.', '.']
}

/// `<root>/<rel>` is a plain name when `root` is a plain component, `rel`
/// a plain name, and the whole fits in 100 bytes.
proof fn lemma_joined_plain(root: Seq<char>, rel: Seq<char>)
    requires
        plain_component(root),
        plain_name(rel),
        utf8_len(root) + 1 + utf8_len(rel) < 100,
    ensures
        plain_name(root + "/"@ + rel),
{
    reveal_strlit("/");
    let n = root + "/"@ + rel;
    assert("/"@ =~= seq!['/']);
    lemma_utf8_len_concat(root, seq!['/']);
    lemma_utf8_len_concat(root + seq!['/'], rel);
    reveal_with_fuel(utf8_len, 2);
    assert(utf8_len(seq!['/']) == 1) by {
        assert(seq!['/'].drop_last() =~= Seq::<char>::empty());
    }
    assert forall|i: int| 0 <= i < n.len() implies #[trigger] n[i] != '\0' by {
        if i < root.len() {
            assert(n[i] == root[i]);
        } else if i > root.len() {
            assert(n[i] == rel[i - root.len() - 1]);
        }
    }
    lemma_no_slash(root);
    lemma_split_concat(root, rel);
    let parts = split_slash(n);
    assert(parts == seq![root] + split_slash(rel));
    assert forall|i: int| 0 <= i < parts.len() implies (#[trigger] parts[i]).len() > 0 && parts[i] != seq!['.']
        && parts[i] != seq!['.', '.'] by {
        if i > 0 {
            assert(parts[i] == split_slash(rel)[i - 1]);
        }
    }
}

/// A packed directory reads back as planned. The plan is the one
/// `plan_directory` gives for the walked `entries` (its headers come from
/// some ordering `s` of them). When the directory is archived under a
/// plain component, every archived entry's relative path is a plain name
/// and `<root>/<rel>` fits in 100 bytes, and directories are given no
/// contents, every planned header is storable: `pack` then succeeds on
/// the plan, and `unpack` of its result performs exactly the planned
/// entries.
pub proof fn lemma_directory_plan_storable(
    root: Seq<char>,
    root_mtime: u64,
    entries: Seq<(String, FsMeta)>,
    s: Seq<(String, FsMeta)>,
    plans: Seq<HeaderPlan>,
    contents: Seq<Vec<u8>>,
)
    requires
        s.to_multiset() == entries.to_multiset(),
        header_views(plans) == seq![root_header(root, root_mtime)] + entry_headers(root, s),
        plans.len() == contents.len(),
        plain_component(root),
        utf8_len(root) < 100,
        forall|k: int| 0 <= k < entries.len() && archived(entries[k]) ==> plain_name(#[trigger] entries[k].0@)
            && utf8_len(root) + 1 + utf8_len(entries[k].0@) < 100,
        forall|i: int| 0 <= i < plans.len() && (#[trigger] plans[i]).kind == EntryKind::Directory ==> contents[i]@.len() == 0,
    ensures
        all_storable(planned_stream(plans, contents)),
{
    let pred = |e: (String, FsMeta)| archived(e);
    let prop = |e: (String, FsMeta)| plain_name(root + "/"@ + e.0@) && (e.1.mode & 0o777u32) <= 0o7777u32;
    assert forall|k: int| 0 <= k < s.len() && pred(s[k]) implies #[trigger] prop(s[k]) by {
        broadcast use vstd::seq_lib::group_to_multiset_ensures;
        assert(s.contains(s[k]));
        assert(s.to_multiset().count(s[k]) > 0);
        assert(entries.contains(s[k]));
        let j = choose|j: int| 0 <= j < entries.len() && entries[j] == s[k];
        assert(plain_name(entries[j].0@));
        lemma_joined_plain(root, s[k].0@);
        let m = s[k].1.mode;
        assert(m & 0o777u32 <= 0o7777u32) by (bit_vector);
    }
    lemma_filter_keeps(s, pred, prop);
    let f = s.filter(pred);
    let hs = entry_headers(root, s);
    assert(hs == f.map_values(|e: (String, FsMeta)| entry_header(root, e)));
    assert(header_views(plans).len() == plans.len());
    let st = planned_stream(plans, contents);
    assert forall|i: int| 0 <= i < st.len() implies storable(#[trigger] st[i]) by {
        let h = plans[i]@;
        assert(h == header_views(plans)[i]);
        if i == 0 {
            lemma_no_slash(root);
            assert(forall|j: int| 0 <= j < root.len() ==> #[trigger] root[j] != '\0');
        } else {
            assert(header_views(plans)[i] == hs[i - 1]);
            assert(hs[i - 1] == entry_header(root, f[i - 1]));
            assert(prop(f[i - 1]));
        }
    }
}

} // verus!
