//! Unix paths as the agent's file tools see them: components, joining,
//! resolving `~` and relative paths, and the secret locations the tools
//! refuse to touch.

use vstd::prelude::*;
use vstd::string::StringExecFns;
use crate::soul::{join_path, path_join};
use crate::text::{split_on, starts_with, str_to_chars};

verus! {

/// The components of a Unix path, as `Path::iter` yields them: `/` for the
/// root, `.` for a leading current-directory component, then the names
/// (empty pieces and later `.` pieces dropped).
pub open spec fn path_components(p: Seq<char>) -> Seq<Seq<char>> {
    let pieces = crate::text::split_on(p, '/');
    let root: Seq<Seq<char>> = if p.len() > 0 && p[0] == '/' {
        seq![seq!['/']]
    } else if pieces[0] == seq!['.'] {
        seq![seq!['.']]
    } else {
        Seq::empty()
    };
    root + named_pieces(pieces)
}

/// The pieces that are neither empty nor `.`.
pub open spec fn named_pieces(pieces: Seq<Seq<char>>) -> Seq<Seq<char>>
    decreases pieces.len(),
{
    if pieces.len() == 0 {
        Seq::empty()
    } else {
        let rest = named_pieces(pieces.drop_last());
        let last = pieces.last();
        if last.len() == 0 || last == seq!['.'] {
            rest
        } else {
            rest.push(last)
        }
    }
}

/// The components of the path `s`.
pub fn path_components_of(s: &[char]) -> (parts: Vec<Vec<char>>)
    ensures
        parts@.map_values(|v: Vec<char>| v@) == path_components(s@),
{
    let pieces = crate::text::split_chars(s, '/');
    let ghost ps = split_on(s@, '/');
    proof {
        crate::text::lemma_split_on_nonempty(s@, '/');
    }
    let ghost root: Seq<Seq<char>> = if s@.len() > 0 && s@[0] == '/' {
        seq![seq!['/']]
    } else if ps[0] == seq!['.'] {
        seq![seq!['.']]
    } else {
        Seq::<Seq<char>>::empty()
    };
    let mut parts: Vec<Vec<char>> = Vec::new();
    if s.len() > 0 && s[0] == '/' {
        let mut slash: Vec<char> = Vec::new();
        slash.push('/');
        assert(slash@ =~= seq!['/']);
        parts.push(slash);
        assert(parts@.map_values(|v: Vec<char>| v@) =~= root);
    } else if pieces[0].len() == 1 && pieces[0][0] == '.' {
        parts.push(crate::text::to_vec(pieces[0].as_slice()));
        assert(ps[0] =~= seq!['.']);
        assert(parts@.map_values(|v: Vec<char>| v@) =~= root);
    } else {
        proof {
            if ps[0].len() == 1 {
                assert(ps[0] != seq!['.']);
            }
        }
        assert(parts@.map_values(|v: Vec<char>| v@) =~= root);
    }
    let mut i: usize = 0;
    while i < pieces.len()
        invariant
            i <= pieces@.len(),
            pieces@.map_values(|v: Vec<char>| v@) == ps,
            parts@.map_values(|v: Vec<char>| v@) == root + named_pieces(ps.take(i as int)),
        decreases pieces@.len() - i,
    {
        assert(ps.take(i + 1).drop_last() == ps.take(i as int));
        assert(ps.take(i + 1).last() == pieces@[i as int]@);
        let p = pieces[i].as_slice();
        if p.len() == 0 || (p.len() == 1 && p[0] == '.') {
            proof {
                if p@.len() == 1 {
                    assert(p@ == seq!['.']);
                }
            }
        } else {
            proof {
                if p@.len() == 1 {
                    assert(p@ != seq!['.']);
                }
            }
            let ghost before = parts@.map_values(|v: Vec<char>| v@);
            parts.push(crate::text::to_vec(p));
            assert(parts@.map_values(|v: Vec<char>| v@) =~= before.push(p@));
        }
        i = i + 1;
    }
    assert(ps.take(pieces@.len() as int) == ps);
    parts
}

/// `p` lies at or under `base`: `base`'s components begin `p`'s (as
/// `Path::starts_with`).
pub open spec fn path_starts_with(p: Seq<char>, base: Seq<char>) -> bool {
    let pc = path_components(p);
    let bc = path_components(base);
    bc.len() <= pc.len() && pc.take(bc.len() as int) == bc
}

/// Whether `p` lies at or under `base`.
pub fn starts_with_path(p: &str, base: &str) -> (b: bool)
    ensures
        b == path_starts_with(p@, base@),
{
    let pc = path_components_of(str_to_chars(p).as_slice());
    let bc = path_components_of(str_to_chars(base).as_slice());
    let ghost pv = pc@.map_values(|v: Vec<char>| v@);
    let ghost bv = bc@.map_values(|v: Vec<char>| v@);
    if bc.len() > pc.len() {
        return false;
    }
    let mut i: usize = 0;
    while i < bc.len()
        invariant
            i <= bc@.len() <= pc@.len(),
            pv == pc@.map_values(|v: Vec<char>| v@),
            bv == bc@.map_values(|v: Vec<char>| v@),
            pv == path_components(p@),
            bv == path_components(base@),
            forall|k: int| 0 <= k < i ==> pv[k] == bv[k],
        decreases bc@.len() - i,
    {
        assert(pv[i as int] == pc@[i as int]@ && bv[i as int] == bc@[i as int]@);
        if !crate::text::chars_eq(pc[i].as_slice(), bc[i].as_slice()) {
            assert(pv.take(bv.len() as int)[i as int] != bv[i as int]);
            return false;
        }
        i = i + 1;
    }
    assert(pv.take(bv.len() as int) =~= bv);
    true
}

/// Why a path cannot be resolved.
pub enum ResolveError {
    /// A `~` path without a home directory.
    HomeNotSet,
}

impl ResolveError {
    /// The error message.
    pub fn message(&self) -> (m: String)
        ensures
            m@ == "HOME not set"@,
    {
        String::from_str("HOME not set")
    }
}

/// A tool's path argument as a path: `~` and `~/…` under the home
/// directory (an error without one), absolute paths as they are, and
/// relative paths under the working directory.
pub open spec fn spec_resolve(path: Seq<char>, cwd: Seq<char>, home: Option<Seq<char>>) -> Result<
    Seq<char>,
    ResolveError,
> {
    if starts_with(path, "~/"@) || path == "~"@ {
        match home {
            None => Err(ResolveError::HomeNotSet),
            Some(h) => Ok(
                if path == "~"@ {
                    h
                } else {
                    path_join(h, path.skip(2))
                },
            ),
        }
    } else if path.len() > 0 && path[0] == '/' {
        Ok(path)
    } else {
        Ok(path_join(cwd, path))
    }
}

/// Resolves a path argument against the working directory `cwd` and the
/// home directory `home` (`HOME`, when set).
pub fn resolve(path: &str, cwd: &str, home: Option<&str>) -> (resolved: Result<String, ResolveError>)
    ensures
        resolved matches Ok(p) ==> spec_resolve(path@, cwd@, crate::tools::opt_str_view(home)) == Ok::<
            Seq<char>,
            ResolveError,
        >(p@),
        resolved is Err <==> spec_resolve(path@, cwd@, crate::tools::opt_str_view(home)) is Err,
{
    let chars = str_to_chars(path);
    proof {
        reveal_strlit("~/");
        reveal_strlit("~");
    }
    let tilde = crate::text::has_prefix_str(chars.as_slice(), "~/") || crate::text::eq_str(
        chars.as_slice(),
        "~",
    );
    if tilde {
        match home {
            None => Err(ResolveError::HomeNotSet),
            Some(h) => {
                if crate::text::eq_str(chars.as_slice(), "~") {
                    Ok(String::from_str(h))
                } else {
                    let rest = crate::text::sub_vec(chars.as_slice(), 2, chars.len());
                    let rest_s = crate::text::chars_to_string(rest.as_slice());
                    Ok(join_path(h, rest_s.as_str()))
                }
            },
        }
    } else if chars.len() > 0 && chars[0] == '/' {
        Ok(String::from_str(path))
    } else {
        Ok(join_path(cwd, path))
    }
}

/// The secret locations the file tools refuse: system password and sudo
/// files, and under a known home directory the SSH, AWS, GnuPG and Kaku
/// secrets.
pub open spec fn spec_blocked_paths(home: Seq<char>) -> Seq<Seq<char>> {
    seq![
        "/etc/shadow"@,
        "/etc/sudoers"@,
        "/etc/sudoers.d"@,
        "/private/etc/shadow"@,
        "/private/etc/sudoers"@,
        "/private/etc/sudoers.d"@,
    ] + if home.len() > 0 {
        seq![
            path_join(home, ".ssh"@),
            path_join(home, ".aws/credentials"@),
            path_join(home, ".gnupg"@),
            path_join(home, ".config/kaku/secrets"@),
        ]
    } else {
        Seq::empty()
    }
}

fn push_path(out: &mut Vec<String>, p: String)
    ensures
        final(out)@.map_values(|s: String| s@) == old(out)@.map_values(|s: String| s@).push(p@),
{
    let ghost before = out@.map_values(|s: String| s@);
    let ghost pv = p@;
    out.push(p);
    assert(out@.map_values(|s: String| s@) =~= before.push(pv));
}

/// The protected locations for the home directory `home` (empty when
/// unknown).
pub fn blocked_paths(home: &str) -> (paths: Vec<String>)
    ensures
        paths@.map_values(|s: String| s@) == spec_blocked_paths(home@),
{
    let mut out: Vec<String> = Vec::new();
    push_path(&mut out, String::from_str("/etc/shadow"));
    push_path(&mut out, String::from_str("/etc/sudoers"));
    push_path(&mut out, String::from_str("/etc/sudoers.d"));
    push_path(&mut out, String::from_str("/private/etc/shadow"));
    push_path(&mut out, String::from_str("/private/etc/sudoers"));
    push_path(&mut out, String::from_str("/private/etc/sudoers.d"));
    if !home.is_empty() {
        push_path(&mut out, join_path(home, ".ssh"));
        push_path(&mut out, join_path(home, ".aws/credentials"));
        push_path(&mut out, join_path(home, ".gnupg"));
        push_path(&mut out, join_path(home, ".config/kaku/secrets"));
    }
    assert(out@.map_values(|s: String| s@) =~= spec_blocked_paths(home@));
    out
}

/// A path is refused when it lies at or under a protected location (both
/// as canonical paths).
pub open spec fn spec_is_protected(canon: Seq<char>, blocked: Seq<Seq<char>>) -> bool {
    exists|i: int| 0 <= i < blocked.len() && path_starts_with(canon, #[trigger] blocked[i])
}

/// The refusal of `path`.
pub open spec fn refusal_message(path: Seq<char>) -> Seq<char> {
    "refused: '"@ + path + "' is a protected secret location"@
}

/// Refuses `path` (canonically `canon`) when it lies at or under one of
/// the canonical protected locations `blocked`.
pub fn reject_if_sensitive(path: &str, canon: &str, blocked: &[String]) -> (r: Result<(), String>)
    ensures
        r is Err <==> spec_is_protected(canon@, blocked@.map_values(|s: String| s@)),
        r matches Err(m) ==> m@ == refusal_message(path@),
{
    let ghost bv = blocked@.map_values(|s: String| s@);
    let mut i: usize = 0;
    while i < blocked.len()
        invariant
            i <= blocked@.len(),
            bv == blocked@.map_values(|s: String| s@),
            forall|k: int| 0 <= k < i ==> !path_starts_with(canon@, #[trigger] bv[k]),
        decreases blocked@.len() - i,
    {
        assert(bv[i as int] == blocked@[i as int]@);
        if starts_with_path(canon, blocked[i].as_str()) {
            let mut m = String::from_str("refused: '");
            m.append(path);
            m.append("' is a protected secret location");
            return Err(m);
        }
        i = i + 1;
    }
    Ok(())
}

} // verus!
