//! Which login shell the user runs, from the `SHELL` variable.

use vstd::prelude::*;
use crate::text::{split_chars, split_on, str_to_chars, chars_to_string};

verus! {

/// The user's shell, as far as Kaku's shell integration cares.
#[derive(Debug, Clone, PartialEq)]
pub enum ShellKind {
    Zsh,
    Fish,
    Unsupported(String),
    Unknown,
}

/// `ShellKind` with the unsupported shell's name as characters.
pub enum ShellKindView {
    Zsh,
    Fish,
    Unsupported(Seq<char>),
    Unknown,
}

impl View for ShellKind {
    type V = ShellKindView;

    open spec fn view(&self) -> ShellKindView {
        match self {
            ShellKind::Zsh => ShellKindView::Zsh,
            ShellKind::Fish => ShellKindView::Fish,
            ShellKind::Unsupported(s) => ShellKindView::Unsupported(s@),
            ShellKind::Unknown => ShellKindView::Unknown,
        }
    }
}

/// The name the shell goes by.
pub open spec fn spec_shell_name(kind: ShellKindView) -> Seq<char> {
    match kind {
        ShellKindView::Zsh => "zsh"@,
        ShellKindView::Fish => "fish"@,
        ShellKindView::Unsupported(s) => s,
        ShellKindView::Unknown => "unknown"@,
    }
}

impl ShellKind {
    /// Kaku manages the integration of zsh and fish only.
    pub fn is_managed(&self) -> (managed: bool)
        ensures
            managed == (self@ is Zsh || self@ is Fish),
    {
        match self {
            ShellKind::Zsh | ShellKind::Fish => true,
            _ => false,
        }
    }

    /// The shell's name: `zsh`, `fish`, the unsupported shell's own name, or
    /// `unknown`.
    pub fn name(&self) -> (name: &str)
        ensures
            name@ == spec_shell_name(self@),
    {
        match self {
            ShellKind::Zsh => "zsh",
            ShellKind::Fish => "fish",
            ShellKind::Unsupported(s) => s.as_str(),
            ShellKind::Unknown => "unknown",
        }
    }
}

/// The last named component of the path pieces, skipping empty pieces and
/// `.`; `None` when there is none or it is `..` (as `Path::file_name`).
pub open spec fn last_file_name(parts: Seq<Seq<char>>) -> Option<Seq<char>>
    decreases parts.len(),
{
    if parts.len() == 0 {
        None
    } else {
        let last = parts.last();
        if last.len() == 0 || last == seq!['.'] {
            last_file_name(parts.drop_last())
        } else if last == seq!['.', '.'] {
            None
        } else {
            Some(last)
        }
    }
}

/// The final component of a Unix path, as `Path::file_name` gives it.
pub open spec fn spec_file_name(path: Seq<char>) -> Option<Seq<char>> {
    last_file_name(split_on(path, '/'))
}

/// The shell that the `SHELL` variable (if set) names.
pub open spec fn spec_shell_kind(shell: Option<Seq<char>>) -> ShellKindView {
    match shell {
        None => ShellKindView::Unknown,
        Some(s) => {
            let name = match spec_file_name(s) {
                Some(n) => n,
                None => Seq::empty(),
            };
            if name == "zsh"@ {
                ShellKindView::Zsh
            } else if name == "fish"@ {
                ShellKindView::Fish
            } else if name.len() == 0 {
                ShellKindView::Unknown
            } else {
                ShellKindView::Unsupported(name)
            }
        },
    }
}

/// The final component of `path`.
pub(crate) fn file_name(path: &[char]) -> (name: Option<Vec<char>>)
    ensures
        name matches Some(n) ==> spec_file_name(path@) == Some(n@),
        name is None ==> spec_file_name(path@) is None,
{
    let parts = split_chars(path, '/');
    let ghost ps = split_on(path@, '/');
    let mut i = parts.len();
    assert(ps.len() == parts@.len());
    assert(ps.take(i as int) =~= ps);
    while i > 0
        invariant
            i <= parts@.len(),
            ps.len() == parts@.len(),
            ps == split_on(path@, '/'),
            parts@.map_values(|v: Vec<char>| v@) == ps,
            last_file_name(ps) == last_file_name(ps.take(i as int)),
        decreases i,
    {
        let p = &parts[i - 1];
        let ghost pv = ps.take(i as int);
        assert(ps[i - 1] == p@);
        assert(pv.last() == p@);
        assert(pv.drop_last() == ps.take(i - 1));
        if p.len() == 0 || (p.len() == 1 && p[0] == '.') {
            proof {
                if p@.len() == 1 {
                    assert(p@ == seq!['.']);
                }
            }
            i = i - 1;
        } else if p.len() == 2 && p[0] == '.' && p[1] == '.' {
            assert(p@ == seq!['.', '.']);
            assert(p@.len() != 0 && p@ != seq!['.']);
            assert(last_file_name(pv) is None);
            return None;
        } else {
            proof {
                if p@.len() == 1 {
                    assert(p@ != seq!['.']);
                }
                if p@.len() == 2 {
                    assert(p@ != seq!['.', '.']);
                }
            }
            let mut out: Vec<char> = Vec::new();
            let mut k: usize = 0;
            while k < p.len()
                invariant
                    k <= p@.len(),
                    out@ == p@.take(k as int),
                decreases p@.len() - k,
            {
                out.push(p[k]);
                k = k + 1;
                assert(p@.take(k as int) == p@.take(k - 1).push(p@[k - 1]));
            }
            assert(p@.take(p@.len() as int) == p@);
            assert(p@.len() != 0);
            assert(last_file_name(pv) == Some(p@));
            return Some(out);
        }
    }
    assert(ps.take(0) == Seq::<Seq<char>>::empty());
    None
}

/// The shell kind named by the value of `SHELL` (`None` when unset).
pub fn shell_kind_from_env(shell: Option<&str>) -> (kind: ShellKind)
    ensures
        kind@ == spec_shell_kind(match shell {
            Some(s) => Some(s@),
            None => None,
        }),
{
    match shell {
        None => ShellKind::Unknown,
        Some(s) => {
            let chars = str_to_chars(s);
            let name = match file_name(chars.as_slice()) {
                Some(n) => n,
                None => Vec::new(),
            };
            let zsh = str_to_chars("zsh");
            let fish = str_to_chars("fish");
            if crate::text::chars_eq(name.as_slice(), zsh.as_slice()) {
                ShellKind::Zsh
            } else if crate::text::chars_eq(name.as_slice(), fish.as_slice()) {
                ShellKind::Fish
            } else if name.len() == 0 {
                ShellKind::Unknown
            } else {
                ShellKind::Unsupported(chars_to_string(name.as_slice()))
            }
        },
    }
}

} // verus!
