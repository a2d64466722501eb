//! Installing muthr's configuration from its specs repository, and the
//! host maintenance helpers: where the Nix flake of the host lives and
//! which directories are swept of `.DS_Store` files.

use vstd::prelude::*;
use crate::text::{chars_of, join_range, join_with, split_nonempty, string_from_chars, string_views, views};
use crate::workspace::{path_names, rooted, same_path};

verus! {

/// `muthr init`'s options.
#[derive(Debug, Clone, PartialEq, Eq)]
pub struct InitCommands {
    pub git_url: Option<String>,
    pub force: bool,
}

/// What `muthr init` does first.
#[derive(Debug, Clone, Copy, PartialEq, Eq)]
pub enum InitStep {
    /// Install, overwriting the managed directories of an existing
    /// configuration.
    Overwrite,
    /// A configuration with content exists and `--force` was not given:
    /// leave it.
    KeepExisting,
    /// Install.
    Install,
}

/// Decides what `muthr init` does, from `--force` and whether the
/// configuration directory exists and has entries.
pub fn init_step(force: bool, config_exists: bool, config_has_entries: bool) -> (r: InitStep)
    ensures
        r == if force {
            InitStep::Overwrite
        } else if config_exists && config_has_entries {
            InitStep::KeepExisting
        } else {
            InitStep::Install
        },
{
    if force {
        InitStep::Overwrite
    } else if config_exists && config_has_entries {
        InitStep::KeepExisting
    } else {
        InitStep::Install
    }
}

/// The repository the specs are cloned from: `--git-url`, else the
/// upstream repository.
pub fn specs_repo_url(cmd: &InitCommands) -> (r: String)
    ensures
        r@ == match cmd.git_url {
            Some(u) => u@,
            None => "https://github.com/tappunk/muthr-specs.git"@,
        },
{
    match &cmd.git_url {
        Some(u) => u.clone(),
        None => String::from_str("https://github.com/tappunk/muthr-specs.git"),
    }
}

/// The directories of the configuration that a forced `init` replaces.
pub fn managed_dirs() -> (r: Vec<String>)
    ensures
        string_views(r@) == seq!["clients"@, "manifests"@, "provider.d"@, "provision.d"@],
{
    let v: Vec<String> = vec![
        String::from_str("clients"),
        String::from_str("manifests"),
        String::from_str("provider.d"),
        String::from_str("provision.d"),
    ];
    assert(string_views(v@) =~= seq!["clients"@, "manifests"@, "provider.d"@, "provision.d"@]);
    v
}

/// A clone replaces only the managed directories when `--force` meets an
/// existing configuration; otherwise the clone becomes the configuration.
pub fn sync_managed_only(force: bool, config_exists: bool) -> (r: bool)
    ensures
        r == (force && config_exists),
{
    force && config_exists
}

/// The ancestors of an absolute directory that the flake is looked for
/// in, nearest first: the directory and each parent down to the one just
/// below `/`.
pub open spec fn spec_flake_search(dir: Seq<char>) -> Seq<Seq<char>> {
    let names = path_names(dir);
    Seq::new(names.len(), |i: int| "/"@ + join_with(names.take(names.len() - i), "/"@))
}

/// The directories the flake is looked for in, from the current
/// directory up.
pub fn flake_search(dir: &str) -> (r: Vec<String>)
    requires
        rooted(dir@),
    ensures
        string_views(r@) == spec_flake_search(dir@),
{
    let names = split_nonempty(&chars_of(dir), '/');
    let n = names.len();
    let sep = chars_of("/");
    let mut out: Vec<String> = Vec::new();
    let mut i: usize = 0;
    while i < n
        invariant
            i <= n,
            n == names.len(),
            sep@ == "/"@,
            out@.len() == i,
            forall|j: int|
                0 <= j < i ==> (#[trigger] out@[j])@ == "/"@ + join_with(views(names@).take(n - j), "/"@),
        decreases n - i,
    {
        let joined = join_range(&names, 0, n - i, &sep);
        assert(views(names@).subrange(0, (n - i) as int) =~= views(names@).take((n - i) as int));
        let mut s = String::from_str("/");
        s.append(string_from_chars(&joined).as_str());
        out.push(s);
        i += 1;
    }
    assert(string_views(out@) =~= spec_flake_search(dir@));
    out
}

/// The usual places of a dotfiles flake under the home directory.
pub fn flake_fallbacks(home: &str) -> (r: Vec<String>)
    ensures
        string_views(r@) == seq![
            home@ + "/.config/dotfiles"@,
            home@ + "/src/projects/dotfiles"@,
            home@ + "/.config/muthr"@,
        ],
{
    let mut a = String::from_str(home);
    a.append("/.config/dotfiles");
    let mut b = String::from_str(home);
    b.append("/src/projects/dotfiles");
    let mut c = String::from_str(home);
    c.append("/.config/muthr");
    let v: Vec<String> = vec![a, b, c];
    assert(string_views(v@) =~= seq![
        home@ + "/.config/dotfiles"@,
        home@ + "/src/projects/dotfiles"@,
        home@ + "/.config/muthr"@,
    ]);
    v
}

/// The flake reference a rebuild uses: the flake's `nix` directory and the
/// `system` output.
pub fn flake_argument(flake_root: &str) -> (r: String)
    ensures
        r@ == crate::workspace::join_path(flake_root@, "nix"@) + "#system"@,
{
    let mut s = crate::download::join(flake_root, "nix");
    s.append("#system");
    s
}

/// The directories swept of `.DS_Store` files: the home's `src`, `opt`
/// and muthr configuration, and the flake directory when it is none of
/// them.
pub open spec fn spec_clean_targets(home: Seq<char>, flake: Option<Seq<char>>) -> Seq<Seq<char>> {
    let base = seq![home + "/src"@, home + "/opt"@, home + "/.config/muthr"@];
    match flake {
        Some(f) => if exists|i: int| 0 <= i < base.len() && same_path(#[trigger] base[i], f) {
            base
        } else {
            base.push(f)
        },
        None => base,
    }
}

/// The directories swept of `.DS_Store` files.
pub fn clean_targets(home: &str, flake: Option<&str>) -> (r: Vec<String>)
    ensures
        string_views(r@) == spec_clean_targets(
            home@,
            match flake {
                Some(f) => Some(f@),
                None => None,
            },
        ),
{
    let mut a = String::from_str(home);
    a.append("/src");
    let mut b = String::from_str(home);
    b.append("/opt");
    let mut c = String::from_str(home);
    c.append("/.config/muthr");
    let ghost base = seq![home@ + "/src"@, home@ + "/opt"@, home@ + "/.config/muthr"@];
    let mut v: Vec<String> = vec![a, b, c];
    assert(string_views(v@) =~= base);
    if let Some(f) = flake {
        let fc = chars_of(f);
        let known = crate::workspace::same_paths(&chars_of(v[0].as_str()), &fc) || crate::workspace::same_paths(
            &chars_of(v[1].as_str()),
            &fc,
        ) || crate::workspace::same_paths(&chars_of(v[2].as_str()), &fc);
        proof {
            if exists|i: int| 0 <= i < base.len() && same_path(#[trigger] base[i], f@) {
                let i = choose|i: int| 0 <= i < base.len() && same_path(#[trigger] base[i], f@);
                assert(i == 0 || i == 1 || i == 2);
            }
            if known {
                assert(same_path(base[0], f@) || same_path(base[1], f@) || same_path(base[2], f@));
            }
        }
        if !known {
            v.push(String::from_str(f));
            assert(string_views(v@) =~= base.push(f@));
        }
    }
    v
}

/// The arguments of `fd` that remove the `.DS_Store` files under a
/// directory.
pub fn sweep_args(dir: &str) -> (r: Vec<String>)
    ensures
        string_views(r@) == seq!["-H"@, "-I"@, "^[.]DS_Store$"@, dir@, "-t"@, "f"@, "-X"@, "rm"@, "-f"@],
{
    let v: Vec<String> = vec![
        String::from_str("-H"),
        String::from_str("-I"),
        String::from_str("^[.]DS_Store$"),
        String::from_str(dir),
        String::from_str("-t"),
        String::from_str("f"),
        String::from_str("-X"),
        String::from_str("rm"),
        String::from_str("-f"),
    ];
    assert(string_views(v@) =~= seq!["-H"@, "-I"@, "^[.]DS_Store$"@, dir@, "-t"@, "f"@, "-X"@, "rm"@, "-f"@]);
    v
}

} // verus!
