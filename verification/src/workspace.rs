//! Workspaces: the directory under which projects live, the project a
//! directory belongs to, the sandbox named after it, and where a host
//! working directory lands inside the sandbox.
//!
//! Paths are compared as `Path` compares canonical paths: by whether they
//! are absolute and by their names between `/` separators.

use vstd::prelude::*;
use crate::sandbox::{
    spec_expand_home_path, expand_home_path, spec_sanitize, spec_name_suffix, sanitize_project_name,
    project_name_suffix,
};
use crate::text::{
    chars_eq, chars_of, has_char, push_all, push_str, segments, split_nonempty, join_range, join_with,
    string_from_chars, views, lemma_segments_around_sep, lemma_segments_of_join,
};

verus! {

/// A path is absolute: it starts with `/`.
pub open spec fn rooted(p: Seq<char>) -> bool {
    p.len() > 0 && p[0] == '/'
}

/// The names of a path between its `/` separators.
pub open spec fn path_names(p: Seq<char>) -> Seq<Seq<char>> {
    segments(p, '/')
}

/// Two paths name the same place.
pub open spec fn same_path(a: Seq<char>, b: Seq<char>) -> bool {
    rooted(a) == rooted(b) && path_names(a) == path_names(b)
}

/// `base` is `p` or one of its ancestors (`Path::starts_with`).
pub open spec fn path_within(p: Seq<char>, base: Seq<char>) -> bool {
    &&& rooted(p) == rooted(base)
    &&& path_names(base).len() <= path_names(p).len()
    &&& path_names(p).take(path_names(base).len() as int) == path_names(base)
}

/// `PathBuf::join` of a relative name: a `/` goes between the two unless
/// the base is empty or already ends with one.
pub open spec fn join_path(base: Seq<char>, name: Seq<char>) -> Seq<char> {
    if base.len() == 0 || base.last() == '/' {
        base + name
    } else {
        base + "/"@ + name
    }
}

/// Why a workspace or the directory in it was refused.
#[derive(Debug, Clone, Copy, PartialEq, Eq)]
pub enum WorkspaceError {
    /// The workspace root is `/`.
    RootIsFilesystemRoot,
    /// The workspace root is `/Users`.
    RootIsUsers,
    /// The workspace root is the home directory itself.
    RootIsHome,
    /// The workspace root is not inside the home directory.
    RootOutsideHome,
    /// The directory is the workspace root, not a project in it.
    AtWorkspaceRoot,
    /// The directory is outside the workspace root.
    OutsideWorkspace,
    /// The project's name keeps no character once sanitized.
    EmptyProjectName,
}

/// The refusal of a workspace root, if any, in the order the checks run.
pub open spec fn spec_root_check(workspace: Seq<char>, home: Seq<char>) -> Option<WorkspaceError> {
    if rooted(workspace) && path_names(workspace).len() == 0 {
        Some(WorkspaceError::RootIsFilesystemRoot)
    } else if rooted(workspace) && path_names(workspace) == seq!["Users"@] {
        Some(WorkspaceError::RootIsUsers)
    } else if same_path(workspace, home) {
        Some(WorkspaceError::RootIsHome)
    } else if !path_within(workspace, home) {
        Some(WorkspaceError::RootOutsideHome)
    } else {
        None
    }
}

fn is_rooted(p: &Vec<char>) -> (r: bool)
    ensures
        r == rooted(p@),
{
    p.len() > 0 && p[0] == '/'
}

/// Whether `base` is a prefix of `p`, name by name.
fn names_prefix(p: &Vec<Vec<char>>, base: &Vec<Vec<char>>) -> (r: bool)
    ensures
        r == (views(base@).len() <= views(p@).len() && views(p@).take(views(base@).len() as int) == views(
            base@,
        )),
{
    if base.len() > p.len() {
        return false;
    }
    let mut i: usize = 0;
    while i < base.len()
        invariant
            i <= base.len() <= p.len(),
            forall|j: int| 0 <= j < i ==> views(p@)[j] == views(base@)[j],
        decreases base.len() - i,
    {
        if !chars_eq(&p[i], &base[i]) {
            assert(views(p@).take(base.len() as int)[i as int] != views(base@)[i as int]);
            return false;
        }
        i += 1;
    }
    assert(views(p@).take(base.len() as int) =~= views(base@));
    true
}

fn within(p: &Vec<char>, base: &Vec<char>) -> (r: bool)
    ensures
        r == path_within(p@, base@),
{
    is_rooted(p) == is_rooted(base) && names_prefix(&split_nonempty(p, '/'), &split_nonempty(base, '/'))
}

/// Whether two paths name the same place.
pub fn same_paths(a: &Vec<char>, b: &Vec<char>) -> (r: bool)
    ensures
        r == same_path(a@, b@),
{
    same(a, b)
}

fn same(a: &Vec<char>, b: &Vec<char>) -> (r: bool)
    ensures
        r == same_path(a@, b@),
{
    let na = split_nonempty(a, '/');
    let nb = split_nonempty(b, '/');
    let r = is_rooted(a) == is_rooted(b) && na.len() == nb.len() && names_prefix(&na, &nb);
    proof {
        if na.len() == nb.len() {
            assert(views(na@).take(views(nb@).len() as int) =~= views(na@));
        }
    }
    r
}

/// Checks a canonical workspace root against the canonical home directory:
/// it may be neither `/`, `/Users` nor the home directory, and must lie
/// inside the home directory.
pub fn validate_workspace_root(workspace: &str, home: &str) -> (r: Result<(), WorkspaceError>)
    ensures
        r == match spec_root_check(workspace@, home@) {
            Some(e) => Err(e),
            None => Ok(()),
        },
{
    let w = chars_of(workspace);
    let h = chars_of(home);
    let names = split_nonempty(&w, '/');
    if is_rooted(&w) && names.len() == 0 {
        return Err(WorkspaceError::RootIsFilesystemRoot);
    }
    proof { reveal_strlit("Users"); }
    if is_rooted(&w) && names.len() == 1 && chars_eq(&names[0], &chars_of("Users")) {
        assert(views(names@) =~= seq!["Users"@]);
        return Err(WorkspaceError::RootIsUsers);
    }
    proof {
        if rooted(w@) && path_names(w@) == seq!["Users"@] {
            assert(views(names@)[0] == "Users"@);
        }
    }
    if same(&w, &h) {
        return Err(WorkspaceError::RootIsHome);
    }
    if !within(&w, &h) {
        return Err(WorkspaceError::RootOutsideHome);
    }
    Ok(())
}

/// The workspace root in effect: the environment's setting, else the
/// configured one, else `<home>/src`; a leading `~/` stands for the home
/// directory.
pub open spec fn spec_workspace_root_setting(
    env: Option<Seq<char>>,
    configured: Option<Seq<char>>,
    home: Seq<char>,
) -> Seq<char> {
    let raw = match env {
        Some(v) => v,
        None => match configured {
            Some(c) => c,
            None => home + "/src"@,
        },
    };
    spec_expand_home_path(raw, home)
}

/// The workspace root from `MUTHR_WORKSPACE_ROOT` (`env`), the
/// configuration's `workspace_root` (`configured`) and the home directory.
pub fn workspace_root_setting(env: Option<&str>, configured: Option<&str>, home: &str) -> (r: String)
    ensures
        r@ == spec_workspace_root_setting(
            match env {
                Some(v) => Some(v@),
                None => None,
            },
            match configured {
                Some(c) => Some(c@),
                None => None,
            },
            home@,
        ),
{
    match env {
        Some(v) => expand_home_path(v, home),
        None => match configured {
            Some(c) => expand_home_path(c, home),
            None => {
                let mut raw = String::from_str(home);
                raw.append("/src");
                expand_home_path(raw.as_str(), home)
            },
        },
    }
}

/// The token a project's sandbox is named by: its sanitized name, followed
/// by `-` and the name's hash suffix when sanitizing changed the name.
pub open spec fn spec_project_token(name: Seq<char>) -> Seq<char> {
    match spec_sanitize(name) {
        Some(s) => if s == name {
            s
        } else {
            s + "-"@ + spec_name_suffix(name)
        },
        None => Seq::empty(),
    }
}

/// The sandbox a project directory's name gives.
pub open spec fn spec_project_container_id(name: Seq<char>) -> Seq<char> {
    "muthr-"@ + spec_project_token(name)
}

/// Every project's sandbox is named `muthr-` and a token; two projects
/// whose directory names need no sanitizing get the same sandbox only when
/// their names are the same.
pub proof fn law_project_container_id(a: Seq<char>, b: Seq<char>)
    ensures
        crate::text::has_prefix(spec_project_container_id(a), "muthr-"@),
        spec_sanitize(a) == Some(a) && spec_sanitize(b) == Some(b) && spec_project_container_id(a)
            == spec_project_container_id(b) ==> a == b,
{
    let p = "muthr-"@;
    assert(spec_project_container_id(a).take(p.len() as int) =~= p);
    if spec_sanitize(a) == Some(a) && spec_sanitize(b) == Some(b) && spec_project_container_id(a)
        == spec_project_container_id(b) {
        assert(spec_project_container_id(a).skip(p.len() as int) =~= a);
        assert(spec_project_container_id(b).skip(p.len() as int) =~= b);
    }
}

/// Where a directory is, relative to the workspace.
#[derive(Debug, Clone, PartialEq, Eq)]
pub enum WorkspaceContext {
    /// Inside the configuration directory of muthr itself.
    Config,
    /// Inside a project: its sandbox and the project directory that is
    /// mounted into it.
    Project { container_id: String, mount_point: String },
}

/// The value of a [`WorkspaceContext`].
pub enum WorkspaceContextView {
    Config,
    Project { container_id: Seq<char>, mount_point: Seq<char> },
}

impl View for WorkspaceContext {
    type V = WorkspaceContextView;

    open spec fn view(&self) -> WorkspaceContextView {
        match self {
            WorkspaceContext::Config => WorkspaceContextView::Config,
            WorkspaceContext::Project { container_id, mount_point } => WorkspaceContextView::Project {
                container_id: container_id@,
                mount_point: mount_point@,
            },
        }
    }
}

/// The context of the canonical directory `current`, given the canonical
/// workspace root, the canonical home directory and, when it exists, the
/// canonical configuration directory: the configuration directory first;
/// then the checks of the workspace root; then the project is the first
/// name of `current` below the root.
pub open spec fn spec_workspace_context(
    current: Seq<char>,
    workspace: Seq<char>,
    home: Seq<char>,
    config_dir: Option<Seq<char>>,
) -> Result<WorkspaceContextView, WorkspaceError> {
    if config_dir is Some && path_within(current, config_dir.unwrap()) {
        Ok(WorkspaceContextView::Config)
    } else if spec_root_check(workspace, home) is Some {
        Err(spec_root_check(workspace, home).unwrap())
    } else if same_path(current, workspace) {
        Err(WorkspaceError::AtWorkspaceRoot)
    } else if !path_within(current, workspace) {
        Err(WorkspaceError::OutsideWorkspace)
    } else {
        let name = path_names(current)[path_names(workspace).len() as int];
        if spec_sanitize(name) is None {
            Err(WorkspaceError::EmptyProjectName)
        } else {
            Ok(
                WorkspaceContextView::Project {
                    container_id: spec_project_container_id(name),
                    mount_point: join_path(workspace, name),
                },
            )
        }
    }
}

fn join_path_exec(base: &Vec<char>, name: &Vec<char>) -> (r: Vec<char>)
    ensures
        r@ == join_path(base@, name@),
{
    let mut out = base.clone();
    if !(base.len() == 0 || base[base.len() - 1] == '/') {
        push_str(&mut out, "/");
    }
    push_all(&mut out, name);
    out
}

/// The token a project's sandbox is named by.
pub fn project_token(name: &str) -> (r: Option<String>)
    ensures
        match r {
            Some(t) => spec_sanitize(name@) is Some && t@ == spec_project_token(name@),
            None => spec_sanitize(name@) is None,
        },
{
    match sanitize_project_name(name) {
        None => None,
        Some(s) => {
            if chars_eq(&chars_of(s.as_str()), &chars_of(name)) {
                Some(s)
            } else {
                let mut t = s;
                t.append("-");
                let suffix = project_name_suffix(name);
                t.append(suffix.as_str());
                Some(t)
            }
        },
    }
}

/// Works out where the canonical directory `current` stands: in the
/// configuration directory, or in a project of the workspace (with the
/// project's sandbox and mount point), or refused.
pub fn workspace_context(current: &str, workspace: &str, home: &str, config_dir: Option<&str>) -> (r:
    Result<WorkspaceContext, WorkspaceError>)
    ensures
        match r {
            Ok(c) => spec_workspace_context(
                current@,
                workspace@,
                home@,
                match config_dir {
                    Some(d) => Some(d@),
                    None => None,
                },
            ) == Ok::<WorkspaceContextView, WorkspaceError>(c@),
            Err(e) => spec_workspace_context(
                current@,
                workspace@,
                home@,
                match config_dir {
                    Some(d) => Some(d@),
                    None => None,
                },
            ) == Err::<WorkspaceContextView, WorkspaceError>(e),
        },
{
    let cur = chars_of(current);
    let w = chars_of(workspace);
    if let Some(d) = config_dir {
        if within(&cur, &chars_of(d)) {
            return Ok(WorkspaceContext::Config);
        }
    }
    if let Err(e) = validate_workspace_root(workspace, home) {
        return Err(e);
    }
    if same(&cur, &w) {
        return Err(WorkspaceError::AtWorkspaceRoot);
    }
    if !within(&cur, &w) {
        return Err(WorkspaceError::OutsideWorkspace);
    }
    let cur_names = split_nonempty(&cur, '/');
    let w_names = split_nonempty(&w, '/');
    proof {
        if w_names.len() == cur_names.len() {
            assert(views(cur_names@) =~= views(cur_names@).take(views(w_names@).len() as int));
        }
    }
    let name_chars = cur_names[w_names.len()].clone();
    let name = string_from_chars(&name_chars);
    match project_token(name.as_str()) {
        None => Err(WorkspaceError::EmptyProjectName),
        Some(token) => {
            let mut id = String::from_str("muthr-");
            id.append(token.as_str());
            let mount = join_path_exec(&w, &name_chars);
            Ok(WorkspaceContext::Project { container_id: id, mount_point: string_from_chars(&mount) })
        },
    }
}

/// The guest working directory for the host directory `workdir`: the guest
/// workspace path joined with `workdir`'s place below the project root, or
/// the guest workspace path itself when `workdir` is not below the root.
pub open spec fn spec_guest_workdir(guest: Seq<char>, project_root: Seq<char>, workdir: Seq<char>) -> Seq<
    char,
> {
    if path_within(workdir, project_root) {
        join_path(guest, join_with(path_names(workdir).skip(path_names(project_root).len() as int), "/"@))
    } else {
        guest
    }
}

/// Where the host directory `workdir` of a project mounted from
/// `project_root` is found inside the sandbox, whose workspace is at
/// `guest`.
pub fn guest_workdir(guest: &str, project_root: &str, workdir: &str) -> (r: String)
    ensures
        r@ == spec_guest_workdir(guest@, project_root@, workdir@),
{
    let wd = chars_of(workdir);
    let root = chars_of(project_root);
    if within(&wd, &root) {
        let names = split_nonempty(&wd, '/');
        let n = split_nonempty(&root, '/').len();
        let sep = chars_of("/");
        let rel = join_range(&names, n, names.len(), &sep);
        assert(views(names@).subrange(n as int, names.len() as int) =~= views(names@).skip(n as int));
        let out = join_path_exec(&chars_of(guest), &rel);
        string_from_chars(&out)
    } else {
        String::from_str(guest)
    }
}

/// Every name of a path is non-empty and holds no `/`.
pub proof fn lemma_path_names_plain(p: Seq<char>)
    ensures
        forall|i: int|
            0 <= i < path_names(p).len() ==> #[trigger] path_names(p)[i].len() > 0 && !has_char(
                path_names(p)[i],
                '/',
            ),
{
    crate::text::lemma_segments_plain(p, '/');
}

/// A directory below the project root lands below the guest workspace, at
/// the same place: its names in the guest are the guest workspace's names
/// followed by the names that lead from the project root to it.
pub proof fn law_guest_workdir_mirrors_project(guest: Seq<char>, project_root: Seq<char>, workdir: Seq<char>)
    requires
        rooted(guest),
        path_within(workdir, project_root),
    ensures
        path_within(spec_guest_workdir(guest, project_root, workdir), guest),
        path_names(spec_guest_workdir(guest, project_root, workdir)) == path_names(guest) + path_names(
            workdir,
        ).skip(path_names(project_root).len() as int),
{
    let rest = path_names(workdir).skip(path_names(project_root).len() as int);
    let j = join_with(rest, "/"@);
    lemma_path_names_plain(workdir);
    assert forall|i: int| 0 <= i < rest.len() implies #[trigger] rest[i].len() > 0 && !has_char(rest[i], '/') by {
        assert(rest[i] == path_names(workdir)[i + path_names(project_root).len()]);
    }
    assert("/"@ =~= seq!['/']) by {
        reveal_strlit("/");
    }
    lemma_segments_of_join(rest, '/');
    let out = spec_guest_workdir(guest, project_root, workdir);
    if guest.last() == '/' {
        let a = guest.drop_last();
        assert(guest =~= a + seq!['/'] + Seq::<char>::empty());
        lemma_segments_around_sep(a, Seq::empty(), '/');
        assert(segments(Seq::<char>::empty(), '/') =~= Seq::<Seq<char>>::empty());
        assert(out =~= a + seq!['/'] + j);
        lemma_segments_around_sep(a, j, '/');
        assert(segments(a, '/') + Seq::<Seq<char>>::empty() =~= segments(a, '/'));
    } else {
        assert(out =~= guest + seq!['/'] + j);
        lemma_segments_around_sep(guest, j, '/');
    }
    assert(out[0] == guest[0]);
    assert((path_names(guest) + rest).take(path_names(guest).len() as int) =~= path_names(guest));
}

/// The last name of a path that is not `.`.
pub open spec fn last_name(names: Seq<Seq<char>>) -> Option<Seq<char>>
    decreases names.len(),
{
    if names.len() == 0 {
        None
    } else if names.last() == "."@ {
        last_name(names.drop_last())
    } else {
        Some(names.last())
    }
}

/// `Path::file_name`: the last name of the path, unless there is none or
/// it is `..`.
pub open spec fn path_file_name(p: Seq<char>) -> Option<Seq<char>> {
    match last_name(path_names(p)) {
        Some(n) => if n == ".."@ {
            None
        } else {
            Some(n)
        },
        None => None,
    }
}

/// The index of the last occurrence of `c` in `s`.
pub open spec fn last_index_of(s: Seq<char>, c: char) -> Option<int>
    decreases s.len(),
{
    if s.len() == 0 {
        None
    } else if s.last() == c {
        Some(s.len() - 1)
    } else {
        last_index_of(s.drop_last(), c)
    }
}

/// The stem of a file name: the part before its last `.`, unless the only
/// `.` starts the name.
pub open spec fn stem_of(f: Seq<char>) -> Seq<char> {
    match last_index_of(f, '.') {
        Some(i) => if i == 0 {
            f
        } else {
            f.take(i)
        },
        None => f,
    }
}

/// `Path::file_stem`.
pub open spec fn path_file_stem(p: Seq<char>) -> Option<Seq<char>> {
    match path_file_name(p) {
        Some(f) => Some(stem_of(f)),
        None => None,
    }
}

/// The file name of a path.
pub fn file_name(p: &str) -> (r: Option<String>)
    ensures
        match r {
            Some(s) => path_file_name(p@) == Some(s@),
            None => path_file_name(p@) is None,
        },
{
    let names = split_nonempty(&chars_of(p), '/');
    let ghost ns = views(names@);
    let dot = chars_of(".");
    let mut i = names.len();
    assert(ns.take(i as int) =~= ns);
    while i > 0
        invariant
            i <= names.len(),
            ns == views(names@),
            ns == path_names(p@),
            dot@ == "."@,
            last_name(ns) == last_name(ns.take(i as int)),
        decreases i,
    {
        assert(ns.take(i as int).drop_last() =~= ns.take(i - 1));
        assert(ns.take(i as int).last() == names@[i - 1]@);
        if !chars_eq(&names[i - 1], &dot) {
            let n = names[i - 1].clone();
            if chars_eq(&n, &chars_of("..")) {
                return None;
            }
            return Some(string_from_chars(&n));
        }
        i -= 1;
    }
    assert(ns.take(0) =~= Seq::<Seq<char>>::empty());
    None
}

fn last_dot(s: &Vec<char>) -> (r: Option<usize>)
    ensures
        match r {
            Some(i) => last_index_of(s@, '.') == Some(i as int) && i < s.len(),
            None => last_index_of(s@, '.') is None,
        },
{
    let mut i = s.len();
    assert(s@.take(i as int) =~= s@);
    while i > 0
        invariant
            i <= s.len(),
            last_index_of(s@, '.') == last_index_of(s@.take(i as int), '.'),
        decreases i,
    {
        assert(s@.take(i as int).drop_last() =~= s@.take(i - 1));
        if s[i - 1] == '.' {
            return Some(i - 1);
        }
        i -= 1;
    }
    None
}

/// The file stem of a path.
pub fn file_stem(p: &str) -> (r: Option<String>)
    ensures
        match r {
            Some(s) => path_file_stem(p@) == Some(s@),
            None => path_file_stem(p@) is None,
        },
{
    match file_name(p) {
        None => None,
        Some(f) => {
            let c = chars_of(f.as_str());
            match last_dot(&c) {
                Some(i) => if i == 0 {
                    Some(f)
                } else {
                    let stem = crate::text::slice_chars(&c, 0, i);
                    assert(c@.take(i as int) =~= c@.subrange(0, i as int));
                    Some(string_from_chars(&stem))
                },
                None => Some(f),
            }
        },
    }
}

/// `Path::extension`: the part of the file name after its last `.`,
/// unless the only `.` starts the name.
pub open spec fn path_extension(p: Seq<char>) -> Option<Seq<char>> {
    match path_file_name(p) {
        Some(f) => match last_index_of(f, '.') {
            Some(i) => if i == 0 {
                None
            } else {
                Some(f.skip(i + 1))
            },
            None => None,
        },
        None => None,
    }
}

/// The extension of a path's file name.
pub fn file_extension(p: &str) -> (r: Option<String>)
    ensures
        match r {
            Some(s) => path_extension(p@) == Some(s@),
            None => path_extension(p@) is None,
        },
{
    match file_name(p) {
        None => None,
        Some(f) => {
            let c = chars_of(f.as_str());
            match last_dot(&c) {
                Some(i) => if i == 0 {
                    None
                } else {
                    let e = crate::text::slice_chars(&c, i + 1, c.len());
                    assert(c@.skip(i + 1) =~= c@.subrange(i + 1, c@.len() as int));
                    Some(string_from_chars(&e))
                },
                None => None,
            }
        },
    }
}

/// The name of the `.ini` file at a path: its stem, when its extension is
/// `ini` and its stem is not empty.
pub open spec fn spec_ini_name(p: Seq<char>) -> Option<Seq<char>> {
    if path_extension(p) == Some("ini"@) {
        match path_file_stem(p) {
            Some(s) => if s.len() > 0 {
                Some(s)
            } else {
                None
            },
            None => None,
        }
    } else {
        None
    }
}

/// The name of the `.ini` file at a path.
pub fn ini_name(p: &str) -> (r: Option<String>)
    ensures
        match r {
            Some(s) => spec_ini_name(p@) == Some(s@),
            None => spec_ini_name(p@) is None,
        },
{
    let is_ini = match file_extension(p) {
        Some(e) => chars_eq(&chars_of(e.as_str()), &chars_of("ini")),
        None => false,
    };
    if !is_ini {
        return None;
    }
    match file_stem(p) {
        Some(s) => if chars_of(s.as_str()).len() > 0 {
            Some(s)
        } else {
            None
        },
        None => None,
    }
}

/// The key that orders paths as `Path` orders absolute paths: their names
/// joined with NUL, which sorts below every character a name holds.
pub open spec fn path_order_key(p: Seq<char>) -> Seq<char> {
    join_with(path_names(p), seq!['\0'])
}

/// A path, ordered by its names.
#[derive(Debug, Clone, PartialEq, Eq)]
pub struct OrderedPath {
    pub path: String,
}

impl crate::order::Keyed for OrderedPath {
    open spec fn key_view(&self) -> Seq<char> {
        path_order_key(self.path@)
    }

    fn key_chars(&self) -> (r: Vec<char>) {
        let names = split_nonempty(&chars_of(self.path.as_str()), '/');
        let mut sep: Vec<char> = Vec::new();
        sep.push('\0');
        assert(sep@ =~= seq!['\0']);
        let r = join_range(&names, 0, names.len(), &sep);
        assert(views(names@).subrange(0, names@.len() as int) =~= views(names@));
        r
    }
}

/// The paths, each in an [`OrderedPath`].
pub open spec fn ordered_paths(ps: Seq<String>) -> Seq<OrderedPath> {
    ps.map_values(|p: String| OrderedPath { path: p })
}

/// Sorts absolute paths as `Path` orders them: name by name, stably.
pub fn sort_paths(paths: &Vec<String>) -> (r: Vec<String>)
    ensures
        r@ == crate::order::sort_keyed(ordered_paths(paths@)).map_values(|o: OrderedPath| o.path),
{
    let mut wrapped: Vec<OrderedPath> = Vec::new();
    let mut i: usize = 0;
    while i < paths.len()
        invariant
            i <= paths.len(),
            wrapped@ == ordered_paths(paths@).take(i as int),
        decreases paths.len() - i,
    {
        wrapped.push(OrderedPath { path: paths[i].clone() });
        assert(wrapped@ =~= ordered_paths(paths@).take(i + 1));
        i += 1;
    }
    assert(ordered_paths(paths@).take(paths.len() as int) =~= ordered_paths(paths@));
    let sorted = crate::order::stable_sort_by_key(wrapped);
    let mut out: Vec<String> = Vec::new();
    let mut j: usize = 0;
    while j < sorted.len()
        invariant
            j <= sorted.len(),
            out@ == sorted@.map_values(|o: OrderedPath| o.path).take(j as int),
        decreases sorted.len() - j,
    {
        out.push(sorted[j].path.clone());
        assert(out@ =~= sorted@.map_values(|o: OrderedPath| o.path).take(j + 1));
        j += 1;
    }
    assert(sorted@.map_values(|o: OrderedPath| o.path).take(sorted.len() as int) =~= sorted@.map_values(
        |o: OrderedPath| o.path,
    ));
    out
}

} // verus!
