//! Project sandboxes: container names derived from project directories,
//! explicit environment additions, mount targets and the argument lists of
//! the `container` commands that create and enter a sandbox.

use vstd::prelude::*;
use crate::number::{decimal, hex_chars, hex_digits, u64_to_string};
use crate::text::{
    ascii_lower_seq, chars_eq, chars_of, contains_char, ends_with, find_char, first_index_of,
    has_char, has_prefix, has_suffix, is_ascii_alnum, push_all, push_str, slice_chars, starts_with,
    string_from_chars, string_views, trim, trim_str, trim_ws, lines, split_lines, split_words, views,
    words, segments, split_nonempty, join_range, join_with,
};

verus! {

/// What `char::is_alphanumeric` answers for `c`: whether `c` has the
/// Unicode `Alphabetic` property or a numeric general category, which
/// Unicode's tables decide.
pub uninterp spec fn unicode_alphanumeric(c: char) -> bool;

/// Calls `char::is_alphanumeric`; the contract names its answer
/// [`unicode_alphanumeric`] and says nothing more about it.
#[verifier::external_body]
fn char_is_alphanumeric(c: char) -> (r: bool)
    ensures
        r == unicode_alphanumeric(c),
{
    c.is_alphanumeric()
}

/// A character that may stand in a container name.
pub open spec fn name_char(c: char) -> bool {
    unicode_alphanumeric(c) || c == '-' || c == '_'
}

/// The characters of `s` that may stand in a container name, in order.
pub open spec fn keep_name_chars(s: Seq<char>) -> Seq<char>
    decreases s.len(),
{
    if s.len() == 0 {
        s
    } else if name_char(s.last()) {
        keep_name_chars(s.drop_last()).push(s.last())
    } else {
        keep_name_chars(s.drop_last())
    }
}

/// `name` reduced to the characters a container name may hold; none if no
/// character is left.
pub open spec fn spec_sanitize(name: Seq<char>) -> Option<Seq<char>> {
    if keep_name_chars(name).len() == 0 {
        None
    } else {
        Some(keep_name_chars(name))
    }
}

fn keep_name_chars_exec(s: &Vec<char>) -> (r: Vec<char>)
    ensures
        r@ == keep_name_chars(s@),
{
    let mut r: Vec<char> = Vec::new();
    let mut i: usize = 0;
    assert(s@.take(0) =~= Seq::<char>::empty());
    while i < s.len()
        invariant
            i <= s.len(),
            r@ == keep_name_chars(s@.take(i as int)),
        decreases s.len() - i,
    {
        assert(s@.take(i + 1).drop_last() =~= s@.take(i as int));
        let c = s[i];
        if char_is_alphanumeric(c) || c == '-' || c == '_' {
            r.push(c);
        }
        i += 1;
    }
    assert(s@.take(s.len() as int) =~= s@);
    r
}

/// Reduces a project directory name to the characters a container name may
/// hold.
pub fn sanitize_project_name(name: &str) -> (r: Option<String>)
    ensures
        match r {
            Some(s) => spec_sanitize(name@) == Some(s@),
            None => spec_sanitize(name@) is None,
        },
{
    let kept = keep_name_chars_exec(&chars_of(name));
    if kept.len() == 0 {
        None
    } else {
        Some(string_from_chars(&kept))
    }
}

proof fn lemma_kept_chars_allowed(s: Seq<char>)
    ensures
        forall|i: int| 0 <= i < keep_name_chars(s).len() ==> name_char(#[trigger] keep_name_chars(s)[i]),
    decreases s.len(),
{
    if s.len() > 0 {
        lemma_kept_chars_allowed(s.drop_last());
        let k = keep_name_chars(s.drop_last());
        assert forall|i: int| 0 <= i < keep_name_chars(s).len() implies name_char(#[trigger] keep_name_chars(s)[i]) by {
            if name_char(s.last()) {
                if i < k.len() {
                    assert(keep_name_chars(s)[i] == k[i]);
                }
            }
        }
    }
}

proof fn lemma_keep_all_allowed(s: Seq<char>)
    requires
        forall|i: int| 0 <= i < s.len() ==> name_char(#[trigger] s[i]),
    ensures
        keep_name_chars(s) == s,
    decreases s.len(),
{
    if s.len() > 0 {
        assert forall|i: int| 0 <= i < s.drop_last().len() implies name_char(#[trigger] s.drop_last()[i]) by {
            assert(s.drop_last()[i] == s[i]);
        }
        lemma_keep_all_allowed(s.drop_last());
        assert(name_char(s[s.len() - 1]));
        assert(s.drop_last().push(s.last()) =~= s);
    }
}

/// Sanitizing a name twice is sanitizing it once: a sanitized name is left
/// as it is.
pub proof fn law_sanitize_idempotent(name: Seq<char>)
    ensures
        spec_sanitize(name) matches Some(s) ==> spec_sanitize(s) == Some(s),
{
    lemma_kept_chars_allowed(name);
    lemma_keep_all_allowed(keep_name_chars(name));
}

/// The FNV-1a hash (64 bits) of `bytes`.
pub open spec fn fnv1a(bytes: Seq<u8>) -> u64
    decreases bytes.len(),
{
    if bytes.len() == 0 {
        0xcbf29ce484222325
    } else {
        vstd::wrapping::u64_specs::wrapping_mul(fnv1a(bytes.drop_last()) ^ (bytes.last() as u64), 0x100000001b3)
    }
}

/// The suffix that tells apart projects whose names sanitize alike: the
/// low 32 bits of the FNV-1a hash of the name's UTF-8 bytes, as 8
/// lower-case hexadecimal digits.
pub open spec fn spec_name_suffix(seed: Seq<char>) -> Seq<char> {
    hex_digits((fnv1a(vstd::utf8::encode_utf8(seed)) & 0xffff_ffff) as nat, 8)
}

/// The hash suffix for a project name.
pub fn project_name_suffix(seed: &str) -> (r: String)
    ensures
        r@ == spec_name_suffix(seed@),
{
    let bytes = seed.as_bytes();
    let mut acc: u64 = 0xcbf29ce484222325;
    let mut i: usize = 0;
    assert(bytes@.take(0) =~= Seq::<u8>::empty());
    while i < bytes.len()
        invariant
            i <= bytes.len(),
            acc == fnv1a(bytes@.take(i as int)),
        decreases bytes.len() - i,
    {
        assert(bytes@.take(i + 1).drop_last() =~= bytes@.take(i as int));
        acc = (acc ^ (bytes[i] as u64)).wrapping_mul(0x100000001b3);
        i += 1;
    }
    assert(bytes@.take(bytes.len() as int) =~= bytes@);
    string_from_chars(&hex_chars(acc & 0xffff_ffff, 8))
}

/// `~/rest` becomes `<home>/rest`; anything else is left as it is.
pub open spec fn spec_expand_home_path(input: Seq<char>, home: Seq<char>) -> Seq<char> {
    if has_prefix(input, "~/"@) {
        home + "/"@ + input.skip(2)
    } else {
        input
    }
}

/// Expands a leading `~/` to the home directory.
pub fn expand_home_path(input: &str, home: &str) -> (r: String)
    ensures
        r@ == spec_expand_home_path(input@, home@),
{
    let s = chars_of(input);
    proof { reveal_strlit("~/"); }
    if starts_with(&s, &chars_of("~/")) {
        let mut out = chars_of(home);
        push_str(&mut out, "/");
        push_all(&mut out, &slice_chars(&s, 2, s.len()));
        assert(s@.skip(2) =~= s@.subrange(2, s@.len() as int));
        string_from_chars(&out)
    } else {
        String::from_str(input)
    }
}

/// Why a mount target in a profile manifest was refused.
#[derive(Debug, Clone, Copy, PartialEq, Eq)]
pub enum MountTargetError {
    /// The target is blank.
    Empty,
    /// The target (without `:ro`) is not an absolute path.
    NotAbsolute,
}

/// The guest path and read-only flag a manifest mount target stands for:
/// the trimmed value, read-only when it ends in `:ro` (which is dropped);
/// the path must be absolute.
pub open spec fn spec_parse_mount_target(value: Seq<char>) -> Result<(Seq<char>, bool), MountTargetError> {
    let raw = trim(value);
    if raw.len() == 0 {
        Err(MountTargetError::Empty)
    } else {
        let ro = has_suffix(raw, ":ro"@);
        let guest = if ro {
            raw.take(raw.len() - 3)
        } else {
            raw
        };
        if !has_prefix(guest, "/"@) {
            Err(MountTargetError::NotAbsolute)
        } else {
            Ok((guest, ro))
        }
    }
}

/// Reads a manifest mount target.
pub fn parse_guest_mount_target(value: &str) -> (r: Result<(String, bool), MountTargetError>)
    ensures
        match r {
            Ok((g, ro)) => spec_parse_mount_target(value@) == Ok::<(Seq<char>, bool), MountTargetError>((g@, ro)),
            Err(e) => spec_parse_mount_target(value@) == Err::<(Seq<char>, bool), MountTargetError>(e),
        },
{
    let raw = trim_str(value);
    if raw.len() == 0 {
        return Err(MountTargetError::Empty);
    }
    proof { reveal_strlit(":ro"); }
    let ro = ends_with(&raw, &chars_of(":ro"));
    let guest = if ro {
        let g = slice_chars(&raw, 0, raw.len() - 3);
        assert(g@ =~= raw@.take(raw.len() - 3));
        g
    } else {
        raw
    };
    if !starts_with(&guest, &chars_of("/")) {
        return Err(MountTargetError::NotAbsolute);
    }
    Ok((string_from_chars(&guest), ro))
}

/// Why an explicit `--env` addition was refused.
#[derive(Debug, Clone, Copy, PartialEq, Eq)]
pub enum EnvArgError {
    /// No `=` in the value.
    MissingEquals,
    /// Nothing before the `=`.
    EmptyKey,
    /// The key holds a character other than `[A-Za-z0-9_]`.
    InvalidKey,
    /// The value holds a NUL, line feed or carriage return.
    ControlCharacters,
}

/// A character an environment variable name may hold.
pub open spec fn env_key_char(c: char) -> bool {
    is_ascii_alnum(c) || c == '_'
}

/// The variable and value a `KEY=VALUE` addition sets: split at the first
/// `=`; the key non-empty and made of `[A-Za-z0-9_]`, the value free of
/// NUL, line feed and carriage return.
pub open spec fn spec_parse_explicit_env(input: Seq<char>) -> Result<(Seq<char>, Seq<char>), EnvArgError> {
    match first_index_of(input, '=') {
        None => Err(EnvArgError::MissingEquals),
        Some(i) => {
            let key = input.take(i);
            let value = input.skip(i + 1);
            if key.len() == 0 {
                Err(EnvArgError::EmptyKey)
            } else if exists|j: int| 0 <= j < key.len() && !env_key_char(#[trigger] key[j]) {
                Err(EnvArgError::InvalidKey)
            } else if has_char(value, '\0') || has_char(value, '\n') || has_char(value, '\r') {
                Err(EnvArgError::ControlCharacters)
            } else {
                Ok((key, value))
            }
        },
    }
}

/// Reads an explicit `--env KEY=VALUE` addition.
#[verifier::loop_isolation(false)]
pub fn parse_explicit_env(input: &str) -> (r: Result<(String, String), EnvArgError>)
    ensures
        match r {
            Ok((k, v)) => spec_parse_explicit_env(input@) == Ok::<(Seq<char>, Seq<char>), EnvArgError>((k@, v@)),
            Err(e) => spec_parse_explicit_env(input@) == Err::<(Seq<char>, Seq<char>), EnvArgError>(e),
        },
{
    let s = chars_of(input);
    let i = match find_char(&s, '=') {
        None => {
            return Err(EnvArgError::MissingEquals);
        },
        Some(i) => i,
    };
    let key = slice_chars(&s, 0, i);
    let value = slice_chars(&s, i + 1, s.len());
    assert(key@ =~= s@.take(i as int));
    assert(value@ =~= s@.skip(i + 1));
    if key.len() == 0 {
        return Err(EnvArgError::EmptyKey);
    }
    let mut j: usize = 0;
    while j < key.len()
        invariant
            j <= key.len(),
            forall|t: int| 0 <= t < j ==> env_key_char(#[trigger] key@[t]),
        decreases key.len() - j,
    {
        let c = key[j];
        if !(crate::text::ascii_alnum(c) || c == '_') {
            assert(!env_key_char(key@[j as int]));
            return Err(EnvArgError::InvalidKey);
        }
        j += 1;
    }
    if contains_char(&value, '\0') || contains_char(&value, '\n') || contains_char(&value, '\r') {
        return Err(EnvArgError::ControlCharacters);
    }
    Ok((string_from_chars(&key), string_from_chars(&value)))
}

/// An accepted `KEY=VALUE` addition is exactly its key, `=` and its value:
/// writing the pair back as `KEY=VALUE`, as the sandbox exec arguments do,
/// gives the text that was read, and the key holds no `=`.
pub proof fn law_explicit_env_round_trip(input: Seq<char>)
    ensures
        spec_parse_explicit_env(input) matches Ok((k, v)) ==> k + "="@ + v == input && !has_char(k, '='),
{
    reveal_strlit("=");
    crate::text::lemma_first_index_of(input, '=');
    if let Ok((k, v)) = spec_parse_explicit_env(input) {
        let i = first_index_of(input, '=').unwrap();
        assert(input.take(i) + "="@ + input.skip(i + 1) =~= input);
        if has_char(k, '=') {
            let j = choose|j: int| 0 <= j < k.len() && k[j] == '=';
            assert(input[j] == '=');
        }
    }
}

/// The image a profile is pre-baked into.
pub open spec fn spec_golden_image_tag(profile: Seq<char>) -> Seq<char> {
    "muthr-profile-"@ + profile + ":latest"@
}

/// The tag of the golden image of a profile.
pub fn golden_image_tag(profile_name: &str) -> (r: String)
    ensures
        r@ == spec_golden_image_tag(profile_name@),
{
    let mut s = String::from_str("muthr-profile-");
    s.append(profile_name);
    s.append(":latest");
    s
}

/// The services containers, which are no project sandboxes.
pub open spec fn is_services_container(id: Seq<char>) -> bool {
    id == "muthr-services"@ || id == "muthr-searxng"@
}

/// A container id that names a project sandbox: it starts with `muthr-`
/// and is not one of the services containers.
pub open spec fn is_sandbox_id(id: Seq<char>) -> bool {
    has_prefix(id, "muthr-"@) && !is_services_container(id)
}

/// Whether a container id names a project sandbox.
pub fn sandbox_id(id: &str) -> (r: bool)
    ensures
        r == is_sandbox_id(id@),
{
    let c = chars_of(id);
    starts_with(&c, &chars_of("muthr-")) && !chars_eq(&c, &chars_of("muthr-services")) && !chars_eq(
        &c,
        &chars_of("muthr-searxng"),
    )
}

/// Why a sandbox name given to `sandbox stop --name` was refused.
#[derive(Debug, Clone, Copy, PartialEq, Eq)]
pub enum SandboxNameError {
    /// It does not start with `muthr-`.
    MissingPrefix,
    /// It names a services container.
    ServicesContainer,
}

/// Checks a sandbox name given to `sandbox stop --name`.
pub fn validate_named_sandbox(container_id: &str) -> (r: Result<(), SandboxNameError>)
    ensures
        r == if !has_prefix(container_id@, "muthr-"@) {
            Err(SandboxNameError::MissingPrefix)
        } else if is_services_container(container_id@) {
            Err(SandboxNameError::ServicesContainer)
        } else {
            Ok(())
        },
{
    let c = chars_of(container_id);
    if !starts_with(&c, &chars_of("muthr-")) {
        return Err(SandboxNameError::MissingPrefix);
    }
    if chars_eq(&c, &chars_of("muthr-services")) || chars_eq(&c, &chars_of("muthr-searxng")) {
        return Err(SandboxNameError::ServicesContainer);
    }
    Ok(())
}


/// A host directory mounted into a sandbox.
#[derive(Debug, Clone)]
pub struct MountSpec {
    pub host: String,
    pub guest: String,
    pub read_only: bool,
}

/// How a sandbox container is created for a profile.
#[derive(Debug, Clone)]
pub struct ContainerProfileSettings {
    pub image: String,
    pub workspace_guest_path: String,
    pub mounts: Vec<MountSpec>,
    pub network_none: bool,
    pub cpus: Option<u32>,
    pub memory: Option<String>,
    pub uses_golden_image: bool,
}

/// The `--volume` value of a mount: `host:guest`, with `:ro` when read-only.
pub open spec fn volume_arg(m: MountSpec) -> Seq<char> {
    if m.read_only {
        m.host@ + ":"@ + m.guest@ + ":ro"@
    } else {
        m.host@ + ":"@ + m.guest@
    }
}

/// `--volume` and its value for each mount, in order.
pub open spec fn volume_args(mounts: Seq<MountSpec>) -> Seq<Seq<char>>
    decreases mounts.len(),
{
    if mounts.len() == 0 {
        Seq::empty()
    } else {
        volume_args(mounts.drop_last()) + seq!["--volume"@, volume_arg(mounts.last())]
    }
}

/// The arguments of `container create` for a sandbox: its name, the native
/// platform, detached, the labels that mark it a managed project sandbox,
/// then network isolation, CPU and memory limits (a blank memory limit is
/// left out), the mounts, the working directory, the image and a command
/// that keeps the container alive.
pub open spec fn spec_create_args(container_id: Seq<char>, s: ContainerProfileSettings) -> Seq<Seq<char>> {
    seq![
        "create"@,
        "--name"@,
        container_id,
        "--platform"@,
        "linux/arm64"@,
        "--detach"@,
        "--label"@,
        "muthr.managed=true"@,
        "--label"@,
        "muthr.owner=project"@,
        "--label"@,
        "muthr.profile.base=true"@,
    ] + (if s.network_none {
        seq!["--network"@, "none"@]
    } else {
        Seq::empty()
    }) + (match s.cpus {
        Some(c) => seq!["--cpus="@ + decimal(c as nat)],
        None => Seq::empty(),
    }) + (match s.memory {
        Some(m) => if trim(m@).len() > 0 {
            seq!["--memory="@ + trim(m@)]
        } else {
            Seq::empty()
        },
        None => Seq::empty(),
    }) + volume_args(s.mounts@) + seq![
        "--workdir"@,
        s.workspace_guest_path@,
        s.image@,
        "sh"@,
        "-lc"@,
        "while true; do sleep 3600; done"@,
    ]
}

fn push_string(v: &mut Vec<String>, s: String)
    ensures
        string_views(final(v)@) == string_views(old(v)@).push(s@),
{
    let ghost before = string_views(v@);
    v.push(s);
    assert(string_views(v@) =~= before.push(s@));
}

fn concat2(a: &str, b: &str) -> (r: String)
    ensures
        r@ == a@ + b@,
{
    let mut s = String::from_str(a);
    s.append(b);
    s
}

/// The arguments of `container create` for a sandbox.
pub fn create_args_for_settings(container_id: &str, settings: &ContainerProfileSettings) -> (r: Vec<String>)
    ensures
        string_views(r@) == spec_create_args(container_id@, *settings),
{
    let mut args: Vec<String> = Vec::new();
    push_string(&mut args, String::from_str("create"));
    push_string(&mut args, String::from_str("--name"));
    push_string(&mut args, String::from_str(container_id));
    push_string(&mut args, String::from_str("--platform"));
    push_string(&mut args, String::from_str("linux/arm64"));
    push_string(&mut args, String::from_str("--detach"));
    push_string(&mut args, String::from_str("--label"));
    push_string(&mut args, String::from_str("muthr.managed=true"));
    push_string(&mut args, String::from_str("--label"));
    push_string(&mut args, String::from_str("muthr.owner=project"));
    push_string(&mut args, String::from_str("--label"));
    push_string(&mut args, String::from_str("muthr.profile.base=true"));
    let ghost head = string_views(args@);
    if settings.network_none {
        push_string(&mut args, String::from_str("--network"));
        push_string(&mut args, String::from_str("none"));
    }
    let ghost after_network = string_views(args@);
    if let Some(cpus) = settings.cpus {
        push_string(&mut args, concat2("--cpus=", u64_to_string(cpus as u64).as_str()));
    }
    let ghost after_cpus = string_views(args@);
    if let Some(memory) = &settings.memory {
        let m = trim_str(memory.as_str());
        if m.len() > 0 {
            let ms = string_from_chars(&m);
            push_string(&mut args, concat2("--memory=", ms.as_str()));
        }
    }
    let ghost after_memory = string_views(args@);
    let mut i: usize = 0;
    assert(settings.mounts@.take(0) =~= Seq::<MountSpec>::empty());
    assert(after_memory + volume_args(Seq::<MountSpec>::empty()) =~= after_memory);
    while i < settings.mounts.len()
        invariant
            i <= settings.mounts.len(),
            string_views(args@) == after_memory + volume_args(settings.mounts@.take(i as int)),
        decreases settings.mounts.len() - i,
    {
        let m = &settings.mounts[i];
        let mut vol = String::from_str(m.host.as_str());
        vol.append(":");
        vol.append(m.guest.as_str());
        if m.read_only {
            vol.append(":ro");
        }
        let ghost before = string_views(args@);
        push_string(&mut args, String::from_str("--volume"));
        push_string(&mut args, vol);
        assert(settings.mounts@.take(i + 1).drop_last() =~= settings.mounts@.take(i as int));
        assert(string_views(args@) =~= before + seq!["--volume"@, volume_arg(settings.mounts@[i as int])]);
        i += 1;
    }
    assert(settings.mounts@.take(settings.mounts.len() as int) =~= settings.mounts@);
    let ghost after_mounts = string_views(args@);
    push_string(&mut args, String::from_str("--workdir"));
    push_string(&mut args, settings.workspace_guest_path.clone());
    push_string(&mut args, settings.image.clone());
    push_string(&mut args, String::from_str("sh"));
    push_string(&mut args, String::from_str("-lc"));
    push_string(&mut args, String::from_str("while true; do sleep 3600; done"));
    proof {
        let spec = spec_create_args(container_id@, *settings);
        assert(head =~= seq![
            "create"@,
            "--name"@,
            container_id@,
            "--platform"@,
            "linux/arm64"@,
            "--detach"@,
            "--label"@,
            "muthr.managed=true"@,
            "--label"@,
            "muthr.owner=project"@,
            "--label"@,
            "muthr.profile.base=true"@,
        ]);
        assert(after_network =~= head + (if settings.network_none {
            seq!["--network"@, "none"@]
        } else {
            Seq::empty()
        }));
        assert(after_cpus =~= after_network + (match settings.cpus {
            Some(c) => seq!["--cpus="@ + decimal(c as nat)],
            None => Seq::empty(),
        }));
        assert(after_memory =~= after_cpus + (match settings.memory {
            Some(m) => if trim(m@).len() > 0 {
                seq!["--memory="@ + trim(m@)]
            } else {
                Seq::empty()
            },
            None => Seq::empty(),
        }));
        assert(string_views(args@) =~= spec);
    }
    args
}

/// What a sandbox profile manifest (`manifest.yaml`) sets.
#[derive(Debug, Clone, Default)]
pub struct SandboxManifest {
    pub image: Option<String>,
    pub resources: Option<ResourceLimits>,
    /// Host path (or `workspace`) and guest mount target of each mount, in
    /// the order the manifest's map is read.
    pub mounts: Option<Vec<(String, String)>>,
    pub security: Option<SecurityCaps>,
}

/// A manifest's resource limits.
#[derive(Debug, Clone, Default)]
pub struct ResourceLimits {
    pub cpus: Option<u32>,
    pub memory: Option<String>,
}

/// A manifest's security settings.
#[derive(Debug, Clone, Default)]
pub struct SecurityCaps {
    pub network: Option<String>,
    pub workspace_mode: Option<String>,
}

/// The network setting asks for no network: `none` or `restricted`,
/// trimmed and in any ASCII case.
pub open spec fn network_is_none(network: Seq<char>) -> bool {
    ascii_lower_seq(trim(network)) == "none"@ || ascii_lower_seq(trim(network)) == "restricted"@
}

/// The workspace mode asks for an overlay, which is not implemented.
pub open spec fn workspace_mode_is_overlay(mode: Seq<char>) -> bool {
    ascii_lower_seq(trim(mode)) == "overlay"@
}

/// The settings a manifest gives before its mounts are read.
pub open spec fn manifest_base(m: SandboxManifest) -> (Seq<char>, Option<u32>, Option<Seq<char>>, bool) {
    (
        match m.image {
            Some(i) => if trim(i@).len() > 0 {
                trim(i@)
            } else {
                "debian:13-slim"@
            },
            None => "debian:13-slim"@,
        },
        match m.resources {
            Some(r) => r.cpus,
            None => None,
        },
        match m.resources {
            Some(r) => match r.memory {
                Some(v) => Some(v@),
                None => None,
            },
            None => None,
        },
        match m.security {
            Some(sec) => match sec.network {
                Some(n) => network_is_none(n@),
                None => false,
            },
            None => false,
        },
    )
}

/// Reading a manifest's mounts, in order, from the workspace guest path
/// and the mounts so far: a `workspace` entry with an absolute (trimmed)
/// target moves the workspace; other entries with a non-blank host mount
/// the host path (with `~/` expanded) at the target they give.
pub open spec fn read_mounts(
    entries: Seq<(String, String)>,
    home: Seq<char>,
) -> Result<(Seq<char>, Seq<(Seq<char>, Seq<char>, bool)>), MountTargetError>
    decreases entries.len(),
{
    if entries.len() == 0 {
        Ok(("/workspace"@, Seq::empty()))
    } else {
        match read_mounts(entries.drop_last(), home) {
            Err(e) => Err(e),
            Ok((ws, mounts)) => {
                let (host_key, guest_value) = entries.last();
                if host_key@ == "workspace"@ {
                    if has_prefix(trim(guest_value@), "/"@) {
                        Ok((trim(guest_value@), mounts))
                    } else {
                        Ok((ws, mounts))
                    }
                } else {
                    let host = spec_expand_home_path(trim(host_key@), home);
                    if host.len() == 0 {
                        Ok((ws, mounts))
                    } else {
                        match spec_parse_mount_target(guest_value@) {
                            Err(e) => Err(e),
                            Ok((guest, ro)) => Ok((ws, mounts.push((host, guest, ro)))),
                        }
                    }
                }
            },
        }
    }
}

/// The view of a mount.
pub open spec fn mount_view(m: MountSpec) -> (Seq<char>, Seq<char>, bool) {
    (m.host@, m.guest@, m.read_only)
}

/// The settings of a sandbox for a profile: the manifest's image, limits,
/// network isolation and mounts (defaults: `debian:13-slim`, workspace at
/// `/workspace`, no limits), the project directory `project_root` mounted
/// first at the workspace path, and the golden image of the profile instead
/// when it exists. The flag says the manifest asked for an overlay workspace.
pub open spec fn spec_profile_settings(
    manifest: Option<SandboxManifest>,
    profile: Seq<char>,
    home: Seq<char>,
    project_root: Seq<char>,
    golden_image_exists: bool,
    s: ContainerProfileSettings,
    overlay: bool,
) -> bool {
    let (image, cpus, memory, network_none) = match manifest {
        Some(m) => manifest_base(m),
        None => ("debian:13-slim"@, None, None, false),
    };
    let mounts_read = match manifest {
        Some(m) => match m.mounts {
            Some(entries) => read_mounts(entries@, home),
            None => Ok(("/workspace"@, Seq::empty())),
        },
        None => Ok(("/workspace"@, Seq::empty())),
    };
    match mounts_read {
        Err(_) => false,
        Ok((ws, mounts)) => {
            &&& s.workspace_guest_path@ == ws
            &&& s.mounts@.map_values(|m: MountSpec| mount_view(m)) == seq![(project_root, ws, false)] + mounts
            &&& s.network_none == network_none
            &&& s.cpus == cpus
            &&& opt_string(s.memory) == memory
            &&& s.uses_golden_image == golden_image_exists
            &&& s.image@ == if golden_image_exists {
                spec_golden_image_tag(profile)
            } else {
                image
            }
            &&& overlay == match manifest {
                Some(m) => match m.security {
                    Some(sec) => match sec.workspace_mode {
                        Some(w) => workspace_mode_is_overlay(w@),
                        None => false,
                    },
                    None => false,
                },
                None => false,
            }
        },
    }
}

/// The view of an optional string.
pub open spec fn opt_string(o: Option<String>) -> Option<Seq<char>> {
    match o {
        Some(v) => Some(v@),
        None => None,
    }
}

/// The mount error, if reading the manifest's mounts fails.
pub open spec fn manifest_mount_error(manifest: Option<SandboxManifest>, home: Seq<char>) -> Option<MountTargetError> {
    match manifest {
        Some(m) => match m.mounts {
            Some(entries) => match read_mounts(entries@, home) {
                Err(e) => Some(e),
                Ok(_) => None,
            },
            None => None,
        },
        None => None,
    }
}

fn is_lower_one_of(v: &String, a: &str, b: &str) -> (r: (bool, bool))
    ensures
        r.0 == (ascii_lower_seq(trim(v@)) == a@),
        r.1 == (ascii_lower_seq(trim(v@)) == b@),
{
    let l = crate::text::lower_ascii(&trim_str(v.as_str()));
    (chars_eq(&l, &chars_of(a)), chars_eq(&l, &chars_of(b)))
}

/// The settings of a sandbox for `profile` from its manifest (if any); the
/// caller says whether the profile's golden image exists.
#[verifier::loop_isolation(false)]
pub fn container_profile_settings(
    manifest: Option<SandboxManifest>,
    profile: &str,
    home: &str,
    project_root: &str,
    golden_image_exists: bool,
) -> (r: Result<(ContainerProfileSettings, bool), MountTargetError>)
    ensures
        match r {
            Ok((s, overlay)) => spec_profile_settings(
                manifest,
                profile@,
                home@,
                project_root@,
                golden_image_exists,
                s,
                overlay,
            ),
            Err(e) => manifest_mount_error(manifest, home@) == Some(e),
        },
{
    let ghost m0 = manifest;
    let mut image = String::from_str("debian:13-slim");
    let mut cpus: Option<u32> = None;
    let mut memory: Option<String> = None;
    let mut network_none = false;
    let mut overlay = false;
    let mut workspace = String::from_str("/workspace");
    let mut mounts: Vec<MountSpec> = Vec::new();
    if let Some(m) = manifest {
        if let Some(i) = &m.image {
            let t = trim_str(i.as_str());
            if t.len() > 0 {
                image = string_from_chars(&t);
            }
        }
        if let Some(res) = &m.resources {
            cpus = res.cpus;
            memory = match &res.memory {
                Some(v) => Some(v.clone()),
                None => None,
            };
        }
        if let Some(sec) = &m.security {
            if let Some(n) = &sec.network {
                let (none, restricted) = is_lower_one_of(n, "none", "restricted");
                if none || restricted {
                    network_none = true;
                }
            }
            if let Some(w) = &sec.workspace_mode {
                let (ov, _) = is_lower_one_of(w, "overlay", "overlay");
                overlay = ov;
            }
        }
        if let Some(entries) = &m.mounts {
            let mut k: usize = 0;
            assert(entries@.take(0) =~= Seq::<(String, String)>::empty());
            assert(mounts@.map_values(|m: MountSpec| mount_view(m)) =~= Seq::<(Seq<char>, Seq<char>, bool)>::empty());
            while k < entries.len()
                invariant
                    k <= entries.len(),
                    read_mounts(entries@.take(k as int), home@) == Ok::<
                        (Seq<char>, Seq<(Seq<char>, Seq<char>, bool)>),
                        MountTargetError,
                    >((workspace@, mounts@.map_values(|m: MountSpec| mount_view(m)))),
                decreases entries.len() - k,
            {
                assert(entries@.take(k + 1).drop_last() =~= entries@.take(k as int));
                assert(entries@.take(k + 1).last() == entries@[k as int]);
                let (host_key, guest_value) = &entries[k];
                if chars_eq(&chars_of(host_key.as_str()), &chars_of("workspace")) {
                    let g = trim_str(guest_value.as_str());
                    if starts_with(&g, &chars_of("/")) {
                        workspace = string_from_chars(&g);
                    }
                } else {
                    let hk = string_from_chars(&trim_str(host_key.as_str()));
                    let host = expand_home_path(hk.as_str(), home);
                    if !host.as_str().is_empty() {
                        match parse_guest_mount_target(guest_value.as_str()) {
                            Err(e) => {
                                proof { lemma_read_mounts_error(entries@, home@, k as int); }
                                return Err(e);
                            },
                            Ok((guest, read_only)) => {
                                let ghost before = mounts@.map_values(|m: MountSpec| mount_view(m));
                                let ms = MountSpec { host, guest, read_only };
                                mounts.push(ms);
                                assert(mounts@.map_values(|m: MountSpec| mount_view(m)) =~= before.push(mount_view(ms)));
                            },
                        }
                    }
                }
                k += 1;
            }
            assert(entries@.take(entries.len() as int) =~= entries@);
        }
    }
    let ghost tail = mounts@.map_values(|m: MountSpec| mount_view(m));
    mounts.insert(0, MountSpec { host: String::from_str(project_root), guest: workspace.clone(), read_only: false });
    assert(mounts@.map_values(|m: MountSpec| mount_view(m)) =~= seq![(project_root@, workspace@, false)] + tail);
    let uses_golden_image = golden_image_exists;
    if golden_image_exists {
        image = golden_image_tag(profile);
    }
    Ok((
        ContainerProfileSettings {
            image,
            workspace_guest_path: workspace,
            mounts,
            network_none,
            cpus,
            memory,
            uses_golden_image,
        },
        overlay,
    ))
}

/// The mount entries a manifest declares, in order.
pub open spec fn manifest_entries(manifest: Option<SandboxManifest>) -> Seq<(String, String)> {
    match manifest {
        Some(m) => match m.mounts {
            Some(e) => e@,
            None => Seq::empty(),
        },
        None => Seq::empty(),
    }
}

/// Entry `i` moves the workspace: it is the `workspace` entry and its
/// target, trimmed, starts with `/`.
pub open spec fn moves_workspace(entries: Seq<(String, String)>, i: int) -> bool {
    entries[i].0@ == "workspace"@ && has_prefix(trim(entries[i].1@), "/"@)
}

/// No entry after `i` is a `workspace` entry.
pub open spec fn last_workspace_entry(entries: Seq<(String, String)>, i: int) -> bool {
    forall|j: int| i < j < entries.len() ==> (#[trigger] entries[j]).0@ != "workspace"@
}

/// The manifest's network setting.
pub open spec fn manifest_network(manifest: Option<SandboxManifest>) -> Option<Seq<char>> {
    match manifest {
        Some(m) => match m.security {
            Some(sec) => match sec.network {
                Some(n) => Some(n@),
                None => None,
            },
            None => None,
        },
        None => None,
    }
}

proof fn lemma_read_mounts_workspace(entries: Seq<(String, String)>, home: Seq<char>)
    requires
        read_mounts(entries, home) is Ok,
    ensures
        (forall|i: int| 0 <= i < entries.len() ==> !#[trigger] moves_workspace(entries, i)) ==> read_mounts(
            entries,
            home,
        )->Ok_0.0 == "/workspace"@,
        forall|i: int|
            0 <= i < entries.len() && #[trigger] moves_workspace(entries, i) && last_workspace_entry(entries, i)
                ==> read_mounts(entries, home)->Ok_0.0 == trim(entries[i].1@),
    decreases entries.len(),
{
    if entries.len() > 0 {
        let d = entries.drop_last();
        let n = entries.len() - 1;
        lemma_read_mounts_workspace(d, home);
        assert forall|i: int| 0 <= i < d.len() implies #[trigger] moves_workspace(d, i) == moves_workspace(
            entries,
            i,
        ) && d[i] == entries[i] by {}
        assert forall|i: int|
            0 <= i < entries.len() && #[trigger] moves_workspace(entries, i) && last_workspace_entry(entries, i)
                implies read_mounts(entries, home)->Ok_0.0 == trim(entries[i].1@) by {
            if i < n {
                assert(entries[n].0@ != "workspace"@);
                assert(moves_workspace(d, i));
                assert forall|j: int| i < j < d.len() implies (#[trigger] d[j]).0@ != "workspace"@ by {
                    assert(d[j] == entries[j]);
                }
            }
        }
        if forall|i: int| 0 <= i < entries.len() ==> !#[trigger] moves_workspace(entries, i) {
            assert(!moves_workspace(entries, n));
            assert forall|i: int| 0 <= i < d.len() implies !#[trigger] moves_workspace(d, i) by {
                assert(!moves_workspace(entries, i));
            }
        }
    }
}

/// The workspace is mounted at `/workspace` unless a manifest's
/// `workspace` entry gives a target that, trimmed, starts with `/`: then
/// at that target. The sandbox has no network exactly when the manifest's
/// network setting, trimmed and lower-cased, is `none` or `restricted`.
pub proof fn law_workspace_and_network(
    manifest: Option<SandboxManifest>,
    profile: Seq<char>,
    home: Seq<char>,
    project_root: Seq<char>,
    golden_image_exists: bool,
    s: ContainerProfileSettings,
    overlay: bool,
)
    requires
        spec_profile_settings(manifest, profile, home, project_root, golden_image_exists, s, overlay),
    ensures
        (forall|i: int| 0 <= i < manifest_entries(manifest).len() ==> !#[trigger] moves_workspace(manifest_entries(manifest), i))
            ==> s.workspace_guest_path@ == "/workspace"@,
        forall|i: int|
            0 <= i < manifest_entries(manifest).len() && #[trigger] moves_workspace(manifest_entries(manifest), i)
                && last_workspace_entry(manifest_entries(manifest), i) ==> s.workspace_guest_path@ == trim(
                manifest_entries(manifest)[i].1@,
            ),
        s.network_none == match manifest_network(manifest) {
            Some(n) => ascii_lower_seq(trim(n)) == "none"@ || ascii_lower_seq(trim(n)) == "restricted"@,
            None => false,
        },
{
    match manifest {
        Some(m) => match m.mounts {
            Some(entries) => {
                lemma_read_mounts_workspace(entries@, home);
                assert(manifest_entries(manifest) == entries@);
            },
            None => {},
        },
        None => {},
    }
}

/// A manifest that declares no mounts.
pub open spec fn declares_no_mounts(manifest: Option<SandboxManifest>) -> bool {
    match manifest {
        Some(m) => m.mounts is None || m.mounts.unwrap()@.len() == 0,
        None => true,
    }
}

/// A sandbox always mounts its project directory first, read-write, at the
/// workspace path; and where the manifest declares no mounts, that is the
/// only mount, at `/workspace`.
pub proof fn law_project_mounted_first(
    manifest: Option<SandboxManifest>,
    profile: Seq<char>,
    home: Seq<char>,
    project_root: Seq<char>,
    golden_image_exists: bool,
    s: ContainerProfileSettings,
    overlay: bool,
)
    requires
        spec_profile_settings(manifest, profile, home, project_root, golden_image_exists, s, overlay),
    ensures
        s.mounts@.len() >= 1,
        s.mounts@[0].host@ == project_root,
        s.mounts@[0].guest@ == s.workspace_guest_path@,
        !s.mounts@[0].read_only,
        volume_args(s.mounts@).take(2) == seq!["--volume"@, project_root + ":"@ + s.workspace_guest_path@],
        declares_no_mounts(manifest) ==> s.mounts@.len() == 1 && s.workspace_guest_path@ == "/workspace"@,
{
    let views = s.mounts@.map_values(|m: MountSpec| mount_view(m));
    assert(views.len() >= 1);
    assert(views[0] == mount_view(s.mounts@[0]));
    lemma_volume_args_first(s.mounts@);
    match manifest {
        Some(m) => match m.mounts {
            Some(entries) => {
                if entries@.len() == 0 {
                    assert(read_mounts(entries@, home) == Ok::<
                        (Seq<char>, Seq<(Seq<char>, Seq<char>, bool)>),
                        MountTargetError,
                    >(("/workspace"@, Seq::empty())));
                }
            },
            None => {},
        },
        None => {},
    }
}

/// The first two arguments that `volume_args` gives are those of the first mount.
proof fn lemma_volume_args_first(mounts: Seq<MountSpec>)
    requires
        mounts.len() >= 1,
    ensures
        volume_args(mounts).take(2) == seq!["--volume"@, volume_arg(mounts[0])],
        volume_args(mounts).len() == 2 * mounts.len(),
    decreases mounts.len(),
{
    if mounts.len() == 1 {
        assert(mounts.drop_last() =~= Seq::<MountSpec>::empty());
        assert(volume_args(mounts.drop_last()) =~= Seq::<Seq<char>>::empty());
        assert(volume_args(mounts).take(2) =~= seq!["--volume"@, volume_arg(mounts[0])]);
    } else {
        lemma_volume_args_first(mounts.drop_last());
        assert(mounts.drop_last()[0] == mounts[0]);
        assert(volume_args(mounts).take(2) =~= volume_args(mounts.drop_last()).take(2));
    }
}

proof fn lemma_read_mounts_error(entries: Seq<(String, String)>, home: Seq<char>, k: int)
    requires
        0 <= k < entries.len(),
        read_mounts(entries.take(k + 1), home) is Err,
    ensures
        read_mounts(entries, home) == read_mounts(entries.take(k + 1), home),
    decreases entries.len() - k,
{
    if k + 1 < entries.len() {
        assert(entries.take(k + 2).drop_last() =~= entries.take(k + 1));
        lemma_read_mounts_error(entries, home, k + 1);
    } else {
        assert(entries.take(k + 1) =~= entries);
    }
}


/// The environment a sandbox session and its provisioning receive: the
/// inference URL (also as the OpenAI URL), the MCP bridge and SearXNG URLs
/// on the host gateway, the model name and the engine runtime.
pub open spec fn spec_runtime_env(host: Seq<char>, port: u16, runtime: Seq<char>, model: Seq<char>) -> Seq<
    (Seq<char>, Seq<char>),
> {
    let inference = "http://"@ + host + ":"@ + decimal(port as nat) + "/v1"@;
    seq![
        ("MUTHR_INFERENCE_URL"@, inference),
        ("MUTHR_OPENAI_URL"@, inference),
        ("MUTHR_MCP_BRIDGE_URL"@, "http://"@ + host + ":18765"@),
        ("MUTHR_SEARXNG_URL"@, "http://"@ + host + ":18766"@),
        ("MUTHR_MODEL_NAME"@, model),
        ("MUTHR_ENGINE_RUNTIME"@, runtime),
    ]
}

/// The view of a list of environment pairs.
pub open spec fn pair_views(v: Seq<(String, String)>) -> Seq<(Seq<char>, Seq<char>)> {
    v.map_values(|p: (String, String)| (p.0@, p.1@))
}

fn pair(k: &str, v: String) -> (r: (String, String))
    ensures
        r.0@ == k@,
        r.1@ == v@,
{
    (String::from_str(k), v)
}

/// The environment of a sandbox whose host gateway is `host_gateway`.
pub fn runtime_env_contract(host_gateway: &str, port: u16, engine_runtime: &str, model_name: &str) -> (r: Vec<
    (String, String),
>)
    ensures
        pair_views(r@) == spec_runtime_env(host_gateway@, port, engine_runtime@, model_name@),
{
    let mut inference = String::from_str("http://");
    inference.append(host_gateway);
    inference.append(":");
    inference.append(u64_to_string(port as u64).as_str());
    inference.append("/v1");
    let mut bridge = String::from_str("http://");
    bridge.append(host_gateway);
    bridge.append(":18765");
    let mut searxng = String::from_str("http://");
    searxng.append(host_gateway);
    searxng.append(":18766");
    let mut v: Vec<(String, String)> = Vec::new();
    v.push(pair("MUTHR_INFERENCE_URL", inference.clone()));
    v.push(pair("MUTHR_OPENAI_URL", inference));
    v.push(pair("MUTHR_MCP_BRIDGE_URL", bridge));
    v.push(pair("MUTHR_SEARXNG_URL", searxng));
    v.push(pair("MUTHR_MODEL_NAME", String::from_str(model_name)));
    v.push(pair("MUTHR_ENGINE_RUNTIME", String::from_str(engine_runtime)));
    assert(pair_views(v@) =~= spec_runtime_env(host_gateway@, port, engine_runtime@, model_name@));
    v
}

/// The variables an audit log records of a session's environment.
pub open spec fn is_audited_env_key(k: Seq<char>) -> bool {
    k == "MUTHR_INFERENCE_URL"@ || k == "MUTHR_MCP_BRIDGE_URL"@ || k == "MUTHR_SEARXNG_URL"@ || k
        == "MUTHR_MODEL_NAME"@ || k == "MUTHR_ENGINE_RUNTIME"@
}

/// The audited pairs of an environment, in order.
pub open spec fn spec_env_summary(envs: Seq<(Seq<char>, Seq<char>)>) -> Seq<(Seq<char>, Seq<char>)>
    decreases envs.len(),
{
    if envs.len() == 0 {
        Seq::empty()
    } else if is_audited_env_key(envs.last().0) {
        spec_env_summary(envs.drop_last()).push(envs.last())
    } else {
        spec_env_summary(envs.drop_last())
    }
}

/// The audit log records exactly the audited variables of a session's
/// environment, in order: every pair it records is an audited one of the
/// environment, and every audited pair of the environment is recorded.
pub proof fn law_audit_records_only_audited(envs: Seq<(Seq<char>, Seq<char>)>)
    ensures
        forall|k: int|
            0 <= k < spec_env_summary(envs).len() ==> is_audited_env_key((#[trigger] spec_env_summary(envs)[k]).0)
                && envs.contains(spec_env_summary(envs)[k]),
        forall|i: int| 0 <= i < envs.len() && is_audited_env_key((#[trigger] envs[i]).0) ==> spec_env_summary(envs).contains(envs[i]),
    decreases envs.len(),
{
    if envs.len() > 0 {
        let d = envs.drop_last();
        law_audit_records_only_audited(d);
        let prev = spec_env_summary(d);
        let r = spec_env_summary(envs);
        assert forall|k: int| 0 <= k < r.len() implies is_audited_env_key((#[trigger] r[k]).0) && envs.contains(r[k]) by {
            if k < prev.len() {
                assert(r[k] == prev[k]);
                let i = choose|i: int| 0 <= i < d.len() && d[i] == prev[k];
                assert(envs[i] == d[i]);
            } else {
                assert(envs[envs.len() - 1] == r[k]);
            }
        }
        assert forall|i: int| 0 <= i < envs.len() && is_audited_env_key((#[trigger] envs[i]).0) implies r.contains(envs[i]) by {
            if i < envs.len() - 1 {
                assert(d[i] == envs[i]);
                let k = choose|k: int| 0 <= k < prev.len() && prev[k] == d[i];
                assert(r[k] == prev[k]);
            } else {
                assert(r[r.len() - 1] == envs[i]);
            }
        }
    }
}

/// The part of a session's environment that its audit log records.
pub fn runtime_env_summary(envs: &Vec<(String, String)>) -> (r: Vec<(String, String)>)
    ensures
        pair_views(r@) == spec_env_summary(pair_views(envs@)),
{
    let mut r: Vec<(String, String)> = Vec::new();
    let mut i: usize = 0;
    assert(pair_views(envs@).take(0) =~= Seq::<(Seq<char>, Seq<char>)>::empty());
    while i < envs.len()
        invariant
            i <= envs.len(),
            pair_views(r@) == spec_env_summary(pair_views(envs@).take(i as int)),
        decreases envs.len() - i,
    {
        assert(pair_views(envs@).take(i + 1).drop_last() =~= pair_views(envs@).take(i as int));
        let k = chars_of(envs[i].0.as_str());
        if chars_eq(&k, &chars_of("MUTHR_INFERENCE_URL")) || chars_eq(&k, &chars_of("MUTHR_MCP_BRIDGE_URL"))
            || chars_eq(&k, &chars_of("MUTHR_SEARXNG_URL")) || chars_eq(&k, &chars_of("MUTHR_MODEL_NAME"))
            || chars_eq(&k, &chars_of("MUTHR_ENGINE_RUNTIME")) {
            let ghost before = pair_views(r@);
            let p = (envs[i].0.clone(), envs[i].1.clone());
            r.push(p);
            assert(pair_views(r@) =~= before.push((p.0@, p.1@)));
        }
        i += 1;
    }
    assert(pair_views(envs@).take(envs.len() as int) =~= pair_views(envs@));
    r
}

/// Why no host gateway could be found for a sandbox.
#[derive(Debug, Clone, Copy, PartialEq, Eq)]
pub enum GatewayError {
    /// Neither configured nor discovered.
    NotFound,
    /// The gateway found is blank.
    Empty,
}

/// The host gateway of a sandbox: the configured one (trimmed), else the
/// environment's (trimmed), else the one the container's routes show,
/// else the one the container networks report; it must not be empty.
pub open spec fn spec_sandbox_gateway(
    configured: Option<Seq<char>>,
    env: Option<Seq<char>>,
    from_routes: Option<Seq<char>>,
    from_networks: Option<Seq<char>>,
) -> Result<Seq<char>, GatewayError> {
    let host = match configured {
        Some(c) => Some(trim(c)),
        None => match env {
            Some(e) => Some(trim(e)),
            None => match from_routes {
                Some(d) => Some(d),
                None => from_networks,
            },
        },
    };
    match host {
        None => Err(GatewayError::NotFound),
        Some(h) => if h.len() == 0 {
            Err(GatewayError::Empty)
        } else {
            Ok(h)
        },
    }
}

/// Chooses a sandbox's host gateway among the ways of finding it, in order
/// of precedence; a later one is only looked at when the earlier are absent.
pub fn choose_sandbox_gateway(
    configured: Option<String>,
    env: Option<String>,
    from_routes: Option<String>,
    from_networks: Option<String>,
) -> (r: Result<String, GatewayError>)
    ensures
        match r {
            Ok(h) => spec_sandbox_gateway(opt_string(configured), opt_string(env), opt_string(from_routes), opt_string(from_networks)) == Ok::<Seq<char>, GatewayError>(h@),
            Err(e) => spec_sandbox_gateway(opt_string(configured), opt_string(env), opt_string(from_routes), opt_string(from_networks)) == Err::<Seq<char>, GatewayError>(e),
        },
{
    let host: Option<String> = match configured {
        Some(c) => Some(string_from_chars(&trim_str(c.as_str()))),
        None => match env {
            Some(e) => Some(string_from_chars(&trim_str(e.as_str()))),
            None => match from_routes {
                Some(d) => Some(d),
                None => from_networks,
            },
        },
    };
    match host {
        None => Err(GatewayError::NotFound),
        Some(h) => if h.as_str().is_empty() {
            Err(GatewayError::Empty)
        } else {
            Ok(h)
        },
    }
}

/// The gateway a line of route output names: the word after `via`, else
/// the word after `gateway:` (trimmed, non-empty).
pub open spec fn route_line_gateway(line: Seq<char>) -> Option<Seq<char>> {
    let t = words(trim(line));
    match first_word_index(t, "via"@) {
        Some(i) if i + 1 < t.len() && trim(t[i + 1]).len() > 0 => Some(trim(t[i + 1])),
        _ => match first_word_index(t, "gateway:"@) {
            Some(i) if i + 1 < t.len() && trim(t[i + 1]).len() > 0 => Some(trim(t[i + 1])),
            _ => None,
        },
    }
}

/// The index of the first word equal to `w`.
pub open spec fn first_word_index(ws: Seq<Seq<char>>, w: Seq<char>) -> Option<int> {
    first_word_from(ws, w, 0)
}

/// The index of the first word equal to `w` at or after `from`.
pub open spec fn first_word_from(ws: Seq<Seq<char>>, w: Seq<char>, from: int) -> Option<int>
    decreases ws.len() - from,
{
    if from < 0 || from >= ws.len() {
        None
    } else if ws[from] == w {
        Some(from)
    } else {
        first_word_from(ws, w, from + 1)
    }
}

/// The gateway of the first non-blank line that names one.
pub open spec fn spec_route_gateway(ls: Seq<Seq<char>>) -> Option<Seq<char>>
    decreases ls.len(),
{
    if ls.len() == 0 {
        None
    } else if trim(ls[0]).len() > 0 && route_line_gateway(ls[0]) is Some {
        route_line_gateway(ls[0])
    } else {
        spec_route_gateway(ls.drop_first())
    }
}

fn find_word(ws: &Vec<Vec<char>>, w: &Vec<char>) -> (r: Option<usize>)
    ensures
        match r {
            Some(i) => i < ws.len() && first_word_index(views(ws@), w@) == Some(i as int),
            None => first_word_index(views(ws@), w@) is None,
        },
{
    let mut i: usize = 0;
    while i < ws.len()
        invariant
            i <= ws.len(),
            first_word_from(views(ws@), w@, 0) == first_word_from(views(ws@), w@, i as int),
        decreases ws.len() - i,
    {
        if chars_eq(&ws[i], w) {
            return Some(i);
        }
        i += 1;
    }
    None
}

fn line_gateway(line: &Vec<char>) -> (r: Option<Vec<char>>)
    ensures
        match r {
            Some(g) => route_line_gateway(line@) == Some(g@),
            None => route_line_gateway(line@) is None,
        },
{
    let t = split_words(&trim_ws(line));
    if let Some(i) = find_word(&t, &chars_of("via")) {
        if i + 1 < t.len() {
            let c = trim_ws(&t[i + 1]);
            if c.len() > 0 {
                return Some(c);
            }
        }
    }
    if let Some(i) = find_word(&t, &chars_of("gateway:")) {
        if i + 1 < t.len() {
            let c = trim_ws(&t[i + 1]);
            if c.len() > 0 {
                return Some(c);
            }
        }
    }
    None
}

/// The host gateway that `ip route show default` (or `route -n get
/// default`) output names.
pub fn parse_gateway_from_route_output(output: &str) -> (r: Option<String>)
    ensures
        opt_string(r) == spec_route_gateway(lines(output@)),
{
    let ls = split_lines(&chars_of(output));
    let ghost lv = views(ls@);
    let mut i: usize = 0;
    assert(lv.skip(0) =~= lv);
    while i < ls.len()
        invariant
            i <= ls.len(),
            lv == views(ls@),
            lv == lines(output@),
            spec_route_gateway(lv) == spec_route_gateway(lv.skip(i as int)),
        decreases ls.len() - i,
    {
        assert(lv.skip(i as int)[0] == ls@[i as int]@);
        assert(lv.skip(i as int).drop_first() =~= lv.skip(i + 1));
        if trim_ws(&ls[i]).len() > 0 {
            if let Some(g) = line_gateway(&ls[i]) {
                proof {
                    assert(spec_route_gateway(lv.skip(i as int)) == route_line_gateway(ls@[i as int]@));
                }
                return Some(string_from_chars(&g));
            }
        }
        i += 1;
    }
    None
}

/// A profile, script or runtime name that may be passed to provisioning:
/// non-empty, of ASCII letters, digits, `-` and `_`.
pub open spec fn is_safe_token(name: Seq<char>) -> bool {
    name.len() > 0 && forall|i: int| 0 <= i < name.len() ==> is_ascii_alnum(#[trigger] name[i]) || name[i] == '-' || name[i] == '_'
}

/// A model name that may be passed to provisioning: non-empty, of ASCII
/// letters, digits and `.`, `_`, `-`, `:`, `/`.
pub open spec fn is_safe_model_name(name: Seq<char>) -> bool {
    name.len() > 0 && forall|i: int| 0 <= i < name.len() ==> is_ascii_alnum(#[trigger] name[i]) || name[i] == '.' || name[i] == '_' || name[i] == '-' || name[i] == ':' || name[i] == '/'
}

/// A value that may be passed in an environment variable: free of NUL,
/// line feed and carriage return.
pub open spec fn is_safe_env_value(value: Seq<char>) -> bool {
    !has_char(value, '\0') && !has_char(value, '\n') && !has_char(value, '\r')
}

/// Whether a name may be passed to provisioning.
pub fn safe_token(name: &str) -> (r: bool)
    ensures
        r == is_safe_token(name@),
{
    let s = chars_of(name);
    if s.len() == 0 {
        return false;
    }
    let mut i: usize = 0;
    while i < s.len()
        invariant
            i <= s.len(),
            s@ == name@,
            forall|j: int| 0 <= j < i ==> is_ascii_alnum(#[trigger] s@[j]) || s@[j] == '-' || s@[j] == '_',
        decreases s.len() - i,
    {
        let c = s[i];
        if !(crate::text::ascii_alnum(c) || c == '-' || c == '_') {
            assert(!(is_ascii_alnum(name@[i as int]) || name@[i as int] == '-' || name@[i as int] == '_'));
            return false;
        }
        i += 1;
    }
    true
}

/// Whether a model name may be passed to provisioning.
pub fn safe_model_name(name: &str) -> (r: bool)
    ensures
        r == is_safe_model_name(name@),
{
    let s = chars_of(name);
    if s.len() == 0 {
        return false;
    }
    let mut i: usize = 0;
    while i < s.len()
        invariant
            i <= s.len(),
            s@ == name@,
            forall|j: int| 0 <= j < i ==> is_ascii_alnum(#[trigger] s@[j]) || s@[j] == '.' || s@[j] == '_' || s@[j] == '-' || s@[j] == ':' || s@[j] == '/',
        decreases s.len() - i,
    {
        let c = s[i];
        if !(crate::text::ascii_alnum(c) || c == '.' || c == '_' || c == '-' || c == ':' || c == '/') {
            assert(name@[i as int] == c);
            return false;
        }
        i += 1;
    }
    true
}

/// Whether a value may be passed in an environment variable.
pub fn safe_env_value(value: &str) -> (r: bool)
    ensures
        r == is_safe_env_value(value@),
{
    let s = chars_of(value);
    !contains_char(&s, '\0') && !contains_char(&s, '\n') && !contains_char(&s, '\r')
}

/// Why provisioning refused its inputs.
#[derive(Debug, Clone, Copy, PartialEq, Eq)]
pub enum ProvisionInputError {
    /// The profile (script) name is empty or holds other characters than
    /// ASCII letters, digits, `-`, `_`.
    ScriptName,
    /// The runtime name is empty or holds other characters.
    Runtime,
    /// A value holds a NUL, line feed or carriage return.
    ControlCharacters,
    /// The model name is empty or holds other characters.
    ModelName,
}

/// The inputs of provisioning, checked in the order provisioning checks
/// them: the script name and runtime first; then the URLs, gateway and
/// model name must be free of control characters; then the model name's
/// characters; then the mount point and runtime.
pub open spec fn spec_check_provision_inputs(
    script: Seq<char>,
    runtime: Seq<char>,
    model: Seq<char>,
    mount: Seq<char>,
    urls_and_gateway: Seq<Seq<char>>,
) -> Result<(), ProvisionInputError> {
    if !is_safe_token(script) {
        Err(ProvisionInputError::ScriptName)
    } else if !is_safe_token(runtime) {
        Err(ProvisionInputError::Runtime)
    } else if exists|i: int| 0 <= i < urls_and_gateway.len() && !is_safe_env_value(#[trigger] urls_and_gateway[i]) {
        Err(ProvisionInputError::ControlCharacters)
    } else if !is_safe_env_value(model) {
        Err(ProvisionInputError::ControlCharacters)
    } else if !is_safe_model_name(model) {
        Err(ProvisionInputError::ModelName)
    } else if !is_safe_env_value(mount) || !is_safe_env_value(runtime) {
        Err(ProvisionInputError::ControlCharacters)
    } else {
        Ok(())
    }
}

/// Checks the inputs of provisioning.
#[verifier::loop_isolation(false)]
pub fn check_provision_inputs(
    script: &str,
    runtime: &str,
    model: &str,
    mount: &str,
    urls_and_gateway: &Vec<String>,
) -> (r: Result<(), ProvisionInputError>)
    ensures
        r == spec_check_provision_inputs(script@, runtime@, model@, mount@, string_views(urls_and_gateway@)),
{
    if !safe_token(script) {
        return Err(ProvisionInputError::ScriptName);
    }
    if !safe_token(runtime) {
        return Err(ProvisionInputError::Runtime);
    }
    let mut i: usize = 0;
    while i < urls_and_gateway.len()
        invariant
            i <= urls_and_gateway.len(),
            forall|j: int| 0 <= j < i ==> is_safe_env_value(#[trigger] string_views(urls_and_gateway@)[j]),
        decreases urls_and_gateway.len() - i,
    {
        if !safe_env_value(urls_and_gateway[i].as_str()) {
            assert(!is_safe_env_value(string_views(urls_and_gateway@)[i as int]));
            return Err(ProvisionInputError::ControlCharacters);
        }
        i += 1;
    }
    if !safe_env_value(model) {
        return Err(ProvisionInputError::ControlCharacters);
    }
    if !safe_model_name(model) {
        return Err(ProvisionInputError::ModelName);
    }
    if !safe_env_value(mount) || !safe_env_value(runtime) {
        return Err(ProvisionInputError::ControlCharacters);
    }
    Ok(())
}

} // verus!
