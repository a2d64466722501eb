//! Entering and preparing a sandbox: the argument lists of `container exec`,
//! when a terminal is needed and what follows a failed session, how a
//! profile is applied on start, and the list of profiles a sandbox has
//! received.

use vstd::prelude::*;
use crate::sandbox::{pair_views, ContainerProfileSettings, MountSpec, spec_sanitize, sanitize_project_name, spec_golden_image_tag, golden_image_tag};
use crate::number::{decimal, u64_to_string};
use crate::order::{strictly_sorted, insert_sorted};
use crate::text::{contains_seq, contains_seq_exec, lower_ascii, words, split_words, trim_str};
use crate::text::{
    chars_of, ends_with, has_suffix, lines, split_lines, string_views, trim, trim_ws, views, chars_eq,
    line_fold, line_step, ascii_lower_seq, string_from_chars,
};

verus! {

/// The `--env KEY=VALUE` flags for `envs`, in order.
pub open spec fn env_flags(envs: Seq<(Seq<char>, Seq<char>)>) -> Seq<Seq<char>>
    decreases envs.len(),
{
    if envs.len() == 0 {
        Seq::empty()
    } else {
        env_flags(envs.drop_last()) + seq!["--env"@, envs.last().0 + "="@ + envs.last().1]
    }
}

/// The arguments of `container exec` that run `tail` in a sandbox as the
/// `muthr` user, in `workdir`, with `envs` set, on a terminal if `tty`.
pub open spec fn spec_exec_args(
    tty: bool,
    workdir: Seq<char>,
    envs: Seq<(Seq<char>, Seq<char>)>,
    container_id: Seq<char>,
    tail: Seq<Seq<char>>,
) -> Seq<Seq<char>> {
    seq!["exec"@] + (if tty {
        seq!["--interactive"@, "--tty"@]
    } else {
        Seq::empty()
    }) + seq!["--workdir"@, workdir, "--user"@, "muthr"@] + env_flags(envs) + seq![container_id] + tail
}

fn push_lit(args: &mut Vec<String>, s: &str)
    ensures
        string_views(final(args)@) == string_views(old(args)@).push(s@),
{
    let ghost before = string_views(args@);
    args.push(String::from_str(s));
    assert(string_views(args@) =~= before.push(s@));
}

/// The arguments of `container exec` that run `tail` in a sandbox.
pub fn exec_args(
    tty: bool,
    workdir: &str,
    envs: &Vec<(String, String)>,
    container_id: &str,
    tail: &Vec<String>,
) -> (r: Vec<String>)
    ensures
        string_views(r@) == spec_exec_args(tty, workdir@, pair_views(envs@), container_id@, string_views(tail@)),
{
    let mut args: Vec<String> = Vec::new();
    push_lit(&mut args, "exec");
    if tty {
        push_lit(&mut args, "--interactive");
        push_lit(&mut args, "--tty");
    }
    push_lit(&mut args, "--workdir");
    push_lit(&mut args, workdir);
    push_lit(&mut args, "--user");
    push_lit(&mut args, "muthr");
    let ghost head = string_views(args@);
    assert(head =~= seq!["exec"@] + (if tty {
        seq!["--interactive"@, "--tty"@]
    } else {
        Seq::empty()
    }) + seq!["--workdir"@, workdir@, "--user"@, "muthr"@]);
    let mut i: usize = 0;
    assert(pair_views(envs@).take(0) =~= Seq::<(Seq<char>, Seq<char>)>::empty());
    while i < envs.len()
        invariant
            i <= envs.len(),
            string_views(args@) == head + env_flags(pair_views(envs@).take(i as int)),
        decreases envs.len() - i,
    {
        push_lit(&mut args, "--env");
        let mut kv = envs[i].0.clone();
        kv.append("=");
        kv.append(envs[i].1.as_str());
        let ghost before = string_views(args@);
        args.push(kv);
        assert(string_views(args@) =~= before.push(kv@));
        assert(pair_views(envs@).take(i + 1).drop_last() =~= pair_views(envs@).take(i as int));
        assert(pair_views(envs@).take(i + 1).last() == pair_views(envs@)[i as int]);
        i += 1;
    }
    assert(pair_views(envs@).take(envs.len() as int) =~= pair_views(envs@));
    push_lit(&mut args, container_id);
    let ghost mid = string_views(args@);
    let mut j: usize = 0;
    while j < tail.len()
        invariant
            j <= tail.len(),
            string_views(args@) == mid + string_views(tail@).take(j as int),
        decreases tail.len() - j,
    {
        let ghost before = string_views(args@);
        args.push(tail[j].clone());
        assert(string_views(args@) =~= before.push(tail@[j as int]@));
        assert(string_views(tail@).take(j + 1) =~= string_views(tail@).take(j as int).push(tail@[j as int]@));
        j += 1;
    }
    assert(string_views(tail@).take(tail.len() as int) =~= string_views(tail@));
    assert(string_views(args@) =~= spec_exec_args(
        tty,
        workdir@,
        pair_views(envs@),
        container_id@,
        string_views(tail@),
    ));
    args
}

/// The host variables handed through to a sandbox shell when they are set.
pub fn passthrough_env_keys() -> (r: Vec<String>)
    ensures
        string_views(r@) == seq!["TERM"@, "COLORTERM"@, "COLUMNS"@, "LINES"@],
{
    let mut v: Vec<String> = Vec::new();
    push_lit(&mut v, "TERM");
    push_lit(&mut v, "COLORTERM");
    push_lit(&mut v, "COLUMNS");
    push_lit(&mut v, "LINES");
    assert(string_views(v@) =~= seq!["TERM"@, "COLORTERM"@, "COLUMNS"@, "LINES"@]);
    v
}

/// Why a session could not start or ended in failure.
#[derive(Debug, Clone, Copy, PartialEq, Eq)]
pub enum SessionError {
    /// A terminal is required but standard input, output or error is not
    /// one.
    TtyRequired,
    /// The command in the sandbox exited with a failure.
    Failed,
}

/// Whether a shell runs on a terminal: it does unless `--no-tty` was
/// given, and then all three standard streams must be terminals.
pub open spec fn spec_shell_tty(no_tty: bool, use_tty: bool) -> Result<bool, SessionError> {
    if !no_tty && !use_tty {
        Err(SessionError::TtyRequired)
    } else {
        Ok(use_tty && !no_tty)
    }
}

/// Decides whether `sandbox shell` runs on a terminal (`Ok(true)`), without
/// one (`Ok(false)`), or is refused.
pub fn shell_tty(no_tty: bool, use_tty: bool) -> (r: Result<bool, SessionError>)
    ensures
        r == spec_shell_tty(no_tty, use_tty),
{
    if !no_tty && !use_tty {
        Err(SessionError::TtyRequired)
    } else {
        Ok(use_tty && !no_tty)
    }
}

/// The arguments of `container exec` for `sandbox shell`: the handed
/// through host variables, the runtime contract and the explicit `--env`
/// values, in this order; then `bash -lc <command>`, or a login shell.
pub open spec fn spec_shell_exec_args(
    tty: bool,
    workdir: Seq<char>,
    passthrough: Seq<(Seq<char>, Seq<char>)>,
    runtime_envs: Seq<(Seq<char>, Seq<char>)>,
    explicit_envs: Seq<(Seq<char>, Seq<char>)>,
    container_id: Seq<char>,
    command: Option<Seq<char>>,
) -> Seq<Seq<char>> {
    spec_exec_args(
        tty,
        workdir,
        passthrough + runtime_envs + explicit_envs,
        container_id,
        match command {
            Some(c) => seq!["bash"@, "-lc"@, c],
            None => seq!["bash"@, "-l"@],
        },
    )
}

fn append_pairs(dst: &mut Vec<(String, String)>, src: &Vec<(String, String)>)
    ensures
        pair_views(final(dst)@) == pair_views(old(dst)@) + pair_views(src@),
{
    let ghost start = pair_views(dst@);
    let mut i: usize = 0;
    while i < src.len()
        invariant
            i <= src.len(),
            pair_views(dst@) == start + pair_views(src@).take(i as int),
        decreases src.len() - i,
    {
        let ghost before = pair_views(dst@);
        let item = (src[i].0.clone(), src[i].1.clone());
        dst.push(item);
        assert(pair_views(dst@) =~= before.push((src@[i as int].0@, src@[i as int].1@)));
        assert(pair_views(src@).take(i + 1) =~= pair_views(src@).take(i as int).push(pair_views(src@)[i as int]));
        i += 1;
    }
    assert(pair_views(src@).take(src.len() as int) =~= pair_views(src@));
}

/// The arguments of `container exec` for `sandbox shell`.
pub fn shell_exec_args(
    tty: bool,
    workdir: &str,
    passthrough: &Vec<(String, String)>,
    runtime_envs: &Vec<(String, String)>,
    explicit_envs: &Vec<(String, String)>,
    container_id: &str,
    command: Option<&str>,
) -> (r: Vec<String>)
    ensures
        string_views(r@) == spec_shell_exec_args(
            tty,
            workdir@,
            pair_views(passthrough@),
            pair_views(runtime_envs@),
            pair_views(explicit_envs@),
            container_id@,
            match command {
                Some(c) => Some(c@),
                None => None,
            },
        ),
{
    let mut envs: Vec<(String, String)> = Vec::new();
    append_pairs(&mut envs, passthrough);
    append_pairs(&mut envs, runtime_envs);
    append_pairs(&mut envs, explicit_envs);
    assert(pair_views(envs@) =~= pair_views(passthrough@) + pair_views(runtime_envs@) + pair_views(explicit_envs@));
    let mut tail: Vec<String> = Vec::new();
    push_lit(&mut tail, "bash");
    match command {
        Some(c) => {
            push_lit(&mut tail, "-lc");
            push_lit(&mut tail, c);
        },
        None => {
            push_lit(&mut tail, "-l");
        },
    }
    exec_args(tty, workdir, &envs, container_id, &tail)
}

/// `sandbox shell` runs `container exec` in the sandbox: without a command
/// the arguments end with the container id and a login shell, `bash -l`;
/// with a command `c` they end with the container id and `bash -lc c`.
/// Either way they begin with `exec`, and with `--interactive --tty` on a
/// terminal.
pub proof fn law_shell_runs_login_shell_or_command(
    tty: bool,
    workdir: Seq<char>,
    passthrough: Seq<(Seq<char>, Seq<char>)>,
    runtime_envs: Seq<(Seq<char>, Seq<char>)>,
    explicit_envs: Seq<(Seq<char>, Seq<char>)>,
    container_id: Seq<char>,
    command: Option<Seq<char>>,
)
    ensures
        ({
            let a = spec_shell_exec_args(tty, workdir, passthrough, runtime_envs, explicit_envs, container_id, command);
            &&& a[0] == "exec"@
            &&& tty ==> a[1] == "--interactive"@ && a[2] == "--tty"@
            &&& match command {
                None => a.len() >= 3 && a[a.len() - 3] == container_id && a[a.len() - 2] == "bash"@ && a[a.len()
                    - 1] == "-l"@,
                Some(c) => a.len() >= 4 && a[a.len() - 4] == container_id && a[a.len() - 3] == "bash"@ && a[a.len()
                    - 2] == "-lc"@ && a[a.len() - 1] == c,
            }
        }),
{
    let a = spec_shell_exec_args(tty, workdir, passthrough, runtime_envs, explicit_envs, container_id, command);
    let tail = match command {
        Some(c) => seq!["bash"@, "-lc"@, c],
        None => seq!["bash"@, "-l"@],
    };
    let head = seq!["exec"@] + (if tty {
        seq!["--interactive"@, "--tty"@]
    } else {
        Seq::empty()
    }) + seq!["--workdir"@, workdir, "--user"@, "muthr"@] + env_flags(passthrough + runtime_envs + explicit_envs);
    assert(a == head + seq![container_id] + tail);
    let n = head.len();
    assert(a.len() == n + 1 + tail.len());
    assert(a[n as int] == container_id);
    assert forall|k: int| 0 <= k < tail.len() implies a[n + 1 + k] == tail[k] by {}
    assert(a[0] == "exec"@);
    if tty {
        assert(a[1] == "--interactive"@);
        assert(a[2] == "--tty"@);
    }
}

/// What follows one attempt of a session.
#[derive(Debug, Clone, Copy, PartialEq, Eq)]
pub enum SessionNext {
    /// The command succeeded.
    Done,
    /// The attempt on a terminal failed and a terminal is not required: try
    /// once more without one.
    RetryWithoutTty,
    /// The session failed.
    Failed,
}

/// The first attempt of a session: on a terminal when the standard streams
/// are terminals; refused when a terminal is required and they are not.
pub open spec fn spec_session_start(requires_tty: bool, use_tty: bool) -> Result<bool, SessionError> {
    if requires_tty && !use_tty {
        Err(SessionError::TtyRequired)
    } else {
        Ok(use_tty)
    }
}

/// Decides how the first attempt of a session runs.
pub fn session_start(requires_tty: bool, use_tty: bool) -> (r: Result<bool, SessionError>)
    ensures
        r == spec_session_start(requires_tty, use_tty),
{
    if requires_tty && !use_tty {
        Err(SessionError::TtyRequired)
    } else {
        Ok(use_tty)
    }
}

/// What follows an attempt (on a terminal if `attempt_tty`) that succeeded
/// or not.
pub open spec fn spec_session_next(requires_tty: bool, attempt_tty: bool, success: bool) -> SessionNext {
    if success {
        SessionNext::Done
    } else if attempt_tty && !requires_tty {
        SessionNext::RetryWithoutTty
    } else {
        SessionNext::Failed
    }
}

/// Decides what follows an attempt of a session.
pub fn session_next(requires_tty: bool, attempt_tty: bool, success: bool) -> (r: SessionNext)
    ensures
        r == spec_session_next(requires_tty, attempt_tty, success),
{
    if success {
        SessionNext::Done
    } else if attempt_tty && !requires_tty {
        SessionNext::RetryWithoutTty
    } else {
        SessionNext::Failed
    }
}

/// A session makes at most two attempts: the retry runs without a terminal,
/// and after it fails the session has failed.
pub proof fn law_session_retries_once(requires_tty: bool, first_success: bool, second_success: bool)
    ensures
        spec_session_next(requires_tty, false, second_success) != SessionNext::RetryWithoutTty,
        spec_session_next(requires_tty, true, first_success) == SessionNext::RetryWithoutTty ==> !requires_tty,
{
}

/// How `sandbox start` applies a profile.
#[derive(Debug, Clone, Copy, PartialEq, Eq)]
pub struct StartPlan {
    /// The profile's provisioning script must run (the profile is not
    /// `base` and has no golden image).
    pub needs_provision: bool,
    /// The sandbox is created with network and cut off after provisioning.
    pub deferred_network_isolation: bool,
    /// The sandbox is created without network.
    pub create_without_network: bool,
}

/// The plan for starting a sandbox with `profile`.
pub open spec fn spec_start_plan(profile: Seq<char>, uses_golden_image: bool, network_none: bool) -> StartPlan {
    let needs = profile != "base"@ && !uses_golden_image;
    StartPlan {
        needs_provision: needs,
        deferred_network_isolation: network_none && needs,
        create_without_network: network_none && !needs,
    }
}

/// Works out how `sandbox start` applies a profile, from the profile's
/// settings.
pub fn start_plan(profile: &str, settings: &ContainerProfileSettings) -> (r: StartPlan)
    ensures
        r == spec_start_plan(profile@, settings.uses_golden_image, settings.network_none),
{
    let needs = !chars_eq(&chars_of(profile), &chars_of("base")) && !settings.uses_golden_image;
    StartPlan {
        needs_provision: needs,
        deferred_network_isolation: settings.network_none && needs,
        create_without_network: settings.network_none && !needs,
    }
}

/// A profile that asks for no network ends up without it: either the
/// sandbox is created so, or it is cut off after provisioning; and never
/// both.
pub proof fn law_network_isolation_kept(profile: Seq<char>, uses_golden_image: bool, network_none: bool)
    ensures
        network_none <==> (spec_start_plan(profile, uses_golden_image, network_none).create_without_network
            || spec_start_plan(profile, uses_golden_image, network_none).deferred_network_isolation),
        !(spec_start_plan(profile, uses_golden_image, network_none).create_without_network
            && spec_start_plan(profile, uses_golden_image, network_none).deferred_network_isolation),
{
}

/// What `sandbox shell` does with the profile it is given: whether the
/// profile is provisioned (any profile but `base`), and the profile the
/// sandbox is labelled with (`base` when none is given).
pub open spec fn spec_shell_profile(profile: Option<Seq<char>>) -> (bool, Seq<char>) {
    match profile {
        Some(p) => (p != "base"@, p),
        None => (false, "base"@),
    }
}

/// Works out how `sandbox shell` applies its profile.
pub fn shell_profile(profile: Option<&str>) -> (r: (bool, String))
    ensures
        (r.0, r.1@) == spec_shell_profile(
            match profile {
                Some(p) => Some(p@),
                None => None,
            },
        ),
{
    match profile {
        Some(p) => (!chars_eq(&chars_of(p), &chars_of("base")), String::from_str(p)),
        None => (false, String::from_str("base")),
    }
}

/// What follows a profile's provisioning.
#[derive(Debug, Clone, Copy, PartialEq, Eq)]
pub struct AfterProvision {
    /// Cut the sandbox's network off now.
    pub seal_network: bool,
    /// Give up with the provisioning's error (after any sealing).
    pub fail: bool,
    /// Record the profile as applied.
    pub record_profile: bool,
}

/// After provisioning, the sandbox is sealed when the profile asks for no
/// network, whether provisioning succeeded or not; then a failure is
/// reported and only a success is recorded.
pub open spec fn spec_after_provision(network_none: bool, provision_ok: bool) -> AfterProvision {
    AfterProvision { seal_network: network_none, fail: !provision_ok, record_profile: provision_ok }
}

/// Decides what follows a profile's provisioning.
pub fn after_provision(network_none: bool, provision_ok: bool) -> (r: AfterProvision)
    ensures
        r == spec_after_provision(network_none, provision_ok),
{
    AfterProvision { seal_network: network_none, fail: !provision_ok, record_profile: provision_ok }
}

/// A profile that asks for no network is sealed after provisioning whatever
/// its outcome, and a failed provisioning is never recorded; `sandbox
/// shell` provisions exactly the profiles other than `base`.
pub proof fn law_sealed_whatever_the_outcome(network_none: bool, profile: Option<Seq<char>>)
    ensures
        spec_after_provision(network_none, true).seal_network == network_none,
        spec_after_provision(network_none, false).seal_network == network_none,
        !spec_after_provision(network_none, false).record_profile,
        spec_after_provision(network_none, false).fail,
        spec_shell_profile(profile).0 <==> (profile is Some && profile.unwrap() != "base"@),
{
}

/// The shell command that starts opencode with its install directories on
/// the path.
pub open spec fn opencode_launch() -> Seq<char> {
    "export PATH=\"$HOME/.opencode/bin:$HOME/.local/bin:$PATH\"; exec opencode"@
}

/// What a profile launches in the sandbox, and whether it needs a
/// terminal: opencode for `opencode`, else `sh`.
pub open spec fn spec_profile_launch(profile: Seq<char>) -> (Seq<Seq<char>>, bool) {
    if profile == "opencode"@ {
        (seq!["bash"@, "-lc"@, opencode_launch()], true)
    } else {
        (seq!["sh"@], false)
    }
}

/// The command a profile launches and whether it needs a terminal.
pub fn profile_launch(profile: &str) -> (r: (Vec<String>, bool))
    ensures
        (string_views(r.0@), r.1) == spec_profile_launch(profile@),
{
    let mut v: Vec<String> = Vec::new();
    if chars_eq(&chars_of(profile), &chars_of("opencode")) {
        push_lit(&mut v, "bash");
        push_lit(&mut v, "-lc");
        push_lit(&mut v, "export PATH=\"$HOME/.opencode/bin:$HOME/.local/bin:$PATH\"; exec opencode");
        assert(string_views(v@) =~= seq!["bash"@, "-lc"@, opencode_launch()]);
        (v, true)
    } else {
        push_lit(&mut v, "sh");
        assert(string_views(v@) =~= seq!["sh"@]);
        (v, false)
    }
}

/// The profile cache lists `profile`: one of its lines, trimmed, is it.
pub open spec fn lists_profile(content: Seq<char>, profile: Seq<char>) -> bool {
    exists|i: int| 0 <= i < lines(content).len() && trim(#[trigger] lines(content)[i]) == profile
}

/// The profile cache after `profile` was applied: unchanged (`None`) when
/// it lists the profile already; else the profile on a line of its own at
/// the end, after a line break that closes the last line if needed.
pub open spec fn spec_record_profile(content: Seq<char>, profile: Seq<char>) -> Option<Seq<char>> {
    if lists_profile(content, profile) {
        None
    } else if content.len() > 0 && content.last() != '\n' {
        Some(content + "\n"@ + profile + "\n"@)
    } else {
        Some(content + profile + "\n"@)
    }
}

/// The new content of a profile cache after `profile` was applied, or
/// `None` when the cache lists the profile already.
pub fn record_profile(content: &str, profile: &str) -> (r: Option<String>)
    ensures
        match r {
            Some(s) => spec_record_profile(content@, profile@) == Some(s@),
            None => spec_record_profile(content@, profile@) is None,
        },
{
    let c = chars_of(content);
    let p = chars_of(profile);
    let ls = split_lines(&c);
    let mut i: usize = 0;
    while i < ls.len()
        invariant
            i <= ls.len(),
            views(ls@) == lines(content@),
            p@ == profile@,
            forall|j: int| 0 <= j < i ==> trim(#[trigger] lines(content@)[j]) != profile@,
        decreases ls.len() - i,
    {
        if chars_eq(&trim_ws(&ls[i]), &p) {
            assert(trim(lines(content@)[i as int]) == profile@);
            return None;
        }
        i += 1;
    }
    let mut out = String::from_str(content);
    if c.len() > 0 && c[c.len() - 1] != '\n' {
        out.append("\n");
    }
    out.append(profile);
    out.append("\n");
    Some(out)
}

/// Reading `x + y` with `str::lines` is reading `x`, then `y`.
proof fn lemma_line_fold_append(x: Seq<char>, y: Seq<char>)
    requires
        line_fold(x).1.len() == 0,
    ensures
        line_fold(x + y).0 == line_fold(x).0 + line_fold(y).0,
        line_fold(x + y).1 == line_fold(y).1,
    decreases y.len(),
{
    if y.len() == 0 {
        assert(x + y =~= x);
        assert(line_fold(x).0 + Seq::<Seq<char>>::empty() =~= line_fold(x).0);
    } else {
        lemma_line_fold_append(x, y.drop_last());
        assert((x + y).drop_last() =~= x + y.drop_last());
        assert((x + y).last() == y.last());
        let a = line_fold(x + y.drop_last());
        let b = line_fold(y.drop_last());
        if y.last() == '\n' {
            let piece = if b.1.len() > 0 && b.1.last() == '\r' {
                b.1.drop_last()
            } else {
                b.1
            };
            assert(a.0.push(piece) =~= line_fold(x).0 + b.0.push(piece));
        }
    }
}

/// A text that is empty or ends with a line break has nothing pending.
proof fn lemma_line_fold_closed(x: Seq<char>)
    requires
        x.len() == 0 || x.last() == '\n',
    ensures
        line_fold(x).1.len() == 0,
{
}

/// A piece without line breaks read on its own stays pending.
proof fn lemma_line_fold_plain(p: Seq<char>)
    requires
        forall|i: int| 0 <= i < p.len() ==> p[i] != '\n',
    ensures
        line_fold(p) == (Seq::<Seq<char>>::empty(), p),
    decreases p.len(),
{
    if p.len() > 0 {
        lemma_line_fold_plain(p.drop_last());
        assert(p.drop_last().push(p.last()) =~= p);
    } else {
        assert(p =~= Seq::<char>::empty());
    }
}

/// Recording a profile leaves the cache listing it, so that recording it
/// again changes nothing: for a profile name on one line, without
/// surrounding white space.
pub proof fn law_recorded_profile_is_listed(content: Seq<char>, profile: Seq<char>)
    requires
        forall|i: int| 0 <= i < profile.len() ==> profile[i] != '\n',
        trim(profile) == profile,
        profile.len() == 0 || profile.last() != '\r',
    ensures
        spec_record_profile(content, profile) matches Some(c2) ==> lists_profile(c2, profile)
            && spec_record_profile(c2, profile) is None,
{
    if !lists_profile(content, profile) {
        let x = if content.len() > 0 && content.last() != '\n' {
            content + "\n"@
        } else {
            content
        };
        assert("\n"@ =~= seq!['\n']) by {
            reveal_strlit("\n");
        }
        let c2 = x + profile + "\n"@;
        assert(spec_record_profile(content, profile) == Some(c2)) by {
            if content.len() > 0 && content.last() != '\n' {
                assert(c2 =~= content + "\n"@ + profile + "\n"@);
            }
        }
        assert(x.len() == 0 || x.last() == '\n');
        lemma_line_fold_closed(x);
        let y = profile + seq!['\n'];
        assert(c2 =~= x + y);
        lemma_line_fold_append(x, y);
        lemma_line_fold_plain(profile);
        assert(y.drop_last() =~= profile);
        assert(line_fold(y) == (seq![profile], Seq::<char>::empty())) by {
            assert(Seq::<Seq<char>>::empty().push(profile) =~= seq![profile]);
        }
        let ls = lines(c2);
        assert(ls == line_fold(x).0 + seq![profile]);
        assert(ls[ls.len() - 1] == profile);
        assert(trim(ls[ls.len() - 1]) == profile);
        assert(lists_profile(c2, profile));
    }
}

/// The guest directory a profile's provisioning runs from.
pub open spec fn spec_provision_dir(script: Seq<char>) -> Seq<char> {
    "/tmp/muthr-provision-"@ + script
}

/// The guest path of a profile's provisioning script.
pub open spec fn spec_provision_script(script: Seq<char>) -> Seq<char> {
    spec_provision_dir(script) + "/"@ + script + ".sh"@
}

/// The host directory of the provisioning scripts.
pub open spec fn spec_provision_root(home: Seq<char>) -> Seq<char> {
    home + "/.config/muthr/sandbox.d/container/provision.d"@
}

/// Where provisioning files live, on the host and in the guest.
#[derive(Debug, Clone, PartialEq, Eq)]
pub struct ProvisionPaths {
    /// The host script, `<root>/<profile>.sh`.
    pub host_script: String,
    /// The host library directory, `<root>/lib`.
    pub host_lib: String,
    /// The guest directory.
    pub guest_dir: String,
    /// The guest script.
    pub guest_script: String,
}

/// The paths of a profile's provisioning.
pub fn provision_paths(home: &str, script: &str) -> (r: ProvisionPaths)
    ensures
        r.host_script@ == spec_provision_root(home@) + "/"@ + script@ + ".sh"@,
        r.host_lib@ == spec_provision_root(home@) + "/lib"@,
        r.guest_dir@ == spec_provision_dir(script@),
        r.guest_script@ == spec_provision_script(script@),
{
    let mut root = String::from_str(home);
    root.append("/.config/muthr/sandbox.d/container/provision.d");
    let mut host_script = root.clone();
    host_script.append("/");
    host_script.append(script);
    host_script.append(".sh");
    let mut host_lib = root;
    host_lib.append("/lib");
    let mut guest_dir = String::from_str("/tmp/muthr-provision-");
    guest_dir.append(script);
    let mut guest_script = guest_dir.clone();
    guest_script.append("/");
    guest_script.append(script);
    guest_script.append(".sh");
    ProvisionPaths { host_script, host_lib, guest_dir, guest_script }
}

/// The value the last assignment of `key` gives (as a hash map filled in
/// order keeps it).
pub open spec fn last_value(envs: Seq<(Seq<char>, Seq<char>)>, key: Seq<char>) -> Option<Seq<char>>
    decreases envs.len(),
{
    if envs.len() == 0 {
        None
    } else if envs.last().0 == key {
        Some(envs.last().1)
    } else {
        last_value(envs.drop_last(), key)
    }
}

/// The value of `key` among the runtime variables.
pub fn env_value(envs: &Vec<(String, String)>, key: &str) -> (r: Option<String>)
    ensures
        match r {
            Some(v) => last_value(pair_views(envs@), key@) == Some(v@),
            None => last_value(pair_views(envs@), key@) is None,
        },
{
    let ghost pv = pair_views(envs@);
    let k = chars_of(key);
    let mut i = envs.len();
    assert(pv.take(i as int) =~= pv);
    while i > 0
        invariant
            i <= envs.len(),
            pv == pair_views(envs@),
            k@ == key@,
            last_value(pv, key@) == last_value(pv.take(i as int), key@),
        decreases i,
    {
        assert(pv.take(i as int).drop_last() =~= pv.take(i - 1));
        assert(pv.take(i as int).last() == (envs@[i - 1].0@, envs@[i - 1].1@));
        if chars_eq(&chars_of(envs[i - 1].0.as_str()), &k) {
            return Some(envs[i - 1].1.clone());
        }
        i -= 1;
    }
    None
}

/// Why the provisioning environment could not be made.
#[derive(Debug, Clone, Copy, PartialEq, Eq)]
pub enum ProvisionEnvError {
    MissingOpenaiUrl,
    MissingSearxngUrl,
    MissingInferenceUrl,
    MissingMcpBridgeUrl,
}

/// The variables the provisioning script runs with, from the runtime
/// variables (their URLs are looked up in the order OpenAI, SearXNG,
/// inference, MCP bridge) and the other settings.
pub open spec fn spec_provision_env(
    runtime: Seq<(Seq<char>, Seq<char>)>,
    host_gateway: Seq<char>,
    model: Seq<char>,
    ctx: u32,
    mount: Seq<char>,
    specs_rev: Seq<char>,
    engine_runtime: Seq<char>,
) -> Result<Seq<(Seq<char>, Seq<char>)>, ProvisionEnvError> {
    match last_value(runtime, "MUTHR_OPENAI_URL"@) {
        None => Err(ProvisionEnvError::MissingOpenaiUrl),
        Some(openai) => match last_value(runtime, "MUTHR_SEARXNG_URL"@) {
            None => Err(ProvisionEnvError::MissingSearxngUrl),
            Some(searxng) => match last_value(runtime, "MUTHR_INFERENCE_URL"@) {
                None => Err(ProvisionEnvError::MissingInferenceUrl),
                Some(inference) => match last_value(runtime, "MUTHR_MCP_BRIDGE_URL"@) {
                    None => Err(ProvisionEnvError::MissingMcpBridgeUrl),
                    Some(mcp) => Ok(
                        seq![
                            ("MUTHR_OPENAI_URL"@, openai),
                            ("MUTHR_INFERENCE_URL"@, inference),
                            ("MUTHR_MCP_BRIDGE_URL"@, mcp),
                            ("MUTHR_MODEL_NAME"@, model),
                            ("MUTHR_CTX_WINDOW"@, decimal(ctx as nat)),
                            ("MUTHR_WORKSPACE_MOUNT"@, mount),
                            ("MUTHR_SPECS_REV"@, specs_rev),
                            ("MUTHR_CONTAINER_HOST_GATEWAY"@, host_gateway),
                            ("MUTHR_SEARXNG_URL"@, searxng),
                            ("MUTHR_ENGINE_RUNTIME"@, engine_runtime),
                        ],
                    ),
                },
            },
        },
    }
}

fn kv(k: &str, v: String) -> (r: (String, String))
    ensures
        r.0@ == k@,
        r.1@ == v@,
{
    (String::from_str(k), v)
}

/// The variables the provisioning script runs with.
pub fn provision_env(
    runtime: &Vec<(String, String)>,
    host_gateway: &str,
    model: &str,
    ctx: u32,
    mount: &str,
    specs_rev: &str,
    engine_runtime: &str,
) -> (r: Result<Vec<(String, String)>, ProvisionEnvError>)
    ensures
        match r {
            Ok(v) => spec_provision_env(
                pair_views(runtime@),
                host_gateway@,
                model@,
                ctx,
                mount@,
                specs_rev@,
                engine_runtime@,
            ) == Ok::<Seq<(Seq<char>, Seq<char>)>, ProvisionEnvError>(pair_views(v@)),
            Err(e) => spec_provision_env(
                pair_views(runtime@),
                host_gateway@,
                model@,
                ctx,
                mount@,
                specs_rev@,
                engine_runtime@,
            ) == Err::<Seq<(Seq<char>, Seq<char>)>, ProvisionEnvError>(e),
        },
{
    let openai = match env_value(runtime, "MUTHR_OPENAI_URL") {
        Some(v) => v,
        None => return Err(ProvisionEnvError::MissingOpenaiUrl),
    };
    let searxng = match env_value(runtime, "MUTHR_SEARXNG_URL") {
        Some(v) => v,
        None => return Err(ProvisionEnvError::MissingSearxngUrl),
    };
    let inference = match env_value(runtime, "MUTHR_INFERENCE_URL") {
        Some(v) => v,
        None => return Err(ProvisionEnvError::MissingInferenceUrl),
    };
    let mcp = match env_value(runtime, "MUTHR_MCP_BRIDGE_URL") {
        Some(v) => v,
        None => return Err(ProvisionEnvError::MissingMcpBridgeUrl),
    };
    let mut v: Vec<(String, String)> = Vec::new();
    v.push(kv("MUTHR_OPENAI_URL", openai));
    v.push(kv("MUTHR_INFERENCE_URL", inference));
    v.push(kv("MUTHR_MCP_BRIDGE_URL", mcp));
    v.push(kv("MUTHR_MODEL_NAME", String::from_str(model)));
    v.push(kv("MUTHR_CTX_WINDOW", u64_to_string(ctx as u64)));
    v.push(kv("MUTHR_WORKSPACE_MOUNT", String::from_str(mount)));
    v.push(kv("MUTHR_SPECS_REV", String::from_str(specs_rev)));
    v.push(kv("MUTHR_CONTAINER_HOST_GATEWAY", String::from_str(host_gateway)));
    v.push(kv("MUTHR_SEARXNG_URL", searxng));
    v.push(kv("MUTHR_ENGINE_RUNTIME", String::from_str(engine_runtime)));
    assert(pair_views(v@) =~= spec_provision_env(
        pair_views(runtime@),
        host_gateway@,
        model@,
        ctx,
        mount@,
        specs_rev@,
        engine_runtime@,
    ).unwrap());
    Ok(v)
}

/// The arguments of `container exec` that run a profile's provisioning
/// script: as the `muthr` user, in `/tmp`, with the provisioning variables,
/// `bash <script>`.
pub fn provision_exec_args(container_id: &str, env: &Vec<(String, String)>, guest_script: &str) -> (r: Vec<String>)
    ensures
        string_views(r@) == spec_exec_args(false, "/tmp"@, pair_views(env@), container_id@, seq!["bash"@, guest_script@]),
{
    let mut tail: Vec<String> = Vec::new();
    push_lit(&mut tail, "bash");
    push_lit(&mut tail, guest_script);
    assert(string_views(tail@) =~= seq!["bash"@, guest_script@]);
    exec_args(false, "/tmp", env, container_id, &tail)
}

/// The first word of `shasum`'s output: the digest.
pub fn first_word(output: &str) -> (r: Option<String>)
    ensures
        match r {
            Some(w) => words(output@).len() > 0 && w@ == words(output@)[0],
            None => words(output@).len() == 0,
        },
{
    let ws = split_words(&chars_of(output));
    if ws.len() == 0 {
        None
    } else {
        Some(string_from_chars(&ws[0]))
    }
}

/// Why a golden image could not be built.
#[derive(Debug, Clone, Copy, PartialEq, Eq)]
pub enum GoldenImageError {
    /// The profile is blank.
    EmptyProfile,
    /// The profile keeps no character once sanitized.
    InvalidProfileName,
    /// The build needs Rosetta on this host.
    RosettaRequired,
    /// The build failed.
    BuildFailed,
}

/// The builder container and the image tag of a golden image build: the
/// profile may not be blank, and must keep a character once sanitized.
pub open spec fn spec_golden_plan(profile: Seq<char>) -> Result<(Seq<char>, Seq<char>), GoldenImageError> {
    if trim(profile).len() == 0 {
        Err(GoldenImageError::EmptyProfile)
    } else {
        match spec_sanitize(profile) {
            None => Err(GoldenImageError::InvalidProfileName),
            Some(s) => Ok(("muthr-builder-"@ + s, spec_golden_image_tag(profile))),
        }
    }
}

/// The builder container and image tag of a golden image build.
pub fn golden_plan(profile: &str) -> (r: Result<(String, String), GoldenImageError>)
    ensures
        match r {
            Ok((b, t)) => spec_golden_plan(profile@) == Ok::<(Seq<char>, Seq<char>), GoldenImageError>((b@, t@)),
            Err(e) => spec_golden_plan(profile@) == Err::<(Seq<char>, Seq<char>), GoldenImageError>(e),
        },
{
    if trim_str(profile).len() == 0 {
        return Err(GoldenImageError::EmptyProfile);
    }
    match sanitize_project_name(profile) {
        None => Err(GoldenImageError::InvalidProfileName),
        Some(s) => {
            let mut b = String::from_str("muthr-builder-");
            b.append(s.as_str());
            Ok((b, golden_image_tag(profile)))
        },
    }
}

/// The settings a builder container is created with: the profile's, but
/// without mounts or network isolation and from the profile's base image,
/// with the workspace at `/workspace`.
pub fn builder_settings(settings: ContainerProfileSettings) -> (r: ContainerProfileSettings)
    ensures
        r.image@ == settings.image@,
        r.workspace_guest_path@ == "/workspace"@,
        r.mounts@.len() == 0,
        !r.network_none,
        r.cpus == settings.cpus,
        match (r.memory, settings.memory) {
            (Some(a), Some(b)) => a@ == b@,
            (None, None) => true,
            _ => false,
        },
        !r.uses_golden_image,
{
    ContainerProfileSettings {
        image: settings.image,
        workspace_guest_path: String::from_str("/workspace"),
        mounts: Vec::new(),
        network_none: false,
        cpus: settings.cpus,
        memory: settings.memory,
        uses_golden_image: false,
    }
}

/// Output of the container tools mentions Rosetta (in any case).
pub open spec fn mentions_rosetta(stderr: Seq<char>, stdout: Seq<char>) -> bool {
    contains_seq(ascii_lower_seq(stderr), "rosetta"@) || contains_seq(ascii_lower_seq(stdout), "rosetta"@)
}

/// Why a golden image build failed: the build needs Rosetta when its output
/// says so.
pub fn golden_build_failure(stderr: &str, stdout: &str) -> (r: GoldenImageError)
    ensures
        r == if mentions_rosetta(stderr@, stdout@) {
            GoldenImageError::RosettaRequired
        } else {
            GoldenImageError::BuildFailed
        },
{
    let word = chars_of("rosetta");
    if contains_seq_exec(&lower_ascii(&chars_of(stderr)), &word) || contains_seq_exec(
        &lower_ascii(&chars_of(stdout)),
        &word,
    ) {
        GoldenImageError::RosettaRequired
    } else {
        GoldenImageError::BuildFailed
    }
}

/// The Containerfile that turns an exported filesystem into an image.
pub fn golden_containerfile() -> (r: &'static str)
    ensures
        r@ == "FROM scratch\nADD rootfs.tar /\n"@,
{
    "FROM scratch\nADD rootfs.tar /\n"
}

/// The arguments of `container build` for a golden image.
pub fn golden_build_args(containerfile: &str, tag: &str, context: &str) -> (r: Vec<String>)
    ensures
        string_views(r@) == seq![
            "build"@,
            "--platform"@,
            "linux/arm64"@,
            "--file"@,
            containerfile@,
            "--tag"@,
            tag@,
            context@,
        ],
{
    let mut v: Vec<String> = Vec::new();
    push_lit(&mut v, "build");
    push_lit(&mut v, "--platform");
    push_lit(&mut v, "linux/arm64");
    push_lit(&mut v, "--file");
    push_lit(&mut v, containerfile);
    push_lit(&mut v, "--tag");
    push_lit(&mut v, tag);
    push_lit(&mut v, context);
    assert(string_views(v@) =~= seq![
        "build"@,
        "--platform"@,
        "linux/arm64"@,
        "--file"@,
        containerfile@,
        "--tag"@,
        tag@,
        context@,
    ]);
    v
}

/// Error output of the container CLI that says `update` is not available.
pub open spec fn says_update_unsupported(stderr: Seq<char>) -> bool {
    let l = ascii_lower_seq(stderr);
    contains_seq(l, "unknown command"@) || contains_seq(l, "not found"@) || contains_seq(l, "plugin"@)
}

/// Whether the container CLI's error output says that `update` is not
/// available (so that network isolation is skipped with a warning).
pub fn update_unsupported(stderr: &str) -> (r: bool)
    ensures
        r == says_update_unsupported(stderr@),
{
    let l = lower_ascii(&chars_of(stderr));
    contains_seq_exec(&l, &chars_of("unknown command")) || contains_seq_exec(&l, &chars_of("not found"))
        || contains_seq_exec(&l, &chars_of("plugin"))
}

/// The label that records a profile applied to a sandbox.
pub open spec fn spec_profile_label(profile: Seq<char>) -> Seq<char> {
    "muthr.profile."@ + profile + "=true"@
}

/// The arguments of `container update` that label a sandbox with a
/// profile.
pub fn profile_label_args(container_id: &str, profile: &str) -> (r: Vec<String>)
    ensures
        string_views(r@) == seq!["update"@, container_id@, "--label"@, spec_profile_label(profile@)],
{
    let mut label = String::from_str("muthr.profile.");
    label.append(profile);
    label.append("=true");
    let mut v: Vec<String> = Vec::new();
    push_lit(&mut v, "update");
    push_lit(&mut v, container_id);
    push_lit(&mut v, "--label");
    let ghost before = string_views(v@);
    assert(label@ == spec_profile_label(profile@));
    v.push(label);
    assert(string_views(v@) =~= before.push(spec_profile_label(profile@)));
    assert(string_views(v@) =~= seq!["update"@, container_id@, "--label"@, spec_profile_label(profile@)]);
    v
}

/// Error output that says the update plugin is missing: labelling is then
/// skipped without a warning.
pub fn update_plugin_missing(stderr: &str) -> (r: bool)
    ensures
        r == contains_seq(stderr@, "Plugin 'container-update' not found"@),
{
    contains_seq_exec(&chars_of(stderr), &chars_of("Plugin 'container-update' not found"))
}

/// The arguments of `container delete` for a sandbox.
pub fn delete_args(container_id: &str, force: bool) -> (r: Vec<String>)
    ensures
        string_views(r@) == seq!["delete"@] + (if force {
            seq!["--force"@]
        } else {
            Seq::empty()
        }) + seq![container_id@],
{
    let mut v: Vec<String> = Vec::new();
    push_lit(&mut v, "delete");
    if force {
        push_lit(&mut v, "--force");
    }
    push_lit(&mut v, container_id);
    assert(string_views(v@) =~= seq!["delete"@] + (if force {
        seq!["--force"@]
    } else {
        Seq::empty()
    }) + seq![container_id@]);
    v
}

/// What deleting a sandbox takes.
#[derive(Debug, Clone, Copy, PartialEq, Eq)]
pub enum DeleteStep {
    /// Without `--force` a terminal is required: stop with an error.
    TerminalRequired,
    /// The sandbox does not exist: nothing to do.
    Absent,
    /// Stop the running sandbox, then delete it.
    StopThenDelete,
    /// Delete it.
    Delete,
}

/// What deleting a sandbox takes, given `--force`, whether standard output
/// is a terminal, and whether the sandbox exists and runs.
pub open spec fn spec_delete_step(force: bool, stdout_tty: bool, exists: bool, running: bool) -> DeleteStep {
    if !force && !stdout_tty {
        DeleteStep::TerminalRequired
    } else if !exists {
        DeleteStep::Absent
    } else if running && !force {
        DeleteStep::StopThenDelete
    } else {
        DeleteStep::Delete
    }
}

/// Decides what deleting a sandbox takes.
pub fn delete_step(force: bool, stdout_tty: bool, exists: bool, running: bool) -> (r: DeleteStep)
    ensures
        r == spec_delete_step(force, stdout_tty, exists, running),
{
    if !force && !stdout_tty {
        DeleteStep::TerminalRequired
    } else if !exists {
        DeleteStep::Absent
    } else if running && !force {
        DeleteStep::StopThenDelete
    } else {
        DeleteStep::Delete
    }
}

/// The sandboxes `sandbox stop --name` stops: the names given, sorted, each
/// once.
pub fn stop_targets(names: &Vec<String>) -> (r: Vec<String>)
    ensures
        strictly_sorted(string_views(r@)),
        string_views(r@).to_set() == string_views(names@).to_set(),
{
    let mut acc: Vec<Vec<char>> = Vec::new();
    let mut i: usize = 0;
    assert(string_views(names@).take(0).to_set() =~= Set::<Seq<char>>::empty());
    assert(views(acc@).to_set() =~= Set::<Seq<char>>::empty());
    while i < names.len()
        invariant
            i <= names.len(),
            strictly_sorted(views(acc@)),
            views(acc@).to_set() == string_views(names@).take(i as int).to_set(),
        decreases names.len() - i,
    {
        insert_sorted(&mut acc, chars_of(names[i].as_str()));
        assert(string_views(names@).take(i + 1) =~= string_views(names@).take(i as int).push(names@[i as int]@));
        proof {
            broadcast use vstd::seq_lib::group_seq_properties;

            assert(string_views(names@).take(i + 1).to_set() =~= string_views(names@).take(i as int).to_set().insert(
                names@[i as int]@,
            ));
        }
        i += 1;
    }
    assert(string_views(names@).take(names.len() as int) =~= string_views(names@));
    crate::text::chars_to_strings(&acc)
}

/// The script that gives the guest's `muthr` user the host user's ids.
pub open spec fn spec_uid_sync_script(uid: u32, gid: u32) -> Seq<char> {
    "if id -u muthr >/dev/null 2>&1; then CURRENT_UID=\"$(id -u muthr)\"; CURRENT_GID=\"$(id -g muthr)\"; if [ \"$CURRENT_GID\" != \""@
        + decimal(gid as nat) + "\" ]; then groupmod -o -g "@ + decimal(gid as nat)
        + " muthr >/dev/null 2>&1 || true; fi; if [ \"$CURRENT_UID\" != \""@ + decimal(uid as nat)
        + "\" ]; then usermod -o -u "@ + decimal(uid as nat) + " -g "@ + decimal(gid as nat)
        + " muthr >/dev/null 2>&1 || true; fi; chown -h muthr:muthr /home/muthr >/dev/null 2>&1 || true; fi"@
}

/// The script that gives the guest's `muthr` user the host user's ids.
pub fn uid_sync_script(uid: u32, gid: u32) -> (r: String)
    ensures
        r@ == spec_uid_sync_script(uid, gid),
{
    let u = u64_to_string(uid as u64);
    let g = u64_to_string(gid as u64);
    let mut s = String::from_str(
        "if id -u muthr >/dev/null 2>&1; then CURRENT_UID=\"$(id -u muthr)\"; CURRENT_GID=\"$(id -g muthr)\"; if [ \"$CURRENT_GID\" != \"",
    );
    s.append(g.as_str());
    s.append("\" ]; then groupmod -o -g ");
    s.append(g.as_str());
    s.append(" muthr >/dev/null 2>&1 || true; fi; if [ \"$CURRENT_UID\" != \"");
    s.append(u.as_str());
    s.append("\" ]; then usermod -o -u ");
    s.append(u.as_str());
    s.append(" -g ");
    s.append(g.as_str());
    s.append(" muthr >/dev/null 2>&1 || true; fi; chown -h muthr:muthr /home/muthr >/dev/null 2>&1 || true; fi");
    s
}

} // verus!
