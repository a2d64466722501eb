//! The services plane: the `muthr-services` container (the MCP bridge)
//! and the `muthr-searxng` container, how they are created and
//! provisioned, the host gateway they reach the host by, and the checks
//! that the diagnostics and the shutdown make of them.

use vstd::prelude::*;
use crate::containers::{raw_listed, raw_listed_with_label, raw_id, services_container_exists, services_container_has_label};
use crate::json::JsonValue;
use crate::number::{decimal, u64_to_string};
use crate::sandbox::{GatewayError, opt_string};
use crate::text::{chars_of, string_from_chars, string_views, trim, trim_str};

verus! {

fn push_lit(args: &mut Vec<String>, s: &str)
    ensures
        string_views(final(args)@) == string_views(old(args)@).push(s@),
{
    let ghost before = string_views(args@);
    args.push(String::from_str(s));
    assert(string_views(args@) =~= before.push(s@));
}

/// The SearXNG container must be made again: it exists without the label
/// of the current settings revision (`muthr.config-rev=v3`).
pub open spec fn spec_searxng_outdated(items: Seq<JsonValue>) -> bool {
    raw_listed(items, "muthr-searxng"@) && !raw_listed_with_label(items, "muthr-searxng"@, "muthr.config-rev"@, "v3"@)
}

/// Whether the SearXNG container must be made again.
pub fn searxng_outdated(items: &Vec<JsonValue>) -> (r: bool)
    ensures
        r == spec_searxng_outdated(items@),
{
    services_container_exists(items, "muthr-searxng") && !services_container_has_label(
        items,
        "muthr-searxng",
        "muthr.config-rev",
        "v3",
    )
}

/// The settings file of SearXNG.
pub fn searxng_settings_file(home: &str) -> (r: String)
    ensures
        r@ == home@ + "/.cache/muthr/searxng/settings.yml"@,
{
    let mut s = String::from_str(home);
    s.append("/.cache/muthr/searxng/settings.yml");
    s
}

/// The SearXNG settings: the defaults, HTML and JSON results, no limiter.
pub fn searxng_settings() -> (r: &'static str)
    ensures
        r@ == "use_default_settings: true\nsearch:\n  formats:\n    - html\n    - json\nserver:\n  limiter: false\n"@,
{
    "use_default_settings: true\nsearch:\n  formats:\n    - html\n    - json\nserver:\n  limiter: false\n"
}

/// The arguments of `container create` for SearXNG.
pub open spec fn spec_searxng_create_args(settings_path: Seq<char>) -> Seq<Seq<char>> {
    seq![
        "create"@,
        "--name"@,
        "muthr-searxng"@,
        "--detach"@,
        "--label"@,
        "muthr.config-rev=v3"@,
        "--publish"@,
        "18766:8080"@,
        "--volume"@,
        settings_path + ":/etc/searxng/settings.yml"@,
        "--env"@,
        "SEARXNG_SECRET=change-this-in-local-config"@,
        "docker.io/searxng/searxng:latest"@,
    ]
}

/// The arguments of `container create` for SearXNG, with its settings file.
pub fn searxng_create_args(settings_path: &str) -> (r: Vec<String>)
    ensures
        string_views(r@) == spec_searxng_create_args(settings_path@),
{
    let mut mount = String::from_str(settings_path);
    mount.append(":/etc/searxng/settings.yml");
    let mut v: Vec<String> = Vec::new();
    push_lit(&mut v, "create");
    push_lit(&mut v, "--name");
    push_lit(&mut v, "muthr-searxng");
    push_lit(&mut v, "--detach");
    push_lit(&mut v, "--label");
    push_lit(&mut v, "muthr.config-rev=v3");
    push_lit(&mut v, "--publish");
    push_lit(&mut v, "18766:8080");
    push_lit(&mut v, "--volume");
    push_lit(&mut v, mount.as_str());
    push_lit(&mut v, "--env");
    push_lit(&mut v, "SEARXNG_SECRET=change-this-in-local-config");
    push_lit(&mut v, "docker.io/searxng/searxng:latest");
    assert(string_views(v@) =~= spec_searxng_create_args(settings_path@));
    v
}

/// The arguments of `container create` for the services container.
pub fn services_create_args() -> (r: Vec<String>)
    ensures
        string_views(r@) == seq![
            "create"@,
            "--name"@,
            "muthr-services"@,
            "--detach"@,
            "--publish"@,
            "127.0.0.1:18765:18765"@,
            "--workdir"@,
            "/tmp"@,
            "debian:13-slim"@,
            "sh"@,
            "-lc"@,
            "while true; do sleep 3600; done"@,
        ],
{
    let mut v: Vec<String> = Vec::new();
    push_lit(&mut v, "create");
    push_lit(&mut v, "--name");
    push_lit(&mut v, "muthr-services");
    push_lit(&mut v, "--detach");
    push_lit(&mut v, "--publish");
    push_lit(&mut v, "127.0.0.1:18765:18765");
    push_lit(&mut v, "--workdir");
    push_lit(&mut v, "/tmp");
    push_lit(&mut v, "debian:13-slim");
    push_lit(&mut v, "sh");
    push_lit(&mut v, "-lc");
    push_lit(&mut v, "while true; do sleep 3600; done");
    assert(string_views(v@) =~= seq![
        "create"@,
        "--name"@,
        "muthr-services"@,
        "--detach"@,
        "--publish"@,
        "127.0.0.1:18765:18765"@,
        "--workdir"@,
        "/tmp"@,
        "debian:13-slim"@,
        "sh"@,
        "-lc"@,
        "while true; do sleep 3600; done"@,
    ]);
    v
}

/// The URL of SearXNG as seen from a container, through the host gateway.
pub open spec fn spec_searxng_url(gateway: Seq<char>) -> Seq<char> {
    "http://"@ + gateway + ":18766"@
}

/// The arguments of `container exec` that provision the services
/// container: its script, with the SearXNG URL.
pub open spec fn spec_services_provision_args(gateway: Seq<char>) -> Seq<Seq<char>> {
    seq![
        "exec"@,
        "--env"@,
        "MUTHR_SEARXNG_URL="@ + spec_searxng_url(gateway),
        "muthr-services"@,
        "bash"@,
        "/tmp/muthr-services.sh"@,
        "muthr-services"@,
    ]
}

/// The arguments of `container exec` that provision the services
/// container.
pub fn services_provision_args(gateway: &str) -> (r: Vec<String>)
    ensures
        string_views(r@) == spec_services_provision_args(gateway@),
{
    let mut env = String::from_str("MUTHR_SEARXNG_URL=");
    env.append("http://");
    env.append(gateway);
    env.append(":18766");
    assert(env@ =~= "MUTHR_SEARXNG_URL="@ + spec_searxng_url(gateway@));
    let mut v: Vec<String> = Vec::new();
    push_lit(&mut v, "exec");
    push_lit(&mut v, "--env");
    push_lit(&mut v, env.as_str());
    push_lit(&mut v, "muthr-services");
    push_lit(&mut v, "bash");
    push_lit(&mut v, "/tmp/muthr-services.sh");
    push_lit(&mut v, "muthr-services");
    assert(string_views(v@) =~= spec_services_provision_args(gateway@));
    v
}

/// The arguments of `container copy` that bring the services script and
/// its library into the services container.
pub fn services_copy_args(home: &str) -> (r: (Vec<String>, Vec<String>))
    ensures
        string_views(r.0@) == seq![
            "copy"@,
            home@ + "/.config/muthr/sandbox.d/container/provision.d/muthr-services.sh"@,
            "muthr-services:/tmp/muthr-services.sh"@,
        ],
        string_views(r.1@) == seq![
            "copy"@,
            home@ + "/.config/muthr/sandbox.d/container/provision.d/lib"@,
            "muthr-services:/tmp"@,
        ],
{
    let mut script = String::from_str(home);
    script.append("/.config/muthr/sandbox.d/container/provision.d/muthr-services.sh");
    let mut lib = String::from_str(home);
    lib.append("/.config/muthr/sandbox.d/container/provision.d/lib");
    let mut a: Vec<String> = Vec::new();
    push_lit(&mut a, "copy");
    push_lit(&mut a, script.as_str());
    push_lit(&mut a, "muthr-services:/tmp/muthr-services.sh");
    let mut b: Vec<String> = Vec::new();
    push_lit(&mut b, "copy");
    push_lit(&mut b, lib.as_str());
    push_lit(&mut b, "muthr-services:/tmp");
    assert(string_views(a@) =~= seq![
        "copy"@,
        home@ + "/.config/muthr/sandbox.d/container/provision.d/muthr-services.sh"@,
        "muthr-services:/tmp/muthr-services.sh"@,
    ]);
    assert(string_views(b@) =~= seq![
        "copy"@,
        home@ + "/.config/muthr/sandbox.d/container/provision.d/lib"@,
        "muthr-services:/tmp"@,
    ]);
    (a, b)
}

/// The host gateway of the services plane: the configured one (trimmed;
/// blank is an error), else the environment's when it is not blank
/// (trimmed), else the one the container networks report.
pub open spec fn spec_services_gateway(
    configured: Option<Seq<char>>,
    env: Option<Seq<char>>,
    discovered: Option<Seq<char>>,
) -> Result<Seq<char>, GatewayError> {
    match configured {
        Some(c) => if trim(c).len() == 0 {
            Err(GatewayError::Empty)
        } else {
            Ok(trim(c))
        },
        None => match env {
            Some(e) if trim(e).len() > 0 => Ok(trim(e)),
            _ => match discovered {
                Some(d) => Ok(d),
                None => Err(GatewayError::NotFound),
            },
        },
    }
}

/// Chooses the host gateway of the services plane.
pub fn choose_services_gateway(configured: Option<&str>, env: Option<&str>, discovered: Option<String>) -> (r:
    Result<String, GatewayError>)
    ensures
        match r {
            Ok(h) => spec_services_gateway(
                match configured {
                    Some(c) => Some(c@),
                    None => None,
                },
                match env {
                    Some(e) => Some(e@),
                    None => None,
                },
                opt_string(discovered),
            ) == Ok::<Seq<char>, GatewayError>(h@),
            Err(e) => spec_services_gateway(
                match configured {
                    Some(c) => Some(c@),
                    None => None,
                },
                match env {
                    Some(e) => Some(e@),
                    None => None,
                },
                opt_string(discovered),
            ) == Err::<Seq<char>, GatewayError>(e),
        },
{
    match configured {
        Some(c) => {
            let t = trim_str(c);
            if t.len() == 0 {
                Err(GatewayError::Empty)
            } else {
                Ok(string_from_chars(&t))
            }
        },
        None => {
            if let Some(e) = env {
                let t = trim_str(e);
                if t.len() > 0 {
                    return Ok(string_from_chars(&t));
                }
            }
            match discovered {
                Some(d) => Ok(d),
                None => Err(GatewayError::NotFound),
            }
        },
    }
}

/// What deleting the services containers takes.
#[derive(Debug, Clone, Copy, PartialEq, Eq)]
pub enum ServicesDeleteStep {
    /// Neither container exists: nothing to do.
    Nothing,
    /// Without `--force` or `--yes` a terminal is required.
    TerminalRequired,
    /// Delete those that exist.
    Delete,
}

/// Decides what deleting the services containers takes.
pub fn services_delete_step(force: bool, stdout_tty: bool, services_exist: bool, searxng_exists: bool) -> (r:
    ServicesDeleteStep)
    ensures
        r == if !services_exist && !searxng_exists {
            ServicesDeleteStep::Nothing
        } else if !force && !stdout_tty {
            ServicesDeleteStep::TerminalRequired
        } else {
            ServicesDeleteStep::Delete
        },
{
    if !services_exist && !searxng_exists {
        ServicesDeleteStep::Nothing
    } else if !force && !stdout_tty {
        ServicesDeleteStep::TerminalRequired
    } else {
        ServicesDeleteStep::Delete
    }
}

/// Which of the services containers the diagnostics find: the services
/// container, the SearXNG container.
pub fn services_presence(items: &Vec<JsonValue>) -> (r: (bool, bool))
    ensures
        r.0 == raw_listed(items@, "muthr-services"@),
        r.1 == raw_listed(items@, "muthr-searxng"@),
{
    (services_container_exists(items, "muthr-services"), services_container_exists(items, "muthr-searxng"))
}

/// The arguments of `container stop` with a grace period.
pub fn stop_with_timeout_args(name: &str, timeout_secs: u64) -> (r: Vec<String>)
    ensures
        string_views(r@) == seq!["stop"@, "--time"@, decimal(timeout_secs as nat), name@],
{
    let t = u64_to_string(timeout_secs);
    let mut v: Vec<String> = Vec::new();
    push_lit(&mut v, "stop");
    push_lit(&mut v, "--time");
    push_lit(&mut v, t.as_str());
    push_lit(&mut v, name);
    assert(string_views(v@) =~= seq!["stop"@, "--time"@, decimal(timeout_secs as nat), name@]);
    v
}

/// The grace period of a shutdown: the `--timeout` option, 30 seconds
/// without it.
pub fn shutdown_timeout(flag: Option<u64>) -> (r: u64)
    ensures
        r == match flag {
            Some(t) => t,
            None => 30,
        },
{
    match flag {
        Some(t) => t,
        None => 30,
    }
}

/// What the diagnostics conclude from the native build probe.
#[derive(Debug, Clone, Copy, PartialEq, Eq)]
pub enum BuildProbe {
    /// Native `linux/arm64` builds work.
    Native,
    /// The build backend depends on Rosetta.
    NeedsRosetta,
    /// The probe failed otherwise.
    Failed,
}

/// Reads the outcome of the native build probe.
pub fn build_probe_outcome(success: bool, stderr: &str, stdout: &str) -> (r: BuildProbe)
    ensures
        r == if success {
            BuildProbe::Native
        } else if crate::session::mentions_rosetta(stderr@, stdout@) {
            BuildProbe::NeedsRosetta
        } else {
            BuildProbe::Failed
        },
{
    if success {
        BuildProbe::Native
    } else {
        match crate::session::golden_build_failure(stderr, stdout) {
            crate::session::GoldenImageError::RosettaRequired => BuildProbe::NeedsRosetta,
            _ => BuildProbe::Failed,
        }
    }
}

/// The arguments of `container build` that probe native builds.
pub fn build_probe_args(containerfile: &str, root: &str) -> (r: Vec<String>)
    ensures
        string_views(r@) == seq![
            "build"@,
            "-q"@,
            "--platform"@,
            "linux/arm64"@,
            "--file"@,
            containerfile@,
            "--tag"@,
            "muthr-doctor-buildkit-probe:latest"@,
            root@,
        ],
{
    let mut v: Vec<String> = Vec::new();
    push_lit(&mut v, "build");
    push_lit(&mut v, "-q");
    push_lit(&mut v, "--platform");
    push_lit(&mut v, "linux/arm64");
    push_lit(&mut v, "--file");
    push_lit(&mut v, containerfile);
    push_lit(&mut v, "--tag");
    push_lit(&mut v, "muthr-doctor-buildkit-probe:latest");
    push_lit(&mut v, root);
    assert(string_views(v@) =~= seq![
        "build"@,
        "-q"@,
        "--platform"@,
        "linux/arm64"@,
        "--file"@,
        containerfile@,
        "--tag"@,
        "muthr-doctor-buildkit-probe:latest"@,
        root@,
    ]);
    v
}

/// Where starting the services stands: each stage names the question asked
/// of the container runtime there; the last two mean it is over.
#[derive(Debug, Clone, Copy, PartialEq, Eq, Structural)]
pub enum ServicesStage {
    /// Is `muthr-searxng` out of date?
    SearxngOutdated,
    /// Does `muthr-searxng` exist?
    SearxngExists,
    /// Is `muthr-searxng` running?
    SearxngRunning,
    /// Does `muthr-services` exist?
    ServicesExists,
    /// Is `muthr-services` running?
    ServicesRunning,
    /// Is `muthr-services` provisioned?
    ServicesProvisioned,
    /// Over: the services are up; their endpoints are reported.
    Done,
    /// Over with nothing more to say: a dry run, or the services were
    /// already running.
    DoneQuiet,
}

/// What starting the services does at a stage.
#[derive(Debug, Clone, Copy, PartialEq, Eq, Structural)]
pub enum ServicesAction {
    Nothing,
    /// Delete `muthr-searxng` so that it is made again.
    RecreateSearxng,
    CreateSearxng,
    StartSearxng,
    CreateServices,
    /// Start `muthr-services` and make sure of its runtime baseline.
    StartServices,
    /// Say that `muthr-services` was already running.
    ReportRunning,
    /// Copy the provisioning script and library in and run it.
    Provision,
}

/// The first stage of starting the services: nothing at all on a dry run.
pub open spec fn spec_services_first(dry_run: bool) -> ServicesStage {
    if dry_run {
        ServicesStage::DoneQuiet
    } else {
        ServicesStage::SearxngOutdated
    }
}

/// The first stage of starting the services.
pub fn services_start_first(dry_run: bool) -> (r: ServicesStage)
    ensures
        r == spec_services_first(dry_run),
{
    if dry_run {
        ServicesStage::DoneQuiet
    } else {
        ServicesStage::SearxngOutdated
    }
}

/// One step of starting the services: given the answer to the stage's
/// question, what to do and the stage that follows. SearXNG is made again
/// when out of date, created when absent and started when stopped; then the
/// services container is created when absent; when it already runs the
/// start ends there; otherwise it is started and, unless provisioned
/// already, provisioned.
pub open spec fn spec_services_step(stage: ServicesStage, answer: bool) -> (ServicesAction, ServicesStage) {
    match stage {
        ServicesStage::SearxngOutdated => (
            if answer { ServicesAction::RecreateSearxng } else { ServicesAction::Nothing },
            ServicesStage::SearxngExists,
        ),
        ServicesStage::SearxngExists => (
            if answer { ServicesAction::Nothing } else { ServicesAction::CreateSearxng },
            ServicesStage::SearxngRunning,
        ),
        ServicesStage::SearxngRunning => (
            if answer { ServicesAction::Nothing } else { ServicesAction::StartSearxng },
            ServicesStage::ServicesExists,
        ),
        ServicesStage::ServicesExists => (
            if answer { ServicesAction::Nothing } else { ServicesAction::CreateServices },
            ServicesStage::ServicesRunning,
        ),
        ServicesStage::ServicesRunning => if answer {
            (ServicesAction::ReportRunning, ServicesStage::DoneQuiet)
        } else {
            (ServicesAction::StartServices, ServicesStage::ServicesProvisioned)
        },
        ServicesStage::ServicesProvisioned => (
            if answer { ServicesAction::Nothing } else { ServicesAction::Provision },
            ServicesStage::Done,
        ),
        ServicesStage::Done => (ServicesAction::Nothing, ServicesStage::Done),
        ServicesStage::DoneQuiet => (ServicesAction::Nothing, ServicesStage::DoneQuiet),
    }
}

/// One step of starting the services.
pub fn services_start_step(stage: ServicesStage, answer: bool) -> (r: (ServicesAction, ServicesStage))
    ensures
        r == spec_services_step(stage, answer),
{
    match stage {
        ServicesStage::SearxngOutdated => (
            if answer { ServicesAction::RecreateSearxng } else { ServicesAction::Nothing },
            ServicesStage::SearxngExists,
        ),
        ServicesStage::SearxngExists => (
            if answer { ServicesAction::Nothing } else { ServicesAction::CreateSearxng },
            ServicesStage::SearxngRunning,
        ),
        ServicesStage::SearxngRunning => (
            if answer { ServicesAction::Nothing } else { ServicesAction::StartSearxng },
            ServicesStage::ServicesExists,
        ),
        ServicesStage::ServicesExists => (
            if answer { ServicesAction::Nothing } else { ServicesAction::CreateServices },
            ServicesStage::ServicesRunning,
        ),
        ServicesStage::ServicesRunning => if answer {
            (ServicesAction::ReportRunning, ServicesStage::DoneQuiet)
        } else {
            (ServicesAction::StartServices, ServicesStage::ServicesProvisioned)
        },
        ServicesStage::ServicesProvisioned => (
            if answer { ServicesAction::Nothing } else { ServicesAction::Provision },
            ServicesStage::Done,
        ),
        ServicesStage::Done => (ServicesAction::Nothing, ServicesStage::Done),
        ServicesStage::DoneQuiet => (ServicesAction::Nothing, ServicesStage::DoneQuiet),
    }
}

/// How far a stage lies from the start.
pub open spec fn services_stage_rank(stage: ServicesStage) -> nat {
    match stage {
        ServicesStage::SearxngOutdated => 0,
        ServicesStage::SearxngExists => 1,
        ServicesStage::SearxngRunning => 2,
        ServicesStage::ServicesExists => 3,
        ServicesStage::ServicesRunning => 4,
        ServicesStage::ServicesProvisioned => 5,
        ServicesStage::Done => 6,
        ServicesStage::DoneQuiet => 6,
    }
}

/// Starting the services on a dry run does nothing; every step that is not
/// over moves on, so the start ends after at most six steps; a running
/// services container ends it with nothing started or provisioned; and
/// provisioning only comes right after the services container was found
/// stopped and started, and only when it is not provisioned already.
pub proof fn law_services_start_order(dry_run: bool, stage: ServicesStage, answer: bool)
    ensures
        dry_run ==> spec_services_first(dry_run) == ServicesStage::DoneQuiet,
        stage != ServicesStage::Done && stage != ServicesStage::DoneQuiet ==> services_stage_rank(
            spec_services_step(stage, answer).1,
        ) > services_stage_rank(stage),
        stage == ServicesStage::ServicesRunning && answer ==> spec_services_step(stage, answer) == (
            ServicesAction::ReportRunning,
            ServicesStage::DoneQuiet,
        ),
        spec_services_step(stage, answer).0 == ServicesAction::Provision ==> stage
            == ServicesStage::ServicesProvisioned && !answer,
        spec_services_step(stage, answer).1 == ServicesStage::ServicesProvisioned ==> stage
            == ServicesStage::ServicesRunning && !answer && spec_services_step(stage, answer).0
            == ServicesAction::StartServices,
{
}

} // verus!
