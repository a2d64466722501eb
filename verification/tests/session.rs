use muthr::sandbox::{ContainerProfileSettings, MountSpec};
use muthr::session::{
    builder_settings, delete_args, delete_step, env_value, exec_args, first_word, golden_build_args,
    golden_build_failure, golden_containerfile, golden_plan, passthrough_env_keys, profile_label_args,
    profile_launch, provision_env, provision_exec_args, provision_paths, record_profile, session_next,
    session_start, shell_exec_args, shell_tty, start_plan, stop_targets, uid_sync_script, update_plugin_missing,
    update_unsupported, after_provision, shell_profile, AfterProvision, DeleteStep, GoldenImageError, ProvisionEnvError, SessionError, SessionNext,
};

fn s(v: &str) -> String {
    v.to_string()
}

fn strings(v: &[&str]) -> Vec<String> {
    v.iter().map(|x| x.to_string()).collect()
}

fn settings(network_none: bool, golden: bool) -> ContainerProfileSettings {
    ContainerProfileSettings {
        image: s("debian:13-slim"),
        workspace_guest_path: s("/code"),
        mounts: vec![MountSpec { host: s("/h/p"), guest: s("/code"), read_only: false }],
        network_none,
        cpus: Some(2),
        memory: None,
        uses_golden_image: golden,
    }
}

#[test]
fn exec_arguments() {
    let envs = vec![(s("A"), s("1"))];
    assert_eq!(
        exec_args(true, "/workspace/x", &envs, "muthr-p", &strings(&["bash", "-l"])),
        strings(&[
            "exec", "--interactive", "--tty", "--workdir", "/workspace/x", "--user", "muthr", "--env", "A=1", "muthr-p",
            "bash", "-l",
        ])
    );
    let args = shell_exec_args(
        false,
        "/w",
        &vec![(s("TERM"), s("xterm"))],
        &vec![(s("MUTHR_MODEL_NAME"), s("q"))],
        &vec![(s("X"), s("y"))],
        "muthr-p",
        Some("cargo test"),
    );
    assert_eq!(
        args,
        strings(&[
            "exec", "--workdir", "/w", "--user", "muthr", "--env", "TERM=xterm", "--env", "MUTHR_MODEL_NAME=q",
            "--env", "X=y", "muthr-p", "bash", "-lc", "cargo test",
        ])
    );
    assert_eq!(passthrough_env_keys(), strings(&["TERM", "COLORTERM", "COLUMNS", "LINES"]));
}

#[test]
fn terminal_decisions() {
    assert_eq!(shell_tty(false, true), Ok(true));
    assert_eq!(shell_tty(true, true), Ok(false));
    assert_eq!(shell_tty(true, false), Ok(false));
    assert_eq!(shell_tty(false, false), Err(SessionError::TtyRequired));
    assert_eq!(session_start(true, false), Err(SessionError::TtyRequired));
    assert_eq!(session_start(false, false), Ok(false));
    assert_eq!(session_start(false, true), Ok(true));
}

#[test]
fn session_retries_once_without_terminal() {
    assert_eq!(session_next(false, true, false), SessionNext::RetryWithoutTty);
    assert_eq!(session_next(false, false, false), SessionNext::Failed);
    assert_eq!(session_next(true, true, false), SessionNext::Failed);
    assert_eq!(session_next(false, true, true), SessionNext::Done);
}

#[test]
fn start_plans() {
    let p = start_plan("opencode", &settings(true, false));
    assert!(p.needs_provision && p.deferred_network_isolation && !p.create_without_network);
    let b = start_plan("base", &settings(true, false));
    assert!(!b.needs_provision && !b.deferred_network_isolation && b.create_without_network);
    let g = start_plan("opencode", &settings(false, true));
    assert!(!g.needs_provision && !g.deferred_network_isolation && !g.create_without_network);
}

#[test]
fn profile_launches() {
    let (cmd, tty) = profile_launch("opencode");
    assert!(tty);
    assert_eq!(cmd[0], "bash");
    assert_eq!(cmd[2], "export PATH=\"$HOME/.opencode/bin:$HOME/.local/bin:$PATH\"; exec opencode");
    assert_eq!(profile_launch("hermes-agent"), (strings(&["sh"]), false));
}

#[test]
fn recording_profiles() {
    assert_eq!(record_profile("", "opencode"), Some(s("opencode\n")));
    assert_eq!(record_profile("base", "opencode"), Some(s("base\nopencode\n")));
    assert_eq!(record_profile("base\n", "opencode"), Some(s("base\nopencode\n")));
    assert_eq!(record_profile("base\n  opencode  \n", "opencode"), None);
    let once = record_profile("base", "hermes").unwrap();
    assert_eq!(record_profile(&once, "hermes"), None);
}

#[test]
fn provisioning_paths_and_env() {
    let p = provision_paths("/h", "opencode");
    assert_eq!(p.host_script, "/h/.config/muthr/sandbox.d/container/provision.d/opencode.sh");
    assert_eq!(p.host_lib, "/h/.config/muthr/sandbox.d/container/provision.d/lib");
    assert_eq!(p.guest_dir, "/tmp/muthr-provision-opencode");
    assert_eq!(p.guest_script, "/tmp/muthr-provision-opencode/opencode.sh");
    let runtime = vec![
        (s("MUTHR_INFERENCE_URL"), s("http://g:8080/v1")),
        (s("MUTHR_OPENAI_URL"), s("http://g:8080/v1")),
        (s("MUTHR_MCP_BRIDGE_URL"), s("http://g:18765")),
        (s("MUTHR_SEARXNG_URL"), s("http://old")),
        (s("MUTHR_SEARXNG_URL"), s("http://g:18766")),
    ];
    assert_eq!(env_value(&runtime, "MUTHR_SEARXNG_URL"), Some(s("http://g:18766")));
    let env = provision_env(&runtime, "g", "qwen", 131072, "/workspace", "abc", "mlxcel").unwrap();
    assert_eq!(env.len(), 10);
    assert_eq!(env[4], (s("MUTHR_CTX_WINDOW"), s("131072")));
    assert_eq!(env[8], (s("MUTHR_SEARXNG_URL"), s("http://g:18766")));
    assert_eq!(
        provision_env(&runtime[2..].to_vec(), "g", "q", 1, "/w", "r", "m"),
        Err(ProvisionEnvError::MissingOpenaiUrl)
    );
    assert_eq!(
        provision_env(&vec![(s("MUTHR_OPENAI_URL"), s("u"))], "g", "q", 1, "/w", "r", "m"),
        Err(ProvisionEnvError::MissingSearxngUrl)
    );
    assert_eq!(
        provision_env(&vec![(s("MUTHR_OPENAI_URL"), s("u")), (s("MUTHR_SEARXNG_URL"), s("u"))], "g", "q", 1, "/w", "r", "m"),
        Err(ProvisionEnvError::MissingInferenceUrl)
    );
    assert_eq!(
        provision_env(
            &vec![(s("MUTHR_OPENAI_URL"), s("u")), (s("MUTHR_SEARXNG_URL"), s("u")), (s("MUTHR_INFERENCE_URL"), s("u"))],
            "g",
            "q",
            1,
            "/w",
            "r",
            "m"
        ),
        Err(ProvisionEnvError::MissingMcpBridgeUrl)
    );
    let args = provision_exec_args("muthr-p", &vec![(s("K"), s("v"))], "/tmp/x/s.sh");
    assert_eq!(args.last().map(|x| x.as_str()), Some("/tmp/x/s.sh"));
    assert!(args.contains(&s("K=v")));
    assert_eq!(first_word("abc123  -\n"), Some(s("abc123")));
    assert_eq!(first_word("   "), None);
}

#[test]
fn golden_images() {
    assert_eq!(
        golden_plan("My Profile"),
        Ok((s("muthr-builder-MyProfile"), s("muthr-profile-My Profile:latest")))
    );
    assert_eq!(golden_plan("  "), Err(GoldenImageError::EmptyProfile));
    assert_eq!(golden_plan("!!"), Err(GoldenImageError::InvalidProfileName));
    assert_eq!(golden_build_failure("needs ROSETTA", ""), GoldenImageError::RosettaRequired);
    assert_eq!(golden_build_failure("oops", "fail"), GoldenImageError::BuildFailed);
    assert_eq!(golden_containerfile(), "FROM scratch\nADD rootfs.tar /\n");
    let args = golden_build_args("/tmp/Containerfile", "muthr-profile-x:latest", "/tmp/ctx");
    assert_eq!(args[0], "build");
    assert!(args.contains(&s("muthr-profile-x:latest")));
    let b = builder_settings(settings(true, true));
    assert_eq!(b.workspace_guest_path, "/workspace");
    assert!(b.mounts.is_empty());
    assert!(!b.network_none);
}

#[test]
fn sandbox_updates_and_deletion() {
    assert!(update_unsupported("Error: Unknown command 'update'"));
    assert!(!update_unsupported("permission denied"));
    assert!(update_plugin_missing("Plugin 'container-update' not found"));
    assert_eq!(
        profile_label_args("muthr-p", "opencode"),
        strings(&["update", "muthr-p", "--label", "muthr.profile.opencode=true"])
    );
    assert_eq!(delete_args("muthr-p", true), strings(&["delete", "--force", "muthr-p"]));
    assert_eq!(delete_args("muthr-p", false), strings(&["delete", "muthr-p"]));
    assert_eq!(delete_step(false, false, true, true), DeleteStep::TerminalRequired);
    assert_eq!(delete_step(true, false, false, false), DeleteStep::Absent);
    assert_eq!(delete_step(false, true, true, true), DeleteStep::StopThenDelete);
    assert_eq!(delete_step(true, false, true, true), DeleteStep::Delete);
    assert_eq!(stop_targets(&strings(&["muthr-b", "muthr-a", "muthr-b"])), strings(&["muthr-a", "muthr-b"]));
    let script = uid_sync_script(501, 20);
    assert!(script.contains("groupmod -o -g 20 muthr"));
    assert!(script.contains("usermod -o -u 501 -g 20 muthr"));
}

#[test]
fn shell_profile_and_what_follows_provisioning() {
    assert_eq!(shell_profile(None), (false, s("base")));
    assert_eq!(shell_profile(Some("base")), (false, s("base")));
    assert_eq!(shell_profile(Some("hermes")), (true, s("hermes")));
    assert_eq!(
        after_provision(true, false),
        AfterProvision { seal_network: true, fail: true, record_profile: false }
    );
    assert_eq!(
        after_provision(false, true),
        AfterProvision { seal_network: false, fail: false, record_profile: true }
    );
}
