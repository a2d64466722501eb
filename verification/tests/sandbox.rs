use muthr::sandbox::{
    check_provision_inputs, choose_sandbox_gateway, container_profile_settings, create_args_for_settings,
    expand_home_path, golden_image_tag, parse_explicit_env, parse_gateway_from_route_output,
    parse_guest_mount_target, project_name_suffix, runtime_env_contract, runtime_env_summary, safe_env_value,
    safe_model_name, safe_token, sandbox_id, sanitize_project_name, validate_named_sandbox,
    ContainerProfileSettings, EnvArgError, GatewayError, ProvisionInputError, MountSpec, MountTargetError, ResourceLimits,
    SandboxManifest, SandboxNameError, SecurityCaps,
};
use muthr::workspace::{
    file_extension, file_name, file_stem, guest_workdir, ini_name, project_token, sort_paths,
    validate_workspace_root, workspace_context, workspace_root_setting, WorkspaceContext, WorkspaceError,
};

fn s(v: &str) -> String {
    v.to_string()
}

#[test]
fn sanitize_keeps_name_characters() {
    assert_eq!(sanitize_project_name("My Project!"), Some(s("MyProject")));
    assert_eq!(sanitize_project_name("a_b-c.d"), Some(s("a_b-cd")));
    assert_eq!(sanitize_project_name("!!! ..."), None);
}

#[test]
fn sanitize_uses_unicode_alphanumerics() {
    assert_eq!(sanitize_project_name("café ünï"), Some(s("caféünï")));
    assert_eq!(sanitize_project_name("数据 集"), Some(s("数据集")));
}

#[test]
fn sanitize_is_idempotent_on_values() {
    let once = sanitize_project_name("  hello, world-2 ").unwrap();
    assert_eq!(sanitize_project_name(&once), Some(once.clone()));
}

#[test]
fn name_suffix_is_fnv1a_low_bits() {
    assert_eq!(project_name_suffix("My Project!"), "496afcb9");
    assert_eq!(project_name_suffix("café"), "cfa40d89");
}

#[test]
fn project_tokens() {
    assert_eq!(project_token("clean-name"), Some(s("clean-name")));
    assert_eq!(project_token("My Project!"), Some(s("MyProject-496afcb9")));
    assert_eq!(project_token("..."), None);
}

#[test]
fn home_expansion() {
    assert_eq!(expand_home_path("~/src", "/Users/me"), "/Users/me/src");
    assert_eq!(expand_home_path("/abs/~/x", "/Users/me"), "/abs/~/x");
    assert_eq!(expand_home_path("~", "/Users/me"), "~");
}

#[test]
fn mount_targets() {
    assert_eq!(parse_guest_mount_target("  /data:ro "), Ok((s("/data"), true)));
    assert_eq!(parse_guest_mount_target("/data"), Ok((s("/data"), false)));
    assert_eq!(parse_guest_mount_target("   "), Err(MountTargetError::Empty));
    assert_eq!(parse_guest_mount_target("data:ro"), Err(MountTargetError::NotAbsolute));
}

#[test]
fn explicit_env_values() {
    assert_eq!(parse_explicit_env("KEY=a=b"), Ok((s("KEY"), s("a=b"))));
    assert_eq!(parse_explicit_env("KEY="), Ok((s("KEY"), s(""))));
    assert_eq!(parse_explicit_env("KEY"), Err(EnvArgError::MissingEquals));
    assert_eq!(parse_explicit_env("=v"), Err(EnvArgError::EmptyKey));
    assert_eq!(parse_explicit_env("BAD-KEY=v"), Err(EnvArgError::InvalidKey));
    assert_eq!(parse_explicit_env("K=line\nbreak"), Err(EnvArgError::ControlCharacters));
}

#[test]
fn explicit_env_round_trips() {
    let input = "OPENAI_BASE=http://x:1/v1";
    let (k, v) = parse_explicit_env(input).unwrap();
    assert_eq!(format!("{}={}", k, v), input);
}

#[test]
fn sandbox_names() {
    assert_eq!(golden_image_tag("opencode"), "muthr-profile-opencode:latest");
    assert!(sandbox_id("muthr-proj"));
    assert!(!sandbox_id("muthr-services"));
    assert!(!sandbox_id("other"));
    assert_eq!(validate_named_sandbox("proj"), Err(SandboxNameError::MissingPrefix));
    assert_eq!(validate_named_sandbox("muthr-searxng"), Err(SandboxNameError::ServicesContainer));
    assert_eq!(validate_named_sandbox("muthr-proj"), Ok(()));
}

#[test]
fn create_arguments() {
    let settings = ContainerProfileSettings {
        image: s("debian:13-slim"),
        workspace_guest_path: s("/workspace"),
        mounts: vec![
            MountSpec { host: s("/Users/me/src/p"), guest: s("/workspace"), read_only: false },
            MountSpec { host: s("/data"), guest: s("/data"), read_only: true },
        ],
        network_none: true,
        cpus: Some(4),
        memory: Some(s(" 8G ")),
        uses_golden_image: false,
    };
    let args = create_args_for_settings("muthr-p", &settings);
    let expected: Vec<String> = [
        "create",
        "--name",
        "muthr-p",
        "--platform",
        "linux/arm64",
        "--detach",
        "--label",
        "muthr.managed=true",
        "--label",
        "muthr.owner=project",
        "--label",
        "muthr.profile.base=true",
        "--network",
        "none",
        "--cpus=4",
        "--memory=8G",
        "--volume",
        "/Users/me/src/p:/workspace",
        "--volume",
        "/data:/data:ro",
        "--workdir",
        "/workspace",
        "debian:13-slim",
        "sh",
        "-lc",
        "while true; do sleep 3600; done",
    ]
    .iter()
    .map(|x| x.to_string())
    .collect();
    assert_eq!(args, expected);
}

#[test]
fn profile_settings_without_manifest_mount_only_the_project() {
    let (settings, overlay) = container_profile_settings(None, "base", "/Users/me", "/Users/me/src/p", false).unwrap();
    assert!(!overlay);
    assert_eq!(settings.image, "debian:13-slim");
    assert_eq!(settings.workspace_guest_path, "/workspace");
    assert_eq!(settings.mounts.len(), 1);
    assert_eq!(settings.mounts[0].host, "/Users/me/src/p");
    assert_eq!(settings.mounts[0].guest, "/workspace");
    assert!(!settings.mounts[0].read_only);
    assert!(!settings.network_none);
}

#[test]
fn profile_settings_from_manifest() {
    let manifest = SandboxManifest {
        image: Some(s(" alpine:3 ")),
        resources: Some(ResourceLimits { cpus: Some(2), memory: Some(s("4G")) }),
        mounts: Some(vec![(s("workspace"), s("/code")), (s("~/cache"), s("/cache:ro")), (s("  "), s("/ignored"))]),
        security: Some(SecurityCaps { network: Some(s(" Restricted ")), workspace_mode: Some(s("OVERLAY")) }),
    };
    let (settings, overlay) =
        container_profile_settings(Some(manifest), "hermes", "/Users/me", "/Users/me/src/p", true).unwrap();
    assert!(overlay);
    assert_eq!(settings.image, "muthr-profile-hermes:latest");
    assert!(settings.uses_golden_image);
    assert_eq!(settings.workspace_guest_path, "/code");
    assert_eq!(settings.mounts.len(), 2);
    assert_eq!(settings.mounts[0].guest, "/code");
    assert_eq!(settings.mounts[1].host, "/Users/me/cache");
    assert_eq!(settings.mounts[1].guest, "/cache");
    assert!(settings.mounts[1].read_only);
    assert!(settings.network_none);
    assert_eq!(settings.cpus, Some(2));
    assert_eq!(settings.memory, Some(s("4G")));
}

#[test]
fn profile_settings_mount_error() {
    let manifest = SandboxManifest {
        image: None,
        resources: None,
        mounts: Some(vec![(s("/host"), s("relative"))]),
        security: None,
    };
    assert_eq!(
        container_profile_settings(Some(manifest), "base", "/h", "/h/src/p", false).err(),
        Some(MountTargetError::NotAbsolute)
    );
}

#[test]
fn runtime_environment() {
    let env = runtime_env_contract("192.168.64.1", 8080, "mlxcel", "qwen");
    assert!(env.contains(&(s("MUTHR_INFERENCE_URL"), s("http://192.168.64.1:8080/v1"))));
    let summary = runtime_env_summary(&env);
    assert_eq!(env.len(), 6);
    assert_eq!(summary.len(), 5);
    assert!(!summary.iter().any(|(k, _)| k == "MUTHR_OPENAI_URL"));
}

#[test]
fn gateway_choice() {
    assert_eq!(choose_sandbox_gateway(Some(s(" 10.0.0.1 ")), None, None, None), Ok(s("10.0.0.1")));
    assert_eq!(choose_sandbox_gateway(None, None, None, None), Err(GatewayError::NotFound));
    assert_eq!(choose_sandbox_gateway(None, Some(s("  ")), Some(s("10.0.0.2")), None), Err(GatewayError::Empty));
    assert_eq!(choose_sandbox_gateway(None, None, None, Some(s("10.0.0.3"))), Ok(s("10.0.0.3")));
    assert_eq!(
        parse_gateway_from_route_output("default via 192.168.64.1 dev eth0\n"),
        Some(s("192.168.64.1"))
    );
    assert_eq!(parse_gateway_from_route_output("no route here"), None);
}

#[test]
fn provisioning_input_checks() {
    assert!(safe_token("opencode"));
    assert!(!safe_token("bad token"));
    assert!(safe_model_name("mlx-community/Qwen3.5-9B-MLX-4bit"));
    assert!(safe_env_value("http://host:1/v1"));
    assert!(!safe_env_value("a\nb"));
    let urls = vec![s("http://10.0.0.1:8080/v1")];
    assert!(check_provision_inputs("provision_opencode", "mlxcel", "qwen", "/workspace", &urls).is_ok());
    assert_eq!(
        check_provision_inputs("setup.sh", "mlxcel", "qwen", "/workspace", &urls),
        Err(ProvisionInputError::ScriptName)
    );
    assert_eq!(
        check_provision_inputs("setup", "ml xcel", "qwen", "/workspace", &urls),
        Err(ProvisionInputError::Runtime)
    );
    assert_eq!(
        check_provision_inputs("setup", "mlxcel", "qwen", "/workspace", &vec![s("a\rb")]),
        Err(ProvisionInputError::ControlCharacters)
    );
    assert_eq!(
        check_provision_inputs("setup", "mlxcel", "bad model", "/workspace", &urls),
        Err(ProvisionInputError::ModelName)
    );
}

#[test]
fn workspace_root_checks() {
    assert_eq!(validate_workspace_root("/", "/Users/me"), Err(WorkspaceError::RootIsFilesystemRoot));
    assert_eq!(validate_workspace_root("/Users", "/Users/me"), Err(WorkspaceError::RootIsUsers));
    assert_eq!(validate_workspace_root("/Users/me/", "/Users/me"), Err(WorkspaceError::RootIsHome));
    assert_eq!(validate_workspace_root("/opt/src", "/Users/me"), Err(WorkspaceError::RootOutsideHome));
    assert_eq!(validate_workspace_root("/Users/me/src", "/Users/me"), Ok(()));
}

#[test]
fn workspace_root_precedence() {
    assert_eq!(workspace_root_setting(Some("~/env"), Some("/cfg"), "/h"), "/h/env");
    assert_eq!(workspace_root_setting(None, Some("/cfg"), "/h"), "/cfg");
    assert_eq!(workspace_root_setting(None, None, "/h"), "/h/src");
}

#[test]
fn workspace_contexts() {
    assert_eq!(
        workspace_context("/Users/me/src/My Project!/sub", "/Users/me/src", "/Users/me", None),
        Ok(WorkspaceContext::Project {
            container_id: s("muthr-MyProject-496afcb9"),
            mount_point: s("/Users/me/src/My Project!"),
        })
    );
    assert_eq!(
        workspace_context("/Users/me/.config/muthr/x", "/Users/me/src", "/Users/me", Some("/Users/me/.config/muthr")),
        Ok(WorkspaceContext::Config)
    );
    assert_eq!(
        workspace_context("/Users/me/src", "/Users/me/src", "/Users/me", None),
        Err(WorkspaceError::AtWorkspaceRoot)
    );
    assert_eq!(
        workspace_context("/tmp/x", "/Users/me/src", "/Users/me", None),
        Err(WorkspaceError::OutsideWorkspace)
    );
    assert_eq!(
        workspace_context("/Users/me/src/...", "/Users/me/src", "/Users/me", None),
        Err(WorkspaceError::EmptyProjectName)
    );
}

#[test]
fn guest_working_directory_mirrors_host() {
    assert_eq!(guest_workdir("/workspace", "/Users/me/src/p", "/Users/me/src/p/a/b"), "/workspace/a/b");
    assert_eq!(guest_workdir("/workspace", "/Users/me/src/p", "/Users/me/src/p"), "/workspace/");
    assert_eq!(guest_workdir("/workspace", "/Users/me/src/p", "/elsewhere"), "/workspace");
}

#[test]
fn path_parts() {
    assert_eq!(file_name("/a/b/model.gguf"), Some(s("model.gguf")));
    assert_eq!(file_stem("/a/b/model.q4.gguf"), Some(s("model.q4")));
    assert_eq!(file_extension("/a/b/preset.ini"), Some(s("ini")));
    assert_eq!(file_extension("/a/b/.hidden"), None);
    assert_eq!(ini_name("/p/fast.ini"), Some(s("fast")));
    assert_eq!(ini_name("/p/notes.txt"), None);
    assert_eq!(sort_paths(&vec![s("/b"), s("/a"), s("/c")]), vec![s("/a"), s("/b"), s("/c")]);
}

#[test]
fn relative_workspace_target_keeps_workspace_and_network() {
    let manifest = SandboxManifest {
        image: None,
        resources: None,
        mounts: Some(vec![(s("workspace"), s(" code "))]),
        security: Some(SecurityCaps { network: Some(s(" open ")), workspace_mode: None }),
    };
    let (settings, _) = container_profile_settings(Some(manifest), "base", "/Users/me", "/Users/me/src/p", false).unwrap();
    assert_eq!(settings.workspace_guest_path, "/workspace");
    assert_eq!(settings.mounts.len(), 1);
    assert!(!settings.network_none);
    let none = SandboxManifest {
        image: None,
        resources: None,
        mounts: Some(vec![(s("workspace"), s(" /src "))]),
        security: Some(SecurityCaps { network: Some(s("NONE")), workspace_mode: None }),
    };
    let (settings, _) = container_profile_settings(Some(none), "base", "/Users/me", "/Users/me/src/p", false).unwrap();
    assert_eq!(settings.workspace_guest_path, "/src");
    assert!(settings.network_none);
}
