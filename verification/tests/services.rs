use muthr::json::JsonValue;
use muthr::sandbox::GatewayError;
use muthr::services::{
    build_probe_args, build_probe_outcome, choose_services_gateway, searxng_create_args, searxng_outdated,
    searxng_settings, searxng_settings_file, services_copy_args, services_create_args, services_delete_step,
    services_presence, services_provision_args, shutdown_timeout, stop_with_timeout_args, BuildProbe,
    ServicesDeleteStep, services_start_first, services_start_step, ServicesAction, ServicesStage,
};
use muthr::setup::{
    clean_targets, flake_argument, flake_fallbacks, flake_search, init_step, managed_dirs, specs_repo_url,
    sweep_args, sync_managed_only, InitCommands, InitStep,
};

fn s(v: &str) -> String {
    v.to_string()
}

fn strings(v: &[&str]) -> Vec<String> {
    v.iter().map(|x| x.to_string()).collect()
}

fn listed(id: &str, labels: Vec<(&str, &str)>) -> JsonValue {
    JsonValue::Object(vec![
        (s("id"), JsonValue::Str(s(id))),
        (
            s("configuration"),
            JsonValue::Object(vec![(
                s("labels"),
                JsonValue::Object(labels.into_iter().map(|(k, v)| (s(k), JsonValue::Str(s(v)))).collect()),
            )]),
        ),
    ])
}

#[test]
fn searxng_revision() {
    assert!(searxng_outdated(&vec![listed("muthr-searxng", vec![("muthr.config-rev", "v2")])]));
    assert!(!searxng_outdated(&vec![listed("muthr-searxng", vec![("muthr.config-rev", "v3")])]));
    assert!(!searxng_outdated(&vec![listed("muthr-services", vec![])]));
    assert_eq!(searxng_settings_file("/h"), "/h/.cache/muthr/searxng/settings.yml");
    assert!(searxng_settings().contains("limiter: false"));
    let args = searxng_create_args("/h/s.yml");
    assert!(args.contains(&s("/h/s.yml:/etc/searxng/settings.yml")));
    assert!(args.contains(&s("muthr.config-rev=v3")));
    assert_eq!(args.last().map(|x| x.as_str()), Some("docker.io/searxng/searxng:latest"));
}

#[test]
fn services_container_arguments() {
    let args = services_create_args();
    assert_eq!(args[2], "muthr-services");
    assert!(args.contains(&s("127.0.0.1:18765:18765")));
    let p = services_provision_args("192.168.64.1");
    assert_eq!(p[2], "MUTHR_SEARXNG_URL=http://192.168.64.1:18766");
    let (script, lib) = services_copy_args("/h");
    assert_eq!(
        script,
        strings(&[
            "copy",
            "/h/.config/muthr/sandbox.d/container/provision.d/muthr-services.sh",
            "muthr-services:/tmp/muthr-services.sh"
        ])
    );
    assert_eq!(lib[2], "muthr-services:/tmp");
}

#[test]
fn services_gateway_choice() {
    assert_eq!(choose_services_gateway(Some(" 10.0.0.1 "), Some("x"), None), Ok(s("10.0.0.1")));
    assert_eq!(choose_services_gateway(Some("  "), Some("x"), None), Err(GatewayError::Empty));
    assert_eq!(choose_services_gateway(None, Some("  "), Some(s("10.0.0.9"))), Ok(s("10.0.0.9")));
    assert_eq!(choose_services_gateway(None, Some(" 10.0.0.2"), None), Ok(s("10.0.0.2")));
    assert_eq!(choose_services_gateway(None, None, None), Err(GatewayError::NotFound));
}

#[test]
fn services_lifecycle_decisions() {
    assert_eq!(services_delete_step(false, false, false, false), ServicesDeleteStep::Nothing);
    assert_eq!(services_delete_step(false, false, true, false), ServicesDeleteStep::TerminalRequired);
    assert_eq!(services_delete_step(true, false, false, true), ServicesDeleteStep::Delete);
    assert_eq!(services_presence(&vec![listed("muthr-searxng", vec![])]), (false, true));
    assert_eq!(stop_with_timeout_args("muthr-a", 15), strings(&["stop", "--time", "15", "muthr-a"]));
    assert_eq!(shutdown_timeout(None), 30);
    assert_eq!(shutdown_timeout(Some(5)), 5);
}

#[test]
fn build_probe() {
    assert_eq!(build_probe_outcome(true, "rosetta", ""), BuildProbe::Native);
    assert_eq!(build_probe_outcome(false, "", "Rosetta is required"), BuildProbe::NeedsRosetta);
    assert_eq!(build_probe_outcome(false, "error", ""), BuildProbe::Failed);
    assert_eq!(
        build_probe_args("/t/Containerfile", "/t"),
        strings(&[
            "build",
            "-q",
            "--platform",
            "linux/arm64",
            "--file",
            "/t/Containerfile",
            "--tag",
            "muthr-doctor-buildkit-probe:latest",
            "/t"
        ])
    );
}

#[test]
fn init_decisions() {
    assert_eq!(init_step(true, true, true), InitStep::Overwrite);
    assert_eq!(init_step(false, true, true), InitStep::KeepExisting);
    assert_eq!(init_step(false, true, false), InitStep::Install);
    assert_eq!(init_step(false, false, false), InitStep::Install);
    assert_eq!(specs_repo_url(&InitCommands { git_url: None, force: false }), "https://github.com/tappunk/muthr-specs.git");
    assert_eq!(specs_repo_url(&InitCommands { git_url: Some(s("file:///x")), force: false }), "file:///x");
    assert_eq!(managed_dirs(), strings(&["clients", "manifests", "provider.d", "provision.d"]));
    assert!(sync_managed_only(true, true));
    assert!(!sync_managed_only(true, false));
}

#[test]
fn flake_lookup() {
    assert_eq!(flake_search("/Users/me/src/"), strings(&["/Users/me/src", "/Users/me", "/Users"]));
    assert_eq!(flake_search("/"), Vec::<String>::new());
    assert_eq!(
        flake_fallbacks("/h"),
        strings(&["/h/.config/dotfiles", "/h/src/projects/dotfiles", "/h/.config/muthr"])
    );
    assert_eq!(flake_argument("/h/.config/dotfiles"), "/h/.config/dotfiles/nix#system");
    assert_eq!(clean_targets("/h", None), strings(&["/h/src", "/h/opt", "/h/.config/muthr"]));
    assert_eq!(clean_targets("/h", Some("/h/src/")), strings(&["/h/src", "/h/opt", "/h/.config/muthr"]));
    assert_eq!(
        clean_targets("/h", Some("/h/dots")),
        strings(&["/h/src", "/h/opt", "/h/.config/muthr", "/h/dots"])
    );
    assert_eq!(sweep_args("/h/src")[3], "/h/src");
}

#[test]
fn services_start_walks_its_stages() {
    assert_eq!(services_start_first(true), ServicesStage::DoneQuiet);
    assert_eq!(services_start_first(false), ServicesStage::SearxngOutdated);
    // A fresh machine: nothing exists, nothing is provisioned.
    let answers = [false, false, false, false, false, false];
    let mut stage = services_start_first(false);
    let mut actions = Vec::new();
    for a in answers {
        let (action, next) = services_start_step(stage, a);
        actions.push(action);
        stage = next;
    }
    assert_eq!(stage, ServicesStage::Done);
    assert_eq!(
        actions,
        vec![
            ServicesAction::Nothing,
            ServicesAction::CreateSearxng,
            ServicesAction::StartSearxng,
            ServicesAction::CreateServices,
            ServicesAction::StartServices,
            ServicesAction::Provision,
        ]
    );
    assert_eq!(
        services_start_step(ServicesStage::ServicesRunning, true),
        (ServicesAction::ReportRunning, ServicesStage::DoneQuiet)
    );
    assert_eq!(
        services_start_step(ServicesStage::SearxngOutdated, true),
        (ServicesAction::RecreateSearxng, ServicesStage::SearxngExists)
    );
    assert_eq!(
        services_start_step(ServicesStage::ServicesProvisioned, true),
        (ServicesAction::Nothing, ServicesStage::Done)
    );
}
