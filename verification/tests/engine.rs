use muthr::config::MuthrConfig;
use muthr::engine::{
    active_preset_file_for_runtime, cache_file, default_model_for_runtime, find_preset, forward_signal,
    kill_target, listing_shows_runtime, llama_spec, matches_runtime_process, mlxcel_spec, parse_ini, pid_from_file,
    preset_from_kv, presets, presets_for_runtime, resolve_bind_host, resolve_model_id_for_runtime,
    resolve_runtime_for_profile, runtime_pids_from_listing, runtime_spec, server_args, sort_presets,
    stop_targets, stop_wait_polls, supported_runtime_names, supported_runtimes, supports_runtime, Forward,
    PresetSpec, RuntimeError,
};
use muthr::kv::KvMap;

fn s(v: &str) -> String {
    v.to_string()
}

fn preset(name: &str, runtime: Option<&str>, model: &str) -> PresetSpec {
    PresetSpec { name: s(name), runtime: runtime.map(s), model: s(model) }
}

#[test]
fn runtimes_and_their_files() {
    assert_eq!(supported_runtime_names(), &["mlxcel", "llama"]);
    let all = supported_runtimes();
    assert_eq!(all.len(), 2);
    assert_eq!(all[0].executable, "mlxcel-server");
    assert_eq!(all[1].executable, "llama-server");
    assert!(supports_runtime("llama"));
    assert!(!supports_runtime("vllm"));
    assert_eq!(runtime_spec("mlxcel").map(|r| r.pid_file_name), Some("mlxcel-server.pid"));
    assert!(runtime_spec("other").is_none());
    assert_eq!(active_preset_file_for_runtime("llama"), "active-preset-name-llama");
    assert_eq!(active_preset_file_for_runtime("other"), "active-preset-name-mlxcel");
    assert_eq!(default_model_for_runtime("mlxcel"), "mlx-community/Qwen3.5-9B-MLX-4bit");
    assert_eq!(default_model_for_runtime("llama"), "unsloth/Qwen3.6-35B-A3B-GGUF/Qwen3.6-35B-A3B-UD-Q4_K_XL.gguf");
    assert_eq!(mlxcel_spec().default_bind_host, "0.0.0.0");
    assert_eq!(llama_spec().log_stderr, "llama-server-err.log");
}

#[test]
fn ini_settings_later_lines_win() {
    let kv = parse_ini("# comment\n[section]\nModel = \"first\"\n; other\nmodel='second'\nruntime=llama\nempty=\n");
    assert_eq!(kv.get("model"), Some(s("second")));
    assert_eq!(kv.get("runtime"), Some(s("llama")));
    assert!(!kv.contains_key("empty"));
    assert!(!kv.contains_key("[section]"));
}

#[test]
fn preset_from_settings() {
    let mut kv = KvMap::new();
    kv.insert(s("profile"), s("p-model"));
    kv.insert(s("engine_runtime"), s("mlxcel"));
    let p = preset_from_kv("fast", &kv).unwrap();
    assert_eq!(p.name, "fast");
    assert_eq!(p.model, "p-model");
    assert_eq!(p.runtime, Some(s("mlxcel")));
    kv.insert(s("model_id"), s("id-model"));
    assert_eq!(preset_from_kv("fast", &kv).unwrap().model, "id-model");
    let mut no_model = KvMap::new();
    no_model.insert(s("runtime"), s("llama"));
    assert!(preset_from_kv("x", &no_model).is_none());
}

#[test]
fn finding_presets() {
    let ps = vec![preset("a", None, "m1"), preset("b", Some("llama"), "m2"), preset("b", None, "m3")];
    assert_eq!(find_preset(&ps, " b "), Some(1));
    assert_eq!(find_preset(&ps, "  "), None);
    assert_eq!(find_preset(&ps, "z"), None);
}

#[test]
fn runtime_choice_order() {
    let ps = vec![preset("big", Some("llama"), "m"), preset("odd", Some("vllm"), "m")];
    assert_eq!(resolve_runtime_for_profile(Some(s("mlxcel")), Some(s("llama")), Some("big"), &ps), Ok(s("mlxcel")));
    assert_eq!(resolve_runtime_for_profile(None, Some(s("mlxcel")), Some("big"), &ps), Ok(s("llama")));
    assert_eq!(resolve_runtime_for_profile(None, Some(s("llama")), Some("none"), &ps), Ok(s("llama")));
    assert_eq!(resolve_runtime_for_profile(None, None, None, &ps), Ok(s("mlxcel")));
    assert_eq!(
        resolve_runtime_for_profile(Some(s("vllm")), None, None, &ps),
        Err(RuntimeError::Unsupported { runtime: s("vllm") })
    );
    assert_eq!(
        resolve_runtime_for_profile(None, None, Some("odd"), &ps),
        Err(RuntimeError::PresetUnsupported { preset: s("odd"), runtime: s("vllm") })
    );
}

#[test]
fn model_and_host_choice() {
    let ps = vec![preset("fast", None, "org/fast-model")];
    let spec = mlxcel_spec();
    assert_eq!(resolve_model_id_for_runtime(spec, Some(s(" fast ")), &ps, None), "org/fast-model");
    assert_eq!(resolve_model_id_for_runtime(spec, Some(s("org/direct")), &ps, Some(s("cfg"))), "org/direct");
    assert_eq!(resolve_model_id_for_runtime(spec, Some(s("  ")), &ps, Some(s(" cfg "))), "cfg");
    assert_eq!(resolve_model_id_for_runtime(spec, None, &ps, None), "mlx-community/Qwen3.5-9B-MLX-4bit");
    assert_eq!(resolve_bind_host(spec, Some(s(" 127.0.0.1 ")), Some(s("10.0.0.1"))), "127.0.0.1");
    assert_eq!(resolve_bind_host(spec, None, Some(s("10.0.0.1"))), "10.0.0.1");
    assert_eq!(resolve_bind_host(spec, Some(s("")), None), "0.0.0.0");
}

#[test]
fn process_matching() {
    let spec = mlxcel_spec();
    assert!(matches_runtime_process(spec, "mlxcel-server", ""));
    assert!(matches_runtime_process(spec, "python", "/opt/bin/mlxcel-server --model x"));
    assert!(!matches_runtime_process(spec, "python", "mlxcel-server-helper"));
    let listing = "  42 mlxcel-server --model a\n  7 bash -c x\n  13 node /usr/bin/mlxcel-server\n  42 mlxcel-server\nbad line\n";
    assert_eq!(runtime_pids_from_listing(spec, listing), vec![13, 42]);
    assert!(listing_shows_runtime(spec, "mlxcel-server --model a\n"));
    assert!(!listing_shows_runtime(llama_spec(), "mlxcel-server --model a\n"));
}

#[test]
fn server_arguments() {
    assert_eq!(
        server_args("org/m", "0.0.0.0", 8080),
        vec![s("--model"), s("org/m"), s("--host"), s("0.0.0.0"), s("--port"), s("8080")]
    );
}

#[test]
fn preset_listing_for_a_runtime() {
    let ps = vec![
        preset("b", Some("llama"), "z-model"),
        preset("a", None, "a-model"),
        preset("c", Some("mlxcel"), "a-model"),
    ];
    let listed = presets_for_runtime("mlxcel", Some(s("m-default")), &ps).unwrap();
    assert_eq!(listed, vec![(s("a-model"), s("mlxcel")), (s("m-default"), s("mlxcel"))]);
    assert_eq!(
        presets_for_runtime("vllm", None, &ps),
        Err(RuntimeError::Unsupported { runtime: s("vllm") })
    );
    let mut cfg = MuthrConfig::default();
    cfg.default_engine_runtime = Some(s("llama"));
    let listed = presets(&cfg, &ps).unwrap();
    assert_eq!(listed.len(), 3);
    assert_eq!(listed[0].0, "a-model");
    assert_eq!(listed[2].0, "z-model");
    assert!(listed.iter().all(|(_, r)| r == "llama"));
}

#[test]
fn stopping_processes() {
    assert_eq!(pid_from_file(" 1234\n"), Some(1234));
    assert_eq!(pid_from_file("x"), None);
    assert_eq!(stop_targets(Some(5), &vec![7, 5, 9, 7]), vec![5, 7, 9]);
    assert_eq!(stop_targets(None, &vec![3]), vec![3]);
    assert_eq!(kill_target(42, 40), -40);
    assert_eq!(kill_target(42, 0), 42);
    assert_eq!(stop_wait_polls(), 30);
}

#[test]
fn second_signal_kills() {
    let (first, requested) = forward_signal(99, false);
    assert_eq!(first, Some(Forward::Terminate));
    assert!(requested);
    let (second, _) = forward_signal(99, requested);
    assert_eq!(second, Some(Forward::Kill));
    assert_eq!(forward_signal(0, false), (None, false));
}

#[test]
fn cache_paths_and_sorting() {
    assert_eq!(cache_file("/h", "mlxcel-server.pid"), "/h/.cache/muthr/mlxcel-server.pid");
    let sorted = sort_presets(vec![preset("b", None, "1"), preset("a", None, "2"), preset("b", None, "0")]);
    let names: Vec<(String, String)> = sorted.into_iter().map(|p| (p.name, p.model)).collect();
    assert_eq!(names, vec![(s("a"), s("2")), (s("b"), s("1")), (s("b"), s("0"))]);
}
