use muthr::json::JsonValue;
use muthr::kv::KvMap;
use muthr::model::{active_model, extract_field, loaded_ctx_window, loaded_model, provision_ctx};
use muthr::preset::{
    expand_home, model_name_from_path, opencode_config_file, parse_global_section, parse_preset,
    parse_slot_section, preset_file, sort_presets_by_name, PresetError,
};
use muthr::runtime_config::{
    fill_ctx_window, obj_insert, replace_placeholders, replace_str, runtime_config_value, runtime_dir,
    runtime_file_name, runtime_model, runtime_template_file, RuntimeConfigError,
};

fn s(v: &str) -> String {
    v.to_string()
}

fn obj(members: Vec<(&str, JsonValue)>) -> JsonValue {
    JsonValue::Object(members.into_iter().map(|(k, v)| (s(k), v)).collect())
}

fn text(v: &str) -> JsonValue {
    JsonValue::Str(s(v))
}

#[test]
fn global_section_defaults_and_values() {
    let empty = parse_global_section(&KvMap::new());
    assert_eq!(empty.n_gpu_layers, -1);
    assert!(!empty.flash_attn);
    assert_eq!(empty.port, None);
    let mut kv = KvMap::new();
    kv.insert(s("n-gpu-layers"), s(" 33 "));
    kv.insert(s("flash-attn"), s("true"));
    kv.insert(s("mlock"), s("yes"));
    kv.insert(s("port"), s("8081"));
    kv.insert(s("host"), s("127.0.0.1"));
    kv.insert(s("threads"), s("-4"));
    let g = parse_global_section(&kv);
    assert_eq!(g.n_gpu_layers, 33);
    assert!(g.flash_attn);
    assert!(!g.mlock);
    assert_eq!(g.port, Some(8081));
    assert_eq!(g.host, Some(s("127.0.0.1")));
    assert_eq!(g.threads, None);
}

#[test]
fn slot_sections() {
    let mut kv = KvMap::new();
    kv.insert(s("model"), s("/m/qwen.gguf"));
    kv.insert(s("ctx-size"), s("32768"));
    kv.insert(s("temp"), s(" 0.7 "));
    kv.insert(s("jinja"), s("false"));
    kv.insert(s("load-on-startup"), s("true"));
    let slot = parse_slot_section("2-qwen-coder", &kv);
    assert_eq!(slot.index, 2);
    assert_eq!(slot.name, "qwen-coder");
    assert_eq!(slot.model_path, Some(s("/m/qwen.gguf")));
    assert_eq!(slot.ctx_size, Some(32768));
    assert_eq!(slot.temp, Some(s("0.7")));
    assert_eq!(slot.jinja, Some(false));
    assert!(slot.load_on_startup);
    let plain = parse_slot_section("default", &KvMap::new());
    assert_eq!(plain.index, 0);
    assert_eq!(plain.name, "default");
    assert_eq!(parse_slot_section("999-big", &KvMap::new()).index, 0);
}

#[test]
fn float_settings_only_when_they_read_as_floats() {
    let mut kv = KvMap::new();
    kv.insert(s("temp"), s("warm"));
    kv.insert(s("top-p"), s(" 1E-3 "));
    kv.insert(s("min-p"), s("-INF"));
    kv.insert(s("repeat-penalty"), s("."));
    let slot = parse_slot_section("0-a", &kv);
    assert_eq!(slot.temp, None);
    assert_eq!(slot.top_p, Some(s("1E-3")));
    assert_eq!(slot.min_p, Some(s("-INF")));
    assert_eq!(slot.repeat_penalty, None);
    for (text, ok) in [
        ("1.", true), (".5", true), ("+2e+10", true), ("NaN", true), ("infinity", true),
        ("1e", false), ("e5", false), ("1.2.3", false), ("", false), ("0x1", false), ("1_0", false),
    ] {
        let mut kv = KvMap::new();
        kv.insert(s("temp"), s(text));
        assert_eq!(parse_slot_section("x", &kv).temp.is_some(), ok, "{}", text);
        assert_eq!(text.parse::<f32>().is_ok(), ok, "{}", text);
    }
}

#[test]
fn whole_preset() {
    let content = "# preset\nport = 8090\n[1-second]\nmodel = /m/b.gguf\n[*]\nport = 9000\n[0-first]\nctx-size = 4096\n[1-third]\n";
    let p = parse_preset("/h/presets/coding.ini", content).unwrap();
    assert_eq!(p.name, "coding");
    assert_eq!(p.path, "/h/presets/coding.ini");
    assert_eq!(p.global.port, Some(9000));
    let slots: Vec<(u8, String)> = p.slots.iter().map(|x| (x.index, x.name.clone())).collect();
    assert_eq!(slots, vec![(0, s("first")), (1, s("second")), (1, s("third"))]);
    assert_eq!(p.slots[0].ctx_size, Some(4096));
    assert_eq!(parse_preset("/", "").err(), Some(PresetError::InvalidFileName));
}

#[test]
fn preset_files_and_names() {
    assert_eq!(model_name_from_path("/m/Qwen3-8B-Q4_K_M.gguf"), "Qwen3-8B");
    assert_eq!(model_name_from_path("/m/plain.gguf"), "plain");
    assert_eq!(preset_file("/h", "fast"), "/h/.config/muthr/llama/presets/fast.ini");
    assert_eq!(opencode_config_file("/h", "fast"), "/h/.config/opencode/opencode-fast.json");
    assert_eq!(expand_home("~/models/./a.gguf", Some("/Users/me")), "/Users/me/models/a.gguf");
    assert_eq!(expand_home("/abs//x/", None), "/abs/x");
    assert_eq!(expand_home("./rel/x", None), "./rel/x");
    assert_eq!(expand_home("~/m", None), "m");
}

#[test]
fn presets_sorted_by_name() {
    let a = parse_preset("/p/b.ini", "").unwrap();
    let b = parse_preset("/p/a.ini", "").unwrap();
    let sorted = sort_presets_by_name(vec![a, b]);
    assert_eq!(sorted[0].name, "a");
    assert_eq!(sorted[1].name, "b");
}

#[test]
fn loaded_model_from_answer() {
    let answer = obj(vec![(
        "data",
        JsonValue::Array(vec![
            obj(vec![("id", text("idle")), ("status", obj(vec![("value", text("unloaded"))]))]),
            obj(vec![
                ("id", text("org/qwen")),
                ("status", obj(vec![("value", text("loaded"))])),
                ("meta", obj(vec![("n_ctx", JsonValue::Number(s("65536")))])),
            ]),
        ]),
    )]);
    assert_eq!(loaded_model(&answer), Some(s("org/qwen")));
    assert_eq!(loaded_ctx_window(&answer), 65536);
    assert_eq!(
        extract_field(&answer, ".data[] | select(.status.value == \"loaded\") | .id"),
        "org/qwen"
    );
    assert_eq!(
        extract_field(&answer, ".data[] | select(.status.value == \"loaded\") | .meta.n_ctx"),
        "65536"
    );
    assert_eq!(extract_field(&answer, ".other"), "");
    let none = obj(vec![("data", JsonValue::Array(vec![]))]);
    assert_eq!(loaded_model(&none), None);
    assert_eq!(loaded_ctx_window(&none), 16000);
}

#[test]
fn active_model_choice() {
    assert_eq!(active_model(None, "def", None, Some("/m/dir/model.gguf")), "model.gguf");
    assert_eq!(active_model(Some("cfg"), "def", Some(" rec "), None), "rec");
    assert_eq!(active_model(Some("  "), "def", None, None), "def");
    assert_eq!(active_model(Some("cfg"), "def", None, Some("   ")), "cfg");
    assert_eq!(provision_ctx(None), 131072);
    assert_eq!(provision_ctx(Some(4096)), 131072);
    assert_eq!(provision_ctx(Some(262144)), 262144);
}

#[test]
fn string_replacement() {
    let out = replace_str(&"a__X__b__X__".chars().collect(), &"__X__".chars().collect(), &"1".chars().collect());
    assert_eq!(out.into_iter().collect::<String>(), "a1b1");
    assert_eq!(fill_ctx_window("{\"ctx\": __CTX_WINDOW__}", 4096), "{\"ctx\": 4096}");
}

#[test]
fn placeholders_replaced_in_strings_only() {
    let v = obj(vec![("__K__", text("x __K__ y")), ("n", JsonValue::Array(vec![text("__K__")]))]);
    let out = replace_placeholders(&v, &vec![(s("__K__"), s("v"))]);
    assert_eq!(out.get("__K__").and_then(|x| x.as_str()), Some("x v y"));
    assert_eq!(out.get("n").and_then(|x| x.as_array()).and_then(|a| a[0].as_str()), Some("v"));
}

#[test]
fn object_insert_replaces_or_appends() {
    let mut es = vec![(s("a"), text("1")), (s("b"), text("2"))];
    obj_insert(&mut es, "a", text("9"));
    obj_insert(&mut es, "c", text("3"));
    let keys: Vec<&str> = es.iter().map(|(k, _)| k.as_str()).collect();
    assert_eq!(keys, vec!["a", "b", "c"]);
    assert_eq!(es[0].1.as_str(), Some("9"));
}

#[test]
fn runtime_config_points_at_the_model() {
    let template = obj(vec![
        ("model", text("old")),
        ("note", text("ctx __CTX_WINDOW__ on __LLAMA_PORT__ at __INJECTED_MOUNT_POINT__ for __DEFAULT_MODEL__")),
        ("agent", obj(vec![("build", obj(vec![("model", text("x"))])), ("plain", text("keep"))])),
        ("provider", obj(vec![("llama-cpp", obj(vec![("npm", text("pkg"))]))])),
    ]);
    let cfg = runtime_config_value(&template, "qwen", 4096, 8080, "/workspace");
    assert_eq!(cfg.get("model").and_then(|v| v.as_str()), Some("llama-cpp/qwen"));
    assert_eq!(cfg.get("small_model").and_then(|v| v.as_str()), Some("llama-cpp/qwen"));
    assert_eq!(cfg.get("note").and_then(|v| v.as_str()), Some("ctx 4096 on 8080 at /workspace for qwen"));
    let agent = cfg.get("agent").unwrap();
    assert_eq!(agent.get("build").and_then(|b| b.get("model")).and_then(|v| v.as_str()), Some("llama-cpp/qwen"));
    assert_eq!(agent.get("plain").and_then(|v| v.as_str()), Some("keep"));
    let provider = cfg.get("provider").and_then(|p| p.get("llama-cpp")).unwrap();
    assert_eq!(provider.get("npm").and_then(|v| v.as_str()), Some("pkg"));
    assert_eq!(
        provider.get("options").and_then(|o| o.get("baseURL")).and_then(|v| v.as_str()),
        Some("http://host.lima.internal:8080/v1")
    );
    let model = provider.get("models").and_then(|m| m.get("qwen")).unwrap();
    assert_eq!(model.get("context_window").and_then(|v| v.as_u64()), Some(4096));
    let not_object = runtime_config_value(&text("__DEFAULT_MODEL__"), "qwen", 1, 2, "/w");
    assert_eq!(not_object.as_str(), Some("qwen"));
}

#[test]
fn runtime_model_of_preset() {
    let p = parse_preset("/p/x.ini", "[0-qwen]\nctx-size = 8192\n").unwrap();
    assert_eq!(runtime_model(&p), Ok((s("qwen"), 8192)));
    let q = parse_preset("/p/y.ini", "[0-qwen]\n").unwrap();
    assert_eq!(runtime_model(&q), Ok((s("qwen"), 200000)));
    let empty = parse_preset("/p/z.ini", "").unwrap();
    assert_eq!(runtime_model(&empty), Err(RuntimeConfigError::NoSlots));
    assert_eq!(runtime_template_file("/h"), "/h/.config/muthr/clients/opencode-config.json");
    assert_eq!(runtime_dir("/h"), "/h/.cache/muthr/opencode_runtimes");
    assert_eq!(runtime_file_name("fast"), "opencode-runtime-fast.json");
}

#[test]
fn runtime_config_uses_default_context_window() {
    let p = parse_preset("/p/y.ini", "[0-qwen]\n").unwrap();
    let (id, ctx) = runtime_model(&p).unwrap();
    let template = obj(vec![("provider", obj(vec![("llama-cpp", obj(vec![]))]))]);
    let cfg = runtime_config_value(&template, &id, ctx, 9090, "/workspace");
    let provider = cfg.get("provider").and_then(|p| p.get("llama-cpp")).unwrap();
    assert_eq!(
        provider.get("options").and_then(|o| o.get("baseURL")).and_then(|v| v.as_str()),
        Some("http://host.lima.internal:9090/v1")
    );
    let model = provider.get("models").and_then(|m| m.get("qwen")).unwrap();
    assert_eq!(model.get("context_window").and_then(|v| v.as_u64()), Some(200000));
}
