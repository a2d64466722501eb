use muthr::audit::{audit_log_path, env_object, exec_invocation, session_exit, session_start, string_array};
use muthr::cli::{
    check_stop_options, engine_port, menu_answer, start_profile, start_profiles, CommandError, MenuAnswer,
    ProfileChoice,
};
use muthr::config::{config_template, EnvOverrides, MuthrConfig};
use muthr::json::{lookup_member, JsonValue};
use muthr::kv::KvMap;
use muthr::number::{decimal_chars, hex_chars, i64_to_string, parse_i32, parse_u16, parse_u32, parse_unsigned_bounded, u64_to_string};
use muthr::order::{chars_lt, insert_sorted, insert_sorted_u32};
use muthr::text::{
    chars_of, contains_seq_exec, find_char, lower_ascii, split_lines, split_nonempty, split_words, trim_matches_char,
    trim_str, trim_ws,
};
use muthr::ui::{list_lines, pad_text, prompt, provision_lines, table_lines, ProvisionOption};

fn s(v: &str) -> String {
    v.to_string()
}

fn strings(v: &[&str]) -> Vec<String> {
    v.iter().map(|x| x.to_string()).collect()
}

fn text(chars: Vec<char>) -> String {
    chars.into_iter().collect()
}

#[test]
fn numbers_read_as_from_str() {
    let c = |v: &str| v.chars().collect::<Vec<char>>();
    assert_eq!(parse_u16(&c("65535")), Some(65535));
    assert_eq!(parse_u16(&c("65536")), None);
    assert_eq!(parse_u16(&c("+8")), Some(8));
    assert_eq!(parse_u32(&c("")), None);
    assert_eq!(parse_u32(&c("12a")), None);
    assert_eq!(parse_i32(&c("-2147483648")), Some(i32::MIN));
    assert_eq!(parse_i32(&c("2147483648")), None);
    assert_eq!(parse_unsigned_bounded(&c("0255"), 255), Some(255));
    assert_eq!(parse_unsigned_bounded(&c("256"), 255), None);
}

#[test]
fn numbers_written_in_decimal_and_hex() {
    assert_eq!(u64_to_string(0), "0");
    assert_eq!(u64_to_string(u64::MAX), u64::MAX.to_string());
    assert_eq!(text(decimal_chars(1234567890)), "1234567890");
    assert_eq!(i64_to_string(i64::MIN), i64::MIN.to_string());
    assert_eq!(i64_to_string(-42), "-42");
    assert_eq!(text(hex_chars(0xdeadbeef, 8)), "deadbeef");
    assert_eq!(text(hex_chars(0x1f, 4)), "001f");
}

#[test]
fn decimal_round_trip() {
    for n in [0u64, 7, 10, 65535, 4294967295] {
        let t = u64_to_string(n);
        assert_eq!(parse_unsigned_bounded(&t.chars().collect(), u64::MAX), Some(n));
    }
}

#[test]
fn ordering_of_strings() {
    let c = |v: &str| v.chars().collect::<Vec<char>>();
    assert!(chars_lt(&c("a"), &c("b")));
    assert!(chars_lt(&c("ab"), &c("abc")));
    assert!(!chars_lt(&c("b"), &c("ab")));
    assert!(!chars_lt(&c("x"), &c("x")));
    let mut v: Vec<Vec<char>> = Vec::new();
    for w in ["m", "a", "z", "a"] {
        insert_sorted(&mut v, c(w));
    }
    assert_eq!(v, vec![c("a"), c("m"), c("z")]);
    let mut u: Vec<u32> = Vec::new();
    for x in [5, 1, 5, 3] {
        insert_sorted_u32(&mut u, x);
    }
    assert_eq!(u, vec![1, 3, 5]);
}

#[test]
fn text_helpers() {
    assert_eq!(text(trim_str("  a b \t\n")), "a b");
    assert_eq!(text(trim_ws(&chars_of("\u{3000}x\u{3000}"))), "x");
    assert_eq!(text(trim_matches_char(&chars_of("\"\"v\""), '"')), "v");
    let parts: Vec<String> = split_nonempty(&chars_of("/a//b/"), '/').into_iter().map(text).collect();
    assert_eq!(parts, strings(&["a", "b"]));
    let ls: Vec<String> = split_lines(&chars_of("a\r\nb\n\nc")).into_iter().map(text).collect();
    assert_eq!(ls, strings(&["a", "b", "", "c"]));
    let ws: Vec<String> = split_words(&chars_of("  x  y\tz ")).into_iter().map(text).collect();
    assert_eq!(ws, strings(&["x", "y", "z"]));
    assert_eq!(find_char(&chars_of("k=v=w"), '='), Some(1));
    assert_eq!(text(lower_ascii(&chars_of("AbÇ"))), "abÇ");
    assert!(contains_seq_exec(&chars_of("hello"), &chars_of("ll")));
    assert!(!contains_seq_exec(&chars_of("hello"), &chars_of("lo!")));
}

#[test]
fn json_access() {
    let v = JsonValue::Object(vec![
        (s("a"), JsonValue::Number(s("18446744073709551615"))),
        (s("a"), JsonValue::Str(s("second"))),
        (s("n"), JsonValue::Number(s("-1"))),
    ]);
    assert_eq!(v.get("a").and_then(|x| x.as_u64()), Some(u64::MAX));
    assert_eq!(v.get("n").and_then(|x| x.as_u64()), None);
    assert!(v.get("zz").is_none());
    if let JsonValue::Object(es) = &v {
        assert!(lookup_member(es, "n").is_some());
    }
    let c = v.copy();
    assert_eq!(c.get("a").and_then(|x| x.as_u64()), Some(u64::MAX));
}

#[test]
fn key_value_settings() {
    let mut kv = KvMap::new();
    assert_eq!(kv.get("k"), None);
    kv.insert(s("k"), s("1"));
    kv.insert(s("k"), s("2"));
    assert_eq!(kv.get("k"), Some(s("2")));
    assert!(kv.contains_key("k"));
    assert!(!kv.contains_key("K"));
}

#[test]
fn environment_overrides_configuration() {
    let mut cfg = MuthrConfig::default();
    cfg.server_port = Some(9000);
    cfg.workspace_root = Some(s("/cfg/src"));
    let env = EnvOverrides {
        server_port: Some(s("abc")),
        workspace_root: Some(s("/env/src")),
        model_dir: None,
        provision_profile: Some(s("hermes")),
        engine_runtime: None,
        engine_profile: None,
        engine_bind_host: None,
        container_host_gateway: None,
    };
    let once = cfg.with_env(&env);
    assert_eq!(once.server_port, None);
    assert_eq!(once.workspace_root, Some(s("/env/src")));
    assert_eq!(once.default_provision_profile, Some(s("hermes")));
    let twice = once.clone().with_env(&env);
    assert_eq!(twice.workspace_root, once.workspace_root);
    assert_eq!(twice.server_port, once.server_port);
    let r = once.resolve("/h");
    assert_eq!(r.server_port, 8080);
    assert_eq!(r.workspace_root, "/env/src");
    assert_eq!(r.model_dir, "/h/opt/models");
    assert_eq!(r.provision_profile, "hermes");
    let lines = r.report_lines();
    assert_eq!(lines[0], "info: server_port        8080");
    assert_eq!(lines[4], "info: engine_runtime    mlxcel");
    assert_eq!(lines[6], "info: container_gateway <auto>");
    assert!(config_template().contains("server_port = 8080"));
}

#[test]
fn command_line_decisions() {
    assert_eq!(engine_port(Some(9), Some(8)), 9);
    assert_eq!(engine_port(None, Some(8)), 8);
    assert_eq!(engine_port(None, None), 8080);
    assert_eq!(check_stop_options(true, &strings(&["muthr-a"])), Err(CommandError::AllWithNames));
    assert_eq!(check_stop_options(true, &vec![]), Ok(()));
    let profiles = start_profiles(&strings(&["opencode"]));
    assert_eq!(profiles, strings(&["base", "opencode"]));
    assert_eq!(start_profile(Some(s("x")), true, "opencode", &profiles), ProfileChoice::Use(s("x")));
    assert_eq!(start_profile(None, true, "hermes", &profiles), ProfileChoice::Use(s("base")));
    assert_eq!(start_profile(None, false, "opencode", &profiles), ProfileChoice::Use(s("opencode")));
    assert_eq!(start_profile(None, false, "hermes", &profiles), ProfileChoice::Ask);
}

#[test]
fn menu_answers() {
    assert_eq!(menu_answer(" q ", 3), MenuAnswer::Quit);
    assert_eq!(menu_answer("", 3), MenuAnswer::Quit);
    assert_eq!(menu_answer(" 2\n", 3), MenuAnswer::Pick(1));
    assert_eq!(menu_answer("0", 3), MenuAnswer::Invalid);
    assert_eq!(menu_answer("4", 3), MenuAnswer::Invalid);
    assert_eq!(menu_answer("two", 3), MenuAnswer::Invalid);
}

#[test]
fn menus_and_tables() {
    assert_eq!(list_lines(&strings(&["a", "b"])), strings(&["  1) a", "  2) b"]));
    let opts = vec![ProvisionOption { label: "opencode", description: "coding agent" }];
    assert_eq!(provision_lines(&opts), strings(&["  1) opencode — coding agent"]));
    assert_eq!(prompt("Select", 2), "Select (1-2) or q to quit: ");
    assert_eq!(pad_text("ab", 4), "ab  ");
    assert_eq!(pad_text("abcdef", 4), "abcdef");
    let lines = table_lines(&strings(&["Name", "Size"]), &vec![strings(&["qwen", "4GB"]), strings(&["m", "12GB"])]);
    assert_eq!(lines, strings(&["Name  Size", "----------", "  1) qwen  4GB ", "  2) m     12GB"]));
}

#[test]
fn audit_events() {
    assert_eq!(audit_log_path(None, "/h", 5, "muthr-p"), None);
    assert_eq!(audit_log_path(Some(" "), "/h", 1700, "muthr-p"), Some(s("/h/.cache/muthr/audit/1700-muthr-p.ndjson")));
    assert_eq!(audit_log_path(Some("/tmp/a.ndjson"), "/h", 1, "c"), Some(s("/tmp/a.ndjson")));
    let env = vec![
        (s("MUTHR_MODEL_NAME"), s("q")),
        (s("MUTHR_OPENAI_URL"), s("u")),
        (s("MUTHR_MODEL_NAME"), s("q2")),
    ];
    let start = session_start(-3, "muthr-p", "/workspace", true, false, &env, Some(&strings(&["ls"])));
    assert_eq!(start.get("event").and_then(|v| v.as_str()), Some("session_start"));
    assert!(matches!(start.get("ts"), Some(JsonValue::Number(t)) if t == "-3"));
    let audited = start.get("runtime_env").unwrap();
    assert_eq!(audited.get("MUTHR_MODEL_NAME").and_then(|v| v.as_str()), Some("q2"));
    assert!(audited.get("MUTHR_OPENAI_URL").is_none());
    assert_eq!(start.get("target_args").and_then(|v| v.as_array()).map(|a| a.len()), Some(1));
    let exec = exec_invocation(1, "muthr-p", &strings(&["exec", "x"]), false, None);
    assert_eq!(exec.get("event").and_then(|v| v.as_str()), Some("exec_invocation"));
    let exit = session_exit(2, "muthr-p", Some(-1), Some(1500));
    assert!(matches!(exit.get("exit_code"), Some(JsonValue::Number(t)) if t == "-1"));
    assert_eq!(exit.get("duration_ms").and_then(|v| v.as_u64()), Some(1500));
    let no_duration = session_exit(2, "muthr-p", None, None);
    assert!(no_duration.get("duration_ms").is_none());
    let obj = env_object(&vec![(s("A"), s("1")), (s("A"), s("2"))]);
    assert_eq!(obj.get("A").and_then(|v| v.as_str()), Some("2"));
    assert_eq!(string_array(&strings(&["x", "y"])).as_array().map(|a| a.len()), Some(2));
}
