//! Inference engine runtimes: the supported runtimes and their files, the
//! choice of runtime, model and bind host for a start, engine preset files,
//! and reading process listings to find a runtime's server processes.

use vstd::prelude::*;
use crate::kv::KvMap;
use crate::order::{insert_sorted, insert_sorted_u32, strictly_increasing, strictly_sorted};
use crate::number::{decimal, parse_bounded, parse_u32, u64_to_string};
use crate::text::{
    contains_seq, contains_seq_exec, occurs_at,
    chars_to_strings, join_range, join_with, matches_at, split_words, string_views, views, words,
    ascii_lower_seq, chars_eq, chars_of, first_index_of, find_char, lines, lower_ascii, slice_chars,
    split_lines, string_from_chars, trim, trim_char, trim_matches_char, trim_str, trim_ws,
};

verus! {

/// The files, executable and defaults of one inference runtime.
#[derive(Clone, Copy, Debug)]
pub struct EngineRuntimeSpec {
    pub name: &'static str,
    pub executable: &'static str,
    pub pid_file_name: &'static str,
    pub active_preset_file: &'static str,
    pub log_stdout: &'static str,
    pub log_stderr: &'static str,
    pub default_model_id: &'static str,
    pub default_bind_host: &'static str,
}

/// The value of an [`EngineRuntimeSpec`].
pub struct RuntimeSpecView {
    pub name: Seq<char>,
    pub executable: Seq<char>,
    pub pid_file_name: Seq<char>,
    pub active_preset_file: Seq<char>,
    pub log_stdout: Seq<char>,
    pub log_stderr: Seq<char>,
    pub default_model_id: Seq<char>,
    pub default_bind_host: Seq<char>,
}

impl View for EngineRuntimeSpec {
    type V = RuntimeSpecView;

    open spec fn view(&self) -> RuntimeSpecView {
        RuntimeSpecView {
            name: self.name@,
            executable: self.executable@,
            pid_file_name: self.pid_file_name@,
            active_preset_file: self.active_preset_file@,
            log_stdout: self.log_stdout@,
            log_stderr: self.log_stderr@,
            default_model_id: self.default_model_id@,
            default_bind_host: self.default_bind_host@,
        }
    }
}

/// The `mlxcel` runtime: `mlxcel-server`.
pub open spec fn mlxcel_view() -> RuntimeSpecView {
    RuntimeSpecView {
        name: "mlxcel"@,
        executable: "mlxcel-server"@,
        pid_file_name: "mlxcel-server.pid"@,
        active_preset_file: "active-preset-name-mlxcel"@,
        log_stdout: "mlxcel-server.log"@,
        log_stderr: "mlxcel-server-err.log"@,
        default_model_id: "mlx-community/Qwen3.5-9B-MLX-4bit"@,
        default_bind_host: "0.0.0.0"@,
    }
}

/// The `llama` runtime: `llama-server`.
pub open spec fn llama_view() -> RuntimeSpecView {
    RuntimeSpecView {
        name: "llama"@,
        executable: "llama-server"@,
        pid_file_name: "llama-server.pid"@,
        active_preset_file: "active-preset-name-llama"@,
        log_stdout: "llama-server.log"@,
        log_stderr: "llama-server-err.log"@,
        default_model_id: "unsloth/Qwen3.6-35B-A3B-GGUF/Qwen3.6-35B-A3B-UD-Q4_K_XL.gguf"@,
        default_bind_host: "0.0.0.0"@,
    }
}

/// The runtime called `name`, if it is supported.
pub open spec fn spec_runtime_spec(name: Seq<char>) -> Option<RuntimeSpecView> {
    if name == "mlxcel"@ {
        Some(mlxcel_view())
    } else if name == "llama"@ {
        Some(llama_view())
    } else {
        None
    }
}

/// The names of the supported runtimes, in the order they are tried.
pub open spec fn spec_supported_names() -> Seq<Seq<char>> {
    seq!["mlxcel"@, "llama"@]
}

/// The `mlxcel` runtime.
pub fn mlxcel_spec() -> (r: EngineRuntimeSpec)
    ensures
        r@ == mlxcel_view(),
{
    EngineRuntimeSpec {
        name: "mlxcel",
        executable: "mlxcel-server",
        pid_file_name: "mlxcel-server.pid",
        active_preset_file: "active-preset-name-mlxcel",
        log_stdout: "mlxcel-server.log",
        log_stderr: "mlxcel-server-err.log",
        default_model_id: "mlx-community/Qwen3.5-9B-MLX-4bit",
        default_bind_host: "0.0.0.0",
    }
}

/// The `llama` runtime.
pub fn llama_spec() -> (r: EngineRuntimeSpec)
    ensures
        r@ == llama_view(),
{
    EngineRuntimeSpec {
        name: "llama",
        executable: "llama-server",
        pid_file_name: "llama-server.pid",
        active_preset_file: "active-preset-name-llama",
        log_stdout: "llama-server.log",
        log_stderr: "llama-server-err.log",
        default_model_id: "unsloth/Qwen3.6-35B-A3B-GGUF/Qwen3.6-35B-A3B-UD-Q4_K_XL.gguf",
        default_bind_host: "0.0.0.0",
    }
}

/// The view of an optional runtime.
pub open spec fn opt_spec_view(o: Option<EngineRuntimeSpec>) -> Option<RuntimeSpecView> {
    match o {
        Some(s) => Some(s@),
        None => None,
    }
}

/// All supported runtimes, `mlxcel` first.
pub fn supported_runtimes() -> (r: Vec<EngineRuntimeSpec>)
    ensures
        r.len() == 2,
        r@[0]@ == mlxcel_view(),
        r@[1]@ == llama_view(),
{
    let mut v: Vec<EngineRuntimeSpec> = Vec::new();
    v.push(mlxcel_spec());
    v.push(llama_spec());
    v
}

/// The runtime called `runtime`, if it is supported.
pub fn runtime_spec(runtime: &str) -> (r: Option<EngineRuntimeSpec>)
    ensures
        opt_spec_view(r) == spec_runtime_spec(runtime@),
{
    let name = chars_of(runtime);
    if chars_eq(&name, &chars_of("mlxcel")) {
        Some(mlxcel_spec())
    } else if chars_eq(&name, &chars_of("llama")) {
        Some(llama_spec())
    } else {
        None
    }
}

/// Whether `runtime` names a supported runtime.
pub fn supports_runtime(runtime: &str) -> (r: bool)
    ensures
        r == spec_runtime_spec(runtime@) is Some,
{
    runtime_spec(runtime).is_some()
}

/// The names of the supported runtimes.
pub fn supported_runtime_names() -> (r: &'static [&'static str])
    ensures
        r@.len() == 2,
        r@[0]@ == "mlxcel"@,
        r@[1]@ == "llama"@,
{
    let names: &'static [&'static str] = &["mlxcel", "llama"];
    names
}

/// The file that records the active model of `runtime` (`mlxcel`'s for an
/// unsupported name).
pub fn active_preset_file_for_runtime(runtime: &str) -> (r: &'static str)
    ensures
        r@ == match spec_runtime_spec(runtime@) {
            Some(s) => s.active_preset_file,
            None => mlxcel_view().active_preset_file,
        },
{
    match runtime_spec(runtime) {
        Some(s) => s.active_preset_file,
        None => mlxcel_spec().active_preset_file,
    }
}

/// The model `runtime` loads when none is configured (`mlxcel`'s for an
/// unsupported name).
pub fn default_model_for_runtime(runtime: &str) -> (r: &'static str)
    ensures
        r@ == match spec_runtime_spec(runtime@) {
            Some(s) => s.default_model_id,
            None => mlxcel_view().default_model_id,
        },
{
    match runtime_spec(runtime) {
        Some(s) => s.default_model_id,
        None => mlxcel_spec().default_model_id,
    }
}

/// A name is a supported runtime exactly when it is one of the supported
/// runtime names, and the runtime it selects carries that name.
pub proof fn law_supported_names_are_the_runtimes(name: Seq<char>)
    ensures
        (spec_runtime_spec(name) is Some) <==> spec_supported_names().contains(name),
        spec_runtime_spec(name) matches Some(s) ==> s.name == name,
{
    if spec_supported_names().contains(name) {
        let i = choose|i: int| 0 <= i < 2 && spec_supported_names()[i] == name;
        assert(i == 0 || i == 1);
    }
    if name == "mlxcel"@ {
        assert(spec_supported_names()[0] == name);
    }
    if name == "llama"@ {
        assert(spec_supported_names()[1] == name);
    }
}

/// An engine preset: a named model, optionally tied to one runtime.
#[derive(Debug, Clone)]
pub struct PresetSpec {
    pub name: String,
    pub runtime: Option<String>,
    pub model: String,
}

/// The view of an optional string.
pub open spec fn opt_str(o: Option<String>) -> Option<Seq<char>> {
    match o {
        Some(s) => Some(s@),
        None => None,
    }
}

/// The setting a line of an engine preset file makes, if any: blank lines,
/// comments (`#`, `;`) and section headers make none; otherwise the part
/// before the first `=` (trimmed, in ASCII lower case) is the key and the
/// part after it (trimmed, then stripped of surrounding `"` and `'`) the
/// value, both non-empty.
pub open spec fn ini_setting(line: Seq<char>) -> Option<(Seq<char>, Seq<char>)> {
    let t = trim(line);
    if t.len() == 0 || t[0] == '#' || t[0] == ';' || (t[0] == '[' && t.last() == ']') {
        None
    } else {
        match first_index_of(t, '=') {
            None => None,
            Some(i) => {
                let key = ascii_lower_seq(trim(t.take(i)));
                let value = trim_char(trim_char(trim(t.skip(i + 1)), '"'), '\'');
                if key.len() > 0 && value.len() > 0 {
                    Some((key, value))
                } else {
                    None
                }
            },
        }
    }
}

/// The settings that a sequence of lines makes, later ones winning.
pub open spec fn ini_settings(ls: Seq<Seq<char>>) -> Map<Seq<char>, Seq<char>>
    decreases ls.len(),
{
    if ls.len() == 0 {
        Map::empty()
    } else {
        match ini_setting(ls.last()) {
            Some(kv) => ini_settings(ls.drop_last()).insert(kv.0, kv.1),
            None => ini_settings(ls.drop_last()),
        }
    }
}

fn ini_line(line: &Vec<char>) -> (r: Option<(String, String)>)
    ensures
        match r {
            Some(kv) => ini_setting(line@) == Some((kv.0@, kv.1@)),
            None => ini_setting(line@) is None,
        },
{
    let t = trim_ws(line);
    if t.len() == 0 || t[0] == '#' || t[0] == ';' || (t[0] == '[' && t[t.len() - 1] == ']') {
        return None;
    }
    match find_char(&t, '=') {
        None => None,
        Some(i) => {
            let key = lower_ascii(&trim_ws(&slice_chars(&t, 0, i)));
            assert(t@.take(i as int) =~= t@.subrange(0, i as int));
            let v0 = trim_ws(&slice_chars(&t, i + 1, t.len()));
            assert(t@.skip(i + 1) =~= t@.subrange(i + 1, t@.len() as int));
            let value = trim_matches_char(&trim_matches_char(&v0, '"'), '\'');
            if key.len() > 0 && value.len() > 0 {
                Some((string_from_chars(&key), string_from_chars(&value)))
            } else {
                None
            }
        },
    }
}

/// Reads an engine preset file's settings.
pub fn parse_ini(content: &str) -> (r: KvMap)
    ensures
        r@ == ini_settings(lines(content@)),
{
    let ls = split_lines(&chars_of(content));
    let ghost lv = crate::text::views(ls@);
    let mut map = KvMap::new();
    let mut i: usize = 0;
    assert(lv.take(0) =~= Seq::<Seq<char>>::empty());
    while i < ls.len()
        invariant
            i <= ls.len(),
            lv == crate::text::views(ls@),
            map@ == ini_settings(lv.take(i as int)),
        decreases ls.len() - i,
    {
        assert(lv.take(i + 1).drop_last() =~= lv.take(i as int));
        assert(lv[i as int] == ls@[i as int]@);
        match ini_line(&ls[i]) {
            Some((k, v)) => {
                map.insert(k, v);
            },
            None => {},
        }
        i += 1;
    }
    assert(lv.take(ls.len() as int) =~= lv);
    map
}

/// The first of `map`'s keys among `keys` that is set, with its value.
pub open spec fn first_set(map: Map<Seq<char>, Seq<char>>, keys: Seq<Seq<char>>) -> Option<Seq<char>>
    decreases keys.len(),
{
    if keys.len() == 0 {
        None
    } else if map.contains_key(keys[0]) {
        Some(map[keys[0]])
    } else {
        first_set(map, keys.drop_first())
    }
}

/// The preset a file named `name` with settings `kv` describes: its model
/// is the first of `model`, `model_id`, `profile` that is set (there is no
/// preset without one), its runtime `runtime` or else `engine_runtime`.
pub open spec fn spec_preset_from_kv(name: Seq<char>, kv: Map<Seq<char>, Seq<char>>) -> Option<
    (Seq<char>, Option<Seq<char>>, Seq<char>),
> {
    match first_set(kv, seq!["model"@, "model_id"@, "profile"@]) {
        None => None,
        Some(model) => Some((name, first_set(kv, seq!["runtime"@, "engine_runtime"@]), model)),
    }
}

/// The view of a preset: name, runtime, model.
pub open spec fn preset_view(p: PresetSpec) -> (Seq<char>, Option<Seq<char>>, Seq<char>) {
    (p.name@, opt_str(p.runtime), p.model@)
}

/// The preset that the settings `kv` of the file named `name` describe.
pub fn preset_from_kv(name: &str, kv: &KvMap) -> (r: Option<PresetSpec>)
    ensures
        match r {
            Some(p) => spec_preset_from_kv(name@, kv@) == Some(preset_view(p)),
            None => spec_preset_from_kv(name@, kv@) is None,
        },
{
    proof {
        reveal_with_fuel(first_set, 4);
        let ks = seq!["model"@, "model_id"@, "profile"@];
        assert(ks.drop_first() =~= seq!["model_id"@, "profile"@]);
        assert(ks.drop_first().drop_first() =~= seq!["profile"@]);
        assert(seq!["profile"@].drop_first() =~= Seq::<Seq<char>>::empty());
        let rs = seq!["runtime"@, "engine_runtime"@];
        assert(rs.drop_first() =~= seq!["engine_runtime"@]);
        assert(seq!["engine_runtime"@].drop_first() =~= Seq::<Seq<char>>::empty());
    }
    let model = match kv.get("model") {
        Some(m) => m,
        None => match kv.get("model_id") {
            Some(m) => m,
            None => match kv.get("profile") {
                Some(m) => m,
                None => {
                    return None;
                },
            },
        },
    };
    let runtime = match kv.get("runtime") {
        Some(r) => Some(r),
        None => kv.get("engine_runtime"),
    };
    Some(PresetSpec { name: String::from_str(name), runtime, model })
}


/// The index of the first preset named `name`.
pub open spec fn first_named(presets: Seq<PresetSpec>, name: Seq<char>, from: int) -> Option<int>
    decreases presets.len() - from,
{
    if from < 0 || from >= presets.len() {
        None
    } else if presets[from].name@ == name {
        Some(from)
    } else {
        first_named(presets, name, from + 1)
    }
}

/// The preset a profile name selects: the first preset named like the
/// trimmed profile, none for a blank profile.
pub open spec fn spec_find_preset(presets: Seq<PresetSpec>, profile: Seq<char>) -> Option<int> {
    if trim(profile).len() == 0 {
        None
    } else {
        first_named(presets, trim(profile), 0)
    }
}

/// Finds the preset that `profile` selects among `presets`.
pub fn find_preset(presets: &Vec<PresetSpec>, profile: &str) -> (r: Option<usize>)
    ensures
        match r {
            Some(i) => i < presets.len() && spec_find_preset(presets@, profile@) == Some(i as int),
            None => spec_find_preset(presets@, profile@) is None,
        },
{
    let t = trim_str(profile);
    if t.len() == 0 {
        return None;
    }
    let mut i: usize = 0;
    while i < presets.len()
        invariant
            i <= presets.len(),
            t@ == trim(profile@),
            t.len() > 0,
            first_named(presets@, t@, 0) == first_named(presets@, t@, i as int),
        decreases presets.len() - i,
    {
        if chars_eq(&chars_of(presets[i].name.as_str()), &t) {
            assert(presets@[i as int].name@ == t@);
            return Some(i);
        }
        i += 1;
    }
    None
}

/// Why no runtime could be chosen.
#[derive(Debug, Clone, PartialEq, Eq)]
pub enum RuntimeError {
    /// The runtime asked for, or configured, is not supported.
    Unsupported { runtime: String },
    /// The preset a profile selects declares an unsupported runtime.
    PresetUnsupported { preset: String, runtime: String },
}

/// The value of a [`RuntimeError`].
pub enum RuntimeErrorView {
    Unsupported { runtime: Seq<char> },
    PresetUnsupported { preset: Seq<char>, runtime: Seq<char> },
}

impl View for RuntimeError {
    type V = RuntimeErrorView;

    open spec fn view(&self) -> RuntimeErrorView {
        match self {
            RuntimeError::Unsupported { runtime } => RuntimeErrorView::Unsupported { runtime: runtime@ },
            RuntimeError::PresetUnsupported { preset, runtime } => RuntimeErrorView::PresetUnsupported {
                preset: preset@,
                runtime: runtime@,
            },
        }
    }
}

/// The view of a result that carries a string.
pub open spec fn string_result_view(r: Result<String, RuntimeError>) -> Result<Seq<char>, RuntimeErrorView> {
    match r {
        Ok(s) => Ok(s@),
        Err(e) => Err(e@),
    }
}

/// `name` if it is a supported runtime, the refusal otherwise.
pub open spec fn checked_runtime(name: Seq<char>) -> Result<Seq<char>, RuntimeErrorView> {
    if spec_runtime_spec(name) is Some {
        Ok(name)
    } else {
        Err(RuntimeErrorView::Unsupported { runtime: name })
    }
}

/// The runtime an engine command uses: the runtime asked for; else the
/// runtime declared by the preset the profile selects; else the configured
/// runtime; else `mlxcel`. Whichever decides must be supported.
pub open spec fn spec_resolve_runtime(
    runtime_flag: Option<Seq<char>>,
    configured: Option<Seq<char>>,
    profile: Option<Seq<char>>,
    presets: Seq<PresetSpec>,
) -> Result<Seq<char>, RuntimeErrorView> {
    match runtime_flag {
        Some(r) => checked_runtime(r),
        None => {
            let declared = match profile {
                Some(p) => match spec_find_preset(presets, p) {
                    Some(i) => opt_str(presets[i].runtime),
                    None => None,
                },
                None => None,
            };
            match declared {
                Some(rt) => if spec_runtime_spec(rt) is Some {
                    Ok(rt)
                } else {
                    Err(RuntimeErrorView::PresetUnsupported { preset: profile.unwrap(), runtime: rt })
                },
                None => checked_runtime(
                    match configured {
                        Some(c) => c,
                        None => "mlxcel"@,
                    },
                ),
            }
        },
    }
}

/// The runtime declared by the preset the profile selects, if it selects
/// one that declares a runtime.
pub open spec fn declared_runtime(presets: Seq<PresetSpec>, profile: Option<Seq<char>>) -> Option<Seq<char>> {
    match profile {
        Some(p) => match spec_find_preset(presets, p) {
            Some(i) => opt_str(presets[i].runtime),
            None => None,
        },
        None => None,
    }
}

/// Choosing a runtime. A runtime asked for decides alone: it is used when
/// supported and refused otherwise. Without one, a runtime declared by the
/// selected preset decides in the same way, whatever is configured.
/// Otherwise the configured runtime is used when supported and refused
/// otherwise, and `mlxcel` when none is configured. So the presets count
/// only through the runtime the selected preset declares: two lists of
/// presets that declare the same give the same choice.
pub proof fn law_runtime_choice(
    runtime_flag: Option<Seq<char>>,
    configured: Option<Seq<char>>,
    profile: Option<Seq<char>>,
    presets: Seq<PresetSpec>,
    other_presets: Seq<PresetSpec>,
)
    ensures
        runtime_flag matches Some(r) ==> spec_resolve_runtime(runtime_flag, configured, profile, presets) == if spec_runtime_spec(r) is Some {
            Ok::<Seq<char>, RuntimeErrorView>(r)
        } else {
            Err(RuntimeErrorView::Unsupported { runtime: r })
        },
        runtime_flag is None ==> match declared_runtime(presets, profile) {
            Some(rt) => spec_resolve_runtime(runtime_flag, configured, profile, presets) == if spec_runtime_spec(
                rt,
            ) is Some {
                Ok::<Seq<char>, RuntimeErrorView>(rt)
            } else {
                Err(RuntimeErrorView::PresetUnsupported { preset: profile.unwrap(), runtime: rt })
            },
            None => true,
        },
        runtime_flag is None && declared_runtime(presets, profile) is None ==> spec_resolve_runtime(
            runtime_flag,
            configured,
            profile,
            presets,
        ) == match configured {
            Some(c) => if spec_runtime_spec(c) is Some {
                Ok::<Seq<char>, RuntimeErrorView>(c)
            } else {
                Err(RuntimeErrorView::Unsupported { runtime: c })
            },
            None => Ok::<Seq<char>, RuntimeErrorView>("mlxcel"@),
        },
        declared_runtime(presets, profile) == declared_runtime(other_presets, profile) ==> spec_resolve_runtime(
            runtime_flag,
            configured,
            profile,
            presets,
        ) == spec_resolve_runtime(runtime_flag, configured, profile, other_presets),
{
    reveal_strlit("mlxcel");
}

fn check_runtime(name: String) -> (r: Result<String, RuntimeError>)
    ensures
        string_result_view(r) == checked_runtime(name@),
{
    if supports_runtime(name.as_str()) {
        Ok(name)
    } else {
        Err(RuntimeError::Unsupported { runtime: name })
    }
}

/// Chooses the runtime for an engine command, given the presets found.
pub fn resolve_runtime_for_profile(
    runtime_flag: Option<String>,
    configured_runtime: Option<String>,
    profile: Option<&str>,
    presets: &Vec<PresetSpec>,
) -> (r: Result<String, RuntimeError>)
    ensures
        string_result_view(r) == spec_resolve_runtime(
            opt_str(runtime_flag),
            opt_str(configured_runtime),
            match profile {
                Some(p) => Some(p@),
                None => None,
            },
            presets@,
        ),
{
    if let Some(runtime) = runtime_flag {
        return check_runtime(runtime);
    }
    if let Some(profile_name) = profile {
        if let Some(i) = find_preset(presets, profile_name) {
            if let Some(runtime) = &presets[i].runtime {
                if supports_runtime(runtime.as_str()) {
                    return Ok(runtime.clone());
                }
                return Err(
                    RuntimeError::PresetUnsupported {
                        preset: String::from_str(profile_name),
                        runtime: runtime.clone(),
                    },
                );
            }
        }
    }
    let runtime = match configured_runtime {
        Some(c) => c,
        None => String::from_str("mlxcel"),
    };
    check_runtime(runtime)
}

/// The trimmed value, unless it is blank.
pub open spec fn nonblank(o: Option<Seq<char>>) -> Option<Seq<char>> {
    match o {
        Some(v) => if trim(v).len() > 0 {
            Some(trim(v))
        } else {
            None
        },
        None => None,
    }
}

fn nonblank_exec(o: &Option<String>) -> (r: Option<Vec<char>>)
    ensures
        match r {
            Some(v) => nonblank(opt_str(*o)) == Some(v@),
            None => nonblank(opt_str(*o)) is None,
        },
{
    match o {
        Some(v) => {
            let t = trim_str(v.as_str());
            if t.len() > 0 {
                Some(t)
            } else {
                None
            }
        },
        None => None,
    }
}

/// The model an engine start loads: the non-blank profile asked for (the
/// model of the preset it selects, else the profile itself); else the
/// non-blank configured profile; else the runtime's default model.
pub open spec fn spec_resolve_model_id(
    spec: RuntimeSpecView,
    profile: Option<Seq<char>>,
    presets: Seq<PresetSpec>,
    configured: Option<Seq<char>>,
) -> Seq<char> {
    match nonblank(profile) {
        Some(p) => match spec_find_preset(presets, p) {
            Some(i) => presets[i].model@,
            None => p,
        },
        None => match nonblank(configured) {
            Some(c) => c,
            None => spec.default_model_id,
        },
    }
}

/// Chooses the model an engine start loads.
pub fn resolve_model_id_for_runtime(
    spec: EngineRuntimeSpec,
    profile: Option<String>,
    presets: &Vec<PresetSpec>,
    configured_profile: Option<String>,
) -> (r: String)
    ensures
        r@ == spec_resolve_model_id(spec@, opt_str(profile), presets@, opt_str(configured_profile)),
{
    match nonblank_exec(&profile) {
        Some(p) => {
            let ps = string_from_chars(&p);
            match find_preset(presets, ps.as_str()) {
                Some(i) => presets[i].model.clone(),
                None => ps,
            }
        },
        None => match nonblank_exec(&configured_profile) {
            Some(c) => string_from_chars(&c),
            None => String::from_str(spec.default_model_id),
        },
    }
}

/// The host an engine server binds: the non-blank host asked for, else the
/// non-blank configured host, else the runtime's default.
pub open spec fn spec_resolve_bind_host(
    spec: RuntimeSpecView,
    bind_host: Option<Seq<char>>,
    configured: Option<Seq<char>>,
) -> Seq<char> {
    match nonblank(bind_host) {
        Some(h) => h,
        None => match nonblank(configured) {
            Some(h) => h,
            None => spec.default_bind_host,
        },
    }
}

/// Chooses the host an engine server binds.
pub fn resolve_bind_host(
    spec: EngineRuntimeSpec,
    bind_host: Option<String>,
    configured_bind_host: Option<String>,
) -> (r: String)
    ensures
        r@ == spec_resolve_bind_host(spec@, opt_str(bind_host), opt_str(configured_bind_host)),
{
    match nonblank_exec(&bind_host) {
        Some(h) => string_from_chars(&h),
        None => match nonblank_exec(&configured_bind_host) {
            Some(h) => string_from_chars(&h),
            None => String::from_str(spec.default_bind_host),
        },
    }
}

/// A process with command name `comm` and arguments `args` is a server of
/// the runtime: its command is the executable, or its arguments hold the
/// executable after a space or a slash.
pub open spec fn spec_matches_runtime_process(spec: RuntimeSpecView, comm: Seq<char>, args: Seq<char>) -> bool {
    comm == spec.executable || contains_seq(args, " "@ + spec.executable) || contains_seq(
        args,
        "/"@ + spec.executable,
    )
}

/// Whether a process is a server of the runtime.
pub fn matches_runtime_process(spec: EngineRuntimeSpec, comm: &str, args: &str) -> (r: bool)
    ensures
        r == spec_matches_runtime_process(spec@, comm@, args@),
{
    let exe = chars_of(spec.executable);
    let a = chars_of(args);
    let mut with_space = chars_of(" ");
    crate::text::push_all(&mut with_space, &exe);
    let mut with_slash = chars_of("/");
    crate::text::push_all(&mut with_slash, &exe);
    chars_eq(&chars_of(comm), &exe) || contains_seq_exec(&a, &with_space) || contains_seq_exec(&a, &with_slash)
}

/// The process id a line of `ps -axo pid=,comm=,args=` reports for the
/// runtime: its first word parsed as a `u32`, when its second word and the
/// rest of its words, joined by spaces, match the runtime.
pub open spec fn ps_line_pid(spec: RuntimeSpecView, line: Seq<char>) -> Option<nat> {
    let w = words(trim(line));
    if w.len() < 2 {
        None
    } else {
        match parse_bounded(w[0], u32::MAX as nat) {
            Some(pid) => if spec_matches_runtime_process(spec, w[1], join_with(w.skip(2), " "@)) {
                Some(pid)
            } else {
                None
            },
            None => None,
        }
    }
}

/// The process ids that some line of a listing reports for the runtime.
pub open spec fn listed_pids(spec: RuntimeSpecView, ls: Seq<Seq<char>>) -> Set<u32> {
    Set::new(|p: u32| exists|j: int| 0 <= j < ls.len() && ps_line_pid(spec, #[trigger] ls[j]) == Some(p as nat))
}

/// The runtime's server processes in a `ps -axo pid=,comm=,args=` listing,
/// in increasing order, each once.
pub fn runtime_pids_from_listing(spec: EngineRuntimeSpec, listing: &str) -> (r: Vec<u32>)
    ensures
        strictly_increasing(r@),
        r@.to_set() == listed_pids(spec@, lines(listing@)),
{
    let ls = split_lines(&chars_of(listing));
    let ghost lv = views(ls@);
    let mut pids: Vec<u32> = Vec::new();
    let mut i: usize = 0;
    assert(pids@.to_set() =~= Set::<u32>::empty());
    while i < ls.len()
        invariant
            i <= ls.len(),
            lv == views(ls@),
            strictly_increasing(pids@),
            pids@.to_set() == listed_pids(spec@, lv.take(i as int)),
        decreases ls.len() - i,
    {
        assert(lv[i as int] == ls@[i as int]@);
        let t = trim_ws(&ls[i]);
        let w = split_words(&t);
        let mut found: Option<u32> = None;
        if w.len() >= 2 {
            if let Some(pid) = parse_u32(&w[0]) {
                let args = join_range(&w, 2, w.len(), &chars_of(" "));
                assert(views(w@).subrange(2, w@.len() as int) =~= views(w@).skip(2));
                let comm = string_from_chars(&w[1]);
                let args_s = string_from_chars(&args);
                if matches_runtime_process(spec, comm.as_str(), args_s.as_str()) {
                    found = Some(pid);
                }
            }
        }
        assert(found matches Some(p) ==> ps_line_pid(spec@, lv[i as int]) == Some(p as nat));
        assert(found is None ==> ps_line_pid(spec@, lv[i as int]) is None);
        let ghost before = pids@.to_set();
        if let Some(pid) = found {
            insert_sorted_u32(&mut pids, pid);
        }
        proof {
            let next = lv.take(i + 1);
            assert forall|p: u32| (before.contains(p) || found == Some(p)) implies listed_pids(spec@, next).contains(p) by {
                if before.contains(p) {
                    let j = choose|j: int| 0 <= j < i && ps_line_pid(spec@, #[trigger] lv.take(i as int)[j]) == Some(p as nat);
                    assert(next[j] == lv.take(i as int)[j]);
                } else if found == Some(p) {
                    assert(next[i as int] == lv[i as int]);
                }
            }
            assert forall|p: u32| listed_pids(spec@, next).contains(p) implies (before.contains(p) || found == Some(p)) by {
                let j = choose|j: int| 0 <= j < i + 1 && ps_line_pid(spec@, #[trigger] next[j]) == Some(p as nat);
                if j < i {
                    assert(lv.take(i as int)[j] == next[j]);
                } else {
                    assert(next[j] == lv[i as int]);
                }
            }
            if let Some(q) = found {
                assert(pids@.to_set() =~= listed_pids(spec@, next));
            } else {
                assert(pids@.to_set() =~= listed_pids(spec@, next));
            }
        }
        i += 1;
    }
    assert(lv.take(ls.len() as int) =~= lv);
    pids
}

/// A line of `ps -p PID -o comm= -o args=` shows a server of the runtime:
/// the trimmed line splits at its first space into the command (trimmed)
/// and the arguments, and they match the runtime.
pub open spec fn ps_detail_line_matches(spec: RuntimeSpecView, line: Seq<char>) -> bool {
    let t = trim(line);
    match first_index_of(t, ' ') {
        None => false,
        Some(i) => spec_matches_runtime_process(spec, trim(t.take(i)), t.skip(i + 1)),
    }
}

/// Whether the `ps -p PID -o comm= -o args=` output shows a server of the
/// runtime on some line.
pub fn listing_shows_runtime(spec: EngineRuntimeSpec, listing: &str) -> (r: bool)
    ensures
        r == exists|j: int| 0 <= j < lines(listing@).len() && ps_detail_line_matches(spec@, #[trigger] lines(listing@)[j]),
{
    let ls = split_lines(&chars_of(listing));
    let ghost lv = views(ls@);
    let mut i: usize = 0;
    while i < ls.len()
        invariant
            i <= ls.len(),
            lv == views(ls@),
            lv == lines(listing@),
            forall|j: int| 0 <= j < i ==> !ps_detail_line_matches(spec@, #[trigger] lv[j]),
        decreases ls.len() - i,
    {
        assert(lv[i as int] == ls@[i as int]@);
        let t = trim_ws(&ls[i]);
        if let Some(k) = find_char(&t, ' ') {
            let comm = trim_ws(&slice_chars(&t, 0, k));
            let args = slice_chars(&t, k + 1, t.len());
            assert(t@.take(k as int) =~= t@.subrange(0, k as int));
            assert(t@.skip(k + 1) =~= t@.subrange(k + 1, t@.len() as int));
            let c = string_from_chars(&comm);
            let a = string_from_chars(&args);
            if matches_runtime_process(spec, c.as_str(), a.as_str()) {
                return true;
            }
        }
        i += 1;
    }
    false
}

/// The arguments an engine server is started with.
pub open spec fn spec_server_args(model_id: Seq<char>, host: Seq<char>, port: u16) -> Seq<Seq<char>> {
    seq!["--model"@, model_id, "--host"@, host, "--port"@, decimal(port as nat)]
}

/// The arguments of the runtime's executable for serving `model_id` on
/// `host:port`.
pub fn server_args(model_id: &str, host: &str, port: u16) -> (r: Vec<String>)
    ensures
        string_views(r@) == spec_server_args(model_id@, host@, port),
{
    let mut v: Vec<String> = Vec::new();
    v.push(String::from_str("--model"));
    v.push(String::from_str(model_id));
    v.push(String::from_str("--host"));
    v.push(String::from_str(host));
    v.push(String::from_str("--port"));
    v.push(u64_to_string(port as u64));
    assert(string_views(v@) =~= spec_server_args(model_id@, host@, port));
    v
}


/// A preset belongs to the runtime called `name`: it declares that runtime,
/// or none.
pub open spec fn preset_for_runtime(p: PresetSpec, name: Seq<char>) -> bool {
    match p.runtime {
        Some(r) => r@ == name,
        None => true,
    }
}

/// The models listed for a runtime: its default model and the model of
/// every preset that belongs to it.
pub open spec fn spec_preset_models(name: Seq<char>, default_model: Seq<char>, presets: Seq<PresetSpec>) -> Set<
    Seq<char>,
> {
    Set::new(
        |m: Seq<char>|
            m == default_model || exists|i: int|
                0 <= i < presets.len() && preset_for_runtime(presets[i], name) && #[trigger] presets[i].model@
                    == m,
    )
}

/// The model ids of a listing.
pub open spec fn listed_ids(v: Seq<(String, String)>) -> Seq<Seq<char>> {
    v.map_values(|e: (String, String)| e.0@)
}

/// The models of `runtime` (its default model being the configured engine
/// profile, else the runtime's own default) in increasing order, each once,
/// with the runtime's name.
pub fn presets_for_runtime(
    runtime: &str,
    default_engine_profile: Option<String>,
    presets: &Vec<PresetSpec>,
) -> (r: Result<Vec<(String, String)>, RuntimeError>)
    ensures
        match spec_runtime_spec(runtime@) {
            None => r matches Err(e) && e@ == (RuntimeErrorView::Unsupported { runtime: runtime@ }),
            Some(spec) => r matches Ok(v) && strictly_sorted(listed_ids(v@)) && listed_ids(v@).to_set()
                == spec_preset_models(
                spec.name,
                match default_engine_profile {
                    Some(p) => p@,
                    None => spec.default_model_id,
                },
                presets@,
            ) && forall|i: int| 0 <= i < v@.len() ==> (#[trigger] v@[i]).1@ == spec.name,
        },
{
    let spec = match runtime_spec(runtime) {
        Some(s) => s,
        None => {
            return Err(RuntimeError::Unsupported { runtime: String::from_str(runtime) });
        },
    };
    let default_model = match default_engine_profile {
        Some(p) => p,
        None => String::from_str(spec.default_model_id),
    };
    let name = chars_of(spec.name);
    let mut models: Vec<Vec<char>> = Vec::new();
    let ghost target = spec_preset_models(spec@.name, default_model@, presets@);
    insert_sorted(&mut models, chars_of(default_model.as_str()));
    assert(views(models@).to_set() =~= Set::<Seq<char>>::empty().insert(default_model@)) by {
        assert(views(Seq::<Vec<char>>::empty()).to_set() =~= Set::<Seq<char>>::empty());
    }
    let mut i: usize = 0;
    while i < presets.len()
        invariant
            i <= presets.len(),
            name@ == spec@.name,
            strictly_sorted(views(models@)),
            views(models@).to_set() == Set::new(
                |m: Seq<char>|
                    m == default_model@ || exists|j: int|
                        0 <= j < i && preset_for_runtime(presets@[j], spec@.name) && #[trigger] presets@[j].model@
                            == m,
            ),
        decreases presets.len() - i,
    {
        let belongs = match &presets[i].runtime {
            Some(r) => chars_eq(&chars_of(r.as_str()), &name),
            None => true,
        };
        let ghost before = views(models@).to_set();
        if belongs {
            insert_sorted(&mut models, chars_of(presets[i].model.as_str()));
        }
        i += 1;
        proof {
            let now = Set::new(
                |m: Seq<char>|
                    m == default_model@ || exists|j: int|
                        0 <= j < i && preset_for_runtime(presets@[j], spec@.name) && #[trigger] presets@[j].model@
                            == m,
            );
            assert(views(models@).to_set() =~= now) by {
                assert forall|m: Seq<char>| now.contains(m) implies views(models@).to_set().contains(m) by {
                    if m != default_model@ {
                        let j = choose|j: int|
                            0 <= j < i && preset_for_runtime(presets@[j], spec@.name) && #[trigger] presets@[j].model@
                                == m;
                        if j < i - 1 {
                            assert(before.contains(m));
                        }
                    }
                }
                assert forall|m: Seq<char>| views(models@).to_set().contains(m) implies now.contains(m) by {
                    if !before.contains(m) {
                        assert(m == presets@[i - 1].model@);
                    } else if m != default_model@ {
                        let j = choose|j: int|
                            0 <= j < i - 1 && preset_for_runtime(presets@[j], spec@.name) && #[trigger] presets@[j].model@
                                == m;
                    }
                }
            }
        }
    }
    assert(views(models@).to_set() =~= target);
    let mut out: Vec<(String, String)> = Vec::new();
    let mut k: usize = 0;
    while k < models.len()
        invariant
            k <= models.len(),
            out@.len() == k,
            forall|j: int| 0 <= j < k ==> (#[trigger] out@[j]).0@ == models@[j]@ && out@[j].1@ == spec@.name,
        decreases models.len() - k,
    {
        out.push((string_from_chars(&models[k]), String::from_str(spec.name)));
        k += 1;
    }
    assert(listed_ids(out@) =~= views(models@));
    Ok(out)
}


/// The model listing for the configured runtime (`mlxcel` when none is
/// configured), as [`presets_for_runtime`] makes it.
pub fn presets(config: &crate::config::MuthrConfig, found: &Vec<PresetSpec>) -> (r: Result<
    Vec<(String, String)>,
    RuntimeError,
>)
    ensures
        ({
            let runtime = match config.default_engine_runtime {
                Some(r) => r@,
                None => "mlxcel"@,
            };
            match spec_runtime_spec(runtime) {
                None => r matches Err(e) && e@ == (RuntimeErrorView::Unsupported { runtime }),
                Some(spec) => r matches Ok(v) && strictly_sorted(listed_ids(v@)) && listed_ids(v@).to_set()
                    == spec_preset_models(
                    spec.name,
                    match config.default_engine_profile {
                        Some(p) => p@,
                        None => spec.default_model_id,
                    },
                    found@,
                ) && forall|i: int| 0 <= i < v@.len() ==> (#[trigger] v@[i]).1@ == spec.name,
            }
        }),
{
    let runtime = match &config.default_engine_runtime {
        Some(r) => r.as_str(),
        None => "mlxcel",
    };
    let profile = match &config.default_engine_profile {
        Some(p) => Some(p.clone()),
        None => None,
    };
    presets_for_runtime(runtime, profile, found)
}

/// The process id a pid file records: its trimmed content as a `u32`.
pub fn pid_from_file(content: &str) -> (r: Option<u32>)
    ensures
        match r {
            Some(p) => parse_bounded(trim(content@), u32::MAX as nat) == Some(p as nat),
            None => parse_bounded(trim(content@), u32::MAX as nat) is None,
        },
{
    parse_u32(&trim_str(content))
}

/// The processes `engine stop` stops: the pid file's process when it is a
/// server of the runtime, then each server process found that is not
/// already listed.
pub open spec fn spec_stop_targets(from_file: Option<u32>, found: Seq<u32>) -> Seq<u32>
    decreases found.len(),
{
    if found.len() == 0 {
        match from_file {
            Some(p) => seq![p],
            None => Seq::empty(),
        }
    } else {
        let prev = spec_stop_targets(from_file, found.drop_last());
        if prev.contains(found.last()) {
            prev
        } else {
            prev.push(found.last())
        }
    }
}

/// `engine stop` stops every server process found and the pid file's
/// process, each once, the pid file's process first.
pub proof fn law_stop_targets_complete(from_file: Option<u32>, found: Seq<u32>)
    ensures
        forall|i: int| 0 <= i < found.len() ==> spec_stop_targets(from_file, found).contains(#[trigger] found[i]),
        forall|p: u32| #[trigger] spec_stop_targets(from_file, found).contains(p) ==> found.contains(p) || from_file == Some(p),
        forall|i: int, j: int|
            0 <= i < j < spec_stop_targets(from_file, found).len() ==> spec_stop_targets(from_file, found)[i]
                != spec_stop_targets(from_file, found)[j],
        from_file matches Some(p) ==> spec_stop_targets(from_file, found)[0] == p,
    decreases found.len(),
{
    if found.len() > 0 {
        let d = found.drop_last();
        law_stop_targets_complete(from_file, d);
        let prev = spec_stop_targets(from_file, d);
        let r = spec_stop_targets(from_file, found);
        assert forall|i: int| 0 <= i < found.len() implies r.contains(#[trigger] found[i]) by {
            if i < found.len() - 1 {
                assert(d[i] == found[i]);
                assert(prev.contains(d[i]));
                let k = choose|k: int| 0 <= k < prev.len() && prev[k] == d[i];
                assert(r[k] == prev[k]);
            } else if !prev.contains(found.last()) {
                assert(r[r.len() - 1] == found.last());
            }
        }
        assert forall|p: u32| #[trigger] r.contains(p) implies found.contains(p) || from_file == Some(p) by {
            let k = choose|k: int| 0 <= k < r.len() && r[k] == p;
            if k < prev.len() {
                assert(prev[k] == p);
                assert(prev.contains(p));
                if d.contains(p) {
                    let m = choose|m: int| 0 <= m < d.len() && d[m] == p;
                    assert(found[m] == p);
                }
            } else {
                assert(found[found.len() - 1] == p);
            }
        }
        if from_file is Some {
            assert(prev.len() > 0) by {
                assert(prev.contains(from_file.unwrap()) || prev.len() > 0);
            }
        }
    }
}

/// The processes `engine stop` stops.
pub fn stop_targets(from_file: Option<u32>, found: &Vec<u32>) -> (r: Vec<u32>)
    ensures
        r@ == spec_stop_targets(from_file, found@),
{
    let mut out: Vec<u32> = Vec::new();
    if let Some(p) = from_file {
        out.push(p);
    }
    let mut i: usize = 0;
    assert(found@.take(0) =~= Seq::<u32>::empty());
    assert(out@ =~= spec_stop_targets(from_file, Seq::<u32>::empty()));
    while i < found.len()
        invariant
            i <= found.len(),
            out@ == spec_stop_targets(from_file, found@.take(i as int)),
        decreases found.len() - i,
    {
        assert(found@.take(i + 1).drop_last() =~= found@.take(i as int));
        let x = found[i];
        let mut seen = false;
        let mut j: usize = 0;
        while j < out.len()
            invariant
                j <= out.len(),
                seen == exists|q: int| 0 <= q < j && out@[q] == x,
            decreases out.len() - j,
        {
            if out[j] == x {
                seen = true;
            }
            j += 1;
        }
        if !seen {
            out.push(x);
        }
        i += 1;
    }
    assert(found@.take(found.len() as int) =~= found@);
    out
}

/// The target of a signal to a server process: its process group (as a
/// negative id) when it has one, else the process itself.
pub open spec fn spec_kill_target(pid: u32, pgid: i32) -> i32 {
    if pgid > 0 {
        (-pgid) as i32
    } else {
        pid as i32
    }
}

/// The target of a signal to a server process.
pub fn kill_target(pid: u32, pgid: i32) -> (r: i32)
    ensures
        r == spec_kill_target(pid, pgid),
{
    if pgid > 0 {
        -pgid
    } else {
        #[verifier::truncate]
        (pid as i32)
    }
}

/// A signal a foreground server is sent.
#[derive(Debug, Clone, Copy, PartialEq, Eq)]
pub enum Forward {
    /// Ask it to stop.
    Terminate,
    /// Kill it.
    Kill,
}

/// What a foreground start does on SIGTERM or SIGINT: the first asks the
/// server to stop, a later one kills it; nothing when the server's pid is
/// unknown (0). Returns the signal and whether a stop was requested.
pub open spec fn spec_forward_signal(child_pid: u32, stop_requested: bool) -> (Option<Forward>, bool) {
    if child_pid == 0 {
        (None, stop_requested)
    } else if !stop_requested {
        (Some(Forward::Terminate), true)
    } else {
        (Some(Forward::Kill), true)
    }
}

/// Decides what to forward to a foreground server on a signal.
pub fn forward_signal(child_pid: u32, stop_requested: bool) -> (r: (Option<Forward>, bool))
    ensures
        r == spec_forward_signal(child_pid, stop_requested),
{
    if child_pid == 0 {
        (None, stop_requested)
    } else if !stop_requested {
        (Some(Forward::Terminate), true)
    } else {
        (Some(Forward::Kill), true)
    }
}

/// A server is asked once and then killed: after the first signal every
/// further one kills.
pub proof fn law_second_signal_kills(child_pid: u32)
    requires
        child_pid != 0,
    ensures
        spec_forward_signal(child_pid, false) == (Some(Forward::Terminate), true),
        spec_forward_signal(child_pid, spec_forward_signal(child_pid, false).1).0 == Some(Forward::Kill),
{
}

/// How many half-second waits for a process to stop before it is killed.
pub fn stop_wait_polls() -> (r: u32)
    ensures
        r == 30,
{
    30
}

/// A path under the runtime cache directory `<home>/.cache/muthr`.
pub open spec fn spec_cache_file(home: Seq<char>, file: Seq<char>) -> Seq<char> {
    home + "/.cache/muthr/"@ + file
}

/// A path under the runtime cache directory.
pub fn cache_file(home: &str, file: &str) -> (r: String)
    ensures
        r@ == spec_cache_file(home@, file@),
{
    let mut s = String::from_str(home);
    s.append("/.cache/muthr/");
    s.append(file);
    s
}

impl crate::order::Keyed for PresetSpec {
    open spec fn key_view(&self) -> Seq<char> {
        self.name@
    }

    fn key_chars(&self) -> (r: Vec<char>) {
        chars_of(self.name.as_str())
    }
}

/// The presets found, sorted by name (stably).
pub fn sort_presets(found: Vec<PresetSpec>) -> (r: Vec<PresetSpec>)
    ensures
        r@ == crate::order::sort_keyed(found@),
{
    crate::order::stable_sort_by_key(found)
}

} // verus!
