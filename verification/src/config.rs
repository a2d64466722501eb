//! The `muthr.toml` configuration: its fields, the environment variables
//! that override them, and the values that apply when a field is unset.

use vstd::prelude::*;
use crate::number::parse_u16;
use crate::text::chars_of;

verus! {

/// `muthr config` subcommands.
#[derive(Debug, Clone, Copy, PartialEq, Eq)]
pub enum ConfigCommands {
    /// Write a default `muthr.toml` (over an existing one with `force`).
    Init { force: bool },
    /// Print the configuration in effect.
    Show,
}

/// The settings of `muthr.toml`; every field is optional.
#[derive(Debug, Clone)]
pub struct MuthrConfig {
    pub server_port: Option<u16>,
    pub workspace_root: Option<String>,
    pub model_dir: Option<String>,
    pub default_provision_profile: Option<String>,
    pub default_engine_runtime: Option<String>,
    pub default_engine_profile: Option<String>,
    pub default_engine_bind_host: Option<String>,
    pub container_host_gateway: Option<String>,
}

/// The value of a [`MuthrConfig`].
pub struct ConfigView {
    pub server_port: Option<u16>,
    pub workspace_root: Option<Seq<char>>,
    pub model_dir: Option<Seq<char>>,
    pub default_provision_profile: Option<Seq<char>>,
    pub default_engine_runtime: Option<Seq<char>>,
    pub default_engine_profile: Option<Seq<char>>,
    pub default_engine_bind_host: Option<Seq<char>>,
    pub container_host_gateway: Option<Seq<char>>,
}

/// The view of an optional string.
pub open spec fn opt_view(o: Option<String>) -> Option<Seq<char>> {
    match o {
        Some(s) => Some(s@),
        None => None,
    }
}

impl View for MuthrConfig {
    type V = ConfigView;

    open spec fn view(&self) -> ConfigView {
        ConfigView {
            server_port: self.server_port,
            workspace_root: opt_view(self.workspace_root),
            model_dir: opt_view(self.model_dir),
            default_provision_profile: opt_view(self.default_provision_profile),
            default_engine_runtime: opt_view(self.default_engine_runtime),
            default_engine_profile: opt_view(self.default_engine_profile),
            default_engine_bind_host: opt_view(self.default_engine_bind_host),
            container_host_gateway: opt_view(self.container_host_gateway),
        }
    }
}

impl Default for MuthrConfig {
    fn default() -> (c: MuthrConfig)
        ensures
            c.server_port is None,
            c.workspace_root is None,
            c.model_dir is None,
            c.default_provision_profile is None,
            c.default_engine_runtime is None,
            c.default_engine_profile is None,
            c.default_engine_bind_host is None,
            c.container_host_gateway is None,
    {
        MuthrConfig {
            server_port: None,
            workspace_root: None,
            model_dir: None,
            default_provision_profile: None,
            default_engine_runtime: None,
            default_engine_profile: None,
            default_engine_bind_host: None,
            container_host_gateway: None,
        }
    }
}

/// The values of the environment variables that override the
/// configuration (`None` where a variable is unset).
#[derive(Debug, Clone, Default)]
pub struct EnvOverrides {
    /// `MUTHR_SERVER_PORT`
    pub server_port: Option<String>,
    /// `MUTHR_WORKSPACE_ROOT`
    pub workspace_root: Option<String>,
    /// `MUTHR_MODEL_DIR`
    pub model_dir: Option<String>,
    /// `MUTHR_PROVISION_PROFILE`
    pub provision_profile: Option<String>,
    /// `MUTHR_ENGINE_RUNTIME`
    pub engine_runtime: Option<String>,
    /// `MUTHR_ENGINE_PROFILE`
    pub engine_profile: Option<String>,
    /// `MUTHR_ENGINE_BIND_HOST`
    pub engine_bind_host: Option<String>,
    /// `MUTHR_CONTAINER_HOST_GATEWAY`
    pub container_host_gateway: Option<String>,
}

/// The port a `MUTHR_SERVER_PORT` value sets: its `u16` reading, none when
/// it does not read as one.
pub open spec fn port_from_env(v: Seq<char>) -> Option<u16> {
    match crate::number::parse_bounded(v, u16::MAX as nat) {
        Some(n) => Some(n as u16),
        None => None,
    }
}

/// The configuration after the environment overrides: a set variable
/// replaces its field (a port that does not read as a `u16` unsets it).
pub open spec fn spec_with_env(c: ConfigView, env: EnvOverrides) -> ConfigView {
    ConfigView {
        server_port: match env.server_port {
            Some(v) => port_from_env(v@),
            None => c.server_port,
        },
        workspace_root: match env.workspace_root {
            Some(v) => Some(v@),
            None => c.workspace_root,
        },
        model_dir: match env.model_dir {
            Some(v) => Some(v@),
            None => c.model_dir,
        },
        default_provision_profile: match env.provision_profile {
            Some(v) => Some(v@),
            None => c.default_provision_profile,
        },
        default_engine_runtime: match env.engine_runtime {
            Some(v) => Some(v@),
            None => c.default_engine_runtime,
        },
        default_engine_profile: match env.engine_profile {
            Some(v) => Some(v@),
            None => c.default_engine_profile,
        },
        default_engine_bind_host: match env.engine_bind_host {
            Some(v) => Some(v@),
            None => c.default_engine_bind_host,
        },
        container_host_gateway: match env.container_host_gateway {
            Some(v) => Some(v@),
            None => c.container_host_gateway,
        },
    }
}

/// The environment takes precedence over the configuration file: a field
/// whose variable is set no longer depends on the file, and applying the
/// same environment a second time changes nothing.
pub proof fn law_env_overrides(c1: ConfigView, c2: ConfigView, env: EnvOverrides)
    ensures
        spec_with_env(spec_with_env(c1, env), env) == spec_with_env(c1, env),
        env.server_port is Some ==> spec_with_env(c1, env).server_port == spec_with_env(c2, env).server_port,
        env.workspace_root is Some ==> spec_with_env(c1, env).workspace_root == spec_with_env(
            c2,
            env,
        ).workspace_root,
        env.model_dir is Some ==> spec_with_env(c1, env).model_dir == spec_with_env(c2, env).model_dir,
        env.provision_profile is Some ==> spec_with_env(c1, env).default_provision_profile == spec_with_env(
            c2,
            env,
        ).default_provision_profile,
        env.engine_runtime is Some ==> spec_with_env(c1, env).default_engine_runtime == spec_with_env(
            c2,
            env,
        ).default_engine_runtime,
        env.engine_profile is Some ==> spec_with_env(c1, env).default_engine_profile == spec_with_env(
            c2,
            env,
        ).default_engine_profile,
        env.engine_bind_host is Some ==> spec_with_env(c1, env).default_engine_bind_host == spec_with_env(
            c2,
            env,
        ).default_engine_bind_host,
        env.container_host_gateway is Some ==> spec_with_env(c1, env).container_host_gateway == spec_with_env(
            c2,
            env,
        ).container_host_gateway,
{
}

impl MuthrConfig {
    /// Applies the environment overrides.
    pub fn with_env(self, env: &EnvOverrides) -> (r: MuthrConfig)
        ensures
            r@ == spec_with_env(self@, *env),
    {
        let mut c = self;
        if let Some(v) = &env.server_port {
            c.server_port = match parse_u16(&chars_of(v.as_str())) {
                Some(p) => Some(p),
                None => None,
            };
        }
        if let Some(v) = &env.workspace_root {
            c.workspace_root = Some(v.clone());
        }
        if let Some(v) = &env.model_dir {
            c.model_dir = Some(v.clone());
        }
        if let Some(v) = &env.provision_profile {
            c.default_provision_profile = Some(v.clone());
        }
        if let Some(v) = &env.engine_runtime {
            c.default_engine_runtime = Some(v.clone());
        }
        if let Some(v) = &env.engine_profile {
            c.default_engine_profile = Some(v.clone());
        }
        if let Some(v) = &env.engine_bind_host {
            c.default_engine_bind_host = Some(v.clone());
        }
        if let Some(v) = &env.container_host_gateway {
            c.container_host_gateway = Some(v.clone());
        }
        c
    }
}

/// The configuration in effect, with the defaults filled in.
#[derive(Debug, Clone)]
pub struct ResolvedConfig {
    pub server_port: u16,
    pub workspace_root: String,
    pub model_dir: String,
    pub provision_profile: String,
    pub engine_runtime: Option<String>,
    pub engine_profile: Option<String>,
    pub container_host_gateway: Option<String>,
}

impl MuthrConfig {
    /// The configuration in effect for the home directory `home`: port 8080,
    /// `<home>/src`, `<home>/opt/models` and profile `opencode` where unset.
    pub fn resolve(&self, home: &str) -> (r: ResolvedConfig)
        ensures
            r.server_port == match self.server_port {
                Some(p) => p,
                None => 8080,
            },
            r.workspace_root@ == match self.workspace_root {
                Some(v) => v@,
                None => home@ + "/src"@,
            },
            r.model_dir@ == match self.model_dir {
                Some(v) => v@,
                None => home@ + "/opt/models"@,
            },
            r.provision_profile@ == match self.default_provision_profile {
                Some(v) => v@,
                None => "opencode"@,
            },
            opt_view(r.engine_runtime) == opt_view(self.default_engine_runtime),
            opt_view(r.engine_profile) == opt_view(self.default_engine_profile),
            opt_view(r.container_host_gateway) == opt_view(self.container_host_gateway),
    {
        let server_port = match self.server_port {
            Some(p) => p,
            None => 8080,
        };
        let workspace_root = match &self.workspace_root {
            Some(v) => v.clone(),
            None => {
                let mut s = String::from_str(home);
                s.append("/src");
                s
            },
        };
        let model_dir = match &self.model_dir {
            Some(v) => v.clone(),
            None => {
                let mut s = String::from_str(home);
                s.append("/opt/models");
                s
            },
        };
        let provision_profile = match &self.default_provision_profile {
            Some(v) => v.clone(),
            None => String::from_str("opencode"),
        };
        ResolvedConfig {
            server_port,
            workspace_root,
            model_dir,
            provision_profile,
            engine_runtime: self.default_engine_runtime.clone(),
            engine_profile: self.default_engine_profile.clone(),
            container_host_gateway: self.container_host_gateway.clone(),
        }
    }
}

/// The report `muthr config show` prints for a resolved configuration.
pub open spec fn spec_resolved_lines(r: ResolvedConfig) -> Seq<Seq<char>> {
    seq![
        "info: server_port        "@ + crate::number::decimal(r.server_port as nat),
        "info: workspace_root    "@ + r.workspace_root@,
        "info: model_dir         "@ + r.model_dir@,
        "info: provision_profile "@ + r.provision_profile@,
        "info: engine_runtime    "@ + match r.engine_runtime {
            Some(v) => v@,
            None => "mlxcel"@,
        },
        "info: engine_profile    "@ + match r.engine_profile {
            Some(v) => v@,
            None => "mlx-community/Qwen3.5-9B-MLX-4bit"@,
        },
        "info: container_gateway "@ + match r.container_host_gateway {
            Some(v) => v@,
            None => "<auto>"@,
        },
    ]
}

fn labelled(label: &str, value: &str) -> (r: String)
    ensures
        r@ == label@ + value@,
{
    let mut s = String::from_str(label);
    s.append(value);
    s
}

impl ResolvedConfig {
    /// The lines of the configuration report, one per setting.
    pub fn report_lines(&self) -> (r: Vec<String>)
        ensures
            crate::text::string_views(r@) == spec_resolved_lines(*self),
    {
        let mut v: Vec<String> = Vec::new();
        let port = crate::number::u64_to_string(self.server_port as u64);
        v.push(labelled("info: server_port        ", port.as_str()));
        v.push(labelled("info: workspace_root    ", self.workspace_root.as_str()));
        v.push(labelled("info: model_dir         ", self.model_dir.as_str()));
        v.push(labelled("info: provision_profile ", self.provision_profile.as_str()));
        let runtime = match &self.engine_runtime {
            Some(r) => r.as_str(),
            None => "mlxcel",
        };
        v.push(labelled("info: engine_runtime    ", runtime));
        let profile = match &self.engine_profile {
            Some(p) => p.as_str(),
            None => "mlx-community/Qwen3.5-9B-MLX-4bit",
        };
        v.push(labelled("info: engine_profile    ", profile));
        let gateway = match &self.container_host_gateway {
            Some(g) => g.as_str(),
            None => "<auto>",
        };
        v.push(labelled("info: container_gateway ", gateway));
        assert(crate::text::string_views(v@) =~= spec_resolved_lines(*self));
        v
    }
}

/// The `muthr.toml` that `muthr config init` writes.
pub fn config_template() -> (r: &'static str)
    ensures
        r@ == "# muthr configuration\nserver_port = 8080\nworkspace_root = \"~/src\"\nmodel_dir = \"~/opt/models\"\ndefault_provision_profile = \"opencode\"\ndefault_engine_runtime = \"mlxcel\"\ndefault_engine_profile = \"mlx-community/Qwen3.5-9B-MLX-4bit\"\n"@,
{
    "# muthr configuration\nserver_port = 8080\nworkspace_root = \"~/src\"\nmodel_dir = \"~/opt/models\"\ndefault_provision_profile = \"opencode\"\ndefault_engine_runtime = \"mlxcel\"\ndefault_engine_profile = \"mlx-community/Qwen3.5-9B-MLX-4bit\"\n"
}

} // verus!
