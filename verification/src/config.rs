//! Dashboard configuration: the Patchwork instances to read and the defaults
//! used when no configuration file is found.
use vstd::prelude::*;

verus! {

/// A Patchwork server and the project to read from it.
#[derive(Debug, Clone)]
pub struct PatchworkInstance {
    pub url: String,
    pub project: String,
    pub alias: Option<String>,
    pub max_connections: usize,
    pub max_connections_per_host: usize,
    pub timeout_secs: u64,
}

impl PatchworkInstance {
    /// The name shown for the instance: its alias, else its project.
    pub fn display_name(&self) -> (r: &str)
        ensures
            r@ == match self.alias {
                Some(a) => a@,
                None => self.project@,
            },
    {
        match &self.alias {
            Some(a) => a.as_str(),
            None => self.project.as_str(),
        }
    }
}

impl Default for PatchworkInstance {
    fn default() -> (r: Self)
        ensures
            r.url@ == "https://patchwork.kernel.org/api"@,
            r.project@ == "ltp"@,
            r.alias is None,
            r.max_connections == 8,
            r.max_connections_per_host == 4,
            r.timeout_secs == 60,
    {
        PatchworkInstance {
            url: "https://patchwork.kernel.org/api".to_owned(),
            project: "ltp".to_owned(),
            alias: None,
            max_connections: 8,
            max_connections_per_host: 4,
            timeout_secs: 60,
        }
    }
}

/// The dashboard settings.
#[derive(Debug)]
pub struct Config {
    pub port: u16,
    pub max_patches: usize,
    pub checks: bool,
    pub instances: Vec<PatchworkInstance>,
}

/// `i` is the default Patchwork instance.
pub open spec fn is_default_instance(i: PatchworkInstance) -> bool {
    &&& i.url@ == "https://patchwork.kernel.org/api"@
    &&& i.project@ == "ltp"@
    &&& i.alias is None
    &&& i.max_connections == 8
    &&& i.max_connections_per_host == 4
    &&& i.timeout_secs == 60
}

impl Default for Config {
    fn default() -> (r: Self)
        ensures
            r.port == 3030,
            r.max_patches == 500,
            !r.checks,
            r.instances@.len() == 1,
            is_default_instance(r.instances@[0]),
    {
        let mut instances: Vec<PatchworkInstance> = Vec::new();
        instances.push(PatchworkInstance::default());
        Config { port: 3030, max_patches: 500, checks: false, instances }
    }
}

/// Where the configuration is read from.
#[derive(Debug, Clone, Copy, PartialEq, Eq, Structural)]
pub enum ConfigSource {
    /// The per-user file, `~/.config/ltp-dashboard/config.toml`.
    Home,
    /// `config.toml` in the working directory.
    Local,
    /// No file: the built-in defaults.
    Defaults,
}

/// The per-user configuration file, below the home directory.
pub fn home_config_path(home: &str) -> (r: String)
    ensures
        r@ == home@ + "/.config/ltp-dashboard/config.toml"@,
{
    let mut r = home.to_owned();
    r.append("/.config/ltp-dashboard/config.toml");
    r
}

impl Config {
    /// The configuration source, by priority: the per-user file when there is a
    /// home directory and the file exists there, else the local file when it
    /// exists, else the defaults.
    pub fn choose_source(home_cfg_exists: Option<bool>, local_cfg_exists: bool) -> (r:
        ConfigSource)
        ensures
            home_cfg_exists == Some(true) ==> r == ConfigSource::Home,
            home_cfg_exists != Some(true) && local_cfg_exists ==> r == ConfigSource::Local,
            home_cfg_exists != Some(true) && !local_cfg_exists ==> r == ConfigSource::Defaults,
    {
        if let Some(true) = home_cfg_exists {
            return ConfigSource::Home;
        }
        if local_cfg_exists {
            return ConfigSource::Local;
        }
        ConfigSource::Defaults
    }
}

/// The settings in effect: a port or patch limit given on the command line
/// wins when it differs from the command-line default (3030, 500); CI checks
/// are on when either the command line or the file asks for them.
pub open spec fn effective_settings_spec(
    cli_port: u16,
    cli_max: usize,
    cli_checks: bool,
    cfg: Config,
) -> (u16, usize, bool) {
    (
        if cli_port != 3030 {
            cli_port
        } else {
            cfg.port
        },
        if cli_max != 500 {
            cli_max
        } else {
            cfg.max_patches
        },
        cli_checks || cfg.checks,
    )
}

/// The port, patch limit and CI-checks switch in effect.
pub fn effective_settings(cli_port: u16, cli_max: usize, cli_checks: bool, cfg: &Config) -> (r: (
    u16,
    usize,
    bool,
))
    ensures
        r == effective_settings_spec(cli_port, cli_max, cli_checks, *cfg),
{
    let port = if cli_port != 3030 {
        cli_port
    } else {
        cfg.port
    };
    let max_patches = if cli_max != 500 {
        cli_max
    } else {
        cfg.max_patches
    };
    (port, max_patches, cli_checks || cfg.checks)
}

} // verus!
