//! `infinity-msfs.toml` and the command line.
use vstd::prelude::*;
use crate::command::views;
use crate::js_config::JsBuildConfig;
use crate::package::SimPackage;
use crate::path::FsPath;
use crate::rust_build::RustConfig;
use crate::text::copy_string;

verus! {

/// The whole configuration file.
pub struct InfinityMsfsToml {
    /// The cargo pipeline.
    pub rust: RustConfig,
    /// JS/TS instrument bundling.
    pub js: Option<JsBuildConfig>,
    /// Packages compiled by `fspackagetool.exe`.
    pub sim_packages: Vec<SimPackage>,
    pub hooks: HooksConfig,
    /// Build-id injection for protected releases.
    pub aegis: AegisConfig,
}

/// Build-id injection: the id is exported into the environment before
/// anything compiles.
pub struct AegisConfig {
    pub enabled: bool,
    /// Explicit build id; when absent (or empty) it is derived from git.
    pub build_id: Option<String>,
    /// Prefix of the derived build id.
    pub build_id_prefix: String,
    /// Environment variables set to the build id.
    pub build_id_env: Vec<String>,
}

/// Commands run before and after a release build.
pub struct HooksConfig {
    pub pre: Vec<String>,
    pub post: Vec<String>,
}

/// The prefix of a derived build id unless configured: `build`.
pub fn default_aegis_prefix() -> (r: String)
    ensures
        r@ == "build"@,
{
    copy_string("build")
}

/// The variables the build id is exported to unless configured.
pub fn default_aegis_envs() -> (r: Vec<String>)
    ensures
        views(r@) == seq!["AEGIS_BUILD_ID"@, "T38_AUTH_BUILD_ID"@],
{
    let mut v: Vec<String> = Vec::new();
    v.push(copy_string("AEGIS_BUILD_ID"));
    v.push(copy_string("T38_AUTH_BUILD_ID"));
    assert(views(v@) =~= seq!["AEGIS_BUILD_ID"@, "T38_AUTH_BUILD_ID"@]);
    v
}

impl Default for AegisConfig {
    fn default() -> (c: AegisConfig)
        ensures
            !c.enabled,
            c.build_id is None,
            c.build_id_prefix@ == "build"@,
            views(c.build_id_env@) == seq!["AEGIS_BUILD_ID"@, "T38_AUTH_BUILD_ID"@],
    {
        AegisConfig {
            enabled: false,
            build_id: None,
            build_id_prefix: default_aegis_prefix(),
            build_id_env: default_aegis_envs(),
        }
    }
}

impl Default for HooksConfig {
    fn default() -> (c: HooksConfig)
        ensures
            c.pre@.len() == 0,
            c.post@.len() == 0,
    {
        HooksConfig { pre: Vec::new(), post: Vec::new() }
    }
}

impl Default for InfinityMsfsToml {
    fn default() -> (c: InfinityMsfsToml)
        ensures
            c.rust.packages@.len() == 0,
            c.rust.default_target@ == "wasm32-wasip1"@,
            c.rust.output_dir@ == "build/msfs"@,
            c.js is None,
            c.sim_packages@.len() == 0,
            c.hooks.pre@.len() == 0,
            c.hooks.post@.len() == 0,
            !c.aegis.enabled,
            c.aegis.build_id is None,
            c.aegis.build_id_prefix@ == "build"@,
            views(c.aegis.build_id_env@) == seq!["AEGIS_BUILD_ID"@, "T38_AUTH_BUILD_ID"@],
    {
        InfinityMsfsToml {
            rust: RustConfig::default(),
            js: None,
            sim_packages: Vec::new(),
            hooks: HooksConfig::default(),
            aegis: AegisConfig::default(),
        }
    }
}

// ---------------------------------------------------------------------
// Command line
// ---------------------------------------------------------------------

/// The command line.
pub struct Cli {
    pub command: Commands,
}

/// The subcommands.
pub enum Commands {
    /// Build `[[rust.packages]]`, then `[[js.instruments]]`.
    Build(BuildArgs),
    /// List the projects a build would produce.
    Projects(ProjectsArgs),
    /// Manage the local SDK.
    Sdk(SdkArgs),
    /// Pre-flight checks.
    Doctor,
    /// Compile project XML files through `fspackagetool.exe`.
    Package(PackageArgs),
    /// Rebuild on change.
    Watch(WatchArgs),
    /// Scaffold a project from a template.
    Create(CreateArgs),
}

pub struct CreateArgs {
    pub path: Option<FsPath>,
    pub template: Option<String>,
    pub name: Option<String>,
    pub no_input: bool,
    pub force: bool,
}

pub struct BuildArgs {
    pub release: bool,
    pub verbose: bool,
    /// Restrict to these `cargo_package`s and instrument names.
    pub only: Vec<String>,
    pub rust_only: bool,
    pub js_only: bool,
    pub no_wasm_opt: bool,
    pub minify: bool,
    /// `inline`, `external` (or `linked`), or `file`.
    pub sourcemap: Option<String>,
    pub skip_simulator_package: bool,
    /// Build wasm gauges as libraries for the off-sim emulator.
    pub native: bool,
}

pub struct SdkArgs {
    pub command: SdkCommand,
}

pub enum SdkCommand {
    Install(SdkInstallArgs),
    Path,
    Remove,
}

pub struct SdkInstallArgs {
    pub force: bool,
}

pub struct ProjectsArgs {
    pub only: Vec<String>,
}

pub struct PackageArgs {
    pub only: Vec<String>,
    pub verbose: bool,
    pub rebuild: bool,
    pub mirror: bool,
    pub force_steam: bool,
    pub marketplace: Option<String>,
}

pub struct WatchArgs {
    pub release: bool,
    pub verbose: bool,
    pub only: Vec<String>,
    pub no_wasm_opt: bool,
    pub rust_only: bool,
    pub js_only: bool,
    /// Debounce window in milliseconds (300 by default).
    pub debounce: u64,
}

} // verus!
