//! The cargo pipeline: `[rust]` settings, build plans, the commands that
//! build and optimise an artifact, and where the results go.
use vstd::prelude::*;
use crate::command::{shell_command, shell_spec, views, CommandSpec};
use crate::package::{law_no_filter_selects_all, selected_entries};
use crate::path::{join_text, parse_path, path_join, FsPath, PathView};
use crate::text::{
    chars_of, copy_string, decimal, decimal_string, join_with, replace, replace_chars, str_eq,
    string_of,
};

verus! {

/// The operating system the tools run on.
#[derive(PartialEq, Eq, Structural, Clone, Copy, Debug)]
pub enum HostOs {
    Windows,
    Linux,
    MacOs,
}

/// What a package is built into: a `wasm` gauge (through wasm-opt), a
/// `native` SimConnect executable for the host, or a `native-dynamic`
/// library for the off-sim emulator.
#[derive(PartialEq, Eq, Structural, Clone, Copy, Debug)]
pub enum ArtifactKind {
    Wasm,
    Native,
    NativeDynamic,
}

impl Default for ArtifactKind {
    fn default() -> (k: ArtifactKind)
        ensures
            k == ArtifactKind::Wasm,
    {
        ArtifactKind::Wasm
    }
}

/// A file copied after a build, both paths relative to the project root.
pub struct CopyRule {
    pub from: String,
    pub to: String,
}

/// wasm-opt settings.
pub struct WasmOptConfig {
    pub enabled: bool,
    pub passes: Vec<String>,
}

/// One `[[rust.packages]]` entry.
pub struct RustPackage {
    pub cargo_package: String,
    pub cargo_bin: Option<String>,
    /// Overrides `[rust].default_target`; ignored for host builds.
    pub target: Option<String>,
    pub output_dir: Option<String>,
    pub artifact_name: Option<String>,
    pub artifact_kind: Option<ArtifactKind>,
    pub cargo_features: Vec<String>,
    pub copy_files: Vec<CopyRule>,
}

/// The `[rust]` section.
pub struct RustConfig {
    pub default_target: String,
    pub output_dir: String,
    pub copy_files: Vec<CopyRule>,
    pub wasm_opt: WasmOptConfig,
    pub packages: Vec<RustPackage>,
    /// Directory of the emulator shim's import library, for
    /// `native-dynamic` builds on Windows.
    pub shim_lib_dir: Option<String>,
}

pub fn default_target() -> (r: String)
    ensures
        r@ == "wasm32-wasip1"@,
{
    copy_string("wasm32-wasip1")
}

pub fn default_output_dir() -> (r: String)
    ensures
        r@ == "build/msfs"@,
{
    copy_string("build/msfs")
}

pub fn default_true() -> (r: bool)
    ensures
        r,
{
    true
}

/// The wasm-opt passes used unless configured otherwise.
pub open spec fn default_passes_spec() -> Seq<Seq<char>> {
    seq![
        "-O1"@,
        "--signext-lowering"@,
        "--enable-bulk-memory"@,
        "--enable-nontrapping-float-to-int"@,
    ]
}

pub fn default_passes() -> (r: Vec<String>)
    ensures
        views(r@) == default_passes_spec(),
{
    let mut v: Vec<String> = Vec::new();
    v.push(copy_string("-O1"));
    v.push(copy_string("--signext-lowering"));
    v.push(copy_string("--enable-bulk-memory"));
    v.push(copy_string("--enable-nontrapping-float-to-int"));
    assert(views(v@) =~= default_passes_spec());
    v
}

impl Default for WasmOptConfig {
    fn default() -> (c: WasmOptConfig)
        ensures
            c.enabled,
            views(c.passes@) == default_passes_spec(),
    {
        WasmOptConfig { enabled: true, passes: default_passes() }
    }
}

impl Default for RustConfig {
    fn default() -> (c: RustConfig)
        ensures
            c.default_target@ == "wasm32-wasip1"@,
            c.output_dir@ == "build/msfs"@,
            c.copy_files@.len() == 0,
            c.wasm_opt.enabled,
            views(c.wasm_opt.passes@) == default_passes_spec(),
            c.packages@.len() == 0,
            c.shim_lib_dir is None,
    {
        RustConfig {
            default_target: default_target(),
            output_dir: default_output_dir(),
            copy_files: Vec::new(),
            wasm_opt: WasmOptConfig::default(),
            packages: Vec::new(),
            shim_lib_dir: None,
        }
    }
}

// ---------------------------------------------------------------------
// Plans
// ---------------------------------------------------------------------

/// How to build one package.
pub struct BuildPlan {
    pub package: String,
    pub bin: String,
    /// The target triple; `None` builds for the host.
    pub target: Option<String>,
    pub output_dir: FsPath,
    pub artifact_name: String,
    pub kind: ArtifactKind,
    pub features: Vec<String>,
    pub copy_files: Vec<CopyRule>,
    /// Directory holding `msfs_host_shim.dll.lib`, for `native-dynamic`
    /// builds on Windows.
    pub shim_lib_dir: Option<FsPath>,
}

impl BuildPlan {
    /// The target triple, or `<host>`.
    pub fn target_label(&self) -> (r: String)
        ensures
            r@ == match self.target {
                Some(t) => t@,
                None => "<host>"@,
            },
    {
        match &self.target {
            Some(t) => t.clone(),
            None => copy_string("<host>"),
        }
    }
}

/// The platform's file name of a C-compatible dynamic library.
pub open spec fn cdylib_spec(name: Seq<char>, host: HostOs) -> Seq<char> {
    match host {
        HostOs::Windows => name + ".dll"@,
        HostOs::Linux => "lib"@ + name + ".so"@,
        HostOs::MacOs => "lib"@ + name + ".dylib"@,
    }
}

pub fn cdylib_filename(name: &str, host: HostOs) -> (r: String)
    ensures
        r@ == cdylib_spec(name@, host),
{
    match host {
        HostOs::Windows => {
            let mut s = copy_string(name);
            s.append(".dll");
            s
        },
        HostOs::Linux => {
            let mut s = copy_string("lib");
            s.append(name);
            s.append(".so");
            s
        },
        HostOs::MacOs => {
            let mut s = copy_string("lib");
            s.append(name);
            s.append(".dylib");
            s
        },
    }
}

/// `s` with `-` turned into `_`.
pub open spec fn underscored(s: Seq<char>) -> Seq<char> {
    replace(s, seq!['-'], seq!['_'])
}

fn underscore(s: &str) -> (r: String)
    ensures
        r@ == underscored(s@),
{
    let dash: Vec<char> = vec!['-'];
    let us: Vec<char> = vec!['_'];
    assert(dash@ =~= seq!['-']);
    assert(us@ =~= seq!['_']);
    string_of(&replace_chars(&chars_of(s), &dash, &us))
}

/// The artifact's file name when none is configured.
pub open spec fn default_artifact_name_spec(bin: Seq<char>, kind: ArtifactKind, host: HostOs) -> Seq<char> {
    match kind {
        ArtifactKind::Wasm => bin + ".wasm"@,
        ArtifactKind::NativeDynamic => cdylib_spec(underscored(bin), host),
        ArtifactKind::Native => if host == HostOs::Windows {
            bin + ".exe"@
        } else {
            bin
        },
    }
}

pub fn default_artifact_name(bin: &str, kind: ArtifactKind, host: HostOs) -> (r: String)
    ensures
        r@ == default_artifact_name_spec(bin@, kind, host),
{
    match kind {
        ArtifactKind::Wasm => {
            let mut s = copy_string(bin);
            s.append(".wasm");
            s
        },
        ArtifactKind::NativeDynamic => {
            let u = underscore(bin);
            cdylib_filename(u.as_str(), host)
        },
        ArtifactKind::Native => {
            if host == HostOs::Windows {
                let mut s = copy_string(bin);
                s.append(".exe");
                s
            } else {
                copy_string(bin)
            }
        },
    }
}

/// The kind an entry is built as: its configured kind (`wasm` by
/// default), with wasm gauges turned into `native-dynamic` libraries when
/// that is forced.
pub open spec fn entry_kind_spec(configured: Option<ArtifactKind>, force_native_dynamic: bool) -> ArtifactKind {
    let k = match configured {
        Some(k) => k,
        None => ArtifactKind::Wasm,
    };
    if force_native_dynamic && k == ArtifactKind::Wasm {
        ArtifactKind::NativeDynamic
    } else {
        k
    }
}

pub fn entry_kind(entry: &RustPackage, force_native_dynamic: bool) -> (k: ArtifactKind)
    ensures
        k == entry_kind_spec(entry.artifact_kind, force_native_dynamic),
{
    let k = match entry.artifact_kind {
        Some(k) => k,
        None => ArtifactKind::Wasm,
    };
    if force_native_dynamic && k == ArtifactKind::Wasm {
        ArtifactKind::NativeDynamic
    } else {
        k
    }
}

/// Only `native-dynamic` builds on Windows link the emulator shim's
/// import library.
pub open spec fn needs_shim_spec(kind: ArtifactKind, host: HostOs) -> bool {
    kind == ArtifactKind::NativeDynamic && host == HostOs::Windows
}

pub fn needs_shim_lib_dir(kind: ArtifactKind, host: HostOs) -> (r: bool)
    ensures
        r == needs_shim_spec(kind, host),
{
    kind == ArtifactKind::NativeDynamic && host == HostOs::Windows
}

/// Why no shim directory could be found.
pub enum ShimDirError {
    /// Neither `[rust].shim_lib_dir` nor `INFINITY_EMU_SHIM_DIR` is set.
    Unset,
}

/// Where the shim's import library is looked for: `[rust].shim_lib_dir`,
/// else the `INFINITY_EMU_SHIM_DIR` value, relative paths under the root.
pub fn shim_lib_dir_candidate(
    root: &FsPath,
    configured: Option<&str>,
    env_value: Option<&str>,
) -> (r: Result<FsPath, ShimDirError>)
    ensures
        match configured {
            Some(c) => r matches Ok(p) && p@ == join_text(root@, c@),
            None => match env_value {
                Some(e) => r matches Ok(p) && p@ == join_text(root@, e@),
                None => r matches Err(ShimDirError::Unset),
            },
        },
{
    let raw = match configured {
        Some(c) => c,
        None => match env_value {
            Some(e) => e,
            None => {
                return Err(ShimDirError::Unset);
            },
        },
    };
    Ok(root.join_str(raw))
}

pub open spec fn copy_rules_view(v: Seq<CopyRule>) -> Seq<(Seq<char>, Seq<char>)> {
    v.map_values(|r: CopyRule| (r.from@, r.to@))
}

fn clone_rules(v: &Vec<CopyRule>) -> (r: Vec<CopyRule>)
    ensures
        copy_rules_view(r@) == copy_rules_view(v@),
{
    let mut out: Vec<CopyRule> = Vec::new();
    let mut i: usize = 0;
    while i < v.len()
        invariant
            i <= v.len(),
            copy_rules_view(out@) == copy_rules_view(v@.take(i as int)),
        decreases v.len() - i,
    {
        let ghost before = out@;
        out.push(CopyRule { from: v[i].from.clone(), to: v[i].to.clone() });
        assert(copy_rules_view(out@) =~= copy_rules_view(before).push((v@[i as int].from@, v@[i as int].to@)));
        assert(copy_rules_view(v@.take(i + 1)) =~= copy_rules_view(v@.take(i as int)).push((v@[i as int].from@, v@[i as int].to@)));
        i += 1;
    }
    assert(v@.take(v.len() as int) =~= v@);
    out
}

fn clone_strings(v: &Vec<String>) -> (r: Vec<String>)
    ensures
        views(r@) == views(v@),
{
    let mut out: Vec<String> = Vec::new();
    let mut i: usize = 0;
    while i < v.len()
        invariant
            i <= v.len(),
            views(out@) == views(v@.take(i as int)),
        decreases v.len() - i,
    {
        let ghost before = out@;
        out.push(v[i].clone());
        assert(views(out@) =~= views(before).push(v@[i as int]@));
        assert(views(v@.take(i + 1)) =~= views(v@.take(i as int)).push(v@[i as int]@));
        i += 1;
    }
    assert(v@.take(v.len() as int) =~= v@);
    out
}

/// The target triple of an entry: its own or the default for wasm, none
/// (the host) for native builds.
pub open spec fn plan_target_spec(entry_target: Option<Seq<char>>, default_target: Seq<char>, kind: ArtifactKind) -> Option<Seq<char>> {
    if kind == ArtifactKind::Wasm {
        match entry_target {
            Some(t) => Some(t),
            None => Some(default_target),
        }
    } else {
        None
    }
}

pub open spec fn opt_str(o: Option<String>) -> Option<Seq<char>> {
    match o {
        Some(s) => Some(s@),
        None => None,
    }
}

/// The artifact name: the configured one, except that a forced
/// `native-dynamic` build derives its own.
pub open spec fn plan_artifact_name_spec(
    configured: Option<Seq<char>>,
    bin: Seq<char>,
    kind: ArtifactKind,
    force_native_dynamic: bool,
    host: HostOs,
) -> Seq<char> {
    match configured {
        Some(n) => if force_native_dynamic && kind == ArtifactKind::NativeDynamic {
            default_artifact_name_spec(bin, kind, host)
        } else {
            n
        },
        None => default_artifact_name_spec(bin, kind, host),
    }
}

pub open spec fn opt_path(o: Option<FsPath>) -> Option<PathView> {
    match o {
        Some(p) => Some(p@),
        None => None,
    }
}

/// `p` is the plan of `entry` whose cargo package resolved to `package`
/// with binary `bin`: its kind (wasm unless configured, a forced
/// `native-dynamic` in place of wasm), its target (wasm only), output
/// directory under the root, artifact name, features, the shared copy
/// rules followed by the entry's, and the shim directory when the build
/// links the shim.
pub open spec fn plan_of(
    p: BuildPlan,
    root: PathView,
    rust: RustConfig,
    entry: RustPackage,
    package: Seq<char>,
    bin: Seq<char>,
    force_native_dynamic: bool,
    host: HostOs,
    shim_lib_dir: Option<PathView>,
) -> bool {
    &&& p.package@ == package
    &&& p.bin@ == bin
    &&& p.kind == entry_kind_spec(entry.artifact_kind, force_native_dynamic)
    &&& opt_str(p.target) == plan_target_spec(opt_str(entry.target), rust.default_target@, p.kind)
    &&& p.output_dir@ == join_text(root, match entry.output_dir {
                Some(d) => d@,
                None => rust.output_dir@,
            })
    &&& p.artifact_name@ == plan_artifact_name_spec(
        opt_str(entry.artifact_name),
        bin,
        p.kind,
        force_native_dynamic,
        host,
    )
    &&& views(p.features@) == views(entry.cargo_features@)
    &&& copy_rules_view(p.copy_files@) == copy_rules_view(rust.copy_files@) + copy_rules_view(
        entry.copy_files@,
    )
    &&& opt_path(p.shim_lib_dir) == if needs_shim_spec(p.kind, host) {
        shim_lib_dir
    } else {
        None
    }
}

/// The plan for one entry whose cargo package resolved to `package` with
/// binary `bin`. `shim_lib_dir` is used when the build links the shim.
pub fn plan_from_entry(
    root: &FsPath,
    rust: &RustConfig,
    entry: &RustPackage,
    package: &str,
    bin: &str,
    force_native_dynamic: bool,
    host: HostOs,
    shim_lib_dir: Option<&FsPath>,
) -> (p: BuildPlan)
    ensures
        plan_of(
            p,
            root@,
            *rust,
            *entry,
            package@,
            bin@,
            force_native_dynamic,
            host,
            match shim_lib_dir {
                Some(s) => Some(s@),
                None => None,
            },
        ),
{
    let kind = entry_kind(entry, force_native_dynamic);
    let target = if kind == ArtifactKind::Wasm {
        match &entry.target {
            Some(t) => Some(t.clone()),
            None => Some(rust.default_target.clone()),
        }
    } else {
        None
    };
    let output_dir = match &entry.output_dir {
        Some(d) => root.join_str(d.as_str()),
        None => root.join_str(rust.output_dir.as_str()),
    };
    let artifact_name = match &entry.artifact_name {
        Some(n) => if force_native_dynamic && kind == ArtifactKind::NativeDynamic {
            default_artifact_name(bin, kind, host)
        } else {
            n.clone()
        },
        None => default_artifact_name(bin, kind, host),
    };
    let shim = if needs_shim_lib_dir(kind, host) {
        match shim_lib_dir {
            Some(s) => Some(s.duplicate()),
            None => None,
        }
    } else {
        None
    };
    let mut copy_files = clone_rules(&rust.copy_files);
    let extra = clone_rules(&entry.copy_files);
    let ghost base = copy_rules_view(copy_files@);
    let mut i: usize = 0;
    while i < extra.len()
        invariant
            i <= extra.len(),
            copy_rules_view(copy_files@) == base + copy_rules_view(extra@.take(i as int)),
        decreases extra.len() - i,
    {
        let ghost before = copy_files@;
        copy_files.push(CopyRule { from: extra[i].from.clone(), to: extra[i].to.clone() });
        assert(copy_rules_view(copy_files@) =~= copy_rules_view(before).push((extra@[i as int].from@, extra@[i as int].to@)));
        assert(copy_rules_view(extra@.take(i + 1)) =~= copy_rules_view(extra@.take(i as int)).push((extra@[i as int].from@, extra@[i as int].to@)));
        i += 1;
    }
    assert(extra@.take(extra.len() as int) =~= extra@);
    BuildPlan {
        package: copy_string(package),
        bin: copy_string(bin),
        target,
        output_dir,
        artifact_name,
        kind,
        features: clone_strings(&entry.cargo_features),
        copy_files,
        shim_lib_dir: shim,
    }
}

/// What a plan builds and for which target: an entry without a kind
/// builds wasm (an emulator library under `--native`); a wasm plan always
/// has a target triple, the entry's own if it sets one, else the
/// configured default; native and emulator builds have none and build for
/// the host.
pub proof fn law_plan_kind_and_target(
    p: BuildPlan,
    root: PathView,
    rust: RustConfig,
    entry: RustPackage,
    package: Seq<char>,
    bin: Seq<char>,
    force_native_dynamic: bool,
    host: HostOs,
    shim_lib_dir: Option<PathView>,
)
    requires
        plan_of(p, root, rust, entry, package, bin, force_native_dynamic, host, shim_lib_dir),
    ensures
        (entry.artifact_kind is None || entry.artifact_kind == Some(ArtifactKind::Wasm))
            ==> p.kind == if force_native_dynamic {
            ArtifactKind::NativeDynamic
        } else {
            ArtifactKind::Wasm
        },
        entry.artifact_kind == Some(ArtifactKind::Native) ==> p.kind == ArtifactKind::Native,
        entry.artifact_kind == Some(ArtifactKind::NativeDynamic) ==> p.kind
            == ArtifactKind::NativeDynamic,
        p.kind == ArtifactKind::Wasm ==> (p.target matches Some(t) && t@ == match entry.target {
            Some(e) => e@,
            None => rust.default_target@,
        }),
        p.kind != ArtifactKind::Wasm ==> p.target is None,
{
}

/// Why no plan could be made.
pub enum PlanError {
    /// `[[rust.packages]]` is empty.
    NoPackages,
    /// The `only` filter matched none of the `before` candidates.
    NoMatch { only: Vec<String>, before: usize },
}

/// Is `name` one of `only`?
pub fn is_selected(only: &Vec<String>, name: &str) -> (r: bool)
    ensures
        r == views(only@).contains(name@),
{
    let mut i: usize = 0;
    while i < only.len()
        invariant
            i <= only.len(),
            forall|j: int| 0 <= j < i ==> views(only@)[j] != name@,
        decreases only.len() - i,
    {
        if str_eq(only[i].as_str(), name) {
            assert(views(only@)[i as int] == name@);
            return true;
        }
        i += 1;
    }
    proof {
        if views(only@).contains(name@) {
            let j = views(only@).index_of(name@);
            assert(views(only@)[j] == name@);
        }
    }
    false
}

/// The plans for the entries kept by `only` (all when it is empty), in
/// order. `resolved[i]` is the cargo package and binary that entry `i`
/// resolved to, `shims[i]` its shim directory if it needs one; the filter
/// matches the resolved package names.
pub fn resolve_plans(
    root: &FsPath,
    rust: &RustConfig,
    resolved: &Vec<(String, String)>,
    shims: &Vec<Option<FsPath>>,
    only: &Vec<String>,
    force_native_dynamic: bool,
    host: HostOs,
) -> (r: Result<Vec<BuildPlan>, PlanError>)
    requires
        resolved.len() == rust.packages.len(),
        shims.len() == rust.packages.len(),
    ensures
        rust.packages.len() == 0 ==> r matches Err(PlanError::NoPackages),
        rust.packages.len() > 0 ==> match r {
            Ok(plans) => {
                let sel = selected_entries(
                    resolved@.map_values(|e: (String, String)| e.0@),
                    views(only@),
                );
                &&& plans@.len() == sel.len()
                &&& sel.len() > 0
                &&& forall|k: int|
                    0 <= k < sel.len() ==> plan_of(
                        #[trigger] plans@[k],
                        root@,
                        *rust,
                        rust.packages@[sel[k]],
                        resolved@[sel[k]].0@,
                        resolved@[sel[k]].1@,
                        force_native_dynamic,
                        host,
                        opt_path(shims@[sel[k]]),
                    )
            },
            Err(PlanError::NoMatch { only: o, before }) => only.len() > 0 && views(o@) == views(
                only@,
            ) && before == rust.packages.len() && selected_entries(
                resolved@.map_values(|e: (String, String)| e.0@),
                views(only@),
            ).len() == 0,
            Err(PlanError::NoPackages) => false,
        },
{
    if rust.packages.len() == 0 {
        return Err(PlanError::NoPackages);
    }
    let ghost names = resolved@.map_values(|e: (String, String)| e.0@);
    let mut plans: Vec<BuildPlan> = Vec::new();
    let mut i: usize = 0;
    assert(names.take(0) =~= Seq::<Seq<char>>::empty());
    while i < rust.packages.len()
        invariant
            resolved.len() == rust.packages.len(),
            shims.len() == rust.packages.len(),
            names == resolved@.map_values(|e: (String, String)| e.0@),
            i <= rust.packages.len(),
            plans@.len() == selected_entries(names.take(i as int), views(only@)).len(),
            forall|k: int|
                0 <= k < plans@.len() ==> {
                    let e = #[trigger] selected_entries(names.take(i as int), views(only@))[k];
                    plan_of(
                        plans@[k],
                        root@,
                        *rust,
                        rust.packages@[e],
                        resolved@[e].0@,
                        resolved@[e].1@,
                        force_native_dynamic,
                        host,
                        opt_path(shims@[e]),
                    )
                },
        decreases rust.packages.len() - i,
    {
        let keep = only.len() == 0 || is_selected(only, resolved[i].0.as_str());
        let ghost before = plans@;
        let ghost s0 = selected_entries(names.take(i as int), views(only@));
        if keep {
            let shim = match &shims[i] {
                Some(s) => Some(s),
                None => None,
            };
            let p = plan_from_entry(
                root,
                rust,
                &rust.packages[i],
                resolved[i].0.as_str(),
                resolved[i].1.as_str(),
                force_native_dynamic,
                host,
                shim,
            );
            plans.push(p);
        }
        proof {
            let t1 = names.take(i + 1);
            assert(t1.drop_last() =~= names.take(i as int));
            assert(t1.last() == resolved@[i as int].0@);
            let s1 = selected_entries(t1, views(only@));
            assert(s1 == s0 + if keep { seq![i as int] } else { Seq::<int>::empty() });
            assert forall|k: int| 0 <= k < plans@.len() implies {
                let e = #[trigger] selected_entries(names.take(i + 1), views(only@))[k];
                plan_of(
                    plans@[k],
                    root@,
                    *rust,
                    rust.packages@[e],
                    resolved@[e].0@,
                    resolved@[e].1@,
                    force_native_dynamic,
                    host,
                    opt_path(shims@[e]),
                )
            } by {
                if k < s0.len() {
                    assert(s1[k] == s0[k]);
                    assert(plans@[k] == before[k]);
                } else {
                    assert(s1[k] == i);
                }
            }
        }
        i += 1;
    }
    assert(names.take(rust.packages.len() as int) =~= names);
    if plans.len() == 0 {
        proof {
            if only.len() == 0 {
                law_no_filter_selects_all(names);
            }
        }
        let mut o: Vec<String> = Vec::new();
        let mut j: usize = 0;
        while j < only.len()
            invariant
                j <= only.len(),
                views(o@) == views(only@.take(j as int)),
            decreases only.len() - j,
        {
            let ghost b = o@;
            o.push(only[j].clone());
            assert(views(o@) =~= views(b).push(only@[j as int]@));
            assert(views(only@.take(j + 1)) =~= views(only@.take(j as int)).push(only@[j as int]@));
            j += 1;
        }
        assert(only@.take(only.len() as int) =~= only@);
        return Err(PlanError::NoMatch { only: o, before: rust.packages.len() });
    }
    Ok(plans)
}

// ---------------------------------------------------------------------
// Steps
// ---------------------------------------------------------------------

/// Where cargo leaves the artifact: `target/[<triple>/]<profile>/<file>`,
/// with wasm stems underscored, `.exe` for Windows executables and the
/// platform's library name for `native-dynamic` builds.
pub open spec fn built_file_spec(bin: Seq<char>, kind: ArtifactKind, host: HostOs) -> Seq<char> {
    match kind {
        ArtifactKind::Wasm => underscored(bin) + ".wasm"@,
        ArtifactKind::Native => if host == HostOs::Windows {
            bin + ".exe"@
        } else {
            bin
        },
        ArtifactKind::NativeDynamic => cdylib_spec(underscored(bin), host),
    }
}

pub open spec fn built_artifact_spec(
    root: PathView,
    target: Option<Seq<char>>,
    release: bool,
    bin: Seq<char>,
    kind: ArtifactKind,
    host: HostOs,
) -> PathView {
    let t = join_text(root, "target"@);
    let t2 = match target {
        Some(tr) => join_text(t, tr),
        None => t,
    };
    let t3 = join_text(t2, if release { "release"@ } else { "debug"@ });
    join_text(t3, built_file_spec(bin, kind, host))
}

pub fn built_artifact_path(root: &FsPath, plan: &BuildPlan, release: bool, host: HostOs) -> (r:
    FsPath)
    ensures
        r@ == built_artifact_spec(root@, opt_str(plan.target), release, plan.bin@, plan.kind, host),
{
    let mut path = root.join_str("target");
    if let Some(t) = &plan.target {
        path = path.join_str(t.as_str());
    }
    path = path.join_str(if release { "release" } else { "debug" });
    let file = match plan.kind {
        ArtifactKind::Wasm => {
            let mut s = underscore(plan.bin.as_str());
            s.append(".wasm");
            s
        },
        ArtifactKind::Native => if host == HostOs::Windows {
            let mut s = plan.bin.clone();
            s.append(".exe");
            s
        } else {
            plan.bin.clone()
        },
        ArtifactKind::NativeDynamic => {
            let u = underscore(plan.bin.as_str());
            cdylib_filename(u.as_str(), host)
        },
    };
    path.join_str(file.as_str())
}

/// The arguments of `cargo build` for a plan.
pub open spec fn cargo_args_spec(
    package: Seq<char>,
    target: Option<Seq<char>>,
    features: Seq<Seq<char>>,
    release: bool,
) -> Seq<Seq<char>> {
    seq!["build"@, "-p"@, package] + match target {
        Some(t) => seq!["--target"@, t],
        None => Seq::empty(),
    } + if features.len() > 0 {
        seq!["--features"@, join_with(features, ","@)]
    } else {
        Seq::empty()
    } + if release {
        seq!["--release"@]
    } else {
        Seq::empty()
    }
}

fn join_strings(parts: &Vec<String>, sep: &str) -> (r: String)
    ensures
        r@ == join_with(views(parts@), sep@),
{
    let mut out: Vec<char> = Vec::new();
    let sc = chars_of(sep);
    let mut i: usize = 0;
    while i < parts.len()
        invariant
            i <= parts.len(),
            sc@ == sep@,
            out@ == join_with(views(parts@).take(i as int), sep@),
        decreases parts.len() - i,
    {
        if i > 0 {
            crate::text::extend_chars(&mut out, &sc);
        }
        crate::text::extend_chars(&mut out, &chars_of(parts[i].as_str()));
        proof {
            let t = views(parts@).take(i + 1);
            assert(t.drop_last() =~= views(parts@).take(i as int));
            if i == 0 {
                assert(out@ =~= join_with(t, sep@));
            }
        }
        i += 1;
    }
    assert(views(parts@).take(parts.len() as int) =~= views(parts@));
    string_of(&out)
}

/// `cargo build` for a plan, in the project root. A wasm build gets
/// `WASI_SYSROOT` set to `wasi_sysroot` when one is given (the SDK's
/// bundled sysroot, when the environment sets none).
pub fn cargo_build_command(
    root: &FsPath,
    plan: &BuildPlan,
    release: bool,
    wasi_sysroot: Option<&FsPath>,
) -> (c: CommandSpec)
    ensures
        c.program@ == "cargo"@,
        c.args_view() == cargo_args_spec(
            plan.package@,
            opt_str(plan.target),
            views(plan.features@),
            release,
        ),
        c.cwd_view() == Some(root@),
        match wasi_sysroot {
            Some(s) => if plan.kind == ArtifactKind::Wasm {
                c.env_view() == seq![("WASI_SYSROOT"@, crate::path::path_display(s@))]
            } else {
                c.env@.len() == 0
            },
            None => c.env@.len() == 0,
        },
{
    let mut args: Vec<String> = Vec::new();
    args.push(copy_string("build"));
    args.push(copy_string("-p"));
    args.push(plan.package.clone());
    let ghost a0 = views(args@);
    assert(a0 =~= seq!["build"@, "-p"@, plan.package@]);
    if let Some(t) = &plan.target {
        args.push(copy_string("--target"));
        args.push(t.clone());
    }
    let ghost a1 = views(args@);
    assert(a1 =~= a0 + match opt_str(plan.target) {
        Some(t) => seq!["--target"@, t],
        None => Seq::<Seq<char>>::empty(),
    });
    if plan.features.len() > 0 {
        args.push(copy_string("--features"));
        args.push(join_strings(&plan.features, ","));
    }
    let ghost a2 = views(args@);
    assert(a2 =~= a1 + if views(plan.features@).len() > 0 {
        seq!["--features"@, join_with(views(plan.features@), ","@)]
    } else {
        Seq::<Seq<char>>::empty()
    });
    if release {
        args.push(copy_string("--release"));
    }
    assert(views(args@) =~= a2 + if release {
        seq!["--release"@]
    } else {
        Seq::<Seq<char>>::empty()
    });
    let mut env: Vec<(String, String)> = Vec::new();
    if plan.kind == ArtifactKind::Wasm {
        if let Some(s) = wasi_sysroot {
            env.push((copy_string("WASI_SYSROOT"), s.display()));
        }
    }
    let c = CommandSpec { program: copy_string("cargo"), args, cwd: Some(root.duplicate()), env };
    proof {
        if plan.kind == ArtifactKind::Wasm && wasi_sysroot is Some {
            assert(c.env_view() =~= seq![("WASI_SYSROOT"@, crate::path::path_display(wasi_sysroot.unwrap()@))]);
        }
    }
    c
}

/// Where the SDK keeps its WASI sysroot: `<sdk>/WASM/wasi-sysroot`.
pub fn wasi_sysroot_candidate(sdk: &FsPath) -> (r: FsPath)
    ensures
        r@ == join_text(join_text(sdk@, "WASM"@), "wasi-sysroot"@),
{
    sdk.join_str("WASM").join_str("wasi-sysroot")
}

/// `wasm-opt <passes> -o <output> <input>`, in the project root.
pub fn wasm_opt_command(root: &FsPath, passes: &Vec<String>, input: &FsPath, output: &FsPath) -> (c:
    CommandSpec)
    ensures
        c.program@ == "wasm-opt"@,
        c.args_view() == views(passes@) + seq![
            "-o"@,
            crate::path::path_display(output@),
            crate::path::path_display(input@),
        ],
        c.cwd_view() == Some(root@),
        c.env@.len() == 0,
{
    let mut args = clone_strings(passes);
    let ghost a0 = views(args@);
    args.push(copy_string("-o"));
    args.push(output.display());
    args.push(input.display());
    assert(views(args@) =~= a0 + seq![
        "-o"@,
        crate::path::path_display(output@),
        crate::path::path_display(input@),
    ]);
    CommandSpec { program: copy_string("wasm-opt"), args, cwd: Some(root.duplicate()), env: Vec::new() }
}

/// The source and destination of each copy rule, under the root.
pub fn copy_rule_paths(root: &FsPath, rules: &Vec<CopyRule>) -> (r: Vec<(FsPath, FsPath)>)
    ensures
        r@.len() == rules@.len(),
        forall|i: int|
            0 <= i < rules@.len() ==> (#[trigger] r@[i]).0@ == join_text(root@, rules@[i].from@) && r@[i].1@ == join_text(root@, rules@[i].to@),
{
    let mut out: Vec<(FsPath, FsPath)> = Vec::new();
    let mut i: usize = 0;
    while i < rules.len()
        invariant
            i <= rules.len(),
            out@.len() == i,
            forall|j: int|
                0 <= j < i ==> (#[trigger] out@[j]).0@ == join_text(root@, rules@[j].from@) && out@[j].1@ == join_text(root@, rules@[j].to@),
        decreases rules.len() - i,
    {
        out.push((root.join_str(rules[i].from.as_str()), root.join_str(rules[i].to.as_str())));
        i += 1;
    }
    out
}

/// SimConnect's runtime is copied next to Windows SimConnect executables:
/// from `<sdk>/SimConnect SDK/lib/SimConnect.dll` into the output
/// directory. `None` when the plan needs no copy or no SDK is known.
pub fn simconnect_runtime_copy(plan: &BuildPlan, host: HostOs, sdk: Option<&FsPath>) -> (r: Option<
    (FsPath, FsPath),
>)
    ensures
        !(plan.kind == ArtifactKind::Native && host == HostOs::Windows && views(
            plan.features@,
        ).contains("simconnect"@)) ==> r is None,
        (plan.kind == ArtifactKind::Native && host == HostOs::Windows && views(
            plan.features@,
        ).contains("simconnect"@)) ==> match sdk {
            None => r is None,
            Some(s) => r matches Some((from, to)) && from@ == join_text(join_text(join_text(s@, "SimConnect SDK"@), "lib"@), "SimConnect.dll"@) && to@ == join_text(plan.output_dir@, "SimConnect.dll"@),
        },
{
    let mut wanted = false;
    let mut i: usize = 0;
    while i < plan.features.len()
        invariant
            i <= plan.features.len(),
            wanted == views(plan.features@).take(i as int).contains("simconnect"@),
        decreases plan.features.len() - i,
    {
        if str_eq(plan.features[i].as_str(), "simconnect") {
            wanted = true;
        }
        proof {
            let t = views(plan.features@).take(i + 1);
            assert(t =~= views(plan.features@).take(i as int).push(plan.features@[i as int]@));
            if plan.features@[i as int]@ == "simconnect"@ {
                assert(t[i as int] == "simconnect"@);
            }
            if views(plan.features@).take(i as int).contains("simconnect"@) {
                let j = views(plan.features@).take(i as int).index_of("simconnect"@);
                assert(t[j] == "simconnect"@);
            }
            if t.contains("simconnect"@) {
                let j = t.index_of("simconnect"@);
                if j < i {
                    assert(views(plan.features@).take(i as int)[j] == "simconnect"@);
                }
            }
        }
        i += 1;
    }
    assert(views(plan.features@).take(plan.features.len() as int) =~= views(plan.features@));
    if plan.kind != ArtifactKind::Native || host != HostOs::Windows || !wanted {
        return None;
    }
    match sdk {
        None => None,
        Some(s) => Some((
            s.join_str("SimConnect SDK").join_str("lib").join_str("SimConnect.dll"),
            plan.output_dir.join_str("SimConnect.dll"),
        )),
    }
}

/// The label of hook `i` of list `label`: `hook <label>[<i>]`.
pub open spec fn hook_label_spec(label: Seq<char>, i: nat) -> Seq<char> {
    "hook "@ + label + "["@ + decimal(i) + "]"@
}

/// The commands of a hook list, each run through the shell in the project
/// root, with their labels.
pub fn hook_commands(root: &FsPath, label: &str, scripts: &Vec<String>, windows: bool) -> (r: Vec<
    (CommandSpec, String),
>)
    ensures
        r@.len() == scripts@.len(),
        forall|i: int|
            0 <= i < scripts@.len() ==> ((#[trigger] r@[i]).0.program_view(), r@[i].0.args_view())
                == shell_spec(scripts@[i]@, windows) && r@[i].0.cwd_view() == Some(root@)
                && r@[i].0.env@.len() == 0 && r@[i].1@ == hook_label_spec(label@, i as nat),
{
    let mut out: Vec<(CommandSpec, String)> = Vec::new();
    let mut i: usize = 0;
    while i < scripts.len()
        invariant
            i <= scripts.len(),
            out@.len() == i,
            forall|j: int|
                0 <= j < i ==> ((#[trigger] out@[j]).0.program_view(), out@[j].0.args_view())
                    == shell_spec(scripts@[j]@, windows) && out@[j].0.cwd_view() == Some(root@)
                    && out@[j].0.env@.len() == 0 && out@[j].1@ == hook_label_spec(label@, j as nat),
        decreases scripts.len() - i,
    {
        let mut c = shell_command(scripts[i].as_str(), windows);
        c.cwd = Some(root.duplicate());
        let mut l = copy_string("hook ");
        l.append(label);
        l.append("[");
        let d = decimal_string(i);
        l.append(d.as_str());
        l.append("]");
        out.push((c, l));
        i += 1;
    }
    out
}

} // verus!
