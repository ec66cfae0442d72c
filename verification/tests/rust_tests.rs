use infinity_msfs::command::CommandSpec;
use infinity_msfs::path::FsPath;
use infinity_msfs::rust_build::{
    built_artifact_path, cargo_build_command, cdylib_filename, copy_rule_paths,
    default_artifact_name, default_output_dir, default_passes, default_target, entry_kind,
    hook_commands, needs_shim_lib_dir, plan_from_entry, resolve_plans, shim_lib_dir_candidate,
    simconnect_runtime_copy, wasi_sysroot_candidate, wasm_opt_command, ArtifactKind, BuildPlan,
    CopyRule, HostOs, PlanError, RustConfig, RustPackage, ShimDirError, WasmOptConfig,
};
use infinity_msfs::stats::{stats_path, SizeTable, Stats};

fn entry(name: &str) -> RustPackage {
    RustPackage {
        cargo_package: name.into(),
        cargo_bin: None,
        target: None,
        output_dir: None,
        artifact_name: None,
        artifact_kind: None,
        cargo_features: Vec::new(),
        copy_files: Vec::new(),
    }
}

fn plan(kind: ArtifactKind, target: Option<&str>, features: &[&str]) -> BuildPlan {
    BuildPlan {
        package: "my-gauge".into(),
        bin: "my-gauge".into(),
        target: target.map(|s| s.to_string()),
        output_dir: FsPath::parse("/p/build/msfs"),
        artifact_name: "my-gauge.wasm".into(),
        kind,
        features: features.iter().map(|s| s.to_string()).collect(),
        copy_files: Vec::new(),
        shim_lib_dir: None,
    }
}

fn args(c: &CommandSpec) -> Vec<&str> {
    c.args.iter().map(|s| s.as_str()).collect()
}

#[test]
fn defaults() {
    let c = RustConfig::default();
    assert_eq!(c.default_target, "wasm32-wasip1");
    assert_eq!(c.output_dir, "build/msfs");
    assert!(c.packages.is_empty());
    assert!(c.wasm_opt.enabled);
    assert_eq!(
        c.wasm_opt.passes,
        vec!["-O1", "--signext-lowering", "--enable-bulk-memory", "--enable-nontrapping-float-to-int"]
    );
    assert_eq!(default_target(), "wasm32-wasip1");
    assert_eq!(default_output_dir(), "build/msfs");
    assert_eq!(default_passes().len(), 4);
    assert!(WasmOptConfig::default().enabled);
    assert_eq!(ArtifactKind::default(), ArtifactKind::Wasm);
}

#[test]
fn artifact_names() {
    assert_eq!(default_artifact_name("my-gauge", ArtifactKind::Wasm, HostOs::Linux), "my-gauge.wasm");
    assert_eq!(default_artifact_name("app", ArtifactKind::Native, HostOs::Windows), "app.exe");
    assert_eq!(default_artifact_name("app", ArtifactKind::Native, HostOs::Linux), "app");
    assert_eq!(default_artifact_name("my-gauge", ArtifactKind::NativeDynamic, HostOs::Windows), "my_gauge.dll");
    assert_eq!(default_artifact_name("my-gauge", ArtifactKind::NativeDynamic, HostOs::Linux), "libmy_gauge.so");
    assert_eq!(cdylib_filename("g", HostOs::MacOs), "libg.dylib");
}

#[test]
fn target_labels() {
    assert_eq!(plan(ArtifactKind::Wasm, Some("wasm32-wasip1"), &[]).target_label(), "wasm32-wasip1");
    assert_eq!(plan(ArtifactKind::Native, None, &[]).target_label(), "<host>");
}

#[test]
fn built_artifacts() {
    let root = FsPath::parse("/p");
    let p = plan(ArtifactKind::Wasm, Some("wasm32-wasip1"), &[]);
    assert_eq!(built_artifact_path(&root, &p, true, HostOs::Linux).display(), "/p/target/wasm32-wasip1/release/my_gauge.wasm");
    let n = plan(ArtifactKind::Native, None, &[]);
    assert_eq!(built_artifact_path(&root, &n, false, HostOs::Windows).display(), "/p/target/debug/my-gauge.exe");
    assert_eq!(built_artifact_path(&root, &n, false, HostOs::Linux).display(), "/p/target/debug/my-gauge");
}

#[test]
fn entry_kinds() {
    let mut e = entry("g");
    assert_eq!(entry_kind(&e, false), ArtifactKind::Wasm);
    assert_eq!(entry_kind(&e, true), ArtifactKind::NativeDynamic);
    e.artifact_kind = Some(ArtifactKind::Native);
    assert_eq!(entry_kind(&e, true), ArtifactKind::Native);
    assert!(needs_shim_lib_dir(ArtifactKind::NativeDynamic, HostOs::Windows));
    assert!(!needs_shim_lib_dir(ArtifactKind::NativeDynamic, HostOs::Linux));
}

#[test]
fn plans_from_entries() {
    let root = FsPath::parse("/p");
    let mut rust = RustConfig::default();
    rust.copy_files.push(CopyRule { from: "a".into(), to: "b".into() });
    let mut e = entry("my-gauge");
    e.target = Some("wasm32-unknown-unknown".into());
    e.artifact_name = Some("custom.wasm".into());
    e.copy_files.push(CopyRule { from: "c".into(), to: "d".into() });
    e.cargo_features.push("simconnect".into());
    let p = plan_from_entry(&root, &rust, &e, "my-gauge", "my_gauge", false, HostOs::Linux, None);
    assert_eq!(p.kind, ArtifactKind::Wasm);
    assert_eq!(p.target.as_deref(), Some("wasm32-unknown-unknown"));
    assert_eq!(p.output_dir.display(), "/p/build/msfs");
    assert_eq!(p.artifact_name, "custom.wasm");
    assert_eq!(p.copy_files.len(), 2);
    assert_eq!(p.copy_files[1].from, "c");
    assert_eq!(p.features, vec!["simconnect"]);
    let shim = FsPath::parse("/shim");
    let d = plan_from_entry(&root, &rust, &e, "my-gauge", "my_gauge", true, HostOs::Windows, Some(&shim));
    assert_eq!(d.kind, ArtifactKind::NativeDynamic);
    assert!(d.target.is_none());
    assert_eq!(d.artifact_name, "my_gauge.dll");
    assert_eq!(d.shim_lib_dir.unwrap().display(), "/shim");
}

#[test]
fn plans_are_filtered() {
    let root = FsPath::parse("/p");
    let mut rust = RustConfig::default();
    assert!(matches!(resolve_plans(&root, &rust, &Vec::new(), &Vec::new(), &Vec::new(), false, HostOs::Linux), Err(PlanError::NoPackages)));
    rust.packages.push(entry("a"));
    rust.packages.push(entry("b"));
    let resolved = vec![("a".to_string(), "a".to_string()), ("b".to_string(), "b".to_string())];
    let shims = vec![None, None];
    let all = resolve_plans(&root, &rust, &resolved, &shims, &Vec::new(), false, HostOs::Linux).ok().unwrap();
    assert_eq!(all.len(), 2);
    let only_b = resolve_plans(&root, &rust, &resolved, &shims, &vec!["b".to_string()], false, HostOs::Linux).ok().unwrap();
    assert_eq!(only_b.len(), 1);
    assert_eq!(only_b[0].package, "b");
    match resolve_plans(&root, &rust, &resolved, &shims, &vec!["zzz".to_string()], false, HostOs::Linux) {
        Err(PlanError::NoMatch { only, before }) => {
            assert_eq!(only, vec!["zzz"]);
            assert_eq!(before, 2);
        }
        _ => panic!("expected NoMatch"),
    }
}

#[test]
fn cargo_commands() {
    let root = FsPath::parse("/p");
    let p = plan(ArtifactKind::Wasm, Some("wasm32-wasip1"), &["a", "b"]);
    let sysroot = wasi_sysroot_candidate(&FsPath::parse("/sdk"));
    assert_eq!(sysroot.display(), "/sdk/WASM/wasi-sysroot");
    let c = cargo_build_command(&root, &p, true, Some(&sysroot));
    assert_eq!(c.program, "cargo");
    assert_eq!(args(&c), vec!["build", "-p", "my-gauge", "--target", "wasm32-wasip1", "--features", "a,b", "--release"]);
    assert_eq!(c.env, vec![("WASI_SYSROOT".to_string(), "/sdk/WASM/wasi-sysroot".to_string())]);
    let n = plan(ArtifactKind::Native, None, &[]);
    let c2 = cargo_build_command(&root, &n, false, Some(&sysroot));
    assert_eq!(args(&c2), vec!["build", "-p", "my-gauge"]);
    assert!(c2.env.is_empty());
}

#[test]
fn wasm_opt_commands() {
    let root = FsPath::parse("/p");
    let c = wasm_opt_command(&root, &vec!["-O1".to_string()], &FsPath::parse("/p/in.wasm"), &FsPath::parse("/p/out.wasm"));
    assert_eq!(c.program, "wasm-opt");
    assert_eq!(args(&c), vec!["-O1", "-o", "/p/out.wasm", "/p/in.wasm"]);
}

#[test]
fn copy_and_runtime_paths() {
    let root = FsPath::parse("/p");
    let rules = vec![CopyRule { from: "assets/a.bin".into(), to: "build/a.bin".into() }];
    let paths = copy_rule_paths(&root, &rules);
    assert_eq!(paths[0].0.display(), "/p/assets/a.bin");
    assert_eq!(paths[0].1.display(), "/p/build/a.bin");
    let sdk = FsPath::parse("/sdk");
    let n = plan(ArtifactKind::Native, None, &["simconnect"]);
    let (from, to) = simconnect_runtime_copy(&n, HostOs::Windows, Some(&sdk)).unwrap();
    assert_eq!(from.display(), "/sdk/SimConnect SDK/lib/SimConnect.dll");
    assert_eq!(to.display(), "/p/build/msfs/SimConnect.dll");
    assert!(simconnect_runtime_copy(&n, HostOs::Linux, Some(&sdk)).is_none());
    assert!(simconnect_runtime_copy(&plan(ArtifactKind::Native, None, &[]), HostOs::Windows, Some(&sdk)).is_none());
    assert!(simconnect_runtime_copy(&n, HostOs::Windows, None).is_none());
}

#[test]
fn shim_directories() {
    let root = FsPath::parse("/p");
    assert_eq!(shim_lib_dir_candidate(&root, Some("shim"), Some("/env")).ok().unwrap().display(), "/p/shim");
    assert_eq!(shim_lib_dir_candidate(&root, None, Some("/env")).ok().unwrap().display(), "/env");
    assert!(matches!(shim_lib_dir_candidate(&root, None, None), Err(ShimDirError::Unset)));
}

#[test]
fn hook_command_labels() {
    let root = FsPath::parse("/p");
    let scripts: Vec<String> = (0..12).map(|i| format!("echo {i}")).collect();
    let hooks = hook_commands(&root, "pre", &scripts, false);
    assert_eq!(hooks.len(), 12);
    assert_eq!(hooks[0].1, "hook pre[0]");
    assert_eq!(hooks[11].1, "hook pre[11]");
    assert_eq!(args(&hooks[11].0), vec!["-c", "echo 11"]);
    assert_eq!(hooks[0].0.cwd.as_ref().unwrap().display(), "/p");
}

#[test]
fn stats_keep_previous_sizes() {
    let mut loaded = SizeTable::new();
    loaded.set("gauge", 100);
    let mut s = Stats::from_loaded(loaded);
    assert_eq!(s.previous_size("gauge"), Some(100));
    s.record("gauge", 150);
    s.record("other", 7);
    assert_eq!(s.previous_size("gauge"), Some(100));
    assert_eq!(s.previous_size("other"), None);
    assert_eq!(s.current().get("gauge"), Some(150));
    assert_eq!(s.current().get("other"), Some(7));
    let e = Stats::empty();
    assert_eq!(e.previous_size("gauge"), None);
    assert_eq!(stats_path(&FsPath::parse("/p")).display(), "/p/target/.infinity-msfs-stats.json");
}
