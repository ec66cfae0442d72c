use infinity_msfs::bundler::SourceMapKind;
use infinity_msfs::config::{AegisConfig, BuildArgs, CreateArgs, InfinityMsfsToml, WatchArgs};
use infinity_msfs::flow::{
    aegis_exports, aegis_explicit_id, build_args_for_watch, build_targets, cargo_test_args,
    create_options, derive_build_id, env_for_bundle, host_buildable_plans, is_valid_env_identifier,
    js_bundle_options, parse_sourcemap_flag, plans_need_sdk, runs_wasm_opt, select_instruments,
    FlowError,
};
use infinity_msfs::js_config::{Instrument, JsBuildConfig, PackageSpec};
use infinity_msfs::path::FsPath;
use infinity_msfs::rust_build::{ArtifactKind, BuildPlan, HostOs, RustPackage};

fn strings(xs: &[&str]) -> Vec<String> {
    xs.iter().map(|s| s.to_string()).collect()
}

fn instrument(name: &str) -> Instrument {
    Instrument {
        name: name.to_string(),
        index: FsPath::parse(&format!("src/{}/index.tsx", name)),
        simulator_package: None,
        modules: Vec::new(),
    }
}

fn plan(kind: ArtifactKind) -> BuildPlan {
    BuildPlan {
        package: "p".into(),
        bin: "p".into(),
        target: None,
        output_dir: FsPath::parse("/p/build/msfs"),
        artifact_name: "p".into(),
        kind,
        features: Vec::new(),
        copy_files: Vec::new(),
        shim_lib_dir: None,
    }
}

fn build_args() -> BuildArgs {
    BuildArgs {
        release: false,
        verbose: false,
        only: Vec::new(),
        rust_only: false,
        js_only: false,
        no_wasm_opt: false,
        minify: false,
        sourcemap: None,
        skip_simulator_package: false,
        native: false,
    }
}

fn config(rust_packages: usize, js: bool) -> InfinityMsfsToml {
    let mut c = InfinityMsfsToml::default();
    for i in 0..rust_packages {
        c.rust.packages.push(RustPackage {
            cargo_package: format!("pkg{}", i),
            cargo_bin: None,
            target: None,
            output_dir: None,
            artifact_name: None,
            artifact_kind: None,
            cargo_features: Vec::new(),
            copy_files: Vec::new(),
        });
    }
    if js {
        c.js = Some(JsBuildConfig {
            package: PackageSpec { package_name: "pkg".into(), package_dir: FsPath::parse("PackageSources") },
            instruments: vec![instrument("pfd")],
        });
    }
    c
}

#[test]
fn sourcemap_flags() {
    assert!(matches!(parse_sourcemap_flag(None), Ok(None)));
    assert_eq!(parse_sourcemap_flag(Some("inline")).ok().unwrap(), Some(SourceMapKind::Inline));
    assert_eq!(parse_sourcemap_flag(Some("external")).ok().unwrap(), Some(SourceMapKind::External));
    assert_eq!(parse_sourcemap_flag(Some("linked")).ok().unwrap(), Some(SourceMapKind::External));
    assert_eq!(parse_sourcemap_flag(Some("file")).ok().unwrap(), Some(SourceMapKind::File));
    match parse_sourcemap_flag(Some("hidden")) {
        Err(FlowError::UnknownSourcemap { value }) => assert_eq!(value, "hidden"),
        _ => panic!("expected an error"),
    }
}

#[test]
fn env_identifiers() {
    assert!(is_valid_env_identifier("NODE_ENV"));
    assert!(is_valid_env_identifier("_private"));
    assert!(is_valid_env_identifier("a1"));
    assert!(!is_valid_env_identifier(""));
    assert!(!is_valid_env_identifier("1abc"));
    assert!(!is_valid_env_identifier("A-B"));
    assert!(!is_valid_env_identifier("ÄB"));
}

#[test]
fn env_for_bundle_keeps_valid_names_last_wins() {
    let vars = vec![
        ("API_URL".to_string(), "a".to_string()),
        ("BAD-NAME".to_string(), "x".to_string()),
        ("API_URL".to_string(), "b".to_string()),
        ("MODE".to_string(), "dev".to_string()),
    ];
    let m = env_for_bundle(&vars);
    assert_eq!(m.len(), 2);
    assert_eq!(m.get("API_URL").map(|s| s.as_str()), Some("b"));
    assert_eq!(m.get("MODE").map(|s| s.as_str()), Some("dev"));
    assert!(m.get("BAD-NAME").is_none());
}

#[test]
fn js_options_from_flags() {
    let vars = vec![("K".to_string(), "v".to_string())];
    let o = js_bundle_options(true, Some("file"), true, &vars).ok().unwrap();
    assert!(o.minify);
    assert!(o.skip_simulator_package);
    assert!(o.bundles_dir.is_none());
    assert_eq!(o.sourcemap, Some(SourceMapKind::File));
    assert_eq!(o.env.get("K").map(|s| s.as_str()), Some("v"));
    assert!(matches!(js_bundle_options(false, Some("nope"), false, &vars), Err(FlowError::UnknownSourcemap { .. })));
    let o = js_bundle_options(false, None, false, &Vec::new()).ok().unwrap();
    assert!(o.sourcemap.is_none());
    assert_eq!(o.env.len(), 0);
}

#[test]
fn instrument_selection() {
    let insts = vec![instrument("pfd"), instrument("mfd"), instrument("efb")];
    assert_eq!(select_instruments(&insts, &Vec::new()), vec![0, 1, 2]);
    assert_eq!(select_instruments(&insts, &strings(&["efb", "pfd"])), vec![0, 2]);
    assert!(select_instruments(&insts, &strings(&["none"])).is_empty());
}

#[test]
fn which_pipelines_build() {
    let a = build_args();
    assert_eq!(build_targets(&a, &config(1, true)).ok().unwrap(), (true, true));
    assert_eq!(build_targets(&a, &config(1, false)).ok().unwrap(), (true, false));
    assert_eq!(build_targets(&a, &config(0, true)).ok().unwrap(), (false, true));
    assert!(matches!(build_targets(&a, &config(0, false)), Err(FlowError::NothingToBuild)));
    let mut js_only = build_args();
    js_only.js_only = true;
    assert_eq!(build_targets(&js_only, &config(1, true)).ok().unwrap(), (false, true));
    assert!(matches!(build_targets(&js_only, &config(1, false)), Err(FlowError::NothingToBuild)));
    let mut rust_only = build_args();
    rust_only.rust_only = true;
    assert_eq!(build_targets(&rust_only, &config(1, true)).ok().unwrap(), (true, false));
    let mut native = build_args();
    native.native = true;
    assert_eq!(build_targets(&native, &config(2, true)).ok().unwrap(), (true, false));
}

#[test]
fn native_executables_build_on_windows_only() {
    let plans = vec![plan(ArtifactKind::Wasm), plan(ArtifactKind::Native), plan(ArtifactKind::NativeDynamic)];
    assert_eq!(host_buildable_plans(&plans, HostOs::Windows), vec![0, 1, 2]);
    assert_eq!(host_buildable_plans(&plans, HostOs::Linux), vec![0, 2]);
    assert_eq!(host_buildable_plans(&plans, HostOs::MacOs), vec![0, 2]);
}

#[test]
fn sdk_needed_for_wasm_and_simconnect() {
    assert!(plans_need_sdk(&vec![plan(ArtifactKind::NativeDynamic), plan(ArtifactKind::Wasm)]));
    assert!(plans_need_sdk(&vec![plan(ArtifactKind::Native)]));
    assert!(!plans_need_sdk(&vec![plan(ArtifactKind::NativeDynamic)]));
    assert!(!plans_need_sdk(&Vec::new()));
}

#[test]
fn wasm_opt_decision() {
    assert!(runs_wasm_opt(true, false, ArtifactKind::Wasm));
    assert!(!runs_wasm_opt(true, true, ArtifactKind::Wasm));
    assert!(!runs_wasm_opt(false, false, ArtifactKind::Wasm));
    assert!(!runs_wasm_opt(true, false, ArtifactKind::Native));
}

#[test]
fn aegis_ids() {
    let mut a = AegisConfig::default();
    assert!(aegis_explicit_id(&a).is_none());
    a.build_id = Some(String::new());
    assert!(aegis_explicit_id(&a).is_none());
    a.build_id = Some("rel-7".into());
    assert_eq!(aegis_explicit_id(&a), Some("rel-7".to_string()));
    assert_eq!(derive_build_id("build", "abc1234\n", false), "build-abc1234");
    assert_eq!(derive_build_id("myprod", "  deadbee ", true), "myprod-deadbee-dirty");
}

#[test]
fn aegis_exported_variables() {
    let mut a = AegisConfig::default();
    a.build_id_env = strings(&["AEGIS_BUILD_ID", "T38_AUTH_BUILD_ID"]);
    let r = aegis_exports(&a, "build-abc", true);
    assert_eq!(
        r,
        vec![
            ("AEGIS_BUILD_ID".to_string(), "build-abc".to_string()),
            ("T38_AUTH_BUILD_ID".to_string(), "build-abc".to_string()),
            ("AEGIS_BUILD_PROFILE".to_string(), "release".to_string()),
        ]
    );
    let mut none = AegisConfig::default();
    none.build_id_env = Vec::new();
    let r = aegis_exports(&none, "x", false);
    assert_eq!(r, vec![("AEGIS_BUILD_PROFILE".to_string(), "debug".to_string())]);
}

#[test]
fn aegis_defaults_are_the_documented_ones() {
    let a = AegisConfig::default();
    assert!(!a.enabled);
    assert!(a.build_id.is_none());
    assert_eq!(a.build_id_prefix, "build");
    assert_eq!(a.build_id_env, strings(&["AEGIS_BUILD_ID", "T38_AUTH_BUILD_ID"]));
    let c = InfinityMsfsToml::default();
    assert_eq!(c.aegis.build_id_prefix, "build");
    assert_eq!(c.aegis.build_id_env, strings(&["AEGIS_BUILD_ID", "T38_AUTH_BUILD_ID"]));
    assert_eq!(c.rust.default_target, "wasm32-wasip1");
    assert_eq!(c.rust.output_dir, "build/msfs");
    assert!(c.js.is_none() && c.sim_packages.is_empty());
}

#[test]
fn cargo_test_arguments() {
    let pkgs = strings(&["gauge-a", "gauge-b"]);
    let r = cargo_test_args(&pkgs, &Vec::new(), false, &Vec::new()).ok().unwrap();
    assert_eq!(r, strings(&["test", "-p", "gauge-a", "-p", "gauge-b", "--lib"]));
    let r = cargo_test_args(&pkgs, &strings(&["gauge-b"]), true, &strings(&["--", "--nocapture"])).ok().unwrap();
    assert_eq!(r, strings(&["test", "-p", "gauge-b", "--release", "--lib", "--", "--nocapture"]));
    let r = cargo_test_args(&pkgs, &Vec::new(), false, &strings(&["--test=integration"])).ok().unwrap();
    assert_eq!(r, strings(&["test", "-p", "gauge-a", "-p", "gauge-b", "--test=integration"]));
    let r = cargo_test_args(&pkgs, &Vec::new(), false, &strings(&["--doc"])).ok().unwrap();
    assert_eq!(r, strings(&["test", "-p", "gauge-a", "-p", "gauge-b", "--doc"]));
    let r = cargo_test_args(&pkgs, &Vec::new(), false, &strings(&["--library"])).ok().unwrap();
    assert_eq!(r, strings(&["test", "-p", "gauge-a", "-p", "gauge-b", "--lib", "--library"]));
    match cargo_test_args(&pkgs, &strings(&["nope"]), false, &Vec::new()) {
        Err(FlowError::NoTestMatch { only, before }) => {
            assert_eq!(only, strings(&["nope"]));
            assert_eq!(before, 2);
        }
        _ => panic!("expected NoTestMatch"),
    }
}

#[test]
fn watch_build_arguments() {
    let w = WatchArgs {
        release: true,
        verbose: false,
        only: strings(&["a"]),
        no_wasm_opt: true,
        rust_only: false,
        js_only: true,
        debounce: 300,
    };
    let b = build_args_for_watch(&w);
    assert!(b.release && !b.verbose && b.no_wasm_opt && b.js_only && !b.rust_only);
    assert_eq!(b.only, strings(&["a"]));
    assert!(!b.minify && b.sourcemap.is_none() && !b.skip_simulator_package && !b.native);
}

#[test]
fn create_arguments_carry_over() {
    let o = create_options(CreateArgs {
        path: Some(FsPath::parse("out")),
        template: Some("gauge".into()),
        name: None,
        no_input: true,
        force: false,
    });
    assert_eq!(o.template.as_deref(), Some("gauge"));
    assert!(o.name.is_none());
    assert!(o.no_input && !o.force);
    assert_eq!(o.path.unwrap().display(), "out");
}
