use infinity_msfs::bundler::{
    build_failure_detail, bundle_dir, bundler_options, discover_rescript_project_dir,
    file_kind_for, format_rolldown_error, inject_rescript_react_automount, rescript_build_command,
    rescript_build_step, rescript_candidates, resolve_path, BundleOptions, FileKind, GeneratedFile, JsArtifact, JsBundler,
    ModuleLoader, SourceMapKind, SourceMapOutput,
};
use infinity_msfs::command::shell_command;
use infinity_msfs::js_config::{
    default_package_dir, default_true, strip_verbatim_prefix, Instrument, ModuleAlias,
    SimulatorPackage, SimulatorPackageKind,
};
use infinity_msfs::path::FsPath;
use infinity_msfs::strmap::StrMap;

fn rescript(build_command: Option<&str>, build_dir: Option<&str>) -> SimulatorPackage {
    SimulatorPackage::RescriptReact {
        file_name: None,
        template_id: None,
        is_interactive: true,
        imports: Vec::new(),
        html_template: None,
        js_template: None,
        build_command: build_command.map(|s| s.to_string()),
        build_dir: build_dir.map(FsPath::parse),
    }
}

fn instrument(index: &str, pkg: Option<SimulatorPackage>) -> Instrument {
    Instrument { name: "PFD".into(), index: FsPath::parse(index), simulator_package: pkg, modules: Vec::new() }
}

fn options(env: StrMap) -> BundleOptions {
    BundleOptions { bundles_dir: None, minify: false, sourcemap: None, skip_simulator_package: false, env }
}

#[test]
fn discovers_nearest_rescript_project_dir() {
    let root = FsPath::parse("/tmp/infinity-build-js-discover");
    let inst = instrument("ui/src/Main.res.mjs", Some(rescript(None, None)));
    let candidates = rescript_candidates(&root, &inst);
    let shown: Vec<String> = candidates.iter().map(|p| p.display()).collect();
    assert_eq!(
        shown,
        vec![
            "/tmp/infinity-build-js-discover/ui/src",
            "/tmp/infinity-build-js-discover/ui",
            "/tmp/infinity-build-js-discover",
        ]
    );
    // only `ui` holds rescript.json
    let has_marker = vec![false, true, false];
    let resolved = discover_rescript_project_dir(&root, &candidates, &has_marker);
    assert_eq!(resolved.display(), "/tmp/infinity-build-js-discover/ui");
    assert_eq!(inst.simulator_package.unwrap().kind(), SimulatorPackageKind::RescriptReact);
}

#[test]
fn rescript_search_falls_back_to_root() {
    let root = FsPath::parse("/p");
    let inst = instrument("a/b.js", None);
    let candidates = rescript_candidates(&root, &inst);
    let none = vec![false; candidates.len()];
    assert_eq!(discover_rescript_project_dir(&root, &candidates, &none).display(), "/p");
    let outside = instrument("/elsewhere/x/entry.js", None);
    let c2 = rescript_candidates(&root, &outside);
    assert_eq!(c2.len(), 1);
    assert_eq!(c2[0].display(), "/elsewhere/x");
}

#[test]
fn rescript_build_steps() {
    let root = FsPath::parse("/p");
    let (cmd, dir) = rescript_build_step(&root, &instrument("x.js", Some(rescript(None, Some("ui"))))).unwrap();
    assert_eq!(cmd, "bun run build");
    assert_eq!(dir.unwrap().display(), "/p/ui");
    let (cmd2, dir2) =
        rescript_build_step(&root, &instrument("x.js", Some(rescript(Some("npm run res"), Some("/abs"))))).unwrap();
    assert_eq!(cmd2, "npm run res");
    assert_eq!(dir2.unwrap().display(), "/abs");
    assert!(rescript_build_step(&root, &instrument("x.js", None)).is_none());
}

#[test]
fn rescript_builds_run_once_per_directory() {
    let mut b = JsBundler::new(FsPath::parse("/p"), options(StrMap::new()));
    let dir = FsPath::parse("/p/ui");
    assert!(b.mark_rescript_dir_prepared(&dir));
    assert!(!b.mark_rescript_dir_prepared(&dir));
    assert!(b.mark_rescript_dir_prepared(&FsPath::parse("/p/other")));
}

#[test]
fn simulator_package_accessors() {
    let react = SimulatorPackage::React {
        file_name: Some("pfd".into()),
        template_id: None,
        is_interactive: false,
        imports: vec!["/a.js".into()],
        html_template: None,
        js_template: None,
    };
    assert_eq!(react.kind(), SimulatorPackageKind::React);
    assert_eq!(react.file_name(), "pfd");
    assert!(!react.is_interactive());
    assert_eq!(react.imports().len(), 1);
    let base = SimulatorPackage::BaseInstrument {
        file_name: None,
        template_id: "T".into(),
        mount_element_id: "m".into(),
        imports: Vec::new(),
        html_template: None,
    };
    assert_eq!(base.kind(), SimulatorPackageKind::BaseInstrument);
    assert_eq!(base.file_name(), "instrument");
    assert!(base.is_interactive());
    assert!(rescript(None, None).is_interactive());
    assert_eq!(default_package_dir().display(), "PackageSources");
    assert!(default_true());
}

#[test]
fn verbatim_prefixes() {
    assert_eq!(strip_verbatim_prefix(r"\\?\C:\x\y", true), r"C:\x\y");
    assert_eq!(strip_verbatim_prefix(r"\\?\UNC\server\share", true), r"\\server\share");
    assert_eq!(strip_verbatim_prefix(r"\\?\C:\x", false), r"\\?\C:\x");
    assert_eq!(strip_verbatim_prefix("/usr/x", true), "/usr/x");
}

#[test]
fn bundle_directories() {
    let root = FsPath::parse("/p");
    assert_eq!(bundle_dir(&root, &options(StrMap::new()), "PFD").display(), "/p/bundles/PFD");
    let mut o = options(StrMap::new());
    o.bundles_dir = Some(FsPath::parse("out/js"));
    assert_eq!(bundle_dir(&root, &o, "PFD").display(), "/p/out/js/PFD");
}

#[test]
fn bundler_settings() {
    let root = FsPath::parse("/p");
    let mut env = StrMap::new();
    env.insert("MODE", "say \"hi\"\n\u{1}");
    let mut o = options(env);
    o.minify = true;
    o.sourcemap = Some(SourceMapKind::File);
    let mut inst = instrument("src/index.tsx", None);
    inst.modules.push(ModuleAlias { resolve: "@shared".into(), index: FsPath::parse("shared/index.ts") });
    let c = bundler_options(&root, &o, &inst, &FsPath::parse("/p/bundles/PFD"), &FsPath::parse("/p/src/index.tsx"));
    assert_eq!(c.input_name, "bundle");
    assert_eq!(c.input_import, "/p/src/index.tsx");
    assert_eq!(c.dir, "/p/bundles/PFD");
    assert_eq!(c.cwd.display(), "/p");
    assert_eq!(c.entry_filenames, "[name].js");
    assert_eq!(c.css_entry_filenames, "[name].css");
    assert_eq!(c.external, vec!["/Images/*", "/Fonts/*"]);
    assert_eq!(c.module_types.len(), 5);
    assert_eq!(c.module_types[0].0, ".otf");
    assert_eq!(c.module_types[0].1, ModuleLoader::Asset);
    assert_eq!(c.module_types[4].0, ".cjs");
    assert_eq!(c.module_types[4].1, ModuleLoader::Jsx);
    assert_eq!(c.target, "es2019");
    assert!(!c.treeshake);
    let aliases = c.aliases.unwrap();
    assert_eq!(aliases, vec![("@shared".to_string(), "/p/shared/index.ts".to_string())]);
    let define = c.define.unwrap();
    assert_eq!(define.len(), 1);
    assert_eq!(define[0].0, "process.env.MODE");
    assert_eq!(define[0].1, "\"say \\\"hi\\\"\\n\\u0001\"");
    assert_eq!(c.minify, Some(true));
    assert_eq!(c.sourcemap, Some(SourceMapOutput::Hidden));
}

#[test]
fn bundler_settings_without_extras() {
    let root = FsPath::parse("/p");
    let c = bundler_options(&root, &options(StrMap::new()), &instrument("a.js", None), &root, &root);
    assert!(c.aliases.is_none());
    assert!(c.define.is_none());
    assert!(c.minify.is_none());
    assert!(c.sourcemap.is_none());
}

#[test]
fn emitted_file_kinds() {
    assert_eq!(file_kind_for(&FsPath::parse("/p/x/pfd.html")), FileKind::Template);
    assert_eq!(file_kind_for(&FsPath::parse("/p/x/pfd.css")), FileKind::Style);
    assert_eq!(file_kind_for(&FsPath::parse("/p/x/pfd.mjs")), FileKind::Script);
    assert_eq!(file_kind_for(&FsPath::parse("/p/x/pfd.js.map")), FileKind::SourceMap);
    assert_eq!(file_kind_for(&FsPath::parse("/p/x/.js")), FileKind::Other);
    assert_eq!(file_kind_for(&FsPath::parse("/p/x/README")), FileKind::Other);
}

#[test]
fn rolldown_error_text() {
    assert_eq!(format_rolldown_error("  \n", "Diag { .. }"), "Diag { .. }");
    assert_eq!(format_rolldown_error("bad import", "Diag"), "bad import");
}

#[test]
fn paths_resolve_against_root() {
    let root = FsPath::parse("/p");
    assert_eq!(resolve_path(&root, &FsPath::parse("a/b")).display(), "/p/a/b");
    assert_eq!(resolve_path(&root, &FsPath::parse("/abs/c")).display(), "/abs/c");
}

#[test]
fn failure_details() {
    assert_eq!(build_failure_detail("out\r\n", "  err line\r\nmore\r\n"), "err line\nmore");
    assert_eq!(build_failure_detail("  only out \r\n", " \n"), "only out");
    assert_eq!(build_failure_detail("", ""), "no output captured");
}

#[test]
fn automount_is_injected_before_last_return() {
    let src = "(function(exports){ return exports; x; return exports; })({});";
    let out = inject_rescript_react_automount(src).unwrap();
    assert_eq!(
        out,
        "(function(exports){ return exports; x; if (typeof exports.mount === 'function') { exports.mount(); }\nreturn exports; })({});"
    );
    assert!(inject_rescript_react_automount("no marker").is_none());
}

#[test]
fn shell_commands() {
    let c = shell_command("bun run build", false);
    assert_eq!(c.program, "sh");
    assert_eq!(c.args, vec!["-c", "bun run build"]);
    let w = shell_command("bun run build", true);
    assert_eq!(w.program, "cmd");
    assert_eq!(w.args, vec!["/C", "bun run build"]);
    let r = rescript_build_command("make", &FsPath::parse("/p/ui"), false);
    assert_eq!(r.cwd.unwrap().display(), "/p/ui");
}

#[test]
fn artifact_primary_file_and_total() {
    let f = |p: &str, kind: FileKind, size: u64| GeneratedFile { path: FsPath::parse(p), kind, size_bytes: size };
    let a = JsArtifact {
        instrument_name: "pfd".into(),
        bundle_dir: FsPath::parse("/p/bundles/pfd"),
        generated: vec![
            f("/p/bundles/pfd/bundle.js", FileKind::Script, 100),
            f("/p/pkg/pfd.html", FileKind::Template, 20),
            f("/p/pkg/other.html", FileKind::Template, 5),
        ],
        package: None,
    };
    assert_eq!(a.first_template(), Some(1));
    assert_eq!(a.total_bytes(), 125);
    assert_eq!(a.name(), "pfd");
    assert_eq!(a.files().len(), 3);
    let b = JsArtifact {
        instrument_name: "x".into(),
        bundle_dir: FsPath::parse("/p"),
        generated: vec![f("/a.js", FileKind::Script, u64::MAX), f("/b.css", FileKind::Style, 1)],
        package: None,
    };
    assert_eq!(b.first_template(), None);
    assert_eq!(b.total_bytes(), u64::MAX);
}
