use infinity_msfs::config::InfinityMsfsToml;
use infinity_msfs::js_config::Instrument;
use infinity_msfs::package::SimPackage;
use infinity_msfs::path::FsPath;
use infinity_msfs::rust_build::RustPackage;
use infinity_msfs::watch::{
    collect_ignored_dirs, collect_watch_dirs, dedup_nested, insert_unique, instrument_watch_dir,
    is_ignored, member_src_dir, short_path, WatchMember,
};

fn p(s: &str) -> FsPath {
    FsPath::parse(s)
}

fn shown(v: &[FsPath]) -> Vec<String> {
    v.iter().map(|x| x.display()).collect()
}

fn member(manifest: &str, is_member: bool, src: bool, man: bool) -> WatchMember {
    WatchMember { manifest: p(manifest), is_member, src_exists: src, manifest_exists: man }
}

fn instrument(index: &str) -> Instrument {
    Instrument { name: "i".into(), index: p(index), simulator_package: None, modules: Vec::new() }
}

#[test]
fn insert_unique_skips_repeats() {
    let mut v = vec![p("/a"), p("/b")];
    insert_unique(&mut v, p("/a/"));
    assert_eq!(shown(&v), vec!["/a", "/b"]);
    insert_unique(&mut v, p("/c"));
    assert_eq!(shown(&v), vec!["/a", "/b", "/c"]);
}

#[test]
fn member_and_instrument_dirs() {
    assert_eq!(member_src_dir(&p("/w/gauge/Cargo.toml")).unwrap().display(), "/w/gauge/src");
    assert!(member_src_dir(&p("/")).is_none());
    assert_eq!(instrument_watch_dir(&p("/w"), &instrument("src/pfd/index.tsx")).unwrap().display(), "/w/src/pfd");
}

#[test]
fn watch_dirs_from_members_and_instruments() {
    let members = vec![
        member("/w/a/Cargo.toml", true, true, true),
        member("/w/dep/Cargo.toml", false, true, true),
        member("/w/b/Cargo.toml", true, false, true),
        member("/w/a/Cargo.toml", true, true, true),
    ];
    let insts = vec![instrument("ui/pfd/index.tsx"), instrument("ui/gone/index.tsx")];
    let r = collect_watch_dirs(&p("/w"), &members, true, &insts, &vec![true, false]);
    assert_eq!(shown(&r), vec!["/w/a/src", "/w/a", "/w/b", "/w/ui/pfd"]);
    let r = collect_watch_dirs(&p("/w"), &members, false, &insts, &vec![true, false]);
    assert_eq!(shown(&r), vec!["/w/a/src", "/w/a", "/w/b"]);
}

#[test]
fn watch_dirs_fall_back_to_root() {
    let r = collect_watch_dirs(&p("/w"), &Vec::new(), true, &Vec::new(), &Vec::new());
    assert_eq!(shown(&r), vec!["/w"]);
}

#[test]
fn ignored_dirs_from_config() {
    let mut cfg = InfinityMsfsToml::default();
    cfg.rust.packages.push(RustPackage {
        cargo_package: "g".into(),
        cargo_bin: None,
        target: None,
        output_dir: Some("out/g".into()),
        artifact_name: None,
        artifact_kind: None,
        cargo_features: Vec::new(),
        copy_files: Vec::new(),
    });
    cfg.sim_packages.push(SimPackage {
        name: "main".into(),
        project_xml: "pkg.xml".into(),
        output_dir: Some("Packages".into()),
        temp_dir: Some("_temp".into()),
        marketplace_dir: None,
        force_rebuild: false,
        mirror_output: false,
        prefer_steam: false,
    });
    let r = collect_ignored_dirs(&p("/w"), &cfg);
    assert_eq!(shown(&r), vec!["/w/target", "/w/.git", "/w/build/msfs", "/w/out/g", "/w/Packages", "/w/_temp"]);
    cfg.rust.output_dir = String::new();
    cfg.rust.packages.clear();
    cfg.sim_packages.clear();
    assert_eq!(shown(&collect_ignored_dirs(&p("/w"), &cfg)), vec!["/w/target", "/w/.git"]);
}

#[test]
fn ignored_changes() {
    let ignored = vec![p("/w/target"), p("/w/.git")];
    assert!(is_ignored(&p("/w/target/debug/x.rs"), &ignored));
    assert!(is_ignored(&p("/w/src/.hidden"), &ignored));
    assert!(is_ignored(&p("/w/src/lib.rs~"), &ignored));
    assert!(is_ignored(&p("/w/src/.lib.rs.swp"), &ignored));
    assert!(is_ignored(&p("/w/src/lib.swp"), &ignored));
    assert!(!is_ignored(&p("/w/src/lib.rs"), &ignored));
    assert!(!is_ignored(&p("/w/targets/x.rs"), &ignored));
}

#[test]
fn short_paths() {
    assert_eq!(short_path(&p("/w"), &p("/w/src/lib.rs")), "src/lib.rs");
    assert_eq!(short_path(&p("/w"), &p("/other/x")), "/other/x");
}

#[test]
fn nested_dirs_are_dropped() {
    let dirs = vec![p("/w/a/src"), p("/w/b"), p("/w/a"), p("/w/b/c/d"), p("/x")];
    let r = dedup_nested(&dirs);
    assert_eq!(shown(&r), vec!["/x", "/w/b", "/w/a"]);
    let r = dedup_nested(&Vec::new());
    assert!(r.is_empty());
}

#[test]
fn nested_dirs_count_the_root_as_a_component() {
    let r = dedup_nested(&vec![p("/a/b"), p("c/d")]);
    assert_eq!(shown(&r), vec!["c/d", "/a/b"]);
    let r = dedup_nested(&vec![p("/a"), p("b")]);
    assert_eq!(shown(&r), vec!["b", "/a"]);
}
