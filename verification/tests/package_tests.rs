use infinity_msfs::package::{
    fspackagetool_candidate, package_command, package_label, project_path, select_sim_packages,
    PackageError, PackageOverrides, SimPackage,
};
use infinity_msfs::path::FsPath;

fn sim(name: &str) -> SimPackage {
    SimPackage {
        name: name.into(),
        project_xml: format!("{}/project.xml", name),
        output_dir: None,
        temp_dir: None,
        marketplace_dir: None,
        force_rebuild: false,
        mirror_output: false,
        prefer_steam: false,
    }
}

fn no_overrides() -> PackageOverrides {
    PackageOverrides { force_rebuild: false, mirror_output: false, prefer_steam: false, marketplace_dir: None }
}

#[test]
fn tool_and_project_paths() {
    assert_eq!(fspackagetool_candidate(&FsPath::parse("/sdk")).display(), "/sdk/Tools/bin/fspackagetool.exe");
    assert_eq!(project_path(&FsPath::parse("/w"), &sim("main")).display(), "/w/main/project.xml");
    assert_eq!(package_label(&sim("main")), "fspackagetool main");
}

#[test]
fn minimal_command() {
    let root = FsPath::parse("/w");
    let c = package_command(&root, &FsPath::parse("/sdk/fspackagetool.exe"), &sim("main"), &no_overrides());
    assert_eq!(c.program, "/sdk/fspackagetool.exe");
    assert_eq!(c.args, vec!["/w/main/project.xml", "-nopause"]);
    assert_eq!(c.cwd.unwrap().display(), "/w");
    assert!(c.env.is_empty());
}

#[test]
fn full_command_with_overrides() {
    let root = FsPath::parse("/w");
    let mut e = sim("main");
    e.output_dir = Some("Packages".into());
    e.temp_dir = Some("_temp".into());
    e.marketplace_dir = Some("market".into());
    e.mirror_output = true;
    let o = PackageOverrides {
        force_rebuild: true,
        mirror_output: false,
        prefer_steam: true,
        marketplace_dir: Some("override".into()),
    };
    let c = package_command(&root, &FsPath::parse("tool.exe"), &e, &o);
    assert_eq!(
        c.args,
        vec![
            "/w/main/project.xml",
            "-outputdir",
            "/w/Packages",
            "-tempdir",
            "/w/_temp",
            "-marketplace",
            "/w/override",
            "-rebuild",
            "-mirroring",
            "-forcesteam",
            "-nopause",
        ]
    );
    let c = package_command(&root, &FsPath::parse("tool.exe"), &e, &no_overrides());
    assert!(c.args.contains(&"/w/market".to_string()));
    assert!(!c.args.contains(&"-rebuild".to_string()));
}

#[test]
fn selection_errors_and_filters() {
    let ps = vec![sim("a"), sim("b"), sim("c")];
    assert!(matches!(select_sim_packages(false, &ps, &Vec::new()), Err(PackageError::WindowsOnly)));
    assert!(matches!(select_sim_packages(true, &Vec::new(), &Vec::new()), Err(PackageError::NoSimPackages)));
    assert_eq!(select_sim_packages(true, &ps, &Vec::new()).ok().unwrap(), vec![0, 1, 2]);
    assert_eq!(select_sim_packages(true, &ps, &vec!["c".to_string(), "a".to_string()]).ok().unwrap(), vec![0, 2]);
    match select_sim_packages(true, &ps, &vec!["z".to_string()]) {
        Err(PackageError::NoMatch { only, available }) => {
            assert_eq!(only, vec!["z".to_string()]);
            assert_eq!(available, "a, b, c");
        }
        _ => panic!("expected NoMatch"),
    }
}
