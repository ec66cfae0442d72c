//! Simulator packages compiled by `fspackagetool.exe`.
use vstd::prelude::*;
use crate::command::{views, CommandSpec};
use crate::path::{join_text, parse_path, path_display, path_join, FsPath, PathView};
use crate::rust_build::is_selected;
use crate::text::{copy_string, join_with};

verus! {

/// One MSFS project file fed to `fspackagetool.exe`.
pub struct SimPackage {
    pub name: String,
    pub project_xml: String,
    pub output_dir: Option<String>,
    pub temp_dir: Option<String>,
    pub marketplace_dir: Option<String>,
    pub force_rebuild: bool,
    pub mirror_output: bool,
    pub prefer_steam: bool,
}

/// Settings that override every selected entry.
pub struct PackageOverrides {
    pub force_rebuild: bool,
    pub mirror_output: bool,
    pub prefer_steam: bool,
    pub marketplace_dir: Option<String>,
}

/// Where the package tool lives in a full SDK:
/// `<sdk>/Tools/bin/fspackagetool.exe`.
pub fn fspackagetool_candidate(sdk: &FsPath) -> (r: FsPath)
    ensures
        r@ == join_text(join_text(join_text(sdk@, "Tools"@), "bin"@), "fspackagetool.exe"@),
{
    sdk.join_str("Tools").join_str("bin").join_str("fspackagetool.exe")
}

/// The project file of an entry, under the root.
pub fn project_path(root: &FsPath, entry: &SimPackage) -> (r: FsPath)
    ensures
        r@ == join_text(root@, entry.project_xml@),
{
    root.join_str(entry.project_xml.as_str())
}

pub open spec fn opt_dir_args(flag: Seq<char>, root: PathView, dir: Option<Seq<char>>) -> Seq<Seq<char>> {
    match dir {
        Some(d) => seq![flag, path_display(join_text(root, d))],
        None => Seq::empty(),
    }
}

pub open spec fn opt_str(o: Option<String>) -> Option<Seq<char>> {
    match o {
        Some(s) => Some(s@),
        None => None,
    }
}

pub open spec fn flag_arg(on: bool, flag: Seq<char>) -> Seq<Seq<char>> {
    if on {
        seq![flag]
    } else {
        Seq::empty()
    }
}

/// The arguments given to `fspackagetool.exe` for an entry: the project,
/// its output, temp and marketplace directories (the override's
/// marketplace first), the switches that either the entry or the
/// overrides turn on, and `-nopause`.
pub open spec fn package_args_spec(root: PathView, entry: SimPackage, overrides: PackageOverrides) -> Seq<Seq<char>> {
    seq![path_display(join_text(root, entry.project_xml@))] + opt_dir_args(
        "-outputdir"@,
        root,
        opt_str(entry.output_dir),
    ) + opt_dir_args("-tempdir"@, root, opt_str(entry.temp_dir)) + opt_dir_args(
        "-marketplace"@,
        root,
        match overrides.marketplace_dir {
            Some(m) => Some(m@),
            None => opt_str(entry.marketplace_dir),
        },
    ) + flag_arg(entry.force_rebuild || overrides.force_rebuild, "-rebuild"@) + flag_arg(
        entry.mirror_output || overrides.mirror_output,
        "-mirroring"@,
    ) + flag_arg(entry.prefer_steam || overrides.prefer_steam, "-forcesteam"@) + seq!["-nopause"@]
}

fn push_dir_args(args: &mut Vec<String>, flag: &str, root: &FsPath, dir: Option<&String>)
    ensures
        views(final(args)@) == views(old(args)@) + opt_dir_args(
            flag@,
            root@,
            match dir {
                Some(d) => Some(d@),
                None => None,
            },
        ),
{
    if let Some(d) = dir {
        let ghost b = args@;
        args.push(copy_string(flag));
        args.push(root.join_str(d.as_str()).display());
        assert(views(args@) =~= views(b) + opt_dir_args(flag@, root@, Some(d@)));
    } else {
        assert(views(args@) =~= views(args@) + Seq::<Seq<char>>::empty());
    }
}

fn push_flag(args: &mut Vec<String>, on: bool, flag: &str)
    ensures
        views(final(args)@) == views(old(args)@) + flag_arg(on, flag@),
{
    let ghost b = args@;
    if on {
        args.push(copy_string(flag));
    }
    assert(views(args@) =~= views(b) + flag_arg(on, flag@));
}

/// The `fspackagetool.exe` command for one entry, run in the root.
pub fn package_command(root: &FsPath, tool: &FsPath, entry: &SimPackage, overrides: &PackageOverrides) -> (c:
    CommandSpec)
    ensures
        c.program@ == path_display(tool@),
        c.args_view() == package_args_spec(root@, *entry, *overrides),
        c.cwd_view() == Some(root@),
        c.env@.len() == 0,
{
    let mut args: Vec<String> = Vec::new();
    args.push(project_path(root, entry).display());
    push_dir_args(&mut args, "-outputdir", root, entry.output_dir.as_ref());
    push_dir_args(&mut args, "-tempdir", root, entry.temp_dir.as_ref());
    let marketplace = match &overrides.marketplace_dir {
        Some(m) => Some(m),
        None => entry.marketplace_dir.as_ref(),
    };
    push_dir_args(&mut args, "-marketplace", root, marketplace);
    push_flag(&mut args, entry.force_rebuild || overrides.force_rebuild, "-rebuild");
    push_flag(&mut args, entry.mirror_output || overrides.mirror_output, "-mirroring");
    push_flag(&mut args, entry.prefer_steam || overrides.prefer_steam, "-forcesteam");
    let ghost b = args@;
    args.push(copy_string("-nopause"));
    assert(views(args@) =~= views(b) + seq!["-nopause"@]);
    CommandSpec { program: tool.display(), args, cwd: Some(root.duplicate()), env: Vec::new() }
}

/// The label under which an entry's run is reported.
pub fn package_label(entry: &SimPackage) -> (r: String)
    ensures
        r@ == "fspackagetool "@ + entry.name@,
{
    let mut s = copy_string("fspackagetool ");
    s.append(entry.name.as_str());
    s
}

proof fn lemma_contains_add(a: Seq<Seq<char>>, b: Seq<Seq<char>>, x: Seq<char>)
    ensures
        (a + b).contains(x) <==> (a.contains(x) || b.contains(x)),
{
    if (a + b).contains(x) {
        let i = choose|i: int| 0 <= i < (a + b).len() && (a + b)[i] == x;
        if i < a.len() {
            assert(a[i] == x);
        } else {
            assert(b[i - a.len()] == x);
        }
    }
    if a.contains(x) {
        let i = choose|i: int| 0 <= i < a.len() && a[i] == x;
        assert((a + b)[i] == x);
    }
    if b.contains(x) {
        let i = choose|i: int| 0 <= i < b.len() && b[i] == x;
        assert((a + b)[a.len() + i] == x);
    }
}

/// One of fspackagetool's switches.
pub open spec fn is_switch(x: Seq<char>) -> bool {
    x == "-rebuild"@ || x == "-mirroring"@ || x == "-forcesteam"@
}

/// A directory argument, when given, is not shown as a switch.
pub open spec fn dir_not_switch(root: PathView, dir: Option<String>) -> bool {
    match dir {
        Some(d) => !is_switch(path_display(join_text(root, d@))),
        None => true,
    }
}

proof fn lemma_switch_literals()
    ensures
        is_switch("-rebuild"@),
        is_switch("-mirroring"@),
        is_switch("-forcesteam"@),
        "-rebuild"@ != "-mirroring"@,
        "-rebuild"@ != "-forcesteam"@,
        "-mirroring"@ != "-forcesteam"@,
        !is_switch("-nopause"@),
        !is_switch("-outputdir"@),
        !is_switch("-tempdir"@),
        !is_switch("-marketplace"@),
{
    reveal_strlit("-rebuild");
    reveal_strlit("-mirroring");
    reveal_strlit("-forcesteam");
    reveal_strlit("-nopause");
    reveal_strlit("-outputdir");
    reveal_strlit("-tempdir");
    reveal_strlit("-marketplace");
    assert("-rebuild"@.len() != "-mirroring"@.len());
    assert("-rebuild"@.len() != "-forcesteam"@.len());
    assert("-mirroring"@.len() != "-forcesteam"@.len());
    assert("-nopause"@[1] != "-rebuild"@[1]);
    assert("-nopause"@.len() != "-mirroring"@.len());
    assert("-nopause"@.len() != "-forcesteam"@.len());
    assert("-outputdir"@.len() != "-rebuild"@.len());
    assert("-outputdir"@[1] != "-mirroring"@[1]);
    assert("-outputdir"@.len() != "-forcesteam"@.len());
    assert("-tempdir"@[1] != "-rebuild"@[1]);
    assert("-tempdir"@.len() != "-mirroring"@.len());
    assert("-tempdir"@.len() != "-forcesteam"@.len());
    assert("-marketplace"@.len() != "-rebuild"@.len());
    assert("-marketplace"@.len() != "-mirroring"@.len());
    assert("-marketplace"@.len() != "-forcesteam"@.len());
}

proof fn lemma_dir_args_no_switch(flag: Seq<char>, root: PathView, dir: Option<String>, x: Seq<char>)
    requires
        !is_switch(flag),
        dir_not_switch(root, dir),
        is_switch(x),
    ensures
        !opt_dir_args(flag, root, opt_str(dir)).contains(x),
{
    if let Some(d) = dir {
        let a = opt_dir_args(flag, root, opt_str(dir));
        assert(a == seq![flag, path_display(join_text(root, d@))]);
        if a.contains(x) {
            let i = choose|i: int| 0 <= i < a.len() && a[i] == x;
            assert(i == 0 || i == 1);
        }
    }
}

proof fn lemma_flag_arg(on: bool, flag: Seq<char>, x: Seq<char>)
    ensures
        flag_arg(on, flag).contains(x) <==> (on && x == flag),
{
    if on {
        assert(flag_arg(on, flag)[0] == flag);
    }
}

/// A switch `x` is among the arguments exactly when it is among the
/// switches the entry and overrides turn on.
proof fn lemma_args_switch(root: PathView, entry: SimPackage, overrides: PackageOverrides, x: Seq<char>)
    requires
        is_switch(x),
        !is_switch(path_display(join_text(root, entry.project_xml@))),
        dir_not_switch(root, entry.output_dir),
        dir_not_switch(root, entry.temp_dir),
        match overrides.marketplace_dir {
            Some(m) => dir_not_switch(root, Some(m)),
            None => dir_not_switch(root, entry.marketplace_dir),
        },
    ensures
        package_args_spec(root, entry, overrides).contains(x) <==> (
        flag_arg(entry.force_rebuild || overrides.force_rebuild, "-rebuild"@).contains(x)
            || flag_arg(entry.mirror_output || overrides.mirror_output, "-mirroring"@).contains(x)
            || flag_arg(entry.prefer_steam || overrides.prefer_steam, "-forcesteam"@).contains(x)),
{
    lemma_switch_literals();
    let a0 = seq![path_display(join_text(root, entry.project_xml@))];
    let a1 = opt_dir_args("-outputdir"@, root, opt_str(entry.output_dir));
    let a2 = opt_dir_args("-tempdir"@, root, opt_str(entry.temp_dir));
    let mk = match overrides.marketplace_dir {
        Some(m) => Some(m),
        None => entry.marketplace_dir,
    };
    let a3 = opt_dir_args("-marketplace"@, root, opt_str(mk));
    assert(a3 == opt_dir_args(
        "-marketplace"@,
        root,
        match overrides.marketplace_dir {
            Some(m) => Some(m@),
            None => opt_str(entry.marketplace_dir),
        },
    ));
    let f1 = flag_arg(entry.force_rebuild || overrides.force_rebuild, "-rebuild"@);
    let f2 = flag_arg(entry.mirror_output || overrides.mirror_output, "-mirroring"@);
    let f3 = flag_arg(entry.prefer_steam || overrides.prefer_steam, "-forcesteam"@);
    let last = seq!["-nopause"@];
    assert(!a0.contains(x)) by {
        if a0.contains(x) {
            let i = choose|i: int| 0 <= i < a0.len() && a0[i] == x;
            assert(i == 0);
        }
    }
    lemma_dir_args_no_switch("-outputdir"@, root, entry.output_dir, x);
    lemma_dir_args_no_switch("-tempdir"@, root, entry.temp_dir, x);
    lemma_dir_args_no_switch("-marketplace"@, root, mk, x);
    assert(!last.contains(x)) by {
        if last.contains(x) {
            let i = choose|i: int| 0 <= i < last.len() && last[i] == x;
            assert(i == 0);
        }
    }
    let p1 = a0 + a1;
    let p2 = p1 + a2;
    let p3 = p2 + a3;
    let p4 = p3 + f1;
    let p5 = p4 + f2;
    let p6 = p5 + f3;
    assert(package_args_spec(root, entry, overrides) == p6 + last);
    lemma_contains_add(a0, a1, x);
    lemma_contains_add(p1, a2, x);
    lemma_contains_add(p2, a3, x);
    lemma_contains_add(p3, f1, x);
    lemma_contains_add(p4, f2, x);
    lemma_contains_add(p5, f3, x);
    lemma_contains_add(p6, last, x);
}

/// Each switch is passed exactly when the entry or the command line asks
/// for it: `-rebuild` for a forced rebuild, `-mirroring` for mirrored
/// output, `-forcesteam` for Steam; and the command always ends with
/// `-nopause`. (Left out: paths that would themselves read as a switch.)
pub proof fn law_package_switches(root: PathView, entry: SimPackage, overrides: PackageOverrides)
    requires
        !is_switch(path_display(join_text(root, entry.project_xml@))),
        dir_not_switch(root, entry.output_dir),
        dir_not_switch(root, entry.temp_dir),
        match overrides.marketplace_dir {
            Some(m) => dir_not_switch(root, Some(m)),
            None => dir_not_switch(root, entry.marketplace_dir),
        },
    ensures
        package_args_spec(root, entry, overrides).contains("-rebuild"@) <==> (entry.force_rebuild
            || overrides.force_rebuild),
        package_args_spec(root, entry, overrides).contains("-mirroring"@) <==> (entry.mirror_output
            || overrides.mirror_output),
        package_args_spec(root, entry, overrides).contains("-forcesteam"@) <==> (entry.prefer_steam
            || overrides.prefer_steam),
        package_args_spec(root, entry, overrides).last() == "-nopause"@,
{
    lemma_switch_literals();
    let b1 = entry.force_rebuild || overrides.force_rebuild;
    let b2 = entry.mirror_output || overrides.mirror_output;
    let b3 = entry.prefer_steam || overrides.prefer_steam;
    lemma_args_switch(root, entry, overrides, "-rebuild"@);
    lemma_flag_arg(b1, "-rebuild"@, "-rebuild"@);
    lemma_flag_arg(b2, "-mirroring"@, "-rebuild"@);
    lemma_flag_arg(b3, "-forcesteam"@, "-rebuild"@);
    lemma_args_switch(root, entry, overrides, "-mirroring"@);
    lemma_flag_arg(b1, "-rebuild"@, "-mirroring"@);
    lemma_flag_arg(b2, "-mirroring"@, "-mirroring"@);
    lemma_flag_arg(b3, "-forcesteam"@, "-mirroring"@);
    lemma_args_switch(root, entry, overrides, "-forcesteam"@);
    lemma_flag_arg(b1, "-rebuild"@, "-forcesteam"@);
    lemma_flag_arg(b2, "-mirroring"@, "-forcesteam"@);
    lemma_flag_arg(b3, "-forcesteam"@, "-forcesteam"@);
}

/// Why `package` refused to run.
pub enum PackageError {
    /// fspackagetool only runs on Windows.
    WindowsOnly,
    /// `[[sim_packages]]` is empty.
    NoSimPackages,
    /// The filter matched nothing; `available` lists the names, joined
    /// by `, `.
    NoMatch { only: Vec<String>, available: String },
}

/// The entries selected by `only`: all when it is empty, else those it
/// names, in order.
pub open spec fn selected_entries(names: Seq<Seq<char>>, only: Seq<Seq<char>>) -> Seq<int>
    decreases names.len(),
{
    if names.len() == 0 {
        Seq::empty()
    } else {
        selected_entries(names.drop_last(), only) + if only.len() == 0 || only.contains(
            names.last(),
        ) {
            seq![names.len() - 1]
        } else {
            Seq::<int>::empty()
        }
    }
}

/// With no filter every entry is selected, in order.
pub proof fn law_no_filter_selects_all(names: Seq<Seq<char>>)
    ensures
        selected_entries(names, Seq::empty()) == Seq::new(names.len(), |i: int| i),
    decreases names.len(),
{
    if names.len() > 0 {
        law_no_filter_selects_all(names.drop_last());
        assert(selected_entries(names, Seq::empty()) =~= Seq::new(names.len(), |i: int| i));
    } else {
        assert(selected_entries(names, Seq::empty()) =~= Seq::new(names.len(), |i: int| i));
    }
}

/// The entries `package` runs, by index.
pub fn select_sim_packages(windows: bool, packages: &Vec<SimPackage>, only: &Vec<String>) -> (r:
    Result<Vec<usize>, PackageError>)
    ensures
        !windows ==> r matches Err(PackageError::WindowsOnly),
        windows && packages.len() == 0 ==> r matches Err(PackageError::NoSimPackages),
        windows && packages.len() > 0 ==> match r {
            Ok(sel) => sel@.map_values(|i: usize| i as int) == selected_entries(
                packages@.map_values(|p: SimPackage| p.name@),
                views(only@),
            ) && sel@.len() > 0,
            Err(PackageError::NoMatch { only: o, available }) => selected_entries(
                packages@.map_values(|p: SimPackage| p.name@),
                views(only@),
            ).len() == 0 && views(o@) == views(only@) && available@ == join_with(
                packages@.map_values(|p: SimPackage| p.name@),
                ", "@,
            ),
            _ => false,
        },
{
    if !windows {
        return Err(PackageError::WindowsOnly);
    }
    if packages.len() == 0 {
        return Err(PackageError::NoSimPackages);
    }
    let ghost names = packages@.map_values(|p: SimPackage| p.name@);
    let mut sel: Vec<usize> = Vec::new();
    let mut i: usize = 0;
    assert(names.take(0) =~= Seq::<Seq<char>>::empty());
    while i < packages.len()
        invariant
            i <= packages.len(),
            names == packages@.map_values(|p: SimPackage| p.name@),
            sel@.map_values(|k: usize| k as int) == selected_entries(names.take(i as int), views(only@)),
        decreases packages.len() - i,
    {
        let ghost b = sel@;
        let keep = only.len() == 0 || is_selected(only, packages[i].name.as_str());
        if keep {
            sel.push(i);
        }
        proof {
            let t = names.take(i + 1);
            assert(t.drop_last() =~= names.take(i as int));
            assert(t.last() == packages@[i as int].name@);
            assert(sel@.map_values(|k: usize| k as int) =~= selected_entries(t, views(only@)));
        }
        i += 1;
    }
    assert(names.take(packages.len() as int) =~= names);
    if sel.len() == 0 {
        let mut o: Vec<String> = Vec::new();
        let mut j: usize = 0;
        while j < only.len()
            invariant
                j <= only.len(),
                views(o@) == views(only@.take(j as int)),
            decreases only.len() - j,
        {
            let ghost b = o@;
            o.push(only[j].clone());
            assert(views(o@) =~= views(b).push(only@[j as int]@));
            assert(views(only@.take(j + 1)) =~= views(only@.take(j as int)).push(only@[j as int]@));
            j += 1;
        }
        assert(only@.take(only.len() as int) =~= only@);
        let mut available: Vec<char> = Vec::new();
        let mut k: usize = 0;
        while k < packages.len()
            invariant
                k <= packages.len(),
                names == packages@.map_values(|p: SimPackage| p.name@),
                available@ == join_with(names.take(k as int), ", "@),
            decreases packages.len() - k,
        {
            if k > 0 {
                crate::text::extend_chars(&mut available, &crate::text::chars_of(", "));
            }
            crate::text::extend_chars(&mut available, &crate::text::chars_of(packages[k].name.as_str()));
            proof {
                let t = names.take(k + 1);
                assert(t.drop_last() =~= names.take(k as int));
                if k == 0 {
                    assert(available@ =~= join_with(t, ", "@));
                }
            }
            k += 1;
        }
        return Err(PackageError::NoMatch { only: o, available: crate::text::string_of(&available) });
    }
    Ok(sel)
}

} // verus!
