//! The decisions of the `build`, `projects`, `watch`, `create` and test
//! commands, apart from the work they start.
use vstd::prelude::*;
use crate::bundler::{BundleOptions, SourceMapKind};
use crate::casing::{ascii_alnum, ascii_digit, ascii_lower, ascii_upper};
use crate::command::views;
use crate::config::{AegisConfig, BuildArgs, CreateArgs, InfinityMsfsToml, WatchArgs};
use crate::js_config::Instrument;
use crate::package::selected_entries;
use crate::path::{path_display, FsPath};
use crate::rust_build::{is_selected, ArtifactKind, BuildPlan, HostOs};
use crate::strmap::StrMap;
use crate::template::CreateOptions;
use crate::text::{chars_of, copy_string, has_prefix, str_eq, string_of, trim, trim_chars};

verus! {

/// Why a command refused to go on.
pub enum FlowError {
    /// A `--sourcemap` value other than `inline`, `external`, `linked`,
    /// `file`.
    UnknownSourcemap { value: String },
    /// Neither Rust packages nor a `[js]` section to build.
    NothingToBuild,
    /// `--only` matched none of the `before` configured packages.
    NoTestMatch { only: Vec<String>, before: usize },
    /// Nothing to list.
    NoProjects,
}

// ---------------------------------------------------------------------
// JS pipeline
// ---------------------------------------------------------------------

pub open spec fn sourcemap_flag_spec(flag: Seq<char>) -> Option<SourceMapKind> {
    if flag == "inline"@ {
        Some(SourceMapKind::Inline)
    } else if flag == "external"@ || flag == "linked"@ {
        Some(SourceMapKind::External)
    } else if flag == "file"@ {
        Some(SourceMapKind::File)
    } else {
        None
    }
}

/// The sourcemap kind a `--sourcemap` value asks for.
pub fn parse_sourcemap_flag(flag: Option<&str>) -> (r: Result<Option<SourceMapKind>, FlowError>)
    ensures
        match flag {
            None => r == Ok::<Option<SourceMapKind>, FlowError>(None),
            Some(f) => match sourcemap_flag_spec(f@) {
                Some(k) => r == Ok::<Option<SourceMapKind>, FlowError>(Some(k)),
                None => r matches Err(FlowError::UnknownSourcemap { value }) && value@ == f@,
            },
        },
{
    match flag {
        None => Ok(None),
        Some(f) => if str_eq(f, "inline") {
            Ok(Some(SourceMapKind::Inline))
        } else if str_eq(f, "external") || str_eq(f, "linked") {
            Ok(Some(SourceMapKind::External))
        } else if str_eq(f, "file") {
            Ok(Some(SourceMapKind::File))
        } else {
            Err(FlowError::UnknownSourcemap { value: copy_string(f) })
        },
    }
}

/// An environment variable name the bundler accepts: an ASCII letter or
/// `_`, then ASCII letters, digits and `_`.
pub open spec fn env_identifier_ok(k: Seq<char>) -> bool {
    &&& k.len() > 0
    &&& (ascii_lower(k[0]) || ascii_upper(k[0]) || k[0] == '_')
    &&& forall|i: int| 1 <= i < k.len() ==> ascii_alnum(#[trigger] k[i]) || k[i] == '_'
}

pub fn is_valid_env_identifier(k: &str) -> (r: bool)
    ensures
        r == env_identifier_ok(k@),
{
    let v = chars_of(k);
    if v.len() == 0 {
        return false;
    }
    let c = v[0];
    if '0' <= c && c <= '9' {
        return false;
    }
    if !(('a' <= c && c <= 'z') || ('A' <= c && c <= 'Z') || c == '_') {
        return false;
    }
    let mut i: usize = 1;
    while i < v.len()
        invariant
            1 <= i <= v.len(),
            v@ == k@,
            forall|j: int| 1 <= j < i ==> ascii_alnum(#[trigger] v@[j]) || v@[j] == '_',
        decreases v.len() - i,
    {
        let d = v[i];
        if !(('a' <= d && d <= 'z') || ('A' <= d && d <= 'Z') || ('0' <= d && d <= '9') || d
            == '_') {
            assert(!(ascii_alnum(k@[i as int]) || k@[i as int] == '_'));
            return false;
        }
        i += 1;
    }
    true
}

/// The value the environment gives `k` among the first `n` variables with
/// acceptable names: the last one set.
pub open spec fn env_value(vars: Seq<(Seq<char>, Seq<char>)>, k: Seq<char>, n: int) -> Option<Seq<char>>
    decreases n,
{
    if n <= 0 {
        None
    } else if vars[n - 1].0 == k && env_identifier_ok(k) {
        Some(vars[n - 1].1)
    } else {
        env_value(vars, k, n - 1)
    }
}

/// The substitutions a bundle gets from the environment: the variables
/// whose names the bundler accepts.
pub fn env_for_bundle(vars: &Vec<(String, String)>) -> (m: StrMap)
    ensures
        m.wf(),
        forall|k: Seq<char>| #[trigger] m.lookup(k) == env_value(
            vars@.map_values(|e: (String, String)| (e.0@, e.1@)),
            k,
            vars@.len() as int,
        ),
{
    let ghost vs = vars@.map_values(|e: (String, String)| (e.0@, e.1@));
    let mut m = StrMap::new();
    let mut i: usize = 0;
    while i < vars.len()
        invariant
            i <= vars.len(),
            vs == vars@.map_values(|e: (String, String)| (e.0@, e.1@)),
            m.wf(),
            forall|k: Seq<char>| #[trigger] m.lookup(k) == env_value(vs, k, i as int),
        decreases vars.len() - i,
    {
        if is_valid_env_identifier(vars[i].0.as_str()) {
            m.insert(vars[i].0.as_str(), vars[i].1.as_str());
        }
        i += 1;
    }
    m
}

/// Options of a JS build from the command line and the environment.
pub fn js_bundle_options(
    minify: bool,
    sourcemap: Option<&str>,
    skip_simulator_package: bool,
    env_vars: &Vec<(String, String)>,
) -> (r: Result<BundleOptions, FlowError>)
    ensures
        match sourcemap {
            Some(f) => sourcemap_flag_spec(f@) is None ==> (r matches Err(
                FlowError::UnknownSourcemap { value },
            ) && value@ == f@),
            None => true,
        },
        r matches Ok(o) ==> {
            &&& o.bundles_dir is None
            &&& o.minify == minify
            &&& o.skip_simulator_package == skip_simulator_package
            &&& o.sourcemap == match sourcemap {
                Some(f) => sourcemap_flag_spec(f@),
                None => None,
            }
            &&& o.env.wf()
            &&& forall|k: Seq<char>| #[trigger] o.env.lookup(k) == env_value(
                env_vars@.map_values(|e: (String, String)| (e.0@, e.1@)),
                k,
                env_vars@.len() as int,
            )
        },
        (match sourcemap {
            Some(f) => sourcemap_flag_spec(f@) is Some,
            None => true,
        }) ==> r is Ok,
{
    let kind = match parse_sourcemap_flag(sourcemap) {
        Ok(k) => k,
        Err(e) => {
            return Err(e);
        },
    };
    Ok(
        BundleOptions {
            bundles_dir: None,
            minify,
            sourcemap: kind,
            skip_simulator_package,
            env: env_for_bundle(env_vars),
        },
    )
}

/// The instruments a JS build bundles: all, or those named in `only`.
pub fn select_instruments(instruments: &Vec<Instrument>, only: &Vec<String>) -> (r: Vec<usize>)
    ensures
        r@.map_values(|i: usize| i as int) == selected_entries(
            instruments@.map_values(|t: Instrument| t.name@),
            views(only@),
        ),
{
    let ghost names = instruments@.map_values(|t: Instrument| t.name@);
    let mut sel: Vec<usize> = Vec::new();
    let mut i: usize = 0;
    assert(names.take(0) =~= Seq::<Seq<char>>::empty());
    while i < instruments.len()
        invariant
            i <= instruments.len(),
            names == instruments@.map_values(|t: Instrument| t.name@),
            sel@.map_values(|k: usize| k as int) == selected_entries(
                names.take(i as int),
                views(only@),
            ),
        decreases instruments.len() - i,
    {
        let keep = only.len() == 0 || is_selected(only, instruments[i].name.as_str());
        if keep {
            sel.push(i);
        }
        proof {
            let t = names.take(i + 1);
            assert(t.drop_last() =~= names.take(i as int));
            assert(t.last() == instruments@[i as int].name@);
            assert(sel@.map_values(|k: usize| k as int) =~= selected_entries(t, views(only@)));
        }
        i += 1;
    }
    assert(names.take(instruments.len() as int) =~= names);
    sel
}

// ---------------------------------------------------------------------
// build
// ---------------------------------------------------------------------

/// Which pipelines a build runs: Rust unless `--js-only` (and only with
/// packages configured), JS unless `--rust-only` or `--native` and only
/// with a `[js]` section. Refused when neither runs.
pub fn build_targets(args: &BuildArgs, cfg: &InfinityMsfsToml) -> (r: Result<(bool, bool), FlowError>)
    ensures
        ({
            let any_rust = !args.js_only && cfg.rust.packages@.len() > 0;
            let any_js = !args.rust_only && !args.native && cfg.js is Some;
            if any_rust || any_js {
                r == Ok::<(bool, bool), FlowError>((any_rust, any_js))
            } else {
                r matches Err(FlowError::NothingToBuild)
            }
        }),
{
    let do_rust = !args.js_only;
    let do_js = !args.rust_only && !args.native && cfg.js.is_some();
    let any_rust = do_rust && cfg.rust.packages.len() > 0;
    if !any_rust && !do_js {
        return Err(FlowError::NothingToBuild);
    }
    Ok((any_rust, do_js))
}

/// A plan builds on `host` unless it is a SimConnect executable
/// (`native`), which builds on Windows only.
pub open spec fn host_can_build(kind: ArtifactKind, host: HostOs) -> bool {
    host == HostOs::Windows || kind != ArtifactKind::Native
}

/// The indices of the plans among `kinds[..n]` that build on `host`.
pub open spec fn buildable_indices(kinds: Seq<ArtifactKind>, host: HostOs, n: int) -> Seq<int>
    decreases n,
{
    if n <= 0 {
        Seq::empty()
    } else {
        buildable_indices(kinds, host, n - 1) + if host_can_build(kinds[n - 1], host) {
            seq![n - 1]
        } else {
            Seq::<int>::empty()
        }
    }
}

/// The plans that can be built on this host, by index; the others are
/// skipped with a warning.
pub fn host_buildable_plans(plans: &Vec<BuildPlan>, host: HostOs) -> (r: Vec<usize>)
    ensures
        r@.map_values(|i: usize| i as int) == buildable_indices(
            plans@.map_values(|p: BuildPlan| p.kind),
            host,
            plans@.len() as int,
        ),
{
    let ghost kinds = plans@.map_values(|p: BuildPlan| p.kind);
    let mut kept: Vec<usize> = Vec::new();
    let mut i: usize = 0;
    while i < plans.len()
        invariant
            i <= plans.len(),
            kinds == plans@.map_values(|p: BuildPlan| p.kind),
            kept@.map_values(|k: usize| k as int) == buildable_indices(kinds, host, i as int),
        decreases plans.len() - i,
    {
        if host == HostOs::Windows || plans[i].kind != ArtifactKind::Native {
            kept.push(i);
        }
        assert(kept@.map_values(|k: usize| k as int) =~= buildable_indices(kinds, host, i + 1));
        i += 1;
    }
    kept
}

/// The SDK is needed for wasm builds (its WASI sysroot) and SimConnect
/// executables (its import library), not for emulator libraries.
pub fn plans_need_sdk(plans: &Vec<BuildPlan>) -> (r: bool)
    ensures
        r == exists|i: int|
            0 <= i < plans@.len() && (#[trigger] plans@[i].kind == ArtifactKind::Wasm
                || plans@[i].kind == ArtifactKind::Native),
{
    let mut i: usize = 0;
    while i < plans.len()
        invariant
            i <= plans.len(),
            forall|j: int|
                0 <= j < i ==> !(#[trigger] plans@[j].kind == ArtifactKind::Wasm
                    || plans@[j].kind == ArtifactKind::Native),
        decreases plans.len() - i,
    {
        if plans[i].kind == ArtifactKind::Wasm || plans[i].kind == ArtifactKind::Native {
            return true;
        }
        i += 1;
    }
    false
}

/// A plan's artifact goes through wasm-opt when the optimiser is on in
/// the configuration, not turned off on the command line, and the plan
/// builds wasm; otherwise the built file is copied.
pub fn runs_wasm_opt(enabled: bool, no_wasm_opt: bool, kind: ArtifactKind) -> (r: bool)
    ensures
        r == (enabled && !no_wasm_opt && kind == ArtifactKind::Wasm),
{
    enabled && !no_wasm_opt && kind == ArtifactKind::Wasm
}

// ---------------------------------------------------------------------
// aegis
// ---------------------------------------------------------------------

/// The configured build id, when it is set and not empty.
pub fn aegis_explicit_id(a: &AegisConfig) -> (r: Option<String>)
    ensures
        match a.build_id {
            Some(b) => if b@.len() > 0 {
                r matches Some(s) && s@ == b@
            } else {
                r is None
            },
            None => r is None,
        },
{
    match &a.build_id {
        Some(b) => if b.as_str().is_empty() {
            None
        } else {
            Some(b.clone())
        },
        None => None,
    }
}

/// `<prefix>-<short sha>`, with `-dirty` when the tree has uncommitted
/// changes; `sha_output` is what `git rev-parse --short HEAD` printed.
pub fn derive_build_id(prefix: &str, sha_output: &str, dirty: bool) -> (r: String)
    ensures
        r@ == prefix@ + "-"@ + trim(sha_output@) + if dirty {
            "-dirty"@
        } else {
            Seq::<char>::empty()
        },
{
    let mut s = copy_string(prefix);
    s.append("-");
    let sha = string_of(&trim_chars(&chars_of(sha_output)));
    s.append(sha.as_str());
    if dirty {
        s.append("-dirty");
    }
    proof {
        reveal_strlit("-dirty");
    }
    s
}

/// The variables a build exports: each configured one set to the build
/// id, then `AEGIS_BUILD_PROFILE` set to `release` or `debug`.
pub fn aegis_exports(a: &AegisConfig, build_id: &str, release: bool) -> (r: Vec<(String, String)>)
    ensures
        r@.map_values(|e: (String, String)| (e.0@, e.1@)) == views(a.build_id_env@).map_values(
            |v: Seq<char>| (v, build_id@),
        ).push(("AEGIS_BUILD_PROFILE"@, if release { "release"@ } else { "debug"@ })),
{
    let mut out: Vec<(String, String)> = Vec::new();
    let mut i: usize = 0;
    while i < a.build_id_env.len()
        invariant
            i <= a.build_id_env.len(),
            out@.map_values(|e: (String, String)| (e.0@, e.1@)) == views(a.build_id_env@).take(
                i as int,
            ).map_values(|v: Seq<char>| (v, build_id@)),
        decreases a.build_id_env.len() - i,
    {
        let ghost b = out@;
        out.push((a.build_id_env[i].clone(), copy_string(build_id)));
        assert(out@.map_values(|e: (String, String)| (e.0@, e.1@)) =~= b.map_values(
            |e: (String, String)| (e.0@, e.1@),
        ).push((a.build_id_env@[i as int]@, build_id@)));
        assert(views(a.build_id_env@).take(i + 1) =~= views(a.build_id_env@).take(i as int).push(
            a.build_id_env@[i as int]@,
        ));
        i += 1;
    }
    assert(views(a.build_id_env@).take(a.build_id_env.len() as int) =~= views(a.build_id_env@));
    let ghost b = out@;
    out.push(
        (copy_string("AEGIS_BUILD_PROFILE"), copy_string(if release { "release" } else { "debug" })),
    );
    assert(out@.map_values(|e: (String, String)| (e.0@, e.1@)) =~= b.map_values(
        |e: (String, String)| (e.0@, e.1@),
    ).push(("AEGIS_BUILD_PROFILE"@, if release { "release"@ } else { "debug"@ })));
    out
}

// ---------------------------------------------------------------------
// test
// ---------------------------------------------------------------------

/// cargo's target-selector flags; when one is given, `--lib` is not added.
pub open spec fn target_selectors() -> Seq<Seq<char>> {
    seq![
        "--lib"@,
        "--bin"@,
        "--bins"@,
        "--example"@,
        "--examples"@,
        "--test"@,
        "--tests"@,
        "--bench"@,
        "--benches"@,
        "--doc"@,
        "--all-targets"@,
    ]
}

/// `arg` is selector `s`, or `s=<value>`.
pub open spec fn selects(arg: Seq<char>, s: Seq<char>) -> bool {
    arg == s || (has_prefix(arg, s) && has_prefix(arg.skip(s.len() as int), "="@))
}

/// Some argument is a target selector.
pub open spec fn user_selected_target(args: Seq<Seq<char>>) -> bool {
    exists|i: int, j: int|
        0 <= i < args.len() && 0 <= j < target_selectors().len() && selects(
            #[trigger] args[i],
            #[trigger] target_selectors()[j],
        )
}

fn selector_strings() -> (r: Vec<String>)
    ensures
        views(r@) == target_selectors(),
{
    let mut v: Vec<String> = Vec::new();
    v.push(copy_string("--lib"));
    v.push(copy_string("--bin"));
    v.push(copy_string("--bins"));
    v.push(copy_string("--example"));
    v.push(copy_string("--examples"));
    v.push(copy_string("--test"));
    v.push(copy_string("--tests"));
    v.push(copy_string("--bench"));
    v.push(copy_string("--benches"));
    v.push(copy_string("--doc"));
    v.push(copy_string("--all-targets"));
    assert(views(v@) =~= target_selectors());
    v
}

fn arg_selects(arg: &str, s: &str) -> (r: bool)
    ensures
        r == selects(arg@, s@),
{
    if str_eq(arg, s) {
        return true;
    }
    let a = chars_of(arg);
    let sc = chars_of(s);
    if !crate::text::chars_starts_with(&a, &sc) {
        return false;
    }
    let rest = crate::text::slice_chars(&a, sc.len(), a.len());
    assert(rest@ =~= a@.skip(sc@.len() as int));
    let eq: Vec<char> = vec!['='];
    proof {
        reveal_strlit("=");
    }
    assert(eq@ =~= "="@);
    crate::text::chars_starts_with(&rest, &eq)
}

/// The arguments of `cargo test` for the configured packages: `test`,
/// `-p <package>` for each package kept by `only` (all when empty),
/// `--release` for release builds, `--lib` unless a target selector is
/// among `cargo_args`, then `cargo_args` as given.
pub open spec fn test_args_spec(
    packages: Seq<Seq<char>>,
    release: bool,
    cargo_args: Seq<Seq<char>>,
) -> Seq<Seq<char>> {
    seq!["test"@] + package_flags(packages) + (if release {
        seq!["--release"@]
    } else {
        Seq::empty()
    }) + (if user_selected_target(cargo_args) {
        Seq::empty()
    } else {
        seq!["--lib"@]
    }) + cargo_args
}

pub open spec fn package_flags(packages: Seq<Seq<char>>) -> Seq<Seq<char>>
    decreases packages.len(),
{
    if packages.len() == 0 {
        Seq::empty()
    } else {
        package_flags(packages.drop_last()) + seq!["-p"@, packages.last()]
    }
}

pub open spec fn kept_names(names: Seq<Seq<char>>, only: Seq<Seq<char>>) -> Seq<Seq<char>> {
    selected_entries(names, only).map_values(|i: int| names[i])
}

pub fn cargo_test_args(
    packages: &Vec<String>,
    only: &Vec<String>,
    release: bool,
    cargo_args: &Vec<String>,
) -> (r: Result<Vec<String>, FlowError>)
    ensures
        match r {
            Ok(a) => views(a@) == test_args_spec(
                kept_names(views(packages@), views(only@)),
                release,
                views(cargo_args@),
            ) && (only@.len() == 0 || kept_names(views(packages@), views(only@)).len() > 0),
            Err(FlowError::NoTestMatch { only: o, before }) => only@.len() > 0 && kept_names(
                views(packages@),
                views(only@),
            ).len() == 0 && views(o@) == views(only@) && before == packages@.len(),
            Err(_) => false,
        },
{
    let ghost names = views(packages@);
    let mut kept: Vec<String> = Vec::new();
    let mut i: usize = 0;
    assert(names.take(0) =~= Seq::<Seq<char>>::empty());
    while i < packages.len()
        invariant
            i <= packages.len(),
            names == views(packages@),
            views(kept@) == kept_names(names.take(i as int), views(only@)),
        decreases packages.len() - i,
    {
        let keep = only.len() == 0 || is_selected(only, packages[i].as_str());
        let ghost b = kept@;
        if keep {
            kept.push(packages[i].clone());
        }
        proof {
            let t = names.take(i + 1);
            assert(t.drop_last() =~= names.take(i as int));
            let s0 = selected_entries(names.take(i as int), views(only@));
            let s1 = selected_entries(t, views(only@));
            assert forall|j: int| 0 <= j < s0.len() implies #[trigger] names.take(i as int)[s0[j]] == t[s0[j]] by {
                lemma_selected_bounds(names.take(i as int), views(only@), j);
            }
            assert(s0.map_values(|k: int| names.take(i as int)[k]) =~= s0.map_values(|k: int| t[k]));
            assert(t.last() == packages@[i as int]@);
            assert(keep == (views(only@).len() == 0 || views(only@).contains(t.last())));
            assert(s1 == s0 + if keep { seq![i as int] } else { Seq::<int>::empty() });
            assert(s1.map_values(|k: int| t[k]) =~= s0.map_values(|k: int| t[k]) + if keep {
                seq![t.last()]
            } else {
                Seq::<Seq<char>>::empty()
            });
            assert(views(kept@) =~= kept_names(t, views(only@)));
        }
        i += 1;
    }
    assert(names.take(packages.len() as int) =~= names);
    if only.len() > 0 && kept.len() == 0 {
        let mut o: Vec<String> = Vec::new();
        let mut j: usize = 0;
        while j < only.len()
            invariant
                j <= only.len(),
                views(o@) == views(only@.take(j as int)),
            decreases only.len() - j,
        {
            let ghost b = o@;
            o.push(only[j].clone());
            assert(views(o@) =~= views(b).push(only@[j as int]@));
            assert(views(only@.take(j + 1)) =~= views(only@.take(j as int)).push(only@[j as int]@));
            j += 1;
        }
        assert(only@.take(only.len() as int) =~= only@);
        return Err(FlowError::NoTestMatch { only: o, before: packages.len() });
    }
    let sels = selector_strings();
    let mut selected = false;
    let mut a: usize = 0;
    while a < cargo_args.len()
        invariant
            a <= cargo_args.len(),
            views(sels@) == target_selectors(),
            selected == exists|x: int, y: int|
                0 <= x < a && 0 <= y < target_selectors().len() && selects(
                    #[trigger] views(cargo_args@)[x],
                    #[trigger] target_selectors()[y],
                ),
        decreases cargo_args.len() - a,
    {
        let mut b: usize = 0;
        let mut found = false;
        while b < sels.len()
            invariant
                b <= sels.len(),
                a < cargo_args.len(),
                views(sels@) == target_selectors(),
                found == exists|y: int|
                    0 <= y < b && selects(views(cargo_args@)[a as int], #[trigger] target_selectors()[y]),
            decreases sels.len() - b,
        {
            let hit = arg_selects(cargo_args[a].as_str(), sels[b].as_str());
            proof {
                assert(views(sels@)[b as int] == sels@[b as int]@);
                assert(views(cargo_args@)[a as int] == cargo_args@[a as int]@);
                if hit {
                    assert(selects(views(cargo_args@)[a as int], target_selectors()[b as int]));
                }
            }
            if hit {
                found = true;
            }
            b += 1;
        }
        if found {
            selected = true;
        }
        a += 1;
    }
    let mut out: Vec<String> = Vec::new();
    out.push(copy_string("test"));
    let mut k: usize = 0;
    assert(views(kept@).take(0) =~= Seq::<Seq<char>>::empty());
    while k < kept.len()
        invariant
            k <= kept.len(),
            views(out@) == seq!["test"@] + package_flags(views(kept@).take(k as int)),
        decreases kept.len() - k,
    {
        let ghost b = out@;
        out.push(copy_string("-p"));
        out.push(kept[k].clone());
        assert(views(kept@).take(k + 1).drop_last() =~= views(kept@).take(k as int));
        assert(views(kept@).take(k + 1).last() == kept@[k as int]@);
        assert(package_flags(views(kept@).take(k + 1)) == package_flags(views(kept@).take(k as int))
            + seq!["-p"@, kept@[k as int]@]);
        assert(views(out@) =~= views(b) + seq!["-p"@, kept@[k as int]@]);
        assert(views(out@) =~= seq!["test"@] + package_flags(views(kept@).take(k + 1)));
        k += 1;
    }
    assert(views(kept@).take(kept.len() as int) =~= views(kept@));
    let ghost o1 = views(out@);
    if release {
        out.push(copy_string("--release"));
    }
    let ghost o2 = views(out@);
    assert(o2 =~= o1 + if release { seq!["--release"@] } else { Seq::<Seq<char>>::empty() });
    if !selected {
        out.push(copy_string("--lib"));
    }
    let ghost o3 = views(out@);
    assert(o3 =~= o2 + if user_selected_target(views(cargo_args@)) {
        Seq::<Seq<char>>::empty()
    } else {
        seq!["--lib"@]
    });
    let mut c: usize = 0;
    while c < cargo_args.len()
        invariant
            c <= cargo_args.len(),
            views(out@) == o3 + views(cargo_args@).take(c as int),
        decreases cargo_args.len() - c,
    {
        let ghost b = out@;
        out.push(cargo_args[c].clone());
        assert(views(cargo_args@).take(c + 1) =~= views(cargo_args@).take(c as int).push(cargo_args@[c as int]@));
        assert(views(out@) =~= views(b).push(cargo_args@[c as int]@));
        c += 1;
    }
    assert(views(cargo_args@).take(cargo_args.len() as int) =~= views(cargo_args@));
    Ok(out)
}

/// `a` is the flag `s`, bare or as `s=<value>`.
pub open spec fn flag_with_value(a: Seq<char>, s: Seq<char>) -> bool {
    a == s || has_prefix(a, s + seq!['='])
}

/// `a` selects cargo targets: `--lib`, `--bin`, `--bins`, `--example`,
/// `--examples`, `--test`, `--tests`, `--bench`, `--benches`, `--doc` or
/// `--all-targets`, bare or with `=<value>`.
pub open spec fn names_cargo_target(a: Seq<char>) -> bool {
    ||| flag_with_value(a, "--lib"@)
    ||| flag_with_value(a, "--bin"@)
    ||| flag_with_value(a, "--bins"@)
    ||| flag_with_value(a, "--example"@)
    ||| flag_with_value(a, "--examples"@)
    ||| flag_with_value(a, "--test"@)
    ||| flag_with_value(a, "--tests"@)
    ||| flag_with_value(a, "--bench"@)
    ||| flag_with_value(a, "--benches"@)
    ||| flag_with_value(a, "--doc"@)
    ||| flag_with_value(a, "--all-targets"@)
}

proof fn lemma_selects_is_flag_with_value(a: Seq<char>, s: Seq<char>)
    ensures
        selects(a, s) == flag_with_value(a, s),
{
    reveal_strlit("=");
    assert("="@ =~= seq!['=']);
    let e = s + seq!['='];
    let n = s.len() as int;
    if has_prefix(a, e) {
        assert(a.take(n) =~= a.take(e.len() as int).take(n));
        assert(e.take(n) =~= s);
        assert(a[n] == a.take(e.len() as int)[n]);
        assert(a[n] == e[n]);
        assert(a.skip(n).take(1) =~= seq!['=']);
    }
    if has_prefix(a, s) && has_prefix(a.skip(n), "="@) {
        assert(a.skip(n).take(1)[0] == a.skip(n)[0]);
        assert(a.skip(n)[0] == '=');
        assert(a[n] == '=');
        assert(a.take(e.len() as int) =~= e);
    }
}

proof fn lemma_names_cargo_target(a: Seq<char>)
    ensures
        (exists|j: int| 0 <= j < target_selectors().len() && #[trigger] selects(a, target_selectors()[j]))
            <==> names_cargo_target(a),
{
    let t = target_selectors();
    assert(t.len() == 11);
    assert(t[0] == "--lib"@);
    assert(t[1] == "--bin"@);
    assert(t[2] == "--bins"@);
    assert(t[3] == "--example"@);
    assert(t[4] == "--examples"@);
    assert(t[5] == "--test"@);
    assert(t[6] == "--tests"@);
    assert(t[7] == "--bench"@);
    assert(t[8] == "--benches"@);
    assert(t[9] == "--doc"@);
    assert(t[10] == "--all-targets"@);
    lemma_selects_is_flag_with_value(a, t[0]);
    lemma_selects_is_flag_with_value(a, t[1]);
    lemma_selects_is_flag_with_value(a, t[2]);
    lemma_selects_is_flag_with_value(a, t[3]);
    lemma_selects_is_flag_with_value(a, t[4]);
    lemma_selects_is_flag_with_value(a, t[5]);
    lemma_selects_is_flag_with_value(a, t[6]);
    lemma_selects_is_flag_with_value(a, t[7]);
    lemma_selects_is_flag_with_value(a, t[8]);
    lemma_selects_is_flag_with_value(a, t[9]);
    lemma_selects_is_flag_with_value(a, t[10]);
    if exists|j: int| 0 <= j < t.len() && #[trigger] selects(a, t[j]) {
        let j = choose|j: int| 0 <= j < t.len() && #[trigger] selects(a, t[j]);
        assert(0 <= j < 11);
    }
}

/// A cargo argument selects targets exactly when it is one of cargo's
/// target flags (`--lib`, `--bin`, `--bins`, `--example`, `--examples`,
/// `--test`, `--tests`, `--bench`, `--benches`, `--doc`,
/// `--all-targets`), bare or with `=<value>`.
pub proof fn law_target_selectors(args: Seq<Seq<char>>)
    ensures
        user_selected_target(args) <==> exists|i: int|
            0 <= i < args.len() && names_cargo_target(#[trigger] args[i]),
{
    if user_selected_target(args) {
        let (i, j) = choose|i: int, j: int|
            0 <= i < args.len() && 0 <= j < target_selectors().len() && selects(
                #[trigger] args[i],
                #[trigger] target_selectors()[j],
            );
        lemma_names_cargo_target(args[i]);
    }
    if exists|i: int| 0 <= i < args.len() && names_cargo_target(#[trigger] args[i]) {
        let i = choose|i: int| 0 <= i < args.len() && names_cargo_target(#[trigger] args[i]);
        lemma_names_cargo_target(args[i]);
        let j = choose|j: int| 0 <= j < target_selectors().len() && #[trigger] selects(
            args[i],
            target_selectors()[j],
        );
        assert(selects(args[i], target_selectors()[j]));
    }
}

/// `cargo test` gets `--lib` added exactly when none of the user's
/// arguments selects targets (such as `--tests`); otherwise the user's
/// arguments follow the packages and `--release` as given.
pub proof fn law_lib_only_without_selector(
    packages: Seq<Seq<char>>,
    release: bool,
    cargo_args: Seq<Seq<char>>,
)
    ensures
        (exists|i: int| 0 <= i < cargo_args.len() && names_cargo_target(#[trigger] cargo_args[i]))
            ==> test_args_spec(packages, release, cargo_args) == seq!["test"@] + package_flags(
            packages,
        ) + (if release {
            seq!["--release"@]
        } else {
            Seq::empty()
        }) + cargo_args,
        !(exists|i: int| 0 <= i < cargo_args.len() && names_cargo_target(#[trigger] cargo_args[i]))
            ==> test_args_spec(packages, release, cargo_args) == seq!["test"@] + package_flags(
            packages,
        ) + (if release {
            seq!["--release"@]
        } else {
            Seq::empty()
        }) + seq!["--lib"@] + cargo_args,
{
    law_target_selectors(cargo_args);
    let base = seq!["test"@] + package_flags(packages) + (if release {
        seq!["--release"@]
    } else {
        Seq::<Seq<char>>::empty()
    });
    if user_selected_target(cargo_args) {
        assert(base + Seq::<Seq<char>>::empty() =~= base);
    }
}

pub proof fn lemma_selected_bounds(names: Seq<Seq<char>>, only: Seq<Seq<char>>, j: int)
    requires
        0 <= j < selected_entries(names, only).len(),
    ensures
        0 <= selected_entries(names, only)[j] < names.len(),
    decreases names.len(),
{
    let s0 = selected_entries(names.drop_last(), only);
    if j < s0.len() {
        lemma_selected_bounds(names.drop_last(), only, j);
    }
}

// ---------------------------------------------------------------------
// watch and create
// ---------------------------------------------------------------------

/// The build a watch cycle runs: the watch settings, without minifying,
/// sourcemaps or skipping the simulator package.
pub fn build_args_for_watch(w: &WatchArgs) -> (b: BuildArgs)
    ensures
        b.release == w.release,
        b.verbose == w.verbose,
        views(b.only@) == views(w.only@),
        b.rust_only == w.rust_only,
        b.js_only == w.js_only,
        b.no_wasm_opt == w.no_wasm_opt,
        !b.minify,
        b.sourcemap is None,
        !b.skip_simulator_package,
        !b.native,
{
    let mut only: Vec<String> = Vec::new();
    let mut i: usize = 0;
    while i < w.only.len()
        invariant
            i <= w.only.len(),
            views(only@) == views(w.only@.take(i as int)),
        decreases w.only.len() - i,
    {
        let ghost b = only@;
        only.push(w.only[i].clone());
        assert(views(only@) =~= views(b).push(w.only@[i as int]@));
        assert(views(w.only@.take(i + 1)) =~= views(w.only@.take(i as int)).push(w.only@[i as int]@));
        i += 1;
    }
    assert(w.only@.take(w.only.len() as int) =~= w.only@);
    BuildArgs {
        release: w.release,
        verbose: w.verbose,
        only,
        rust_only: w.rust_only,
        js_only: w.js_only,
        no_wasm_opt: w.no_wasm_opt,
        minify: false,
        sourcemap: None,
        skip_simulator_package: false,
        native: false,
    }
}

/// The options of `create` from its arguments.
pub fn create_options(args: CreateArgs) -> (o: CreateOptions)
    ensures
        o.path == args.path,
        o.template == args.template,
        o.name == args.name,
        o.no_input == args.no_input,
        o.force == args.force,
{
    CreateOptions {
        path: args.path,
        template: args.template,
        name: args.name,
        no_input: args.no_input,
        force: args.force,
    }
}

} // verus!
