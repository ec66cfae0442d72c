//! What `watch` watches and which changes it ignores.
use vstd::prelude::*;
use crate::config::InfinityMsfsToml;
use crate::js_config::Instrument;
use crate::package::SimPackage;
use crate::path::{join_text, 
    parse_path, path_display, path_file_name, path_join, path_parent, path_starts_with,
    path_strip_prefix, FsPath, PathView,
};
use crate::rust_build::RustPackage;
use crate::text::{chars_ends_with, chars_of, chars_starts_with, has_prefix, has_suffix};

verus! {

pub open spec fn paths_view(v: Seq<FsPath>) -> Seq<PathView> {
    v.map_values(|p: FsPath| p@)
}

// ---------------------------------------------------------------------
// Watched directories
// ---------------------------------------------------------------------

/// `dirs` with `d` appended unless it is already there.
pub open spec fn add_unique(dirs: Seq<PathView>, d: PathView) -> Seq<PathView> {
    if dirs.contains(d) {
        dirs
    } else {
        dirs.push(d)
    }
}

/// Appends `dir` unless it is already present.
pub fn insert_unique(dirs: &mut Vec<FsPath>, dir: FsPath)
    ensures
        paths_view(final(dirs)@) == add_unique(paths_view(old(dirs)@), dir@),
{
    let mut i: usize = 0;
    while i < dirs.len()
        invariant
            i <= dirs.len(),
            dirs@ == old(dirs)@,
            forall|j: int| 0 <= j < i ==> paths_view(dirs@)[j] != dir@,
        decreases dirs.len() - i,
    {
        if dirs[i].same_as(&dir) {
            assert(paths_view(dirs@)[i as int] == dir@);
            return;
        }
        i += 1;
    }
    let ghost b = dirs@;
    dirs.push(dir);
    assert(paths_view(dirs@) =~= paths_view(b).push(dir@));
}

/// A package of the cargo workspace, as seen on disk.
pub struct WatchMember {
    pub manifest: FsPath,
    /// Is it a member of the workspace (not a dependency)?
    pub is_member: bool,
    /// Does `<manifest dir>/src` exist?
    pub src_exists: bool,
    /// Does the manifest exist?
    pub manifest_exists: bool,
}

/// The `src` directory next to a manifest.
pub fn member_src_dir(manifest: &FsPath) -> (r: Option<FsPath>)
    ensures
        match path_parent(manifest@) {
            Some(p) => r matches Some(s) && s@ == join_text(p, "src"@),
            None => r is None,
        },
{
    match manifest.parent() {
        Some(p) => Some(p.join_str("src")),
        None => None,
    }
}

/// The directory of an instrument's entry file.
pub fn instrument_watch_dir(root: &FsPath, inst: &Instrument) -> (r: Option<FsPath>)
    ensures
        match path_parent(path_join(root@, inst.index@)) {
            Some(p) => r matches Some(s) && s@ == p,
            None => r is None,
        },
{
    root.join(&inst.index).parent()
}

/// The directories a member contributes, in order: its `src` directory and
/// its manifest's directory, each when it exists.
pub open spec fn member_dirs(m: WatchMember) -> Seq<PathView> {
    if !m.is_member {
        Seq::empty()
    } else {
        match path_parent(m.manifest@) {
            None => Seq::empty(),
            Some(p) => (if m.src_exists {
                seq![join_text(p, "src"@)]
            } else {
                Seq::empty()
            }) + (if m.manifest_exists {
                seq![p]
            } else {
                Seq::empty()
            }),
        }
    }
}

pub open spec fn add_all_unique(dirs: Seq<PathView>, new: Seq<PathView>) -> Seq<PathView>
    decreases new.len(),
{
    if new.len() == 0 {
        dirs
    } else {
        add_all_unique(add_unique(dirs, new[0]), new.drop_first())
    }
}

pub open spec fn members_candidates(ms: Seq<WatchMember>) -> Seq<PathView>
    decreases ms.len(),
{
    if ms.len() == 0 {
        Seq::empty()
    } else {
        members_candidates(ms.drop_last()) + member_dirs(ms.last())
    }
}

/// The instruments' entry directories that exist.
pub open spec fn js_candidates(root: PathView, insts: Seq<Instrument>, exists: Seq<bool>) -> Seq<PathView>
    decreases insts.len(),
{
    if insts.len() == 0 {
        Seq::empty()
    } else {
        js_candidates(root, insts.drop_last(), exists) + match path_parent(
            path_join(root, insts.last().index@),
        ) {
            Some(p) => if exists[insts.len() - 1] {
                seq![p]
            } else {
                Seq::empty()
            },
            None => Seq::empty(),
        }
    }
}

/// The watched directories: each workspace member's `src` and manifest
/// directory, then (when JS is watched) each instrument's entry
/// directory, without repeats; the project root when there are none.
pub open spec fn watch_dirs_spec(
    root: PathView,
    members: Seq<WatchMember>,
    watch_js: bool,
    insts: Seq<Instrument>,
    js_dir_exists: Seq<bool>,
) -> Seq<PathView> {
    let cands = members_candidates(members) + if watch_js {
        js_candidates(root, insts, js_dir_exists)
    } else {
        Seq::empty()
    };
    let dirs = add_all_unique(Seq::empty(), cands);
    if dirs.len() == 0 {
        seq![root]
    } else {
        dirs
    }
}

proof fn lemma_add_all_unique_append(dirs: Seq<PathView>, a: Seq<PathView>, b: Seq<PathView>)
    ensures
        add_all_unique(dirs, a + b) == add_all_unique(add_all_unique(dirs, a), b),
    decreases a.len(),
{
    if a.len() == 0 {
        assert(a + b =~= b);
    } else {
        assert((a + b).drop_first() =~= a.drop_first() + b);
        lemma_add_all_unique_append(add_unique(dirs, a[0]), a.drop_first(), b);
    }
}

proof fn lemma_add_all_unique_empty_len(dirs: Seq<PathView>, a: Seq<PathView>)
    ensures
        add_all_unique(dirs, a).len() >= dirs.len(),
        a.len() > 0 ==> add_all_unique(dirs, a).len() > 0,
    decreases a.len(),
{
    if a.len() > 0 {
        lemma_add_all_unique_empty_len(add_unique(dirs, a[0]), a.drop_first());
    }
}

fn add_candidates(dirs: &mut Vec<FsPath>, cands: Vec<FsPath>)
    ensures
        paths_view(final(dirs)@) == add_all_unique(paths_view(old(dirs)@), paths_view(cands@)),
{
    let mut rest = cands;
    let mut taken: Vec<FsPath> = Vec::new();
    // move the candidates out back to front, then add them front to back
    while rest.len() > 0
        invariant
            paths_view(cands@) == paths_view(rest@) + paths_view(taken@).reverse(),
        decreases rest.len(),
    {
        let ghost r = rest@;
        let ghost t = taken@;
        let p = rest.pop().unwrap();
        taken.push(p);
        assert(paths_view(r) =~= paths_view(rest@).push(p@));
        assert(paths_view(taken@).reverse() =~= seq![p@] + paths_view(t).reverse());
    }
    assert(paths_view(rest@) =~= Seq::<PathView>::empty());
    while taken.len() > 0
        invariant
            add_all_unique(paths_view(old(dirs)@), paths_view(cands@)) == add_all_unique(
                paths_view(dirs@),
                paths_view(taken@).reverse(),
            ),
        decreases taken.len(),
    {
        let ghost t = taken@;
        let p = taken.pop().unwrap();
        assert(paths_view(t).reverse() =~= seq![p@] + paths_view(taken@).reverse());
        assert((seq![p@] + paths_view(taken@).reverse()).drop_first() =~= paths_view(taken@).reverse());
        insert_unique(dirs, p);
    }
    assert(paths_view(taken@).reverse() =~= Seq::<PathView>::empty());
}

pub fn collect_watch_dirs(
    root: &FsPath,
    members: &Vec<WatchMember>,
    watch_js: bool,
    instruments: &Vec<Instrument>,
    js_dir_exists: &Vec<bool>,
) -> (r: Vec<FsPath>)
    requires
        js_dir_exists.len() == instruments.len(),
    ensures
        paths_view(r@) == watch_dirs_spec(root@, members@, watch_js, instruments@, js_dir_exists@),
{
    let mut dirs: Vec<FsPath> = Vec::new();
    let mut i: usize = 0;
    assert(paths_view(dirs@) =~= Seq::<PathView>::empty());
    assert(members@.take(0) =~= Seq::<WatchMember>::empty());
    while i < members.len()
        invariant
            i <= members.len(),
            paths_view(dirs@) == add_all_unique(Seq::empty(), members_candidates(members@.take(i as int))),
        decreases members.len() - i,
    {
        let m = &members[i];
        let mut cands: Vec<FsPath> = Vec::new();
        if m.is_member {
            if let Some(parent) = m.manifest.parent() {
                if m.src_exists {
                    cands.push(parent.join_str("src"));
                }
                if m.manifest_exists {
                    cands.push(parent);
                }
            }
        }
        assert(paths_view(cands@) =~= member_dirs(*m));
        let ghost before = paths_view(dirs@);
        add_candidates(&mut dirs, cands);
        proof {
            let t = members@.take(i + 1);
            assert(t.drop_last() =~= members@.take(i as int));
            assert(members_candidates(t) == members_candidates(members@.take(i as int)) + member_dirs(*m));
            lemma_add_all_unique_append(Seq::empty(), members_candidates(members@.take(i as int)), member_dirs(*m));
        }
        i += 1;
    }
    assert(members@.take(members.len() as int) =~= members@);
    if watch_js {
        let mut j: usize = 0;
        let ghost base = members_candidates(members@);
        assert(instruments@.take(0) =~= Seq::<Instrument>::empty());
        assert(base + js_candidates(root@, instruments@.take(0), js_dir_exists@) =~= base);
        while j < instruments.len()
            invariant
                j <= instruments.len(),
                js_dir_exists.len() == instruments.len(),
                base == members_candidates(members@),
                paths_view(dirs@) == add_all_unique(
                    Seq::empty(),
                    base + js_candidates(root@, instruments@.take(j as int), js_dir_exists@),
                ),
            decreases instruments.len() - j,
        {
            let mut cands: Vec<FsPath> = Vec::new();
            if let Some(p) = instrument_watch_dir(root, &instruments[j]) {
                if js_dir_exists[j] {
                    cands.push(p);
                }
            }
            proof {
                let t = instruments@.take(j + 1);
                assert(t.drop_last() =~= instruments@.take(j as int));
                assert(t.last() == instruments@[j as int]);
                assert(paths_view(cands@) =~= js_candidates(root@, t, js_dir_exists@).skip(
                    js_candidates(root@, instruments@.take(j as int), js_dir_exists@).len() as int,
                ));
                assert(js_candidates(root@, t, js_dir_exists@) =~= js_candidates(
                    root@,
                    instruments@.take(j as int),
                    js_dir_exists@,
                ) + paths_view(cands@));
                lemma_add_all_unique_append(
                    Seq::empty(),
                    base + js_candidates(root@, instruments@.take(j as int), js_dir_exists@),
                    paths_view(cands@),
                );
                assert(base + js_candidates(root@, t, js_dir_exists@) =~= base + js_candidates(
                    root@,
                    instruments@.take(j as int),
                    js_dir_exists@,
                ) + paths_view(cands@));
            }
            add_candidates(&mut dirs, cands);
            j += 1;
        }
        assert(instruments@.take(instruments.len() as int) =~= instruments@);
    } else {
        assert(members_candidates(members@) + Seq::<PathView>::empty() =~= members_candidates(
            members@,
        ));
    }
    if dirs.len() == 0 {
        dirs.push(root.duplicate());
        assert(paths_view(dirs@) =~= seq![root@]);
    }
    dirs
}

// ---------------------------------------------------------------------
// Ignored directories
// ---------------------------------------------------------------------

pub open spec fn package_outputs(root: PathView, ps: Seq<RustPackage>) -> Seq<PathView>
    decreases ps.len(),
{
    if ps.len() == 0 {
        Seq::empty()
    } else {
        package_outputs(root, ps.drop_last()) + match ps.last().output_dir {
            Some(d) => seq![join_text(root, d@)],
            None => Seq::empty(),
        }
    }
}

pub open spec fn sim_outputs(root: PathView, ps: Seq<SimPackage>) -> Seq<PathView>
    decreases ps.len(),
{
    if ps.len() == 0 {
        Seq::empty()
    } else {
        sim_outputs(root, ps.drop_last()) + (match ps.last().output_dir {
            Some(d) => seq![join_text(root, d@)],
            None => Seq::empty(),
        }) + match ps.last().temp_dir {
            Some(d) => seq![join_text(root, d@)],
            None => Seq::empty(),
        }
    }
}

/// The directories whose changes are ignored: `target`, `.git`, the
/// output directory, each package's output directory, and each simulator
/// package's output and temp directories.
pub open spec fn ignored_dirs_spec(root: PathView, cfg: InfinityMsfsToml) -> Seq<PathView> {
    seq![join_text(root, "target"@), join_text(root, ".git"@)] + (if cfg.rust.output_dir@.len() > 0 {
        seq![join_text(root, cfg.rust.output_dir@)]
    } else {
        Seq::empty()
    }) + package_outputs(root, cfg.rust.packages@) + sim_outputs(root, cfg.sim_packages@)
}

pub fn collect_ignored_dirs(root: &FsPath, cfg: &InfinityMsfsToml) -> (r: Vec<FsPath>)
    ensures
        paths_view(r@) == ignored_dirs_spec(root@, *cfg),
{
    let mut out: Vec<FsPath> = Vec::new();
    out.push(root.join_str("target"));
    out.push(root.join_str(".git"));
    if !cfg.rust.output_dir.as_str().is_empty() {
        out.push(root.join_str(cfg.rust.output_dir.as_str()));
    }
    let ghost base = paths_view(out@);
    assert(base =~= seq![join_text(root@, "target"@), join_text(root@, ".git"@)] + (if cfg.rust.output_dir@.len() > 0 {
        seq![join_text(root@, cfg.rust.output_dir@)]
    } else {
        Seq::<PathView>::empty()
    }));
    let ps = &cfg.rust.packages;
    let mut i: usize = 0;
    assert(ps@.take(0) =~= Seq::<RustPackage>::empty());
    assert(paths_view(out@) =~= base + package_outputs(root@, ps@.take(0)));
    while i < ps.len()
        invariant
            i <= ps.len(),
            paths_view(out@) == base + package_outputs(root@, ps@.take(i as int)),
        decreases ps.len() - i,
    {
        let ghost b = paths_view(out@);
        if let Some(d) = &ps[i].output_dir {
            let ghost ob = out@;
            out.push(root.join_str(d.as_str()));
            assert(paths_view(out@) =~= paths_view(ob).push(join_text(root@, d@)));
        }
        proof {
            let t = ps@.take(i + 1);
            assert(paths_view(out@) =~= b + match ps@[i as int].output_dir {
                Some(d) => seq![join_text(root@, d@)],
                None => Seq::<PathView>::empty(),
            });
            assert(t.drop_last() =~= ps@.take(i as int));
            assert(t.last() == ps@[i as int]);
            assert(paths_view(out@) =~= base + package_outputs(root@, t));
        }
        i += 1;
    }
    assert(ps@.take(ps.len() as int) =~= ps@);
    let ghost base2 = paths_view(out@);
    let sp = &cfg.sim_packages;
    let mut j: usize = 0;
    assert(sp@.take(0) =~= Seq::<SimPackage>::empty());
    assert(paths_view(out@) =~= base2 + sim_outputs(root@, sp@.take(0)));
    while j < sp.len()
        invariant
            j <= sp.len(),
            paths_view(out@) == base2 + sim_outputs(root@, sp@.take(j as int)),
        decreases sp.len() - j,
    {
        let ghost b = paths_view(out@);
        if let Some(d) = &sp[j].output_dir {
            let ghost ob = out@;
            out.push(root.join_str(d.as_str()));
            assert(paths_view(out@) =~= paths_view(ob).push(join_text(root@, d@)));
        }
        let ghost b1 = paths_view(out@);
        assert(b1 =~= b + match sp@[j as int].output_dir {
            Some(d) => seq![join_text(root@, d@)],
            None => Seq::<PathView>::empty(),
        });
        if let Some(d) = &sp[j].temp_dir {
            let ghost ob = out@;
            out.push(root.join_str(d.as_str()));
            assert(paths_view(out@) =~= paths_view(ob).push(join_text(root@, d@)));
        }
        proof {
            let t = sp@.take(j + 1);
            assert(paths_view(out@) =~= b1 + match sp@[j as int].temp_dir {
                Some(d) => seq![join_text(root@, d@)],
                None => Seq::<PathView>::empty(),
            });
            assert(t.drop_last() =~= sp@.take(j as int));
            assert(t.last() == sp@[j as int]);
            assert(paths_view(out@) =~= base2 + sim_outputs(root@, t));
        }
        j += 1;
    }
    assert(sp@.take(sp.len() as int) =~= sp@);
    out
}

/// A change is ignored when it lies under an ignored directory, or its
/// file name is hidden (`.`), a backup (`~`) or a swap file (`.swp`).
pub open spec fn is_ignored_spec(path: PathView, ignored: Seq<PathView>) -> bool {
    ||| exists|i: int| 0 <= i < ignored.len() && path_starts_with(path, #[trigger] ignored[i])
    ||| match path_file_name(path) {
        Some(n) => has_prefix(n, "."@) || has_suffix(n, "~"@) || has_suffix(n, ".swp"@),
        None => false,
    }
}

pub fn is_ignored(path: &FsPath, ignored: &Vec<FsPath>) -> (r: bool)
    ensures
        r == is_ignored_spec(path@, paths_view(ignored@)),
{
    let mut i: usize = 0;
    while i < ignored.len()
        invariant
            i <= ignored.len(),
            forall|j: int| 0 <= j < i ==> !path_starts_with(path@, #[trigger] paths_view(ignored@)[j]),
        decreases ignored.len() - i,
    {
        if path.starts_with(&ignored[i]) {
            assert(path_starts_with(path@, paths_view(ignored@)[i as int]));
            return true;
        }
        i += 1;
    }
    match path.file_name() {
        Some(n) => {
            let nc = chars_of(n.as_str());
            chars_starts_with(&nc, &chars_of(".")) || chars_ends_with(&nc, &chars_of("~"))
                || chars_ends_with(&nc, &chars_of(".swp"))
        },
        None => false,
    }
}

/// A path shown relative to the project root when it lies under it.
pub fn short_path(root: &FsPath, p: &FsPath) -> (r: String)
    ensures
        r@ == match path_strip_prefix(p@, root@) {
            Some(rel) => path_display(rel),
            None => path_display(p@),
        },
{
    match p.strip_prefix(root) {
        Some(rel) => rel.display(),
        None => p.display(),
    }
}

// ---------------------------------------------------------------------
// Nested directories
// ---------------------------------------------------------------------

/// Inserts index `i` after every index whose directory has no more
/// components.
pub open spec fn insert_by_depth(sorted: Seq<int>, i: int, depth: Seq<int>) -> Seq<int>
    decreases sorted.len(),
{
    if sorted.len() == 0 {
        seq![i]
    } else if depth[i] < depth[sorted[0]] {
        seq![i] + sorted
    } else {
        seq![sorted[0]] + insert_by_depth(sorted.drop_first(), i, depth)
    }
}

/// The indices `0..n` stably sorted by component count.
pub open spec fn by_depth(depth: Seq<int>, n: int) -> Seq<int>
    decreases n,
{
    if n <= 0 {
        Seq::empty()
    } else {
        insert_by_depth(by_depth(depth, n - 1), n - 1, depth)
    }
}

/// Keeps each directory (in the given order) unless it lies inside one
/// kept before it.
pub open spec fn outermost(cands: Seq<PathView>) -> Seq<PathView>
    decreases cands.len(),
{
    if cands.len() == 0 {
        Seq::empty()
    } else {
        let prev = outermost(cands.drop_last());
        if exists|k: int| 0 <= k < prev.len() && path_starts_with(cands.last(), #[trigger] prev[k]) {
            prev
        } else {
            prev.push(cands.last())
        }
    }
}

proof fn lemma_insert_by_depth_at(sorted: Seq<int>, i: int, depth: Seq<int>, p: int)
    requires
        0 <= p <= sorted.len(),
        forall|j: int| 0 <= j < p ==> !(depth[i] < depth[#[trigger] sorted[j]]),
        p < sorted.len() ==> depth[i] < depth[sorted[p]],
    ensures
        insert_by_depth(sorted, i, depth) == sorted.take(p) + seq![i] + sorted.skip(p),
    decreases sorted.len(),
{
    if sorted.len() == 0 {
        assert(sorted.take(p) + seq![i] + sorted.skip(p) =~= seq![i]);
    } else if p == 0 {
        assert(sorted.take(0) + seq![i] + sorted.skip(0) =~= seq![i] + sorted);
    } else {
        let t = sorted.drop_first();
        assert forall|j: int| 0 <= j < p - 1 implies !(depth[i] < depth[#[trigger] t[j]]) by {
            assert(t[j] == sorted[j + 1]);
        }
        lemma_insert_by_depth_at(t, i, depth, p - 1);
        assert(seq![sorted[0]] + (t.take(p - 1) + seq![i] + t.skip(p - 1)) =~= sorted.take(p)
            + seq![i] + sorted.skip(p));
    }
}

/// Every directory lies inside (or is) one of the kept ones.
proof fn lemma_outermost_covers(cands: Seq<PathView>, d: int)
    requires
        0 <= d < cands.len(),
    ensures
        exists|k: int|
            0 <= k < outermost(cands).len() && path_starts_with(cands[d], #[trigger] outermost(cands)[k]),
    decreases cands.len(),
{
    let prev = outermost(cands.drop_last());
    if d < cands.len() - 1 {
        lemma_outermost_covers(cands.drop_last(), d);
        let k = choose|k: int| 0 <= k < prev.len() && path_starts_with(cands.drop_last()[d], #[trigger] prev[k]);
        assert(outermost(cands)[k] == prev[k]);
    } else {
        if exists|k: int| 0 <= k < prev.len() && path_starts_with(cands.last(), #[trigger] prev[k]) {
            let k = choose|k: int| 0 <= k < prev.len() && path_starts_with(cands.last(), #[trigger] prev[k]);
            assert(outermost(cands)[k] == prev[k]);
        } else {
            let o = outermost(cands);
            assert(o[prev.len() as int] == cands.last());
            assert(cands[d].comps.take(cands[d].comps.len() as int) =~= cands[d].comps);
            assert(path_starts_with(cands[d], o[prev.len() as int]));
        }
    }
}

/// The number of components `std::path::Path::components` gives: the
/// drive prefix and the root when there are, then the names.
pub open spec fn path_depth(p: PathView) -> int {
    p.comps.len() + (if p.absolute {
        1int
    } else {
        0int
    }) + if p.prefix.len() > 0 {
        1int
    } else {
        0int
    }
}

fn depth_of(p: &FsPath) -> (r: u128)
    ensures
        r == path_depth(p@),
{
    let mut d: u128 = p.component_count() as u128;
    if p.has_root() {
        d = d + 1;
    }
    if p.has_prefix() {
        d = d + 1;
    }
    d
}

/// Has `a` fewer components than `b`?
fn shallower(a: &FsPath, b: &FsPath) -> (r: bool)
    ensures
        r == (path_depth(a@) < path_depth(b@)),
{
    depth_of(a) < depth_of(b)
}

/// The directories to watch: `dirs` without those inside another,
/// shallowest first (by component count, the root included).
pub fn dedup_nested(dirs: &Vec<FsPath>) -> (r: Vec<FsPath>)
    ensures
        paths_view(r@) == outermost(by_depth(
            paths_view(dirs@).map_values(|p: PathView| path_depth(p)),
            dirs@.len() as int,
        ).map_values(|i: int| paths_view(dirs@)[i])),
        forall|d: int|
            #![trigger dirs@[d]]
            0 <= d < dirs@.len() ==> exists|k: int|
                0 <= k < r@.len() && path_starts_with(dirs@[d]@, #[trigger] r@[k]@),
        no_nesting(paths_view(r@)),
{
    let ghost depth = paths_view(dirs@).map_values(|p: PathView| path_depth(p));
    let mut order: Vec<usize> = Vec::new();
    let mut i: usize = 0;
    assert(order@.map_values(|k: usize| k as int) =~= Seq::<int>::empty());
    while i < dirs.len()
        invariant
            i <= dirs.len(),
            depth == paths_view(dirs@).map_values(|p: PathView| path_depth(p)),
            forall|j: int| 0 <= j < order.len() ==> #[trigger] order@[j] < i,
            order@.map_values(|k: usize| k as int) == by_depth(depth, i as int),
        decreases dirs.len() - i,
    {
        let mut p: usize = 0;
        while p < order.len() && !shallower(&dirs[i], &dirs[order[p]])
            invariant
                i < dirs.len(),
                depth == paths_view(dirs@).map_values(|p: PathView| path_depth(p)),
                p <= order.len(),
                forall|j: int| 0 <= j < order.len() ==> #[trigger] order@[j] < i,
                forall|j: int| 0 <= j < p ==> !(depth[i as int] < depth[#[trigger] order@[j] as int]),
            decreases order.len() - p,
        {
            p += 1;
        }
        let ghost before = order@.map_values(|k: usize| k as int);
        proof {
            assert forall|j: int| 0 <= j < p implies !(depth[i as int] < depth[#[trigger] before[j]]) by {
                assert(before[j] == order@[j] as int);
            }
            if p < order.len() {
                assert(before[p as int] == order@[p as int] as int);
            }
            lemma_insert_by_depth_at(before, i as int, depth, p as int);
        }
        order.insert(p, i);
        assert(order@.map_values(|k: usize| k as int) =~= before.take(p as int) + seq![i as int]
            + before.skip(p as int));
        i += 1;
    }
    let ghost ord = order@.map_values(|k: usize| k as int);
    let ghost cands = ord.map_values(|k: int| paths_view(dirs@)[k]);
    let mut out: Vec<FsPath> = Vec::new();
    let mut j: usize = 0;
    assert(cands.take(0) =~= Seq::<PathView>::empty());
    while j < order.len()
        invariant
            j <= order.len(),
            forall|q: int| 0 <= q < order.len() ==> #[trigger] order@[q] < dirs.len(),
            ord == order@.map_values(|k: usize| k as int),
            cands == ord.map_values(|k: int| paths_view(dirs@)[k]),
            paths_view(out@) == outermost(cands.take(j as int)),
        decreases order.len() - j,
    {
        let d = &dirs[order[j]];
        let mut inside = false;
        let mut k: usize = 0;
        while k < out.len()
            invariant
                k <= out.len(),
                inside == exists|q: int| 0 <= q < k && path_starts_with(d@, #[trigger] paths_view(out@)[q]),
            decreases out.len() - k,
        {
            if d.starts_with(&out[k]) {
                assert(path_starts_with(d@, paths_view(out@)[k as int]));
                inside = true;
            }
            k += 1;
        }
        proof {
            let t = cands.take(j + 1);
            assert(t.drop_last() =~= cands.take(j as int));
            assert(t.last() == d@);
        }
        if !inside {
            let ghost b = out@;
            out.push(d.duplicate());
            assert(paths_view(out@) =~= paths_view(b).push(d@));
        }
        j += 1;
    }
    assert(cands.take(order.len() as int) =~= cands);
    proof {
        // every directory appears among the sorted candidates
        lemma_by_depth_perm(depth, dirs@.len() as int);
        assert forall|d: int| #![trigger dirs@[d]] 0 <= d < dirs@.len() implies exists|k: int|
            0 <= k < out@.len() && path_starts_with(dirs@[d]@, #[trigger] out@[k]@) by {
            assert(by_depth(depth, dirs@.len() as int).contains(d));
            let pos = choose|pos: int| 0 <= pos < ord.len() && ord[pos] == d;
            assert(cands[pos] == dirs@[d]@);
            lemma_outermost_covers(cands, pos);
            let k = choose|k: int| 0 <= k < outermost(cands).len() && path_starts_with(cands[pos], #[trigger] outermost(cands)[k]);
            assert(paths_view(out@)[k] == out@[k]@);
        }
        assert(ord.map_values(|k: int| paths_view(dirs@)[k]) =~= by_depth(
            paths_view(dirs@).map_values(|p: PathView| path_depth(p)),
            paths_view(dirs@).len() as int,
        ).map_values(|i: int| paths_view(dirs@)[i]));
        law_dedup_no_nesting(paths_view(dirs@));
    }
    out
}

/// The sorted indices are exactly `0..n`.
proof fn lemma_by_depth_perm(depth: Seq<int>, n: int)
    requires
        n >= 0,
    ensures
        by_depth(depth, n).len() == n,
        forall|d: int| 0 <= d < n ==> #[trigger] by_depth(depth, n).contains(d),
    decreases n,
{
    if n > 0 {
        lemma_by_depth_perm(depth, n - 1);
        lemma_insert_by_depth_contains(by_depth(depth, n - 1), n - 1, depth);
        let s = by_depth(depth, n - 1);
        let t = by_depth(depth, n);
        assert forall|d: int| 0 <= d < n implies #[trigger] t.contains(d) by {
            if d < n - 1 {
                assert(s.contains(d));
            }
        }
    }
}

proof fn lemma_insert_by_depth_contains(sorted: Seq<int>, i: int, depth: Seq<int>)
    ensures
        insert_by_depth(sorted, i, depth).len() == sorted.len() + 1,
        insert_by_depth(sorted, i, depth).contains(i),
        forall|x: int| sorted.contains(x) ==> insert_by_depth(sorted, i, depth).contains(x),
    decreases sorted.len(),
{
    let r = insert_by_depth(sorted, i, depth);
    if sorted.len() == 0 {
        assert(r[0] == i);
    } else if depth[i] < depth[sorted[0]] {
        assert(r[0] == i);
        assert forall|x: int| sorted.contains(x) implies r.contains(x) by {
            let q = choose|q: int| 0 <= q < sorted.len() && sorted[q] == x;
            assert(r[q + 1] == x);
        }
    } else {
        let rest = insert_by_depth(sorted.drop_first(), i, depth);
        lemma_insert_by_depth_contains(sorted.drop_first(), i, depth);
        assert(r == seq![sorted[0]] + rest);
        let qi = choose|q: int| 0 <= q < rest.len() && rest[q] == i;
        assert(r[qi + 1] == i);
        assert forall|x: int| sorted.contains(x) implies r.contains(x) by {
            let q = choose|q: int| 0 <= q < sorted.len() && sorted[q] == x;
            if q == 0 {
                assert(r[0] == x);
            } else {
                assert(sorted.drop_first()[q - 1] == x);
                assert(sorted.drop_first().contains(x));
                let q2 = choose|q2: int| 0 <= q2 < rest.len() && rest[q2] == x;
                assert(r[q2 + 1] == x);
            }
        }
    }
}

// ---------------------------------------------------------------------
// Laws
// ---------------------------------------------------------------------

proof fn lemma_add_all_unique_no_dup(dirs: Seq<PathView>, new: Seq<PathView>)
    requires
        dirs.no_duplicates(),
    ensures
        add_all_unique(dirs, new).no_duplicates(),
    decreases new.len(),
{
    if new.len() > 0 {
        let next = add_unique(dirs, new[0]);
        if !dirs.contains(new[0]) {
            assert forall|i: int, j: int| 0 <= i < next.len() && 0 <= j < next.len() && i != j implies next[i] != next[j] by {
                if i == dirs.len() as int {
                    assert(next[j] == dirs[j]);
                } else if j == dirs.len() as int {
                    assert(next[i] == dirs[i]);
                }
            }
        }
        lemma_add_all_unique_no_dup(next, new.drop_first());
    }
}

/// No directory is watched twice.
pub proof fn law_watch_dirs_unique(
    root: PathView,
    members: Seq<WatchMember>,
    watch_js: bool,
    insts: Seq<Instrument>,
    js_dir_exists: Seq<bool>,
)
    ensures
        watch_dirs_spec(root, members, watch_js, insts, js_dir_exists).no_duplicates(),
{
    let cands = members_candidates(members) + if watch_js {
        js_candidates(root, insts, js_dir_exists)
    } else {
        Seq::empty()
    };
    lemma_add_all_unique_no_dup(Seq::empty(), cands);
}

/// No two kept directories lie one inside the other, when the candidates
/// come shallowest first.
pub open spec fn depth_sorted(cands: Seq<PathView>) -> bool {
    forall|i: int, j: int| 0 <= i < j < cands.len() ==> path_depth(cands[i]) <= path_depth(cands[j])
}

pub open spec fn no_nesting(ds: Seq<PathView>) -> bool {
    forall|i: int, j: int| 0 <= i < ds.len() && 0 <= j < ds.len() && i != j ==> !path_starts_with(ds[i], ds[j])
}

proof fn lemma_outermost_subset(cands: Seq<PathView>, k: int)
    requires
        0 <= k < outermost(cands).len(),
    ensures
        cands.contains(outermost(cands)[k]),
    decreases cands.len(),
{
    let prev = outermost(cands.drop_last());
    if k < prev.len() {
        lemma_outermost_subset(cands.drop_last(), k);
        let q = choose|q: int| 0 <= q < cands.drop_last().len() && cands.drop_last()[q] == prev[k];
        assert(cands[q] == prev[k]);
    } else {
        assert(cands[cands.len() - 1] == outermost(cands)[k]);
    }
}

proof fn lemma_outermost_no_nesting(cands: Seq<PathView>)
    requires
        depth_sorted(cands),
    ensures
        no_nesting(outermost(cands)),
    decreases cands.len(),
{
    if cands.len() > 0 {
        let c0 = cands.drop_last();
        assert(depth_sorted(c0));
        lemma_outermost_no_nesting(c0);
        let prev = outermost(c0);
        let last = cands.last();
        if !(exists|k: int| 0 <= k < prev.len() && path_starts_with(last, #[trigger] prev[k])) {
            let r = outermost(cands);
            assert(r == prev.push(last));
            assert forall|i: int, j: int| 0 <= i < r.len() && 0 <= j < r.len() && i != j implies !path_starts_with(r[i], r[j]) by {
                if i == prev.len() {
                    assert(r[j] == prev[j]);
                } else if j == prev.len() {
                    assert(r[i] == prev[i]);
                    lemma_outermost_subset(c0, i);
                    let q = choose|q: int| 0 <= q < c0.len() && c0[q] == prev[i];
                    assert(cands[q] == prev[i]);
                    if path_starts_with(prev[i], last) {
                        assert(path_depth(prev[i]) <= path_depth(last));
                        assert(prev[i].comps.len() <= last.comps.len());
                        assert(prev[i].comps =~= last.comps);
                        assert(prev[i] == last);
                        assert(last.comps.take(prev[i].comps.len() as int) =~= prev[i].comps);
                        assert(path_starts_with(last, prev[i]));
                    }
                } else {
                    assert(r[i] == prev[i]);
                    assert(r[j] == prev[j]);
                }
            }
        }
    }
}

proof fn lemma_by_depth_sorted(depth: Seq<int>, n: int)
    ensures
        forall|i: int, j: int|
            0 <= i < j < by_depth(depth, n).len() ==> depth[by_depth(depth, n)[i]] <= depth[by_depth(depth, n)[j]],
    decreases n,
{
    if n > 0 {
        lemma_by_depth_sorted(depth, n - 1);
        lemma_insert_by_depth_sorted(by_depth(depth, n - 1), n - 1, depth);
    }
}

proof fn lemma_insert_by_depth_sorted(sorted: Seq<int>, i: int, depth: Seq<int>)
    requires
        forall|a: int, b: int| 0 <= a < b < sorted.len() ==> depth[sorted[a]] <= depth[sorted[b]],
    ensures
        forall|a: int, b: int|
            0 <= a < b < insert_by_depth(sorted, i, depth).len() ==> depth[insert_by_depth(sorted, i, depth)[a]]
                <= depth[insert_by_depth(sorted, i, depth)[b]],
        forall|x: int| #[trigger] insert_by_depth(sorted, i, depth).contains(x) ==> x == i || sorted.contains(x),
    decreases sorted.len(),
{
    let r = insert_by_depth(sorted, i, depth);
    if sorted.len() == 0 {
    } else if depth[i] < depth[sorted[0]] {
        assert forall|x: int| #[trigger] r.contains(x) implies x == i || sorted.contains(x) by {
            let q = choose|q: int| 0 <= q < r.len() && r[q] == x;
            if q > 0 {
                assert(sorted[q - 1] == x);
            }
        }
    } else {
        let rest = sorted.drop_first();
        lemma_insert_by_depth_sorted(rest, i, depth);
        let ins = insert_by_depth(rest, i, depth);
        assert(r == seq![sorted[0]] + ins);
        assert forall|x: int| #[trigger] r.contains(x) implies x == i || sorted.contains(x) by {
            let q = choose|q: int| 0 <= q < r.len() && r[q] == x;
            if q > 0 {
                assert(ins[q - 1] == x);
                assert(ins.contains(x));
                if x != i {
                    let q2 = choose|q2: int| 0 <= q2 < rest.len() && rest[q2] == x;
                    assert(sorted[q2 + 1] == x);
                }
            } else {
                assert(sorted[0] == x);
            }
        }
        assert forall|a: int, b: int| 0 <= a < b < r.len() implies depth[r[a]] <= depth[r[b]] by {
            if a == 0 {
                assert(ins.contains(r[b])) by {
                    assert(ins[b - 1] == r[b]);
                }
                if r[b] != i {
                    let q2 = choose|q2: int| 0 <= q2 < rest.len() && rest[q2] == r[b];
                    assert(sorted[q2 + 1] == r[b]);
                }
            } else {
                assert(r[a] == ins[a - 1]);
                assert(r[b] == ins[b - 1]);
            }
        }
    }
}

/// The directories `dedup_nested` keeps: none lies inside another.
pub proof fn law_dedup_no_nesting(dirs: Seq<PathView>)
    ensures
        no_nesting(outermost(by_depth(dirs.map_values(|p: PathView| path_depth(p)), dirs.len() as int).map_values(|i: int| dirs[i]))),
{
    let depth = dirs.map_values(|p: PathView| path_depth(p));
    let ord = by_depth(depth, dirs.len() as int);
    lemma_by_depth_sorted(depth, dirs.len() as int);
    lemma_by_depth_in_range(depth, dirs.len() as int);
    let cands = ord.map_values(|i: int| dirs[i]);
    assert forall|i: int, j: int| 0 <= i < j < cands.len() implies path_depth(cands[i]) <= path_depth(cands[j]) by {
        assert(depth[ord[i]] <= depth[ord[j]]);
    }
    lemma_outermost_no_nesting(cands);
}

proof fn lemma_by_depth_in_range(depth: Seq<int>, n: int)
    ensures
        forall|k: int| 0 <= k < by_depth(depth, n).len() ==> 0 <= #[trigger] by_depth(depth, n)[k] < n,
    decreases n,
{
    if n > 0 {
        lemma_by_depth_in_range(depth, n - 1);
        let s = by_depth(depth, n - 1);
        lemma_insert_by_depth_sorted_in(s, n - 1, depth);
        let t = by_depth(depth, n);
        assert forall|k: int| 0 <= k < t.len() implies 0 <= #[trigger] t[k] < n by {
            assert(t.contains(t[k]));
            if t[k] != n - 1 {
                assert(s.contains(t[k]));
                let q = choose|q: int| 0 <= q < s.len() && s[q] == t[k];
            }
        }
    }
}

proof fn lemma_insert_by_depth_sorted_in(sorted: Seq<int>, i: int, depth: Seq<int>)
    ensures
        forall|x: int| #[trigger] insert_by_depth(sorted, i, depth).contains(x) ==> x == i || sorted.contains(x),
    decreases sorted.len(),
{
    let r = insert_by_depth(sorted, i, depth);
    if sorted.len() == 0 {
    } else if depth[i] < depth[sorted[0]] {
        assert forall|x: int| #[trigger] r.contains(x) implies x == i || sorted.contains(x) by {
            let q = choose|q: int| 0 <= q < r.len() && r[q] == x;
            if q > 0 {
                assert(sorted[q - 1] == x);
            }
        }
    } else {
        let rest = sorted.drop_first();
        lemma_insert_by_depth_sorted_in(rest, i, depth);
        let ins = insert_by_depth(rest, i, depth);
        assert(r == seq![sorted[0]] + ins);
        assert forall|x: int| #[trigger] r.contains(x) implies x == i || sorted.contains(x) by {
            let q = choose|q: int| 0 <= q < r.len() && r[q] == x;
            if q > 0 {
                assert(ins[q - 1] == x);
                assert(ins.contains(x));
                if x != i {
                    let q2 = choose|q2: int| 0 <= q2 < rest.len() && rest[q2] == x;
                    assert(sorted[q2 + 1] == x);
                }
            } else {
                assert(sorted[0] == x);
            }
        }
    }
}

} // verus!
