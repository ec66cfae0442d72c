//! Artifact sizes remembered between builds, so that a build can show how
//! much each artifact grew or shrank.
use vstd::prelude::*;
use crate::path::{join_text, parse_path, path_join, FsPath, PathView};
use crate::text::{copy_string, str_eq};

verus! {

/// Sizes by package name.
pub struct SizeTable {
    names: Vec<String>,
    sizes: Vec<u64>,
}

impl SizeTable {
    pub closed spec fn names_view(&self) -> Seq<Seq<char>> {
        self.names@.map_values(|s: String| s@)
    }

    pub closed spec fn sizes_view(&self) -> Seq<u64> {
        self.sizes@
    }

    /// Names and sizes line up and no name occurs twice.
    pub open spec fn wf(&self) -> bool {
        &&& self.names_view().len() == self.sizes_view().len()
        &&& self.names_view().no_duplicates()
    }

    /// The size recorded for `name`.
    pub open spec fn lookup(&self, name: Seq<char>) -> Option<u64> {
        if self.names_view().contains(name) {
            Some(self.sizes_view()[self.names_view().index_of(name)])
        } else {
            None
        }
    }

    proof fn lemma_lookup_at(&self, i: int)
        requires
            self.wf(),
            0 <= i < self.names_view().len(),
        ensures
            self.lookup(self.names_view()[i]) == Some(self.sizes_view()[i]),
    {
        let k = self.names_view()[i];
        assert(self.names_view().contains(k));
    }

    pub fn new() -> (t: SizeTable)
        ensures
            t.wf(),
            forall|k: Seq<char>| t.lookup(k) is None,
    {
        let t = SizeTable { names: Vec::new(), sizes: Vec::new() };
        assert(t.names_view() =~= Seq::<Seq<char>>::empty());
        t
    }

    /// The number of entries.
    pub fn len(&self) -> (n: usize)
        requires
            self.wf(),
        ensures
            n == self.names_view().len(),
    {
        self.names.len()
    }

    /// The `i`-th entry.
    pub fn entry(&self, i: usize) -> (r: (&String, u64))
        requires
            self.wf(),
            i < self.names_view().len(),
        ensures
            r.0@ == self.names_view()[i as int],
            r.1 == self.sizes_view()[i as int],
            self.lookup(r.0@) == Some(r.1),
    {
        proof {
            self.lemma_lookup_at(i as int);
        }
        (&self.names[i], self.sizes[i])
    }

    fn position(&self, name: &str) -> (r: Option<usize>)
        requires
            self.wf(),
        ensures
            match r {
                Some(i) => i < self.names_view().len() && self.names_view()[i as int] == name@,
                None => !self.names_view().contains(name@),
            },
    {
        let mut i: usize = 0;
        while i < self.names.len()
            invariant
                self.wf(),
                i <= self.names.len(),
                forall|j: int| 0 <= j < i ==> self.names_view()[j] != name@,
            decreases self.names.len() - i,
        {
            if str_eq(self.names[i].as_str(), name) {
                return Some(i);
            }
            i += 1;
        }
        None
    }

    /// The size recorded for `name`.
    pub fn get(&self, name: &str) -> (r: Option<u64>)
        requires
            self.wf(),
        ensures
            r == self.lookup(name@),
    {
        match self.position(name) {
            Some(i) => {
                proof {
                    self.lemma_lookup_at(i as int);
                }
                Some(self.sizes[i])
            },
            None => None,
        }
    }

    /// Records `size` for `name`, replacing an earlier size.
    pub fn set(&mut self, name: &str, size: u64)
        requires
            old(self).wf(),
        ensures
            final(self).wf(),
            forall|k: Seq<char>|
                #[trigger] final(self).lookup(k) == if k == name@ {
                    Some(size)
                } else {
                    old(self).lookup(k)
                },
    {
        match self.position(name) {
            Some(i) => {
                self.sizes.set(i, size);
                proof {
                    assert forall|k: Seq<char>| #[trigger]
                        self.lookup(k) == if k == name@ {
                            Some(size)
                        } else {
                            old(self).lookup(k)
                        } by {
                        if self.names_view().contains(k) {
                            let j = self.names_view().index_of(k);
                            self.lemma_lookup_at(j);
                            old(self).lemma_lookup_at(j);
                        }
                    }
                }
            },
            None => {
                let ghost on = self.names_view();
                self.names.push(copy_string(name));
                self.sizes.push(size);
                proof {
                    assert(self.names_view() =~= on.push(name@));
                    assert forall|k: Seq<char>| #[trigger]
                        self.lookup(k) == if k == name@ {
                            Some(size)
                        } else {
                            old(self).lookup(k)
                        } by {
                        if k == name@ {
                            self.lemma_lookup_at(on.len() as int);
                        } else if self.names_view().contains(k) {
                            let j = self.names_view().index_of(k);
                            self.lemma_lookup_at(j);
                            old(self).lemma_lookup_at(j);
                        } else {
                            if on.contains(k) {
                                let j = on.index_of(k);
                                assert(self.names_view()[j] == k);
                            }
                        }
                    }
                }
            },
        }
    }

    /// A copy of the table.
    pub fn duplicate(&self) -> (r: SizeTable)
        requires
            self.wf(),
        ensures
            r.wf(),
            forall|k: Seq<char>| #[trigger] r.lookup(k) == self.lookup(k),
    {
        let mut names: Vec<String> = Vec::new();
        let mut i: usize = 0;
        while i < self.names.len()
            invariant
                self.wf(),
                i <= self.names.len(),
                names@.map_values(|s: String| s@) == self.names_view().take(i as int),
            decreases self.names.len() - i,
        {
            let ghost b = names@;
            names.push(self.names[i].clone());
            assert(names@.map_values(|s: String| s@) =~= b.map_values(|s: String| s@).push(
                self.names_view()[i as int],
            ));
            assert(self.names_view().take(i + 1) =~= self.names_view().take(i as int).push(
                self.names_view()[i as int],
            ));
            i += 1;
        }
        let sizes = self.sizes.clone();
        let r = SizeTable { names, sizes };
        assert(self.names_view().take(self.names.len() as int) =~= self.names_view());
        assert(r.names_view() == self.names_view());
        assert(r.sizes_view() =~= self.sizes_view());
        r
    }
}

/// Sizes of the current build and a frozen snapshot of the sizes loaded
/// from disk.
pub struct Stats {
    sizes: SizeTable,
    previous: SizeTable,
}

impl Stats {
    pub open spec fn wf(&self) -> bool {
        self.current_table().wf() && self.previous_table().wf()
    }

    pub closed spec fn current_table(&self) -> SizeTable {
        self.sizes
    }

    pub closed spec fn previous_table(&self) -> SizeTable {
        self.previous
    }

    /// No sizes at all (nothing on disk).
    pub fn empty() -> (s: Stats)
        ensures
            s.wf(),
            forall|k: Seq<char>| s.current_table().lookup(k) is None,
            forall|k: Seq<char>| s.previous_table().lookup(k) is None,
    {
        Stats { sizes: SizeTable::new(), previous: SizeTable::new() }
    }

    /// Stats for the sizes loaded from disk; the snapshot is a copy of
    /// them.
    pub fn from_loaded(loaded: SizeTable) -> (s: Stats)
        requires
            loaded.wf(),
        ensures
            loaded_from(loaded, s),
    {
        let previous = loaded.duplicate();
        Stats { sizes: loaded, previous }
    }

    /// The size `package` had when the stats were loaded.
    pub fn previous_size(&self, package: &str) -> (r: Option<u64>)
        requires
            self.wf(),
        ensures
            r == self.previous_table().lookup(package@),
    {
        self.previous.get(package)
    }

    /// Records the size of `package` in this build.
    pub fn record(&mut self, package: &str, size_bytes: u64)
        requires
            old(self).wf(),
        ensures
            recorded(*old(self), *final(self), package@, size_bytes),
    {
        self.sizes.set(package, size_bytes);
    }

    /// The sizes to save.
    pub fn current(&self) -> (t: &SizeTable)
        ensures
            *t == self.current_table(),
    {
        &self.sizes
    }
}

/// `s` holds the sizes `loaded` from disk, both as its current sizes and
/// as its snapshot.
pub open spec fn loaded_from(loaded: SizeTable, s: Stats) -> bool {
    &&& s.wf()
    &&& forall|k: Seq<char>| #[trigger] s.current_table().lookup(k) == loaded.lookup(k)
    &&& forall|k: Seq<char>| #[trigger] s.previous_table().lookup(k) == loaded.lookup(k)
}

/// `after` is `before` with `size` recorded for `package`: the snapshot
/// is untouched and only that package's current size changes.
pub open spec fn recorded(before: Stats, after: Stats, package: Seq<char>, size: u64) -> bool {
    &&& after.wf()
    &&& after.previous_table() == before.previous_table()
    &&& forall|k: Seq<char>|
        #[trigger] after.current_table().lookup(k) == if k == package {
            Some(size)
        } else {
            before.current_table().lookup(k)
        }
}

/// A size recorded in one build is the previous size of the next: when
/// the current sizes are saved (`saved` holds the same sizes) and loaded
/// again, the recorded size is what the next build compares against.
/// Recording never changes the snapshot the build itself compares with.
pub proof fn law_recorded_size_is_next_previous(
    before: Stats,
    after: Stats,
    saved: SizeTable,
    reloaded: Stats,
    package: Seq<char>,
    size: u64,
)
    requires
        recorded(before, after, package, size),
        forall|k: Seq<char>| #[trigger] saved.lookup(k) == after.current_table().lookup(k),
        loaded_from(saved, reloaded),
    ensures
        reloaded.previous_table().lookup(package) == Some(size),
        after.previous_table().lookup(package) == before.previous_table().lookup(package),
{
    assert(after.current_table().lookup(package) == Some(size));
    assert(saved.lookup(package) == Some(size));
}

/// Where the stats live: `<root>/target/.infinity-msfs-stats.json`.
pub fn stats_path(root: &FsPath) -> (r: FsPath)
    ensures
        r@ == join_text(join_text(root@, "target"@), ".infinity-msfs-stats.json"@),
{
    root.join_str("target").join_str(".infinity-msfs-stats.json")
}

} // verus!
