//! A model of file-system paths as `std::path` sees them: an optional
//! drive prefix (Windows), a root, and the components. Components are
//! separated by `/`, and on Windows also by `\`; empty components and
//! `.` are dropped, except a `.` that begins a path without a root.
use vstd::prelude::*;
use crate::text::{chars_eq, chars_of, join_with, string_of};

verus! {

/// The view of a path: the host style it follows (Windows or not), its
/// drive prefix (`C:`, upper-cased; empty when none), whether it has a
/// root, and its components.
pub struct PathView {
    pub windows: bool,
    pub prefix: Seq<char>,
    pub absolute: bool,
    pub comps: Seq<Seq<char>>,
}

/// A separator: `/`, and on Windows also `\`.
pub open spec fn is_sep(c: char, windows: bool) -> bool {
    c == '/' || (windows && c == '\\')
}

/// A component that is kept: neither empty nor `.`.
pub open spec fn keeps(c: Seq<char>) -> bool {
    c.len() > 0 && c != seq!['.']
}

pub open spec fn flush(acc: Seq<Seq<char>>, cur: Seq<char>) -> Seq<Seq<char>> {
    if keeps(cur) {
        acc.push(cur)
    } else {
        acc
    }
}

/// The components of `s`: the pieces between separators, without empty
/// and `.` pieces; `cur` is the piece read so far and `acc` the pieces
/// before it.
pub open spec fn comps_acc(s: Seq<char>, cur: Seq<char>, acc: Seq<Seq<char>>, windows: bool) -> Seq<
    Seq<char>,
>
    decreases s.len(),
{
    if s.len() == 0 {
        flush(acc, cur)
    } else if is_sep(s[0], windows) {
        comps_acc(s.drop_first(), Seq::empty(), flush(acc, cur), windows)
    } else {
        comps_acc(s.drop_first(), cur.push(s[0]), acc, windows)
    }
}

pub open spec fn ascii_letter(c: char) -> bool {
    ('a' <= c && c <= 'z') || ('A' <= c && c <= 'Z')
}

pub open spec fn ascii_upper_of(c: char) -> char {
    if 'a' <= c && c <= 'z' {
        ((c as int) - 32) as char
    } else {
        c
    }
}

/// The drive prefix of `s` on Windows: a letter and `:`, the letter
/// upper-cased as `std` compares it.
pub open spec fn drive_prefix(s: Seq<char>, windows: bool) -> Seq<char> {
    if windows && s.len() >= 2 && ascii_letter(s[0]) && s[1] == ':' {
        seq![ascii_upper_of(s[0]), ':']
    } else {
        Seq::empty()
    }
}

/// Whether the text after the prefix begins with `.` as a component of
/// its own.
pub open spec fn leading_dot(rest: Seq<char>, windows: bool) -> bool {
    rest.len() > 0 && rest[0] == '.' && (rest.len() == 1 || is_sep(rest[1], windows))
}

/// The path that the string `s` denotes on a host of the given style.
pub open spec fn parse_host_path(s: Seq<char>, windows: bool) -> PathView {
    let prefix = drive_prefix(s, windows);
    let rest = s.skip(prefix.len() as int);
    let rooted = rest.len() > 0 && is_sep(rest[0], windows);
    let comps = comps_acc(rest, Seq::empty(), Seq::empty(), windows);
    PathView {
        windows,
        prefix,
        absolute: rooted,
        comps: if !rooted && leading_dot(rest, windows) {
            seq![seq!['.']] + comps
        } else {
            comps
        },
    }
}

/// The path that the string `s` denotes, `/`-separated.
pub open spec fn parse_path(s: Seq<char>) -> PathView {
    parse_host_path(s, false)
}

/// `Path::is_absolute`: a root, and on Windows a drive prefix too.
pub open spec fn path_is_absolute(p: PathView) -> bool {
    p.absolute && (!p.windows || p.prefix.len() > 0)
}

/// `PathBuf::push` (and `Path::join`): an absolute `b`, or one with a
/// prefix, replaces `a`; one with only a root keeps `a`'s prefix;
/// otherwise `b`'s components follow `a`'s (a `.` that began `b` is then
/// no longer a component).
pub open spec fn path_join(a: PathView, b: PathView) -> PathView {
    if path_is_absolute(b) || b.prefix.len() > 0 {
        b
    } else if b.absolute {
        PathView { windows: a.windows, prefix: a.prefix, absolute: true, comps: b.comps }
    } else {
        PathView {
            windows: a.windows,
            prefix: a.prefix,
            absolute: a.absolute,
            comps: a.comps + if (a.comps.len() > 0 || a.absolute) && b.comps.len() > 0
                && b.comps[0] == seq!['.'] {
                b.comps.drop_first()
            } else {
                b.comps
            },
        }
    }
}

/// `a` joined with the path that `s` denotes on `a`'s host.
pub open spec fn join_text(a: PathView, s: Seq<char>) -> PathView {
    path_join(a, parse_host_path(s, a.windows))
}

/// `Path::parent`: `None` for a path without components.
pub open spec fn path_parent(a: PathView) -> Option<PathView> {
    if a.comps.len() == 0 {
        None
    } else {
        Some(PathView { windows: a.windows, prefix: a.prefix, absolute: a.absolute, comps: a.comps.drop_last() })
    }
}

/// `Path::starts_with`: same prefix and root, and `base`'s components
/// are a prefix of `a`'s.
pub open spec fn path_starts_with(a: PathView, base: PathView) -> bool {
    &&& a.windows == base.windows
    &&& a.prefix == base.prefix
    &&& a.absolute == base.absolute
    &&& base.comps.len() <= a.comps.len()
    &&& a.comps.take(base.comps.len() as int) == base.comps
}

/// `Path::strip_prefix`: the relative rest of `a` after `base`.
pub open spec fn path_strip_prefix(a: PathView, base: PathView) -> Option<PathView> {
    if path_starts_with(a, base) {
        Some(PathView { windows: a.windows, prefix: Seq::empty(), absolute: false, comps: a.comps.skip(base.comps.len() as int) })
    } else {
        None
    }
}

/// `Path::file_name`: the last component, unless it is `.` or `..`.
pub open spec fn path_file_name(a: PathView) -> Option<Seq<char>> {
    if a.comps.len() == 0 || a.comps.last() == seq!['.', '.'] || a.comps.last() == seq!['.'] {
        None
    } else {
        Some(a.comps.last())
    }
}

/// The index of the last `.` in `name`, if any.
pub open spec fn last_dot(name: Seq<char>, i: int) -> Option<int>
    decreases i + 1,
{
    if i < 0 {
        None
    } else if name[i] == '.' {
        Some(i)
    } else {
        last_dot(name, i - 1)
    }
}

/// `Path::extension`: what follows the last `.` of the file name, unless
/// that `.` is the name's first character.
pub open spec fn path_extension(a: PathView) -> Option<Seq<char>> {
    match path_file_name(a) {
        None => None,
        Some(name) => match last_dot(name, name.len() - 1) {
            None => None,
            Some(i) => if i == 0 {
                None
            } else {
                Some(name.skip(i + 1))
            },
        },
    }
}

/// The separator a path is shown with: `\` on Windows, else `/`.
pub open spec fn display_sep(windows: bool) -> char {
    if windows {
        '\\'
    } else {
        '/'
    }
}

/// How a path is shown: its prefix, the separator for a root, then the
/// components between separators.
pub open spec fn path_display(a: PathView) -> Seq<char> {
    let sep = display_sep(a.windows);
    a.prefix + (if a.absolute {
        seq![sep]
    } else {
        Seq::empty()
    }) + join_with(a.comps, seq![sep])
}

/// The path without its first component: the prefix when there is one,
/// else the root of a rooted path, else the first name.
pub open spec fn strip_first_spec(p: PathView) -> PathView {
    if p.prefix.len() > 0 {
        PathView { windows: p.windows, prefix: Seq::empty(), absolute: p.absolute, comps: p.comps }
    } else if p.absolute {
        PathView { windows: p.windows, prefix: Seq::empty(), absolute: false, comps: p.comps }
    } else {
        PathView {
            windows: p.windows,
            prefix: Seq::empty(),
            absolute: false,
            comps: p.comps.skip(if p.comps.len() > 0 { 1int } else { 0int }),
        }
    }
}

/// A file-system path.
pub struct FsPath {
    windows: bool,
    prefix: String,
    absolute: bool,
    parts: Vec<String>,
}

impl View for FsPath {
    type V = PathView;

    closed spec fn view(&self) -> PathView {
        PathView {
            windows: self.windows,
            prefix: self.prefix@,
            absolute: self.absolute,
            comps: self.parts@.map_values(|s: String| s@),
        }
    }
}

fn strings_of_parts(parts: &Vec<String>) -> (r: Vec<String>)
    ensures
        r@.map_values(|s: String| s@) == parts@.map_values(|s: String| s@),
{
    let mut out: Vec<String> = Vec::new();
    let mut i: usize = 0;
    while i < parts.len()
        invariant
            i <= parts.len(),
            out@.map_values(|s: String| s@) == parts@.take(i as int).map_values(|s: String| s@),
        decreases parts.len() - i,
    {
        let ghost before = out@;
        out.push(parts[i].clone());
        assert(out@.map_values(|s: String| s@) =~= before.map_values(|s: String| s@).push(
            parts@[i as int]@,
        ));
        assert(parts@.take(i + 1).map_values(|s: String| s@) =~= parts@.take(i as int).map_values(
            |s: String| s@,
        ).push(parts@[i as int]@));
        i += 1;
    }
    assert(parts@.take(parts.len() as int) =~= parts@);
    out
}

fn flush_exec(acc: &mut Vec<String>, cur: &Vec<char>)
    ensures
        final(acc)@.map_values(|s: String| s@) == flush(old(acc)@.map_values(|s: String| s@), cur@),
{
    let dot: Vec<char> = vec!['.'];
    assert(dot@ =~= seq!['.']);
    if cur.len() > 0 && !chars_eq(cur, &dot) {
        let ghost before = acc@;
        acc.push(string_of(cur));
        assert(acc@.map_values(|s: String| s@) =~= before.map_values(|s: String| s@).push(cur@));
    }
}

fn sep_char(c: char, windows: bool) -> (r: bool)
    ensures
        r == is_sep(c, windows),
{
    c == '/' || (windows && c == '\\')
}

fn upper_letter(c: char) -> (r: char)
    requires
        ascii_letter(c),
    ensures
        r == ascii_upper_of(c),
{
    if 'a' <= c && c <= 'z' {
        let u: u32 = (c as u32) - 32;
        let b: u8 = u as u8;
        b as char
    } else {
        c
    }
}

impl FsPath {
    /// Whether the path has a root (`Path::has_root`).
    pub fn has_root(&self) -> (r: bool)
        ensures
            r == self@.absolute,
    {
        self.absolute
    }

    /// Whether the path has a drive prefix.
    pub fn has_prefix(&self) -> (r: bool)
        ensures
            r == (self@.prefix.len() > 0),
    {
        !self.prefix.as_str().is_empty()
    }

    /// `Path::is_absolute`.
    pub fn is_absolute(&self) -> (r: bool)
        ensures
            r == path_is_absolute(self@),
    {
        self.absolute && (!self.windows || !self.prefix.as_str().is_empty())
    }

    /// The number of components.
    pub fn component_count(&self) -> (r: usize)
        ensures
            r == self@.comps.len(),
    {
        self.parts.len()
    }

    /// The `i`-th component.
    pub fn component(&self, i: usize) -> (r: &String)
        requires
            i < self@.comps.len(),
        ensures
            r@ == self@.comps[i as int],
    {
        &self.parts[i]
    }

    /// The path a string denotes, components separated by `/`.
    pub fn parse(s: &str) -> (p: FsPath)
        ensures
            p@ == parse_path(s@),
    {
        FsPath::parse_host(s, false)
    }

    /// The path a string denotes on a host of the given style.
    pub fn parse_host(s: &str, windows: bool) -> (p: FsPath)
        ensures
            p@ == parse_host_path(s@, windows),
    {
        let cs = chars_of(s);
        let mut prefix: Vec<char> = Vec::new();
        let mut start: usize = 0;
        if windows && cs.len() >= 2 && (('a' <= cs[0] && cs[0] <= 'z') || ('A' <= cs[0] && cs[0] <= 'Z'))
            && cs[1] == ':' {
            prefix.push(upper_letter(cs[0]));
            prefix.push(':');
            start = 2;
        }
        let ghost pre = drive_prefix(cs@, windows);
        assert(prefix@ =~= pre);
        let ghost rest = cs@.skip(start as int);
        let rooted = start < cs.len() && sep_char(cs[start], windows);
        let lead = !rooted && start < cs.len() && cs[start] == '.' && (start + 1 == cs.len() || sep_char(
            cs[start + 1],
            windows,
        ));
        assert(rooted == (rest.len() > 0 && is_sep(rest[0], windows)));
        assert(lead == (!rooted && leading_dot(rest, windows)));
        let mut acc: Vec<String> = Vec::new();
        let mut cur: Vec<char> = Vec::new();
        let mut i: usize = start;
        assert(acc@.map_values(|s: String| s@) =~= Seq::<Seq<char>>::empty());
        assert(cur@ =~= Seq::<char>::empty());
        assert(cs@.skip(start as int) =~= rest);
        while i < cs.len()
            invariant
                start <= i <= cs.len(),
                rest == cs@.skip(start as int),
                comps_acc(rest, Seq::empty(), Seq::empty(), windows) == comps_acc(
                    cs@.skip(i as int),
                    cur@,
                    acc@.map_values(|s: String| s@),
                    windows,
                ),
            decreases cs.len() - i,
        {
            let c = cs[i];
            assert(cs@.skip(i as int).drop_first() =~= cs@.skip(i + 1));
            assert(cs@.skip(i as int)[0] == c);
            if sep_char(c, windows) {
                flush_exec(&mut acc, &cur);
                cur = Vec::new();
                assert(cur@ =~= Seq::<char>::empty());
            } else {
                cur.push(c);
            }
            i += 1;
        }
        flush_exec(&mut acc, &cur);
        assert(cs@.skip(cs.len() as int) =~= Seq::<char>::empty());
        let ghost comps = acc@.map_values(|s: String| s@);
        if lead {
            let dot: Vec<char> = vec!['.'];
            assert(dot@ =~= seq!['.']);
            acc.insert(0, string_of(&dot));
            assert(acc@.map_values(|s: String| s@) =~= seq![seq!['.']] + comps);
        }
        FsPath { windows, prefix: string_of(&prefix), absolute: rooted, parts: acc }
    }

    /// A copy of this path.
    pub fn duplicate(&self) -> (r: FsPath)
        ensures
            r@ == self@,
    {
        FsPath {
            windows: self.windows,
            prefix: self.prefix.clone(),
            absolute: self.absolute,
            parts: strings_of_parts(&self.parts),
        }
    }

    /// `Path::join`.
    pub fn join(&self, other: &FsPath) -> (r: FsPath)
        ensures
            r@ == path_join(self@, other@),
    {
        if other.is_absolute() || !other.prefix.as_str().is_empty() {
            return other.duplicate();
        }
        if other.absolute {
            return FsPath {
                windows: self.windows,
                prefix: self.prefix.clone(),
                absolute: true,
                parts: strings_of_parts(&other.parts),
            };
        }
        let mut parts = strings_of_parts(&self.parts);
        let dot: Vec<char> = vec!['.'];
        assert(dot@ =~= seq!['.']);
        let skip_dot = (self.parts.len() > 0 || self.absolute) && other.parts.len() > 0 && chars_eq(
            &chars_of(other.parts[0].as_str()),
            &dot,
        );
        let first: usize = if skip_dot { 1 } else { 0 };
        let ghost tail = other@.comps.skip(first as int);
        assert(other@.comps.skip(0) =~= other@.comps);
        let mut i: usize = first;
        let ghost base = parts@.map_values(|s: String| s@);
        while i < other.parts.len()
            invariant
                first <= i <= other.parts.len(),
                first <= 1,
                parts@.map_values(|s: String| s@) == base + other@.comps.subrange(first as int, i as int),
                other@.comps == other.parts@.map_values(|s: String| s@),
            decreases other.parts.len() - i,
        {
            let ghost before = parts@;
            parts.push(other.parts[i].clone());
            assert(parts@.map_values(|s: String| s@) =~= before.map_values(|s: String| s@).push(
                other@.comps[i as int],
            ));
            assert(other@.comps.subrange(first as int, i + 1) =~= other@.comps.subrange(
                first as int,
                i as int,
            ).push(other@.comps[i as int]));
            i += 1;
        }
        assert(other@.comps.subrange(first as int, other.parts.len() as int) =~= tail);
        if skip_dot {
            assert(other@.comps.drop_first() =~= tail);
        }
        FsPath { windows: self.windows, prefix: self.prefix.clone(), absolute: self.absolute, parts }
    }

    /// `Path::join` with a path given as a string on this path's host.
    pub fn join_str(&self, other: &str) -> (r: FsPath)
        ensures
            r@ == join_text(self@, other@),
    {
        let o = FsPath::parse_host(other, self.windows);
        self.join(&o)
    }

    /// `Path::parent`.
    pub fn parent(&self) -> (r: Option<FsPath>)
        ensures
            match path_parent(self@) {
                Some(p) => r matches Some(q) && q@ == p,
                None => r is None,
            },
    {
        if self.parts.len() == 0 {
            return None;
        }
        let mut parts = strings_of_parts(&self.parts);
        let ghost before = parts@;
        parts.pop();
        assert(parts@.map_values(|s: String| s@) =~= before.map_values(|s: String| s@).drop_last());
        Some(FsPath { windows: self.windows, prefix: self.prefix.clone(), absolute: self.absolute, parts })
    }

    /// `Path::starts_with`.
    pub fn starts_with(&self, base: &FsPath) -> (r: bool)
        ensures
            r == path_starts_with(self@, base@),
    {
        if self.windows != base.windows || self.absolute != base.absolute || base.parts.len()
            > self.parts.len() {
            return false;
        }
        if !chars_eq(&chars_of(self.prefix.as_str()), &chars_of(base.prefix.as_str())) {
            return false;
        }
        let mut i: usize = 0;
        while i < base.parts.len()
            invariant
                base.parts.len() <= self.parts.len(),
                i <= base.parts.len(),
                forall|j: int| 0 <= j < i ==> self@.comps[j] == base@.comps[j],
            decreases base.parts.len() - i,
        {
            if !chars_eq(&chars_of(self.parts[i].as_str()), &chars_of(base.parts[i].as_str())) {
                assert(self@.comps.take(base@.comps.len() as int)[i as int] != base@.comps[i as int]);
                return false;
            }
            i += 1;
        }
        assert(self@.comps.take(base@.comps.len() as int) =~= base@.comps);
        true
    }

    /// Equality of paths.
    pub fn same_as(&self, other: &FsPath) -> (r: bool)
        ensures
            r == (self@ == other@),
    {
        if self.parts.len() != other.parts.len() {
            return false;
        }
        let r = self.starts_with(other);
        proof {
            if r {
                assert(self@.comps =~= other@.comps);
            } else if self@ == other@ {
                assert(self@.comps.take(other@.comps.len() as int) =~= other@.comps);
            }
        }
        r
    }

    /// `Path::strip_prefix`.
    pub fn strip_prefix(&self, base: &FsPath) -> (r: Option<FsPath>)
        ensures
            match path_strip_prefix(self@, base@) {
                Some(p) => r matches Some(q) && q@ == p,
                None => r is None,
            },
    {
        if !self.starts_with(base) {
            return None;
        }
        let mut parts: Vec<String> = Vec::new();
        let mut i: usize = base.parts.len();
        let ghost k = base.parts.len() as int;
        while i < self.parts.len()
            invariant
                0 <= k <= i <= self.parts.len(),
                self@.comps.len() == self.parts.len(),
                self@.comps == self.parts@.map_values(|s: String| s@),
                parts@.map_values(|s: String| s@) == self@.comps.subrange(k, i as int),
            decreases self.parts.len() - i,
        {
            let ghost before = parts@;
            parts.push(self.parts[i].clone());
            assert(parts@.map_values(|s: String| s@) =~= before.map_values(|s: String| s@).push(
                self@.comps[i as int],
            ));
            assert(self@.comps.subrange(k, i + 1) =~= self@.comps.subrange(k, i as int).push(
                self@.comps[i as int],
            ));
            i += 1;
        }
        assert(self@.comps.subrange(k, self.parts.len() as int) =~= self@.comps.skip(k));
        let empty = String::new();
        assert(empty@ =~= Seq::<char>::empty());
        Some(FsPath { windows: self.windows, prefix: empty, absolute: false, parts })
    }

    /// `Path::file_name`.
    pub fn file_name(&self) -> (r: Option<String>)
        ensures
            match path_file_name(self@) {
                Some(n) => r matches Some(s) && s@ == n,
                None => r is None,
            },
    {
        if self.parts.len() == 0 {
            return None;
        }
        let last = &self.parts[self.parts.len() - 1];
        let lc = chars_of(last.as_str());
        let dd: Vec<char> = vec!['.', '.'];
        assert(dd@ =~= seq!['.', '.']);
        let d: Vec<char> = vec!['.'];
        assert(d@ =~= seq!['.']);
        if chars_eq(&lc, &dd) || chars_eq(&lc, &d) {
            return None;
        }
        Some(last.clone())
    }

    /// `Path::extension`.
    pub fn extension(&self) -> (r: Option<String>)
        ensures
            match path_extension(self@) {
                Some(n) => r matches Some(s) && s@ == n,
                None => r is None,
            },
    {
        let name = match self.file_name() {
            None => return None,
            Some(n) => n,
        };
        let nc = chars_of(name.as_str());
        if nc.len() == 0 {
            return None;
        }
        let mut i: usize = nc.len() - 1;
        loop
            invariant
                i < nc.len(),
                path_file_name(self@) == Some(nc@),
                last_dot(nc@, nc.len() - 1) == last_dot(nc@, i as int),
            decreases i,
        {
            if nc[i] == '.' {
                if i == 0 {
                    return None;
                }
                let mut ext: Vec<char> = Vec::new();
                crate::text::extend_range(&mut ext, &nc, i + 1, nc.len());
                assert(ext@ =~= nc@.skip(i + 1));
                return Some(string_of(&ext));
            }
            if i == 0 {
                assert(last_dot(nc@, -1) is None);
                return None;
            }
            i -= 1;
        }
    }

    /// The path without its first component.
    pub fn without_first(&self) -> (r: FsPath)
        ensures
            r@ == strip_first_spec(self@),
    {
        let empty = String::new();
        assert(empty@ =~= Seq::<char>::empty());
        if !self.prefix.as_str().is_empty() {
            return FsPath {
                windows: self.windows,
                prefix: empty,
                absolute: self.absolute,
                parts: strings_of_parts(&self.parts),
            };
        }
        let mut parts: Vec<String> = Vec::new();
        let start: usize = if self.absolute || self.parts.len() == 0 { 0 } else { 1 };
        let mut i: usize = start;
        while i < self.parts.len()
            invariant
                start <= i <= self.parts.len(),
                start <= 1,
                self@.comps.len() == self.parts.len(),
                self@.comps == self.parts@.map_values(|s: String| s@),
                parts@.map_values(|s: String| s@) == self@.comps.subrange(start as int, i as int),
            decreases self.parts.len() - i,
        {
            let ghost before = parts@;
            parts.push(self.parts[i].clone());
            assert(parts@.map_values(|s: String| s@) =~= before.map_values(|s: String| s@).push(
                self@.comps[i as int],
            ));
            assert(self@.comps.subrange(start as int, i + 1) =~= self@.comps.subrange(
                start as int,
                i as int,
            ).push(self@.comps[i as int]));
            i += 1;
        }
        assert(self@.comps.subrange(start as int, self.parts.len() as int) =~= self@.comps.skip(
            start as int,
        ));
        assert(self@.comps.skip(0) =~= self@.comps);
        FsPath { windows: self.windows, prefix: empty, absolute: false, parts }
    }

    /// The path as text: the prefix, a separator for the root, then the
    /// components between separators (`\` on Windows, else `/`).
    pub fn display(&self) -> (r: String)
        ensures
            r@ == path_display(self@),
    {
        let sep: char = if self.windows { '\\' } else { '/' };
        let mut out: Vec<char> = chars_of(self.prefix.as_str());
        if self.absolute {
            out.push(sep);
        }
        let ghost start = out@;
        let mut i: usize = 0;
        while i < self.parts.len()
            invariant
                i <= self.parts.len(),
                sep == display_sep(self.windows),
                out@ == start + join_with(self@.comps.take(i as int), seq![sep]),
            decreases self.parts.len() - i,
        {
            let pc = chars_of(self.parts[i].as_str());
            let ghost before = out@;
            if i > 0 {
                out.push(sep);
            }
            crate::text::extend_chars(&mut out, &pc);
            proof {
                let t = self@.comps.take(i + 1);
                assert(t.drop_last() =~= self@.comps.take(i as int));
                assert(t.last() == pc@);
                if i == 0 {
                    assert(join_with(t, seq![sep]) == t[0]);
                    assert(out@ =~= start + join_with(t, seq![sep]));
                } else {
                    assert(out@ =~= start + join_with(t, seq![sep]));
                }
            }
            i += 1;
        }
        assert(self@.comps.take(self.parts.len() as int) =~= self@.comps);
        proof {
            if !self.absolute {
                assert(start =~= self.prefix@ + Seq::<char>::empty());
            } else {
                assert(start =~= self.prefix@ + seq![sep]);
            }
            assert(out@ =~= path_display(self@));
        }
        string_of(&out)
    }
}

} // verus!
