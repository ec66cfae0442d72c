//! The JS bundling step: the bundler's settings for an instrument, the
//! ReScript pre-build, the automount patch and the files a bundle emits.
use vstd::prelude::*;
use crate::command::{shell_command, CommandSpec};
use crate::js_config::{Instrument, ModuleAlias, PackageSpec, SimulatorPackage};
use crate::path::{join_text, parse_path, path_display, path_extension, path_join, path_parent, path_starts_with, FsPath, PathView};
use crate::strmap::StrMap;
use crate::text::{
    chars_of, copy_string, extend_chars, extend_range, has_prefix, replace, replace_chars,
    rfind, rfind_chars, slice_chars, str_eq, string_of, trim, trim_chars,
};

verus! {

// ---------------------------------------------------------------------
// Options
// ---------------------------------------------------------------------

/// How sourcemaps are emitted.
#[derive(PartialEq, Eq, Structural, Clone, Copy, Debug)]
pub enum SourceMapKind {
    Inline,
    External,
    File,
}

/// Settings of a JS build.
pub struct BundleOptions {
    /// Output directory for raw bundles, relative to the project root;
    /// `bundles` when absent. Each instrument gets its own subdirectory.
    pub bundles_dir: Option<FsPath>,
    /// Minify the output.
    pub minify: bool,
    /// Emit sourcemaps, and how.
    pub sourcemap: Option<SourceMapKind>,
    /// Skip writing the simulator package.
    pub skip_simulator_package: bool,
    /// `process.env.<name>` substitutions; values are JSON-encoded.
    pub env: StrMap,
}

/// One instrument to bundle, with the package it goes into.
pub struct JsBuildInput {
    pub instrument: Instrument,
    pub package: PackageSpec,
}

/// The kind of a generated file.
#[derive(PartialEq, Eq, Structural, Clone, Copy, Debug)]
pub enum FileKind {
    Template,
    Style,
    Script,
    SourceMap,
    Other,
}

/// A file produced by a build.
pub struct GeneratedFile {
    pub path: FsPath,
    pub kind: FileKind,
    pub size_bytes: u64,
}

/// What bundling one instrument produced.
pub struct JsArtifact {
    pub instrument_name: String,
    pub bundle_dir: FsPath,
    pub generated: Vec<GeneratedFile>,
    /// The files of the simulator package, when one was written.
    pub package: Option<Vec<FsPath>>,
}

impl JsArtifact {
    /// The generated files.
    pub fn files(&self) -> (r: &Vec<GeneratedFile>)
        ensures
            r@ == self.generated@,
    {
        &self.generated
    }

    /// The instrument's name.
    pub fn name(&self) -> (r: &str)
        ensures
            r@ == self.instrument_name@,
    {
        self.instrument_name.as_str()
    }

    /// The first generated template (`.html`), which is what a build
    /// reports as its primary output when there is one.
    pub fn first_template(&self) -> (r: Option<usize>)
        ensures
            match r {
                Some(i) => i < self.generated@.len() && self.generated@[i as int].kind
                    == FileKind::Template && forall|j: int|
                    0 <= j < i ==> #[trigger] self.generated@[j].kind != FileKind::Template,
                None => forall|j: int|
                    0 <= j < self.generated@.len() ==> #[trigger] self.generated@[j].kind
                        != FileKind::Template,
            },
    {
        let mut i: usize = 0;
        while i < self.generated.len()
            invariant
                i <= self.generated.len(),
                forall|j: int| 0 <= j < i ==> #[trigger] self.generated@[j].kind != FileKind::Template,
            decreases self.generated.len() - i,
        {
            if self.generated[i].kind == FileKind::Template {
                return Some(i);
            }
            i += 1;
        }
        None
    }

    /// The total size of the generated files, saturating at `u64::MAX`.
    pub fn total_bytes(&self) -> (r: u64)
        ensures
            r == sum_sizes(self.generated@) || (r == u64::MAX && sum_sizes(self.generated@)
                >= u64::MAX),
    {
        let mut total: u64 = 0;
        let mut i: usize = 0;
        while i < self.generated.len()
            invariant
                i <= self.generated.len(),
                total == sum_sizes(self.generated@.take(i as int)) || (total == u64::MAX
                    && sum_sizes(self.generated@.take(i as int)) >= u64::MAX),
            decreases self.generated.len() - i,
        {
            assert(self.generated@.take(i + 1).drop_last() =~= self.generated@.take(i as int));
            let s = self.generated[i].size_bytes;
            total = total.saturating_add(s);
            i += 1;
        }
        assert(self.generated@.take(self.generated.len() as int) =~= self.generated@);
        total
    }
}

pub open spec fn sum_sizes(files: Seq<GeneratedFile>) -> int
    decreases files.len(),
{
    if files.len() == 0 {
        0
    } else {
        sum_sizes(files.drop_last()) + files.last().size_bytes
    }
}

// ---------------------------------------------------------------------
// The bundler
// ---------------------------------------------------------------------

/// Bundles instruments of one project.
pub struct JsBundler {
    pub project_root: FsPath,
    pub options: BundleOptions,
    /// ReScript build directories whose build already ran.
    pub prepared_rescript_dirs: Vec<FsPath>,
}

/// The directories recorded before and after marking `dir`, and whether
/// it was fresh: fresh exactly when it was not recorded, and then
/// appended.
pub open spec fn mark_outcome(
    before: Seq<PathView>,
    after: Seq<PathView>,
    dir: PathView,
    fresh: bool,
) -> bool {
    &&& fresh == !before.contains(dir)
    &&& after == if fresh {
        before.push(dir)
    } else {
        before
    }
}

impl JsBundler {
    pub fn new(project_root: FsPath, options: BundleOptions) -> (b: JsBundler)
        ensures
            b.project_root@ == project_root@,
            b.options == options,
            b.prepared_rescript_dirs@.len() == 0,
    {
        JsBundler { project_root, options, prepared_rescript_dirs: Vec::new() }
    }

    pub open spec fn prepared_view(&self) -> Seq<PathView> {
        self.prepared_rescript_dirs@.map_values(|p: FsPath| p@)
    }

    /// Records that the ReScript build in `dir` runs; `true` when it had
    /// not run yet (so it must run now), `false` when it already had.
    pub fn mark_rescript_dir_prepared(&mut self, dir: &FsPath) -> (fresh: bool)
        ensures
            mark_outcome(old(self).prepared_view(), final(self).prepared_view(), dir@, fresh),
            final(self).project_root == old(self).project_root,
            final(self).options == old(self).options,
    {
        let mut i: usize = 0;
        while i < self.prepared_rescript_dirs.len()
            invariant
                i <= self.prepared_rescript_dirs.len(),
                self.prepared_rescript_dirs == old(self).prepared_rescript_dirs,
                self.project_root == old(self).project_root,
                self.options == old(self).options,
                forall|j: int| 0 <= j < i ==> self.prepared_view()[j] != dir@,
            decreases self.prepared_rescript_dirs.len() - i,
        {
            if self.prepared_rescript_dirs[i].same_as(dir) {
                assert(self.prepared_view()[i as int] == dir@);
                return false;
            }
            i += 1;
        }
        let ghost before = self.prepared_view();
        self.prepared_rescript_dirs.push(dir.duplicate());
        assert(self.prepared_view() =~= before.push(dir@));
        true
    }
}

/// The directory an instrument's bundle goes to:
/// `<root>/<bundles_dir or "bundles">/<instrument name>`.
pub open spec fn bundle_dir_spec(root: PathView, bundles_dir: Option<PathView>, name: Seq<char>) -> PathView {
    let dir = match bundles_dir {
        Some(d) => d,
        None => parse_path("bundles"@),
    };
    join_text(path_join(root, dir), name)
}

pub fn bundle_dir(project_root: &FsPath, options: &BundleOptions, instrument_name: &str) -> (r:
    FsPath)
    ensures
        r@ == bundle_dir_spec(
            project_root@,
            match options.bundles_dir {
                Some(d) => Some(d@),
                None => None,
            },
            instrument_name@,
        ),
{
    let dir = match &options.bundles_dir {
        Some(d) => d.duplicate(),
        None => FsPath::parse("bundles"),
    };
    project_root.join(&dir).join_str(instrument_name)
}

// ---------------------------------------------------------------------
// Bundler settings
// ---------------------------------------------------------------------

/// How a file extension is loaded.
#[derive(PartialEq, Eq, Structural, Clone, Copy, Debug)]
pub enum ModuleLoader {
    /// Copied next to the bundle and imported by URL.
    Asset,
    /// Parsed as JSX, so that the syntax lowering runs on it.
    Jsx,
}

/// The bundler's sourcemap setting.
#[derive(PartialEq, Eq, Structural, Clone, Copy, Debug)]
pub enum SourceMapOutput {
    /// Inside the bundle.
    Inline,
    /// A `.map` file with a link comment.
    File,
    /// A `.map` file without a link comment.
    Hidden,
}

/// What the bundler is told for one instrument. The platform is the
/// browser and the output an IIFE.
pub struct BundleConfig {
    /// The single input: its name and the entry file.
    pub input_name: String,
    pub input_import: String,
    pub cwd: FsPath,
    /// Output directory.
    pub dir: String,
    /// Output file names, without hashes.
    pub entry_filenames: String,
    pub css_entry_filenames: String,
    /// Imports left to the simulator.
    pub external: Vec<String>,
    /// Loaders by file extension.
    pub module_types: Vec<(String, ModuleLoader)>,
    /// The syntax level the output is lowered to.
    pub target: String,
    /// Whether dead code is removed (it is not: removal reintroduces
    /// syntax that the simulator cannot run).
    pub treeshake: bool,
    /// Module aliases: specifier and the absolute file it resolves to.
    pub aliases: Option<Vec<(String, String)>>,
    /// Global replacements: `process.env.<name>` and its JSON value.
    pub define: Option<Vec<(String, String)>>,
    pub minify: Option<bool>,
    pub sourcemap: Option<SourceMapOutput>,
}

/// A character as it appears inside a JSON string.
pub open spec fn json_escape_char(c: char) -> Seq<char> {
    if c == '"' {
        seq!['\\', '"']
    } else if c == '\\' {
        seq!['\\', '\\']
    } else if c == '\u{8}' {
        seq!['\\', 'b']
    } else if c == '\u{c}' {
        seq!['\\', 'f']
    } else if c == '\n' {
        seq!['\\', 'n']
    } else if c == '\r' {
        seq!['\\', 'r']
    } else if c == '\t' {
        seq!['\\', 't']
    } else if (c as int) < 0x20 {
        seq!['\\', 'u', '0', '0', hex_digit((c as int) / 16), hex_digit((c as int) % 16)]
    } else {
        seq![c]
    }
}

pub open spec fn hex_digit(n: int) -> char {
    if n < 10 {
        (('0' as int) + n) as char
    } else {
        (('a' as int) + n - 10) as char
    }
}

pub open spec fn json_escaped(s: Seq<char>) -> Seq<char>
    decreases s.len(),
{
    if s.len() == 0 {
        Seq::empty()
    } else {
        json_escaped(s.drop_last()) + json_escape_char(s.last())
    }
}

/// A string as a JSON string literal.
pub open spec fn json_string(s: Seq<char>) -> Seq<char> {
    seq!['"'] + json_escaped(s) + seq!['"']
}

/// Calls `serde_json::to_string` on a string. Its source writes `"`, each
/// character (with `"` and `\` escaped, `\b \f \n \r \t` for those
/// controls, `\u00xx` in lower-case hex for the other characters below
/// U+0020) and `"`, into a byte vector that cannot fail, so the result is
/// always `Ok`.
#[verifier::external_body]
fn json_encode(s: &String) -> (r: Option<String>)
    ensures
        r is Some,
        r.unwrap()@ == json_string(s@),
{
    serde_json::to_string(s).ok()
}

/// The extensions and their loaders.
pub open spec fn module_types_spec() -> Seq<(Seq<char>, ModuleLoader)> {
    seq![
        (".otf"@, ModuleLoader::Asset),
        (".ttf"@, ModuleLoader::Asset),
        (".js"@, ModuleLoader::Jsx),
        (".mjs"@, ModuleLoader::Jsx),
        (".cjs"@, ModuleLoader::Jsx),
    ]
}

/// The aliases: each module's specifier, resolving to the display of
/// `<root>/<index>`.
pub open spec fn aliases_spec(root: PathView, modules: Seq<ModuleAlias>) -> Seq<(Seq<char>, Seq<char>)> {
    modules.map_values(|m: ModuleAlias| (m.resolve@, path_display(path_join(root, m.index@))))
}

/// The replacements: `process.env.<key>` for each variable, in key order,
/// with its value as a JSON string.
pub open spec fn define_spec(env: StrMap) -> Seq<(Seq<char>, Seq<char>)> {
    env.entries().map_values(
        |e: (Seq<char>, Seq<char>)| ("process.env."@ + e.0, json_string(e.1)),
    )
}

pub open spec fn sourcemap_spec(k: SourceMapKind) -> SourceMapOutput {
    match k {
        SourceMapKind::Inline => SourceMapOutput::Inline,
        SourceMapKind::External => SourceMapOutput::File,
        SourceMapKind::File => SourceMapOutput::Hidden,
    }
}

/// The three `--sourcemap` kinds give three different outputs: `inline`
/// puts the map inside the bundle, `external` (or `linked`) writes a
/// `.map` file with a link comment, `file` writes the `.map` file
/// without the comment.
pub proof fn law_sourcemap_outputs(k: SourceMapKind, other: SourceMapKind)
    ensures
        sourcemap_spec(k) == SourceMapOutput::Inline <==> k == SourceMapKind::Inline,
        sourcemap_spec(k) == SourceMapOutput::File <==> k == SourceMapKind::External,
        sourcemap_spec(k) == SourceMapOutput::Hidden <==> k == SourceMapKind::File,
        k != other ==> sourcemap_spec(k) != sourcemap_spec(other),
{
}

pub open spec fn pairs_view(v: Seq<(String, String)>) -> Seq<(Seq<char>, Seq<char>)> {
    v.map_values(|e: (String, String)| (e.0@, e.1@))
}

/// The bundler settings for `instrument`, bundled from `entry` into
/// `bundle_dir`.
pub fn bundler_options(
    project_root: &FsPath,
    options: &BundleOptions,
    instrument: &Instrument,
    bundle_dir: &FsPath,
    entry: &FsPath,
) -> (c: BundleConfig)
    requires
        options.env.wf(),
    ensures
        c.input_name@ == "bundle"@,
        c.input_import@ == path_display(entry@),
        c.cwd@ == project_root@,
        c.dir@ == path_display(bundle_dir@),
        c.entry_filenames@ == "[name].js"@,
        c.css_entry_filenames@ == "[name].css"@,
        c.external@.map_values(|s: String| s@) == seq!["/Images/*"@, "/Fonts/*"@],
        c.module_types@.map_values(|e: (String, ModuleLoader)| (e.0@, e.1)) == module_types_spec(),
        c.target@ == "es2019"@,
        !c.treeshake,
        instrument.modules@.len() == 0 ==> c.aliases is None,
        instrument.modules@.len() > 0 ==> (c.aliases matches Some(a) && pairs_view(a@)
            == aliases_spec(project_root@, instrument.modules@)),
        options.env.size() == 0 ==> c.define is None,
        options.env.size() > 0 ==> (c.define matches Some(d) && pairs_view(d@) == define_spec(
            options.env,
        )),
        c.minify == if options.minify {
            Some(true)
        } else {
            None::<bool>
        },
        c.sourcemap == match options.sourcemap {
            Some(k) => Some(sourcemap_spec(k)),
            None => None,
        },
{
    let mut external: Vec<String> = Vec::new();
    external.push(copy_string("/Images/*"));
    external.push(copy_string("/Fonts/*"));
    assert(external@.map_values(|s: String| s@) =~= seq!["/Images/*"@, "/Fonts/*"@]);
    let mut module_types: Vec<(String, ModuleLoader)> = Vec::new();
    module_types.push((copy_string(".otf"), ModuleLoader::Asset));
    module_types.push((copy_string(".ttf"), ModuleLoader::Asset));
    module_types.push((copy_string(".js"), ModuleLoader::Jsx));
    module_types.push((copy_string(".mjs"), ModuleLoader::Jsx));
    module_types.push((copy_string(".cjs"), ModuleLoader::Jsx));
    assert(module_types@.map_values(|e: (String, ModuleLoader)| (e.0@, e.1))
        =~= module_types_spec());
    let aliases = if instrument.modules.len() == 0 {
        None
    } else {
        let mut a: Vec<(String, String)> = Vec::new();
        let mut i: usize = 0;
        while i < instrument.modules.len()
            invariant
                i <= instrument.modules.len(),
                pairs_view(a@) == aliases_spec(project_root@, instrument.modules@.take(i as int)),
            decreases instrument.modules.len() - i,
        {
            let m = &instrument.modules[i];
            let abs = project_root.join(&m.index);
            let ghost before = a@;
            a.push((m.resolve.clone(), abs.display()));
            assert(instrument.modules@.take(i + 1) =~= instrument.modules@.take(i as int).push(
                instrument.modules@[i as int],
            ));
            assert(pairs_view(a@) =~= pairs_view(before).push(
                (m.resolve@, path_display(path_join(project_root@, m.index@))),
            ));
            assert(aliases_spec(project_root@, instrument.modules@.take(i + 1)) =~= aliases_spec(
                project_root@,
                instrument.modules@.take(i as int),
            ).push((m.resolve@, path_display(path_join(project_root@, m.index@)))));
            i += 1;
        }
        assert(instrument.modules@.take(instrument.modules.len() as int)
            =~= instrument.modules@);
        Some(a)
    };
    let define = if options.env.len() == 0 {
        None
    } else {
        let mut d: Vec<(String, String)> = Vec::new();
        let n = options.env.len();
        let mut i: usize = 0;
        while i < n
            invariant
                options.env.wf(),
                n == options.env.size(),
                i <= n,
                pairs_view(d@) == define_spec(options.env).take(i as int),
            decreases n - i,
        {
            let k = options.env.key_at(i);
            let v = options.env.value_at(i);
            let mut name = copy_string("process.env.");
            name.append(k.as_str());
            let json = match json_encode(v) {
                Some(j) => j,
                None => copy_string("null"),
            };
            let ghost before = d@;
            d.push((name, json));
            assert(pairs_view(d@) =~= pairs_view(before).push(
                ("process.env."@ + k@, json_string(v@)),
            ));
            assert(define_spec(options.env).take(i + 1) =~= define_spec(options.env).take(
                i as int,
            ).push(("process.env."@ + k@, json_string(v@))));
            i += 1;
        }
        assert(define_spec(options.env).take(n as int) =~= define_spec(options.env));
        Some(d)
    };
    let minify = if options.minify {
        Some(true)
    } else {
        None
    };
    let sourcemap = match options.sourcemap {
        Some(SourceMapKind::Inline) => Some(SourceMapOutput::Inline),
        Some(SourceMapKind::External) => Some(SourceMapOutput::File),
        Some(SourceMapKind::File) => Some(SourceMapOutput::Hidden),
        None => None,
    };
    BundleConfig {
        input_name: copy_string("bundle"),
        input_import: entry.display(),
        cwd: project_root.duplicate(),
        dir: bundle_dir.display(),
        entry_filenames: copy_string("[name].js"),
        css_entry_filenames: copy_string("[name].css"),
        external,
        module_types,
        target: copy_string("es2019"),
        treeshake: false,
        aliases,
        define,
        minify,
        sourcemap,
    }
}

// ---------------------------------------------------------------------
// Emitted files and errors
// ---------------------------------------------------------------------

/// The kind of an emitted file, by extension.
pub open spec fn kind_for_extension(ext: Option<Seq<char>>) -> FileKind {
    match ext {
        Some(e) => if e == "html"@ {
            FileKind::Template
        } else if e == "css"@ {
            FileKind::Style
        } else if e == "js"@ || e == "mjs"@ || e == "cjs"@ {
            FileKind::Script
        } else if e == "map"@ {
            FileKind::SourceMap
        } else {
            FileKind::Other
        },
        None => FileKind::Other,
    }
}

pub fn file_kind_for(path: &FsPath) -> (k: FileKind)
    ensures
        k == kind_for_extension(path_extension(path@)),
{
    match path.extension() {
        Some(e) => {
            let s = e.as_str();
            if str_eq(s, "html") {
                FileKind::Template
            } else if str_eq(s, "css") {
                FileKind::Style
            } else if str_eq(s, "js") || str_eq(s, "mjs") || str_eq(s, "cjs") {
                FileKind::Script
            } else if str_eq(s, "map") {
                FileKind::SourceMap
            } else {
                FileKind::Other
            }
        },
        None => FileKind::Other,
    }
}

/// The text of a bundler error: its display, or its debug form when the
/// display is blank.
pub fn format_rolldown_error(display: &str, debug: &str) -> (r: String)
    ensures
        r@ == if trim(display@).len() == 0 {
            debug@
        } else {
            display@
        },
{
    let d = chars_of(display);
    if trim_chars(&d).len() == 0 {
        copy_string(debug)
    } else {
        copy_string(display)
    }
}

// ---------------------------------------------------------------------
// ReScript
// ---------------------------------------------------------------------

/// `path` itself when absolute, else under `project_root`.
pub fn resolve_path(project_root: &FsPath, path: &FsPath) -> (r: FsPath)
    ensures
        r@ == path_join(project_root@, path@),
{
    if path.is_absolute() {
        path.duplicate()
    } else {
        project_root.join(path)
    }
}

/// The directories searched for a ReScript project, nearest first: from
/// `current` up through its ancestors, stopping at the project root or at
/// the first ancestor outside it.
pub open spec fn walk_up(current: PathView, root: PathView) -> Seq<PathView>
    decreases current.comps.len(),
{
    if current == root {
        seq![current]
    } else {
        match path_parent(current) {
            None => seq![current],
            Some(p) => if !path_starts_with(p, root) {
                seq![current]
            } else {
                seq![current] + walk_up(p, root)
            },
        }
    }
}

/// Where the search for a ReScript project starts: the entry file's
/// directory (the project root when it has none).
pub open spec fn rescript_start(root: PathView, index: PathView) -> PathView {
    match path_parent(path_join(root, index)) {
        Some(p) => p,
        None => root,
    }
}

pub fn rescript_candidates(project_root: &FsPath, instrument: &Instrument) -> (r: Vec<FsPath>)
    ensures
        r@.map_values(|p: FsPath| p@) == walk_up(
            rescript_start(project_root@, instrument.index@),
            project_root@,
        ),
{
    let entry = resolve_path(project_root, &instrument.index);
    let mut current = match entry.parent() {
        Some(p) => p,
        None => project_root.duplicate(),
    };
    let ghost start = current@;
    let mut out: Vec<FsPath> = Vec::new();
    assert(start == rescript_start(project_root@, instrument.index@));
    assert(out@.map_values(|p: FsPath| p@) =~= Seq::<PathView>::empty());
    loop
        invariant
            start == rescript_start(project_root@, instrument.index@),
            walk_up(start, project_root@) == out@.map_values(|p: FsPath| p@) + walk_up(
                current@,
                project_root@,
            ),
        decreases current@.comps.len(),
    {
        let ghost before = out@;
        out.push(current.duplicate());
        assert(out@.map_values(|p: FsPath| p@) =~= before.map_values(|p: FsPath| p@).push(
            current@,
        ));
        if current.same_as(project_root) {
            assert(walk_up(current@, project_root@) == seq![current@]);
            assert(out@.map_values(|p: FsPath| p@) =~= before.map_values(|p: FsPath| p@)
                + walk_up(current@, project_root@));
            return out;
        }
        let parent = match current.parent() {
            None => {
                assert(out@.map_values(|p: FsPath| p@) =~= before.map_values(|p: FsPath| p@)
                    + walk_up(current@, project_root@));
                return out;
            },
            Some(p) => p,
        };
        if !parent.starts_with(project_root) {
            assert(out@.map_values(|p: FsPath| p@) =~= before.map_values(|p: FsPath| p@)
                + walk_up(current@, project_root@));
            return out;
        }
        assert(before.map_values(|p: FsPath| p@) + walk_up(current@, project_root@)
            =~= out@.map_values(|p: FsPath| p@) + walk_up(parent@, project_root@));
        current = parent;
    }
}

/// The first candidate holding a ReScript marker.
pub open spec fn first_marked(cands: Seq<PathView>, marked: Seq<bool>, i: int) -> Option<PathView>
    decreases cands.len() - i,
{
    if i < 0 || i >= cands.len() {
        None
    } else if marked[i] {
        Some(cands[i])
    } else {
        first_marked(cands, marked, i + 1)
    }
}

/// The ReScript project directory: the nearest candidate holding
/// `rescript.json`, `bsconfig.json` or `package.json` (`has_marker[i]`
/// tells whether candidate `i` does), else the project root.
pub fn discover_rescript_project_dir(
    project_root: &FsPath,
    candidates: &Vec<FsPath>,
    has_marker: &Vec<bool>,
) -> (r: FsPath)
    requires
        candidates.len() == has_marker.len(),
    ensures
        r@ == match first_marked(candidates@.map_values(|p: FsPath| p@), has_marker@, 0) {
            Some(p) => p,
            None => project_root@,
        },
{
    let ghost cs = candidates@.map_values(|p: FsPath| p@);
    let mut i: usize = 0;
    while i < candidates.len()
        invariant
            candidates.len() == has_marker.len(),
            cs == candidates@.map_values(|p: FsPath| p@),
            i <= candidates.len(),
            first_marked(cs, has_marker@, 0) == first_marked(cs, has_marker@, i as int),
        decreases candidates.len() - i,
    {
        if has_marker[i] {
            return candidates[i].duplicate();
        }
        i += 1;
    }
    project_root.duplicate()
}

/// The ReScript build to run before bundling `instrument`: its command
/// (`bun run build` when none is configured) and the configured
/// directory, resolved against the project root. `None` for instruments
/// that are not ReScript-React.
pub fn rescript_build_step(project_root: &FsPath, instrument: &Instrument) -> (r: Option<
    (String, Option<FsPath>),
>)
    ensures
        match instrument.simulator_package {
            Some(SimulatorPackage::RescriptReact { build_command, build_dir, .. }) => r matches Some(
                (cmd, dir),
            ) && cmd@ == match build_command {
                Some(c) => c@,
                None => "bun run build"@,
            } && match build_dir {
                Some(d) => dir matches Some(e) && e@ == path_join(project_root@, d@),
                None => dir is None,
            },
            _ => r is None,
        },
{
    match &instrument.simulator_package {
        Some(SimulatorPackage::RescriptReact { build_command, build_dir, .. }) => {
            let cmd = match build_command {
                Some(c) => c.clone(),
                None => copy_string("bun run build"),
            };
            let dir = match build_dir {
                Some(d) => Some(resolve_path(project_root, d)),
                None => None,
            };
            Some((cmd, dir))
        },
        _ => None,
    }
}

/// The command that runs a ReScript build.
pub fn rescript_build_command(command: &str, cwd: &FsPath, windows: bool) -> (c: CommandSpec)
    ensures
        (c.program_view(), c.args_view()) == crate::command::shell_spec(command@, windows),
        c.cwd_view() == Some(cwd@),
        c.env@.len() == 0,
{
    let mut c = shell_command(command, windows);
    c.cwd = Some(cwd.duplicate());
    c
}

/// Output with Windows line endings turned into `\n`, then trimmed.
pub open spec fn cleaned(s: Seq<char>) -> Seq<char> {
    trim(replace(s, seq!['\r', '\n'], seq!['\n']))
}

/// What a failed ReScript build reports: its error output, else its
/// standard output, else `no output captured`.
pub fn build_failure_detail(stdout: &str, stderr: &str) -> (r: String)
    ensures
        r@ == if cleaned(stderr@).len() > 0 {
            cleaned(stderr@)
        } else if cleaned(stdout@).len() > 0 {
            cleaned(stdout@)
        } else {
            "no output captured"@
        },
{
    let crlf: Vec<char> = vec!['\r', '\n'];
    let lf: Vec<char> = vec!['\n'];
    assert(crlf@ =~= seq!['\r', '\n']);
    assert(lf@ =~= seq!['\n']);
    let err = trim_chars(&replace_chars(&chars_of(stderr), &crlf, &lf));
    if err.len() > 0 {
        return string_of(&err);
    }
    let out = trim_chars(&replace_chars(&chars_of(stdout), &crlf, &lf));
    if out.len() > 0 {
        return string_of(&out);
    }
    copy_string("no output captured")
}

/// The call inserted before the bundle's final `return exports;`.
pub open spec fn automount_call() -> Seq<char> {
    "if (typeof exports.mount === 'function') { exports.mount(); }\n"@
}

/// The bundle with a call of its `mount` export spliced in just before the
/// last `return exports;`; `None` when the bundle has none.
pub fn inject_rescript_react_automount(source: &str) -> (r: Option<String>)
    ensures
        match rfind(source@, "return exports;"@) {
            Some(i) => r matches Some(s) && s@ == source@.take(i) + automount_call()
                + source@.skip(i),
            None => r is None,
        },
{
    let src = chars_of(source);
    let marker = chars_of("return exports;");
    let idx = match rfind_chars(&src, &marker) {
        None => {
            return None;
        },
        Some(i) => i,
    };
    proof {
        crate::text::lemma_rfind_bounds(src@, marker@);
    }
    let mut out: Vec<char> = Vec::new();
    extend_range(&mut out, &src, 0, idx);
    extend_chars(&mut out, &chars_of("if (typeof exports.mount === 'function') { exports.mount(); }\n"));
    extend_range(&mut out, &src, idx, src.len());
    assert(out@ =~= source@.take(idx as int) + automount_call() + source@.skip(idx as int));
    Some(string_of(&out))
}

/// Each ReScript build directory is built at most once per bundler:
/// after a directory has been marked, marking it again reports that its
/// build already ran and records nothing new.
pub proof fn law_rescript_build_once(
    v0: Seq<PathView>,
    v1: Seq<PathView>,
    v2: Seq<PathView>,
    dir: PathView,
    first: bool,
    second: bool,
)
    requires
        mark_outcome(v0, v1, dir, first),
        mark_outcome(v1, v2, dir, second),
    ensures
        !second,
        v2 == v1,
{
    if first {
        assert(v1[v0.len() as int] == dir);
    }
}

} // verus!
