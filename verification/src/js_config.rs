//! The `[js]` section: the simulator package and its instruments.
use vstd::prelude::*;
use crate::path::{parse_path, FsPath};
use crate::text::{chars_of, chars_starts_with, copy_string, has_prefix, slice_chars, string_of};

verus! {

/// The package that the instruments are emitted into.
pub struct PackageSpec {
    pub package_name: String,
    pub package_dir: FsPath,
}

/// The `[js]` section.
pub struct JsBuildConfig {
    pub package: PackageSpec,
    pub instruments: Vec<Instrument>,
}

/// A JS/TS instrument.
pub struct Instrument {
    pub name: String,
    pub index: FsPath,
    pub simulator_package: Option<SimulatorPackage>,
    pub modules: Vec<ModuleAlias>,
}

/// A module alias for nested instruments: imports of `resolve` go to
/// `index`.
pub struct ModuleAlias {
    pub resolve: String,
    pub index: FsPath,
}

/// How an instrument is packaged for the simulator.
#[allow(inconsistent_fields)]
pub enum SimulatorPackage {
    React {
        file_name: Option<String>,
        template_id: Option<String>,
        is_interactive: bool,
        imports: Vec<String>,
        html_template: Option<FsPath>,
        js_template: Option<FsPath>,
    },
    /// React backed by a ReScript project whose build command runs before
    /// bundling.
    RescriptReact {
        file_name: Option<String>,
        template_id: Option<String>,
        is_interactive: bool,
        imports: Vec<String>,
        html_template: Option<FsPath>,
        js_template: Option<FsPath>,
        /// Run before bundling; `bun run build` when absent.
        build_command: Option<String>,
        /// Where to run it; relative paths are taken from the project root.
        build_dir: Option<FsPath>,
    },
    BaseInstrument {
        file_name: Option<String>,
        template_id: String,
        mount_element_id: String,
        imports: Vec<String>,
        html_template: Option<FsPath>,
    },
}

/// The kind of a [`SimulatorPackage`].
#[derive(PartialEq, Eq, Structural, Clone, Copy, Debug)]
pub enum SimulatorPackageKind {
    React,
    RescriptReact,
    BaseInstrument,
}

/// The package directory when none is configured: `PackageSources`.
pub fn default_package_dir() -> (r: FsPath)
    ensures
        r@ == parse_path("PackageSources"@),
{
    FsPath::parse("PackageSources")
}

/// The default of boolean settings that are on unless turned off.
pub fn default_true() -> (r: bool)
    ensures
        r,
{
    true
}

impl SimulatorPackage {
    pub open spec fn kind_spec(&self) -> SimulatorPackageKind {
        match self {
            SimulatorPackage::React { .. } => SimulatorPackageKind::React,
            SimulatorPackage::RescriptReact { .. } => SimulatorPackageKind::RescriptReact,
            SimulatorPackage::BaseInstrument { .. } => SimulatorPackageKind::BaseInstrument,
        }
    }

    pub open spec fn file_name_spec(&self) -> Option<String> {
        match self {
            SimulatorPackage::React { file_name, .. } => *file_name,
            SimulatorPackage::RescriptReact { file_name, .. } => *file_name,
            SimulatorPackage::BaseInstrument { file_name, .. } => *file_name,
        }
    }

    pub open spec fn imports_spec(&self) -> Vec<String> {
        match self {
            SimulatorPackage::React { imports, .. } => *imports,
            SimulatorPackage::RescriptReact { imports, .. } => *imports,
            SimulatorPackage::BaseInstrument { imports, .. } => *imports,
        }
    }

    pub fn kind(&self) -> (k: SimulatorPackageKind)
        ensures
            k == self.kind_spec(),
    {
        match self {
            SimulatorPackage::React { .. } => SimulatorPackageKind::React,
            SimulatorPackage::RescriptReact { .. } => SimulatorPackageKind::RescriptReact,
            SimulatorPackage::BaseInstrument { .. } => SimulatorPackageKind::BaseInstrument,
        }
    }

    /// The gauge's file name: the configured one, else `instrument`.
    pub fn file_name(&self) -> (r: &str)
        ensures
            r@ == match self.file_name_spec() {
                Some(f) => f@,
                None => "instrument"@,
            },
    {
        let f = match self {
            SimulatorPackage::React { file_name, .. } => file_name,
            SimulatorPackage::RescriptReact { file_name, .. } => file_name,
            SimulatorPackage::BaseInstrument { file_name, .. } => file_name,
        };
        match f {
            Some(s) => s.as_str(),
            None => "instrument",
        }
    }

    /// The configured extra imports.
    pub fn imports(&self) -> (r: &Vec<String>)
        ensures
            r@ == self.imports_spec()@,
    {
        match self {
            SimulatorPackage::React { imports, .. } => imports,
            SimulatorPackage::RescriptReact { imports, .. } => imports,
            SimulatorPackage::BaseInstrument { imports, .. } => imports,
        }
    }

    /// Whether the gauge receives interaction events: the flag for React
    /// and ReScript-React, always for BaseInstrument.
    pub fn is_interactive(&self) -> (r: bool)
        ensures
            r == match self {
                SimulatorPackage::React { is_interactive, .. } => *is_interactive,
                SimulatorPackage::RescriptReact { is_interactive, .. } => *is_interactive,
                SimulatorPackage::BaseInstrument { .. } => true,
            },
    {
        match self {
            SimulatorPackage::React { is_interactive, .. } => *is_interactive,
            SimulatorPackage::RescriptReact { is_interactive, .. } => *is_interactive,
            SimulatorPackage::BaseInstrument { .. } => true,
        }
    }
}

/// A canonical path with Windows' verbatim prefix `\\?\` removed
/// (`\\?\UNC\server\share` becomes `\\server\share`); unchanged elsewhere.
pub open spec fn strip_verbatim_spec(path: Seq<char>, windows: bool) -> Seq<char> {
    if windows && has_prefix(path, "\\\\?\\"@) {
        let rest = path.skip(4);
        if has_prefix(rest, "UNC\\"@) {
            "\\\\"@ + rest.skip(4)
        } else {
            rest
        }
    } else {
        path
    }
}

pub fn strip_verbatim_prefix(path: &str, windows: bool) -> (r: String)
    ensures
        r@ == strip_verbatim_spec(path@, windows),
{
    let pc = chars_of(path);
    let verbatim = chars_of("\\\\?\\");
    proof {
        reveal_strlit("\\\\?\\");
        reveal_strlit("UNC\\");
        reveal_strlit("\\\\");
    }
    if windows && chars_starts_with(&pc, &verbatim) {
        let rest = slice_chars(&pc, 4, pc.len());
        assert(rest@ =~= pc@.skip(4));
        if chars_starts_with(&rest, &chars_of("UNC\\")) {
            let mut out = chars_of("\\\\");
            crate::text::extend_range(&mut out, &rest, 4, rest.len());
            assert(out@ =~= "\\\\"@ + rest@.skip(4));
            return string_of(&out);
        }
        return string_of(&rest);
    }
    copy_string(path)
}

} // verus!
