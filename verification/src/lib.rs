//! Codec for encoded compiler flags.
//!
//! A build orchestrator hands the flags it computed to its children as one
//! string in which the arguments are separated by the ASCII unit separator
//! (`0x1F`). This crate decodes such a string into structured [`Flag`]s, one
//! at a time, and renders any [`Flag`] back into the argument tokens that
//! decode to it.
//!
//! All text is handled as bytes. A decoded flag holds a `String` where the
//! compiler expects text, and raw bytes where it expects a path, which need
//! not be valid UTF-8.

use vstd::prelude::*;
use vstd::utf8::*;

pub mod laws;
pub mod parse;
pub mod render;
pub mod string;
pub mod words;

pub use crate::parse::RustFlags;
pub use crate::render::Iter;

use crate::parse::decode;
use crate::string::{text, EnvStr};

verus! {

/// The byte that separates two arguments of the encoded string.
pub const SEPARATOR: u8 = 0x1F;

/// Decodes flags from a string in which the arguments are separated by the
/// ASCII unit separator (`0x1F`).
///
/// Every string is taken, whatever bytes it holds: what is no flag in it is
/// passed over.
pub fn from_encoded(encoded: &[u8]) -> (flags: RustFlags)
    ensures
        flags@ == decode(encoded@),
        flags.encoded() == encoded@,
        flags.position() == 0,
        encoded@.len() == 0 ==> flags@.len() == 0,
{
    RustFlags::new(vstd::slice::slice_to_vec(encoded))
}

/// **One flag recognized by the compiler**
#[derive(Debug, PartialEq)]
#[non_exhaustive]
#[allow(inconsistent_fields)]
pub enum Flag {
    /// `-h`, `--help`
    ///
    /// Display help message.
    Help,
    /// `--cfg SPEC`
    ///
    /// Configure the compilation environment.
    Cfg { name: String, value: Option<String> },
    /// `-L [KIND=]PATH`
    ///
    /// Add a directory to the library search path.
    LibrarySearchPath { kind: LibraryKind, path: Vec<u8> },
    /// `-l [KIND[:MODIFIERS]=]NAME[:RENAME]`
    ///
    /// Link the generated crate(s) to the specified native library NAME.
    /// Optional comma separated MODIFIERS may be specified each with a prefix
    /// of either '+' to enable or '-' to disable.
    Link {
        kind: LinkKind,
        modifiers: Vec<(LinkModifierPrefix, LinkModifier)>,
        name: String,
        rename: Option<String>,
    },
    /// `--crate-type [bin|lib|rlib|dylib|cdylib|staticlib|proc-macro]`
    ///
    /// Comma separated list of types of crates for the compiler to emit.
    CrateType(CrateType),
    /// `--crate-name NAME`
    ///
    /// Specify the name of the crate being built.
    CrateName(String),
    /// `--edition 2015|2018|2021`
    ///
    /// Specify which edition of the compiler to use when compiling code.
    Edition(u16),
    /// `--emit [asm|llvm-bc|llvm-ir|obj|metadata|link|dep-info|mir]`
    ///
    /// Comma separated list of types of output for the compiler to emit.
    Emit(Emit),
    /// `--print INFO`
    ///
    /// Compiler information to print on stdout.
    Print(String),
    /// `-o FILENAME`
    ///
    /// Write output to \<filename\>.
    Out(Vec<u8>),
    /// `--out-dir DIR`
    ///
    /// Write output to compiler-chosen filename in \<dir\>.
    OutDir(Vec<u8>),
    /// `--explain OPT`
    ///
    /// Provide a detailed explanation of an error message.
    Explain(String),
    /// `--test`
    ///
    /// Build a test harness.
    Test,
    /// `--target TARGET`
    ///
    /// Target triple for which the code is compiled.
    Target(String),
    /// `-A`, `--allow LINT`
    ///
    /// Set lint allowed.
    Allow(String),
    /// `-W`, `--warn LINT`
    ///
    /// Set lint warnings.
    Warn(String),
    /// `--force-warn LINT`
    ///
    /// Set lint force-warn.
    ForceWarn(String),
    /// `-D`, `--deny LINT`
    ///
    /// Set lint denied.
    Deny(String),
    /// `-F`, `--forbid LINT`
    ///
    /// Set lint forbidden.
    Forbid(String),
    /// `--cap-lints LEVEL`
    ///
    /// Set the most restrictive lint level. More restrictive lints are capped
    /// at this level.
    CapLints(LintLevel),
    /// `-C`, `--codegen OPT[=VALUE]`
    ///
    /// Set a codegen option.
    Codegen { opt: String, value: Option<String> },
    /// `-V`, `--version`
    ///
    /// Print version info and exit.
    Version,
    /// `-v`, `--verbose`
    ///
    /// Use verbose output.
    Verbose,
    /// `--extern NAME[=PATH]`
    ///
    /// Specify where an external library is located.
    Extern { name: String, path: Option<Vec<u8>> },
    /// `--extern-location NAME=LOCATION`
    ///
    /// Location where an external crate dependency is specified.
    ExternLocation { name: String, location: Vec<u8> },
    /// `--sysroot PATH`
    ///
    /// Override the system root.
    Sysroot(Vec<u8>),
    /// `-Z FLAG`
    ///
    /// Set internal debugging options.
    Z(String),
    /// `--error-format human|json|short`
    ///
    /// How errors and other messages are produced.
    ErrorFormat(ErrorFormat),
    /// `--json CONFIG`
    ///
    /// Configure the JSON output of the compiler.
    Json(String),
    /// `--color auto|always|never`
    ///
    /// Configure coloring of output.
    Color(Color),
    /// `--remap-path-prefix FROM=TO`
    ///
    /// Remap source names in all output (compiler messages and output files).
    RemapPathPrefix { from: Vec<u8>, to: Vec<u8> },
}

/// What a [`Flag`] holds, as mathematical values. Text stands in it as its
/// UTF-8 bytes.
#[allow(inconsistent_fields)]
pub enum FlagView {
    Help,
    Cfg { name: Seq<u8>, value: Option<Seq<u8>> },
    LibrarySearchPath { kind: LibraryKind, path: Seq<u8> },
    Link {
        kind: LinkKind,
        modifiers: Seq<(LinkModifierPrefix, LinkModifier)>,
        name: Seq<u8>,
        rename: Option<Seq<u8>>,
    },
    CrateType(CrateType),
    CrateName(Seq<u8>),
    Edition(u16),
    Emit(Emit),
    Print(Seq<u8>),
    Out(Seq<u8>),
    OutDir(Seq<u8>),
    Explain(Seq<u8>),
    Test,
    Target(Seq<u8>),
    Allow(Seq<u8>),
    Warn(Seq<u8>),
    ForceWarn(Seq<u8>),
    Deny(Seq<u8>),
    Forbid(Seq<u8>),
    CapLints(LintLevel),
    Codegen { opt: Seq<u8>, value: Option<Seq<u8>> },
    Version,
    Verbose,
    Extern { name: Seq<u8>, path: Option<Seq<u8>> },
    ExternLocation { name: Seq<u8>, location: Seq<u8> },
    Sysroot(Seq<u8>),
    Z(Seq<u8>),
    ErrorFormat(ErrorFormat),
    Json(Seq<u8>),
    Color(Color),
    RemapPathPrefix { from: Seq<u8>, to: Seq<u8> },
}

/// The UTF-8 bytes of a string.
pub open spec fn string_bytes(s: String) -> Seq<u8> {
    encode_utf8(s@)
}

/// The UTF-8 bytes of a string, if there is one.
pub open spec fn opt_string_bytes(s: Option<String>) -> Option<Seq<u8>> {
    match s {
        Some(s) => Some(string_bytes(s)),
        None => None,
    }
}

/// The bytes of a vector, if there is one.
pub open spec fn opt_vec_bytes(v: Option<Vec<u8>>) -> Option<Seq<u8>> {
    match v {
        Some(v) => Some(v@),
        None => None,
    }
}

/// The view of a flag, if there is one.
pub open spec fn opt_flag_view(flag: Option<Flag>) -> Option<FlagView> {
    match flag {
        Some(flag) => Some(flag@),
        None => None,
    }
}

impl View for Flag {
    type V = FlagView;

    open spec fn view(&self) -> FlagView {
        match *self {
            Flag::Help => FlagView::Help,
            Flag::Cfg { name, value } => FlagView::Cfg {
                name: string_bytes(name),
                value: opt_string_bytes(value),
            },
            Flag::LibrarySearchPath { kind, path } => FlagView::LibrarySearchPath {
                kind,
                path: path@,
            },
            Flag::Link { kind, modifiers, name, rename } => FlagView::Link {
                kind,
                modifiers: modifiers@,
                name: string_bytes(name),
                rename: opt_string_bytes(rename),
            },
            Flag::CrateType(crate_type) => FlagView::CrateType(crate_type),
            Flag::CrateName(name) => FlagView::CrateName(string_bytes(name)),
            Flag::Edition(edition) => FlagView::Edition(edition),
            Flag::Emit(emit) => FlagView::Emit(emit),
            Flag::Print(print) => FlagView::Print(string_bytes(print)),
            Flag::Out(filename) => FlagView::Out(filename@),
            Flag::OutDir(dir) => FlagView::OutDir(dir@),
            Flag::Explain(code) => FlagView::Explain(string_bytes(code)),
            Flag::Test => FlagView::Test,
            Flag::Target(target) => FlagView::Target(string_bytes(target)),
            Flag::Allow(lint) => FlagView::Allow(string_bytes(lint)),
            Flag::Warn(lint) => FlagView::Warn(string_bytes(lint)),
            Flag::ForceWarn(lint) => FlagView::ForceWarn(string_bytes(lint)),
            Flag::Deny(lint) => FlagView::Deny(string_bytes(lint)),
            Flag::Forbid(lint) => FlagView::Forbid(string_bytes(lint)),
            Flag::CapLints(level) => FlagView::CapLints(level),
            Flag::Codegen { opt, value } => FlagView::Codegen {
                opt: string_bytes(opt),
                value: opt_string_bytes(value),
            },
            Flag::Version => FlagView::Version,
            Flag::Verbose => FlagView::Verbose,
            Flag::Extern { name, path } => FlagView::Extern {
                name: string_bytes(name),
                path: opt_vec_bytes(path),
            },
            Flag::ExternLocation { name, location } => FlagView::ExternLocation {
                name: string_bytes(name),
                location: location@,
            },
            Flag::Sysroot(sysroot) => FlagView::Sysroot(sysroot@),
            Flag::Z(flag) => FlagView::Z(string_bytes(flag)),
            Flag::ErrorFormat(format) => FlagView::ErrorFormat(format),
            Flag::Json(json) => FlagView::Json(string_bytes(json)),
            Flag::Color(color) => FlagView::Color(color),
            Flag::RemapPathPrefix { from, to } => FlagView::RemapPathPrefix { from: from@, to: to@ },
        }
    }
}

/// Argument of `-L`
#[derive(Copy, Clone, Eq, PartialEq, Hash, Debug, Structural)]
#[non_exhaustive]
pub enum LibraryKind {
    /// `dependency`
    Dependency,
    /// `crate`
    Crate,
    /// `native`
    Native,
    /// `framework`
    Framework,
    /// `all` (the default)
    All,
}

impl Default for LibraryKind {
    fn default() -> (kind: Self)
        ensures
            kind == LibraryKind::All,
    {
        LibraryKind::All
    }
}

impl LibraryKind {
    /// How this value is written in an argument.
    pub open spec fn name(self) -> &'static str {
        match self {
            LibraryKind::Dependency => "dependency",
            LibraryKind::Crate => "crate",
            LibraryKind::Native => "native",
            LibraryKind::Framework => "framework",
            LibraryKind::All => "all",
        }
    }

    /// The value that is written as `word`, if there is one.
    pub open spec fn spec_from_name(word: Seq<u8>) -> Option<Self> {
        if word == text(LibraryKind::Dependency.name()) {
            Some(LibraryKind::Dependency)
        } else if word == text(LibraryKind::Crate.name()) {
            Some(LibraryKind::Crate)
        } else if word == text(LibraryKind::Native.name()) {
            Some(LibraryKind::Native)
        } else if word == text(LibraryKind::Framework.name()) {
            Some(LibraryKind::Framework)
        } else if word == text(LibraryKind::All.name()) {
            Some(LibraryKind::All)
        } else {
            None
        }
    }

    /// How this value is written in an argument.
    pub fn as_str(&self) -> (s: &'static str)
        ensures
            s == self.name(),
    {
        match self {
            LibraryKind::Dependency => "dependency",
            LibraryKind::Crate => "crate",
            LibraryKind::Native => "native",
            LibraryKind::Framework => "framework",
            LibraryKind::All => "all",
        }
    }

    /// Reads a value from the word that it is written as.
    pub fn from_name(word: &EnvStr) -> (value: Option<Self>)
        ensures
            value == Self::spec_from_name(word@),
    {
        if word.eq_str("dependency") {
            Some(LibraryKind::Dependency)
        } else if word.eq_str("crate") {
            Some(LibraryKind::Crate)
        } else if word.eq_str("native") {
            Some(LibraryKind::Native)
        } else if word.eq_str("framework") {
            Some(LibraryKind::Framework)
        } else if word.eq_str("all") {
            Some(LibraryKind::All)
        } else {
            None
        }
    }
}

/// Argument of `-l`
#[derive(Copy, Clone, Eq, PartialEq, Hash, Debug, Structural)]
#[non_exhaustive]
pub enum LinkKind {
    /// `static`
    Static,
    /// `framework`
    Framework,
    /// `dylib` (the default)
    Dylib,
}

impl Default for LinkKind {
    fn default() -> (kind: Self)
        ensures
            kind == LinkKind::Dylib,
    {
        LinkKind::Dylib
    }
}

impl LinkKind {
    /// How this value is written in an argument.
    pub open spec fn name(self) -> &'static str {
        match self {
            LinkKind::Static => "static",
            LinkKind::Framework => "framework",
            LinkKind::Dylib => "dylib",
        }
    }

    /// The value that is written as `word`, if there is one.
    pub open spec fn spec_from_name(word: Seq<u8>) -> Option<Self> {
        if word == text(LinkKind::Static.name()) {
            Some(LinkKind::Static)
        } else if word == text(LinkKind::Framework.name()) {
            Some(LinkKind::Framework)
        } else if word == text(LinkKind::Dylib.name()) {
            Some(LinkKind::Dylib)
        } else {
            None
        }
    }

    /// How this value is written in an argument.
    pub fn as_str(&self) -> (s: &'static str)
        ensures
            s == self.name(),
    {
        match self {
            LinkKind::Static => "static",
            LinkKind::Framework => "framework",
            LinkKind::Dylib => "dylib",
        }
    }

    /// Reads a value from the word that it is written as.
    pub fn from_name(word: &EnvStr) -> (value: Option<Self>)
        ensures
            value == Self::spec_from_name(word@),
    {
        if word.eq_str("static") {
            Some(LinkKind::Static)
        } else if word.eq_str("framework") {
            Some(LinkKind::Framework)
        } else if word.eq_str("dylib") {
            Some(LinkKind::Dylib)
        } else {
            None
        }
    }
}

/// Argument of `-l`
#[derive(Copy, Clone, Eq, PartialEq, Hash, Debug, Structural)]
pub enum LinkModifierPrefix {
    /// `+`
    Enable,
    /// `-`
    Disable,
}

impl LinkModifierPrefix {
    /// How this value is written in an argument.
    pub open spec fn name(self) -> &'static str {
        match self {
            LinkModifierPrefix::Enable => "+",
            LinkModifierPrefix::Disable => "-",
        }
    }

    /// The value that is written as `word`, if there is one.
    pub open spec fn spec_from_name(word: Seq<u8>) -> Option<Self> {
        if word == text(LinkModifierPrefix::Enable.name()) {
            Some(LinkModifierPrefix::Enable)
        } else if word == text(LinkModifierPrefix::Disable.name()) {
            Some(LinkModifierPrefix::Disable)
        } else {
            None
        }
    }

    /// How this value is written in an argument.
    pub fn as_str(&self) -> (s: &'static str)
        ensures
            s == self.name(),
    {
        match self {
            LinkModifierPrefix::Enable => "+",
            LinkModifierPrefix::Disable => "-",
        }
    }

    /// Reads a value from the word that it is written as.
    pub fn from_name(word: &EnvStr) -> (value: Option<Self>)
        ensures
            value == Self::spec_from_name(word@),
    {
        if word.eq_str("+") {
            Some(LinkModifierPrefix::Enable)
        } else if word.eq_str("-") {
            Some(LinkModifierPrefix::Disable)
        } else {
            None
        }
    }
}

/// Argument of `-l`
#[derive(Copy, Clone, Eq, PartialEq, Hash, Debug, Structural)]
#[non_exhaustive]
pub enum LinkModifier {
    /// `bundle`
    Bundle,
    /// `verbatim`
    Verbatim,
    /// `whole-archive`
    WholeArchive,
    /// `as-needed`
    AsNeeded,
}

impl LinkModifier {
    /// How this value is written in an argument.
    pub open spec fn name(self) -> &'static str {
        match self {
            LinkModifier::Bundle => "bundle",
            LinkModifier::Verbatim => "verbatim",
            LinkModifier::WholeArchive => "whole-archive",
            LinkModifier::AsNeeded => "as-needed",
        }
    }

    /// The value that is written as `word`, if there is one.
    pub open spec fn spec_from_name(word: Seq<u8>) -> Option<Self> {
        if word == text(LinkModifier::Bundle.name()) {
            Some(LinkModifier::Bundle)
        } else if word == text(LinkModifier::Verbatim.name()) {
            Some(LinkModifier::Verbatim)
        } else if word == text(LinkModifier::WholeArchive.name()) {
            Some(LinkModifier::WholeArchive)
        } else if word == text(LinkModifier::AsNeeded.name()) {
            Some(LinkModifier::AsNeeded)
        } else {
            None
        }
    }

    /// How this value is written in an argument.
    pub fn as_str(&self) -> (s: &'static str)
        ensures
            s == self.name(),
    {
        match self {
            LinkModifier::Bundle => "bundle",
            LinkModifier::Verbatim => "verbatim",
            LinkModifier::WholeArchive => "whole-archive",
            LinkModifier::AsNeeded => "as-needed",
        }
    }

    /// Reads a value from the word that it is written as.
    pub fn from_name(word: &EnvStr) -> (value: Option<Self>)
        ensures
            value == Self::spec_from_name(word@),
    {
        if word.eq_str("bundle") {
            Some(LinkModifier::Bundle)
        } else if word.eq_str("verbatim") {
            Some(LinkModifier::Verbatim)
        } else if word.eq_str("whole-archive") {
            Some(LinkModifier::WholeArchive)
        } else if word.eq_str("as-needed") {
            Some(LinkModifier::AsNeeded)
        } else {
            None
        }
    }
}

/// Argument of `--crate-type`
#[derive(Copy, Clone, Eq, PartialEq, Hash, Debug, Structural)]
#[non_exhaustive]
pub enum CrateType {
    /// `bin`
    Bin,
    /// `lib`
    Lib,
    /// `rlib`
    Rlib,
    /// `dylib`
    Dylib,
    /// `cdylib`
    Cdylib,
    /// `staticlib`
    Staticlib,
    /// `proc-macro`
    ProcMacro,
}

impl CrateType {
    /// How this value is written in an argument.
    pub open spec fn name(self) -> &'static str {
        match self {
            CrateType::Bin => "bin",
            CrateType::Lib => "lib",
            CrateType::Rlib => "rlib",
            CrateType::Dylib => "dylib",
            CrateType::Cdylib => "cdylib",
            CrateType::Staticlib => "staticlib",
            CrateType::ProcMacro => "proc-macro",
        }
    }

    /// The value that is written as `word`, if there is one.
    pub open spec fn spec_from_name(word: Seq<u8>) -> Option<Self> {
        if word == text(CrateType::Bin.name()) {
            Some(CrateType::Bin)
        } else if word == text(CrateType::Lib.name()) {
            Some(CrateType::Lib)
        } else if word == text(CrateType::Rlib.name()) {
            Some(CrateType::Rlib)
        } else if word == text(CrateType::Dylib.name()) {
            Some(CrateType::Dylib)
        } else if word == text(CrateType::Cdylib.name()) {
            Some(CrateType::Cdylib)
        } else if word == text(CrateType::Staticlib.name()) {
            Some(CrateType::Staticlib)
        } else if word == text(CrateType::ProcMacro.name()) {
            Some(CrateType::ProcMacro)
        } else {
            None
        }
    }

    /// How this value is written in an argument.
    pub fn as_str(&self) -> (s: &'static str)
        ensures
            s == self.name(),
    {
        match self {
            CrateType::Bin => "bin",
            CrateType::Lib => "lib",
            CrateType::Rlib => "rlib",
            CrateType::Dylib => "dylib",
            CrateType::Cdylib => "cdylib",
            CrateType::Staticlib => "staticlib",
            CrateType::ProcMacro => "proc-macro",
        }
    }

    /// Reads a value from the word that it is written as.
    pub fn from_name(word: &EnvStr) -> (value: Option<Self>)
        ensures
            value == Self::spec_from_name(word@),
    {
        if word.eq_str("bin") {
            Some(CrateType::Bin)
        } else if word.eq_str("lib") {
            Some(CrateType::Lib)
        } else if word.eq_str("rlib") {
            Some(CrateType::Rlib)
        } else if word.eq_str("dylib") {
            Some(CrateType::Dylib)
        } else if word.eq_str("cdylib") {
            Some(CrateType::Cdylib)
        } else if word.eq_str("staticlib") {
            Some(CrateType::Staticlib)
        } else if word.eq_str("proc-macro") {
            Some(CrateType::ProcMacro)
        } else {
            None
        }
    }
}

/// Argument of `--emit`
#[derive(Copy, Clone, Eq, PartialEq, Hash, Debug, Structural)]
#[non_exhaustive]
pub enum Emit {
    /// `asm`
    Asm,
    /// `llvm-bc`
    LlvmBc,
    /// `llvm-ir`
    LlvmIr,
    /// `obj`
    Obj,
    /// `metadata`
    Metadata,
    /// `link`
    Link,
    /// `dep-info`
    DepInfo,
    /// `mir`
    Mir,
}

impl Emit {
    /// How this value is written in an argument.
    pub open spec fn name(self) -> &'static str {
        match self {
            Emit::Asm => "asm",
            Emit::LlvmBc => "llvm-bc",
            Emit::LlvmIr => "llvm-ir",
            Emit::Obj => "obj",
            Emit::Metadata => "metadata",
            Emit::Link => "link",
            Emit::DepInfo => "dep-info",
            Emit::Mir => "mir",
        }
    }

    /// The value that is written as `word`, if there is one.
    pub open spec fn spec_from_name(word: Seq<u8>) -> Option<Self> {
        if word == text(Emit::Asm.name()) {
            Some(Emit::Asm)
        } else if word == text(Emit::LlvmBc.name()) {
            Some(Emit::LlvmBc)
        } else if word == text(Emit::LlvmIr.name()) {
            Some(Emit::LlvmIr)
        } else if word == text(Emit::Obj.name()) {
            Some(Emit::Obj)
        } else if word == text(Emit::Metadata.name()) {
            Some(Emit::Metadata)
        } else if word == text(Emit::Link.name()) {
            Some(Emit::Link)
        } else if word == text(Emit::DepInfo.name()) {
            Some(Emit::DepInfo)
        } else if word == text(Emit::Mir.name()) {
            Some(Emit::Mir)
        } else {
            None
        }
    }

    /// How this value is written in an argument.
    pub fn as_str(&self) -> (s: &'static str)
        ensures
            s == self.name(),
    {
        match self {
            Emit::Asm => "asm",
            Emit::LlvmBc => "llvm-bc",
            Emit::LlvmIr => "llvm-ir",
            Emit::Obj => "obj",
            Emit::Metadata => "metadata",
            Emit::Link => "link",
            Emit::DepInfo => "dep-info",
            Emit::Mir => "mir",
        }
    }

    /// Reads a value from the word that it is written as.
    pub fn from_name(word: &EnvStr) -> (value: Option<Self>)
        ensures
            value == Self::spec_from_name(word@),
    {
        if word.eq_str("asm") {
            Some(Emit::Asm)
        } else if word.eq_str("llvm-bc") {
            Some(Emit::LlvmBc)
        } else if word.eq_str("llvm-ir") {
            Some(Emit::LlvmIr)
        } else if word.eq_str("obj") {
            Some(Emit::Obj)
        } else if word.eq_str("metadata") {
            Some(Emit::Metadata)
        } else if word.eq_str("link") {
            Some(Emit::Link)
        } else if word.eq_str("dep-info") {
            Some(Emit::DepInfo)
        } else if word.eq_str("mir") {
            Some(Emit::Mir)
        } else {
            None
        }
    }
}

/// Argument of `--cap-lints`
#[derive(Copy, Clone, Eq, PartialEq, Hash, Debug, Structural)]
pub enum LintLevel {
    /// `allow`
    Allow,
    /// `warn`
    Warn,
    /// `deny`
    Deny,
    /// `forbid`
    Forbid,
}

impl LintLevel {
    /// How this value is written in an argument.
    pub open spec fn name(self) -> &'static str {
        match self {
            LintLevel::Allow => "allow",
            LintLevel::Warn => "warn",
            LintLevel::Deny => "deny",
            LintLevel::Forbid => "forbid",
        }
    }

    /// The value that is written as `word`, if there is one.
    pub open spec fn spec_from_name(word: Seq<u8>) -> Option<Self> {
        if word == text(LintLevel::Allow.name()) {
            Some(LintLevel::Allow)
        } else if word == text(LintLevel::Warn.name()) {
            Some(LintLevel::Warn)
        } else if word == text(LintLevel::Deny.name()) {
            Some(LintLevel::Deny)
        } else if word == text(LintLevel::Forbid.name()) {
            Some(LintLevel::Forbid)
        } else {
            None
        }
    }

    /// How this value is written in an argument.
    pub fn as_str(&self) -> (s: &'static str)
        ensures
            s == self.name(),
    {
        match self {
            LintLevel::Allow => "allow",
            LintLevel::Warn => "warn",
            LintLevel::Deny => "deny",
            LintLevel::Forbid => "forbid",
        }
    }

    /// Reads a value from the word that it is written as.
    pub fn from_name(word: &EnvStr) -> (value: Option<Self>)
        ensures
            value == Self::spec_from_name(word@),
    {
        if word.eq_str("allow") {
            Some(LintLevel::Allow)
        } else if word.eq_str("warn") {
            Some(LintLevel::Warn)
        } else if word.eq_str("deny") {
            Some(LintLevel::Deny)
        } else if word.eq_str("forbid") {
            Some(LintLevel::Forbid)
        } else {
            None
        }
    }
}

/// Argument of `--error-format`
#[derive(Copy, Clone, Eq, PartialEq, Hash, Debug, Structural)]
#[non_exhaustive]
pub enum ErrorFormat {
    /// `human`
    Human,
    /// `json`
    Json,
    /// `short`
    Short,
}

impl ErrorFormat {
    /// How this value is written in an argument.
    pub open spec fn name(self) -> &'static str {
        match self {
            ErrorFormat::Human => "human",
            ErrorFormat::Json => "json",
            ErrorFormat::Short => "short",
        }
    }

    /// The value that is written as `word`, if there is one.
    pub open spec fn spec_from_name(word: Seq<u8>) -> Option<Self> {
        if word == text(ErrorFormat::Human.name()) {
            Some(ErrorFormat::Human)
        } else if word == text(ErrorFormat::Json.name()) {
            Some(ErrorFormat::Json)
        } else if word == text(ErrorFormat::Short.name()) {
            Some(ErrorFormat::Short)
        } else {
            None
        }
    }

    /// How this value is written in an argument.
    pub fn as_str(&self) -> (s: &'static str)
        ensures
            s == self.name(),
    {
        match self {
            ErrorFormat::Human => "human",
            ErrorFormat::Json => "json",
            ErrorFormat::Short => "short",
        }
    }

    /// Reads a value from the word that it is written as.
    pub fn from_name(word: &EnvStr) -> (value: Option<Self>)
        ensures
            value == Self::spec_from_name(word@),
    {
        if word.eq_str("human") {
            Some(ErrorFormat::Human)
        } else if word.eq_str("json") {
            Some(ErrorFormat::Json)
        } else if word.eq_str("short") {
            Some(ErrorFormat::Short)
        } else {
            None
        }
    }
}

/// Argument of `--color`
#[derive(Copy, Clone, Eq, PartialEq, Hash, Debug, Structural)]
pub enum Color {
    /// `auto` (the default)
    Auto,
    /// `always`
    Always,
    /// `never`
    Never,
}

impl Default for Color {
    fn default() -> (kind: Self)
        ensures
            kind == Color::Auto,
    {
        Color::Auto
    }
}

impl Color {
    /// How this value is written in an argument.
    pub open spec fn name(self) -> &'static str {
        match self {
            Color::Auto => "auto",
            Color::Always => "always",
            Color::Never => "never",
        }
    }

    /// The value that is written as `word`, if there is one.
    pub open spec fn spec_from_name(word: Seq<u8>) -> Option<Self> {
        if word == text(Color::Auto.name()) {
            Some(Color::Auto)
        } else if word == text(Color::Always.name()) {
            Some(Color::Always)
        } else if word == text(Color::Never.name()) {
            Some(Color::Never)
        } else {
            None
        }
    }

    /// How this value is written in an argument.
    pub fn as_str(&self) -> (s: &'static str)
        ensures
            s == self.name(),
    {
        match self {
            Color::Auto => "auto",
            Color::Always => "always",
            Color::Never => "never",
        }
    }

    /// Reads a value from the word that it is written as.
    pub fn from_name(word: &EnvStr) -> (value: Option<Self>)
        ensures
            value == Self::spec_from_name(word@),
    {
        if word.eq_str("auto") {
            Some(Color::Auto)
        } else if word.eq_str("always") {
            Some(Color::Always)
        } else if word.eq_str("never") {
            Some(Color::Never)
        } else {
            None
        }
    }
}
} // verus!
