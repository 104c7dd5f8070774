//! The words of the grammar: what holds of their spelling.

use vstd::prelude::*;
use vstd::utf8::*;

use crate::parse::{spec_lookup_long, ConstructorView, OptKind, RepeatKind};
use crate::string::text;
use crate::{
    Color, CrateType, Emit, ErrorFormat, FlagView, LibraryKind, LinkKind, LinkModifier, LintLevel,
};

verus! {

/// True for the bytes that the words of the grammar are made of: the small
/// letters and `-`.
pub open spec fn is_word_byte(b: u8) -> bool {
    (0x61 <= b <= 0x7A) || b == 0x2D
}

/// True for a word of the grammar: one byte or more, each a small letter or
/// `-`.
pub open spec fn is_word(s: Seq<u8>) -> bool {
    s.len() > 0 && forall|i: int| 0 <= i < s.len() ==> is_word_byte(#[trigger] s[i])
}


/// Every name of [`LibraryKind`] is a word, and is read back as the value that it
/// names.
pub proof fn lemma_library_kind_names()
    ensures
        forall|value: LibraryKind| is_word(text(#[trigger] value.name())),
        forall|value: LibraryKind| LibraryKind::spec_from_name(text(#[trigger] value.name())) == Some(value),
{
    reveal_strlit("dependency");
    reveal_strlit("crate");
    reveal_strlit("native");
    reveal_strlit("framework");
    reveal_strlit("all");
    is_ascii_chars_encode_utf8("dependency"@);
    is_ascii_chars_encode_utf8("crate"@);
    is_ascii_chars_encode_utf8("native"@);
    is_ascii_chars_encode_utf8("framework"@);
    is_ascii_chars_encode_utf8("all"@);
}

/// Every name of [`LinkKind`] is a word, and is read back as the value that it
/// names.
pub proof fn lemma_link_kind_names()
    ensures
        forall|value: LinkKind| is_word(text(#[trigger] value.name())),
        forall|value: LinkKind| LinkKind::spec_from_name(text(#[trigger] value.name())) == Some(value),
{
    reveal_strlit("static");
    reveal_strlit("framework");
    reveal_strlit("dylib");
    is_ascii_chars_encode_utf8("static"@);
    is_ascii_chars_encode_utf8("framework"@);
    is_ascii_chars_encode_utf8("dylib"@);
}

/// Every name of [`LinkModifier`] is a word, and is read back as the value that it
/// names.
pub proof fn lemma_link_modifier_names()
    ensures
        forall|value: LinkModifier| is_word(text(#[trigger] value.name())),
        forall|value: LinkModifier| LinkModifier::spec_from_name(text(#[trigger] value.name())) == Some(value),
{
    reveal_strlit("bundle");
    reveal_strlit("verbatim");
    reveal_strlit("whole-archive");
    reveal_strlit("as-needed");
    is_ascii_chars_encode_utf8("bundle"@);
    is_ascii_chars_encode_utf8("verbatim"@);
    is_ascii_chars_encode_utf8("whole-archive"@);
    is_ascii_chars_encode_utf8("as-needed"@);
}

/// Every name of [`CrateType`] is a word, and is read back as the value that it
/// names.
pub proof fn lemma_crate_type_names()
    ensures
        forall|value: CrateType| is_word(text(#[trigger] value.name())),
        forall|value: CrateType| CrateType::spec_from_name(text(#[trigger] value.name())) == Some(value),
{
    reveal_strlit("bin");
    reveal_strlit("lib");
    reveal_strlit("rlib");
    reveal_strlit("dylib");
    reveal_strlit("cdylib");
    reveal_strlit("staticlib");
    reveal_strlit("proc-macro");
    is_ascii_chars_encode_utf8("bin"@);
    is_ascii_chars_encode_utf8("lib"@);
    is_ascii_chars_encode_utf8("rlib"@);
    is_ascii_chars_encode_utf8("dylib"@);
    is_ascii_chars_encode_utf8("cdylib"@);
    is_ascii_chars_encode_utf8("staticlib"@);
    is_ascii_chars_encode_utf8("proc-macro"@);
}

/// Every name of [`Emit`] is a word, and is read back as the value that it
/// names.
pub proof fn lemma_emit_names()
    ensures
        forall|value: Emit| is_word(text(#[trigger] value.name())),
        forall|value: Emit| Emit::spec_from_name(text(#[trigger] value.name())) == Some(value),
{
    reveal_strlit("asm");
    reveal_strlit("llvm-bc");
    reveal_strlit("llvm-ir");
    reveal_strlit("obj");
    reveal_strlit("metadata");
    reveal_strlit("link");
    reveal_strlit("dep-info");
    reveal_strlit("mir");
    is_ascii_chars_encode_utf8("asm"@);
    is_ascii_chars_encode_utf8("llvm-bc"@);
    is_ascii_chars_encode_utf8("llvm-ir"@);
    is_ascii_chars_encode_utf8("obj"@);
    is_ascii_chars_encode_utf8("metadata"@);
    is_ascii_chars_encode_utf8("link"@);
    is_ascii_chars_encode_utf8("dep-info"@);
    is_ascii_chars_encode_utf8("mir"@);
    assert(text("llvm-bc")[5] != text("llvm-ir")[5]);
    assert(text("asm")[0] != text("obj")[0]);
    assert(text("asm")[0] != text("mir")[0]);
    assert(text("obj")[0] != text("mir")[0]);
    assert(text("metadata")[0] != text("dep-info")[0]);
}

/// Every name of [`LintLevel`] is a word, and is read back as the value that it
/// names.
pub proof fn lemma_lint_level_names()
    ensures
        forall|value: LintLevel| is_word(text(#[trigger] value.name())),
        forall|value: LintLevel| LintLevel::spec_from_name(text(#[trigger] value.name())) == Some(value),
{
    reveal_strlit("allow");
    reveal_strlit("warn");
    reveal_strlit("deny");
    reveal_strlit("forbid");
    is_ascii_chars_encode_utf8("allow"@);
    is_ascii_chars_encode_utf8("warn"@);
    is_ascii_chars_encode_utf8("deny"@);
    is_ascii_chars_encode_utf8("forbid"@);
}

/// Every name of [`ErrorFormat`] is a word, and is read back as the value that it
/// names.
pub proof fn lemma_error_format_names()
    ensures
        forall|value: ErrorFormat| is_word(text(#[trigger] value.name())),
        forall|value: ErrorFormat| ErrorFormat::spec_from_name(text(#[trigger] value.name())) == Some(value),
{
    reveal_strlit("human");
    reveal_strlit("json");
    reveal_strlit("short");
    is_ascii_chars_encode_utf8("human"@);
    is_ascii_chars_encode_utf8("json"@);
    is_ascii_chars_encode_utf8("short"@);
}

/// Every name of [`Color`] is a word, and is read back as the value that it
/// names.
pub proof fn lemma_color_names()
    ensures
        forall|value: Color| is_word(text(#[trigger] value.name())),
        forall|value: Color| Color::spec_from_name(text(#[trigger] value.name())) == Some(value),
{
    reveal_strlit("auto");
    reveal_strlit("always");
    reveal_strlit("never");
    is_ascii_chars_encode_utf8("auto"@);
    is_ascii_chars_encode_utf8("always"@);
    is_ascii_chars_encode_utf8("never"@);
}

/// Every long name is a word, and stands for its flag.
#[verifier::rlimit(40)]
pub proof fn lemma_long_names()
    ensures
        is_word(text("help")),
        spec_lookup_long(text("help")) == ConstructorView::Flag(FlagView::Help),
        is_word(text("cfg")),
        spec_lookup_long(text("cfg")) == ConstructorView::Opt(OptKind::Cfg),
        is_word(text("crate-type")),
        spec_lookup_long(text("crate-type")) == ConstructorView::Repeated(RepeatKind::CrateType),
        is_word(text("crate-name")),
        spec_lookup_long(text("crate-name")) == ConstructorView::Opt(OptKind::CrateName),
        is_word(text("edition")),
        spec_lookup_long(text("edition")) == ConstructorView::Opt(OptKind::Edition),
        is_word(text("emit")),
        spec_lookup_long(text("emit")) == ConstructorView::Repeated(RepeatKind::Emit),
        is_word(text("print")),
        spec_lookup_long(text("print")) == ConstructorView::Opt(OptKind::Print),
        is_word(text("out-dir")),
        spec_lookup_long(text("out-dir")) == ConstructorView::Opt(OptKind::OutDir),
        is_word(text("explain")),
        spec_lookup_long(text("explain")) == ConstructorView::Opt(OptKind::Explain),
        is_word(text("test")),
        spec_lookup_long(text("test")) == ConstructorView::Flag(FlagView::Test),
        is_word(text("target")),
        spec_lookup_long(text("target")) == ConstructorView::Opt(OptKind::Target),
        is_word(text("allow")),
        spec_lookup_long(text("allow")) == ConstructorView::Opt(OptKind::Allow),
        is_word(text("warn")),
        spec_lookup_long(text("warn")) == ConstructorView::Opt(OptKind::Warn),
        is_word(text("force-warn")),
        spec_lookup_long(text("force-warn")) == ConstructorView::Opt(OptKind::ForceWarn),
        is_word(text("deny")),
        spec_lookup_long(text("deny")) == ConstructorView::Opt(OptKind::Deny),
        is_word(text("forbid")),
        spec_lookup_long(text("forbid")) == ConstructorView::Opt(OptKind::Forbid),
        is_word(text("cap-lints")),
        spec_lookup_long(text("cap-lints")) == ConstructorView::Opt(OptKind::CapLints),
        is_word(text("codegen")),
        spec_lookup_long(text("codegen")) == ConstructorView::Opt(OptKind::Codegen),
        is_word(text("version")),
        spec_lookup_long(text("version")) == ConstructorView::Flag(FlagView::Version),
        is_word(text("verbose")),
        spec_lookup_long(text("verbose")) == ConstructorView::Flag(FlagView::Verbose),
        is_word(text("extern")),
        spec_lookup_long(text("extern")) == ConstructorView::Opt(OptKind::Extern),
        is_word(text("extern-location")),
        spec_lookup_long(text("extern-location")) == ConstructorView::Opt(OptKind::ExternLocation),
        is_word(text("sysroot")),
        spec_lookup_long(text("sysroot")) == ConstructorView::Opt(OptKind::Sysroot),
        is_word(text("error-format")),
        spec_lookup_long(text("error-format")) == ConstructorView::Opt(OptKind::ErrorFormat),
        is_word(text("json")),
        spec_lookup_long(text("json")) == ConstructorView::Opt(OptKind::Json),
        is_word(text("color")),
        spec_lookup_long(text("color")) == ConstructorView::Opt(OptKind::Color),
        is_word(text("remap-path-prefix")),
        spec_lookup_long(text("remap-path-prefix")) == ConstructorView::Opt(OptKind::RemapPathPrefix),
{
    reveal(spec_lookup_long);
    reveal_strlit("help");
    reveal_strlit("cfg");
    reveal_strlit("crate-type");
    reveal_strlit("crate-name");
    reveal_strlit("edition");
    reveal_strlit("emit");
    reveal_strlit("print");
    reveal_strlit("out-dir");
    reveal_strlit("explain");
    reveal_strlit("test");
    reveal_strlit("target");
    reveal_strlit("allow");
    reveal_strlit("warn");
    reveal_strlit("force-warn");
    reveal_strlit("deny");
    reveal_strlit("forbid");
    reveal_strlit("cap-lints");
    reveal_strlit("codegen");
    reveal_strlit("version");
    reveal_strlit("verbose");
    reveal_strlit("extern");
    reveal_strlit("extern-location");
    reveal_strlit("sysroot");
    reveal_strlit("error-format");
    reveal_strlit("json");
    reveal_strlit("color");
    reveal_strlit("remap-path-prefix");
    is_ascii_chars_encode_utf8("help"@);
    is_ascii_chars_encode_utf8("cfg"@);
    is_ascii_chars_encode_utf8("crate-type"@);
    is_ascii_chars_encode_utf8("crate-name"@);
    is_ascii_chars_encode_utf8("edition"@);
    is_ascii_chars_encode_utf8("emit"@);
    is_ascii_chars_encode_utf8("print"@);
    is_ascii_chars_encode_utf8("out-dir"@);
    is_ascii_chars_encode_utf8("explain"@);
    is_ascii_chars_encode_utf8("test"@);
    is_ascii_chars_encode_utf8("target"@);
    is_ascii_chars_encode_utf8("allow"@);
    is_ascii_chars_encode_utf8("warn"@);
    is_ascii_chars_encode_utf8("force-warn"@);
    is_ascii_chars_encode_utf8("deny"@);
    is_ascii_chars_encode_utf8("forbid"@);
    is_ascii_chars_encode_utf8("cap-lints"@);
    is_ascii_chars_encode_utf8("codegen"@);
    is_ascii_chars_encode_utf8("version"@);
    is_ascii_chars_encode_utf8("verbose"@);
    is_ascii_chars_encode_utf8("extern"@);
    is_ascii_chars_encode_utf8("extern-location"@);
    is_ascii_chars_encode_utf8("sysroot"@);
    is_ascii_chars_encode_utf8("error-format"@);
    is_ascii_chars_encode_utf8("json"@);
    is_ascii_chars_encode_utf8("color"@);
    is_ascii_chars_encode_utf8("remap-path-prefix"@);
    assert(text("crate-type")[6] != text("crate-name")[6]);
    assert(text("help")[0] != text("emit")[0]);
    assert(text("edition")[0] != text("out-dir")[0]);
    assert(text("edition")[1] != text("explain")[1]);
    assert(text("out-dir")[0] != text("explain")[0]);
    assert(text("help")[0] != text("test")[0]);
    assert(text("emit")[0] != text("test")[0]);
    assert(text("print")[0] != text("allow")[0]);
    assert(text("help")[0] != text("warn")[0]);
    assert(text("emit")[0] != text("warn")[0]);
    assert(text("test")[0] != text("warn")[0]);
    assert(text("crate-type")[0] != text("force-warn")[0]);
    assert(text("crate-name")[0] != text("force-warn")[0]);
    assert(text("help")[0] != text("deny")[0]);
    assert(text("emit")[0] != text("deny")[0]);
    assert(text("test")[0] != text("deny")[0]);
    assert(text("warn")[0] != text("deny")[0]);
    assert(text("target")[0] != text("forbid")[0]);
    assert(text("edition")[0] != text("codegen")[0]);
    assert(text("out-dir")[0] != text("codegen")[0]);
    assert(text("explain")[0] != text("codegen")[0]);
    assert(text("edition")[0] != text("version")[0]);
    assert(text("out-dir")[0] != text("version")[0]);
    assert(text("explain")[0] != text("version")[0]);
    assert(text("codegen")[0] != text("version")[0]);
    assert(text("edition")[0] != text("verbose")[0]);
    assert(text("out-dir")[0] != text("verbose")[0]);
    assert(text("explain")[0] != text("verbose")[0]);
    assert(text("codegen")[0] != text("verbose")[0]);
    assert(text("version")[3] != text("verbose")[3]);
    assert(text("target")[0] != text("extern")[0]);
    assert(text("forbid")[0] != text("extern")[0]);
    assert(text("edition")[0] != text("sysroot")[0]);
    assert(text("out-dir")[0] != text("sysroot")[0]);
    assert(text("explain")[0] != text("sysroot")[0]);
    assert(text("codegen")[0] != text("sysroot")[0]);
    assert(text("version")[0] != text("sysroot")[0]);
    assert(text("verbose")[0] != text("sysroot")[0]);
    assert(text("help")[0] != text("json")[0]);
    assert(text("emit")[0] != text("json")[0]);
    assert(text("test")[0] != text("json")[0]);
    assert(text("warn")[0] != text("json")[0]);
    assert(text("deny")[0] != text("json")[0]);
    assert(text("print")[0] != text("color")[0]);
    assert(text("allow")[0] != text("color")[0]);
}

} // verus!
