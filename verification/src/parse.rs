//! The decoder: from the encoded string to flags.
//!
//! [`decode`] says which flags an encoded string holds. It is defined by
//! [`step`], which reads one argument, or one letter of a bundle of short
//! flags, at a time. [`RustFlags`] walks the string with a cursor and hands
//! the same flags out one by one.

use vstd::prelude::*;
use vstd::utf8::*;

use crate::parse::opt::{lemma_first_listed, spec_all_listed, spec_first_listed, EQUALS, MINUS};
use crate::string::{
    find_byte, is_boundary, lemma_boundary_at_ascii, lemma_boundary_at_scalar, lemma_find_byte,
    lemma_find_byte_is, lemma_find_byte_suffix, lemma_first_char_is, lemma_first_char_len,
    lemma_first_scalar_ascii, lemma_first_scalar_wide, lemma_first_scalar_window, len_utf8,
    split_at_byte, text, EnvChar, EnvStr, EnvString,
};
use crate::{opt_flag_view, Flag, FlagView, SEPARATOR};

pub mod opt;

verus! {

/// The decoder of a flag that takes one argument.
#[derive(Clone, Copy, PartialEq, Eq, Structural)]
pub enum OptKind {
    Cfg,
    LibrarySearchPath,
    Link,
    CrateName,
    Edition,
    Print,
    Out,
    OutDir,
    Explain,
    Target,
    Allow,
    Warn,
    ForceWarn,
    Deny,
    Forbid,
    CapLints,
    Codegen,
    Extern,
    ExternLocation,
    Sysroot,
    Z,
    ErrorFormat,
    Json,
    Color,
    RemapPathPrefix,
}

/// The decoder of a flag whose argument is a comma separated list, and which
/// is called again on what is left of the list.
#[derive(Clone, Copy, PartialEq, Eq, Structural)]
pub enum RepeatKind {
    CrateType,
    Emit,
}

/// What the spelling of a flag stands for.
pub enum FlagConstructor {
    /// A flag that takes no argument.
    Flag(Flag),
    /// A flag that takes one argument.
    Opt(OptKind),
    /// A flag that takes a list, and stands for one flag per item.
    Repeated(RepeatKind),
    /// No flag that this decoder knows.
    Unrecognized,
}

/// A [`FlagConstructor`] as mathematical values.
pub enum ConstructorView {
    Flag(FlagView),
    Opt(OptKind),
    Repeated(RepeatKind),
    Unrecognized,
}

impl View for FlagConstructor {
    type V = ConstructorView;

    open spec fn view(&self) -> ConstructorView {
        match *self {
            FlagConstructor::Flag(flag) => ConstructorView::Flag(flag@),
            FlagConstructor::Opt(kind) => ConstructorView::Opt(kind),
            FlagConstructor::Repeated(kind) => ConstructorView::Repeated(kind),
            FlagConstructor::Unrecognized => ConstructorView::Unrecognized,
        }
    }
}

/// A decoder that takes an argument.
#[derive(Clone, Copy)]
pub enum ConstructorFn {
    Opt(OptKind),
    Repeated(RepeatKind),
}

/// `-C debuginfo=2`, which `-g` stands for.
pub open spec fn spec_debuginfo() -> FlagView {
    FlagView::Codegen { opt: text("debuginfo"), value: Some(text("2")) }
}

/// `-C opt-level=2`, which `-O` stands for.
pub open spec fn spec_opt_level() -> FlagView {
    FlagView::Codegen { opt: text("opt-level"), value: Some(text("2")) }
}

/// What a letter after a single `-` stands for.
#[verifier::opaque]
pub open spec fn spec_lookup_short(ch: char) -> ConstructorView {
    if ch == 'h' {
        ConstructorView::Flag(FlagView::Help)
    } else if ch == 'L' {
        ConstructorView::Opt(OptKind::LibrarySearchPath)
    } else if ch == 'l' {
        ConstructorView::Opt(OptKind::Link)
    } else if ch == 'g' {
        ConstructorView::Flag(spec_debuginfo())
    } else if ch == 'O' {
        ConstructorView::Flag(spec_opt_level())
    } else if ch == 'o' {
        ConstructorView::Opt(OptKind::Out)
    } else if ch == 'A' {
        ConstructorView::Opt(OptKind::Allow)
    } else if ch == 'W' {
        ConstructorView::Opt(OptKind::Warn)
    } else if ch == 'D' {
        ConstructorView::Opt(OptKind::Deny)
    } else if ch == 'F' {
        ConstructorView::Opt(OptKind::Forbid)
    } else if ch == 'C' {
        ConstructorView::Opt(OptKind::Codegen)
    } else if ch == 'V' {
        ConstructorView::Flag(FlagView::Version)
    } else if ch == 'v' {
        ConstructorView::Flag(FlagView::Verbose)
    } else if ch == 'Z' {
        ConstructorView::Opt(OptKind::Z)
    } else {
        ConstructorView::Unrecognized
    }
}

pub fn lookup_short(ch: char) -> (constructor: FlagConstructor)
    ensures
        constructor@ == spec_lookup_short(ch),
{
    proof {
        reveal(spec_lookup_short);
    }
    if ch == 'h' {
        FlagConstructor::Flag(Flag::Help)
    } else if ch == 'L' {
        FlagConstructor::Opt(OptKind::LibrarySearchPath)
    } else if ch == 'l' {
        FlagConstructor::Opt(OptKind::Link)
    } else if ch == 'g' {
        FlagConstructor::Flag(
            Flag::Codegen { opt: "debuginfo".to_owned(), value: Some("2".to_owned()) },
        )
    } else if ch == 'O' {
        FlagConstructor::Flag(
            Flag::Codegen { opt: "opt-level".to_owned(), value: Some("2".to_owned()) },
        )
    } else if ch == 'o' {
        FlagConstructor::Opt(OptKind::Out)
    } else if ch == 'A' {
        FlagConstructor::Opt(OptKind::Allow)
    } else if ch == 'W' {
        FlagConstructor::Opt(OptKind::Warn)
    } else if ch == 'D' {
        FlagConstructor::Opt(OptKind::Deny)
    } else if ch == 'F' {
        FlagConstructor::Opt(OptKind::Forbid)
    } else if ch == 'C' {
        FlagConstructor::Opt(OptKind::Codegen)
    } else if ch == 'V' {
        FlagConstructor::Flag(Flag::Version)
    } else if ch == 'v' {
        FlagConstructor::Flag(Flag::Verbose)
    } else if ch == 'Z' {
        FlagConstructor::Opt(OptKind::Z)
    } else {
        FlagConstructor::Unrecognized
    }
}

/// What a name after `--` stands for.
#[verifier::opaque]
pub open spec fn spec_lookup_long(name: Seq<u8>) -> ConstructorView {
    if name == text("help") {
        ConstructorView::Flag(FlagView::Help)
    } else if name == text("cfg") {
        ConstructorView::Opt(OptKind::Cfg)
    } else if name == text("crate-type") {
        ConstructorView::Repeated(RepeatKind::CrateType)
    } else if name == text("crate-name") {
        ConstructorView::Opt(OptKind::CrateName)
    } else if name == text("edition") {
        ConstructorView::Opt(OptKind::Edition)
    } else if name == text("emit") {
        ConstructorView::Repeated(RepeatKind::Emit)
    } else if name == text("print") {
        ConstructorView::Opt(OptKind::Print)
    } else if name == text("out-dir") {
        ConstructorView::Opt(OptKind::OutDir)
    } else if name == text("explain") {
        ConstructorView::Opt(OptKind::Explain)
    } else if name == text("test") {
        ConstructorView::Flag(FlagView::Test)
    } else if name == text("target") {
        ConstructorView::Opt(OptKind::Target)
    } else if name == text("allow") {
        ConstructorView::Opt(OptKind::Allow)
    } else if name == text("warn") {
        ConstructorView::Opt(OptKind::Warn)
    } else if name == text("force-warn") {
        ConstructorView::Opt(OptKind::ForceWarn)
    } else if name == text("deny") {
        ConstructorView::Opt(OptKind::Deny)
    } else if name == text("forbid") {
        ConstructorView::Opt(OptKind::Forbid)
    } else if name == text("cap-lints") {
        ConstructorView::Opt(OptKind::CapLints)
    } else if name == text("codegen") {
        ConstructorView::Opt(OptKind::Codegen)
    } else if name == text("version") {
        ConstructorView::Flag(FlagView::Version)
    } else if name == text("verbose") {
        ConstructorView::Flag(FlagView::Verbose)
    } else if name == text("extern") {
        ConstructorView::Opt(OptKind::Extern)
    } else if name == text("extern-location") {
        ConstructorView::Opt(OptKind::ExternLocation)
    } else if name == text("sysroot") {
        ConstructorView::Opt(OptKind::Sysroot)
    } else if name == text("error-format") {
        ConstructorView::Opt(OptKind::ErrorFormat)
    } else if name == text("json") {
        ConstructorView::Opt(OptKind::Json)
    } else if name == text("color") {
        ConstructorView::Opt(OptKind::Color)
    } else if name == text("remap-path-prefix") {
        ConstructorView::Opt(OptKind::RemapPathPrefix)
    } else {
        ConstructorView::Unrecognized
    }
}

pub fn lookup_long(name: &EnvStr) -> (constructor: FlagConstructor)
    ensures
        constructor@ == spec_lookup_long(name@),
{
    proof {
        reveal(spec_lookup_long);
    }
    if name.eq_str("help") {
        FlagConstructor::Flag(Flag::Help)
    } else if name.eq_str("cfg") {
        FlagConstructor::Opt(OptKind::Cfg)
    } else if name.eq_str("crate-type") {
        FlagConstructor::Repeated(RepeatKind::CrateType)
    } else if name.eq_str("crate-name") {
        FlagConstructor::Opt(OptKind::CrateName)
    } else if name.eq_str("edition") {
        FlagConstructor::Opt(OptKind::Edition)
    } else if name.eq_str("emit") {
        FlagConstructor::Repeated(RepeatKind::Emit)
    } else if name.eq_str("print") {
        FlagConstructor::Opt(OptKind::Print)
    } else if name.eq_str("out-dir") {
        FlagConstructor::Opt(OptKind::OutDir)
    } else if name.eq_str("explain") {
        FlagConstructor::Opt(OptKind::Explain)
    } else if name.eq_str("test") {
        FlagConstructor::Flag(Flag::Test)
    } else if name.eq_str("target") {
        FlagConstructor::Opt(OptKind::Target)
    } else if name.eq_str("allow") {
        FlagConstructor::Opt(OptKind::Allow)
    } else if name.eq_str("warn") {
        FlagConstructor::Opt(OptKind::Warn)
    } else if name.eq_str("force-warn") {
        FlagConstructor::Opt(OptKind::ForceWarn)
    } else if name.eq_str("deny") {
        FlagConstructor::Opt(OptKind::Deny)
    } else if name.eq_str("forbid") {
        FlagConstructor::Opt(OptKind::Forbid)
    } else if name.eq_str("cap-lints") {
        FlagConstructor::Opt(OptKind::CapLints)
    } else if name.eq_str("codegen") {
        FlagConstructor::Opt(OptKind::Codegen)
    } else if name.eq_str("version") {
        FlagConstructor::Flag(Flag::Version)
    } else if name.eq_str("verbose") {
        FlagConstructor::Flag(Flag::Verbose)
    } else if name.eq_str("extern") {
        FlagConstructor::Opt(OptKind::Extern)
    } else if name.eq_str("extern-location") {
        FlagConstructor::Opt(OptKind::ExternLocation)
    } else if name.eq_str("sysroot") {
        FlagConstructor::Opt(OptKind::Sysroot)
    } else if name.eq_str("error-format") {
        FlagConstructor::Opt(OptKind::ErrorFormat)
    } else if name.eq_str("json") {
        FlagConstructor::Opt(OptKind::Json)
    } else if name.eq_str("color") {
        FlagConstructor::Opt(OptKind::Color)
    } else if name.eq_str("remap-path-prefix") {
        FlagConstructor::Opt(OptKind::RemapPathPrefix)
    } else {
        FlagConstructor::Unrecognized
    }
}

/// The flag that the decoder of kind `kind` reads from `arg`.
#[verifier::opaque]
pub open spec fn spec_opt(kind: OptKind, arg: Seq<u8>) -> Option<FlagView> {
    match kind {
        OptKind::Cfg => opt::spec_cfg(arg),
        OptKind::LibrarySearchPath => opt::spec_library_search_path(arg),
        OptKind::Link => opt::spec_link(arg),
        OptKind::CrateName => opt::spec_crate_name(arg),
        OptKind::Edition => opt::spec_edition(arg),
        OptKind::Print => opt::spec_print(arg),
        OptKind::Out => opt::spec_out(arg),
        OptKind::OutDir => opt::spec_out_dir(arg),
        OptKind::Explain => opt::spec_explain(arg),
        OptKind::Target => opt::spec_target(arg),
        OptKind::Allow => opt::spec_allow(arg),
        OptKind::Warn => opt::spec_warn(arg),
        OptKind::ForceWarn => opt::spec_force_warn(arg),
        OptKind::Deny => opt::spec_deny(arg),
        OptKind::Forbid => opt::spec_forbid(arg),
        OptKind::CapLints => opt::spec_cap_lints(arg),
        OptKind::Codegen => opt::spec_codegen(arg),
        OptKind::Extern => opt::spec_extern(arg),
        OptKind::ExternLocation => opt::spec_extern_location(arg),
        OptKind::Sysroot => opt::spec_sysroot(arg),
        OptKind::Z => opt::spec_z(arg),
        OptKind::ErrorFormat => opt::spec_error_format(arg),
        OptKind::Json => opt::spec_json(arg),
        OptKind::Color => opt::spec_color(arg),
        OptKind::RemapPathPrefix => opt::spec_remap_path_prefix(arg),
    }
}

/// Calls the decoder of kind `kind` on `arg`.
pub fn decode_opt(kind: OptKind, arg: &EnvStr) -> (flag: Option<Flag>)
    ensures
        opt_flag_view(flag) == spec_opt(kind, arg@),
{
    proof {
        reveal(spec_opt);
    }
    match kind {
        OptKind::Cfg => opt::cfg(arg),
        OptKind::LibrarySearchPath => opt::library_search_path(arg),
        OptKind::Link => opt::link(arg),
        OptKind::CrateName => opt::crate_name(arg),
        OptKind::Edition => opt::edition(arg),
        OptKind::Print => opt::print(arg),
        OptKind::Out => opt::out(arg),
        OptKind::OutDir => opt::out_dir(arg),
        OptKind::Explain => opt::explain(arg),
        OptKind::Target => opt::target(arg),
        OptKind::Allow => opt::allow(arg),
        OptKind::Warn => opt::warn(arg),
        OptKind::ForceWarn => opt::force_warn(arg),
        OptKind::Deny => opt::deny(arg),
        OptKind::Forbid => opt::forbid(arg),
        OptKind::CapLints => opt::cap_lints(arg),
        OptKind::Codegen => opt::codegen(arg),
        OptKind::Extern => opt::extern_(arg),
        OptKind::ExternLocation => opt::extern_location(arg),
        OptKind::Sysroot => opt::sysroot(arg),
        OptKind::Z => opt::z(arg),
        OptKind::ErrorFormat => opt::error_format(arg),
        OptKind::Json => opt::json(arg),
        OptKind::Color => opt::color(arg),
        OptKind::RemapPathPrefix => opt::remap_path_prefix(arg),
    }
}

/// Calls the decoder of kind `kind` on a list, for the first flag in it.
pub fn decode_repeated(kind: RepeatKind, arg: &EnvStr) -> (found: Option<(Flag, usize)>)
    ensures
        match found {
            Some((flag, rest)) => spec_first_listed(kind, arg@) == Some((flag@, rest as nat)),
            None => spec_first_listed(kind, arg@) is None,
        },
{
    match kind {
        RepeatKind::CrateType => opt::crate_type(arg),
        RepeatKind::Emit => opt::emit(arg),
    }
}

/// A sequence of one flag or none.
pub open spec fn opt_seq(flag: Option<FlagView>) -> Seq<FlagView> {
    match flag {
        Some(flag) => seq![flag],
        None => Seq::empty(),
    }
}

/// The flags that a decoder reads from its argument: one or none, or for a
/// list one per recognized item.
pub open spec fn spec_construct(constructor: ConstructorFn, arg: Seq<u8>) -> Seq<FlagView> {
    match constructor {
        ConstructorFn::Opt(kind) => opt_seq(spec_opt(kind, arg)),
        ConstructorFn::Repeated(kind) => spec_all_listed(kind, arg),
    }
}

/// Where the argument that begins at `pos` ends: at the next separator, or
/// at the end of the string.
pub open spec fn token_end(buf: Seq<u8>, pos: int) -> int {
    find_byte(buf, SEPARATOR, pos)
}

/// Where the argument after the one at `pos` begins.
pub open spec fn next_token(buf: Seq<u8>, pos: int) -> int {
    if token_end(buf, pos) < buf.len() {
        token_end(buf, pos) + 1
    } else {
        buf.len() as int
    }
}

/// What one step of decoding does: the flags it has read, and where and in
/// which mode decoding goes on.
pub struct Step {
    pub flags: Seq<FlagView>,
    pub pos: int,
    pub short: bool,
}

/// The step for a flag whose argument is the one that begins at `from`.
pub open spec fn step_argument(buf: Seq<u8>, constructor: ConstructorFn, from: int) -> Step {
    Step {
        flags: spec_construct(constructor, buf.subrange(from, token_end(buf, from))),
        pos: next_token(buf, from),
        short: false,
    }
}

/// The step at a letter of a bundle of short flags: `buf[pos]` follows a
/// `-`, or another short flag.
pub open spec fn step_short(buf: Seq<u8>, pos: int) -> Step {
    let rest = buf.subrange(pos, buf.len() as int);
    let after = pos + length_of_first_scalar(rest);
    let constructor = if valid_first_scalar(rest) {
        spec_lookup_short(decode_first_scalar(rest) as char)
    } else {
        ConstructorView::Unrecognized
    };
    if buf[pos] == SEPARATOR {
        Step { flags: Seq::empty(), pos: pos + 1, short: false }
    } else {
        match constructor {
            ConstructorView::Flag(flag) => Step { flags: seq![flag], pos: after, short: true },
            ConstructorView::Unrecognized => Step {
                flags: Seq::empty(),
                pos: next_token(buf, pos),
                short: false,
            },
            ConstructorView::Opt(kind) => step_short_argument(buf, ConstructorFn::Opt(kind), after),
            ConstructorView::Repeated(kind) => step_short_argument(
                buf,
                ConstructorFn::Repeated(kind),
                after,
            ),
        }
    }
}

/// The step for a short flag that takes an argument: what follows the
/// letter in its argument, or else the next argument. At the end of the
/// string the flag is dropped.
pub open spec fn step_short_argument(buf: Seq<u8>, constructor: ConstructorFn, after: int) -> Step {
    if after >= buf.len() {
        Step { flags: Seq::empty(), pos: buf.len() as int, short: false }
    } else if buf[after] == SEPARATOR {
        step_argument(buf, constructor, after + 1)
    } else {
        step_argument(buf, constructor, after)
    }
}

/// The step at an argument that begins with `--`.
pub open spec fn step_long(buf: Seq<u8>, pos: int) -> Step {
    let start = pos + 2;
    let end = token_end(buf, start);
    let next = next_token(buf, start);
    let flag = buf.subrange(start, end);
    let (name, arg) = match split_at_byte(flag, EQUALS) {
        Some((name, arg)) => (name, Some(arg)),
        None => (flag, None),
    };
    if end == start && end < buf.len() {
        Step { flags: Seq::empty(), pos: buf.len() as int, short: false }
    } else {
        match spec_lookup_long(name) {
            ConstructorView::Flag(flag) => Step {
                flags: if arg is None {
                    seq![flag]
                } else {
                    Seq::empty()
                },
                pos: next,
                short: false,
            },
            ConstructorView::Unrecognized => Step { flags: Seq::empty(), pos: next, short: false },
            ConstructorView::Opt(kind) => step_long_argument(
                buf,
                ConstructorFn::Opt(kind),
                arg,
                next,
            ),
            ConstructorView::Repeated(kind) => step_long_argument(
                buf,
                ConstructorFn::Repeated(kind),
                arg,
                next,
            ),
        }
    }
}

/// The step for a long flag that takes an argument: what follows `=` in its
/// own argument, or else the next argument.
pub open spec fn step_long_argument(
    buf: Seq<u8>,
    constructor: ConstructorFn,
    arg: Option<Seq<u8>>,
    next: int,
) -> Step {
    match arg {
        Some(arg) => Step { flags: spec_construct(constructor, arg), pos: next, short: false },
        None => step_argument(buf, constructor, next),
    }
}

/// The step at the beginning of an argument.
pub open spec fn step_scan(buf: Seq<u8>, pos: int) -> Step {
    if buf[pos] != MINUS {
        Step { flags: Seq::empty(), pos: next_token(buf, pos), short: false }
    } else if pos + 1 >= buf.len() {
        Step { flags: Seq::empty(), pos: buf.len() as int, short: false }
    } else if buf[pos + 1] == SEPARATOR {
        Step { flags: Seq::empty(), pos: pos + 2, short: false }
    } else if buf[pos + 1] == MINUS {
        step_long(buf, pos)
    } else {
        Step { flags: Seq::empty(), pos: pos + 1, short: true }
    }
}

/// One step of decoding at `pos`, which is inside a bundle of short flags
/// when `short` is set, and at the beginning of an argument when not.
pub open spec fn step(buf: Seq<u8>, pos: int, short: bool) -> Step {
    if short {
        step_short(buf, pos)
    } else {
        step_scan(buf, pos)
    }
}

/// The flags that `buf` holds from `pos` on.
#[verifier::opaque]
pub open spec fn remaining(buf: Seq<u8>, pos: int, short: bool) -> Seq<FlagView>
    decreases buf.len() - pos,
{
    if pos < 0 || pos >= buf.len() {
        Seq::empty()
    } else {
        let next = step(buf, pos, short);
        if next.pos > pos {
            next.flags + remaining(buf, next.pos, next.short)
        } else {
            next.flags
        }
    }
}

/// The flags that an encoded string holds, in order.
pub open spec fn decode(buf: Seq<u8>) -> Seq<FlagView> {
    remaining(buf, 0, false)
}

/// Every step goes forward, and none goes beyond the end of the string.
pub proof fn lemma_step_advances(buf: Seq<u8>, pos: int, short: bool)
    requires
        0 <= pos < buf.len(),
    ensures
        pos < step(buf, pos, short).pos <= buf.len(),
{
    lemma_find_byte(buf, SEPARATOR, pos);
    if short {
        let rest = buf.subrange(pos, buf.len() as int);
        let after = pos + length_of_first_scalar(rest);
        if valid_first_scalar(rest) {
            lemma_first_scalar_window(rest);
            if after < buf.len() {
                lemma_find_byte(buf, SEPARATOR, after);
                lemma_find_byte(buf, SEPARATOR, after + 1);
            }
        }
    } else if pos + 1 < buf.len() {
        let next = next_token(buf, pos + 2);
        lemma_find_byte(buf, SEPARATOR, pos + 2);
        lemma_find_byte(buf, SEPARATOR, next);
    }
}

/// The flags from `pos` on are those of the step at `pos`, then those from
/// where that step ends. From the end of the string on there is none.
pub proof fn lemma_remaining(buf: Seq<u8>, pos: int, short: bool)
    ensures
        0 <= pos < buf.len() ==> remaining(buf, pos, short) == step(buf, pos, short).flags
            + remaining(buf, step(buf, pos, short).pos, step(buf, pos, short).short),
        pos < 0 || pos >= buf.len() ==> remaining(buf, pos, short) == Seq::<FlagView>::empty(),
{
    reveal_with_fuel(remaining, 1);
    if 0 <= pos < buf.len() {
        lemma_step_advances(buf, pos, short);
    }
}

/// A letter that is no character stands for no flag.
pub proof fn lemma_lookup_short_nul()
    ensures
        spec_lookup_short('\0') == ConstructorView::Unrecognized,
{
    reveal(spec_lookup_short);
}

/// Where the decoder stands in the encoded string.
#[derive(Clone, Copy)]
struct Cursor {
    /// The index of the next byte to read.
    pos: usize,
    /// Set inside a bundle of short flags.
    short: bool,
    /// The decoder of a list of which items are left, with the number of
    /// bytes that are left of the list.
    repeat: Option<(RepeatKind, usize)>,
}

/// True when `cursor` stands on a boundary of `buf`, and the list that it
/// may have left over is the end of an argument.
spec fn cursor_ok(buf: Seq<u8>, cursor: Cursor) -> bool {
    &&& is_boundary(buf, cursor.pos as int)
    &&& match cursor.repeat {
        Some((kind, len)) => {
            &&& !cursor.short
            &&& len > 0
            &&& cursor.pos + len <= buf.len()
            &&& token_end(buf, cursor.pos as int) == cursor.pos + len
        },
        None => true,
    }
}

/// The flags that `buf` holds for a decoder that stands at `cursor`.
spec fn remaining_at(buf: Seq<u8>, cursor: Cursor) -> Seq<FlagView> {
    match cursor.repeat {
        Some((kind, len)) => spec_all_listed(
            kind,
            buf.subrange(cursor.pos as int, cursor.pos + len),
        ) + remaining(buf, cursor.pos + len, false),
        None => remaining(buf, cursor.pos as int, cursor.short),
    }
}

/// A cursor at `pos` with nothing left over.
spec fn at(pos: int, short: bool) -> Cursor {
    Cursor { pos: pos as usize, short, repeat: None }
}

/// Decoding at a separator goes on behind it.
pub proof fn lemma_remaining_at_separator(buf: Seq<u8>, pos: int)
    requires
        0 <= pos < buf.len(),
        buf[pos] == SEPARATOR,
    ensures
        remaining(buf, pos, false) == remaining(buf, pos + 1, false),
{
    lemma_find_byte_is(buf, SEPARATOR, pos, pos);
    lemma_remaining(buf, pos, false);
    assert(step_scan(buf, pos).flags + remaining(buf, pos + 1, false) =~= remaining(
        buf,
        pos + 1,
        false,
    ));
}

/// An argument ends where it ends for every place inside it.
pub proof fn lemma_token_end_inside(buf: Seq<u8>, from: int, inside: int)
    requires
        0 <= from <= inside <= token_end(buf, from),
    ensures
        token_end(buf, inside) == token_end(buf, from),
        next_token(buf, inside) == next_token(buf, from),
        from <= token_end(buf, from) <= buf.len(),
{
    if from <= buf.len() {
        lemma_find_byte(buf, SEPARATOR, from);
        lemma_find_byte_is(buf, SEPARATOR, inside, token_end(buf, from));
    }
}

/// Finds the end of the argument that begins at `pos`.
fn find_token_end(encoded: &EnvStr, pos: usize) -> (end: usize)
    requires
        is_boundary(encoded@, pos as int),
    ensures
        end == token_end(encoded@, pos as int),
        pos <= end <= encoded@.len(),
        is_boundary(encoded@, end as int),
        forall|j: int| pos <= j < end ==> encoded@[j] != SEPARATOR,
        end < encoded@.len() ==> encoded@[end as int] == SEPARATOR,
{
    proof {
        lemma_find_byte_suffix(encoded@, SEPARATOR, pos as int);
        lemma_find_byte(encoded@, SEPARATOR, pos as int);
    }
    let len = encoded.len();
    let end = match encoded.index_from(pos).find('\x1F') {
        Some(i) => pos + i,
        None => len,
    };
    proof {
        if end < encoded@.len() {
            lemma_boundary_at_ascii(encoded@, end as int);
        }
    }
    end
}

/// Finds the beginning of the argument after the one at `pos`.
fn skip_token(encoded: &EnvStr, pos: usize) -> (next: usize)
    requires
        is_boundary(encoded@, pos as int),
    ensures
        next == next_token(encoded@, pos as int),
        pos <= next <= encoded@.len(),
        pos < encoded@.len() ==> pos < next,
        is_boundary(encoded@, next as int),
{
    let end = find_token_end(encoded, pos);
    if end < encoded.len() {
        proof {
            lemma_boundary_at_ascii(encoded@, end as int);
        }
        end + 1
    } else {
        end
    }
}

/// Calls a decoder on the argument `encoded[start..end]`, after which the
/// cursor stands at `pos`.
///
/// Where a list has items left, the cursor goes back to them: by their
/// length, and by one more where it stood behind a separator.
fn construct(
    encoded: &EnvStr,
    constructor: ConstructorFn,
    start: usize,
    end: usize,
    pos: usize,
) -> (r: (Option<Flag>, Cursor))
    requires
        start <= end <= encoded@.len(),
        is_boundary(encoded@, start as int),
        token_end(encoded@, start as int) == end,
        pos == end || pos == next_token(encoded@, start as int),
    ensures
        cursor_ok(encoded@, r.1),
        opt_seq(opt_flag_view(r.0)) + remaining_at(encoded@, r.1) == spec_construct(
            constructor,
            encoded@.subrange(start as int, end as int),
        ) + remaining(encoded@, pos as int, false),
        r.0 is None ==> r.1 == at(pos as int, false),
        start <= r.1.pos <= encoded@.len(),
        start < end ==> start < r.1.pos,
{
    let ghost buf = encoded@;
    proof {
        lemma_find_byte(buf, SEPARATOR, start as int);
        if end < buf.len() {
            lemma_boundary_at_ascii(buf, end as int);
            lemma_remaining_at_separator(buf, end as int);
        }
    }
    let arg = encoded.index(start, end);
    match constructor {
        ConstructorFn::Opt(kind) => (decode_opt(kind, &arg), Cursor { pos, short: false, repeat: None }),
        ConstructorFn::Repeated(kind) => {
            proof {
                lemma_first_listed(kind, arg@);
            }
            match decode_repeated(kind, &arg) {
                Some((flag, repeat)) => {
                    if repeat > 0 {
                        let behind_separator = encoded.index_to(pos).ends_with('\x1F');
                        assert(behind_separator == (pos == end + 1)) by {
                            assert(buf.subrange(0, pos as int)[pos - 1] == buf[pos - 1]);
                            assert(arg@[end - start - 1] == buf[end - 1]);
                        }
                        let back = repeat + if behind_separator {
                            1
                        } else {
                            0
                        };
                        let pos = pos - back;
                        proof {
                            assert(arg@[arg@.len() - repeat - 1] == buf[pos - 1]);
                            lemma_boundary_at_ascii(buf, pos - 1);
                            lemma_token_end_inside(buf, start as int, pos as int);
                            assert(arg@.subrange(arg@.len() - repeat, arg@.len() as int)
                                =~= buf.subrange(pos as int, pos + repeat));
                        }
                        (Some(flag), Cursor { pos, short: false, repeat: Some((kind, repeat)) })
                    } else {
                        proof {
                            assert(arg@.subrange(arg@.len() as int, arg@.len() as int)
                                =~= Seq::<u8>::empty());
                        }
                        (Some(flag), Cursor { pos, short: false, repeat: None })
                    }
                },
                None => (None, Cursor { pos, short: false, repeat: None }),
            }
        },
    }
}

/// Reads one letter of a bundle of short flags.
fn short_flag(encoded: &EnvStr, pos: usize) -> (r: (Option<Flag>, Cursor))
    requires
        pos < encoded@.len(),
        is_boundary(encoded@, pos as int),
    ensures
        cursor_ok(encoded@, r.1),
        opt_seq(opt_flag_view(r.0)) + remaining_at(encoded@, r.1) == remaining(
            encoded@,
            pos as int,
            true,
        ),
        pos < r.1.pos <= encoded@.len(),
        r.0 is None ==> r.1.repeat is None,
{
    let ghost buf = encoded@;
    let len = encoded.len();
    let rest = encoded.index_from(pos);
    let mut after = pos;
    proof {
        lemma_remaining(buf, pos as int, true);
        lemma_remaining(buf, len as int, false);
        lemma_lookup_short_nul();
        lemma_first_char_is(rest@, '\x1F');
        if valid_first_scalar(rest@) {
            lemma_first_char_len(rest@);
            lemma_boundary_at_scalar(buf, pos as int);
            lemma_first_scalar_window(rest@);
            if rest@[0] >= 0x80 {
                lemma_first_scalar_wide(rest@);
            } else {
                lemma_first_scalar_ascii(rest@);
            }
            let n = length_of_first_scalar(rest@);
            if buf[pos as int] != SEPARATOR {
                assert forall|j: int| pos <= j < pos + n implies buf[j] != SEPARATOR by {
                    assert(rest@[j - pos] == buf[j]);
                }
                lemma_find_byte(buf, SEPARATOR, pos as int);
                lemma_find_byte(buf, SEPARATOR, pos + n);
                lemma_find_byte_is(buf, SEPARATOR, pos as int, token_end(buf, pos + n));
            }
        }
    }
    let ch = match rest.first_char() {
        Some(EnvChar::Valid(ch)) => {
            after = pos + len_utf8(ch);
            if ch == '\x1F' {
                return (None, Cursor { pos: after, short: false, repeat: None });
            }
            ch
        },
        _ => '\0',
    };
    let constructor = match lookup_short(ch) {
        FlagConstructor::Flag(flag) => {
            assert(seq![flag@] + remaining(buf, after as int, true) =~= remaining(
                buf,
                pos as int,
                true,
            ));
            return (Some(flag), Cursor { pos: after, short: true, repeat: None });
        },
        FlagConstructor::Opt(kind) => ConstructorFn::Opt(kind),
        FlagConstructor::Repeated(kind) => ConstructorFn::Repeated(kind),
        FlagConstructor::Unrecognized => {
            let next = skip_token(encoded, after);
            return (None, Cursor { pos: next, short: false, repeat: None });
        },
    };
    if after == len {
        return (None, Cursor { pos: after, short: false, repeat: None });
    }
    let start = if encoded.index_from(after).starts_with('\x1F') {
        proof {
            lemma_boundary_at_ascii(buf, after as int);
        }
        after + 1
    } else {
        after
    };
    let end = find_token_end(encoded, start);
    let next = if end < len {
        end + 1
    } else {
        end
    };
    construct(encoded, constructor, start, end, next)
}

/// Reads an argument that begins with `--`.
fn long_flag(encoded: &EnvStr, pos: usize) -> (r: (Option<Flag>, Cursor))
    requires
        pos + 1 < encoded@.len(),
        encoded@[pos as int] == MINUS,
        encoded@[pos + 1] == MINUS,
    ensures
        cursor_ok(encoded@, r.1),
        opt_seq(opt_flag_view(r.0)) + remaining_at(encoded@, r.1) == step_long(
            encoded@,
            pos as int,
        ).flags + remaining(encoded@, step_long(encoded@, pos as int).pos, false),
        pos < r.1.pos <= encoded@.len(),
        r.0 is None ==> r.1.repeat is None,
{
    let ghost buf = encoded@;
    let len = encoded.len();
    proof {
        lemma_boundary_at_ascii(buf, pos + 1);
        lemma_remaining(buf, len as int, false);
    }
    let start = pos + 2;
    let end = find_token_end(encoded, start);
    if end == start && end < len {
        return (None, Cursor { pos: len, short: false, repeat: None });
    }
    let flag = encoded.index(start, end);
    let next = if end < len {
        proof {
            lemma_boundary_at_ascii(buf, end as int);
        }
        end + 1
    } else {
        end
    };
    let (name, arg) = match flag.split_once('=') {
        Some((name, arg)) => (name, Some(arg)),
        None => (flag, None),
    };
    let constructor = match lookup_long(&name) {
        FlagConstructor::Flag(flag) => {
            if arg.is_none() {
                return (Some(flag), Cursor { pos: next, short: false, repeat: None });
            } else {
                return (None, Cursor { pos: next, short: false, repeat: None });
            }
        },
        FlagConstructor::Opt(kind) => ConstructorFn::Opt(kind),
        FlagConstructor::Repeated(kind) => ConstructorFn::Repeated(kind),
        FlagConstructor::Unrecognized => {
            return (None, Cursor { pos: next, short: false, repeat: None });
        },
    };
    match arg {
        Some(arg) => {
            let arg_start = end - arg.len();
            proof {
                lemma_find_byte(flag@, EQUALS, 0);
                assert(flag@[arg_start - start - 1] == buf[arg_start - 1]);
                lemma_boundary_at_ascii(buf, arg_start - 1);
                lemma_token_end_inside(buf, start as int, arg_start as int);
                assert(arg@ =~= buf.subrange(arg_start as int, end as int));
            }
            construct(encoded, constructor, arg_start, end, next)
        },
        None => {
            let arg_end = find_token_end(encoded, next);
            let after = if arg_end < len {
                arg_end + 1
            } else {
                arg_end
            };
            construct(encoded, constructor, next, arg_end, after)
        },
    }
}

/// Reads the beginning of an argument.
fn scan(encoded: &EnvStr, pos: usize) -> (r: (Option<Flag>, Cursor))
    requires
        pos < encoded@.len(),
        is_boundary(encoded@, pos as int),
    ensures
        cursor_ok(encoded@, r.1),
        opt_seq(opt_flag_view(r.0)) + remaining_at(encoded@, r.1) == remaining(
            encoded@,
            pos as int,
            false,
        ),
        pos < r.1.pos <= encoded@.len(),
        r.0 is None ==> r.1.repeat is None,
{
    let ghost buf = encoded@;
    let len = encoded.len();
    proof {
        lemma_remaining(buf, pos as int, false);
        lemma_remaining(buf, len as int, false);
    }
    if !encoded.index_from(pos).starts_with('-') {
        let next = skip_token(encoded, pos);
        return (None, Cursor { pos: next, short: false, repeat: None });
    }
    proof {
        lemma_boundary_at_ascii(buf, pos as int);
    }
    let rest = encoded.index_from(pos + 1);
    proof {
        if rest@.len() > 0 {
            lemma_first_char_is(rest@, '\x1F');
            lemma_first_char_is(rest@, '-');
            if buf[pos + 1] < 0x80 {
                lemma_boundary_at_ascii(buf, pos + 1);
            }
        }
    }
    match rest.first_char() {
        None => (None, Cursor { pos: pos + 1, short: false, repeat: None }),
        Some(EnvChar::Valid(ch)) => {
            if ch == '\x1F' {
                (None, Cursor { pos: pos + 2, short: false, repeat: None })
            } else if ch == '-' {
                long_flag(encoded, pos)
            } else {
                (None, Cursor { pos: pos + 1, short: true, repeat: None })
            }
        },
        Some(EnvChar::Invalid) => (None, Cursor { pos: pos + 1, short: true, repeat: None }),
    }
}

/// The views of the flags in `flags`.
pub open spec fn spec_flag_views(flags: Seq<Flag>) -> Seq<FlagView> {
    Seq::new(flags.len(), |i: int| flags[i]@)
}

/// **Iterator of flags**
///
/// Holds the encoded string and a cursor into it. Its view is the sequence
/// of flags that it has yet to produce.
pub struct RustFlags {
    encoded: EnvString,
    cursor: Cursor,
}

impl RustFlags {
    #[verifier::type_invariant]
    spec fn well_formed(self) -> bool {
        cursor_ok(self.encoded@, self.cursor)
    }

    /// The flags that are yet to come, in order.
    pub closed spec fn view(&self) -> Seq<FlagView> {
        remaining_at(self.encoded@, self.cursor)
    }

    /// The encoded string that the flags are decoded from.
    pub closed spec fn encoded(&self) -> Seq<u8> {
        self.encoded@
    }

    /// The index in the encoded string of the next byte to read.
    pub closed spec fn position(&self) -> int {
        self.cursor.pos as int
    }

    /// A decoder at the beginning of `encoded`.
    pub fn new(encoded: Vec<u8>) -> (flags: Self)
        ensures
            flags@ == decode(encoded@),
            flags.encoded() == encoded@,
            flags.position() == 0,
            encoded@.len() == 0 ==> flags@.len() == 0,
    {
        proof {
            lemma_remaining(encoded@, 0, false);
        }
        RustFlags {
            encoded: EnvString::new(encoded),
            cursor: Cursor { pos: 0, short: false, repeat: None },
        }
    }

    /// Produces all the flags that are left.
    pub fn collect(self) -> (flags: Vec<Flag>)
        ensures
            spec_flag_views(flags@) == self@,
    {
        let mut rest = self;
        let mut flags: Vec<Flag> = Vec::new();
        loop
            invariant_except_break
                spec_flag_views(flags@) + rest@ == self@,
            ensures
                spec_flag_views(flags@) == self@,
            decreases rest@.len(),
        {
            let ghost before = flags@;
            let ghost left = rest@;
            match rest.next() {
                Some(flag) => {
                    flags.push(flag);
                    assert(spec_flag_views(flags@) =~= spec_flag_views(before) + seq![flag@]);
                    assert(spec_flag_views(flags@) + rest@ =~= spec_flag_views(before) + left);
                },
                None => {
                    assert(spec_flag_views(flags@) + left =~= spec_flag_views(flags@));
                    break ;
                },
            }
        }
        flags
    }

    /// Produces the next flag, or `None` when no flag is left.
    pub fn next(&mut self) -> (flag: Option<Flag>)
        ensures
            match flag {
                Some(flag) => old(self)@.len() > 0 && flag@ == old(self)@[0] && final(self)@
                    == old(self)@.drop_first(),
                None => old(self)@.len() == 0 && final(self)@.len() == 0,
            },
            final(self).encoded() == old(self).encoded(),
            old(self).position() <= final(self).position() <= old(self).encoded().len(),
            flag is Some ==> old(self).position() < final(self).position(),
            is_boundary(final(self).encoded(), final(self).position()),
    {
        parse(self)
    }
}

/// Produces the next flag of `f`, or `None` when no flag is left.
///
/// Whatever the string holds, a flag or the end of the string is reached:
/// what is no flag, or does not fit the grammar of its flag, is passed over.
pub fn parse(f: &mut RustFlags) -> (flag: Option<Flag>)
    ensures
        match flag {
            Some(flag) => old(f)@.len() > 0 && flag@ == old(f)@[0] && final(f)@ == old(
                f,
            )@.drop_first(),
            None => old(f)@.len() == 0 && final(f)@.len() == 0,
        },
        final(f).encoded() == old(f).encoded(),
        old(f).position() <= final(f).position() <= old(f).encoded().len(),
        flag is Some ==> old(f).position() < final(f).position(),
        is_boundary(final(f).encoded(), final(f).position()),
{
    proof {
        use_type_invariant(&*f);
    }
    let encoded = f.encoded.as_env_str();
    let len = encoded.len();
    let mut cursor = f.cursor;
    let ghost first = f.cursor;
    while cursor.pos < len
        invariant
            encoded@ == f.encoded@,
            len == encoded@.len(),
            cursor_ok(encoded@, cursor),
            remaining_at(encoded@, cursor) == remaining_at(encoded@, first),
            f.encoded == old(f).encoded,
            first == old(f).cursor,
            first.pos <= cursor.pos,
        decreases len - cursor.pos,
    {
        let (flag, next) = match cursor.repeat {
            Some((kind, left)) => construct(
                &encoded,
                ConstructorFn::Repeated(kind),
                cursor.pos,
                cursor.pos + left,
                cursor.pos + left,
            ),
            None => if cursor.short {
                short_flag(&encoded, cursor.pos)
            } else {
                scan(&encoded, cursor.pos)
            },
        };
        if let Some(flag) = flag {
            assert(remaining_at(encoded@, next) =~= remaining_at(encoded@, first).drop_first());
            f.cursor = next;
            return Some(flag);
        }
        assert(remaining_at(encoded@, next) =~= remaining_at(encoded@, first));
        cursor = next;
    }
    proof {
        lemma_remaining(encoded@, len as int, cursor.short);
    }
    f.cursor = cursor;
    None
}

} // verus!
